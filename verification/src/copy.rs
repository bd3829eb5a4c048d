//! Copies of the parts of a parsed file and of a function. A copy reads as
//! what it was made from: every text that a report prints for it and every
//! call found in it are the same.

use crate::calls::{
    arms_calls, arms_paths, callee_calls, expr_calls, expr_paths, stmts_calls, stmts_paths,
};
use crate::declaration::{
    declaration_text, trait_item_text, trait_lines, variant_text, TypeDeclaration,
};
use crate::function::{
    full_body_text, function_calls, function_paths, indented_statements, signature_text,
    source_text, Function, FunctionView,
};
use crate::syntax::{
    Arm, Block, Expr, Field, Fields, FnArg, ItemEnum, ItemStruct, ItemTrait, ItemType, ReturnType,
    Signature, Stmt, TraitItem, Type, TypeKind, Variant, Visibility,
};
use vstd::prelude::*;
use vstd::string::*;

verus! {

impl Clone for TypeKind {
    fn clone(&self) -> (r: Self)
        ensures
            r == *self,
        decreases self,
    {
        match self {
            TypeKind::Path { path_text, last_segment } => TypeKind::Path {
                path_text: path_text.clone(),
                last_segment: match last_segment {
                    Some(s) => Some(s.clone()),
                    None => None,
                },
            },
            TypeKind::Reference { elem } => TypeKind::Reference {
                elem: Box::new((&**elem).clone()),
            },
            TypeKind::Array { elem } => TypeKind::Array { elem: Box::new((&**elem).clone()) },
            TypeKind::Slice { elem } => TypeKind::Slice { elem: Box::new((&**elem).clone()) },
            TypeKind::Other => TypeKind::Other,
        }
    }
}

impl Clone for Type {
    fn clone(&self) -> (r: Self)
        ensures
            r == *self,
        decreases self,
    {
        Type { text: self.text.clone(), kind: self.kind.clone() }
    }
}

impl Clone for FnArg {
    fn clone(&self) -> (r: Self)
        ensures
            r == *self,
    {
        match self {
            FnArg::Receiver => FnArg::Receiver,
            FnArg::Typed(t) => FnArg::Typed(t.clone()),
        }
    }
}

impl Clone for ReturnType {
    fn clone(&self) -> (r: Self)
        ensures
            r == *self,
    {
        match self {
            ReturnType::Default => ReturnType::Default,
            ReturnType::Type(t) => ReturnType::Type(t.clone()),
        }
    }
}

impl Clone for Field {
    fn clone(&self) -> (r: Self)
        ensures
            r == *self,
    {
        Field {
            vis: self.vis,
            ident: match &self.ident {
                Some(s) => Some(s.clone()),
                None => None,
            },
            ty: self.ty.clone(),
        }
    }
}

/// Two headers read the same: the same qualifiers, name, parameters and
/// return type.
pub open spec fn signature_alike(a: Signature, b: Signature) -> bool {
    &&& a.constness == b.constness
    &&& a.asyncness == b.asyncness
    &&& a.unsafety == b.unsafety
    &&& a.ident == b.ident
    &&& a.inputs@ == b.inputs@
    &&& a.output == b.output
}

impl Clone for Signature {
    fn clone(&self) -> (r: Self)
        ensures
            signature_alike(r, *self),
    {
        let mut inputs: Vec<FnArg> = Vec::new();
        let mut i: usize = 0;
        while i < self.inputs.len()
            invariant
                i <= self.inputs.len(),
                inputs@ == self.inputs@.take(i as int),
            decreases self.inputs.len() - i,
        {
            inputs.push(self.inputs[i].clone());
            i = i + 1;
        }
        proof {
            assert(self.inputs@.take(i as int) == self.inputs@);
        }
        Signature {
            constness: self.constness,
            asyncness: self.asyncness,
            unsafety: self.unsafety,
            ident: self.ident.clone(),
            inputs,
            output: self.output.clone(),
        }
    }
}

/// Two expressions read the same: the same calls with the same labels
/// around them, and the same call where the expression is itself called.
pub open spec fn expr_alike(a: Expr, b: Expr) -> bool {
    &&& expr_calls(a) == expr_calls(b)
    &&& expr_paths(a) == expr_paths(b)
    &&& callee_calls(a) == callee_calls(b)
}

/// Two lists of statements read the same: the same calls with the same
/// labels around them, and the same lines.
pub open spec fn stmts_alike(a: Seq<Stmt>, b: Seq<Stmt>) -> bool {
    &&& a.len() == b.len()
    &&& stmts_calls(a) == stmts_calls(b)
    &&& stmts_paths(a) == stmts_paths(b)
    &&& indented_statements(a) == indented_statements(b)
}

/// Two statements read the same.
pub open spec fn stmt_alike(a: Stmt, b: Stmt) -> bool {
    match (a, b) {
        (Stmt::Expr { text: t1, expr: e1 }, Stmt::Expr { text: t2, expr: e2 }) => t1 == t2
            && expr_alike(e1, e2),
        (Stmt::Other, Stmt::Other) => true,
        _ => false,
    }
}

/// Two blocks read the same: the same token text and the same statements.
pub open spec fn block_alike(a: Block, b: Block) -> bool {
    a.text == b.text && stmts_alike(a.stmts@, b.stmts@)
}

/// Two arms read the same: the same pattern and the same body.
pub open spec fn arm_alike(a: Arm, b: Arm) -> bool {
    a.pat_text == b.pat_text && expr_alike(a.body, b.body)
}

impl Clone for Stmt {
    fn clone(&self) -> (r: Self)
        ensures
            stmt_alike(r, *self),
        decreases self,
    {
        match self {
            Stmt::Expr { text, expr } => Stmt::Expr { text: text.clone(), expr: expr.clone() },
            Stmt::Other => Stmt::Other,
        }
    }
}

impl Clone for Arm {
    fn clone(&self) -> (r: Self)
        ensures
            arm_alike(r, *self),
        decreases self,
    {
        Arm { pat_text: self.pat_text.clone(), body: self.body.clone() }
    }
}

impl Clone for Block {
    fn clone(&self) -> (r: Self)
        ensures
            block_alike(r, *self),
        decreases self,
    {
        let mut stmts: Vec<Stmt> = Vec::new();
        let mut i: usize = 0;
        while i < self.stmts.len()
            invariant
                i <= self.stmts.len(),
                stmts.len() == i,
                decreases_to!(self => self.stmts),
                stmts_alike(stmts@, self.stmts@.take(i as int)),
            decreases self.stmts.len() - i,
        {
            proof {
                vstd::std_specs::vec::axiom_vec_index_decreases(self.stmts, i as int);
            }
            let ghost before = stmts@;
            let copy = self.stmts[i].clone();
            stmts.push(copy);
            proof {
                assert(stmts@.drop_last() == before);
                assert(self.stmts@.take(i + 1).drop_last() == self.stmts@.take(i as int));
                assert(self.stmts@.take(i + 1).last() == self.stmts@[i as int]);
            }
            i = i + 1;
        }
        proof {
            assert(self.stmts@.take(i as int) == self.stmts@);
        }
        Block { text: self.text.clone(), stmts }
    }
}

impl Clone for Expr {
    fn clone(&self) -> (r: Self)
        ensures
            expr_alike(r, *self),
        decreases self,
    {
        match self {
            Expr::Call { func } => Expr::Call { func: Box::new((&**func).clone()) },
            Expr::MethodCall { method } => Expr::MethodCall { method: method.clone() },
            Expr::Path { last_segment } => Expr::Path {
                last_segment: match last_segment {
                    Some(s) => Some(s.clone()),
                    None => None,
                },
            },
            Expr::Unary { expr } => Expr::Unary { expr: Box::new((&**expr).clone()) },
            Expr::Binary { left, right } => Expr::Binary {
                left: Box::new((&**left).clone()),
                right: Box::new((&**right).clone()),
            },
            Expr::Group { expr } => Expr::Group { expr: Box::new((&**expr).clone()) },
            Expr::Block { block } => Expr::Block { block: block.clone() },
            Expr::If { cond_text, cond, then_branch, else_branch } => Expr::If {
                cond_text: cond_text.clone(),
                cond: Box::new((&**cond).clone()),
                then_branch: then_branch.clone(),
                else_branch: match else_branch {
                    Some(other) => Some(Box::new((&**other).clone())),
                    None => None,
                },
            },
            Expr::Match { expr, arms } => {
                let mut copies: Vec<Arm> = Vec::new();
                let mut i: usize = 0;
                while i < arms.len()
                    invariant
                        i <= arms.len(),
                        copies.len() == i,
                        decreases_to!(self => arms),
                        arms_calls(copies@) == arms_calls(arms@.take(i as int)),
                        arms_paths(copies@) == arms_paths(arms@.take(i as int)),
                    decreases arms.len() - i,
                {
                    proof {
                        vstd::std_specs::vec::axiom_vec_index_decreases(*arms, i as int);
                    }
                    let ghost before = copies@;
                    let copy = arms[i].clone();
                    copies.push(copy);
                    proof {
                        assert(copies@.drop_last() == before);
                        assert(arms@.take(i + 1).drop_last() == arms@.take(i as int));
                        assert(arms@.take(i + 1).last() == arms@[i as int]);
                    }
                    i = i + 1;
                }
                proof {
                    assert(arms@.take(i as int) == arms@);
                }
                Expr::Match { expr: Box::new((&**expr).clone()), arms: copies }
            },
            Expr::Loop { body } => Expr::Loop { body: body.clone() },
            Expr::While { cond_text, cond, body } => Expr::While {
                cond_text: cond_text.clone(),
                cond: Box::new((&**cond).clone()),
                body: body.clone(),
            },
            Expr::ForLoop { expr_text, expr, body } => Expr::ForLoop {
                expr_text: expr_text.clone(),
                expr: Box::new((&**expr).clone()),
                body: body.clone(),
            },
            Expr::Async { block } => Expr::Async { block: block.clone() },
            Expr::Try { expr } => Expr::Try { expr: Box::new((&**expr).clone()) },
            Expr::Macro { last_segment } => Expr::Macro {
                last_segment: match last_segment {
                    Some(s) => Some(s.clone()),
                    None => None,
                },
            },
            Expr::Other => Expr::Other,
        }
    }
}

/// Two functions read the same: the same visibility, key and header, and
/// bodies that read the same, or no body in either.
pub open spec fn function_alike(a: FunctionView, b: FunctionView) -> bool {
    &&& a.vis == b.vis
    &&& a.qualified_name == b.qualified_name
    &&& signature_alike(a.sig, b.sig)
    &&& match (a.block, b.block) {
        (Some(x), Some(y)) => block_alike(x, y),
        (None, None) => true,
        _ => false,
    }
}

/// Functions that read the same have the same header line, the same body
/// in both printed forms, and the same calls with the same labels.
pub proof fn lemma_function_alike(a: FunctionView, b: FunctionView)
    requires
        function_alike(a, b),
    ensures
        signature_text(a) == signature_text(b),
        full_body_text(a) == full_body_text(b),
        source_text(a) == source_text(b),
        function_calls(a) == function_calls(b),
        function_paths(a) == function_paths(b),
{
}

impl Clone for Function {
    fn clone(&self) -> (r: Self)
        ensures
            function_alike(r@, self@),
    {
        Function {
            vis: self.vis,
            sig: self.sig.clone(),
            block: match &self.block {
                Some(block) => Some(block.clone()),
                None => None,
            },
            qualified_name: self.qualified_name.clone(),
        }
    }
}

/// Two lists of fields are of one kind and hold the same fields.
pub open spec fn fields_alike(a: Fields, b: Fields) -> bool {
    match (a, b) {
        (Fields::Named(x), Fields::Named(y)) => x@ == y@,
        (Fields::Unnamed(x), Fields::Unnamed(y)) => x@ == y@,
        (Fields::Unit, Fields::Unit) => true,
        _ => false,
    }
}

/// Two variants have the same name and fields.
pub open spec fn variant_alike(a: Variant, b: Variant) -> bool {
    a.ident == b.ident && fields_alike(a.fields, b.fields)
}

/// Two members of an interface are of one kind and read the same.
pub open spec fn trait_item_alike(a: TraitItem, b: TraitItem) -> bool {
    match (a, b) {
        (TraitItem::Fn { sig: x }, TraitItem::Fn { sig: y }) => signature_alike(x, y),
        (TraitItem::Type { ident: x }, TraitItem::Type { ident: y }) => x == y,
        (TraitItem::Const { ident: x, ty: t }, TraitItem::Const { ident: y, ty: u }) => x == y
            && t == u,
        (TraitItem::Other, TraitItem::Other) => true,
        _ => false,
    }
}

/// Two declarations are of one kind, have the same name and visibility, and
/// are printed as the same text.
pub open spec fn declaration_alike(a: TypeDeclaration, b: TypeDeclaration) -> bool {
    &&& a.name() == b.name()
    &&& a.visibility() == b.visibility()
    &&& declaration_text(a) == declaration_text(b)
    &&& (a is Struct <==> b is Struct)
    &&& (a is Enum <==> b is Enum)
    &&& (a is Trait <==> b is Trait)
    &&& (a is Alias <==> b is Alias)
}

fn copy_fields(fields: &Vec<Field>) -> (r: Vec<Field>)
    ensures
        r@ == fields@,
{
    let mut r: Vec<Field> = Vec::new();
    let mut i: usize = 0;
    while i < fields.len()
        invariant
            i <= fields.len(),
            r@ == fields@.take(i as int),
        decreases fields.len() - i,
    {
        r.push(fields[i].clone());
        i = i + 1;
    }
    proof {
        assert(fields@.take(i as int) == fields@);
    }
    r
}

impl Clone for Fields {
    fn clone(&self) -> (r: Self)
        ensures
            fields_alike(r, *self),
    {
        match self {
            Fields::Named(fields) => Fields::Named(copy_fields(fields)),
            Fields::Unnamed(fields) => Fields::Unnamed(copy_fields(fields)),
            Fields::Unit => Fields::Unit,
        }
    }
}

impl Clone for Variant {
    fn clone(&self) -> (r: Self)
        ensures
            variant_alike(r, *self),
    {
        Variant { ident: self.ident.clone(), fields: self.fields.clone() }
    }
}

impl Clone for TraitItem {
    fn clone(&self) -> (r: Self)
        ensures
            trait_item_alike(r, *self),
    {
        match self {
            TraitItem::Fn { sig } => TraitItem::Fn { sig: sig.clone() },
            TraitItem::Type { ident } => TraitItem::Type { ident: ident.clone() },
            TraitItem::Const { ident, ty } => TraitItem::Const {
                ident: ident.clone(),
                ty: ty.clone(),
            },
            TraitItem::Other => TraitItem::Other,
        }
    }
}

impl Clone for ItemStruct {
    fn clone(&self) -> (r: Self)
        ensures
            declaration_alike(TypeDeclaration::Struct(r), TypeDeclaration::Struct(*self)),
    {
        ItemStruct { vis: self.vis, ident: self.ident.clone(), fields: self.fields.clone() }
    }
}

impl Clone for ItemEnum {
    fn clone(&self) -> (r: Self)
        ensures
            declaration_alike(TypeDeclaration::Enum(r), TypeDeclaration::Enum(*self)),
    {
        let mut variants: Vec<Variant> = Vec::new();
        let mut i: usize = 0;
        while i < self.variants.len()
            invariant
                i <= self.variants.len(),
                variants.len() == i,
                forall|k: int|
                    0 <= k < i ==> variant_alike(#[trigger] variants[k], self.variants[k]),
            decreases self.variants.len() - i,
        {
            variants.push(self.variants[i].clone());
            i = i + 1;
        }
        let r = ItemEnum { vis: self.vis, ident: self.ident.clone(), variants };
        proof {
            let lines = |v: Variant| "    "@ + variant_text(self.vis, v);
            assert(r.variants@.map_values(lines) =~= self.variants@.map_values(lines)) by {
                assert forall|k: int| 0 <= k < r.variants.len() implies lines(r.variants[k])
                    == lines(self.variants[k]) by {
                    assert(variant_alike(r.variants[k], self.variants[k]));
                }
            }
        }
        r
    }
}

proof fn lemma_trait_lines_alike(vis: Visibility, a: Seq<TraitItem>, b: Seq<TraitItem>)
    requires
        a.len() == b.len(),
        forall|k: int| 0 <= k < a.len() ==> trait_item_alike(#[trigger] a[k], b[k]),
    ensures
        trait_lines(vis, a) == trait_lines(vis, b),
    decreases a.len(),
{
    if a.len() > 0 {
        assert forall|k: int| 0 <= k < a.drop_last().len() implies trait_item_alike(
            #[trigger] a.drop_last()[k],
            b.drop_last()[k],
        ) by {
            assert(trait_item_alike(a[k], b[k]));
        }
        lemma_trait_lines_alike(vis, a.drop_last(), b.drop_last());
        assert(trait_item_alike(a[a.len() - 1], b[a.len() - 1]));
        assert(trait_item_text(vis, a.last()) == trait_item_text(vis, b.last()));
    }
}

impl Clone for ItemTrait {
    fn clone(&self) -> (r: Self)
        ensures
            declaration_alike(TypeDeclaration::Trait(r), TypeDeclaration::Trait(*self)),
    {
        let mut items: Vec<TraitItem> = Vec::new();
        let mut i: usize = 0;
        while i < self.items.len()
            invariant
                i <= self.items.len(),
                items.len() == i,
                forall|k: int| 0 <= k < i ==> trait_item_alike(#[trigger] items[k], self.items[k]),
            decreases self.items.len() - i,
        {
            items.push(self.items[i].clone());
            i = i + 1;
        }
        let r = ItemTrait { vis: self.vis, ident: self.ident.clone(), items };
        proof {
            lemma_trait_lines_alike(self.vis, r.items@, self.items@);
        }
        r
    }
}

impl Clone for ItemType {
    fn clone(&self) -> (r: Self)
        ensures
            r == *self,
    {
        ItemType { vis: self.vis, ident: self.ident.clone(), ty: self.ty.clone() }
    }
}

impl Clone for TypeDeclaration {
    fn clone(&self) -> (r: Self)
        ensures
            declaration_alike(r, *self),
    {
        match self {
            TypeDeclaration::Struct(s) => TypeDeclaration::Struct(s.clone()),
            TypeDeclaration::Enum(e) => TypeDeclaration::Enum(e.clone()),
            TypeDeclaration::Trait(t) => TypeDeclaration::Trait(t.clone()),
            TypeDeclaration::Alias(a) => TypeDeclaration::Alias(a.clone()),
        }
    }
}

} // verus!
