//! An indexed function: its key, its header, and the text of its reports.

use crate::calls::{
    block_calls, block_paths, call_views, contexts_follow, extract_calls_from_block,
    lemma_block_contexts, CallSite, CallSiteView,
};
use crate::signature::{
    args_text, push_args, push_qualifiers, push_return_suffix, push_return_type, push_visibility,
    qualifiers_text, return_suffix_text, return_type_text, visibility_text,
};
use crate::syntax::{Block, ImplItemFn, ItemFn, Signature, Stmt, Visibility};
use crate::text::{
    after_first_separator, before_first_separator, chars_of, contains_text, find_separator,
    lemma_first_occurrence_found, lemma_separator_literal, occurs_at, separator,
};
use vstd::prelude::*;
use vstd::string::*;

verus! {

/// A function of the analysed sources.
///
/// `qualified_name` is the key under which the function is indexed: the path
/// of its file, a separator, for a method the type it belongs to and another
/// separator, and the function's own name. `block` is absent for a
/// declaration without a body.
#[derive(Debug, PartialEq, Eq)]
pub struct Function {
    pub vis: Visibility,
    pub sig: Signature,
    pub block: Option<Block>,
    pub qualified_name: String,
}

/// A function with its key as text.
pub struct FunctionView {
    pub vis: Visibility,
    pub sig: Signature,
    pub block: Option<Block>,
    pub qualified_name: Seq<char>,
}

impl View for Function {
    type V = FunctionView;

    open spec fn view(&self) -> FunctionView {
        FunctionView {
            vis: self.vis,
            sig: self.sig,
            block: self.block,
            qualified_name: self.qualified_name@,
        }
    }
}

/// The functions of a list with their keys as text.
pub open spec fn function_views(fs: Seq<Function>) -> Seq<FunctionView> {
    fs.map_values(|f: Function| f@)
}

/// The key of a free function.
pub open spec fn free_function_name(file_path: Seq<char>, ident: Seq<char>) -> Seq<char> {
    file_path + separator() + ident
}

/// The key of a method of the type `target`.
pub open spec fn method_name(file_path: Seq<char>, target: Seq<char>, ident: Seq<char>) -> Seq<
    char,
> {
    file_path + separator() + target + separator() + ident
}

/// The free function `f` of the file `file_path`, as it is indexed.
pub open spec fn free_function(f: ItemFn, file_path: Seq<char>) -> FunctionView {
    FunctionView {
        vis: f.vis,
        sig: f.sig,
        block: Some(f.block),
        qualified_name: free_function_name(file_path, f.sig.ident@),
    }
}

/// The method `m` of the type `target` in the file `file_path`, as it is
/// indexed.
pub open spec fn method_function(m: ImplItemFn, target: Seq<char>, file_path: Seq<char>) -> FunctionView {
    FunctionView {
        vis: m.vis,
        sig: m.sig,
        block: Some(m.block),
        qualified_name: method_name(file_path, target, m.sig.ident@),
    }
}

/// The header line of a function in a listing: visibility, qualifiers, `fn`,
/// the whole key, the parameters in parentheses, an arrow and the return
/// type, which is `()` where none is written.
pub open spec fn signature_text(f: FunctionView) -> Seq<char> {
    visibility_text(f.vis) + qualifiers_text(f.sig) + "fn "@ + f.qualified_name + "("@ + args_text(
        f.sig.inputs@,
    ) + ") -> "@ + return_type_text(f.sig.output)
}

/// One line for each expression statement: two spaces, its token text and a
/// line end. Other statements give no line.
pub open spec fn indented_statements(stmts: Seq<Stmt>) -> Seq<char>
    decreases stmts.len(),
{
    if stmts.len() == 0 {
        Seq::empty()
    } else {
        indented_statements(stmts.drop_last()) + (match stmts.last() {
            Stmt::Expr { text, .. } => "  "@ + text@ + "\n"@,
            Stmt::Other => Seq::empty(),
        })
    }
}

/// The header line, then the expression statements of the body between
/// braces, or `{ ... }` where there is no body.
pub open spec fn full_body_text(f: FunctionView) -> Seq<char> {
    match f.block {
        Some(block) => signature_text(f) + "\n{\n"@ + indented_statements(block.stmts@) + "}\n"@,
        None => signature_text(f) + "\n{ ... }\n"@,
    }
}

/// The call sites of the body, in source order; none without a body.
pub open spec fn function_calls(f: FunctionView) -> Seq<CallSiteView> {
    match f.block {
        Some(block) => block_calls(block),
        None => Seq::empty(),
    }
}

/// For each call site of the body, the labels of the labelling constructs
/// around it, the outermost first and the nearest last.
pub open spec fn function_paths(f: FunctionView) -> Seq<Seq<Seq<char>>> {
    match f.block {
        Some(block) => block_paths(block),
        None => Seq::empty(),
    }
}

/// In every function a call site has a context exactly when a labelling
/// construct of the body stands around it, and the context is the label of
/// the innermost such construct, the one nearest to the call.
pub proof fn lemma_function_contexts(f: FunctionView)
    ensures
        contexts_follow(function_calls(f), function_paths(f)),
{
    match f.block {
        Some(block) => lemma_block_contexts(block),
        None => {},
    }
}

/// The function as source: visibility, qualifiers, `fn`, the key without its
/// file path, the parameters, the return type where one is written, and the
/// token text of the body, or `{ ... }` where there is no body.
pub open spec fn source_text(f: FunctionView) -> Seq<char> {
    visibility_text(f.vis) + qualifiers_text(f.sig) + "fn "@ + after_first_separator(
        f.qualified_name,
    ) + "("@ + args_text(f.sig.inputs@) + ")"@ + return_suffix_text(f.sig.output) + " "@ + (match f.block {
        Some(block) => block.text@,
        None => "{ ... }"@,
    }) + "\n"@
}

/// The file that a key names: what stands before its first separator.
pub open spec fn file_of_name(qualified_name: Seq<char>) -> Option<Seq<char>> {
    before_first_separator(qualified_name)
}

impl Function {
    /// The header line of the function in a listing.
    pub fn signature(&self) -> (r: String)
        ensures
            r@ == signature_text(self@),
    {
        let mut r = String::new();
        self.push_signature(&mut r);
        r
    }

    /// Appends the header line of the function in a listing.
    pub fn push_signature(&self, out: &mut String)
        ensures
            final(out)@ == old(out)@ + signature_text(self@),
    {
        push_visibility(out, self.vis);
        push_qualifiers(out, &self.sig);
        out.append("fn ");
        out.append(self.qualified_name.as_str());
        out.append("(");
        push_args(out, &self.sig.inputs);
        out.append(") -> ");
        push_return_type(out, &self.sig.output);
    }

    /// The header line and the expression statements of the body.
    pub fn full_body(&self) -> (r: String)
        ensures
            r@ == full_body_text(self@),
    {
        let mut r = self.signature();
        match &self.block {
            Some(block) => {
                r.append("\n{\n");
                let ghost head = r@;
                let mut i: usize = 0;
                while i < block.stmts.len()
                    invariant
                        i <= block.stmts.len(),
                        r@ == head + indented_statements(block.stmts@.take(i as int)),
                    decreases block.stmts.len() - i,
                {
                    proof {
                        assert(block.stmts@.take(i + 1).drop_last() == block.stmts@.take(i as int));
                    }
                    match &block.stmts[i] {
                        Stmt::Expr { text, .. } => {
                            r.append("  ");
                            r.append(text.as_str());
                            r.append("\n");
                        },
                        Stmt::Other => {},
                    }
                    i = i + 1;
                }
                proof {
                    assert(block.stmts@.take(i as int) == block.stmts@);
                }
                r.append("}\n");
            },
            None => {
                r.append("\n{ ... }\n");
            },
        }
        r
    }

    /// The call sites of the body, in source order.
    pub fn calls(&self) -> (r: Vec<CallSite>)
        ensures
            call_views(r@) == function_calls(self@),
    {
        let mut calls: Vec<CallSite> = Vec::new();
        match &self.block {
            Some(block) => extract_calls_from_block(block, &mut calls),
            None => {},
        }
        calls
    }

    /// The free function `f` of the file `file_path`, as it is indexed.
    pub fn from_fn(f: ItemFn, file_path: &str) -> (r: Function)
        ensures
            r@ == free_function(f, file_path@),
    {
        let mut name = String::from_str(file_path);
        name.append("::");
        name.append(f.sig.ident.as_str());
        proof {
            lemma_separator_literal();
        }
        Function { vis: f.vis, sig: f.sig, block: Some(f.block), qualified_name: name }
    }

    /// The method `method` of the type printed as `impl_target_str`, in the
    /// file `file_path`, as it is indexed.
    pub fn from_impl_method(method: ImplItemFn, impl_target_str: String, file_path: &str) -> (r:
        Function)
        ensures
            r@ == method_function(method, impl_target_str@, file_path@),
    {
        let mut name = String::from_str(file_path);
        name.append("::");
        name.append(impl_target_str.as_str());
        name.append("::");
        name.append(method.sig.ident.as_str());
        proof {
            lemma_separator_literal();
        }
        Function {
            vis: method.vis,
            sig: method.sig,
            block: Some(method.block),
            qualified_name: name,
        }
    }

    /// Whether the function is marked `pub`.
    pub fn is_public(&self) -> (r: bool)
        ensures
            r == self.vis.is_public(),
    {
        self.vis.is_public()
    }
}

/// A key that begins with a file path and a separator names that file,
/// where the path holds no separator and does not end with a colon.
pub proof fn lemma_key_names_its_file(file_path: Seq<char>, rest: Seq<char>)
    requires
        !contains_text(file_path, separator()),
        file_path.len() == 0 || file_path.last() != ':',
    ensures
        file_of_name(file_path + separator() + rest) == Some(file_path),
        after_first_separator(file_path + separator() + rest) == rest,
{
    let key = file_path + separator() + rest;
    let at = file_path.len() as int;
    assert(key.subrange(at, at + 2) =~= separator());
    assert forall|j: int| 0 <= j < at implies !occurs_at(key, separator(), j) by {
        if occurs_at(key, separator(), j) {
            assert(key.subrange(j, j + 2)[0] == ':');
            assert(key.subrange(j, j + 2)[1] == ':');
            if j + 1 < at {
                assert(file_path.subrange(j, j + 2) =~= separator());
                assert(occurs_at(file_path, separator(), j));
            } else {
                assert(key[j] == file_path.last());
            }
        }
    }
    lemma_first_occurrence_found(key, separator(), at);
    assert(key.subrange(0, at) =~= file_path);
    assert(key.subrange(at + 2, key.len() as int) =~= rest);
}

/// The error for a name that means no function.
pub open spec fn not_found_message(name: Seq<char>) -> Seq<char> {
    "Function '"@ + name + "' not found"@
}

/// The error for a key without a separator.
pub open spec fn malformed_key_message(qualified_name: Seq<char>) -> Seq<char> {
    "Invalid qualified name format: "@ + qualified_name
}

/// The file that a key names, or the error for a key without a separator.
pub open spec fn file_or_error(qualified_name: Seq<char>) -> Result<Seq<char>, Seq<char>> {
    match file_of_name(qualified_name) {
        Some(file) => Ok(file),
        None => Err(malformed_key_message(qualified_name)),
    }
}

/// The error for a name that means no function.
pub fn not_found(name: &str) -> (r: String)
    ensures
        r@ == not_found_message(name@),
{
    let mut r = String::from_str("Function '");
    r.append(name);
    r.append("' not found");
    r
}

/// The file that a key names: what stands before its first separator. A
/// key without a separator is refused.
pub fn find_file_for_function(qualified_name: &str) -> (r: Result<String, String>)
    ensures
        match r {
            Ok(file) => file_or_error(qualified_name@) == Ok::<Seq<char>, Seq<char>>(file@),
            Err(e) => file_or_error(qualified_name@) == Err::<Seq<char>, Seq<char>>(e@),
        },
{
    let name = chars_of(qualified_name);
    match find_separator(&name) {
        Some(i) => Ok(String::from_str(qualified_name.substring_char(0, i))),
        None => {
            let mut e = String::from_str("Invalid qualified name format: ");
            e.append(qualified_name);
            Err(e)
        },
    }
}

/// The texts of the keys of the functions, for indexed access.
pub fn name_table(fs: &Vec<Function>) -> (r: Vec<Vec<char>>)
    ensures
        r.len() == fs.len(),
        forall|i: int| 0 <= i < fs.len() ==> (#[trigger] r[i])@ == fs[i].qualified_name@,
{
    let mut r: Vec<Vec<char>> = Vec::new();
    let mut i: usize = 0;
    while i < fs.len()
        invariant
            i <= fs.len(),
            r.len() == i,
            forall|k: int| 0 <= k < i ==> (#[trigger] r[k])@ == fs[k].qualified_name@,
        decreases fs.len() - i,
    {
        r.push(chars_of(fs[i].qualified_name.as_str()));
        i = i + 1;
    }
    r
}

/// The function as source.
pub fn format_function_source(func: &Function) -> (r: String)
    ensures
        r@ == source_text(func@),
{
    let mut r = String::new();
    push_visibility(&mut r, func.vis);
    push_qualifiers(&mut r, &func.sig);
    r.append("fn ");
    let name = chars_of(func.qualified_name.as_str());
    match find_separator(&name) {
        Some(i) => {
            let shown = func.qualified_name.as_str().substring_char(i + 2, name.len());
            r.append(shown);
        },
        None => {
            r.append(func.qualified_name.as_str());
        },
    }
    r.append("(");
    push_args(&mut r, &func.sig.inputs);
    r.append(")");
    push_return_suffix(&mut r, &func.sig.output);
    r.append(" ");
    match &func.block {
        Some(block) => r.append(block.text.as_str()),
        None => r.append("{ ... }"),
    }
    r.append("\n");
    r
}

} // verus!
