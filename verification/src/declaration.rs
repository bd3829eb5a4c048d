//! Type declarations and the text that a report prints for each.

use crate::signature::{
    args_text, lemma_join_step, push_args, push_qualifiers, push_return_suffix, push_type,
    push_visibility, qualifiers_text, return_suffix_text, type_text, visibility_text,
};
use crate::syntax::{
    Field, Fields, ItemEnum, ItemStruct, ItemTrait, ItemType, TraitItem, Variant, Visibility,
};
use crate::text::join;
use vstd::prelude::*;
use vstd::string::*;

verus! {

/// A declared type: a record, a sum type, an interface or an alias.
#[derive(Debug, PartialEq, Eq)]
pub enum TypeDeclaration {
    Struct(ItemStruct),
    Enum(ItemEnum),
    Trait(ItemTrait),
    Alias(ItemType),
}

impl TypeDeclaration {
    /// The name under which the declaration is indexed.
    pub open spec fn name(self) -> Seq<char> {
        match self {
            TypeDeclaration::Struct(s) => s.ident@,
            TypeDeclaration::Enum(e) => e.ident@,
            TypeDeclaration::Trait(t) => t.ident@,
            TypeDeclaration::Alias(a) => a.ident@,
        }
    }

    /// The declaration's own visibility.
    pub open spec fn visibility(self) -> Visibility {
        match self {
            TypeDeclaration::Struct(s) => s.vis,
            TypeDeclaration::Enum(e) => e.vis,
            TypeDeclaration::Trait(t) => t.vis,
            TypeDeclaration::Alias(a) => a.vis,
        }
    }

    /// The name under which the declaration is indexed.
    pub fn ident(&self) -> (r: &String)
        ensures
            r@ == self.name(),
    {
        match self {
            TypeDeclaration::Struct(s) => &s.ident,
            TypeDeclaration::Enum(e) => &e.ident,
            TypeDeclaration::Trait(t) => &t.ident,
            TypeDeclaration::Alias(a) => &a.ident,
        }
    }

    /// Whether the declaration is marked `pub`.
    pub fn is_public(&self) -> (r: bool)
        ensures
            r == self.visibility().is_public(),
    {
        match self {
            TypeDeclaration::Struct(s) => s.vis.is_public(),
            TypeDeclaration::Enum(e) => e.vis.is_public(),
            TypeDeclaration::Trait(t) => t.vis.is_public(),
            TypeDeclaration::Alias(a) => a.vis.is_public(),
        }
    }
}

/// The fields in the order written; none for a unit.
pub open spec fn fields_of(fields: Fields) -> Seq<Field> {
    match fields {
        Fields::Named(v) => v@,
        Fields::Unnamed(v) => v@,
        Fields::Unit => Seq::empty(),
    }
}

/// What stands for a field's name: its visibility and name, or its type
/// where it has no name.
pub open spec fn field_label(f: Field) -> Seq<char> {
    match f.ident {
        Some(id) => visibility_text(f.vis) + id@,
        None => type_text(f.ty),
    }
}

/// One line of a record: four spaces, the label, a colon and the type.
pub open spec fn field_line(f: Field) -> Seq<char> {
    "    "@ + field_label(f) + ": "@ + type_text(f.ty)
}

/// The text of a record: its header, one line for each field with a comma
/// between lines, and the closing brace.
pub open spec fn struct_text(s: ItemStruct) -> Seq<char> {
    visibility_text(s.vis) + "struct "@ + s.ident@ + " {\n"@ + join(
        fields_of(s.fields).map_values(|f: Field| field_line(f)),
        ",\n"@,
    ) + "\n}"@
}

/// The fields of a variant in braces: a single field with its type, several
/// by their labels alone.
pub open spec fn named_fields_text(fields: Seq<Field>) -> Seq<char> {
    if fields.len() == 1 {
        field_label(fields[0]) + ": "@ + type_text(fields[0].ty)
    } else {
        join(fields.map_values(|f: Field| field_label(f)), ", "@)
    }
}

/// A variant: a unit with the visibility of the sum type before its name, a
/// tuple with its types in parentheses, a record with its fields in braces.
pub open spec fn variant_text(vis: Visibility, v: Variant) -> Seq<char> {
    match v.fields {
        Fields::Unit => visibility_text(vis) + v.ident@,
        Fields::Unnamed(fields) => v.ident@ + "("@ + join(
            fields@.map_values(|f: Field| type_text(f.ty)),
            ", "@,
        ) + ")"@,
        Fields::Named(fields) => v.ident@ + "{ "@ + named_fields_text(fields@) + " }"@,
    }
}

/// The text of a sum type: its header, one indented line for each variant
/// with a comma between lines, and the closing brace.
pub open spec fn enum_text(e: ItemEnum) -> Seq<char> {
    visibility_text(e.vis) + "enum "@ + e.ident@ + " {\n"@ + join(
        e.variants@.map_values(|v: Variant| "    "@ + variant_text(e.vis, v)),
        ",\n"@,
    ) + "\n}"@
}

/// The line of one member of an interface; nothing for a member that is
/// neither a method, a type nor a constant.
pub open spec fn trait_item_text(vis: Visibility, item: TraitItem) -> Option<Seq<char>> {
    match item {
        TraitItem::Fn { sig } => Some(
            visibility_text(vis) + qualifiers_text(sig) + "fn "@ + sig.ident@ + "("@ + args_text(
                sig.inputs@,
            ) + ")"@ + return_suffix_text(sig.output) + ";"@,
        ),
        TraitItem::Type { ident } => Some("type "@ + ident@ + ";"@),
        TraitItem::Const { ident, ty } => Some("const "@ + ident@ + ": "@ + type_text(ty) + ";"@),
        TraitItem::Other => None,
    }
}

/// The indented lines of the members that have one, in the order written.
pub open spec fn trait_lines(vis: Visibility, items: Seq<TraitItem>) -> Seq<Seq<char>>
    decreases items.len(),
{
    if items.len() == 0 {
        Seq::empty()
    } else {
        match trait_item_text(vis, items.last()) {
            Some(line) => trait_lines(vis, items.drop_last()).push("    "@ + line),
            None => trait_lines(vis, items.drop_last()),
        }
    }
}

/// The text of an interface: its header, the lines of its members, each
/// on a line of its own, and the closing brace.
pub open spec fn trait_text(t: ItemTrait) -> Seq<char> {
    let lines = trait_lines(t.vis, t.items@);
    visibility_text(t.vis) + "trait "@ + t.ident@ + " {\n"@ + join(lines, "\n"@) + (if lines.len()
        == 0 {
        Seq::empty()
    } else {
        "\n"@
    }) + "}"@
}

/// The text of an alias.
pub open spec fn alias_text(a: ItemType) -> Seq<char> {
    visibility_text(a.vis) + "type "@ + a.ident@ + " = "@ + type_text(a.ty) + ";"@
}

/// The text that a report prints for a declaration.
pub open spec fn declaration_text(d: TypeDeclaration) -> Seq<char> {
    match d {
        TypeDeclaration::Struct(s) => struct_text(s),
        TypeDeclaration::Enum(e) => enum_text(e),
        TypeDeclaration::Trait(t) => trait_text(t),
        TypeDeclaration::Alias(a) => alias_text(a),
    }
}

fn push_field_label(out: &mut String, f: &Field)
    ensures
        final(out)@ == old(out)@ + field_label(*f),
{
    match &f.ident {
        Some(id) => {
            push_visibility(out, f.vis);
            out.append(id.as_str());
        },
        None => push_type(out, &f.ty),
    }
}

fn push_struct(out: &mut String, s: &ItemStruct)
    ensures
        final(out)@ == old(out)@ + struct_text(*s),
{
    push_visibility(out, s.vis);
    out.append("struct ");
    out.append(s.ident.as_str());
    out.append(" {\n");
    let ghost head = out@;
    let ghost lines = fields_of(s.fields).map_values(|f: Field| field_line(f));
    match &s.fields {
        Fields::Named(fields) => push_field_lines(out, fields),
        Fields::Unnamed(fields) => push_field_lines(out, fields),
        Fields::Unit => {
            assert(lines =~= Seq::empty());
        },
    }
    assert(out@ == head + join(lines, ",\n"@));
    out.append("\n}");
}

fn push_field_lines(out: &mut String, fields: &Vec<Field>)
    ensures
        final(out)@ == old(out)@ + join(fields@.map_values(|f: Field| field_line(f)), ",\n"@),
{
    let ghost lines = fields@.map_values(|f: Field| field_line(f));
    let mut i: usize = 0;
    while i < fields.len()
        invariant
            i <= fields.len(),
            lines == fields@.map_values(|f: Field| field_line(f)),
            out@ == old(out)@ + join(lines.take(i as int), ",\n"@),
        decreases fields.len() - i,
    {
        proof {
            lemma_join_step(lines, ",\n"@, i as int);
        }
        if i > 0 {
            out.append(",\n");
        }
        out.append("    ");
        push_field_label(out, &fields[i]);
        out.append(": ");
        push_type(out, &fields[i].ty);
        i = i + 1;
    }
    proof {
        assert(lines.take(i as int) == lines);
    }
}

fn push_variant(out: &mut String, vis: Visibility, v: &Variant)
    ensures
        final(out)@ == old(out)@ + variant_text(vis, *v),
{
    match &v.fields {
        Fields::Unit => {
            push_visibility(out, vis);
            out.append(v.ident.as_str());
        },
        Fields::Unnamed(fields) => {
            out.append(v.ident.as_str());
            out.append("(");
            let ghost head = out@;
            let ghost parts = fields@.map_values(|f: Field| type_text(f.ty));
            let mut i: usize = 0;
            while i < fields.len()
                invariant
                    i <= fields.len(),
                    parts == fields@.map_values(|f: Field| type_text(f.ty)),
                    out@ == head + join(parts.take(i as int), ", "@),
                decreases fields.len() - i,
            {
                proof {
                    lemma_join_step(parts, ", "@, i as int);
                }
                if i > 0 {
                    out.append(", ");
                }
                push_type(out, &fields[i].ty);
                i = i + 1;
            }
            proof {
                assert(parts.take(i as int) == parts);
            }
            out.append(")");
        },
        Fields::Named(fields) => {
            out.append(v.ident.as_str());
            out.append("{ ");
            if fields.len() == 1 {
                push_field_label(out, &fields[0]);
                out.append(": ");
                push_type(out, &fields[0].ty);
            } else {
                let ghost head = out@;
                let ghost parts = fields@.map_values(|f: Field| field_label(f));
                let mut i: usize = 0;
                while i < fields.len()
                    invariant
                        i <= fields.len(),
                        parts == fields@.map_values(|f: Field| field_label(f)),
                        out@ == head + join(parts.take(i as int), ", "@),
                    decreases fields.len() - i,
                {
                    proof {
                        lemma_join_step(parts, ", "@, i as int);
                    }
                    if i > 0 {
                        out.append(", ");
                    }
                    push_field_label(out, &fields[i]);
                    i = i + 1;
                }
                proof {
                    assert(parts.take(i as int) == parts);
                }
            }
            out.append(" }");
        },
    }
}

fn push_enum(out: &mut String, e: &ItemEnum)
    ensures
        final(out)@ == old(out)@ + enum_text(*e),
{
    push_visibility(out, e.vis);
    out.append("enum ");
    out.append(e.ident.as_str());
    out.append(" {\n");
    let ghost head = out@;
    let ghost lines = e.variants@.map_values(|v: Variant| "    "@ + variant_text(e.vis, v));
    let mut i: usize = 0;
    while i < e.variants.len()
        invariant
            i <= e.variants.len(),
            lines == e.variants@.map_values(|v: Variant| "    "@ + variant_text(e.vis, v)),
            out@ == head + join(lines.take(i as int), ",\n"@),
        decreases e.variants.len() - i,
    {
        proof {
            lemma_join_step(lines, ",\n"@, i as int);
        }
        if i > 0 {
            out.append(",\n");
        }
        out.append("    ");
        push_variant(out, e.vis, &e.variants[i]);
        i = i + 1;
    }
    proof {
        assert(lines.take(i as int) == lines);
    }
    out.append("\n}");
}

fn push_trait_item(out: &mut String, vis: Visibility, item: &TraitItem) -> (pushed: bool)
    ensures
        pushed == trait_item_text(vis, *item).is_some(),
        final(out)@ == old(out)@ + match trait_item_text(vis, *item) {
            Some(line) => line,
            None => Seq::empty(),
        },
{
    match item {
        TraitItem::Fn { sig } => {
            push_visibility(out, vis);
            push_qualifiers(out, sig);
            out.append("fn ");
            out.append(sig.ident.as_str());
            out.append("(");
            push_args(out, &sig.inputs);
            out.append(")");
            push_return_suffix(out, &sig.output);
            out.append(";");
            true
        },
        TraitItem::Type { ident } => {
            out.append("type ");
            out.append(ident.as_str());
            out.append(";");
            true
        },
        TraitItem::Const { ident, ty } => {
            out.append("const ");
            out.append(ident.as_str());
            out.append(": ");
            push_type(out, ty);
            out.append(";");
            true
        },
        TraitItem::Other => false,
    }
}

fn push_trait(out: &mut String, t: &ItemTrait)
    ensures
        final(out)@ == old(out)@ + trait_text(*t),
{
    push_visibility(out, t.vis);
    out.append("trait ");
    out.append(t.ident.as_str());
    out.append(" {\n");
    let ghost head = out@;
    let mut lines: usize = 0;
    let mut i: usize = 0;
    while i < t.items.len()
        invariant
            i <= t.items.len(),
            lines <= i,
            lines == trait_lines(t.vis, t.items@.take(i as int)).len(),
            out@ == head + join(trait_lines(t.vis, t.items@.take(i as int)), "\n"@),
        decreases t.items.len() - i,
    {
        let ghost before = trait_lines(t.vis, t.items@.take(i as int));
        let ghost after = trait_lines(t.vis, t.items@.take(i + 1));
        proof {
            assert(t.items@.take(i + 1).drop_last() =~= t.items@.take(i as int));
            assert(t.items@.take(i + 1).last() == t.items@[i as int]);
        }
        let mut line = String::new();
        let pushed = push_trait_item(&mut line, t.vis, &t.items[i]);
        if pushed {
            proof {
                assert(after == before.push("    "@ + line@));
                assert(after.take(lines as int) =~= before);
                lemma_join_step(after, "\n"@, lines as int);
                assert(after.take(lines + 1) =~= after);
            }
            if lines > 0 {
                out.append("\n");
            }
            out.append("    ");
            out.append(line.as_str());
            lines = lines + 1;
        }
        i = i + 1;
    }
    proof {
        assert(t.items@.take(i as int) == t.items@);
    }
    if lines > 0 {
        out.append("\n");
    }
    out.append("}");
}

fn push_alias(out: &mut String, a: &ItemType)
    ensures
        final(out)@ == old(out)@ + alias_text(*a),
{
    push_visibility(out, a.vis);
    out.append("type ");
    out.append(a.ident.as_str());
    out.append(" = ");
    push_type(out, &a.ty);
    out.append(";");
}

/// Appends the text of a declaration.
pub fn push_declaration(out: &mut String, item: &TypeDeclaration)
    ensures
        final(out)@ == old(out)@ + declaration_text(*item),
{
    match item {
        TypeDeclaration::Struct(s) => push_struct(out, s),
        TypeDeclaration::Enum(e) => push_enum(out, e),
        TypeDeclaration::Trait(t) => push_trait(out, t),
        TypeDeclaration::Alias(a) => push_alias(out, a),
    }
}

/// The text that a report prints for a declaration.
pub fn format_type_item(item: &TypeDeclaration) -> (r: String)
    ensures
        r@ == declaration_text(*item),
{
    let mut r = String::new();
    push_declaration(&mut r, item);
    r
}

} // verus!
