//! How visibility, qualifiers, parameters and types are printed.

use crate::syntax::{FnArg, ReturnType, Signature, Type, TypeKind, Visibility};
use crate::text::join;
use vstd::prelude::*;
use vstd::string::*;

verus! {

/// `pub ` for a public declaration, nothing for any other.
pub open spec fn visibility_text(vis: Visibility) -> Seq<char> {
    if vis.is_public() {
        "pub "@
    } else {
        Seq::empty()
    }
}

/// A type as a report prints it: a path type by its path alone, any other
/// type by its whole token text.
pub open spec fn type_text(t: Type) -> Seq<char> {
    match t.kind {
        TypeKind::Path { path_text, .. } => path_text@,
        _ => t.text@,
    }
}

/// A parameter as a report prints it: `self` for a receiver, else the token
/// text of the parameter's type.
pub open spec fn arg_text(arg: FnArg) -> Seq<char> {
    match arg {
        FnArg::Receiver => "self"@,
        FnArg::Typed(t) => t.text@,
    }
}

/// The parameters, separated by a comma and a space.
pub open spec fn args_text(inputs: Seq<FnArg>) -> Seq<char> {
    join(inputs.map_values(|a: FnArg| arg_text(a)), ", "@)
}

/// The qualifiers of a signature in the order `async`, `const`, `unsafe`,
/// each followed by a space.
pub open spec fn qualifiers_text(sig: Signature) -> Seq<char> {
    (if sig.asyncness {
        "async "@
    } else {
        Seq::empty()
    }) + (if sig.constness {
        "const "@
    } else {
        Seq::empty()
    }) + (if sig.unsafety {
        "unsafe "@
    } else {
        Seq::empty()
    })
}

/// An arrow and the return type, or nothing where none is written.
pub open spec fn return_suffix_text(output: ReturnType) -> Seq<char> {
    match output {
        ReturnType::Default => Seq::empty(),
        ReturnType::Type(t) => " -> "@ + type_text(t),
    }
}

/// The return type, with `()` where none is written.
pub open spec fn return_type_text(output: ReturnType) -> Seq<char> {
    match output {
        ReturnType::Default => "()"@,
        ReturnType::Type(t) => type_text(t),
    }
}

/// What `join` adds for one more piece.
pub proof fn lemma_join_step(parts: Seq<Seq<char>>, sep: Seq<char>, i: int)
    requires
        0 <= i < parts.len(),
    ensures
        join(parts.take(i + 1), sep) == if i == 0 {
            parts[0]
        } else {
            join(parts.take(i), sep) + sep + parts[i]
        },
{
    assert(parts.take(i + 1).drop_last() =~= parts.take(i));
    assert(parts.take(i + 1).last() == parts[i]);
}

/// Appends `pub ` where the declaration is public.
pub fn push_visibility(out: &mut String, vis: Visibility)
    ensures
        final(out)@ == old(out)@ + visibility_text(vis),
{
    if vis.is_public() {
        out.append("pub ");
    }
}

/// The text that stands for a visibility.
pub fn visibility_to_string(vis: Visibility) -> (r: String)
    ensures
        r@ == visibility_text(vis),
{
    let mut r = String::new();
    push_visibility(&mut r, vis);
    r
}

/// Appends a type as a report prints it.
pub fn push_type(out: &mut String, t: &Type)
    ensures
        final(out)@ == old(out)@ + type_text(*t),
{
    match &t.kind {
        TypeKind::Path { path_text, .. } => out.append(path_text.as_str()),
        _ => out.append(t.text.as_str()),
    }
}

/// A type as a report prints it.
pub fn format_type(t: &Type) -> (r: String)
    ensures
        r@ == type_text(*t),
{
    let mut r = String::new();
    push_type(&mut r, t);
    r
}

/// Appends the parameters, separated by a comma and a space.
pub fn push_args(out: &mut String, inputs: &Vec<FnArg>)
    ensures
        final(out)@ == old(out)@ + args_text(inputs@),
{
    let ghost parts = inputs@.map_values(|a: FnArg| arg_text(a));
    let mut i: usize = 0;
    while i < inputs.len()
        invariant
            i <= inputs.len(),
            parts == inputs@.map_values(|a: FnArg| arg_text(a)),
            out@ == old(out)@ + join(parts.take(i as int), ", "@),
        decreases inputs.len() - i,
    {
        proof {
            lemma_join_step(parts, ", "@, i as int);
        }
        if i > 0 {
            out.append(", ");
        }
        match &inputs[i] {
            FnArg::Receiver => out.append("self"),
            FnArg::Typed(t) => out.append(t.text.as_str()),
        }
        i = i + 1;
    }
    proof {
        assert(parts.take(i as int) == parts);
    }
}

/// The parameters, separated by a comma and a space.
pub fn format_args(inputs: &Vec<FnArg>) -> (r: String)
    ensures
        r@ == args_text(inputs@),
{
    let mut r = String::new();
    push_args(&mut r, inputs);
    r
}

/// Appends the qualifiers of a signature.
pub fn push_qualifiers(out: &mut String, sig: &Signature)
    ensures
        final(out)@ == old(out)@ + qualifiers_text(*sig),
{
    if sig.asyncness {
        out.append("async ");
    }
    if sig.constness {
        out.append("const ");
    }
    if sig.unsafety {
        out.append("unsafe ");
    }
}

/// Appends an arrow and the return type where one is written.
pub fn push_return_suffix(out: &mut String, output: &ReturnType)
    ensures
        final(out)@ == old(out)@ + return_suffix_text(*output),
{
    match output {
        ReturnType::Default => {},
        ReturnType::Type(t) => {
            out.append(" -> ");
            push_type(out, t);
        },
    }
}

/// Appends the return type, `()` where none is written.
pub fn push_return_type(out: &mut String, output: &ReturnType)
    ensures
        final(out)@ == old(out)@ + return_type_text(*output),
{
    match output {
        ReturnType::Default => out.append("()"),
        ReturnType::Type(t) => push_type(out, t),
    }
}

} // verus!
