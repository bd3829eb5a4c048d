//! The call tree of a function as indented text.
//!
//! Each call site of a function is one line below it. A call that means a
//! function of the chosen subset is followed by that function's own calls,
//! one level deeper, unless the function was shown earlier in the same tree.

use crate::calls::{call_views, CallSite, CallSiteView};
use crate::function::{
    function_calls, function_views, signature_text, Function, FunctionView,
};
use crate::project::function_names;
use crate::text::distinct;
use crate::resolve::{resolve, resolve_call, table_texts};
use crate::text::{chars_of, last_segment, last_segment_start};
use crate::trace::filled;
use vstd::prelude::*;
use vstd::string::*;

verus! {

/// The marker before a call: a corner for the last call of a function, a
/// tee for any other.
pub open spec fn branch_text(is_last: bool) -> Seq<char> {
    if is_last {
        "└── "@
    } else {
        "├── "@
    }
}

/// What the lines below a call begin with, after the prefix of the call
/// itself: spaces below a last call, a bar and spaces below any other.
pub open spec fn continuation_text(is_last: bool) -> Seq<char> {
    if is_last {
        "    "@
    } else {
        "│   "@
    }
}

/// The note on the construct around a call, where there is one.
pub open spec fn context_note(context: Option<Seq<char>>) -> Seq<char> {
    match context {
        Some(c) => " [in: "@ + c + "]"@,
        None => Seq::empty(),
    }
}

/// The name shown for a call: the last segment of the key of the function
/// it means, or the name as called where it means none.
pub open spec fn shown_name(names: Seq<Seq<char>>, member: Seq<bool>, call: CallSiteView) -> Seq<
    char,
> {
    match resolve(names, member, call.name) {
        Some(j) => last_segment(names[j]),
        None => call.name,
    }
}

/// The line of a call without its end: prefix, marker, name and note.
pub open spec fn call_line(
    names: Seq<Seq<char>>,
    member: Seq<bool>,
    call: CallSiteView,
    prefix: Seq<char>,
    is_last: bool,
) -> Seq<char> {
    prefix + branch_text(is_last) + shown_name(names, member, call) + context_note(call.context)
}

/// The text of a part of a tree, and which functions the tree has shown
/// when the part ends.
pub struct Rendering {
    pub text: Seq<char>,
    pub shown: Seq<bool>,
}

/// The lines for the call sites of function `f` from the `k`-th on, and
/// all that stands below them.
///
/// `shown` marks the functions shown so far in this tree. `budget` bounds
/// the depth below this point; the number of functions not yet shown is
/// always enough.
pub open spec fn render_children(
    fs: Seq<FunctionView>,
    member: Seq<bool>,
    f: int,
    k: int,
    shown: Seq<bool>,
    prefix: Seq<char>,
    budget: nat,
) -> Rendering
    decreases budget, function_calls(fs[f]).len() - k + 1,
{
    let calls = function_calls(fs[f]);
    if k < 0 || k >= calls.len() {
        Rendering { text: Seq::empty(), shown }
    } else {
        let is_last = k == calls.len() - 1;
        let line = call_line(function_names(fs), member, calls[k], prefix, is_last);
        let first = match resolve(function_names(fs), member, calls[k].name) {
            Some(j) => if 0 <= j < shown.len() && !shown[j] {
                let below = render_subtree(
                    fs,
                    member,
                    j,
                    shown,
                    prefix + continuation_text(is_last),
                    budget,
                );
                Rendering { text: line + "\n"@ + below.text, shown: below.shown }
            } else {
                Rendering { text: line + " (already shown)\n"@, shown }
            },
            None => Rendering { text: line + "\n"@, shown },
        };
        let rest = render_children(fs, member, f, k + 1, first.shown, prefix, budget);
        Rendering { text: first.text + rest.text, shown: rest.shown }
    }
}

/// All that stands below function `f`, which is marked as shown first.
pub open spec fn render_subtree(
    fs: Seq<FunctionView>,
    member: Seq<bool>,
    f: int,
    shown: Seq<bool>,
    prefix: Seq<char>,
    budget: nat,
) -> Rendering
    decreases budget, 0int,
{
    if budget == 0 {
        Rendering { text: Seq::empty(), shown }
    } else {
        render_children(fs, member, f, 0, shown.update(f, true), prefix, (budget - 1) as nat)
    }
}

/// No function is shown yet.
pub open spec fn none_shown(n: nat) -> Seq<bool> {
    Seq::new(n, |i: int| false)
}

/// The tree of function `root`: its header line, then its calls and what
/// stands below them, resolved within the subset `member`.
pub open spec fn tree_text(fs: Seq<FunctionView>, member: Seq<bool>, root: int) -> Seq<char> {
    signature_text(fs[root]) + "\n"@ + render_subtree(
        fs,
        member,
        root,
        none_shown(fs.len()),
        Seq::empty(),
        fs.len(),
    ).text
}

/// How many functions are not yet shown.
pub open spec fn unshown(shown: Seq<bool>) -> nat
    decreases shown.len(),
{
    if shown.len() == 0 {
        0
    } else {
        unshown(shown.drop_last()) + (if shown.last() {
            0nat
        } else {
            1nat
        })
    }
}

proof fn lemma_unshown_bound(shown: Seq<bool>)
    ensures
        unshown(shown) <= shown.len(),
    decreases shown.len(),
{
    if shown.len() > 0 {
        lemma_unshown_bound(shown.drop_last());
    }
}

proof fn lemma_unshown_mark(shown: Seq<bool>, j: int)
    requires
        0 <= j < shown.len(),
        !shown[j],
    ensures
        unshown(shown.update(j, true)) + 1 == unshown(shown),
    decreases shown.len(),
{
    let last = shown.len() - 1;
    if j == last {
        assert(shown.update(j, true).drop_last() =~= shown.drop_last());
    } else {
        lemma_unshown_mark(shown.drop_last(), j);
        assert(shown.update(j, true).drop_last() =~= shown.drop_last().update(j, true));
    }
}

proof fn lemma_unshown_shrinks(a: Seq<bool>, b: Seq<bool>)
    requires
        a.len() == b.len(),
        forall|i: int| 0 <= i < a.len() && a[i] ==> b[i],
    ensures
        unshown(b) <= unshown(a),
    decreases a.len(),
{
    if a.len() > 0 {
        lemma_unshown_shrinks(a.drop_last(), b.drop_last());
    }
}

/// With a budget of at least the number of functions not yet shown, the
/// lines of the calls of a function do not depend on the budget; and a
/// function once shown stays shown.
pub proof fn lemma_children_budget(
    fs: Seq<FunctionView>,
    member: Seq<bool>,
    f: int,
    k: int,
    shown: Seq<bool>,
    prefix: Seq<char>,
    b1: nat,
    b2: nat,
)
    requires
        0 <= k <= function_calls(fs[f]).len(),
        unshown(shown) <= b1,
        unshown(shown) <= b2,
    ensures
        render_children(fs, member, f, k, shown, prefix, b1) == render_children(
            fs,
            member,
            f,
            k,
            shown,
            prefix,
            b2,
        ),
        render_children(fs, member, f, k, shown, prefix, b1).shown.len() == shown.len(),
        forall|i: int|
            0 <= i < shown.len() && shown[i] ==> render_children(
                fs,
                member,
                f,
                k,
                shown,
                prefix,
                b1,
            ).shown[i],
    decreases unshown(shown), function_calls(fs[f]).len() - k + 1,
{
    let calls = function_calls(fs[f]);
    if k < calls.len() {
        let is_last = k == calls.len() - 1;
        let deeper = prefix + continuation_text(is_last);
        let next = match resolve(function_names(fs), member, calls[k].name) {
            Some(j) => if 0 <= j < shown.len() && !shown[j] {
                lemma_subtree_budget(fs, member, j, shown, deeper, b1, b2);
                render_subtree(fs, member, j, shown, deeper, b1).shown
            } else {
                shown
            },
            None => shown,
        };
        lemma_unshown_shrinks(shown, next);
        lemma_children_budget(fs, member, f, k + 1, next, prefix, b1, b2);
    }
}

/// With a budget of at least the number of functions not yet shown, what
/// stands below a function does not depend on the budget.
pub proof fn lemma_subtree_budget(
    fs: Seq<FunctionView>,
    member: Seq<bool>,
    f: int,
    shown: Seq<bool>,
    prefix: Seq<char>,
    b1: nat,
    b2: nat,
)
    requires
        0 <= f < shown.len(),
        !shown[f],
        unshown(shown) <= b1,
        unshown(shown) <= b2,
    ensures
        render_subtree(fs, member, f, shown, prefix, b1) == render_subtree(
            fs,
            member,
            f,
            shown,
            prefix,
            b2,
        ),
        render_subtree(fs, member, f, shown, prefix, b1).shown.len() == shown.len(),
        forall|i: int|
            0 <= i < shown.len() && shown[i] ==> render_subtree(
                fs,
                member,
                f,
                shown,
                prefix,
                b1,
            ).shown[i],
    decreases unshown(shown), 0int,
{
    lemma_unshown_mark(shown, f);
    let marked = shown.update(f, true);
    lemma_children_budget(fs, member, f, 0, marked, prefix, (b1 - 1) as nat, (b2 - 1) as nat);
    let below = render_children(fs, member, f, 0, marked, prefix, (b1 - 1) as nat);
    assert forall|i: int| 0 <= i < shown.len() && shown[i] implies below.shown[i] by {
        assert(marked[i]);
    }
}

/// The tree of a function is the same for every budget of at least the
/// number of functions.
pub proof fn lemma_tree_budget(fs: Seq<FunctionView>, member: Seq<bool>, root: int, budget: nat)
    requires
        0 <= root < fs.len(),
        budget >= fs.len(),
    ensures
        render_subtree(fs, member, root, none_shown(fs.len()), Seq::empty(), budget)
            == render_subtree(fs, member, root, none_shown(fs.len()), Seq::empty(), fs.len()),
{
    lemma_unshown_bound(none_shown(fs.len()));
    lemma_subtree_budget(
        fs,
        member,
        root,
        none_shown(fs.len()),
        Seq::empty(),
        budget,
        fs.len(),
    );
}

fn push_call_line(
    fs: &Vec<Function>,
    names: &Vec<Vec<char>>,
    member: &Vec<bool>,
    call: &CallSite,
    target: Option<usize>,
    prefix: &str,
    is_last: bool,
    out: &mut String,
)
    requires
        names.len() == fs.len(),
        forall|i: int| 0 <= i < fs.len() ==> (#[trigger] names[i])@ == fs[i].qualified_name@,
        match target {
            Some(j) => j < fs.len() && resolve(table_texts(names@), member@, call.name@) == Some(
                j as int,
            ),
            None => resolve(table_texts(names@), member@, call.name@) is None,
        },
    ensures
        final(out)@ == old(out)@ + call_line(table_texts(names@), member@, call@, prefix@, is_last),
{
    out.append(prefix);
    if is_last {
        out.append("└── ");
    } else {
        out.append("├── ");
    }
    match target {
        Some(j) => {
            let start = last_segment_start(&names[j]);
            let shown = fs[j].qualified_name.as_str().substring_char(start, names[j].len());
            out.append(shown);
        },
        None => {
            out.append(call.name.as_str());
        },
    }
    match &call.context {
        Some(c) => {
            out.append(" [in: ");
            out.append(c.as_str());
            out.append("]");
        },
        None => {},
    }
}

/// Appends all that stands below function `f` in a tree that has shown the
/// functions marked in `shown`, and marks those it shows.
fn render_below(
    fs: &Vec<Function>,
    names: &Vec<Vec<char>>,
    member: &Vec<bool>,
    f: usize,
    shown: &mut Vec<bool>,
    prefix: &str,
    out: &mut String,
    Ghost(budget): Ghost<nat>,
)
    requires
        f < fs.len(),
        names.len() == fs.len(),
        member.len() == fs.len(),
        old(shown).len() == fs.len(),
        forall|i: int| 0 <= i < fs.len() ==> (#[trigger] names[i])@ == fs[i].qualified_name@,
        distinct(table_texts(names@)),
        !old(shown)[f as int],
        unshown(old(shown)@) <= budget,
    ensures
        final(shown).len() == fs.len(),
        forall|i: int| 0 <= i < fs.len() && old(shown)[i] ==> final(shown)[i],
        final(shown)@ == render_subtree(
            function_views(fs@),
            member@,
            f as int,
            old(shown)@,
            prefix@,
            budget,
        ).shown,
        final(out)@ == old(out)@ + render_subtree(
            function_views(fs@),
            member@,
            f as int,
            old(shown)@,
            prefix@,
            budget,
        ).text,
    decreases budget,
{
    let ghost views = function_views(fs@);
    let ghost keys = function_names(views);
    proof {
        lemma_unshown_mark(shown@, f as int);
        assert(table_texts(names@) =~= keys);
    }
    let ghost below: nat = (budget - 1) as nat;
    shown.set(f, true);
    let ghost marked = shown@;
    let calls = fs[f].calls();
    let ghost sites = function_calls(views[f as int]);
    let ghost whole = render_children(views, member@, f as int, 0, marked, prefix@, below);
    let ghost done: Seq<char> = Seq::empty();
    let mut k: usize = 0;
    while k < calls.len()
        invariant
            k <= calls.len(),
            f < fs.len(),
            names.len() == fs.len(),
            member.len() == fs.len(),
            shown.len() == fs.len(),
            forall|i: int| 0 <= i < fs.len() ==> (#[trigger] names[i])@ == fs[i].qualified_name@,
            distinct(table_texts(names@)),
            views == function_views(fs@),
            keys == function_names(views),
            table_texts(names@) == keys,
            sites == function_calls(views[f as int]),
            call_views(calls@) == sites,
            budget >= 1,
            below == budget - 1,
            unshown(shown@) <= below,
            old(shown).len() == fs.len(),
            marked == old(shown)@.update(f as int, true),
            forall|i: int| 0 <= i < fs.len() && marked[i] ==> shown[i],
            out@ == old(out)@ + done,
            whole.text == done + render_children(
                views,
                member@,
                f as int,
                k as int,
                shown@,
                prefix@,
                below,
            ).text,
            whole.shown == render_children(
                views,
                member@,
                f as int,
                k as int,
                shown@,
                prefix@,
                below,
            ).shown,
        decreases calls.len() - k,
    {
        let ghost before = shown@;
        let ghost here = render_children(views, member@, f as int, k as int, before, prefix@, below);
        let is_last = k == calls.len() - 1;
        let callee = chars_of(calls[k].name.as_str());
        proof {
            assert(call_views(calls@)[k as int] == calls@[k as int]@);
            assert(sites[k as int] == calls@[k as int]@);
        }
        let target = resolve_call(names, member, &callee);
        let ghost line = call_line(keys, member@, sites[k as int], prefix@, is_last);
        push_call_line(fs, names, member, &calls[k], target, prefix, is_last, out);
        let ghost first_text: Seq<char>;
        match target {
            Some(j) => {
                if shown[j] {
                    out.append(" (already shown)\n");
                    proof {
                        first_text = line + " (already shown)\n"@;
                    }
                } else {
                    out.append("\n");
                    let mut deeper = String::from_str(prefix);
                    if is_last {
                        deeper.append("    ");
                    } else {
                        deeper.append("│   ");
                    }
                    let ghost sub = render_subtree(views, member@, j as int, before, deeper@, below);
                    render_below(fs, names, member, j, shown, deeper.as_str(), out, Ghost(below));
                    proof {
                        first_text = line + "\n"@ + sub.text;
                        lemma_unshown_shrinks(before, shown@);
                    }
                }
            },
            None => {
                out.append("\n");
                proof {
                    first_text = line + "\n"@;
                }
            },
        }
        proof {
            let rest = render_children(
                views,
                member@,
                f as int,
                k + 1,
                shown@,
                prefix@,
                below,
            );
            assert(here.text == first_text + rest.text);
            assert(here.shown == rest.shown);
            done = done + first_text;
        }
        k = k + 1;
    }
    proof {
        assert forall|i: int| 0 <= i < fs.len() && old(shown)[i] implies shown[i] by {
            assert(marked[i]);
        }
    }
}

/// Appends the tree of the function at `root`: its header line, then its
/// calls and what stands below them, resolved within the subset `member`.
pub fn render_function_tree(
    fs: &Vec<Function>,
    names: &Vec<Vec<char>>,
    member: &Vec<bool>,
    root: usize,
    output: &mut String,
)
    requires
        root < fs.len(),
        names.len() == fs.len(),
        member.len() == fs.len(),
        forall|i: int| 0 <= i < fs.len() ==> (#[trigger] names[i])@ == fs[i].qualified_name@,
        distinct(table_texts(names@)),
    ensures
        final(output)@ == old(output)@ + tree_text(function_views(fs@), member@, root as int),
{
    fs[root].push_signature(output);
    output.append("\n");
    let mut shown = filled(fs.len(), false);
    proof {
        lemma_unshown_bound(shown@);
        assert(function_views(fs@)[root as int] == fs[root as int]@);
    }
    render_below(fs, names, member, root, &mut shown, "", output, Ghost(fs.len() as nat));
    proof {
        reveal_strlit("");
        assert(""@ =~= Seq::<char>::empty());
    }
}

} // verus!
