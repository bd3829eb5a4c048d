//! Indexes that read the same give the same reports.

use crate::copy::{function_alike, lemma_function_alike};
use crate::function::{function_calls, FunctionView};
use crate::listing::{
    file_keys, in_functions, in_types, is_listed_file, list_all_text, listed_files,
    listing_section, listing_sections, listing_text, signature_lines, types_block,
    visible_functions, visible_types,
};
use crate::mode::{OutputMode, VisibilityFilter};
use crate::project::{
    function_names, position, project_alike, type_entry_alike, type_names, ProjectView,
};
use crate::report::{
    call_graph_report, first_malformed, forest_report, forest_section, forest_sections,
    has_types, is_malformed, reached, reached_types, report, source_report, trees,
};
use crate::resolve::{all_members, lemma_resolve_meaning, resolve};
use crate::trace::{calls_to, is_reachable_type, is_walk, names_type, reaches};
use crate::tree::{continuation_text, render_children, render_subtree, tree_text};
use vstd::prelude::*;

verus! {

/// Reading the same goes both ways.
pub proof fn lemma_alike_symmetric(a: ProjectView, b: ProjectView)
    requires
        project_alike(a, b),
    ensures
        project_alike(b, a),
{
    assert forall|k: int| 0 <= k < b.functions.len() implies function_alike(
        #[trigger] b.functions[k],
        a.functions[k],
    ) by {
        assert(function_alike(a.functions[k], b.functions[k]));
    }
    assert forall|k: int| 0 <= k < b.types.len() implies type_entry_alike(
        #[trigger] b.types[k],
        a.types[k],
    ) by {
        assert(type_entry_alike(a.types[k], b.types[k]));
    }
}

/// Indexes that read the same have the same keys and type names.
pub proof fn lemma_alike_names(a: ProjectView, b: ProjectView)
    requires
        project_alike(a, b),
    ensures
        function_names(a.functions) == function_names(b.functions),
        type_names(a.types) == type_names(b.types),
{
    assert(function_names(a.functions) =~= function_names(b.functions)) by {
        assert forall|k: int| 0 <= k < a.functions.len() implies function_names(a.functions)[k]
            == function_names(b.functions)[k] by {
            assert(function_alike(a.functions[k], b.functions[k]));
        }
    }
    assert(type_names(a.types) =~= type_names(b.types)) by {
        assert forall|k: int| 0 <= k < a.types.len() implies type_names(a.types)[k]
            == type_names(b.types)[k] by {
            assert(type_entry_alike(a.types[k], b.types[k]));
        }
    }
}

proof fn lemma_calls_to(a: ProjectView, b: ProjectView, i: int, j: int)
    requires
        project_alike(a, b),
        calls_to(a.functions, i, j),
    ensures
        calls_to(b.functions, i, j),
{
    lemma_alike_names(a, b);
    assert(function_alike(a.functions[i], b.functions[i]));
    lemma_function_alike(a.functions[i], b.functions[i]);
    let c = choose|c: int|
        0 <= c < function_calls(a.functions[i]).len() && resolve(
            function_names(a.functions),
            all_members(a.functions.len()),
            (#[trigger] function_calls(a.functions[i])[c]).name,
        ) == Some(j);
    assert(function_calls(b.functions[i])[c] == function_calls(a.functions[i])[c]);
}

proof fn lemma_reaches(a: ProjectView, b: ProjectView, from: int, to: int)
    requires
        project_alike(a, b),
        reaches(a.functions, from, to),
    ensures
        reaches(b.functions, from, to),
{
    let path = choose|path: Seq<int>|
        is_walk(a.functions, path) && path[0] == from && #[trigger] path.last() == to;
    assert forall|k: int| 0 <= k < path.len() - 1 implies calls_to(
        b.functions,
        #[trigger] path[k],
        path[k + 1],
    ) by {
        assert(calls_to(a.functions, path[k], path[k + 1]));
        lemma_calls_to(a, b, path[k], path[k + 1]);
    }
    assert(is_walk(b.functions, path));
}

/// In indexes that read the same, the same functions are reached.
pub proof fn lemma_alike_reached(a: ProjectView, b: ProjectView, r: int)
    requires
        project_alike(a, b),
    ensures
        reached(a.functions, r) == reached(b.functions, r),
        forall|n: Seq<char>|
            is_reachable_type(a.functions, r, n) <==> is_reachable_type(b.functions, r, n),
{
    lemma_alike_symmetric(a, b);
    assert(reached(a.functions, r) =~= reached(b.functions, r)) by {
        assert forall|i: int| 0 <= i < a.functions.len() implies reaches(a.functions, r, i)
            == reaches(b.functions, r, i) by {
            if reaches(a.functions, r, i) {
                lemma_reaches(a, b, r, i);
            }
            if reaches(b.functions, r, i) {
                lemma_reaches(b, a, r, i);
            }
        }
    }
    assert forall|n: Seq<char>|
        is_reachable_type(a.functions, r, n) <==> is_reachable_type(b.functions, r, n) by {
        if is_reachable_type(a.functions, r, n) {
            let i = choose|i: int|
                0 <= i < a.functions.len() && reaches(a.functions, r, i) && names_type(
                    (#[trigger] a.functions[i]).sig,
                    n,
                );
            lemma_reaches(a, b, r, i);
            assert(function_alike(a.functions[i], b.functions[i]));
            assert(names_type(b.functions[i].sig, n));
        }
        if is_reachable_type(b.functions, r, n) {
            let i = choose|i: int|
                0 <= i < b.functions.len() && reaches(b.functions, r, i) && names_type(
                    (#[trigger] b.functions[i]).sig,
                    n,
                );
            lemma_reaches(b, a, r, i);
            assert(function_alike(b.functions[i], a.functions[i]));
            assert(names_type(a.functions[i].sig, n));
        }
    }
}

proof fn lemma_children(
    a: ProjectView,
    b: ProjectView,
    member: Seq<bool>,
    f: int,
    k: int,
    shown: Seq<bool>,
    prefix: Seq<char>,
    budget: nat,
)
    requires
        project_alike(a, b),
        0 <= f < a.functions.len(),
        0 <= k <= function_calls(a.functions[f]).len(),
    ensures
        render_children(a.functions, member, f, k, shown, prefix, budget) == render_children(
            b.functions,
            member,
            f,
            k,
            shown,
            prefix,
            budget,
        ),
    decreases budget, function_calls(a.functions[f]).len() - k + 1,
{
    lemma_alike_names(a, b);
    assert(function_alike(a.functions[f], b.functions[f]));
    lemma_function_alike(a.functions[f], b.functions[f]);
    let calls = function_calls(a.functions[f]);
    if k < calls.len() {
        let is_last = k == calls.len() - 1;
        let names = function_names(a.functions);
        lemma_resolve_meaning(names, member, calls[k].name);
        let next = match resolve(names, member, calls[k].name) {
            Some(j) => if 0 <= j < shown.len() && !shown[j] {
                lemma_subtree(a, b, member, j, shown, prefix + continuation_text(is_last), budget);
                render_subtree(
                    a.functions,
                    member,
                    j,
                    shown,
                    prefix + continuation_text(is_last),
                    budget,
                ).shown
            } else {
                shown
            },
            None => shown,
        };
        lemma_children(a, b, member, f, k + 1, next, prefix, budget);
    }
}

proof fn lemma_subtree(
    a: ProjectView,
    b: ProjectView,
    member: Seq<bool>,
    f: int,
    shown: Seq<bool>,
    prefix: Seq<char>,
    budget: nat,
)
    requires
        project_alike(a, b),
        0 <= f < a.functions.len(),
    ensures
        render_subtree(a.functions, member, f, shown, prefix, budget) == render_subtree(
            b.functions,
            member,
            f,
            shown,
            prefix,
            budget,
        ),
    decreases budget, 0int,
{
    if budget > 0 {
        lemma_children(a, b, member, f, 0, shown.update(f, true), prefix, (budget - 1) as nat);
    }
}

/// In indexes that read the same, a function has the same tree.
pub proof fn lemma_alike_tree(a: ProjectView, b: ProjectView, member: Seq<bool>, root: int)
    requires
        project_alike(a, b),
        0 <= root < a.functions.len(),
    ensures
        tree_text(a.functions, member, root) == tree_text(b.functions, member, root),
{
    assert(function_alike(a.functions[root], b.functions[root]));
    lemma_function_alike(a.functions[root], b.functions[root]);
    lemma_subtree(
        a,
        b,
        member,
        root,
        crate::tree::none_shown(a.functions.len()),
        Seq::empty(),
        a.functions.len(),
    );
}

proof fn lemma_types_block(a: ProjectView, b: ProjectView, tm: Seq<bool>, file: Seq<char>, upto: nat)
    requires
        project_alike(a, b),
        upto <= a.types.len(),
    ensures
        types_block(a, tm, file, upto) == types_block(b, tm, file, upto),
    decreases upto,
{
    if upto > 0 {
        lemma_types_block(a, b, tm, file, (upto - 1) as nat);
        assert(type_entry_alike(a.types[upto - 1], b.types[upto - 1]));
    }
}

proof fn lemma_signature_lines(a: ProjectView, b: ProjectView, keys: Seq<Seq<char>>)
    requires
        project_alike(a, b),
    ensures
        signature_lines(a.functions, keys) == signature_lines(b.functions, keys),
    decreases keys.len(),
{
    lemma_alike_names(a, b);
    if keys.len() > 0 {
        lemma_signature_lines(a, b, keys.drop_last());
        match position(function_names(a.functions), keys.last()) {
            Some(i) => {
                assert(function_alike(a.functions[i], b.functions[i]));
                lemma_function_alike(a.functions[i], b.functions[i]);
            },
            None => {},
        }
    }
}

proof fn lemma_sets(a: ProjectView, b: ProjectView, tm: Seq<bool>, fm: Seq<bool>)
    requires
        project_alike(a, b),
    ensures
        listed_files(a, tm, fm) == listed_files(b, tm, fm),
        forall|file: Seq<char>| file_keys(a, fm, file) == file_keys(b, fm, file),
        forall|file: Seq<char>| has_types(a, file) == has_types(b, file),
{
    lemma_alike_symmetric(a, b);
    assert forall|file: Seq<char>, t: int| in_types(a, tm, file, t) == in_types(b, tm, file, t) by {
        if 0 <= t < a.types.len() {
            assert(type_entry_alike(a.types[t], b.types[t]));
        }
    }
    assert forall|file: Seq<char>, i: int|
        in_functions(a, fm, file, i) == in_functions(b, fm, file, i) by {
        if 0 <= i < a.functions.len() {
            assert(function_alike(a.functions[i], b.functions[i]));
        }
    }
    assert forall|file: Seq<char>| is_listed_file(a, tm, fm, file) == is_listed_file(
        b,
        tm,
        fm,
        file,
    ) by {
        if exists|t: int| in_types(a, tm, file, t) {
            let t = choose|t: int| in_types(a, tm, file, t);
            assert(in_types(b, tm, file, t));
        }
        if exists|t: int| in_types(b, tm, file, t) {
            let t = choose|t: int| in_types(b, tm, file, t);
            assert(in_types(a, tm, file, t));
        }
        if exists|i: int| in_functions(a, fm, file, i) {
            let i = choose|i: int| in_functions(a, fm, file, i);
            assert(in_functions(b, fm, file, i));
        }
        if exists|i: int| in_functions(b, fm, file, i) {
            let i = choose|i: int| in_functions(b, fm, file, i);
            assert(in_functions(a, fm, file, i));
        }
    }
    assert(listed_files(a, tm, fm) =~= listed_files(b, tm, fm));
    assert forall|file: Seq<char>| file_keys(a, fm, file) == file_keys(b, fm, file) by {
        assert forall|n: Seq<char>|
            file_keys(a, fm, file).contains(n) == file_keys(b, fm, file).contains(n) by {
            if file_keys(a, fm, file).contains(n) {
                let i = choose|i: int|
                    in_functions(a, fm, file, i) && a.functions[i].qualified_name == n;
                assert(in_functions(b, fm, file, i));
                assert(function_alike(a.functions[i], b.functions[i]));
            }
            if file_keys(b, fm, file).contains(n) {
                let i = choose|i: int|
                    in_functions(b, fm, file, i) && b.functions[i].qualified_name == n;
                assert(in_functions(a, fm, file, i));
                assert(function_alike(a.functions[i], b.functions[i]));
            }
        }
        assert(file_keys(a, fm, file) =~= file_keys(b, fm, file));
    }
    assert forall|file: Seq<char>| has_types(a, file) == has_types(b, file) by {
        if has_types(a, file) {
            let t = choose|t: int|
                0 <= t < a.types.len() && (#[trigger] a.types[t]).file_path == file;
            assert(type_entry_alike(a.types[t], b.types[t]));
            assert(b.types[t].file_path == file);
        }
        if has_types(b, file) {
            let t = choose|t: int|
                0 <= t < b.types.len() && (#[trigger] b.types[t]).file_path == file;
            assert(type_entry_alike(a.types[t], b.types[t]));
            assert(a.types[t].file_path == file);
        }
    }
}

proof fn lemma_sections(
    a: ProjectView,
    b: ProjectView,
    tm: Seq<bool>,
    fm: Seq<bool>,
    files: Seq<Seq<char>>,
)
    requires
        project_alike(a, b),
    ensures
        listing_sections(a, tm, fm, files) == listing_sections(b, tm, fm, files),
    decreases files.len(),
{
    if files.len() > 0 {
        lemma_sections(a, b, tm, fm, files.drop_last());
        let file = files.last();
        lemma_sets(a, b, tm, fm);
        lemma_types_block(a, b, tm, file, a.types.len());
        assert(file_keys(a, fm, file) == file_keys(b, fm, file));
        lemma_signature_lines(a, b, crate::order::ascending(file_keys(a, fm, file)));
        assert(listing_section(a, tm, fm, file) == listing_section(b, tm, fm, file));
    }
}

/// Indexes that read the same have the same listing of chosen types and
/// functions.
pub proof fn lemma_alike_listing(a: ProjectView, b: ProjectView, tm: Seq<bool>, fm: Seq<bool>)
    requires
        project_alike(a, b),
    ensures
        listing_text(a, tm, fm) == listing_text(b, tm, fm),
{
    lemma_sets(a, b, tm, fm);
    lemma_sections(a, b, tm, fm, crate::order::ascending(listed_files(a, tm, fm)));
}

proof fn lemma_visible(a: ProjectView, b: ProjectView, filter: VisibilityFilter)
    requires
        project_alike(a, b),
    ensures
        visible_types(a, filter) == visible_types(b, filter),
        visible_functions(a, filter) == visible_functions(b, filter),
{
    assert(visible_types(a, filter) =~= visible_types(b, filter)) by {
        assert forall|t: int| 0 <= t < a.types.len() implies visible_types(a, filter)[t]
            == visible_types(b, filter)[t] by {
            assert(type_entry_alike(a.types[t], b.types[t]));
        }
    }
    assert(visible_functions(a, filter) =~= visible_functions(b, filter)) by {
        assert forall|i: int| 0 <= i < a.functions.len() implies visible_functions(a, filter)[i]
            == visible_functions(b, filter)[i] by {
            assert(function_alike(a.functions[i], b.functions[i]));
        }
    }
}

proof fn lemma_first_malformed(a: ProjectView, b: ProjectView, member: Seq<bool>)
    requires
        project_alike(a, b),
    ensures
        first_malformed(a.functions, member) == first_malformed(b.functions, member),
        first_malformed(a.functions, member) matches Some(i) ==> 0 <= i < a.functions.len()
            && a.functions[i].qualified_name == b.functions[i].qualified_name,
{
    reveal(first_malformed);
    assert forall|i: int|
        is_malformed(a.functions, member, i) == is_malformed(b.functions, member, i) by {
        if 0 <= i < a.functions.len() {
            assert(function_alike(a.functions[i], b.functions[i]));
        }
    }
    if exists|i: int| is_malformed(a.functions, member, i) {
        let w = choose|i: int| is_malformed(a.functions, member, i);
        lemma_least_malformed(a.functions, member, w);
        assert(is_malformed(b.functions, member, w));
        lemma_least_malformed(b.functions, member, w);
        let ca = choose|i: int|
            is_malformed(a.functions, member, i) && forall|j: int|
                0 <= j < i ==> !is_malformed(a.functions, member, j);
        let cb = choose|i: int|
            is_malformed(b.functions, member, i) && forall|j: int|
                0 <= j < i ==> !is_malformed(b.functions, member, j);
        if ca < cb {
            assert(!is_malformed(b.functions, member, ca));
        }
        if cb < ca {
            assert(!is_malformed(a.functions, member, cb));
        }
        assert(is_malformed(a.functions, member, ca));
        assert(function_alike(a.functions[ca], b.functions[ca]));
    } else {
        assert forall|i: int| !is_malformed(b.functions, member, i) by {}
    }
}

proof fn lemma_least_malformed(fs: Seq<FunctionView>, member: Seq<bool>, w: int)
    requires
        is_malformed(fs, member, w),
    ensures
        exists|i: int|
            is_malformed(fs, member, i) && forall|j: int|
                0 <= j < i ==> !is_malformed(fs, member, j),
    decreases w,
{
    if exists|j: int| 0 <= j < w && is_malformed(fs, member, j) {
        let j = choose|j: int| 0 <= j < w && is_malformed(fs, member, j);
        lemma_least_malformed(fs, member, j);
    } else {
        assert(is_malformed(fs, member, w) && forall|j: int|
            0 <= j < w ==> !is_malformed(fs, member, j));
    }
}

proof fn lemma_trees(a: ProjectView, b: ProjectView, keys: Seq<Seq<char>>)
    requires
        project_alike(a, b),
    ensures
        trees(a.functions, keys) == trees(b.functions, keys),
    decreases keys.len(),
{
    lemma_alike_names(a, b);
    if keys.len() > 0 {
        lemma_trees(a, b, keys.drop_last());
        match position(function_names(a.functions), keys.last()) {
            Some(i) => {
                lemma_alike_tree(a, b, all_members(a.functions.len()), i);
            },
            None => {},
        }
    }
}

proof fn lemma_forest_sections(
    a: ProjectView,
    b: ProjectView,
    filter: VisibilityFilter,
    files: Seq<Seq<char>>,
)
    requires
        project_alike(a, b),
    ensures
        forest_sections(a, filter, files) == forest_sections(b, filter, files),
    decreases files.len(),
{
    if files.len() > 0 {
        lemma_forest_sections(a, b, filter, files.drop_last());
        let file = files.last();
        lemma_visible(a, b, filter);
        let fm = visible_functions(a, filter);
        lemma_sets(a, b, Seq::empty(), fm);
        assert(file_keys(a, fm, file) == file_keys(b, fm, file));
        assert(has_types(a, file) == has_types(b, file));
        lemma_trees(a, b, crate::order::ascending(file_keys(a, fm, file)));
        assert(forest_section(a, filter, file) == forest_section(b, filter, file));
    }
}

/// Indexes that read the same give the same listing of all declarations.
pub proof fn lemma_alike_list_all(a: ProjectView, b: ProjectView, filter: VisibilityFilter)
    requires
        project_alike(a, b),
    ensures
        list_all_text(a, filter) == list_all_text(b, filter),
{
    lemma_visible(a, b, filter);
    lemma_alike_listing(a, b, visible_types(a, filter), visible_functions(a, filter));
}

/// Indexes that read the same give the same call graph from a root.
pub proof fn lemma_alike_call_graph(
    a: ProjectView,
    b: ProjectView,
    root: Seq<char>,
    filter: VisibilityFilter,
)
    requires
        project_alike(a, b),
    ensures
        call_graph_report(a, root, filter) == call_graph_report(b, root, filter),
{
    lemma_alike_names(a, b);
    let names = function_names(a.functions);
    lemma_resolve_meaning(names, all_members(a.functions.len()), root);
    match resolve(names, all_members(a.functions.len()), root) {
        Some(r) => {
            lemma_alike_reached(a, b, r);
            lemma_first_malformed(a, b, reached(a.functions, r));
            assert(reached_types(a, r, filter) =~= reached_types(b, r, filter)) by {
                assert forall|t: int| 0 <= t < a.types.len() implies reached_types(
                    a,
                    r,
                    filter,
                )[t] == reached_types(b, r, filter)[t] by {
                    assert(type_entry_alike(a.types[t], b.types[t]));
                }
            }
            lemma_alike_listing(
                a,
                b,
                reached_types(a, r, filter),
                crate::tree::none_shown(a.functions.len()),
            );
            assert(function_alike(a.functions[r], b.functions[r]));
            lemma_alike_tree(a, b, reached(a.functions, r), r);
        },
        None => {},
    }
}

/// Indexes that read the same give the same source report.
pub proof fn lemma_alike_source(a: ProjectView, b: ProjectView, name: Seq<char>)
    requires
        project_alike(a, b),
    ensures
        source_report(a, name) == source_report(b, name),
{
    lemma_alike_names(a, b);
    let names = function_names(a.functions);
    lemma_resolve_meaning(names, all_members(a.functions.len()), name);
    match resolve(names, all_members(a.functions.len()), name) {
        Some(i) => {
            assert(function_alike(a.functions[i], b.functions[i]));
            lemma_function_alike(a.functions[i], b.functions[i]);
        },
        None => {},
    }
}

/// Indexes that read the same give the same report for every mode: a copy
/// of an index stands for the index.
pub proof fn lemma_alike_reports(a: ProjectView, b: ProjectView, mode: OutputMode)
    requires
        project_alike(a, b),
    ensures
        report(a, mode) == report(b, mode),
{
    match mode {
        OutputMode::ListAll { visibility } => lemma_alike_list_all(a, b, visibility),
        OutputMode::CallGraph { root, visibility } => lemma_alike_call_graph(
            a,
            b,
            root@,
            visibility,
        ),
        OutputMode::Source { function } => lemma_alike_source(a, b, function@),
    }
}

/// Indexes that read the same give the same call graph without a root.
pub proof fn lemma_alike_forest(a: ProjectView, b: ProjectView, filter: VisibilityFilter)
    requires
        project_alike(a, b),
    ensures
        forest_report(a, filter) == forest_report(b, filter),
{
    lemma_first_malformed(a, b, all_members(a.functions.len()));
    lemma_visible(a, b, filter);
    lemma_alike_listing(
        a,
        b,
        visible_types(a, filter),
        crate::tree::none_shown(a.functions.len()),
    );
    let fm = visible_functions(a, filter);
    let no_types = crate::tree::none_shown(a.types.len());
    lemma_sets(a, b, no_types, fm);
    lemma_forest_sections(a, b, filter, crate::order::ascending(listed_files(a, no_types, fm)));
}

} // verus!
