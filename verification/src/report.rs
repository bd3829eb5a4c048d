//! The three reports: the listing of all declarations, the call graph
//! from a root, and the source of one function.

use crate::function::{
    file_of_name, find_file_for_function, format_function_source, function_views,
    malformed_key_message, name_table, not_found, not_found_message, source_text, Function,
    FunctionView,
};
use crate::listing::{
    ascending_order, file_functions, file_keys, function_file, function_files, header_text, held,
    in_order, list_all_text, listed_file_list, listed_files, listing_text, push_listing,
    visible_function_mask, visible_functions, visible_type_mask, visible_types,
};
use crate::order::{ascending, keys_of};
use crate::mode::{Output, OutputMode, VisibilityFilter};
use crate::project::{
    function_names, ingest_files, lemma_position_found, load_project, position, type_views,
    Project, ProjectView, TypeEntry,
};
use crate::resolve::{all_members, lemma_resolve_meaning, resolve, resolve_call, table_texts};
use crate::scan::{is_excluded, path_is_excluded};
use crate::syntax::ParsedFile;
use crate::text::{chars_of, distinct, find_separator, holds};
use crate::trace::{filled, is_reachable_type, reaches, trace_from};
use crate::tree::{none_shown, render_function_tree, tree_text};
use vstd::prelude::*;
use vstd::string::*;

verus! {

/// The text of a report, or the text of the error in its place.
pub open spec fn output_text(r: Result<Output, String>) -> Result<Seq<char>, Seq<char>> {
    match r {
        Ok(o) => Ok(o.content@),
        Err(e) => Err(e@),
    }
}

/// The source report for the function that `name` means: the header of its
/// file and the function as source. A name that means no function is
/// refused, and so is a function whose key has no separator.
pub open spec fn source_report(p: ProjectView, name: Seq<char>) -> Result<Seq<char>, Seq<char>> {
    match resolve(p.names(), all_members(p.functions.len()), name) {
        None => Err(not_found_message(name)),
        Some(i) => match file_of_name(p.functions[i].qualified_name) {
            None => Err(malformed_key_message(p.functions[i].qualified_name)),
            Some(file) => Ok(header_text(file) + source_text(p.functions[i])),
        },
    }
}

/// The functions that can be reached from function `r`.
pub open spec fn reached(fs: Seq<FunctionView>, r: int) -> Seq<bool> {
    Seq::new(fs.len(), |i: int| reaches(fs, r, i))
}

/// Function `i` is chosen and its key has no separator.
pub open spec fn is_malformed(fs: Seq<FunctionView>, member: Seq<bool>, i: int) -> bool {
    0 <= i < fs.len() && i < member.len() && member[i] && file_of_name(fs[i].qualified_name) is None
}

/// The first chosen function whose key has no separator.
#[verifier::opaque]
pub open spec fn first_malformed(fs: Seq<FunctionView>, member: Seq<bool>) -> Option<int> {
    if exists|i: int| is_malformed(fs, member, i) {
        Some(
            choose|i: int|
                is_malformed(fs, member, i) && forall|j: int| 0 <= j < i ==> !is_malformed(
                    fs,
                    member,
                    j,
                ),
        )
    } else {
        None
    }
}

/// The types that pass the filter and are named in the signature of a
/// function that can be reached from function `r`.
pub open spec fn reached_types(p: ProjectView, r: int, filter: VisibilityFilter) -> Seq<bool> {
    Seq::new(
        p.types.len(),
        |t: int|
            is_reachable_type(p.functions, r, p.types[t].item.name()) && filter.admits(
                p.types[t].item.visibility().is_public(),
            ),
    )
}

/// The call graph from the function that `root` means: the listing of the
/// types reached that pass the filter, the header of the root's file, and
/// the root's tree within the functions reached.
///
/// A root that means no function is refused, and so is a graph in which a
/// function reached has a key without separator.
pub open spec fn call_graph_report(p: ProjectView, root: Seq<char>, filter: VisibilityFilter) -> Result<
    Seq<char>,
    Seq<char>,
> {
    match resolve(p.names(), all_members(p.functions.len()), root) {
        None => Err(not_found_message(root)),
        Some(r) => match first_malformed(p.functions, reached(p.functions, r)) {
            Some(i) => Err(malformed_key_message(p.functions[i].qualified_name)),
            None => Ok(
                listing_text(p, reached_types(p, r, filter), none_shown(p.functions.len()))
                    + header_text(function_file(p.functions[r])) + tree_text(
                    p.functions,
                    reached(p.functions, r),
                    r,
                ),
            ),
        },
    }
}

/// The index holds a type of `file`.
pub open spec fn has_types(p: ProjectView, file: Seq<char>) -> bool {
    exists|t: int| 0 <= t < p.types.len() && (#[trigger] p.types[t]).file_path == file
}

/// The trees of the functions with the given keys, in that order, each
/// resolved within all functions and followed by an empty line.
pub open spec fn trees(fs: Seq<FunctionView>, keys: Seq<Seq<char>>) -> Seq<char>
    decreases keys.len(),
{
    if keys.len() == 0 {
        Seq::empty()
    } else {
        trees(fs, keys.drop_last()) + (match position(function_names(fs), keys.last()) {
            Some(i) => tree_text(fs, all_members(fs.len()), i) + "\n"@,
            None => Seq::empty(),
        })
    }
}

/// The trees of one file: the header of the file, unless the index holds a
/// type of the file, and the trees of its functions that pass the filter,
/// in ascending order of their keys.
pub open spec fn forest_section(p: ProjectView, filter: VisibilityFilter, file: Seq<char>) -> Seq<
    char,
> {
    (if has_types(p, file) {
        Seq::empty()
    } else {
        header_text(file)
    }) + trees(p.functions, ascending(file_keys(p, visible_functions(p, filter), file)))
}

/// The trees of the given files, in that order.
pub open spec fn forest_sections(
    p: ProjectView,
    filter: VisibilityFilter,
    files: Seq<Seq<char>>,
) -> Seq<char>
    decreases files.len(),
{
    if files.len() == 0 {
        Seq::empty()
    } else {
        forest_sections(p, filter, files.drop_last()) + forest_section(p, filter, files.last())
    }
}

/// The call graph without a root: the listing of the types that pass the
/// filter, then a tree for every function that passes it, file by file in
/// ascending order of the paths.
///
/// An index in which a key has no separator is refused.
pub open spec fn forest_report(p: ProjectView, filter: VisibilityFilter) -> Result<
    Seq<char>,
    Seq<char>,
> {
    match first_malformed(p.functions, all_members(p.functions.len())) {
        Some(i) => Err(malformed_key_message(p.functions[i].qualified_name)),
        None => Ok(
            listing_text(p, visible_types(p, filter), none_shown(p.functions.len()))
                + forest_sections(
                p,
                filter,
                ascending(
                    listed_files(p, none_shown(p.types.len()), visible_functions(p, filter)),
                ),
            ),
        ),
    }
}

/// The call graph from a root, or of all functions where none is given.
pub open spec fn call_graph(p: ProjectView, root: Option<Seq<char>>, filter: VisibilityFilter) -> Result<
    Seq<char>,
    Seq<char>,
> {
    match root {
        Some(name) => call_graph_report(p, name, filter),
        None => forest_report(p, filter),
    }
}

/// What a report returns for a mode.
pub open spec fn report(p: ProjectView, mode: OutputMode) -> Result<Seq<char>, Seq<char>> {
    match mode {
        OutputMode::ListAll { visibility } => Ok(list_all_text(p, visibility)),
        OutputMode::CallGraph { root, visibility } => call_graph_report(p, root@, visibility),
        OutputMode::Source { function } => source_report(p, function@),
    }
}

/// The listing of all declarations that pass the filter.
pub fn generate_list_all(project: &Project, visibility: VisibilityFilter) -> (r: Result<
    Output,
    String,
>)
    ensures
        output_text(r) == Ok::<Seq<char>, Seq<char>>(list_all_text(project@, visibility)),
{
    let tm = visible_type_mask(project, visibility);
    let fm = visible_function_mask(project, visibility);
    let mut content = String::new();
    push_listing(project, &tm, &fm, &mut content);
    Ok(Output { content })
}

/// The function that `name` means among all functions of the index.
pub fn resolve_function(fs: &Vec<Function>, names: &Vec<Vec<char>>, name: &str) -> (r: Option<usize>)
    requires
        table_texts(names@) == function_names(function_views(fs@)),
        distinct(table_texts(names@)),
    ensures
        match r {
            Some(i) => i < fs.len() && resolve(
                function_names(function_views(fs@)),
                all_members(fs.len() as nat),
                name@,
            ) == Some(i as int),
            None => resolve(
                function_names(function_views(fs@)),
                all_members(fs.len() as nat),
                name@,
            ) is None,
        },
{
    proof {
        assert(table_texts(names@).len() == names.len());
        assert(function_names(function_views(fs@)).len() == fs.len());
    }
    let all = filled(fs.len(), true);
    let chars = chars_of(name);
    resolve_call(names, &all, &chars)
}

/// The source of the function that `function_name` means, under the
/// header of its file.
pub fn generate_source(project: &Project, function_name: &str) -> (r: Result<Output, String>)
    ensures
        output_text(r) == source_report(project@, function_name@),
{
    let fs = project.functions();
    let names = name_table(fs);
    proof {
        assert(table_texts(names@) =~= function_names(function_views(fs@)));
    }
    match resolve_function(fs, &names, function_name) {
        None => Err(not_found(function_name)),
        Some(i) => {
            proof {
                assert(project@.functions[i as int] == fs[i as int]@);
            }
            match find_file_for_function(fs[i].qualified_name.as_str()) {
                Err(e) => Err(e),
                Ok(file) => {
                    let mut content = String::from_str("=== ");
                    content.append(file.as_str());
                    content.append(" ===\n");
                    let source = format_function_source(&fs[i]);
                    content.append(source.as_str());
                    Ok(Output { content })
                },
            }
        },
    }
}

/// The key of the first chosen function that has no separator.
fn find_malformed(fs: &Vec<Function>, names: &Vec<Vec<char>>, member: &Vec<bool>) -> (r: Option<
    usize,
>)
    requires
        names.len() == fs.len(),
        member.len() == fs.len(),
        forall|i: int| 0 <= i < fs.len() ==> (#[trigger] names[i])@ == fs[i].qualified_name@,
    ensures
        match r {
            Some(i) => i < fs.len() && first_malformed(function_views(fs@), member@) == Some(
                i as int,
            ) && file_of_name(fs[i as int].qualified_name@) is None,
            None => first_malformed(function_views(fs@), member@) is None && forall|i: int|
                0 <= i < fs.len() && member[i] ==> file_of_name(
                    (#[trigger] fs[i]).qualified_name@,
                ) is Some,
        },
{
    reveal(first_malformed);
    let ghost views = function_views(fs@);
    let mut i: usize = 0;
    while i < fs.len()
        invariant
            i <= fs.len(),
            names.len() == fs.len(),
            member.len() == fs.len(),
            views == function_views(fs@),
            forall|j: int| 0 <= j < fs.len() ==> (#[trigger] names[j])@ == fs[j].qualified_name@,
            forall|j: int| 0 <= j < i ==> !is_malformed(views, member@, j),
        decreases fs.len() - i,
    {
        if member[i] && find_separator(&names[i]).is_none() {
            proof {
                reveal(first_malformed);
                assert(views[i as int] == fs[i as int]@);
                assert(is_malformed(views, member@, i as int));
                assert(is_malformed(views, member@, i as int) && forall|j: int|
                    0 <= j < i ==> !is_malformed(views, member@, j));
                let c = choose|c: int|
                    is_malformed(views, member@, c) && forall|j: int|
                        0 <= j < c ==> !is_malformed(views, member@, j);
                if c < i {
                    assert(!is_malformed(views, member@, c));
                }
                if i < c {
                    assert(!is_malformed(views, member@, i as int));
                }
            }
            return Some(i);
        }
        proof {
            assert(views[i as int] == fs[i as int]@);
        }
        i = i + 1;
    }
    proof {
        assert forall|j: int| 0 <= j < fs.len() && member[j] implies file_of_name(
            (#[trigger] fs[j]).qualified_name@,
        ) is Some by {
            assert(!is_malformed(views, member@, j));
            assert(views[j] == fs[j]@);
        }
    }
    None
}

/// Which types pass the filter and are among the names found by a trace.
fn reached_type_mask(
    project: &Project,
    found: &Vec<String>,
    filter: VisibilityFilter,
    Ghost(r): Ghost<int>,
) -> (tm: Vec<bool>)
    requires
        forall|n: Seq<char>| holds(found@, n) <==> is_reachable_type(project@.functions, r, n),
    ensures
        tm@ == reached_types(project@, r, filter),
{
    let ts = project.types();
    let mut tm: Vec<bool> = Vec::new();
    let mut t: usize = 0;
    while t < ts.len()
        invariant
            t <= ts.len(),
            type_views(ts@) == project@.types,
            tm.len() == t,
            forall|n: Seq<char>| holds(found@, n) <==> is_reachable_type(project@.functions, r, n),
            forall|u: int| 0 <= u < t ==> (#[trigger] tm[u]) == reached_types(project@, r, filter)[u],
        decreases ts.len() - t,
    {
        proof {
            assert(project@.types[t as int] == ts[t as int]@);
        }
        let wanted = ts[t].item.ident();
        let mut listed = false;
        let mut k: usize = 0;
        while k < found.len() && !listed
            invariant
                k <= found.len(),
                listed ==> holds(found@, wanted@),
                !listed ==> forall|m: int| 0 <= m < k ==> (#[trigger] found[m])@ != wanted@,
            decreases found.len() - k + (if listed { 0int } else { 1int }),
        {
            if found[k] == *wanted {
                listed = true;
            } else {
                k = k + 1;
            }
        }
        proof {
            assert(listed == holds(found@, wanted@));
            assert(wanted@ == project@.types[t as int].item.name());
        }
        tm.push(listed && filter.admits(ts[t].item.is_public()));
        t = t + 1;
    }
    proof {
        assert(tm@ =~= reached_types(project@, r, filter));
    }
    tm
}

/// The text of an optional string slice.
pub open spec fn optional_text(s: Option<&str>) -> Option<Seq<char>> {
    match s {
        Some(s) => Some(s@),
        None => None,
    }
}

/// The call graph from the function that `root_func` means, or of all
/// functions where no root is given.
pub fn generate_call_graph_output(
    project: &Project,
    visibility: VisibilityFilter,
    root_func: Option<&str>,
) -> (r: Result<Output, String>)
    ensures
        output_text(r) == call_graph(project@, optional_text(root_func), visibility),
{
    match root_func {
        Some(root) => generate_rooted_graph(project, visibility, root),
        None => generate_forest(project, visibility),
    }
}

/// Whether the index holds a type of `file`.
fn file_has_types(ts: &Vec<TypeEntry>, file: &String, Ghost(p): Ghost<ProjectView>) -> (r: bool)
    requires
        type_views(ts@) == p.types,
    ensures
        r == has_types(p, file@),
{
    let mut t: usize = 0;
    while t < ts.len()
        invariant
            t <= ts.len(),
            type_views(ts@) == p.types,
            forall|u: int| 0 <= u < t ==> (#[trigger] p.types[u]).file_path != file@,
        decreases ts.len() - t,
    {
        proof {
            assert(p.types[t as int] == ts[t as int]@);
        }
        if ts[t].file_path == *file {
            return true;
        }
        t = t + 1;
    }
    false
}

/// The call graph of all functions that pass the filter.
pub fn generate_forest(project: &Project, visibility: VisibilityFilter) -> (r: Result<Output, String>)
    ensures
        output_text(r) == forest_report(project@, visibility),
{
    let fs = project.functions();
    let ts = project.types();
    let names = name_table(fs);
    let ghost p = project@;
    let ghost views = function_views(fs@);
    proof {
        assert(table_texts(names@) =~= function_names(views));
    }
    let all = filled(fs.len(), true);
    match find_malformed(fs, &names, &all) {
        Some(i) => {
            let mut e = String::from_str("Invalid qualified name format: ");
            e.append(fs[i].qualified_name.as_str());
            proof {
                assert(views[i as int] == fs[i as int]@);
            }
            Err(e)
        },
        None => {
            let tm = visible_type_mask(project, visibility);
            let no_functions = filled(fs.len(), false);
            let mut content = String::new();
            proof {
                assert(no_functions@ =~= none_shown(views.len()));
            }
            push_listing(project, &tm, &no_functions, &mut content);
            let fm = visible_function_mask(project, visibility);
            let no_types = filled(ts.len(), false);
            let ffiles = function_files(fs);
            proof {
                assert(no_types@ =~= none_shown(p.types.len()));
                assert forall|i: int| 0 <= i < ffiles.len() implies (#[trigger] ffiles[i])@
                    == function_file(p.functions[i]) by {
                    assert(p.functions[i] == fs[i]@);
                }
            }
            let files = listed_file_list(ts, &no_types, &ffiles, &fm, Ghost(p));
            let order = ascending_order(&files);
            let ghost sorted = in_order(files@, order@);
            let ghost head = content@;
            proof {
                assert(held(files@) =~= listed_files(p, no_types@, fm@));
            }
            let mut k: usize = 0;
            while k < order.len()
                invariant
                    k <= order.len(),
                    p == project@,
                    type_views(ts@) == p.types,
                    function_views(fs@) == p.functions,
                    views == p.functions,
                    p.wf(),
                    fm@ == visible_functions(p, visibility),
                    fm.len() == fs.len(),
                    names.len() == fs.len(),
                    ffiles.len() == fs.len(),
                    all@ == all_members(fs.len() as nat),
                    all.len() == fs.len(),
                    table_texts(names@) == function_names(views),
                    forall|i: int|
                        0 <= i < fs.len() ==> (#[trigger] names[i])@ == fs[i].qualified_name@,
                    forall|i: int|
                        0 <= i < ffiles.len() ==> (#[trigger] ffiles[i])@ == function_file(
                            p.functions[i],
                        ),
                    forall|m: int| 0 <= m < order.len() ==> (#[trigger] order[m]) < files.len(),
                    sorted == in_order(files@, order@),
                    content@ == head + forest_sections(p, visibility, sorted.take(k as int)),
                decreases order.len() - k,
            {
                proof {
                    assert(sorted.take(k + 1).drop_last() == sorted.take(k as int));
                    assert(sorted.take(k + 1).last() == files[order[k as int] as int]@);
                }
                let file = &files[order[k]];
                if !file_has_types(ts, file, Ghost(p)) {
                    content.append("=== ");
                    content.append(file.as_str());
                    content.append(" ===\n");
                }
                let chosen = file_functions(fs, &names, &ffiles, &fm, file, Ghost(p));
                let ghost keys = keys_of(names@, chosen@);
                let ghost before = content@;
                let mut m: usize = 0;
                while m < chosen.len()
                    invariant
                        m <= chosen.len(),
                        function_views(fs@) == p.functions,
                        views == p.functions,
                        p.wf(),
                        names.len() == fs.len(),
                        all@ == all_members(fs.len() as nat),
                        all.len() == fs.len(),
                        table_texts(names@) == function_names(views),
                        forall|i: int|
                            0 <= i < fs.len() ==> (#[trigger] names[i])@ == fs[i].qualified_name@,
                        forall|j: int| 0 <= j < chosen.len() ==> (#[trigger] chosen[j]) < fs.len(),
                        keys == keys_of(names@, chosen@),
                        content@ == before + trees(p.functions, keys.take(m as int)),
                    decreases chosen.len() - m,
                {
                    let j = chosen[m];
                    proof {
                        assert(keys.take(m + 1).drop_last() == keys.take(m as int));
                        assert(keys.take(m + 1).last() == keys[m as int]);
                        assert(p.functions[j as int] == fs[j as int]@);
                        assert(function_names(p.functions)[j as int] == keys[m as int]);
                        lemma_position_found(function_names(p.functions), keys[m as int], j as int);
                    }
                    render_function_tree(fs, &names, &all, j, &mut content);
                    content.append("\n");
                    m = m + 1;
                }
                proof {
                    assert(keys.take(m as int) == keys);
                }
                k = k + 1;
            }
            proof {
                assert(sorted.take(k as int) == sorted);
            }
            Ok(Output { content })
        },
    }
}

/// The call graph from the function that `root` means.
pub fn generate_rooted_graph(project: &Project, visibility: VisibilityFilter, root: &str) -> (r:
    Result<Output, String>)
    ensures
        output_text(r) == call_graph_report(project@, root@, visibility),
{
    let fs = project.functions();
    let names = name_table(fs);
    let ghost views = function_views(fs@);
    proof {
        assert(table_texts(names@) =~= function_names(views));
    }
    match resolve_function(fs, &names, root) {
        None => Err(not_found(root)),
        Some(r) => {
            let t = trace_from(fs, &names, r);
            proof {
                assert(t.member@ =~= reached(views, r as int));
            }
            match find_malformed(fs, &names, &t.member) {
                Some(i) => {
                    let mut e = String::from_str("Invalid qualified name format: ");
                    e.append(fs[i].qualified_name.as_str());
                    proof {
                        assert(views[i as int] == fs[i as int]@);
                    }
                    Err(e)
                },
                None => {
                    proof {
                        assert forall|n: Seq<char>| holds(t.types@, n) <==> is_reachable_type(
                            views,
                            r as int,
                            n,
                        ) by {
                            if holds(t.types@, n) {
                                let m = choose|m: int|
                                    0 <= m < t.types.len() && (#[trigger] t.types@[m])@ == n;
                                assert(is_reachable_type(views, r as int, t.types@[m]@));
                            }
                        }
                    }
                    let tm = reached_type_mask(project, &t.types, visibility, Ghost(r as int));
                    let fm = filled(fs.len(), false);
                    proof {
                        assert(fm@ =~= none_shown(views.len()));
                    }
                    let mut content = String::new();
                    push_listing(project, &tm, &fm, &mut content);
                    let ghost listed = content@;
                    proof {
                        crate::trace::lemma_reaches_itself(views, r as int);
                        assert(t.member[r as int]);
                        assert(views[r as int] == fs[r as int]@);
                    }
                    match find_file_for_function(fs[r].qualified_name.as_str()) {
                        Ok(file) => {
                            content.append("=== ");
                            content.append(file.as_str());
                            content.append(" ===\n");
                        },
                        Err(_) => {},
                    }
                    let ghost headed = content@;
                    proof {
                        assert(headed == listed + header_text(function_file(views[r as int])));
                    }
                    render_function_tree(fs, &names, &t.member, r, &mut content);
                    proof {
                        assert(content@ == headed + tree_text(views, t.member@, r as int));
                    }
                    Ok(Output { content })
                },
            }
        },
    }
}

/// The report for a mode on an index.
pub fn generate_report(project: &Project, mode: OutputMode) -> (r: Result<Output, String>)
    ensures
        output_text(r) == report(project@, mode),
{
    match mode {
        OutputMode::ListAll { visibility } => generate_list_all(project, visibility),
        OutputMode::CallGraph { root, visibility } => generate_call_graph_output(
            project,
            visibility,
            Some(root.as_str()),
        ),
        OutputMode::Source { function } => generate_source(project, function.as_str()),
    }
}

/// The report for a mode on the files met on a walk: the index is built
/// from the files, in their order, and the report made on it.
pub fn generate_output(files: Vec<ParsedFile>, mode: OutputMode) -> (r: Result<Output, String>)
    ensures
        output_text(r) == report(ingest_files(ProjectView::empty(), files@), mode),
{
    match load_project(files) {
        Ok(project) => generate_report(&project, mode),
        Err(e) => Err(e),
    }
}

/// The files whose paths hold none of the listed texts, in their order.
pub open spec fn kept_files(files: Seq<ParsedFile>, blacklist: Seq<String>) -> Seq<ParsedFile>
    decreases files.len(),
{
    if files.len() == 0 {
        Seq::empty()
    } else if is_excluded(files.last().path@, blacklist) {
        kept_files(files.drop_last(), blacklist)
    } else {
        kept_files(files.drop_last(), blacklist).push(files.last())
    }
}

/// The files of all groups, one group after another.
pub open spec fn all_files(groups: Seq<Vec<ParsedFile>>) -> Seq<ParsedFile>
    decreases groups.len(),
{
    if groups.len() == 0 {
        Seq::empty()
    } else {
        all_files(groups.drop_last()) + groups.last()@
    }
}

/// Drops the files whose paths hold one of the listed texts.
pub fn exclude_files(files: Vec<ParsedFile>, blacklist: &Vec<String>) -> (r: Vec<ParsedFile>)
    ensures
        r@ == kept_files(files@, blacklist@),
{
    let mut files = files;
    let ghost all = files@;
    let mut r: Vec<ParsedFile> = Vec::new();
    let mut i: usize = 0;
    while i < files.len()
        invariant
            i <= files.len(),
            files.len() == all.len(),
            forall|k: int| i <= k < all.len() ==> files@[k] == all[k],
            r@ == kept_files(all.take(i as int), blacklist@),
        decreases files.len() - i,
    {
        proof {
            assert(all.take(i + 1).drop_last() == all.take(i as int));
            assert(all.take(i + 1).last() == all[i as int]);
        }
        if !path_is_excluded(files[i].path.as_str(), blacklist) {
            let mut taken = ParsedFile { path: String::new(), items: None };
            files.set_and_swap(i, &mut taken);
            r.push(taken);
        }
        i = i + 1;
    }
    proof {
        assert(all.take(i as int) == all);
    }
    r
}

/// The report for a mode on the files met on a walk, without the files
/// whose paths hold one of the listed texts.
pub fn generate_output_with_blacklist(
    files: Vec<ParsedFile>,
    mode: OutputMode,
    blacklist: &Vec<String>,
) -> (r: Result<Output, String>)
    ensures
        output_text(r) == report(
            ingest_files(ProjectView::empty(), kept_files(files@, blacklist@)),
            mode,
        ),
{
    generate_output(exclude_files(files, blacklist), mode)
}

/// The report for a mode on the files met on the walks of several roots,
/// root after root, without the files whose paths hold one of the listed
/// texts.
pub fn generate_output_multi_dir(
    groups: Vec<Vec<ParsedFile>>,
    mode: OutputMode,
    blacklist: &Vec<String>,
) -> (r: Result<Output, String>)
    ensures
        output_text(r) == report(
            ingest_files(ProjectView::empty(), kept_files(all_files(groups@), blacklist@)),
            mode,
        ),
{
    let mut groups = groups;
    let ghost all = groups@;
    let mut files: Vec<ParsedFile> = Vec::new();
    let mut i: usize = 0;
    while i < groups.len()
        invariant
            i <= groups.len(),
            groups.len() == all.len(),
            forall|k: int| i <= k < all.len() ==> groups@[k] == all[k],
            files@ == all_files(all.take(i as int)),
        decreases groups.len() - i,
    {
        proof {
            assert(all.take(i + 1).drop_last() == all.take(i as int));
            assert(all.take(i + 1).last() == all[i as int]);
        }
        let mut group: Vec<ParsedFile> = Vec::new();
        groups.set_and_swap(i, &mut group);
        files.append(&mut group);
        i = i + 1;
    }
    proof {
        assert(all.take(i as int) == all);
    }
    generate_output_with_blacklist(files, mode, blacklist)
}

/// A report is a function of the index and the mode: two results that the
/// same index and the same mode allow hold the same text, or the same error.
pub proof fn lemma_report_is_determined(
    p: ProjectView,
    mode: OutputMode,
    first: Result<Output, String>,
    second: Result<Output, String>,
)
    requires
        output_text(first) == report(p, mode),
        output_text(second) == report(p, mode),
    ensures
        output_text(first) == output_text(second),
{
}

/// A call graph is a function of the index, the root as text and the
/// filter: it does not depend on which string holds the root's name.
pub proof fn lemma_call_graph_is_determined(
    p: ProjectView,
    first_root: String,
    second_root: String,
    visibility: VisibilityFilter,
)
    requires
        first_root@ == second_root@,
    ensures
        report(p, OutputMode::CallGraph { root: first_root, visibility }) == report(
            p,
            OutputMode::CallGraph { root: second_root, visibility },
        ),
{
}

/// On an index built from files a report fails only for a name that means
/// no function: no key of such an index lacks a separator.
pub proof fn lemma_loaded_report_fails_only_for_unknown_names(
    files: Seq<ParsedFile>,
    mode: OutputMode,
)
    ensures
        match report(ingest_files(ProjectView::empty(), files), mode) {
            Ok(_) => true,
            Err(e) => match mode {
                OutputMode::ListAll { .. } => false,
                OutputMode::CallGraph { root, .. } => e == not_found_message(root@),
                OutputMode::Source { function } => e == not_found_message(function@),
            },
        },
{
    let p = ingest_files(ProjectView::empty(), files);
    crate::project::lemma_loaded_keys_name_files(files);
    match mode {
        OutputMode::ListAll { .. } => {},
        OutputMode::CallGraph { root, .. } => {
            match resolve(p.names(), all_members(p.functions.len()), root@) {
                Some(r) => {
                    reveal(first_malformed);
                    assert forall|i: int| !is_malformed(
                        p.functions,
                        reached(p.functions, r),
                        i,
                    ) by {}
                },
                None => {},
            }
        },
        OutputMode::Source { function } => {
            lemma_resolve_meaning(p.names(), all_members(p.functions.len()), function@);
        },
    }
}

} // verus!
