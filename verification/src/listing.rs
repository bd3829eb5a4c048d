//! The listing of declarations, file by file.
//!
//! Files come in ascending order of their paths. Under the header of a file
//! stand its types, in the order of the index, and then the header lines
//! of its functions, in ascending order of their keys.

use crate::declaration::{declaration_text, push_declaration};
use crate::function::{
    file_of_name, find_file_for_function, function_views, signature_text, Function, FunctionView,
};
use crate::mode::VisibilityFilter;
use crate::order::{
    arranges, ascending, keys_of, lemma_ascending_exists, lemma_ascending_is, sort_by_key,
};
use crate::project::{
    function_names, lemma_position_found, position, type_views, Project, ProjectView, TypeEntry,
};
use crate::resolve::table_texts;
use crate::text::{chars_of, distinct, holds, lemma_holds_kept, record_name, texts};
use vstd::prelude::*;
use vstd::string::*;

verus! {

/// The file under which a function with a key without separator is listed.
pub open spec fn unknown_file() -> Seq<char> {
    "<unknown>"@
}

/// The file under which a function is listed: the file that its key
/// names, or `<unknown>` where the key has no separator.
pub open spec fn function_file(f: FunctionView) -> Seq<char> {
    match file_of_name(f.qualified_name) {
        Some(file) => file,
        None => unknown_file(),
    }
}

/// Type `t` is chosen and belongs to `file`.
pub open spec fn in_types(p: ProjectView, tm: Seq<bool>, file: Seq<char>, t: int) -> bool {
    0 <= t < p.types.len() && t < tm.len() && tm[t] && p.types[t].file_path == file
}

/// Function `i` is chosen and is listed under `file`.
pub open spec fn in_functions(p: ProjectView, fm: Seq<bool>, file: Seq<char>, i: int) -> bool {
    0 <= i < p.functions.len() && i < fm.len() && fm[i] && function_file(p.functions[i]) == file
}

/// A chosen type or a chosen function belongs to `file`.
pub open spec fn is_listed_file(
    p: ProjectView,
    tm: Seq<bool>,
    fm: Seq<bool>,
    file: Seq<char>,
) -> bool {
    (exists|t: int| in_types(p, tm, file, t)) || (exists|i: int| in_functions(p, fm, file, i))
}

/// The files of the chosen types and functions.
pub open spec fn listed_files(p: ProjectView, tm: Seq<bool>, fm: Seq<bool>) -> Set<Seq<char>> {
    Set::new(|file: Seq<char>| is_listed_file(p, tm, fm, file))
}

/// The header of a file's section.
pub open spec fn header_text(file: Seq<char>) -> Seq<char> {
    "=== "@ + file + " ===\n"@
}

/// The chosen types of `file` among the first `upto` of the index, each
/// followed by a line end.
pub open spec fn types_block(p: ProjectView, tm: Seq<bool>, file: Seq<char>, upto: nat) -> Seq<char>
    decreases upto,
{
    if upto == 0 {
        Seq::empty()
    } else {
        types_block(p, tm, file, (upto - 1) as nat) + (if in_types(p, tm, file, upto - 1) {
            declaration_text(p.types[upto - 1].item) + "\n"@
        } else {
            Seq::empty()
        })
    }
}

/// The keys of the chosen functions of `file`.
pub open spec fn file_keys(p: ProjectView, fm: Seq<bool>, file: Seq<char>) -> Set<Seq<char>> {
    Set::new(
        |n: Seq<char>|
            exists|i: int| in_functions(p, fm, file, i) && p.functions[i].qualified_name == n,
    )
}

/// The header lines of the functions with the given keys, in that order,
/// each followed by a line end.
pub open spec fn signature_lines(fs: Seq<FunctionView>, keys: Seq<Seq<char>>) -> Seq<char>
    decreases keys.len(),
{
    if keys.len() == 0 {
        Seq::empty()
    } else {
        signature_lines(fs, keys.drop_last()) + (match position(function_names(fs), keys.last()) {
            Some(i) => signature_text(fs[i]) + "\n"@,
            None => Seq::empty(),
        })
    }
}

/// The section of one file: its header, its chosen types, and the header
/// lines of its chosen functions in ascending order of their keys.
pub open spec fn listing_section(
    p: ProjectView,
    tm: Seq<bool>,
    fm: Seq<bool>,
    file: Seq<char>,
) -> Seq<char> {
    header_text(file) + types_block(p, tm, file, p.types.len()) + signature_lines(
        p.functions,
        ascending(file_keys(p, fm, file)),
    )
}

/// The sections of the given files, in that order.
pub open spec fn listing_sections(
    p: ProjectView,
    tm: Seq<bool>,
    fm: Seq<bool>,
    files: Seq<Seq<char>>,
) -> Seq<char>
    decreases files.len(),
{
    if files.len() == 0 {
        Seq::empty()
    } else {
        listing_sections(p, tm, fm, files.drop_last()) + listing_section(p, tm, fm, files.last())
    }
}

/// The listing of the chosen types and functions: the sections of their
/// files in ascending order of the paths.
pub open spec fn listing_text(p: ProjectView, tm: Seq<bool>, fm: Seq<bool>) -> Seq<char> {
    listing_sections(p, tm, fm, ascending(listed_files(p, tm, fm)))
}

/// The types that pass the filter, each by its own visibility.
pub open spec fn visible_types(p: ProjectView, filter: VisibilityFilter) -> Seq<bool> {
    Seq::new(p.types.len(), |t: int| filter.admits(p.types[t].item.visibility().is_public()))
}

/// The functions that pass the filter, each by its own visibility.
pub open spec fn visible_functions(p: ProjectView, filter: VisibilityFilter) -> Seq<bool> {
    Seq::new(p.functions.len(), |i: int| filter.admits(p.functions[i].vis.is_public()))
}

/// The listing of all declarations that pass the filter.
pub open spec fn list_all_text(p: ProjectView, filter: VisibilityFilter) -> Seq<char> {
    listing_text(p, visible_types(p, filter), visible_functions(p, filter))
}

/// The texts that a list of strings holds.
pub open spec fn held(list: Seq<String>) -> Set<Seq<char>> {
    Set::new(|x: Seq<char>| holds(list, x))
}

/// The texts of a list in the order given by `order`.
pub open spec fn in_order(list: Seq<String>, order: Seq<usize>) -> Seq<Seq<char>> {
    Seq::new(order.len(), |k: int| list[order[k] as int]@)
}

/// The positions of a list of distinct texts, in ascending order of the
/// texts.
pub fn ascending_order(list: &Vec<String>) -> (r: Vec<usize>)
    requires
        distinct(texts(list@)),
    ensures
        r.len() == list.len(),
        forall|k: int| 0 <= k < r.len() ==> (#[trigger] r[k]) < list.len(),
        in_order(list@, r@) == ascending(held(list@)),
{
    let mut keys: Vec<Vec<char>> = Vec::new();
    let mut items: Vec<usize> = Vec::new();
    let mut i: usize = 0;
    while i < list.len()
        invariant
            i <= list.len(),
            keys.len() == i,
            items.len() == i,
            forall|k: int| 0 <= k < i ==> (#[trigger] keys[k])@ == list[k]@,
            forall|k: int| 0 <= k < i ==> (#[trigger] items[k]) == k,
        decreases list.len() - i,
    {
        keys.push(chars_of(list[i].as_str()));
        items.push(i);
        i = i + 1;
    }
    proof {
        assert forall|a: int, b: int| 0 <= a < b < items.len() implies keys[items[a] as int]@
            != keys[items[b] as int]@ by {
            assert(texts(list@)[a] != texts(list@)[b]);
        }
    }
    let r = sort_by_key(&keys, &items);
    proof {
        assert forall|k: int| 0 <= k < r.len() implies (#[trigger] r[k]) < list.len() by {
            assert(r@.contains(r[k]));
            assert(items@.contains(r[k]));
        }
        let sorted = keys_of(keys@, r@);
        assert(sorted =~= in_order(list@, r@));
        assert forall|x: Seq<char>| sorted.contains(x) <==> held(list@).contains(x) by {
            if sorted.contains(x) {
                let k = choose|k: int| 0 <= k < sorted.len() && sorted[k] == x;
                assert(list@[r[k] as int]@ == x);
            }
            if holds(list@, x) {
                let m = choose|m: int| 0 <= m < list.len() && (#[trigger] list@[m])@ == x;
                assert(items@[m] == m);
                assert(items@.contains(m as usize));
                assert(r@.contains(m as usize));
                let k = choose|k: int| 0 <= k < r.len() && r@[k] == m as usize;
                assert(sorted[k] == x);
            }
        }
        lemma_ascending_is(sorted, held(list@));
    }
    r
}

/// The file under which each function is listed.
pub fn function_files(fs: &Vec<Function>) -> (r: Vec<String>)
    ensures
        r.len() == fs.len(),
        forall|i: int| 0 <= i < fs.len() ==> (#[trigger] r[i])@ == function_file(fs[i]@),
{
    let mut r: Vec<String> = Vec::new();
    let mut i: usize = 0;
    while i < fs.len()
        invariant
            i <= fs.len(),
            r.len() == i,
            forall|k: int| 0 <= k < i ==> (#[trigger] r[k])@ == function_file(fs[k]@),
        decreases fs.len() - i,
    {
        match find_file_for_function(fs[i].qualified_name.as_str()) {
            Ok(file) => r.push(file),
            Err(_) => r.push(String::from_str("<unknown>")),
        }
        i = i + 1;
    }
    r
}

/// The files of the chosen types and functions, each once.
pub(crate) fn listed_file_list(
    ts: &Vec<TypeEntry>,
    tm: &Vec<bool>,
    ffiles: &Vec<String>,
    fm: &Vec<bool>,
    Ghost(p): Ghost<ProjectView>,
) -> (r: Vec<String>)
    requires
        type_views(ts@) == p.types,
        tm.len() == ts.len(),
        ffiles.len() == p.functions.len(),
        fm.len() == ffiles.len(),
        forall|i: int|
            0 <= i < ffiles.len() ==> (#[trigger] ffiles[i])@ == function_file(p.functions[i]),
    ensures
        distinct(texts(r@)),
        forall|x: Seq<char>| holds(r@, x) <==> is_listed_file(p, tm@, fm@, x),
{
    let mut r: Vec<String> = Vec::new();
    let mut t: usize = 0;
    while t < ts.len()
        invariant
            t <= ts.len(),
            type_views(ts@) == p.types,
            tm.len() == ts.len(),
            distinct(texts(r@)),
            forall|k: int| 0 <= k < r.len() ==> is_listed_file(p, tm@, fm@, (#[trigger] r[k])@),
            forall|u: int| 0 <= u < t && tm[u] ==> holds(r@, (#[trigger] p.types[u]).file_path),
        decreases ts.len() - t,
    {
        if tm[t] {
            let ghost before = r@;
            proof {
                assert(p.types[t as int] == ts[t as int]@);
                assert(in_types(p, tm@, ts[t as int].file_path@, t as int));
            }
            record_name(&mut r, &ts[t].file_path);
            proof {
                lemma_holds_kept(before, r@);
                assert forall|k: int| 0 <= k < r.len() implies is_listed_file(
                    p,
                    tm@,
                    fm@,
                    (#[trigger] r[k])@,
                ) by {
                    if k < before.len() {
                        assert(r@.take(before.len() as int)[k] == r@[k]);
                    }
                }
            }
        }
        t = t + 1;
    }
    let mut i: usize = 0;
    while i < ffiles.len()
        invariant
            i <= ffiles.len(),
            type_views(ts@) == p.types,
            tm.len() == ts.len(),
            ffiles.len() == p.functions.len(),
            fm.len() == ffiles.len(),
            forall|j: int|
                0 <= j < ffiles.len() ==> (#[trigger] ffiles[j])@ == function_file(p.functions[j]),
            distinct(texts(r@)),
            forall|k: int| 0 <= k < r.len() ==> is_listed_file(p, tm@, fm@, (#[trigger] r[k])@),
            forall|u: int|
                0 <= u < ts.len() && tm[u] ==> holds(r@, (#[trigger] p.types[u]).file_path),
            forall|j: int| 0 <= j < i && fm[j] ==> holds(r@, (#[trigger] ffiles[j])@),
        decreases ffiles.len() - i,
    {
        if fm[i] {
            let ghost before = r@;
            proof {
                assert(in_functions(p, fm@, ffiles[i as int]@, i as int));
            }
            record_name(&mut r, &ffiles[i]);
            proof {
                lemma_holds_kept(before, r@);
                assert forall|k: int| 0 <= k < r.len() implies is_listed_file(
                    p,
                    tm@,
                    fm@,
                    (#[trigger] r[k])@,
                ) by {
                    if k < before.len() {
                        assert(r@.take(before.len() as int)[k] == r@[k]);
                    }
                }
            }
        }
        i = i + 1;
    }
    proof {
        assert forall|x: Seq<char>| holds(r@, x) <==> is_listed_file(p, tm@, fm@, x) by {
            if is_listed_file(p, tm@, fm@, x) {
                if exists|u: int| in_types(p, tm@, x, u) {
                    let u = choose|u: int| in_types(p, tm@, x, u);
                    assert(holds(r@, p.types[u].file_path));
                } else {
                    let j = choose|j: int| in_functions(p, fm@, x, j);
                    assert(holds(r@, ffiles[j]@));
                }
            }
        }
    }
    r
}

/// The chosen functions of one file, in ascending order of their keys.
pub(crate) fn file_functions(
    fs: &Vec<Function>,
    names: &Vec<Vec<char>>,
    ffiles: &Vec<String>,
    fm: &Vec<bool>,
    file: &String,
    Ghost(p): Ghost<ProjectView>,
) -> (sorted: Vec<usize>)
    requires
        function_views(fs@) == p.functions,
        p.wf(),
        fm.len() == fs.len(),
        names.len() == fs.len(),
        ffiles.len() == fs.len(),
        forall|i: int| 0 <= i < fs.len() ==> (#[trigger] names[i])@ == fs[i].qualified_name@,
        forall|i: int|
            0 <= i < ffiles.len() ==> (#[trigger] ffiles[i])@ == function_file(p.functions[i]),
    ensures
        forall|k: int| 0 <= k < sorted.len() ==> (#[trigger] sorted[k]) < fs.len(),
        keys_of(names@, sorted@) == ascending(file_keys(p, fm@, file@)),
{
    let mut chosen: Vec<usize> = Vec::new();
    let mut i: usize = 0;
    while i < fs.len()
        invariant
            i <= fs.len(),
            function_views(fs@) == p.functions,
            fm.len() == fs.len(),
            ffiles.len() == fs.len(),
            forall|j: int|
                0 <= j < ffiles.len() ==> (#[trigger] ffiles[j])@ == function_file(p.functions[j]),
            forall|k: int| 0 <= k < chosen.len() ==> (#[trigger] chosen[k]) < i && in_functions(
                p,
                fm@,
                file@,
                chosen[k] as int,
            ),
            forall|a: int, b: int| 0 <= a < b < chosen.len() ==> chosen[a] < chosen[b],
            forall|j: int| 0 <= j < i && in_functions(p, fm@, file@, j) ==> chosen@.contains(j as usize),
        decreases fs.len() - i,
    {
        if fm[i] && ffiles[i] == *file {
            let ghost before = chosen@;
            chosen.push(i);
            proof {
                assert forall|j: int| 0 <= j < i + 1 && in_functions(p, fm@, file@, j)
                    implies chosen@.contains(j as usize) by {
                    if j == i {
                        assert(chosen@[before.len() as int] == i);
                    } else {
                        assert(before.contains(j as usize));
                        let k = choose|k: int| 0 <= k < before.len() && before[k] == j as usize;
                        assert(chosen@[k] == j as usize);
                    }
                }
            }
        }
        i = i + 1;
    }
    proof {
        assert(table_texts(names@) =~= function_names(p.functions)) by {
            assert forall|k: int| 0 <= k < names.len() implies table_texts(names@)[k]
                == function_names(p.functions)[k] by {
                assert(p.functions[k] == fs[k]@);
            }
        }
        assert forall|a: int, b: int| 0 <= a < b < chosen.len() implies names[chosen[a] as int]@
            != names[chosen[b] as int]@ by {
            assert(function_names(p.functions)[chosen[a] as int] != function_names(
                p.functions,
            )[chosen[b] as int]);
        }
    }
    let sorted = sort_by_key(names, &chosen);
    let ghost keys = keys_of(names@, sorted@);
    proof {
        assert forall|k: int| 0 <= k < sorted.len() implies (#[trigger] sorted[k]) < fs.len()
            && in_functions(p, fm@, file@, sorted[k] as int) by {
            assert(sorted@.contains(sorted[k]));
            assert(chosen@.contains(sorted[k]));
            let m = choose|m: int| 0 <= m < chosen.len() && chosen@[m] == sorted[k];
            assert(in_functions(p, fm@, file@, chosen[m] as int));
        }
        assert forall|x: Seq<char>| keys.contains(x) <==> file_keys(p, fm@, file@).contains(
            x,
        ) by {
            if keys.contains(x) {
                let k = choose|k: int| 0 <= k < keys.len() && keys[k] == x;
                let j = sorted[k] as int;
                assert(in_functions(p, fm@, file@, j));
                assert(p.functions[j] == fs[j]@);
            }
            if file_keys(p, fm@, file@).contains(x) {
                let j = choose|j: int|
                    in_functions(p, fm@, file@, j) && p.functions[j].qualified_name == x;
                assert(chosen@.contains(j as usize));
                assert(sorted@.contains(j as usize));
                let k = choose|k: int| 0 <= k < sorted.len() && sorted@[k] == j as usize;
                assert(p.functions[j] == fs[j]@);
                assert(keys[k] == x);
            }
        }
        lemma_ascending_is(keys, file_keys(p, fm@, file@));
    }
    sorted
}

/// Appends the section of one file.
fn push_section(
    ts: &Vec<TypeEntry>,
    tm: &Vec<bool>,
    fs: &Vec<Function>,
    names: &Vec<Vec<char>>,
    ffiles: &Vec<String>,
    fm: &Vec<bool>,
    file: &String,
    out: &mut String,
    Ghost(p): Ghost<ProjectView>,
)
    requires
        type_views(ts@) == p.types,
        function_views(fs@) == p.functions,
        p.wf(),
        tm.len() == ts.len(),
        fm.len() == fs.len(),
        names.len() == fs.len(),
        ffiles.len() == fs.len(),
        forall|i: int| 0 <= i < fs.len() ==> (#[trigger] names[i])@ == fs[i].qualified_name@,
        forall|i: int|
            0 <= i < ffiles.len() ==> (#[trigger] ffiles[i])@ == function_file(p.functions[i]),
    ensures
        final(out)@ == old(out)@ + listing_section(p, tm@, fm@, file@),
{
    out.append("=== ");
    out.append(file.as_str());
    out.append(" ===\n");
    let ghost head = out@;
    let mut t: usize = 0;
    while t < ts.len()
        invariant
            t <= ts.len(),
            type_views(ts@) == p.types,
            tm.len() == ts.len(),
            out@ == head + types_block(p, tm@, file@, t as nat),
        decreases ts.len() - t,
    {
        proof {
            assert(p.types[t as int] == ts[t as int]@);
        }
        if tm[t] && ts[t].file_path == *file {
            push_declaration(out, &ts[t].item);
            out.append("\n");
        }
        t = t + 1;
    }
    let ghost head = out@;
    let sorted = file_functions(fs, names, ffiles, fm, file, Ghost(p));
    let ghost keys = keys_of(names@, sorted@);
    let mut k: usize = 0;
    while k < sorted.len()
        invariant
            k <= sorted.len(),
            function_views(fs@) == p.functions,
            p.wf(),
            names.len() == fs.len(),
            forall|i: int| 0 <= i < fs.len() ==> (#[trigger] names[i])@ == fs[i].qualified_name@,
            forall|m: int| 0 <= m < sorted.len() ==> (#[trigger] sorted[m]) < fs.len(),
            keys == keys_of(names@, sorted@),
            out@ == head + signature_lines(p.functions, keys.take(k as int)),
        decreases sorted.len() - k,
    {
        let j = sorted[k];
        proof {
            assert(keys.take(k + 1).drop_last() == keys.take(k as int));
            assert(keys.take(k + 1).last() == keys[k as int]);
            assert(p.functions[j as int] == fs[j as int]@);
            assert(function_names(p.functions)[j as int] == keys[k as int]);
            lemma_position_found(function_names(p.functions), keys[k as int], j as int);
        }
        fs[j].push_signature(out);
        out.append("\n");
        k = k + 1;
    }
    proof {
        assert(keys.take(k as int) == keys);
    }
}

/// Appends the listing of the chosen types and functions.
pub fn push_listing(project: &Project, tm: &Vec<bool>, fm: &Vec<bool>, out: &mut String)
    requires
        tm.len() == project@.types.len(),
        fm.len() == project@.functions.len(),
    ensures
        final(out)@ == old(out)@ + listing_text(project@, tm@, fm@),
{
    let ts = project.types();
    let fs = project.functions();
    let ghost p = project@;
    let names = crate::function::name_table(fs);
    let ffiles = function_files(fs);
    proof {
        assert(ts.len() == p.types.len());
        assert(fs.len() == p.functions.len());
        assert forall|i: int| 0 <= i < ffiles.len() implies (#[trigger] ffiles[i])@
            == function_file(p.functions[i]) by {
            assert(p.functions[i] == fs[i]@);
        }
    }
    let files = listed_file_list(ts, tm, &ffiles, fm, Ghost(p));
    let order = ascending_order(&files);
    let ghost sorted = in_order(files@, order@);
    proof {
        assert(held(files@) =~= listed_files(p, tm@, fm@));
    }
    let mut k: usize = 0;
    while k < order.len()
        invariant
            k <= order.len(),
            p == project@,
            type_views(ts@) == p.types,
            function_views(fs@) == p.functions,
            p.wf(),
            tm.len() == ts.len(),
            fm.len() == fs.len(),
            names.len() == fs.len(),
            ffiles.len() == fs.len(),
            forall|i: int| 0 <= i < fs.len() ==> (#[trigger] names[i])@ == fs[i].qualified_name@,
            forall|i: int|
                0 <= i < ffiles.len() ==> (#[trigger] ffiles[i])@ == function_file(p.functions[i]),
            forall|m: int| 0 <= m < order.len() ==> (#[trigger] order[m]) < files.len(),
            sorted == in_order(files@, order@),
            out@ == old(out)@ + listing_sections(p, tm@, fm@, sorted.take(k as int)),
        decreases order.len() - k,
    {
        proof {
            assert(sorted.take(k + 1).drop_last() == sorted.take(k as int));
            assert(sorted.take(k + 1).last() == files[order[k as int] as int]@);
        }
        push_section(ts, tm, fs, &names, &ffiles, fm, &files[order[k]], out, Ghost(p));
        k = k + 1;
    }
    proof {
        assert(sorted.take(k as int) == sorted);
    }
}

/// Which types pass the filter.
pub fn visible_type_mask(project: &Project, filter: VisibilityFilter) -> (r: Vec<bool>)
    ensures
        r@ == visible_types(project@, filter),
{
    let ts = project.types();
    let mut r: Vec<bool> = Vec::new();
    let mut t: usize = 0;
    while t < ts.len()
        invariant
            t <= ts.len(),
            type_views(ts@) == project@.types,
            r.len() == t,
            forall|u: int| 0 <= u < t ==> (#[trigger] r[u]) == visible_types(project@, filter)[u],
        decreases ts.len() - t,
    {
        proof {
            assert(project@.types[t as int] == ts[t as int]@);
        }
        r.push(filter.admits(ts[t].item.is_public()));
        t = t + 1;
    }
    proof {
        assert(r@ =~= visible_types(project@, filter));
    }
    r
}

/// Which functions pass the filter.
pub fn visible_function_mask(project: &Project, filter: VisibilityFilter) -> (r: Vec<bool>)
    ensures
        r@ == visible_functions(project@, filter),
{
    let fs = project.functions();
    let mut r: Vec<bool> = Vec::new();
    let mut i: usize = 0;
    while i < fs.len()
        invariant
            i <= fs.len(),
            function_views(fs@) == project@.functions,
            r.len() == i,
            forall|j: int|
                0 <= j < i ==> (#[trigger] r[j]) == visible_functions(project@, filter)[j],
        decreases fs.len() - i,
    {
        proof {
            assert(project@.functions[i as int] == fs[i as int]@);
        }
        r.push(filter.admits(fs[i].is_public()));
        i = i + 1;
    }
    proof {
        assert(r@ =~= visible_functions(project@, filter));
    }
    r
}

/// The files of a listing have an ascending arrangement, and the sections
/// of the listing follow it: each listed file once, and each before all
/// that come after it in the order of texts.
pub proof fn lemma_listed_files_in_order(p: ProjectView, tm: Seq<bool>, fm: Seq<bool>)
    ensures
        arranges(ascending(listed_files(p, tm, fm)), listed_files(p, tm, fm)),
{
    let type_files = p.types.map_values(|t: crate::project::TypeEntryView| t.file_path);
    let function_files = p.functions.map_values(|f: FunctionView| function_file(f));
    let cover = type_files + function_files;
    assert forall|file: Seq<char>| listed_files(p, tm, fm).contains(file) implies cover.contains(
        file,
    ) by {
        if exists|t: int| in_types(p, tm, file, t) {
            let t = choose|t: int| in_types(p, tm, file, t);
            assert(cover[t] == file);
        } else {
            let i = choose|i: int| in_functions(p, fm, file, i);
            assert(cover[p.types.len() + i] == file);
        }
    }
    lemma_ascending_exists(listed_files(p, tm, fm), cover);
}

/// The keys of the chosen functions of a file have an ascending
/// arrangement, and the header lines of the file's section follow it.
pub proof fn lemma_file_keys_in_order(p: ProjectView, fm: Seq<bool>, file: Seq<char>)
    ensures
        arranges(ascending(file_keys(p, fm, file)), file_keys(p, fm, file)),
{
    let cover = function_names(p.functions);
    assert forall|n: Seq<char>| file_keys(p, fm, file).contains(n) implies cover.contains(n) by {
        let i = choose|i: int| in_functions(p, fm, file, i) && p.functions[i].qualified_name == n;
        assert(cover[i] == n);
    }
    lemma_ascending_exists(file_keys(p, fm, file), cover);
}

/// What the listing of public declarations shows, the listing of all
/// declarations shows too: each type, each function and each file.
pub proof fn lemma_public_listing_is_part(p: ProjectView)
    ensures
        forall|t: int|
            0 <= t < p.types.len() && #[trigger] visible_types(p, VisibilityFilter::PublicOnly)[t]
                ==> visible_types(p, VisibilityFilter::All)[t],
        forall|i: int|
            0 <= i < p.functions.len() && #[trigger] visible_functions(
                p,
                VisibilityFilter::PublicOnly,
            )[i] ==> visible_functions(p, VisibilityFilter::All)[i],
        listed_files(
            p,
            visible_types(p, VisibilityFilter::PublicOnly),
            visible_functions(p, VisibilityFilter::PublicOnly),
        ).subset_of(
            listed_files(
                p,
                visible_types(p, VisibilityFilter::All),
                visible_functions(p, VisibilityFilter::All),
            ),
        ),
{
    let tp = visible_types(p, VisibilityFilter::PublicOnly);
    let fp = visible_functions(p, VisibilityFilter::PublicOnly);
    let ta = visible_types(p, VisibilityFilter::All);
    let fa = visible_functions(p, VisibilityFilter::All);
    assert forall|file: Seq<char>| is_listed_file(p, tp, fp, file) implies is_listed_file(
        p,
        ta,
        fa,
        file,
    ) by {
        if exists|t: int| in_types(p, tp, file, t) {
            let t = choose|t: int| in_types(p, tp, file, t);
            assert(in_types(p, ta, file, t));
        } else {
            let i = choose|i: int| in_functions(p, fp, file, i);
            assert(in_functions(p, fa, file, i));
        }
    }
}

} // verus!
