//! Which functions and types can be reached from a function through calls.

use crate::function::{function_calls, function_views, Function, FunctionView};
use crate::calls::call_views;
use crate::project::{function_names, Project};
use crate::text::distinct;
use crate::resolve::{all_members, resolve, resolve_call, table_texts};
use crate::syntax::{FnArg, ReturnType, Signature, Type, TypeKind};
use crate::text::{chars_of, holds, lemma_holds_kept, record_name, texts};
use vstd::prelude::*;
use vstd::string::*;

verus! {

/// Function `i` holds a call that means function `j`.
pub open spec fn calls_to(fs: Seq<FunctionView>, i: int, j: int) -> bool {
    &&& 0 <= i < fs.len()
    &&& exists|c: int|
        0 <= c < function_calls(fs[i]).len() && resolve(
            function_names(fs),
            all_members(fs.len()),
            (#[trigger] function_calls(fs[i])[c]).name,
        ) == Some(j)
}

/// Each function of the path calls the next.
pub open spec fn is_walk(fs: Seq<FunctionView>, path: Seq<int>) -> bool {
    &&& path.len() > 0
    &&& forall|k: int| 0 <= k < path.len() - 1 ==> calls_to(fs, #[trigger] path[k], path[k + 1])
}

/// A chain of calls leads from function `from` to function `to`; the empty
/// chain leads from a function to itself.
pub open spec fn reaches(fs: Seq<FunctionView>, from: int, to: int) -> bool {
    exists|path: Seq<int>| is_walk(fs, path) && path[0] == from && #[trigger] path.last() == to
}

/// The name that a type is looked up by: the last segment of a path, found
/// through any references, arrays and slices around it.
pub open spec fn named_type(t: Type) -> Option<Seq<char>>
    decreases t,
{
    match t.kind {
        TypeKind::Path { last_segment: Some(s), .. } => Some(s@),
        TypeKind::Path { last_segment: None, .. } => None,
        TypeKind::Reference { elem } => named_type(*elem),
        TypeKind::Array { elem } => named_type(*elem),
        TypeKind::Slice { elem } => named_type(*elem),
        TypeKind::Other => None,
    }
}

/// The type name of a parameter; a receiver has none.
pub open spec fn arg_type_name(arg: FnArg) -> Option<Seq<char>> {
    match arg {
        FnArg::Receiver => None,
        FnArg::Typed(t) => named_type(t),
    }
}

/// The type name of what a function returns.
pub open spec fn output_type_name(output: ReturnType) -> Option<Seq<char>> {
    match output {
        ReturnType::Default => None,
        ReturnType::Type(t) => named_type(t),
    }
}

/// The signature names the type `n` in a parameter or in what it returns.
pub open spec fn names_type(sig: Signature, n: Seq<char>) -> bool {
    ||| exists|k: int|
        0 <= k < sig.inputs.len() && arg_type_name(#[trigger] sig.inputs[k]) == Some(n)
    ||| output_type_name(sig.output) == Some(n)
}

/// `n` is the key of a function that can be reached from `root`.
pub open spec fn is_reachable_name(fs: Seq<FunctionView>, root: int, n: Seq<char>) -> bool {
    exists|i: int| 0 <= i < fs.len() && reaches(fs, root, i) && (#[trigger] fs[i]).qualified_name == n
}

/// `n` is named in the signature of a function that can be reached from `root`.
pub open spec fn is_reachable_type(fs: Seq<FunctionView>, root: int, n: Seq<char>) -> bool {
    exists|i: int| 0 <= i < fs.len() && reaches(fs, root, i) && names_type((#[trigger] fs[i]).sig, n)
}

/// Every function reaches itself.
pub proof fn lemma_reaches_itself(fs: Seq<FunctionView>, i: int)
    ensures
        reaches(fs, i, i),
{
    let path = seq![i];
    assert(is_walk(fs, path));
    assert(path[0] == i && path.last() == i);
}

/// What is reached can be left by one more call.
pub proof fn lemma_reaches_step(fs: Seq<FunctionView>, a: int, b: int, c: int)
    requires
        reaches(fs, a, b),
        calls_to(fs, b, c),
    ensures
        reaches(fs, a, c),
{
    let path = choose|path: Seq<int>| is_walk(fs, path) && path[0] == a && #[trigger] path.last() == b;
    let longer = path.push(c);
    assert forall|k: int| 0 <= k < longer.len() - 1 implies calls_to(
        fs,
        #[trigger] longer[k],
        longer[k + 1],
    ) by {
        if k < path.len() - 1 {
            assert(calls_to(fs, path[k], path[k + 1]));
        }
    }
    assert(is_walk(fs, longer));
    assert(longer[0] == a && longer.last() == c);
}

/// The set holds what each of its functions calls.
pub open spec fn is_closed(fs: Seq<FunctionView>, member: Seq<bool>) -> bool {
    forall|i: int, j: int|
        0 <= i < member.len() && member[i] && #[trigger] calls_to(fs, i, j) ==> 0 <= j
            < member.len() && member[j]
}

/// A set that holds `root` and what each of its functions calls holds all
/// that can be reached from `root`.
pub proof fn lemma_closed_holds_reachable(
    fs: Seq<FunctionView>,
    member: Seq<bool>,
    root: int,
    to: int,
)
    requires
        0 <= root < member.len(),
        member[root],
        is_closed(fs, member),
        reaches(fs, root, to),
    ensures
        0 <= to < member.len(),
        member[to],
{
    let path = choose|path: Seq<int>|
        is_walk(fs, path) && path[0] == root && #[trigger] path.last() == to;
    lemma_walk_stays(fs, member, path, path.len() - 1);
}

proof fn lemma_walk_stays(fs: Seq<FunctionView>, member: Seq<bool>, path: Seq<int>, k: int)
    requires
        is_walk(fs, path),
        0 <= path[0] < member.len(),
        member[path[0]],
        is_closed(fs, member),
        0 <= k < path.len(),
    ensures
        0 <= path[k] < member.len(),
        member[path[k]],
    decreases k,
{
    if k > 0 {
        lemma_walk_stays(fs, member, path, k - 1);
        assert(calls_to(fs, path[k - 1], path[k - 1 + 1]));
    }
}

/// The name that a type is looked up by.
pub fn named_type_of(t: &Type) -> (r: Option<&String>)
    ensures
        match r {
            Some(s) => named_type(*t) == Some(s@),
            None => named_type(*t) is None,
        },
    decreases t,
{
    match &t.kind {
        TypeKind::Path { last_segment: Some(s), .. } => Some(s),
        TypeKind::Path { last_segment: None, .. } => None,
        TypeKind::Reference { elem } => named_type_of(elem),
        TypeKind::Array { elem } => named_type_of(elem),
        TypeKind::Slice { elem } => named_type_of(elem),
        TypeKind::Other => None,
    }
}

/// Adds the type names of a signature's parameters and of what it returns
/// to a list of distinct names.
pub fn collect_types_in_signature(sig: &Signature, out: &mut Vec<String>)
    requires
        distinct(texts(old(out)@)),
    ensures
        distinct(texts(final(out)@)),
        old(out)@.len() <= final(out)@.len(),
        final(out)@.take(old(out)@.len() as int) == old(out)@,
        forall|k: int|
            old(out)@.len() <= k < final(out)@.len() ==> names_type(*sig, (#[trigger] final(out)@[k])@),
        forall|n: Seq<char>| names_type(*sig, n) ==> holds(final(out)@, n),
{
    let mut i: usize = 0;
    while i < sig.inputs.len()
        invariant
            i <= sig.inputs.len(),
            distinct(texts(out@)),
            old(out)@.len() <= out@.len(),
            out@.take(old(out)@.len() as int) == old(out)@,
            forall|k: int|
                old(out)@.len() <= k < out@.len() ==> names_type(*sig, (#[trigger] out@[k])@),
            forall|j: int|
                0 <= j < i ==> (arg_type_name(#[trigger] sig.inputs[j]) matches Some(n) ==> holds(
                    out@,
                    n,
                )),
        decreases sig.inputs.len() - i,
    {
        let ghost before = out@;
        match &sig.inputs[i] {
            FnArg::Typed(t) => match named_type_of(t) {
                Some(name) => {
                    record_name(out, name);
                    proof {
                        assert(arg_type_name(sig.inputs[i as int]) == Some(name@));
                        assert(names_type(*sig, name@));
                        lemma_holds_kept(before, out@);
                        assert(out@.take(old(out)@.len() as int) == before.take(
                            old(out)@.len() as int,
                        ));
                        assert forall|k: int| old(out)@.len() <= k < out@.len() implies names_type(
                            *sig,
                            (#[trigger] out@[k])@,
                        ) by {
                            if k < before.len() {
                                assert(out@.take(before.len() as int)[k] == out@[k]);
                            }
                        }
                    }
                },
                None => {},
            },
            FnArg::Receiver => {},
        }
        i = i + 1;
    }
    let ghost before = out@;
    match &sig.output {
        ReturnType::Type(t) => match named_type_of(t) {
            Some(name) => {
                record_name(out, name);
                proof {
                    assert(names_type(*sig, name@));
                    lemma_holds_kept(before, out@);
                    assert(out@.take(old(out)@.len() as int) == before.take(
                        old(out)@.len() as int,
                    ));
                    assert forall|k: int| old(out)@.len() <= k < out@.len() implies names_type(
                        *sig,
                        (#[trigger] out@[k])@,
                    ) by {
                        if k < before.len() {
                            assert(out@.take(before.len() as int)[k] == out@[k]);
                        }
                    }
                }
            },
            None => {},
        },
        ReturnType::Default => {},
    }
}

/// What a trace from one function found.
pub struct Trace {
    /// For each function of the index, whether it was reached.
    pub member: Vec<bool>,
    /// The functions reached, in the order in which they were found.
    pub order: Vec<usize>,
    /// The type names in the signatures of the functions reached.
    pub types: Vec<String>,
}

/// `order` lists each marked position once, and nothing else.
pub open spec fn lists_members(order: Seq<usize>, member: Seq<bool>) -> bool {
    &&& forall|a: int, b: int| 0 <= a < b < order.len() ==> order[a] != order[b]
    &&& forall|k: int|
        0 <= k < order.len() ==> (#[trigger] order[k]) < member.len() && member[order[k] as int]
    &&& forall|i: int| 0 <= i < member.len() && member[i] ==> order.contains(i as usize)
}

/// A list of different numbers below `n` has at most `n` entries.
pub proof fn lemma_distinct_below(s: Seq<usize>, n: nat)
    requires
        forall|a: int, b: int| 0 <= a < b < s.len() ==> s[a] != s[b],
        forall|k: int| 0 <= k < s.len() ==> s[k] < n,
    ensures
        s.len() <= n,
    decreases n,
{
    if s.len() > 0 {
        if n == 0 {
            assert(s[0] < n);
        } else if exists|k: int| 0 <= k < s.len() && s[k] == n - 1 {
            let k = choose|k: int| 0 <= k < s.len() && s[k] == n - 1;
            let t = s.remove(k);
            assert forall|a: int, b: int| 0 <= a < b < t.len() implies t[a] != t[b] by {
                let a1 = if a < k {
                    a
                } else {
                    a + 1
                };
                let b1 = if b < k {
                    b
                } else {
                    b + 1
                };
                assert(s[a1] != s[b1]);
            }
            assert forall|m: int| 0 <= m < t.len() implies t[m] < (n - 1) as nat by {
                let m1 = if m < k {
                    m
                } else {
                    m + 1
                };
                if m1 < k {
                    assert(s[m1] != s[k]);
                } else {
                    assert(s[k] != s[m1]);
                }
                assert(s[m1] < n);
            }
            lemma_distinct_below(t, (n - 1) as nat);
        } else {
            assert forall|m: int| 0 <= m < s.len() implies s[m] < (n - 1) as nat by {
                assert(s[m] < n);
            }
            lemma_distinct_below(s, (n - 1) as nat);
        }
    }
}

/// Every marked function can be reached from `root`.
pub open spec fn marks_reached(fs: Seq<FunctionView>, root: int, member: Seq<bool>) -> bool {
    forall|i: int| 0 <= i < member.len() && #[trigger] member[i] ==> reaches(fs, root, i)
}

/// Every marked function that is neither waiting nor `skip` has all that
/// it calls marked.
pub open spec fn done_closed(
    fs: Seq<FunctionView>,
    member: Seq<bool>,
    waiting: Seq<usize>,
    skip: int,
) -> bool {
    forall|x: int, j: int|
        0 <= x < member.len() && member[x] && x != skip && !waiting.contains(x as usize)
            && #[trigger] calls_to(fs, x, j) ==> 0 <= j < member.len() && member[j]
}

/// Every marked function that is neither waiting nor `skip` has the type
/// names of its signature listed.
pub open spec fn done_typed(
    fs: Seq<FunctionView>,
    member: Seq<bool>,
    waiting: Seq<usize>,
    skip: int,
    types: Seq<String>,
) -> bool {
    forall|x: int, n: Seq<char>|
        0 <= x < member.len() && member[x] && x != skip && !waiting.contains(x as usize)
            && #[trigger] names_type(fs[x].sig, n) ==> holds(types, n)
}

/// Every listed type is named by a function that can be reached from `root`.
pub open spec fn types_reached(fs: Seq<FunctionView>, root: int, types: Seq<String>) -> bool {
    forall|k: int| 0 <= k < types.len() ==> is_reachable_type(fs, root, (#[trigger] types[k])@)
}

/// The waiting functions differ from one another and are marked.
pub open spec fn waiting_marked(waiting: Seq<usize>, member: Seq<bool>) -> bool {
    &&& forall|a: int, b: int| 0 <= a < b < waiting.len() ==> waiting[a] != waiting[b]
    &&& forall|k: int|
        0 <= k < waiting.len() ==> (#[trigger] waiting[k]) < member.len() && member[waiting[k] as int]
}

proof fn lemma_take_one(
    fs: Seq<FunctionView>,
    member: Seq<bool>,
    waiting: Seq<usize>,
    types: Seq<String>,
)
    requires
        waiting.len() > 0,
        member.len() <= usize::MAX,
        waiting_marked(waiting, member),
        done_closed(fs, member, waiting, -1),
        done_typed(fs, member, waiting, -1, types),
    ensures
        waiting_marked(waiting.drop_last(), member),
        !waiting.drop_last().contains(waiting.last()),
        done_closed(fs, member, waiting.drop_last(), waiting.last() as int),
        done_typed(fs, member, waiting.drop_last(), waiting.last() as int, types),
{
    let rest = waiting.drop_last();
    let i = waiting.last();
    if rest.contains(i) {
        let k = choose|k: int| 0 <= k < rest.len() && rest[k] == i;
        assert(waiting[k] != waiting[waiting.len() - 1]);
    }
    assert forall|x: usize| x != i && !(#[trigger] rest.contains(x)) implies !waiting.contains(
        x,
    ) by {
        if waiting.contains(x) {
            let k = choose|k: int| 0 <= k < waiting.len() && waiting[k] == x;
            if k < rest.len() {
                assert(rest[k] == x);
            }
        }
    }
    assert forall|k: int| 0 <= k < rest.len() implies (#[trigger] rest[k]) < member.len()
        && member[rest[k] as int] by {
        assert(rest[k] == waiting[k]);
    }
    assert forall|x: int, j: int|
        0 <= x < member.len() && member[x] && x != i as int && !rest.contains(x as usize)
            && #[trigger] calls_to(fs, x, j) implies 0 <= j < member.len() && member[j] by {
        assert(x as usize != i);
        assert(!waiting.contains(x as usize));
    }
    assert forall|x: int, n: Seq<char>|
        0 <= x < member.len() && member[x] && x != i as int && !rest.contains(x as usize)
            && #[trigger] names_type(fs[x].sig, n) implies holds(types, n) by {
        assert(x as usize != i);
        assert(!waiting.contains(x as usize));
    }
    assert forall|a: int, b: int| 0 <= a < b < rest.len() implies rest[a] != rest[b] by {
        assert(waiting[a] != waiting[b]);
    }
}

proof fn lemma_mark_one(
    fs: Seq<FunctionView>,
    root: int,
    member: Seq<bool>,
    waiting: Seq<usize>,
    order: Seq<usize>,
    types: Seq<String>,
    i: int,
    j: usize,
)
    requires
        0 <= i < member.len(),
        member[i],
        !waiting.contains(i as usize),
        j < member.len(),
        !member[j as int],
        member.len() == fs.len(),
        member.len() <= usize::MAX,
        calls_to(fs, i, j as int),
        marks_reached(fs, root, member),
        waiting_marked(waiting, member),
        lists_members(order, member),
        done_closed(fs, member, waiting, i),
        done_typed(fs, member, waiting, i, types),
    ensures
        marks_reached(fs, root, member.update(j as int, true)),
        waiting_marked(waiting.push(j), member.update(j as int, true)),
        !waiting.push(j).contains(i as usize),
        lists_members(order.push(j), member.update(j as int, true)),
        order.len() + 1 <= member.len(),
        done_closed(fs, member.update(j as int, true), waiting.push(j), i),
        done_typed(fs, member.update(j as int, true), waiting.push(j), i, types),
{
    let member2 = member.update(j as int, true);
    let waiting2 = waiting.push(j);
    let order2 = order.push(j);
    lemma_reaches_step(fs, root, i, j as int);
    assert forall|a: int, b: int| 0 <= a < b < waiting2.len() implies waiting2[a]
        != waiting2[b] by {
        if b == waiting.len() {
            assert(member[waiting[a] as int]);
        }
    }
    if waiting2.contains(i as usize) {
        let k = choose|k: int| 0 <= k < waiting2.len() && waiting2[k] == i as usize;
        if k < waiting.len() {
            assert(waiting[k] == i as usize);
        }
    }
    assert forall|a: int, b: int| 0 <= a < b < order2.len() implies order2[a] != order2[b] by {
        if b == order.len() {
            assert(member[order[a] as int]);
        }
    }
    assert forall|x: int| 0 <= x < member2.len() && #[trigger] member2[x] implies order2.contains(
        x as usize,
    ) by {
        if x == j {
            assert(order2[order.len() as int] == j);
        } else {
            assert(member[x]);
            assert(order.contains(x as usize));
            let k = choose|k: int| 0 <= k < order.len() && order[k] == x as usize;
            assert(order2[k] == x as usize);
        }
    }
    assert forall|k: int| 0 <= k < order2.len() implies (#[trigger] order2[k]) < member2.len()
        && member2[order2[k] as int] by {
        if k < order.len() {
            assert(order2[k] == order[k]);
        }
    }
    lemma_distinct_below(order2, member.len());
    assert forall|x: usize| !(#[trigger] waiting2.contains(x)) implies x != j
        && !waiting.contains(x) by {
        if x == j {
            assert(waiting2[waiting.len() as int] == j);
        }
        if waiting.contains(x) {
            let k = choose|k: int| 0 <= k < waiting.len() && waiting[k] == x;
            assert(waiting2[k] == x);
        }
    }
    assert forall|x: int, jj: int|
        0 <= x < member2.len() && member2[x] && x != i && !waiting2.contains(x as usize)
            && #[trigger] calls_to(fs, x, jj) implies 0 <= jj < member2.len() && member2[jj] by {
        assert(x as usize != j);
        assert(!waiting.contains(x as usize));
        assert(member[x]);
        assert(member[jj]);
    }
    assert forall|x: int, n: Seq<char>|
        0 <= x < member2.len() && member2[x] && x != i && !waiting2.contains(x as usize)
            && #[trigger] names_type(fs[x].sig, n) implies holds(types, n) by {
        assert(x as usize != j);
        assert(!waiting.contains(x as usize));
        assert(member[x]);
    }
    assert forall|x: int| 0 <= x < member2.len() && #[trigger] member2[x] implies reaches(
        fs,
        root,
        x,
    ) by {
        if x != j {
            assert(member[x]);
        }
    }
}

proof fn lemma_finish_one(
    fs: Seq<FunctionView>,
    member: Seq<bool>,
    waiting: Seq<usize>,
    before: Seq<String>,
    types: Seq<String>,
    i: int,
)
    requires
        0 <= i < member.len() == fs.len(),
        done_closed(fs, member, waiting, i),
        done_typed(fs, member, waiting, i, before),
        forall|j: int| #[trigger] calls_to(fs, i, j) ==> 0 <= j < member.len() && member[j],
        before.len() <= types.len(),
        types.take(before.len() as int) == before,
        forall|n: Seq<char>| names_type(fs[i].sig, n) ==> holds(types, n),
    ensures
        done_closed(fs, member, waiting, -1),
        done_typed(fs, member, waiting, -1, types),
{
    lemma_holds_kept(before, types);
    assert forall|x: int, j: int|
        0 <= x < member.len() && member[x] && !waiting.contains(x as usize) && #[trigger] calls_to(
            fs,
            x,
            j,
        ) implies 0 <= j < member.len() && member[j] by {
        if x != i {
        }
    }
    assert forall|x: int, n: Seq<char>|
        0 <= x < member.len() && member[x] && !waiting.contains(x as usize) && #[trigger] names_type(
            fs[x].sig,
            n,
        ) implies holds(types, n) by {
        if x != i {
            assert(holds(before, n));
        }
    }
}

proof fn lemma_types_grow(
    fs: Seq<FunctionView>,
    root: int,
    before: Seq<String>,
    types: Seq<String>,
    i: int,
)
    requires
        0 <= i < fs.len(),
        reaches(fs, root, i),
        types_reached(fs, root, before),
        before.len() <= types.len(),
        types.take(before.len() as int) == before,
        forall|k: int| before.len() <= k < types.len() ==> names_type(fs[i].sig, (#[trigger] types[k])@),
    ensures
        types_reached(fs, root, types),
{
    assert forall|k: int| 0 <= k < types.len() implies is_reachable_type(
        fs,
        root,
        (#[trigger] types[k])@,
    ) by {
        if k < before.len() {
            assert(types.take(before.len() as int)[k] == types[k]);
            assert(is_reachable_type(fs, root, before[k]@));
        } else {
            assert(names_type(fs[i].sig, types[k]@));
        }
    }
}

/// A list of `n` entries that all hold `value`.
pub fn filled(n: usize, value: bool) -> (r: Vec<bool>)
    ensures
        r@ == Seq::new(n as nat, |i: int| value),
{
    let mut r: Vec<bool> = Vec::new();
    let mut i: usize = 0;
    while i < n
        invariant
            i <= n,
            r@ == Seq::new(i as nat, |k: int| value),
        decreases n - i,
    {
        r.push(value);
        assert(r@ =~= Seq::new((i + 1) as nat, |k: int| value));
        i = i + 1;
    }
    r
}

/// Finds what can be reached from the function at `root`: each function
/// is taken up once, its signature read for type names, and its calls
/// followed to the functions they mean. A call that means no function of
/// the index is passed over.
pub fn trace_from(fs: &Vec<Function>, names: &Vec<Vec<char>>, root: usize) -> (t: Trace)
    requires
        table_texts(names@) == function_names(function_views(fs@)),
        distinct(table_texts(names@)),
        root < fs.len(),
    ensures
        t.member.len() == fs.len(),
        forall|i: int|
            0 <= i < fs.len() ==> (#[trigger] t.member[i] <==> reaches(
                function_views(fs@),
                root as int,
                i,
            )),
        lists_members(t.order@, t.member@),
        t.order.len() > 0,
        t.order[0] == root,
        t.order.len() <= fs.len(),
        distinct(texts(t.types@)),
        types_reached(function_views(fs@), root as int, t.types@),
        forall|n: Seq<char>|
            is_reachable_type(function_views(fs@), root as int, n) ==> holds(t.types@, n),
{
    let n = fs.len();
    let ghost views = function_views(fs@);
    let all = filled(n, true);
    let mut member = filled(n, false);
    member.set(root, true);
    let mut order: Vec<usize> = Vec::new();
    order.push(root);
    let mut waiting: Vec<usize> = Vec::new();
    waiting.push(root);
    let mut types: Vec<String> = Vec::new();
    proof {
        assert(table_texts(names@).len() == names.len());
        assert(function_names(views).len() == fs.len());
        lemma_reaches_itself(views, root as int);
        assert(order@[0] == root);
        assert(waiting@[0] == root);
        assert forall|x: int| 0 <= x < member.len() && #[trigger] member[x] implies waiting@.contains(
            x as usize,
        ) && order@.contains(x as usize) by {}
        lemma_distinct_below(order@, n as nat);
    }
    while waiting.len() > 0
        invariant
            n == fs.len(),
            names.len() == n,
            all@ == all_members(n as nat),
            member.len() == n,
            views == function_views(fs@),
            table_texts(names@) == function_names(views),
            distinct(table_texts(names@)),
            root < n,
            member[root as int],
            order.len() > 0,
            order[0] == root,
            order.len() <= n,
            marks_reached(views, root as int, member@),
            lists_members(order@, member@),
            waiting_marked(waiting@, member@),
            done_closed(views, member@, waiting@, -1),
            done_typed(views, member@, waiting@, -1, types@),
            distinct(texts(types@)),
            types_reached(views, root as int, types@),
        decreases 2 * (n - order.len()) + waiting.len(),
    {
        let ghost waiting0 = waiting@;
        let ghost order0 = order@;
        proof {
            lemma_take_one(views, member@, waiting@, types@);
        }
        let i = waiting.pop().unwrap();
        let calls = fs[i].calls();
        let ghost sites = function_calls(views[i as int]);
        let mut c: usize = 0;
        while c < calls.len()
            invariant
                c <= calls.len(),
                n == fs.len(),
                names.len() == n,
                all@ == all_members(n as nat),
                all.len() == n,
                member.len() == n,
                views == function_views(fs@),
                table_texts(names@) == function_names(views),
                distinct(table_texts(names@)),
                root < n,
                member[root as int],
                order.len() > 0,
                order[0] == root,
                order.len() <= n,
                i < n,
                member[i as int],
                !waiting@.contains(i),
                sites == function_calls(views[i as int]),
                call_views(calls@) == sites,
                marks_reached(views, root as int, member@),
                lists_members(order@, member@),
                waiting_marked(waiting@, member@),
                done_closed(views, member@, waiting@, i as int),
                done_typed(views, member@, waiting@, i as int, types@),
                waiting.len() + 1 >= waiting0.len(),
                order.len() - order0.len() == waiting.len() + 1 - waiting0.len(),
                forall|k: int|
                    0 <= k < c ==> (resolve(
                        function_names(views),
                        all_members(n as nat),
                        (#[trigger] sites[k]).name,
                    ) matches Some(j) ==> 0 <= j < n && member[j]),
            decreases calls.len() - c,
        {
            let callee = chars_of(calls[c].name.as_str());
            proof {
                assert(call_views(calls@)[c as int] == calls@[c as int]@);
                assert(sites[c as int].name == callee@);
            }
            match resolve_call(names, &all, &callee) {
                Some(j) => {
                    if !member[j] {
                        proof {
                            assert(calls_to(views, i as int, j as int));
                            lemma_mark_one(
                                views,
                                root as int,
                                member@,
                                waiting@,
                                order@,
                                types@,
                                i as int,
                                j,
                            );
                        }
                        member.set(j, true);
                        waiting.push(j);
                        order.push(j);
                    }
                },
                None => {},
            }
            c = c + 1;
        }
        let ghost before = types@;
        collect_types_in_signature(&fs[i].sig, &mut types);
        proof {
            assert forall|j: int| #[trigger] calls_to(views, i as int, j) implies 0 <= j
                < member.len() && member[j] by {
                let k = choose|k: int|
                    0 <= k < function_calls(views[i as int]).len() && resolve(
                        function_names(views),
                        all_members(views.len()),
                        (#[trigger] function_calls(views[i as int])[k]).name,
                    ) == Some(j);
                assert(sites[k].name == function_calls(views[i as int])[k].name);
            }
            assert(views[i as int].sig == fs[i as int].sig);
            lemma_finish_one(views, member@, waiting@, before, types@, i as int);
            lemma_types_grow(views, root as int, before, types@, i as int);
        }
    }
    proof {
        assert forall|x: int, j: int|
            0 <= x < member.len() && member[x] && #[trigger] calls_to(views, x, j) implies 0 <= j
            < member.len() && member[j] by {
            assert(!waiting@.contains(x as usize));
        }
        assert(is_closed(views, member@));
        assert forall|i: int| 0 <= i < fs.len() implies (#[trigger] member[i] <==> reaches(
            views,
            root as int,
            i,
        )) by {
            if reaches(views, root as int, i) {
                lemma_closed_holds_reachable(views, member@, root as int, i);
            }
        }
        assert forall|nm: Seq<char>| is_reachable_type(views, root as int, nm) implies holds(
            types@,
            nm,
        ) by {
            let x = choose|x: int|
                0 <= x < views.len() && reaches(views, root as int, x) && names_type(
                    (#[trigger] views[x]).sig,
                    nm,
                );
            lemma_closed_holds_reachable(views, member@, root as int, x);
            assert(!waiting@.contains(x as usize));
        }
    }
    Trace { member, order, types }
}

/// What tracing from `root` returns: the keys of the functions that can
/// be reached from the function that `root` means, that function's key first,
/// and the type names in their signatures; or the error for a root that means
/// no function.
pub open spec fn traced(
    p: crate::project::ProjectView,
    root: Seq<char>,
    found: Result<(Vec<String>, Vec<String>), String>,
) -> bool {
    match resolve(p.names(), all_members(p.functions.len()), root) {
        Some(r) => {
            &&& found matches Ok(lists)
            &&& distinct(texts(lists.0@))
            &&& forall|n: Seq<char>| holds(lists.0@, n) <==> is_reachable_name(p.functions, r, n)
            &&& lists.0.len() > 0
            &&& lists.0@[0]@ == p.functions[r].qualified_name
            &&& lists.0.len() <= p.functions.len()
            &&& distinct(texts(lists.1@))
            &&& forall|n: Seq<char>| holds(lists.1@, n) <==> is_reachable_type(p.functions, r, n)
        },
        None => {
            &&& found matches Err(e)
            &&& e@ == crate::function::not_found_message(root)
        },
    }
}

/// The functions and the types that can be reached from the function that
/// `root_func` means.
///
/// The functions are returned by their keys, each once, the root's first;
/// the types by the names under which signatures mention them, each once.
/// A root that means no function of the index is refused.
pub fn trace_calls(root_func: &str, project: &Project) -> (found: Result<
    (Vec<String>, Vec<String>),
    String,
>)
    ensures
        traced(project@, root_func@, found),
{
    let fs = project.functions();
    let names = crate::function::name_table(fs);
    let ghost views = function_views(fs@);
    proof {
        assert(table_texts(names@) =~= function_names(views));
    }
    let all = filled(fs.len(), true);
    let root_chars = chars_of(root_func);
    match resolve_call(&names, &all, &root_chars) {
        None => Err(crate::function::not_found(root_func)),
        Some(r) => {
            let t = trace_from(fs, &names, r);
            let mut visited: Vec<String> = Vec::new();
            let mut k: usize = 0;
            while k < t.order.len()
                invariant
                    k <= t.order.len(),
                    visited.len() == k,
                    lists_members(t.order@, t.member@),
                    t.member.len() == fs.len(),
                    forall|m: int|
                        0 <= m < k ==> (#[trigger] visited[m])@ == fs[t.order[m] as int].qualified_name@,
                decreases t.order.len() - k,
            {
                visited.push(fs[t.order[k]].qualified_name.clone());
                k = k + 1;
            }
            proof {
                assert forall|a: int, b: int| 0 <= a < b < visited.len() implies texts(
                    visited@,
                )[a] != texts(visited@)[b] by {
                    let x = t.order[a] as int;
                    let y = t.order[b] as int;
                    assert(t.order[a] != t.order[b]);
                    if x < y {
                        assert(function_names(views)[x] != function_names(views)[y]);
                    } else {
                        assert(function_names(views)[y] != function_names(views)[x]);
                    }
                }
                assert forall|n: Seq<char>| holds(visited@, n) <==> is_reachable_name(
                    views,
                    r as int,
                    n,
                ) by {
                    if holds(visited@, n) {
                        let m = choose|m: int| 0 <= m < visited.len() && (#[trigger] visited@[m])@ == n;
                        let x = t.order[m] as int;
                        assert(t.member[x]);
                        assert(views[x].qualified_name == n);
                    }
                    if is_reachable_name(views, r as int, n) {
                        let x = choose|x: int|
                            0 <= x < views.len() && reaches(views, r as int, x) && (
                            #[trigger] views[x]).qualified_name == n;
                        assert(t.member[x]);
                        assert(t.order@.contains(x as usize));
                        let m = choose|m: int| 0 <= m < t.order.len() && t.order@[m] == x as usize;
                        assert(visited@[m]@ == n);
                    }
                }
                assert forall|n: Seq<char>| holds(t.types@, n) <==> is_reachable_type(
                    views,
                    r as int,
                    n,
                ) by {
                    if holds(t.types@, n) {
                        let m = choose|m: int| 0 <= m < t.types.len() && (#[trigger] t.types@[m])@ == n;
                        assert(is_reachable_type(views, r as int, t.types@[m]@));
                    }
                }
            }
            Ok((visited, t.types))
        },
    }
}

/// Tracing from a root always finds the root itself.
pub proof fn lemma_trace_holds_root(
    p: crate::project::ProjectView,
    root: Seq<char>,
    found: Result<(Vec<String>, Vec<String>), String>,
)
    requires
        traced(p, root, found),
        found is Ok,
    ensures
        resolve(p.names(), all_members(p.functions.len()), root) matches Some(r) && holds(
            found->Ok_0.0@,
            p.functions[r].qualified_name,
        ),
{
}

/// A trace never finds more functions than the index holds, and it finds
/// each of them once.
pub proof fn lemma_trace_is_bounded(
    p: crate::project::ProjectView,
    root: Seq<char>,
    found: Result<(Vec<String>, Vec<String>), String>,
)
    requires
        traced(p, root, found),
        found is Ok,
    ensures
        found->Ok_0.0.len() <= p.functions.len(),
        distinct(texts(found->Ok_0.0@)),
{
}

} // verus!
