//! From the name in a call to the function it means.
//!
//! A name means the function whose key it is. Failing that, it means a
//! function whose key ends with a separator and the name; of several such,
//! the one whose key comes first in lexicographic order.

use crate::order::{
    comes_before, compare_text, lemma_before_asymmetric, lemma_before_total,
    lemma_before_transitive, Relation,
};
use crate::text::distinct;
use crate::text::{ends_with, has_suffix, same_text, separator, separator_chars};
use vstd::prelude::*;

verus! {

/// The texts of a table of names.
pub open spec fn table_texts(names: Seq<Vec<char>>) -> Seq<Seq<char>> {
    names.map_values(|v: Vec<char>| v@)
}

/// The subset that holds every position below `n`.
pub open spec fn all_members(n: nat) -> Seq<bool> {
    Seq::new(n, |i: int| true)
}

/// `i` is in the subset.
pub open spec fn is_member(names: Seq<Seq<char>>, member: Seq<bool>, i: int) -> bool {
    0 <= i < names.len() && i < member.len() && member[i]
}

/// `i` is in the subset and `call` is its key.
pub open spec fn is_exact(names: Seq<Seq<char>>, member: Seq<bool>, call: Seq<char>, i: int) -> bool {
    is_member(names, member, i) && names[i] == call
}

/// `i` is in the subset and its key ends with a separator and `call`.
pub open spec fn is_candidate(
    names: Seq<Seq<char>>,
    member: Seq<bool>,
    call: Seq<char>,
    i: int,
) -> bool {
    is_member(names, member, i) && has_suffix(names[i], separator() + call)
}

/// `i` is the candidate whose key comes before those of all others.
pub open spec fn is_first_candidate(
    names: Seq<Seq<char>>,
    member: Seq<bool>,
    call: Seq<char>,
    i: int,
) -> bool {
    &&& is_candidate(names, member, call, i)
    &&& forall|j: int|
        is_candidate(names, member, call, j) && j != i ==> comes_before(names[i], names[j])
}

/// `call` means the function at `i`: its key is `call`, or no key in the
/// subset is `call` and `i` is the first candidate.
pub open spec fn resolves_to(
    names: Seq<Seq<char>>,
    member: Seq<bool>,
    call: Seq<char>,
    i: int,
) -> bool {
    ||| is_exact(names, member, call, i)
    ||| (forall|j: int| !is_exact(names, member, call, j)) && is_first_candidate(
        names,
        member,
        call,
        i,
    )
}

/// The function of the subset that `call` means, if it means one.
#[verifier::opaque]
pub open spec fn resolve(names: Seq<Seq<char>>, member: Seq<bool>, call: Seq<char>) -> Option<int> {
    if exists|i: int| resolves_to(names, member, call, i) {
        Some(choose|i: int| resolves_to(names, member, call, i))
    } else {
        None
    }
}

/// Among distinct keys a name means at most one function.
pub proof fn lemma_resolve_found(
    names: Seq<Seq<char>>,
    member: Seq<bool>,
    call: Seq<char>,
    i: int,
)
    requires
        distinct(names),
        resolves_to(names, member, call, i),
    ensures
        resolve(names, member, call) == Some(i),
{
    reveal(resolve);
    let c = choose|c: int| resolves_to(names, member, call, c);
    if c != i {
        if is_exact(names, member, call, i) {
            assert(is_exact(names, member, call, c));
            if c < i {
                assert(names[c] != names[i]);
            } else {
                assert(names[i] != names[c]);
            }
        } else {
            assert(!is_exact(names, member, call, c));
            assert(comes_before(names[i], names[c]));
            assert(comes_before(names[c], names[i]));
            lemma_before_asymmetric(names[i], names[c]);
        }
    }
}

/// Where no function is meant, `resolve` gives none.
pub proof fn lemma_resolve_absent(names: Seq<Seq<char>>, member: Seq<bool>, call: Seq<char>)
    requires
        forall|i: int| !resolves_to(names, member, call, i),
    ensures
        resolve(names, member, call) is None,
{
    reveal(resolve);
}

/// What `resolve` gives is a function of the subset that the name means.
pub proof fn lemma_resolve_meaning(names: Seq<Seq<char>>, member: Seq<bool>, call: Seq<char>)
    ensures
        resolve(names, member, call) matches Some(i) ==> resolves_to(names, member, call, i)
            && is_member(names, member, i),
{
    reveal(resolve);
}

proof fn lemma_least_candidate(
    names: Seq<Seq<char>>,
    member: Seq<bool>,
    call: Seq<char>,
    n: int,
    i: int,
) -> (b: int)
    requires
        distinct(names),
        0 <= i < n <= names.len(),
        is_candidate(names, member, call, i),
    ensures
        0 <= b < n,
        is_candidate(names, member, call, b),
        forall|j: int|
            0 <= j < n && is_candidate(names, member, call, j) && j != b ==> comes_before(
                names[b],
                names[j],
            ),
    decreases n,
{
    let last = n - 1;
    if exists|j: int| 0 <= j < last && is_candidate(names, member, call, j) {
        let j = choose|j: int| 0 <= j < last && is_candidate(names, member, call, j);
        let b = lemma_least_candidate(names, member, call, last, j);
        if is_candidate(names, member, call, last) {
            assert(names[b] != names[last]);
            lemma_before_total(names[b], names[last]);
            if comes_before(names[last], names[b]) {
                assert forall|k: int|
                    0 <= k < n && is_candidate(names, member, call, k) && k != last
                    implies comes_before(names[last], names[k]) by {
                    if k != b {
                        lemma_before_transitive(names[last], names[b], names[k]);
                    }
                }
                last
            } else {
                b
            }
        } else {
            b
        }
    } else {
        last
    }
}

/// Among distinct keys a name means a function whenever a key of the
/// subset is the name, or ends with a separator and the name.
pub proof fn lemma_resolve_exists(
    names: Seq<Seq<char>>,
    member: Seq<bool>,
    call: Seq<char>,
    i: int,
)
    requires
        distinct(names),
        is_exact(names, member, call, i) || is_candidate(names, member, call, i),
    ensures
        resolve(names, member, call) is Some,
{
    if exists|j: int| is_exact(names, member, call, j) {
        let j = choose|j: int| is_exact(names, member, call, j);
        lemma_resolve_found(names, member, call, j);
    } else {
        let b = lemma_least_candidate(names, member, call, names.len() as int, i);
        assert(is_first_candidate(names, member, call, b));
        lemma_resolve_found(names, member, call, b);
    }
}

/// A name means no function exactly when no key of the subset is the name
/// or ends with a separator and the name.
pub proof fn lemma_resolve_none(names: Seq<Seq<char>>, member: Seq<bool>, call: Seq<char>)
    requires
        distinct(names),
    ensures
        resolve(names, member, call) is None <==> forall|i: int|
            !is_exact(names, member, call, i) && !is_candidate(names, member, call, i),
{
    if exists|i: int| is_exact(names, member, call, i) || is_candidate(names, member, call, i) {
        let i = choose|i: int|
            is_exact(names, member, call, i) || is_candidate(names, member, call, i);
        lemma_resolve_exists(names, member, call, i);
    } else {
        assert forall|i: int| !resolves_to(names, member, call, i) by {}
        lemma_resolve_absent(names, member, call);
    }
}

/// The function of the subset that `call` means.
pub fn resolve_call(names: &Vec<Vec<char>>, member: &Vec<bool>, call: &Vec<char>) -> (r: Option<
    usize,
>)
    requires
        distinct(table_texts(names@)),
        member.len() == names.len(),
    ensures
        match r {
            Some(i) => resolve(table_texts(names@), member@, call@) == Some(i as int) && i
                < names.len() && member[i as int],
            None => resolve(table_texts(names@), member@, call@) is None,
        },
{
    let ghost texts = table_texts(names@);
    let mut i: usize = 0;
    while i < names.len()
        invariant
            i <= names.len(),
            member.len() == names.len(),
            texts == table_texts(names@),
            distinct(texts),
            forall|j: int| 0 <= j < i ==> !is_exact(texts, member@, call@, j),
        decreases names.len() - i,
    {
        if member[i] && same_text(&names[i], call) {
            proof {
                assert(is_exact(texts, member@, call@, i as int));
                lemma_resolve_found(texts, member@, call@, i as int);
            }
            return Some(i);
        }
        i = i + 1;
    }
    let mut suffix = separator_chars();
    let mut k: usize = 0;
    while k < call.len()
        invariant
            k <= call.len(),
            suffix@ == separator() + call@.take(k as int),
        decreases call.len() - k,
    {
        suffix.push(call[k]);
        k = k + 1;
    }
    proof {
        assert(call@.take(k as int) == call@);
    }
    let mut best: Option<usize> = None;
    let mut i: usize = 0;
    while i < names.len()
        invariant
            i <= names.len(),
            member.len() == names.len(),
            texts == table_texts(names@),
            distinct(texts),
            suffix@ == separator() + call@,
            match best {
                Some(b) => b < i && is_candidate(texts, member@, call@, b as int) && forall|j: int|
                    0 <= j < i && is_candidate(texts, member@, call@, j) && j != b
                        ==> comes_before(texts[b as int], texts[j]),
                None => forall|j: int| 0 <= j < i ==> !is_candidate(texts, member@, call@, j),
            },
        decreases names.len() - i,
    {
        if member[i] && ends_with(&names[i], &suffix) {
            match best {
                None => {
                    best = Some(i);
                },
                Some(b) => {
                    proof {
                        assert(texts[b as int] != texts[i as int]);
                    }
                    match compare_text(&names[i], &names[b]) {
                        Relation::Before => {
                            proof {
                                assert forall|j: int|
                                    0 <= j < i + 1 && is_candidate(texts, member@, call@, j) && j
                                        != i implies comes_before(texts[i as int], texts[j]) by {
                                    if j != b {
                                        lemma_before_transitive(
                                            texts[i as int],
                                            texts[b as int],
                                            texts[j],
                                        );
                                    }
                                }
                            }
                            best = Some(i);
                        },
                        _ => {},
                    }
                },
            }
        }
        i = i + 1;
    }
    proof {
        assert forall|j: int| !is_exact(texts, member@, call@, j) by {}
        match best {
            Some(b) => {
                assert(is_first_candidate(texts, member@, call@, b as int));
                lemma_resolve_found(texts, member@, call@, b as int);
            },
            None => {
                assert forall|j: int| !resolves_to(texts, member@, call@, j) by {}
                lemma_resolve_absent(texts, member@, call@);
            },
        }
    }
    best
}

} // verus!
