//! Text as sequences of characters: searching, splitting on the name
//! separator, and joining.

use vstd::prelude::*;
use vstd::string::*;

verus! {

/// The separator between the parts of a qualified name: two colons.
pub open spec fn separator() -> Seq<char> {
    seq![':', ':']
}

/// A full stop, which sets an extension off from what stands before it.
pub open spec fn dot() -> Seq<char> {
    seq!['.']
}

/// `pat` stands in `s` at position `i`.
pub open spec fn occurs_at(s: Seq<char>, pat: Seq<char>, i: int) -> bool {
    &&& 0 <= i
    &&& i + pat.len() <= s.len()
    &&& s.subrange(i, i + pat.len()) == pat
}

/// `pat` stands somewhere in `s`.
pub open spec fn contains_text(s: Seq<char>, pat: Seq<char>) -> bool {
    exists|i: int| occurs_at(s, pat, i)
}

/// `i` is the leftmost position at which `pat` stands in `s`.
pub open spec fn is_first_occurrence(s: Seq<char>, pat: Seq<char>, i: int) -> bool {
    &&& occurs_at(s, pat, i)
    &&& forall|j: int| 0 <= j < i ==> !occurs_at(s, pat, j)
}

/// The leftmost position at which `pat` stands in `s`, if it stands there at all.
pub open spec fn first_occurrence(s: Seq<char>, pat: Seq<char>) -> Option<int> {
    if exists|i: int| is_first_occurrence(s, pat, i) {
        Some(choose|i: int| is_first_occurrence(s, pat, i))
    } else {
        None
    }
}

/// A leftmost position is the only one: `first_occurrence` returns it.
pub proof fn lemma_first_occurrence_found(s: Seq<char>, pat: Seq<char>, i: int)
    requires
        is_first_occurrence(s, pat, i),
    ensures
        first_occurrence(s, pat) == Some(i),
{
    let c = choose|c: int| is_first_occurrence(s, pat, c);
    if c < i {
        assert(!occurs_at(s, pat, c));
    }
    if i < c {
        assert(!occurs_at(s, pat, i));
    }
}

/// Where `pat` stands nowhere in `s`, `first_occurrence` returns nothing.
pub proof fn lemma_first_occurrence_absent(s: Seq<char>, pat: Seq<char>)
    requires
        forall|j: int| 0 <= j <= s.len() ==> !occurs_at(s, pat, j),
    ensures
        first_occurrence(s, pat) is None,
        !contains_text(s, pat),
{
    assert forall|i: int| !is_first_occurrence(s, pat, i) by {
        if occurs_at(s, pat, i) {
            assert(0 <= i <= s.len());
        }
    }
    assert forall|i: int| !occurs_at(s, pat, i) by {
        if occurs_at(s, pat, i) {
            assert(0 <= i <= s.len());
        }
    }
}

/// What `first_occurrence` returns is a leftmost position, and it returns one
/// exactly when `pat` stands in `s`.
pub proof fn lemma_first_occurrence_meaning(s: Seq<char>, pat: Seq<char>)
    ensures
        first_occurrence(s, pat) matches Some(i) ==> is_first_occurrence(s, pat, i),
        first_occurrence(s, pat) is Some <==> contains_text(s, pat),
{
    if contains_text(s, pat) {
        let w = choose|i: int| occurs_at(s, pat, i);
        lemma_leftmost_exists(s, pat, w);
    }
}

proof fn lemma_leftmost_exists(s: Seq<char>, pat: Seq<char>, w: int)
    requires
        occurs_at(s, pat, w),
    ensures
        exists|i: int| is_first_occurrence(s, pat, i),
    decreases w,
{
    if exists|j: int| 0 <= j < w && occurs_at(s, pat, j) {
        let j = choose|j: int| 0 <= j < w && occurs_at(s, pat, j);
        lemma_leftmost_exists(s, pat, j);
    } else {
        assert(is_first_occurrence(s, pat, w));
    }
}

/// `s` begins with `prefix`.
pub open spec fn has_prefix(s: Seq<char>, prefix: Seq<char>) -> bool {
    prefix.len() <= s.len() && s.subrange(0, prefix.len() as int) == prefix
}

/// `s` ends with `suffix`.
pub open spec fn has_suffix(s: Seq<char>, suffix: Seq<char>) -> bool {
    suffix.len() <= s.len() && s.subrange(s.len() - suffix.len(), s.len() as int) == suffix
}

/// The text before the first separator, if there is a separator.
pub open spec fn before_first_separator(s: Seq<char>) -> Option<Seq<char>> {
    match first_occurrence(s, separator()) {
        Some(i) => Some(s.subrange(0, i)),
        None => None,
    }
}

/// The text after the first separator; all of `s` if there is none.
pub open spec fn after_first_separator(s: Seq<char>) -> Seq<char> {
    match first_occurrence(s, separator()) {
        Some(i) => s.subrange(i + 2, s.len() as int),
        None => s,
    }
}

/// The last piece of `s` when it is cut at each separator, going from the
/// left and never using a colon twice.
pub open spec fn last_segment(s: Seq<char>) -> Seq<char>
    decreases s.len(),
{
    match first_occurrence(s, separator()) {
        Some(i) => if 0 <= i && i + 2 <= s.len() {
            last_segment(s.subrange(i + 2, s.len() as int))
        } else {
            s
        },
        None => s,
    }
}

/// The pieces joined, with `sep` between neighbours.
pub open spec fn join(parts: Seq<Seq<char>>, sep: Seq<char>) -> Seq<char>
    decreases parts.len(),
{
    if parts.len() == 0 {
        Seq::empty()
    } else if parts.len() == 1 {
        parts[0]
    } else {
        join(parts.drop_last(), sep) + sep + parts.last()
    }
}

/// The strings of a list as text.
pub open spec fn texts(ss: Seq<String>) -> Seq<Seq<char>> {
    ss.map_values(|s: String| s@)
}

/// The text `n` is among the strings of a list.
pub open spec fn holds(ss: Seq<String>, n: Seq<char>) -> bool {
    exists|k: int| 0 <= k < ss.len() && (#[trigger] ss[k])@ == n
}

/// The characters of a string slice, for indexed access.
pub fn chars_of(s: &str) -> (v: Vec<char>)
    ensures
        v@ == s@,
{
    let mut v: Vec<char> = Vec::new();
    for c in iter: s.chars()
        invariant
            iter.seq() == s@,
            v@ == s@.take(iter.index() as int),
    {
        v.push(c);
    }
    assert(s@.take(s@.len() as int) == s@);
    v
}

/// Whether `pat` stands in `s` at position `i`.
pub fn matches_at(s: &Vec<char>, pat: &Vec<char>, i: usize) -> (r: bool)
    ensures
        r == occurs_at(s@, pat@, i as int),
{
    if pat.len() > s.len() || i > s.len() - pat.len() {
        return false;
    }
    let mut k: usize = 0;
    while k < pat.len()
        invariant
            k <= pat.len(),
            i + pat.len() <= s.len(),
            forall|j: int| 0 <= j < k ==> s@[i + j] == pat@[j],
        decreases pat.len() - k,
    {
        if s[i + k] != pat[k] {
            proof {
                assert(s@.subrange(i as int, i + pat.len())[k as int] == s@[i + k]);
            }
            return false;
        }
        k = k + 1;
    }
    assert(s@.subrange(i as int, i + pat.len()) =~= pat@);
    true
}

/// The leftmost position of `pat` in `s`.
pub fn find_text(s: &Vec<char>, pat: &Vec<char>) -> (r: Option<usize>)
    ensures
        match r {
            Some(i) => first_occurrence(s@, pat@) == Some(i as int),
            None => first_occurrence(s@, pat@) is None,
        },
{
    if pat.len() > s.len() {
        proof {
            lemma_first_occurrence_absent(s@, pat@);
        }
        return None;
    }
    let last: usize = s.len() - pat.len();
    let mut i: usize = 0;
    while i < last
        invariant
            last == s.len() - pat.len(),
            i <= last,
            forall|j: int| 0 <= j < i ==> !occurs_at(s@, pat@, j),
        decreases last - i,
    {
        if matches_at(s, pat, i) {
            proof {
                lemma_first_occurrence_found(s@, pat@, i as int);
            }
            return Some(i);
        }
        i = i + 1;
    }
    if matches_at(s, pat, last) {
        proof {
            lemma_first_occurrence_found(s@, pat@, last as int);
        }
        return Some(last);
    }
    proof {
        lemma_first_occurrence_absent(s@, pat@);
    }
    None
}

/// Whether `pat` stands somewhere in `s`.
pub fn contains(s: &Vec<char>, pat: &Vec<char>) -> (r: bool)
    ensures
        r == contains_text(s@, pat@),
{
    proof {
        lemma_first_occurrence_meaning(s@, pat@);
    }
    find_text(s, pat).is_some()
}

/// The literal of two colons is the separator.
pub proof fn lemma_separator_literal()
    ensures
        "::"@ == separator(),
{
    reveal_strlit("::");
    assert("::"@ =~= separator());
}

/// The characters of the separator.
pub fn separator_chars() -> (v: Vec<char>)
    ensures
        v@ == separator(),
{
    let mut v: Vec<char> = Vec::new();
    v.push(':');
    v.push(':');
    assert(v@ =~= separator());
    v
}

/// The position of the first separator in `s`.
pub fn find_separator(s: &Vec<char>) -> (r: Option<usize>)
    ensures
        match r {
            Some(i) => first_occurrence(s@, separator()) == Some(i as int) && i + 2 <= s.len(),
            None => first_occurrence(s@, separator()) is None,
        },
{
    let pat = separator_chars();
    let r = find_text(s, &pat);
    proof {
        lemma_first_occurrence_meaning(s@, separator());
    }
    r
}

/// The position at which the last segment of `s` begins.
pub fn last_segment_start(s: &Vec<char>) -> (r: usize)
    ensures
        r <= s.len(),
        s@.subrange(r as int, s.len() as int) == last_segment(s@),
{
    let pat = separator_chars();
    proof {
        assert(s@.subrange(0, s.len() as int) == s@);
    }
    if s.len() < 2 {
        proof {
            lemma_first_occurrence_absent(s@, separator());
        }
        return 0;
    }
    let last: usize = s.len() - 2;
    let mut start: usize = 0;
    let mut i: usize = 0;
    while i <= last
        invariant
            pat@ == separator(),
            last == s.len() - 2,
            start <= i <= s.len(),
            last_segment(s@) == last_segment(s@.subrange(start as int, s.len() as int)),
            forall|j: int| start <= j < i ==> !occurs_at(s@, separator(), j),
        decreases s.len() - i,
    {
        if matches_at(s, &pat, i) {
            proof {
                let rest = s@.subrange(start as int, s.len() as int);
                let at = i - start;
                assert(rest.subrange(at, at + 2) =~= s@.subrange(i as int, i + 2));
                assert forall|j: int| 0 <= j < at implies !occurs_at(rest, separator(), j) by {
                    if occurs_at(rest, separator(), j) {
                        assert(rest.subrange(j, j + 2) =~= s@.subrange(start + j, start + j + 2));
                        assert(occurs_at(s@, separator(), start + j));
                    }
                }
                lemma_first_occurrence_found(rest, separator(), at);
                assert(rest.subrange(at + 2, rest.len() as int) =~= s@.subrange(
                    i + 2,
                    s.len() as int,
                ));
            }
            start = i + 2;
            i = i + 2;
        } else {
            i = i + 1;
        }
    }
    proof {
        let rest = s@.subrange(start as int, s.len() as int);
        assert forall|j: int| 0 <= j <= rest.len() implies !occurs_at(rest, separator(), j) by {
            if occurs_at(rest, separator(), j) {
                assert(rest.subrange(j, j + 2) =~= s@.subrange(start + j, start + j + 2));
                assert(occurs_at(s@, separator(), start + j));
            }
        }
        lemma_first_occurrence_absent(rest, separator());
    }
    start
}

/// Whether `s` begins with `prefix`.
pub fn starts_with(s: &Vec<char>, prefix: &Vec<char>) -> (r: bool)
    ensures
        r == has_prefix(s@, prefix@),
{
    if prefix.len() > s.len() {
        return false;
    }
    matches_at(s, prefix, 0)
}

/// Whether `s` ends with `suffix`.
pub fn ends_with(s: &Vec<char>, suffix: &Vec<char>) -> (r: bool)
    ensures
        r == has_suffix(s@, suffix@),
{
    if suffix.len() > s.len() {
        return false;
    }
    matches_at(s, suffix, s.len() - suffix.len())
}

/// Whether two texts hold the same characters.
pub fn same_text(a: &Vec<char>, b: &Vec<char>) -> (r: bool)
    ensures
        r == (a@ == b@),
{
    if a.len() != b.len() {
        return false;
    }
    let r = matches_at(a, b, 0);
    proof {
        assert(a@.subrange(0, a.len() as int) == a@);
    }
    r
}

/// No text stands at two positions.
pub open spec fn distinct(names: Seq<Seq<char>>) -> bool {
    forall|i: int, j: int| 0 <= i < j < names.len() ==> names[i] != names[j]
}

/// Adds a name to a list of distinct names unless the list holds it.
pub fn record_name(out: &mut Vec<String>, name: &String)
    requires
        distinct(texts(old(out)@)),
    ensures
        distinct(texts(final(out)@)),
        final(out)@.take(old(out)@.len() as int) == old(out)@,
        old(out)@.len() <= final(out)@.len() <= old(out)@.len() + 1,
        forall|k: int| old(out)@.len() <= k < final(out)@.len() ==> (#[trigger] final(out)@[k])@ == name@,
        holds(final(out)@, name@),
{
    let mut i: usize = 0;
    while i < out.len()
        invariant
            i <= out.len(),
            out@ == old(out)@,
            distinct(texts(out@)),
            forall|j: int| 0 <= j < i ==> (#[trigger] out@[j])@ != name@,
        decreases out.len() - i,
    {
        if out[i] == *name {
            proof {
                assert(out@.take(out@.len() as int) == out@);
            }
            return ;
        }
        i = i + 1;
    }
    out.push(name.clone());
    proof {
        assert(out@.take(old(out)@.len() as int) == old(out)@);
        assert(out@[old(out)@.len() as int]@ == name@);
        assert(texts(out@) =~= texts(old(out)@).push(name@));
        assert forall|a: int, b: int| 0 <= a < b < texts(out@).len() implies texts(out@)[a]
            != texts(out@)[b] by {
            if b < old(out)@.len() {
                assert(texts(old(out)@)[a] != texts(old(out)@)[b]);
            } else {
                assert(old(out)@[a]@ != name@);
            }
        }
    }
}

/// A list that begins with another holds what the other holds.
pub proof fn lemma_holds_kept(before: Seq<String>, after: Seq<String>)
    requires
        before.len() <= after.len(),
        after.take(before.len() as int) == before,
    ensures
        forall|n: Seq<char>| holds(before, n) ==> holds(after, n),
{
    assert forall|n: Seq<char>| holds(before, n) implies holds(after, n) by {
        let k = choose|k: int| 0 <= k < before.len() && (#[trigger] before[k])@ == n;
        assert(after.take(before.len() as int)[k] == after[k]);
    }
}

} // verus!
