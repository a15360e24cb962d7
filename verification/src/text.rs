//! Small verified helpers on text: equality of string slices and substring search.

use vstd::prelude::*;

verus! {

/// `needle` occurs in `hay` as a contiguous run of characters
/// (the empty needle occurs in every text).
pub open spec fn occurs_in(hay: Seq<char>, needle: Seq<char>) -> bool {
    exists|i: int|
        0 <= i && i + needle.len() <= hay.len() && #[trigger] hay.subrange(i, i + needle.len())
            == needle
}

/// The empty text occurs everywhere, a text occurs wherever it is surrounded by other
/// text, and a text never occurs in a shorter one.
pub proof fn lemma_occurs_in_basics(before: Seq<char>, needle: Seq<char>, after: Seq<char>)
    ensures
        occurs_in(before, Seq::<char>::empty()),
        occurs_in(before + needle + after, needle),
        needle.len() > before.len() ==> !occurs_in(before, needle),
{
    assert(before.subrange(0int, 0int + Seq::<char>::empty().len()) =~= Seq::<char>::empty());
    let whole = before + needle + after;
    assert(whole.subrange(before.len() as int, (before.len() + needle.len()) as int) =~= needle);
}

/// The characters of `s`, in order.
pub fn chars_of(s: &str) -> (v: Vec<char>)
    ensures
        v@ == s@,
{
    let n = s.unicode_len();
    let mut v: Vec<char> = Vec::new();
    for i in 0..n
        invariant
            n == s@.len(),
            v@ == s@.take(i as int),
    {
        v.push(s.get_char(i));
        assert(s@.take(i + 1) =~= s@.take(i as int).push(s@[i as int]));
    }
    assert(s@.take(n as int) =~= s@);
    v
}

/// Whether two string slices hold the same characters.
pub fn same_text(a: &str, b: &str) -> (r: bool)
    ensures
        r == (a@ == b@),
{
    let x: String = a.to_owned();
    let y: String = b.to_owned();
    x == y
}

/// Whether `needle` matches the characters of `hay` starting at `start`.
fn matches_at(hay: &Vec<char>, needle: &Vec<char>, start: usize) -> (r: bool)
    requires
        start + needle@.len() <= hay@.len(),
    ensures
        r == (hay@.subrange(start as int, start + needle@.len()) == needle@),
{
    let m = needle.len();
    let hay_len = hay.len();
    for j in 0..m
        invariant
            m == needle@.len(),
            hay_len == hay@.len(),
            start + m <= hay@.len(),
            forall|k: int| 0 <= k < j ==> hay@[start + k] == needle@[k],
    {
        if hay[start + j] != needle[j] {
            assert(hay@.subrange(start as int, start + m)[j as int] != needle@[j as int]);
            return false;
        }
    }
    assert(hay@.subrange(start as int, start + m) =~= needle@);
    true
}

/// Whether `needle` occurs in `hay` (as `str::contains` with a string pattern).
pub fn text_contains(hay: &str, needle: &str) -> (r: bool)
    ensures
        r == occurs_in(hay@, needle@),
{
    let h = chars_of(hay);
    let n = chars_of(needle);
    if n.len() > h.len() {
        assert forall|i: int|
            0 <= i && i + n@.len() <= h@.len() implies #[trigger] h@.subrange(i, i + n@.len())
            != n@ by {}
        return false;
    }
    let last = h.len() - n.len();
    let mut i: usize = 0;
    loop
        invariant
            last == h@.len() - n@.len(),
            n@.len() <= h@.len(),
            h@ == hay@,
            n@ == needle@,
            i <= last,
            forall|k: int| 0 <= k < i ==> #[trigger] h@.subrange(k, k + n@.len()) != n@,
        decreases last - i,
    {
        if matches_at(&h, &n, i) {
            return true;
        }
        if i == last {
            return false;
        }
        i = i + 1;
    }
}

} // verus!
