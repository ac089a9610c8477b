//! Character-level text helpers with their meaning stated over `Seq<char>`.

use vstd::prelude::*;

verus! {

/// `p` occurs in `s` starting at `i`.
pub open spec fn occurs_at(s: Seq<char>, p: Seq<char>, i: int) -> bool {
    0 <= i && i + p.len() <= s.len() && s.subrange(i, i + p.len()) == p
}

/// `p` occurs somewhere in `s`.
pub open spec fn contains_text(s: Seq<char>, p: Seq<char>) -> bool {
    exists|i: int| occurs_at(s, p, i)
}

/// `s` begins with `p`.
pub open spec fn starts_with_text(s: Seq<char>, p: Seq<char>) -> bool {
    occurs_at(s, p, 0)
}

/// `i` is where `p` first occurs in `s`.
pub open spec fn first_occurrence(s: Seq<char>, p: Seq<char>, i: int) -> bool {
    occurs_at(s, p, i) && forall|j: int| 0 <= j < i ==> !occurs_at(s, p, j)
}

/// `s` with every `from` replaced by `to`.
pub open spec fn replace_char(s: Seq<char>, from: char, to: char) -> Seq<char> {
    s.map_values(|c: char| if c == from { to } else { c })
}

/// The characters of a string slice.
pub fn chars_of(s: &str) -> (r: Vec<char>)
    ensures
        r@ == s@,
{
    let n = s.unicode_len();
    let mut out: Vec<char> = Vec::new();
    let mut i: usize = 0;
    while i < n
        invariant
            n == s@.len(),
            i <= n,
            out@ == s@.subrange(0, i as int),
        decreases n - i,
    {
        out.push(s.get_char(i));
        i = i + 1;
        assert(out@ =~= s@.subrange(0, i as int));
    }
    assert(out@ =~= s@);
    out
}

/// Whether `p` occurs in `s` at position `i`.
pub fn occurs_at_exec(s: &Vec<char>, p: &Vec<char>, i: usize) -> (r: bool)
    ensures
        r == occurs_at(s@, p@, i as int),
{
    if p.len() > s.len() || i > s.len() - p.len() {
        return false;
    }
    let n = s.len();
    let mut k: usize = 0;
    while k < p.len()
        invariant
            n == s@.len(),
            i + p@.len() <= s@.len(),
            k <= p@.len(),
            forall|j: int| 0 <= j < k ==> s@[i + j] == p@[j],
        decreases p@.len() - k,
    {
        if s[i + k] != p[k] {
            assert(s@.subrange(i as int, i + p@.len())[k as int] != p@[k as int]);
            return false;
        }
        k = k + 1;
    }
    assert(s@.subrange(i as int, i + p@.len()) =~= p@);
    true
}

/// Where `p` first occurs in `s`, if it does.
pub fn find_text(s: &Vec<char>, p: &Vec<char>) -> (r: Option<usize>)
    ensures
        r is None <==> !contains_text(s@, p@),
        r matches Some(i) ==> first_occurrence(s@, p@, i as int),
{
    if p.len() > s.len() {
        return None;
    }
    let last = s.len() - p.len();
    let mut i: usize = 0;
    loop
        invariant
            last == s@.len() - p@.len(),
            i <= last,
            forall|j: int| 0 <= j < i ==> !occurs_at(s@, p@, j),
        decreases last - i,
    {
        if occurs_at_exec(s, p, i) {
            return Some(i);
        }
        if i == last {
            assert forall|j: int| !occurs_at(s@, p@, j) by {
                if 0 <= j && j < i {
                }
            }
            return None;
        }
        i = i + 1;
    }
}

/// Whether `p` occurs in `s`.
pub fn contains_exec(s: &Vec<char>, p: &Vec<char>) -> (r: bool)
    ensures
        r == contains_text(s@, p@),
{
    find_text(s, p).is_some()
}

/// Whether the character `c` occurs in `s`.
pub fn has_char(s: &Vec<char>, c: char) -> (r: bool)
    ensures
        r == s@.contains(c),
{
    let mut i: usize = 0;
    while i < s.len()
        invariant
            i <= s@.len(),
            forall|j: int| 0 <= j < i ==> s@[j] != c,
        decreases s@.len() - i,
    {
        if s[i] == c {
            return true;
        }
        i = i + 1;
    }
    false
}

/// `s` with every `from` replaced by `to`.
pub fn replace_char_exec(s: &Vec<char>, from: char, to: char) -> (r: Vec<char>)
    ensures
        r@ == replace_char(s@, from, to),
{
    let mut out: Vec<char> = Vec::new();
    let mut i: usize = 0;
    while i < s.len()
        invariant
            i <= s@.len(),
            out@ == replace_char(s@.subrange(0, i as int), from, to),
        decreases s@.len() - i,
    {
        let c = if s[i] == from { to } else { s[i] };
        out.push(c);
        i = i + 1;
        assert(out@ =~= replace_char(s@.subrange(0, i as int), from, to));
    }
    assert(s@.subrange(0, s@.len() as int) =~= s@);
    out
}

} // verus!
