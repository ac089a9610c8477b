//! Reading the column list of the macOS privacy database's `access` table,
//! as `sqlite3` prints it for `PRAGMA table_info(access);`: one column per
//! line, fields separated by `|`, the column's name in the second field.

use vstd::prelude::*;
use crate::text::{chars_of, occurs_at, occurs_at_exec};

verus! {

/// The second `|`-separated field of `line` is exactly `word`, which holds
/// no `|`.
pub open spec fn second_field_is(line: Seq<char>, word: Seq<char>) -> bool {
    exists|p: int|
        #![trigger line[p]]
        0 <= p < line.len() && line[p] == '|' && (forall|q: int| 0 <= q < p ==> line[q] != '|')
            && occurs_at(line, word, p + 1) && (p + 1 + word.len() == line.len() || line[p + 1
            + word.len()] == '|')
}

/// `s[a..b]` is a line of `s` as `str::lines` yields them: it starts the
/// text or follows a newline, and runs up to the next newline or the end.
/// An empty text, or a final newline, does not start another line.
pub open spec fn is_line(s: Seq<char>, a: int, b: int) -> bool {
    &&& 0 <= a <= b <= s.len()
    &&& a < s.len()
    &&& (a == 0 || s[a - 1] == '\n')
    &&& (b == s.len() || s[b] == '\n')
    &&& forall|k: int| a <= k < b ==> s[k] != '\n'
}

/// The text of the line `s[a..b]`, without the `\r` of a `\r\n` ending.
pub open spec fn line_text(s: Seq<char>, a: int, b: int) -> Seq<char> {
    if b < s.len() && a < b && s[b - 1] == '\r' {
        s.subrange(a, b - 1)
    } else {
        s.subrange(a, b)
    }
}

/// Some line of the listing names a column `allowed`.
pub open spec fn lists_allowed_column(listing: Seq<char>) -> bool {
    exists|a: int, b: int|
        #![trigger is_line(listing, a, b)]
        is_line(listing, a, b) && second_field_is(line_text(listing, a, b), "allowed"@)
}

fn second_field_matches(line: &Vec<char>, word: &Vec<char>) -> (r: bool)
    requires
        !word@.contains('|'),
    ensures
        r == second_field_is(line@, word@),
{
    let mut p: usize = 0;
    while p < line.len()
        invariant
            p <= line@.len(),
            forall|q: int| 0 <= q < p ==> line@[q] != '|',
        decreases line@.len() - p,
    {
        if line[p] == '|' {
            let ok = occurs_at_exec(line, word, p + 1);
            if !ok {
                return false;
            }
            let end = p + 1 + word.len();
            let r = end == line.len() || line[end] == '|';
            proof {
                if second_field_is(line@, word@) {
                    let p2 = choose|p2: int|
                        #![trigger line@[p2]]
                        0 <= p2 < line@.len() && line@[p2] == '|' && (forall|q: int|
                            0 <= q < p2 ==> line@[q] != '|') && occurs_at(line@, word@, p2 + 1) && (
                        p2 + 1 + word@.len() == line@.len() || line@[p2 + 1 + word@.len()] == '|');
                    assert(p2 == p);
                }
            }
            return r;
        }
        p = p + 1;
    }
    false
}

/// Whether the column listing of the `access` table names a column
/// `allowed`.
pub fn tcc_access_has_allowed_column(pragma_output: &str) -> (r: bool)
    ensures
        r == lists_allowed_column(pragma_output@),
{
    let s = chars_of(pragma_output);
    let word = chars_of("allowed");
    proof {
        reveal_strlit("allowed");
        assert(!word@.contains('|')) by {
            if word@.contains('|') {
                let i = choose|i: int| 0 <= i < word@.len() && word@[i] == '|';
                assert(word@[i] != '|');
            }
        }
    }
    let n = s.len();
    let mut a: usize = 0;
    while a < n
        invariant
            n == s@.len(),
            s@ == pragma_output@,
            word@ == "allowed"@,
            !word@.contains('|'),
            a <= n,
            a == 0 || s@[a - 1] == '\n',
            forall|a2: int, b2: int| a2 < a && #[trigger] is_line(s@, a2, b2) ==> !second_field_is(
                line_text(s@, a2, b2),
                "allowed"@,
            ),
        decreases n - a,
    {
        let mut b: usize = a;
        while b < n && s[b] != '\n'
            invariant
                n == s@.len(),
                a <= b <= n,
                forall|k: int| a <= k < b ==> s@[k] != '\n',
            decreases n - b,
        {
            b = b + 1;
        }
        let end = if b < n && a < b && s[b - 1] == '\r' { b - 1 } else { b };
        let mut line: Vec<char> = Vec::new();
        let mut k: usize = a;
        while k < end
            invariant
                a <= k <= end,
                end <= n,
                n == s@.len(),
                line@ == s@.subrange(a as int, k as int),
            decreases end - k,
        {
            line.push(s[k]);
            k = k + 1;
            assert(line@ =~= s@.subrange(a as int, k as int));
        }
        assert(is_line(s@, a as int, b as int));
        assert(line@ == line_text(s@, a as int, b as int));
        if second_field_matches(&line, &word) {
            return true;
        }
        proof {
            assert forall|a2: int, b2: int| a2 < b + 1 && #[trigger] is_line(s@, a2, b2) implies !second_field_is(
                line_text(s@, a2, b2),
                "allowed"@,
            ) by {
                if a2 >= a {
                    if a2 > a {
                        assert(s@[a2 - 1] != '\n');
                    }
                    if b2 < b {
                        assert(s@[b2] != '\n');
                    }
                    if b2 > b {
                        assert(s@[b as int] != '\n');
                    }
                }
            }
        }
        if b == n {
            return false;
        }
        a = b + 1;
    }
    false
}

} // verus!
