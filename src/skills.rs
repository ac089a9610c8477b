//! Where a skill lives on disk: the directory of a skill file, and a free
//! directory name for an imported skill.

use vstd::prelude::*;

verus! {

/// What `std::path::Path::parent` gives for the text of a path.
pub uninterp spec fn parent_of(path: Seq<char>) -> Option<Seq<char>>;

/// Relies on `std::path::Path::parent`, which depends on the text alone: the
/// path without its last component, `None` for a root or an empty path.
#[verifier::external_body]
fn parent_path(path: &str) -> (r: Option<String>)
    ensures
        match r {
            Some(p) => parent_of(path@) == Some(p@),
            None => parent_of(path@) is None,
        },
{
    match std::path::Path::new(path).parent() {
        Some(p) => Some(p.to_string_lossy().into_owned()),
        None => None,
    }
}

/// The directory of a skill: the path itself where it is a directory (the
/// host tells), else its parent.
pub fn resolve_skill_directory(path: &str, is_dir: bool) -> (r: Option<String>)
    ensures
        match r {
            Some(d) => if is_dir { d@ == path@ } else { parent_of(path@) == Some(d@) },
            None => !is_dir && parent_of(path@) is None,
        },
{
    if is_dir {
        Some(String::from_str(path))
    } else {
        parent_path(path)
    }
}

/// `name` appended to `base` as one more path component.
pub open spec fn join_path(base: Seq<char>, name: Seq<char>) -> Seq<char> {
    if base.len() == 0 {
        name
    } else if base.last() == '/' {
        base + name
    } else {
        base + "/"@ + name
    }
}

/// The text of `base` joined with `name`.
pub fn join_path_exec(base: &str, name: &str) -> (r: String)
    ensures
        r@ == join_path(base@, name@),
{
    let n = base.unicode_len();
    if n == 0 {
        String::from_str(name)
    } else if base.get_char(n - 1) == '/' {
        String::from_str(base).concat(name)
    } else {
        String::from_str(base).concat("/").concat(name)
    }
}

/// The decimal digit for `d`, which is below ten.
pub open spec fn digit_char(d: nat) -> char {
    if d == 0 { '0' }
    else if d == 1 { '1' }
    else if d == 2 { '2' }
    else if d == 3 { '3' }
    else if d == 4 { '4' }
    else if d == 5 { '5' }
    else if d == 6 { '6' }
    else if d == 7 { '7' }
    else if d == 8 { '8' }
    else { '9' }
}

/// The decimal text of `n`, without leading zeros.
pub open spec fn decimal(n: nat) -> Seq<char>
    decreases n,
{
    if n < 10 {
        seq![digit_char(n)]
    } else {
        decimal(n / 10).push(digit_char(n % 10))
    }
}

proof fn lemma_decimal_nonempty(n: nat)
    ensures
        decimal(n).len() >= 1,
    decreases n,
{
    if n >= 10 {
        lemma_decimal_nonempty(n / 10);
    }
}

proof fn lemma_digit_injective(a: nat, b: nat)
    requires
        a < 10,
        b < 10,
        digit_char(a) == digit_char(b),
    ensures
        a == b,
{
}

proof fn lemma_decimal_injective(a: nat, b: nat)
    requires
        decimal(a) == decimal(b),
    ensures
        a == b,
    decreases a,
{
    if a < 10 && b < 10 {
        assert(decimal(a)[0] == digit_char(a));
        assert(decimal(b)[0] == digit_char(b));
        lemma_digit_injective(a, b);
    } else if a < 10 {
        lemma_decimal_nonempty(b / 10);
        assert(decimal(b).len() >= 2);
    } else if b < 10 {
        lemma_decimal_nonempty(a / 10);
        assert(decimal(a).len() >= 2);
    } else {
        assert(decimal(a).last() == digit_char(a % 10));
        assert(decimal(b).last() == digit_char(b % 10));
        assert(decimal(a).drop_last() =~= decimal(a / 10));
        assert(decimal(b).drop_last() =~= decimal(b / 10));
        lemma_decimal_injective(a / 10, b / 10);
        assert(a % 10 == b % 10);
        assert(a == (a / 10) * 10 + a % 10);
        assert(b == (b / 10) * 10 + b % 10);
    }
}

fn digit_text(d: usize) -> (r: &'static str)
    requires
        d < 10,
    ensures
        r@ == seq![digit_char(d as nat)],
{
    proof {
        reveal_strlit("0");
        reveal_strlit("1");
        reveal_strlit("2");
        reveal_strlit("3");
        reveal_strlit("4");
        reveal_strlit("5");
        reveal_strlit("6");
        reveal_strlit("7");
        reveal_strlit("8");
        reveal_strlit("9");
    }
    match d {
        0 => "0",
        1 => "1",
        2 => "2",
        3 => "3",
        4 => "4",
        5 => "5",
        6 => "6",
        7 => "7",
        8 => "8",
        _ => "9",
    }
}

/// The decimal text of `n`.
pub fn decimal_text(n: usize) -> (r: String)
    ensures
        r@ == decimal(n as nat),
    decreases n,
{
    if n < 10 {
        String::from_str(digit_text(n))
    } else {
        let head = decimal_text(n / 10);
        let r = head.concat(digit_text(n % 10));
        assert(r@ =~= decimal(n as nat));
        r
    }
}

/// The directory name tried at attempt `k`: the desired name itself, then
/// the name with `-1`, `-2`, ... appended.
pub open spec fn candidate_name(desired: Seq<char>, k: nat) -> Seq<char> {
    if k == 0 {
        desired
    } else {
        desired + "-"@ + decimal(k)
    }
}

proof fn lemma_candidates_distinct(desired: Seq<char>, a: nat, b: nat)
    requires
        a != b,
    ensures
        candidate_name(desired, a) != candidate_name(desired, b),
{
    reveal_strlit("-");
    if a == 0 {
        lemma_decimal_nonempty(b);
        assert(candidate_name(desired, b).len() > desired.len());
    } else if b == 0 {
        lemma_decimal_nonempty(a);
        assert(candidate_name(desired, a).len() > desired.len());
    } else if candidate_name(desired, a) == candidate_name(desired, b) {
        let n = desired.len() + 1;
        assert(candidate_name(desired, a).subrange(n as int, candidate_name(desired, a).len() as int)
            =~= decimal(a));
        assert(candidate_name(desired, b).subrange(n as int, candidate_name(desired, b).len() as int)
            =~= decimal(b));
        lemma_decimal_injective(a, b);
    }
}

/// The names among `taken`, as text.
pub open spec fn names_view(taken: Seq<String>) -> Seq<Seq<char>> {
    taken.map_values(|s: String| s@)
}

/// `k` is the first attempt whose name is not among `taken`.
pub open spec fn first_free(desired: Seq<char>, taken: Seq<Seq<char>>, k: nat) -> bool {
    &&& !taken.contains(candidate_name(desired, k))
    &&& forall|j: nat| j < k ==> taken.contains(#[trigger] candidate_name(desired, j))
}

fn index_of_name(names: &Vec<String>, name: &String) -> (r: Option<usize>)
    ensures
        r is None <==> !names_view(names@).contains(name@),
        r matches Some(i) ==> i < names@.len() && names@[i as int]@ == name@,
{
    let mut i: usize = 0;
    while i < names.len()
        invariant
            i <= names@.len(),
            forall|j: int| 0 <= j < i ==> names@[j]@ != name@,
        decreases names@.len() - i,
    {
        if names[i] == *name {
            assert(names_view(names@)[i as int] == name@);
            return Some(i);
        }
        i = i + 1;
    }
    proof {
        if names_view(names@).contains(name@) {
            let j = choose|j: int| 0 <= j < names_view(names@).len() && names_view(names@)[j] == name@;
            assert(names@[j]@ == name@);
        }
    }
    None
}

/// The directory for a skill named `desired` under `base`: `base/desired`
/// where that name is free, else the first free `base/desired-<n>`, counting
/// `n` up from one. `taken` holds the names already present in `base` (the
/// host lists them).
pub fn next_available_skill_directory(base: &str, desired: &str, taken: &Vec<String>) -> (r: String)
    ensures
        exists|k: nat| #[trigger] first_free(desired@, names_view(taken@), k) && r@ == join_path(
            base@,
            candidate_name(desired@, k),
        ),
{
    let ghost all = names_view(taken@);
    let mut left: Vec<String> = taken.clone();
    let total = taken.len();
    let mut k: usize = 0;
    let mut name = String::from_str(desired);
    loop
        invariant
            all == names_view(taken@),
            total == taken@.len(),
            k <= taken@.len() - left@.len(),
            left@.len() <= taken@.len(),
            name@ == candidate_name(desired@, k as nat),
            forall|j: nat| j < k ==> all.contains(#[trigger] candidate_name(desired@, j)),
            forall|j: nat| j >= k ==> (all.contains(#[trigger] candidate_name(desired@, j))
                <==> names_view(left@).contains(candidate_name(desired@, j))),
        decreases left@.len(),
    {
        match index_of_name(&left, &name) {
            None => {
                assert(first_free(desired@, all, k as nat));
                return join_path_exec(base, name.as_str());
            },
            Some(i) => {
                let ghost before = left@;
                let _ = left.remove(i);
                proof {
                    assert forall|j: nat| j > k implies (names_view(before).contains(
                        #[trigger] candidate_name(desired@, j),
                    ) <==> names_view(left@).contains(candidate_name(desired@, j))) by {
                        lemma_candidates_distinct(desired@, j, k as nat);
                        let c = candidate_name(desired@, j);
                        if names_view(before).contains(c) {
                            let a = choose|a: int| 0 <= a < before.len() && names_view(before)[a] == c;
                            assert(a != i);
                            if a < i {
                                assert(names_view(left@)[a] == c);
                            } else {
                                assert(names_view(left@)[a - 1] == c);
                            }
                        }
                        if names_view(left@).contains(c) {
                            let a = choose|a: int| 0 <= a < left@.len() && names_view(left@)[a] == c;
                            if a < i {
                                assert(names_view(before)[a] == c);
                            } else {
                                assert(names_view(before)[a + 1] == c);
                            }
                        }
                    }
                    assert(all.contains(candidate_name(desired@, k as nat))) by {
                        assert(names_view(before)[i as int] == name@);
                    }
                }
                k = k + 1;
                name = String::from_str(desired).concat("-").concat(decimal_text(k).as_str());
            },
        }
    }
}

} // verus!
