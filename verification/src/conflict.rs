//! NameConflictResolver: derives a free holding-area name for an incoming
//! item whose desired name is already taken.
//!
//! The first alternative appends a caller-supplied timestamp to the stem,
//! keeping the extension (`note.txt` becomes `note_20240101_120000.txt`).
//! Should that name be taken as well, a numeric counter is appended after the
//! timestamp until a free name is found. The choice is deterministic in the
//! desired name, the timestamp and the snapshot of occupied names, and a name
//! already present is never returned, so no held entry is ever overwritten.

use vstd::prelude::*;

use crate::pathname::{ext_spec, split_stem_ext, stem_spec};

verus! {

/// The decimal digit character for `d`.
pub open spec fn digit_char(d: nat) -> char {
    if d == 0 {
        '0'
    } else if d == 1 {
        '1'
    } else if d == 2 {
        '2'
    } else if d == 3 {
        '3'
    } else if d == 4 {
        '4'
    } else if d == 5 {
        '5'
    } else if d == 6 {
        '6'
    } else if d == 7 {
        '7'
    } else if d == 8 {
        '8'
    } else {
        '9'
    }
}

/// The decimal rendering of `n`, most significant digit first, without
/// leading zeros (`0` itself renders as `"0"`).
pub open spec fn digits_of(n: nat) -> Seq<char>
    decreases n,
{
    if n < 10 {
        seq![digit_char(n)]
    } else {
        digits_of(n / 10).push(digit_char(n % 10))
    }
}

proof fn lemma_digits_len(n: nat)
    ensures
        digits_of(n).len() >= 1,
        n >= 10 ==> digits_of(n).len() >= 2,
    decreases n,
{
    if n >= 10 {
        lemma_digits_len(n / 10);
    }
}

proof fn lemma_digit_char_injective(x: nat, y: nat)
    requires
        x < 10,
        y < 10,
        digit_char(x) == digit_char(y),
    ensures
        x == y,
{
}

/// Distinct numbers render to distinct digit sequences.
proof fn lemma_digits_injective(a: nat, b: nat)
    requires
        digits_of(a) == digits_of(b),
    ensures
        a == b,
    decreases a,
{
    lemma_digits_len(a);
    lemma_digits_len(b);
    if a < 10 && b < 10 {
        assert(digits_of(a)[0] == digit_char(a));
        assert(digits_of(b)[0] == digit_char(b));
        lemma_digit_char_injective(a, b);
    } else if a >= 10 && b >= 10 {
        assert(digits_of(a).last() == digit_char(a % 10));
        assert(digits_of(b).last() == digit_char(b % 10));
        lemma_digit_char_injective(a % 10, b % 10);
        assert(digits_of(a / 10).push(digit_char(a % 10)).drop_last() =~= digits_of(a / 10));
        assert(digits_of(b / 10).push(digit_char(b % 10)).drop_last() =~= digits_of(b / 10));
        lemma_digits_injective(a / 10, b / 10);
        vstd::arithmetic::div_mod::lemma_fundamental_div_mod(a as int, 10);
        vstd::arithmetic::div_mod::lemma_fundamental_div_mod(b as int, 10);
    } else {
        // one rendering has one digit, the other at least two, yet they are
        // equal: impossible
        assert(false);
    }
}

/// The stem of the desired name followed by `_` and the timestamp: the common
/// front of every derived alternative.
pub open spec fn rename_prefix(desired: Seq<char>, stamp: Seq<char>) -> Seq<char> {
    stem_spec(desired) + seq!['_'] + stamp
}

/// The `k`-th name tried for an incoming item: the desired name itself first,
/// then the timestamped form, then timestamped forms with a counter.
pub open spec fn candidate_spec(desired: Seq<char>, stamp: Seq<char>, k: nat) -> Seq<char> {
    if k == 0 {
        desired
    } else if k == 1 {
        rename_prefix(desired, stamp) + ext_spec(desired)
    } else {
        rename_prefix(desired, stamp) + seq!['-'] + digits_of((k - 1) as nat) + ext_spec(desired)
    }
}

/// Derived candidates (those past the desired name itself) are pairwise
/// distinct.
proof fn lemma_candidates_distinct(desired: Seq<char>, stamp: Seq<char>, i: nat, j: nat)
    requires
        1 <= i < j,
    ensures
        candidate_spec(desired, stamp, i) != candidate_spec(desired, stamp, j),
{
    let p = rename_prefix(desired, stamp);
    let e = ext_spec(desired);
    let dj = digits_of((j - 1) as nat);
    lemma_digits_len((j - 1) as nat);
    if i == 1 {
        assert(candidate_spec(desired, stamp, i).len() == p.len() + e.len());
        assert(candidate_spec(desired, stamp, j).len() == p.len() + 1 + dj.len() + e.len());
    } else {
        let di = digits_of((i - 1) as nat);
        lemma_digits_len((i - 1) as nat);
        if candidate_spec(desired, stamp, i) == candidate_spec(desired, stamp, j) {
            let q = p + seq!['-'];
            assert(candidate_spec(desired, stamp, i).len() == q.len() + di.len() + e.len());
            assert(candidate_spec(desired, stamp, j).len() == q.len() + dj.len() + e.len());
            assert(di.len() == dj.len());
            assert forall|t: int| 0 <= t < di.len() implies di[t] == dj[t] by {
                assert(candidate_spec(desired, stamp, i)[q.len() + t] == di[t]);
                assert(candidate_spec(desired, stamp, j)[q.len() + t] == dj[t]);
            }
            assert(di =~= dj);
            lemma_digits_injective((i - 1) as nat, (j - 1) as nat);
            assert(false);
        }
    }
}

/// Among the first derived candidates, one past the number of occupied names,
/// some candidate is free: were they all occupied, more distinct names would
/// be occupied than exist, since derived candidates are pairwise distinct.
proof fn lemma_candidate_available(desired: Seq<char>, stamp: Seq<char>, names: Seq<Seq<char>>)
    ensures
        exists|k: nat|
            1 <= k <= names.len() + 1 && !names.contains(
                #[trigger] candidate_spec(desired, stamp, k),
            ),
{
    broadcast use vstd::seq_lib::seq_to_set_is_finite;

    let n = names.len() as int;
    if forall|k: nat|
        1 <= k <= names.len() + 1 ==> names.contains(#[trigger] candidate_spec(desired, stamp, k)) {
        let c = Seq::new((n + 1) as nat, |t: int| candidate_spec(desired, stamp, (t + 1) as nat));
        assert forall|p: int, q: int|
            0 <= p < c.len() && 0 <= q < c.len() && p != q implies c[p] != c[q] by {
            if p < q {
                lemma_candidates_distinct(desired, stamp, (p + 1) as nat, (q + 1) as nat);
            } else {
                lemma_candidates_distinct(desired, stamp, (q + 1) as nat, (p + 1) as nat);
            }
        }
        assert(c.no_duplicates());
        c.unique_seq_to_set();
        names.lemma_cardinality_of_set();
        assert forall|x: Seq<char>| c.to_set().contains(x) implies names.to_set().contains(x) by {
            let t = choose|t: int| 0 <= t < c.len() && c[t] == x;
            assert(names.contains(candidate_spec(desired, stamp, (t + 1) as nat)));
        }
        assert(c.to_set().subset_of(names.to_set()));
        vstd::set_lib::lemma_len_subset(c.to_set(), names.to_set());
        assert(false);
    }
}

/// The views of a list of names.
pub open spec fn seq_views(names: Seq<String>) -> Seq<Seq<char>> {
    names.map_values(|s: String| s@)
}

/// `k` is the index of the first free candidate: every earlier candidate is
/// occupied and this one is not.
pub open spec fn is_first_free(
    desired: Seq<char>,
    stamp: Seq<char>,
    names: Seq<Seq<char>>,
    k: nat,
) -> bool {
    &&& !names.contains(candidate_spec(desired, stamp, k))
    &&& forall|m: nat| m < k ==> names.contains(#[trigger] candidate_spec(desired, stamp, m))
}

/// Whether `x` occurs among `names`, compared by contents.
pub fn contains_name(names: &Vec<String>, x: &String) -> (b: bool)
    ensures
        b == seq_views(names@).contains(x@),
{
    let mut i: usize = 0;
    while i < names.len()
        invariant
            i <= names@.len(),
            forall|j: int| 0 <= j < i ==> seq_views(names@)[j] != x@,
        decreases names@.len() - i,
    {
        if names[i].eq(x) {
            assert(seq_views(names@)[i as int] == x@);
            return true;
        }
        i = i + 1;
    }
    false
}

/// The decimal rendering of `k` as a string.
fn usize_to_string(k: usize) -> (s: String)
    ensures
        s@ == digits_of(k as nat),
    decreases k,
{
    if k < 10 {
        digit_str(k).to_owned()
    } else {
        let mut s = usize_to_string(k / 10);
        s.append(digit_str(k % 10));
        proof {
            assert((k / 10) as nat == (k as nat) / 10);
            assert((k % 10) as nat == (k as nat) % 10);
            assert(s@ =~= digits_of(k as nat));
        }
        s
    }
}

/// The one-character string for digit `d`.
fn digit_str(d: usize) -> (s: &'static str)
    requires
        d < 10,
    ensures
        s@ == seq![digit_char(d as nat)],
{
    proof {
        reveal_strlit("0");
        reveal_strlit("1");
        reveal_strlit("2");
        reveal_strlit("3");
        reveal_strlit("4");
        reveal_strlit("5");
        reveal_strlit("6");
        reveal_strlit("7");
        reveal_strlit("8");
        reveal_strlit("9");
    }
    let s = match d {
        0 => "0",
        1 => "1",
        2 => "2",
        3 => "3",
        4 => "4",
        5 => "5",
        6 => "6",
        7 => "7",
        8 => "8",
        _ => "9",
    };
    assert(s@ =~= seq![digit_char(d as nat)]);
    s
}

/// Build the `k`-th candidate name.
fn make_candidate(desired: &String, stamp: &String, k: usize) -> (c: String)
    requires
        1 <= k,
    ensures
        c@ == candidate_spec(desired@, stamp@, k as nat),
{
    proof {
        reveal_strlit("_");
        reveal_strlit("-");
    }
    let parts = split_stem_ext(desired.as_str());
    let mut c = parts.0;
    c.append("_");
    c.append(stamp.as_str());
    if k >= 2 {
        c.append("-");
        let digits = usize_to_string(k - 1);
        c.append(digits.as_str());
    }
    c.append(parts.1.as_str());
    proof {
        assert("_"@ =~= seq!['_']);
        assert("-"@ =~= seq!['-']);
        assert(c@ =~= candidate_spec(desired@, stamp@, k as nat));
    }
    c
}

/// Reserve a holding-area name for an item that wants to be stored as
/// `desired` while the names in `occupied` are taken: the first free
/// candidate, in the fixed order that starts with `desired` itself. The
/// result never collides with an occupied name, and when `desired` is free it
/// is returned unchanged.
pub fn reserve(desired: &String, stamp: &String, occupied: &Vec<String>) -> (r: String)
    requires
        occupied@.len() + 2 <= usize::MAX,
    ensures
        !seq_views(occupied@).contains(r@),
        !seq_views(occupied@).contains(desired@) ==> r@ == desired@,
        exists|k: nat|
            is_first_free(desired@, stamp@, seq_views(occupied@), k) && r@ == candidate_spec(
                desired@,
                stamp@,
                k,
            ),
{
    let ghost names = seq_views(occupied@);
    if !contains_name(occupied, desired) {
        proof {
            assert(candidate_spec(desired@, stamp@, 0) == desired@);
            assert(is_first_free(desired@, stamp@, names, 0));
        }
        return desired.clone();
    }
    let n = occupied.len();
    let mut k: usize = 1;
    while k <= n + 1
        invariant
            occupied@.len() + 2 <= usize::MAX,
            n == occupied@.len(),
            1 <= k <= n + 2,
            names == seq_views(occupied@),
            names.contains(candidate_spec(desired@, stamp@, 0)),
            forall|m: nat| 1 <= m < k ==> names.contains(
                #[trigger] candidate_spec(desired@, stamp@, m),
            ),
        decreases n + 2 - k,
    {
        let cand = make_candidate(desired, stamp, k);
        if !contains_name(occupied, &cand) {
            proof {
                assert(is_first_free(desired@, stamp@, names, k as nat));
            }
            return cand;
        }
        k = k + 1;
    }
    // Unreachable: among the candidates tried, one is always free.
    proof {
        lemma_candidate_available(desired@, stamp@, names);
    }
    assert(false);
    desired.clone()
}

} // verus!
