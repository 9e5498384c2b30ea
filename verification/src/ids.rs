use vstd::prelude::*;

use crate::paths::plain_segment;
use crate::text::string_from_chars;

verus! {

/// The decimal digit character for `d` (below ten).
pub open spec fn digit_char(d: nat) -> char {
    if d == 0 {
        '0'
    } else if d == 1 {
        '1'
    } else if d == 2 {
        '2'
    } else if d == 3 {
        '3'
    } else if d == 4 {
        '4'
    } else if d == 5 {
        '5'
    } else if d == 6 {
        '6'
    } else if d == 7 {
        '7'
    } else if d == 8 {
        '8'
    } else {
        '9'
    }
}

/// The decimal representation of `n`, without leading zeros.
pub open spec fn decimal(n: nat) -> Seq<char>
    decreases n,
{
    if n < 10 {
        seq![digit_char(n)]
    } else {
        decimal(n / 10).push(digit_char(n % 10))
    }
}

/// `base`, a dash and the decimal form of `n`: the candidate ids tried after `base`.
pub open spec fn suffixed(base: Seq<char>, n: nat) -> Seq<char> {
    base + seq!['-'] + decimal(n)
}

/// `n` is the first suffix from 2 on whose candidate is free.
pub open spec fn is_first_free_suffix(base: Seq<char>, taken: Seq<Seq<char>>, n: nat) -> bool {
    &&& n >= 2
    &&& !taken.contains(suffixed(base, n))
    &&& forall|m: nat| 2 <= m < n ==> taken.contains(#[trigger] suffixed(base, m))
}

/// The id that a new entry derived from `base` receives, given the ids already
/// taken: `base` itself when free, else `base-2`, `base-3`, ... whichever comes first.
pub open spec fn unique_id_for(base: Seq<char>, taken: Seq<Seq<char>>) -> Seq<char> {
    if !taken.contains(base) {
        base
    } else {
        suffixed(base, choose|n: nat| is_first_free_suffix(base, taken, n))
    }
}

proof fn lemma_decimal_len(n: nat)
    ensures
        decimal(n).len() >= 1,
        n >= 10 ==> decimal(n).len() >= 2,
    decreases n,
{
    if n >= 10 {
        lemma_decimal_len(n / 10);
    }
}

proof fn lemma_decimal_digits(n: nat)
    ensures
        forall|i: int| 0 <= i < decimal(n).len() ==> '0' <= #[trigger] decimal(n)[i] && decimal(n)[i] <= '9',
    decreases n,
{
    if n >= 10 {
        lemma_decimal_digits(n / 10);
        let d = decimal(n);
        assert forall|i: int| 0 <= i < d.len() implies '0' <= #[trigger] d[i] && d[i] <= '9' by {
            if i < d.len() - 1 {
                assert(d[i] == decimal(n / 10)[i]);
            }
        }
    }
}

/// An id derived from a plain path component is one too: it is the base, or
/// the base with a dash and digits.
pub proof fn lemma_unique_id_is_plain(base: Seq<char>, taken: Seq<Seq<char>>)
    requires
        plain_segment(base),
    ensures
        plain_segment(unique_id_for(base, taken)),
{
    if taken.contains(base) {
        let n = choose|n: nat| is_first_free_suffix(base, taken, n);
        let s = suffixed(base, n);
        lemma_decimal_digits(n);
        lemma_decimal_len(n);
        assert(s.len() >= 3);
        assert(s != seq!['.']);
        assert(s != seq!['.', '.']);
        assert forall|i: int| 0 <= i < s.len() implies #[trigger] s[i] != '/' && s[i] != '\\' && s[i] != ':' by {
            if i < base.len() {
                assert(s[i] == base[i]);
            } else if i > base.len() {
                assert(s[i] == decimal(n)[i - base.len() - 1]);
            }
        }
    }
}

proof fn lemma_digit_char_injective(a: nat, b: nat)
    requires
        a < 10,
        b < 10,
        digit_char(a) == digit_char(b),
    ensures
        a == b,
{
}

/// Different numbers have different decimal forms.
pub proof fn lemma_decimal_injective(a: nat, b: nat)
    requires
        decimal(a) == decimal(b),
    ensures
        a == b,
    decreases a,
{
    lemma_decimal_len(a);
    lemma_decimal_len(b);
    if a < 10 {
        if b >= 10 {
            assert(decimal(b).len() >= 2);
        } else {
            assert(decimal(a) =~= seq![digit_char(a)]);
            assert(decimal(b) =~= seq![digit_char(b)]);
            assert(seq![digit_char(a)][0] == digit_char(a));
            assert(seq![digit_char(b)][0] == digit_char(b));
            lemma_digit_char_injective(a, b);
        }
    } else {
        if b < 10 {
            assert(decimal(a).len() >= 2);
        } else {
            let da = decimal(a);
            let db = decimal(b);
            assert(da.last() == db.last());
            lemma_digit_char_injective(a % 10, b % 10);
            assert(da.drop_last() =~= decimal(a / 10));
            assert(db.drop_last() =~= decimal(b / 10));
            lemma_decimal_injective(a / 10, b / 10);
        }
    }
}

/// Different suffixes give different candidate ids.
pub proof fn lemma_suffixed_injective(base: Seq<char>, a: nat, b: nat)
    requires
        suffixed(base, a) == suffixed(base, b),
    ensures
        a == b,
{
    let k = base.len() + 1;
    let sa = suffixed(base, a);
    let sb = suffixed(base, b);
    assert(sa.subrange(k as int, sa.len() as int) =~= decimal(a));
    assert(sb.subrange(k as int, sb.len() as int) =~= decimal(b));
    lemma_decimal_injective(a, b);
}

proof fn lemma_first_free_suffix_unique(base: Seq<char>, taken: Seq<Seq<char>>, a: nat, b: nat)
    requires
        is_first_free_suffix(base, taken, a),
        is_first_free_suffix(base, taken, b),
    ensures
        a == b,
{
    if a < b {
        assert(taken.contains(suffixed(base, a)));
    } else if b < a {
        assert(taken.contains(suffixed(base, b)));
    }
}

/// When the candidates for suffixes 2 .. n are all taken, there are at least
/// `n - 2` distinct taken ids.
proof fn lemma_taken_candidates_bound(base: Seq<char>, taken: Seq<Seq<char>>, n: nat)
    requires
        n >= 2,
        forall|m: nat| 2 <= m < n ==> taken.contains(#[trigger] suffixed(base, m)),
    ensures
        n - 2 <= taken.len(),
{
    let cands = Seq::new((n - 2) as nat, |k: int| suffixed(base, (k + 2) as nat));
    assert forall|i: int, j: int| 0 <= i < cands.len() && 0 <= j < cands.len() && i != j implies cands[i] != cands[j] by {
        if cands[i] == cands[j] {
            lemma_suffixed_injective(base, (i + 2) as nat, (j + 2) as nat);
        }
    }
    assert(cands.no_duplicates());
    cands.unique_seq_to_set();
    assert forall|x: Seq<char>| cands.to_set().contains(x) implies taken.to_set().contains(x) by {
        let i = choose|i: int| 0 <= i < cands.len() && cands[i] == x;
        assert(taken.contains(suffixed(base, (i + 2) as nat)));
    }
    taken.lemma_cardinality_of_set();
    vstd::set_lib::lemma_len_subset(cands.to_set(), taken.to_set());
}

/// From any point up to which all candidates are taken, a first free suffix exists.
proof fn lemma_first_free_suffix_exists_from(base: Seq<char>, taken: Seq<Seq<char>>, k: nat)
    requires
        k >= 2,
        forall|m: nat| 2 <= m < k ==> taken.contains(#[trigger] suffixed(base, m)),
    ensures
        exists|n: nat| is_first_free_suffix(base, taken, n),
    decreases taken.len() + 3 - k,
{
    lemma_taken_candidates_bound(base, taken, k);
    if !taken.contains(suffixed(base, k)) {
        assert(is_first_free_suffix(base, taken, k));
    } else {
        assert forall|m: nat| 2 <= m < k + 1 implies taken.contains(#[trigger] suffixed(base, m)) by {
            if m == k {
            }
        }
        lemma_taken_candidates_bound(base, taken, k + 1);
        lemma_first_free_suffix_exists_from(base, taken, k + 1);
    }
}

/// The id given to a new entry is never one that is taken, and it is the
/// derived id itself whenever that is free.
pub proof fn lemma_unique_id_is_fresh(base: Seq<char>, taken: Seq<Seq<char>>)
    ensures
        !taken.contains(unique_id_for(base, taken)),
        !taken.contains(base) ==> unique_id_for(base, taken) == base,
        taken.contains(base) ==> exists|n: nat| n >= 2 && unique_id_for(base, taken) == suffixed(base, n),
{
    if taken.contains(base) {
        lemma_first_free_suffix_exists_from(base, taken, 2);
        let n = choose|n: nat| is_first_free_suffix(base, taken, n);
        assert(unique_id_for(base, taken) == suffixed(base, n));
    }
}

/// The characters of the decimal form of `n`, appended to `out`.
fn push_decimal(n: u128, out: &mut Vec<char>)
    ensures
        final(out)@ == old(out)@ + decimal(n as nat),
    decreases n,
{
    if n >= 10 {
        push_decimal(n / 10, out);
    }
    let d = n % 10;
    let c = if d == 0 {
        '0'
    } else if d == 1 {
        '1'
    } else if d == 2 {
        '2'
    } else if d == 3 {
        '3'
    } else if d == 4 {
        '4'
    } else if d == 5 {
        '5'
    } else if d == 6 {
        '6'
    } else if d == 7 {
        '7'
    } else if d == 8 {
        '8'
    } else {
        '9'
    };
    out.push(c);
    assert(out@ =~= old(out)@ + decimal(n as nat));
}

/// Whether some string of `taken` equals `candidate`.
pub(crate) fn contains_string(taken: &Vec<String>, candidate: &String) -> (r: bool)
    ensures
        r == taken.deep_view().contains(candidate@),
{
    let mut i: usize = 0;
    while i < taken.len()
        invariant
            i <= taken.len(),
            forall|j: int| 0 <= j < i ==> taken@[j]@ != candidate@,
        decreases taken.len() - i,
    {
        if taken[i] == *candidate {
            assert(taken.deep_view()[i as int] == candidate@);
            return true;
        }
        i = i + 1;
    }
    proof {
        if taken.deep_view().contains(candidate@) {
            let j = choose|j: int| 0 <= j < taken.deep_view().len() && taken.deep_view()[j] == candidate@;
            assert(taken@[j]@ == candidate@);
        }
    }
    false
}

/// Picks an id derived from `base` that no string of `taken` equals: `base`
/// itself when it is free, else the first free one of `base-2`, `base-3`, ...
pub fn unique_id(base: &String, taken: &Vec<String>) -> (id: String)
    ensures
        id@ == unique_id_for(base@, taken.deep_view()),
        !taken.deep_view().contains(id@),
{
    let ghost ids = taken.deep_view();
    if !contains_string(taken, base) {
        return base.clone();
    }
    let mut prefix: Vec<char> = crate::text::chars_of(base.as_str());
    prefix.push('-');
    let count: usize = taken.len();
    let mut index: u128 = 2;
    loop
        invariant
            prefix@ == base@ + seq!['-'],
            ids == taken.deep_view(),
            ids.len() == count,
            ids.contains(base@),
            2 <= index,
            forall|m: nat| 2 <= m < index ==> ids.contains(#[trigger] suffixed(base@, m)),
            index - 2 <= ids.len(),
        decreases ids.len() + 2 - index,
    {
        let mut chars = prefix.clone();
        push_decimal(index, &mut chars);
        let candidate = string_from_chars(chars.as_slice());
        assert(candidate@ =~= suffixed(base@, index as nat));
        if !contains_string(taken, &candidate) {
            proof {
                assert(is_first_free_suffix(base@, ids, index as nat));
                let n = choose|n: nat| is_first_free_suffix(base@, ids, n);
                lemma_first_free_suffix_unique(base@, ids, n, index as nat);
            }
            return candidate;
        }
        proof {
            assert forall|m: nat| 2 <= m < index + 1 implies ids.contains(#[trigger] suffixed(base@, m)) by {
                if m < index {
                } else {
                    assert(m == index);
                }
            }
            lemma_taken_candidates_bound(base@, ids, (index + 1) as nat);
            assert(index - 1 <= ids.len());
        }
        index = index + 1;
    }
}

} // verus!
