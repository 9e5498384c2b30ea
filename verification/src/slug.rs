use vstd::prelude::*;

use crate::paths::plain_segment;
use crate::text::{ascii_lower, char_is_ascii_alnum, char_to_ascii_lower, chars_of, is_ascii_alnum, string_from_chars};

verus! {

/// The id used when a name has no ASCII letter or digit at all.
pub open spec fn fallback_slug() -> Seq<char> {
    seq!['s', 'k', 'i', 'l', 'l']
}

/// Scans `s` from the left: each ASCII letter or digit is kept in lower case, and
/// each maximal run of other characters becomes a single `-`. The flag tells
/// whether the scan ended inside such a run.
pub open spec fn slug_scan(s: Seq<char>) -> (Seq<char>, bool)
    decreases s.len(),
{
    if s.len() == 0 {
        (Seq::<char>::empty(), false)
    } else {
        let prev = slug_scan(s.drop_last());
        let c = s.last();
        if is_ascii_alnum(c) {
            (prev.0.push(ascii_lower(c)), false)
        } else if !prev.1 {
            (prev.0.push('-'), true)
        } else {
            prev
        }
    }
}

/// `s` without its leading dashes.
pub open spec fn strip_leading_dashes(s: Seq<char>) -> Seq<char>
    decreases s.len(),
{
    if s.len() > 0 && s[0] == '-' {
        strip_leading_dashes(s.drop_first())
    } else {
        s
    }
}

/// `s` without its trailing dashes.
pub open spec fn strip_trailing_dashes(s: Seq<char>) -> Seq<char>
    decreases s.len(),
{
    if s.len() > 0 && s.last() == '-' {
        strip_trailing_dashes(s.drop_last())
    } else {
        s
    }
}

/// `s` without its leading and trailing dashes.
pub open spec fn trim_dashes(s: Seq<char>) -> Seq<char> {
    strip_trailing_dashes(strip_leading_dashes(s))
}

/// The id derived from a name: the scanned form without outer dashes, or
/// `skill` where nothing is left.
pub open spec fn slug_of(name: Seq<char>) -> Seq<char> {
    let t = trim_dashes(slug_scan(name).0);
    if t.len() == 0 {
        fallback_slug()
    } else {
        t
    }
}

/// A character that may stand in an id: a lower-case ASCII letter, a digit or `-`.
pub open spec fn is_slug_char(c: char) -> bool {
    ('a' <= c && c <= 'z') || ('0' <= c && c <= '9') || c == '-'
}

/// The shape of every derived id: not empty, only lower-case ASCII letters,
/// digits and dashes, no dash at either end and never two dashes in a row.
pub open spec fn is_slug(s: Seq<char>) -> bool {
    &&& s.len() > 0
    &&& forall|i: int| 0 <= i < s.len() ==> is_slug_char(#[trigger] s[i])
    &&& s[0] != '-'
    &&& s.last() != '-'
    &&& forall|i: int| 0 <= i < s.len() - 1 ==> !(#[trigger] s[i] == '-' && s[i + 1] == '-')
}

/// A derived id is a plain path component: its characters are letters, digits
/// and dashes, and it does not start with a dot.
pub proof fn lemma_slug_is_plain_segment(s: Seq<char>)
    requires
        is_slug(s),
    ensures
        plain_segment(s),
{
    assert(is_slug_char(s[0]));
    assert(s != seq!['.']) by {
        assert(seq!['.'][0] == '.');
    }
    assert(s != seq!['.', '.']) by {
        assert(seq!['.', '.'][0] == '.');
    }
    assert forall|i: int| 0 <= i < s.len() implies #[trigger] s[i] != '/' && s[i] != '\\' && s[i] != ':' by {
        assert(is_slug_char(s[i]));
    }
}

/// Chars of `s` are slug chars and no two dashes follow each other.
pub open spec fn dash_separated(s: Seq<char>) -> bool {
    &&& forall|i: int| 0 <= i < s.len() ==> is_slug_char(#[trigger] s[i])
    &&& forall|i: int| 0 <= i < s.len() - 1 ==> !(#[trigger] s[i] == '-' && s[i + 1] == '-')
}

proof fn lemma_scan_shape(s: Seq<char>)
    ensures
        dash_separated(slug_scan(s).0),
        slug_scan(s).1 <==> (slug_scan(s).0.len() > 0 && slug_scan(s).0.last() == '-'),
    decreases s.len(),
{
    if s.len() > 0 {
        lemma_scan_shape(s.drop_last());
        let prev = slug_scan(s.drop_last());
        let c = s.last();
        if is_ascii_alnum(c) {
            assert(is_slug_char(ascii_lower(c)));
            assert(prev.0.push(ascii_lower(c)).last() == ascii_lower(c));
        } else if !prev.1 {
        }
    }
}

proof fn lemma_strip_leading(s: Seq<char>)
    ensures
        exists|k: int| 0 <= k <= s.len() && strip_leading_dashes(s) == s.subrange(k, s.len() as int),
        strip_leading_dashes(s).len() > 0 ==> strip_leading_dashes(s)[0] != '-',
    decreases s.len(),
{
    if s.len() > 0 && s[0] == '-' {
        lemma_strip_leading(s.drop_first());
        let k = choose|k: int| 0 <= k <= s.drop_first().len() && strip_leading_dashes(s.drop_first()) == s.drop_first().subrange(k, s.drop_first().len() as int);
        assert(s.drop_first().subrange(k, s.drop_first().len() as int) =~= s.subrange(k + 1, s.len() as int));
    } else {
        assert(s.subrange(0, s.len() as int) =~= s);
    }
}

proof fn lemma_strip_trailing(s: Seq<char>)
    ensures
        exists|k: int| 0 <= k <= s.len() && strip_trailing_dashes(s) == s.subrange(0, k),
        strip_trailing_dashes(s).len() > 0 ==> strip_trailing_dashes(s).last() != '-',
        s.len() > 0 && s[0] != '-' ==> strip_trailing_dashes(s).len() > 0 && strip_trailing_dashes(s)[0] == s[0],
    decreases s.len(),
{
    if s.len() > 0 && s.last() == '-' {
        lemma_strip_trailing(s.drop_last());
        let k = choose|k: int| 0 <= k <= s.drop_last().len() && strip_trailing_dashes(s.drop_last()) == s.drop_last().subrange(0, k);
        assert(s.drop_last().subrange(0, k) =~= s.subrange(0, k));
    } else {
        assert(s.subrange(0, s.len() as int) =~= s);
    }
}

proof fn lemma_dash_separated_subrange(s: Seq<char>, i: int, j: int)
    requires
        dash_separated(s),
        0 <= i <= j <= s.len(),
    ensures
        dash_separated(s.subrange(i, j)),
{
    let t = s.subrange(i, j);
    assert forall|k: int| 0 <= k < t.len() - 1 implies !(#[trigger] t[k] == '-' && t[k + 1] == '-') by {
        assert(t[k] == s[i + k] && t[k + 1] == s[i + k + 1]);
    }
}

/// Every id that `slugify` produces has the shape of a slug.
pub proof fn lemma_slug_of_is_slug(name: Seq<char>)
    ensures
        is_slug(slug_of(name)),
{
    let raw = slug_scan(name).0;
    lemma_scan_shape(name);
    lemma_strip_leading(raw);
    let lead = strip_leading_dashes(raw);
    let k = choose|k: int| 0 <= k <= raw.len() && lead == raw.subrange(k, raw.len() as int);
    lemma_dash_separated_subrange(raw, k, raw.len() as int);
    lemma_strip_trailing(lead);
    let t = strip_trailing_dashes(lead);
    let k2 = choose|k2: int| 0 <= k2 <= lead.len() && t == lead.subrange(0, k2);
    lemma_dash_separated_subrange(lead, 0, k2);
    if t.len() == 0 {
        let f = fallback_slug();
        assert(forall|i: int| 0 <= i < f.len() ==> is_slug_char(#[trigger] f[i]));
        assert(forall|i: int| 0 <= i < f.len() - 1 ==> !(#[trigger] f[i] == '-' && f[i + 1] == '-'));
    } else {
        assert(lead.len() > 0);
        assert(t[0] == lead[0]);
    }
}

proof fn lemma_scan_of_slug_shaped(s: Seq<char>)
    requires
        dash_separated(s),
        s.len() > 0 ==> s[0] != '-',
    ensures
        slug_scan(s) == (s, s.len() > 0 && s.last() == '-'),
    decreases s.len(),
{
    if s.len() > 0 {
        let q = s.drop_last();
        lemma_dash_separated_subrange(s, 0, s.len() - 1);
        assert(q =~= s.subrange(0, s.len() - 1));
        lemma_scan_of_slug_shaped(q);
        let c = s.last();
        if c == '-' {
            assert(q.len() > 0);
            assert(!(s[s.len() - 2] == '-' && s[s.len() - 1] == '-'));
        } else {
            assert(is_slug_char(s[s.len() - 1]));
        }
        assert(q.push(c) =~= s);
    }
}

/// Deriving an id from an id gives it back unchanged, so ids are stable under
/// `slugify`.
pub proof fn lemma_slug_of_idempotent(name: Seq<char>)
    ensures
        slug_of(slug_of(name)) == slug_of(name),
{
    let t = slug_of(name);
    lemma_slug_of_is_slug(name);
    assert(dash_separated(t));
    lemma_scan_of_slug_shaped(t);
    assert(strip_leading_dashes(t) == t);
    assert(strip_trailing_dashes(t) == t);
}

/// Derives an id from a name: ASCII letters and digits in lower case, every run
/// of other characters turned into one `-`, no dash at either end, and `skill`
/// where nothing is left.
pub fn slugify(input: &str) -> (slug: String)
    ensures
        slug@ == slug_of(input@),
        is_slug(slug@),
{
    proof {
        lemma_slug_of_is_slug(input@);
    }
    let chars = chars_of(input);
    let mut raw: Vec<char> = Vec::new();
    let mut last_dash = false;
    let mut i: usize = 0;
    while i < chars.len()
        invariant
            chars@ == input@,
            i <= chars.len(),
            (raw@, last_dash) == slug_scan(chars@.take(i as int)),
        decreases chars.len() - i,
    {
        let c = chars[i];
        assert(chars@.take(i + 1).drop_last() =~= chars@.take(i as int));
        if char_is_ascii_alnum(c) {
            raw.push(char_to_ascii_lower(c));
            last_dash = false;
        } else if !last_dash {
            raw.push('-');
            last_dash = true;
        }
        i = i + 1;
    }
    assert(chars@.take(chars.len() as int) =~= chars@);
    let ghost len = raw@.len() as int;
    let mut start: usize = 0;
    assert(raw@.subrange(0, len) =~= raw@);
    while start < raw.len() && raw[start] == '-'
        invariant
            len == raw@.len(),
            start <= raw.len(),
            strip_leading_dashes(raw@) == strip_leading_dashes(raw@.subrange(start as int, len)),
        decreases raw.len() - start,
    {
        assert(raw@.subrange(start as int, len).drop_first() =~= raw@.subrange(start + 1, len));
        start = start + 1;
    }
    assert(strip_leading_dashes(raw@) == raw@.subrange(start as int, len));
    let mut end: usize = raw.len();
    while end > start && raw[end - 1] == '-'
        invariant
            len == raw@.len(),
            start <= end <= raw.len(),
            strip_trailing_dashes(raw@.subrange(start as int, len)) == strip_trailing_dashes(
                raw@.subrange(start as int, end as int),
            ),
        decreases end,
    {
        assert(raw@.subrange(start as int, end as int).drop_last() =~= raw@.subrange(
            start as int,
            end - 1,
        ));
        end = end - 1;
    }
    assert(strip_trailing_dashes(raw@.subrange(start as int, len)) == raw@.subrange(start as int, end as int));
    if start == end {
        let fallback = String::from_str("skill");
        proof {
            reveal_strlit("skill");
            assert(fallback@ =~= fallback_slug());
        }
        return fallback;
    }
    let mut out: Vec<char> = Vec::new();
    let mut k: usize = start;
    while k < end
        invariant
            start <= k <= end <= raw.len(),
            out@ == raw@.subrange(start as int, k as int),
        decreases end - k,
    {
        out.push(raw[k]);
        assert(raw@.subrange(start as int, k + 1) =~= raw@.subrange(start as int, k as int).push(raw@[k as int]));
        k = k + 1;
    }
    string_from_chars(out.as_slice())
}

} // verus!
