//! Line-oriented parsing of the textual protocols the resolver reads: the
//! window manager's status responses and the multiplexer's listing output.
//!
//! Everything here is pure: a response arrives as bytes and the value of
//! every field is characterised exactly by the spec functions below —
//! whitespace trimming, splitting into lines and whitespace-separated
//! tokens, and decimal integer parsing with the same acceptance rules as
//! the standard library's unsigned parser (optional leading `+`, decimal
//! digits only, overflow rejected).

use vstd::prelude::*;

use crate::bytes::copy_range;
use crate::bytes::is_prefix_of;
use crate::bytes::starts_with_bytes;

verus! {

broadcast use vstd::seq_lib::group_seq_properties;

/// ASCII whitespace: space, tab, line feed, carriage return.
pub open spec fn is_ws(b: u8) -> bool {
    b == 32 || b == 9 || b == 10 || b == 13
}

pub open spec fn trim_front(s: Seq<u8>) -> Seq<u8>
    decreases s.len(),
{
    if s.len() > 0 && is_ws(s[0]) {
        trim_front(s.drop_first())
    } else {
        s
    }
}

pub open spec fn trim_back(s: Seq<u8>) -> Seq<u8>
    decreases s.len(),
{
    if s.len() > 0 && is_ws(s.last()) {
        trim_back(s.drop_last())
    } else {
        s
    }
}

/// `s` with leading and trailing ASCII whitespace removed.
pub open spec fn spec_trim(s: Seq<u8>) -> Seq<u8> {
    trim_back(trim_front(s))
}

/// Index of the first line feed in `s`, or `s.len()` when there is none.
pub open spec fn nl_idx(s: Seq<u8>) -> int
    decreases s.len(),
{
    if s.len() == 0 {
        0
    } else if s[0] == 10 {
        0
    } else {
        1 + nl_idx(s.drop_first())
    }
}

/// `s` split at line feeds; a trailing line feed yields a final empty line.
pub open spec fn spec_lines(s: Seq<u8>) -> Seq<Seq<u8>>
    decreases s.len(),
{
    let i = nl_idx(s);
    if 0 <= i && i < s.len() {
        seq![s.subrange(0, i)] + spec_lines(s.subrange(i + 1, s.len() as int))
    } else {
        seq![s]
    }
}

/// Index of the first whitespace byte in `s`, or `s.len()`.
pub open spec fn ws_idx(s: Seq<u8>) -> int
    decreases s.len(),
{
    if s.len() == 0 {
        0
    } else if is_ws(s[0]) {
        0
    } else {
        1 + ws_idx(s.drop_first())
    }
}

/// The maximal runs of non-whitespace bytes in `s`, in order.
pub open spec fn spec_tokens(s: Seq<u8>) -> Seq<Seq<u8>>
    decreases s.len(),
{
    if s.len() == 0 {
        Seq::empty()
    } else if is_ws(s[0]) {
        spec_tokens(s.drop_first())
    } else {
        let i = ws_idx(s);
        if 1 <= i && i <= s.len() {
            seq![s.subrange(0, i)] + spec_tokens(s.subrange(i, s.len() as int))
        } else {
            seq![s]
        }
    }
}

pub open spec fn is_digit(b: u8) -> bool {
    48 <= b <= 57
}

pub open spec fn digit_val(b: u8) -> nat {
    if is_digit(b) {
        (b - 48) as nat
    } else {
        0
    }
}

pub open spec fn all_digits(s: Seq<u8>) -> bool {
    forall|i: int| 0 <= i < s.len() ==> is_digit(#[trigger] s[i])
}

/// The value of a digit string read in base ten.
pub open spec fn digits_val(s: Seq<u8>) -> nat
    decreases s.len(),
{
    if s.len() == 0 {
        0
    } else {
        digits_val(s.drop_last()) * 10 + digit_val(s.last())
    }
}

/// Decimal parse with the standard unsigned acceptance rules: an optional
/// leading `+`, then one or more digits, and the value must fit.
pub open spec fn spec_parse_u64(s: Seq<u8>) -> Option<u64> {
    let d = if s.len() > 0 && s[0] == 43 {
        s.drop_first()
    } else {
        s
    };
    if d.len() > 0 && all_digits(d) && digits_val(d) <= u64::MAX {
        Some(digits_val(d) as u64)
    } else {
        None
    }
}

pub open spec fn spec_parse_u32(s: Seq<u8>) -> Option<u32> {
    match spec_parse_u64(s) {
        Some(v) => if v <= u32::MAX {
            Some(v as u32)
        } else {
            None
        },
        None => None,
    }
}

/// The first line whose trimmed form starts with `label` gives the field's
/// value: what follows the label, trimmed.  Lines before it are skipped.
pub open spec fn spec_find_field(lines: Seq<Seq<u8>>, label: Seq<u8>) -> Option<Seq<u8>>
    decreases lines.len(),
{
    if lines.len() == 0 {
        None
    } else {
        let t = spec_trim(lines[0]);
        if is_prefix_of(label, t) {
            Some(spec_trim(t.subrange(label.len() as int, t.len() as int)))
        } else {
            spec_find_field(lines.drop_first(), label)
        }
    }
}

/// The value of the field `label` in the line-oriented response `resp`.
pub open spec fn spec_field_value(resp: Seq<u8>, label: Seq<u8>) -> Option<Seq<u8>> {
    spec_find_field(spec_lines(resp), label)
}

fn is_ws_byte(b: u8) -> (r: bool)
    ensures
        r == is_ws(b),
{
    b == 32 || b == 9 || b == 10 || b == 13
}

proof fn lemma_trim_front_at(s: Seq<u8>, i: int)
    requires
        0 <= i <= s.len(),
        forall|k: int| 0 <= k < i ==> is_ws(#[trigger] s[k]),
        i == s.len() || !is_ws(s[i]),
    ensures
        trim_front(s) == s.subrange(i, s.len() as int),
    decreases i,
{
    if i == 0 {
        if s.len() == 0 || !is_ws(s[0]) {
            assert(s.subrange(0, s.len() as int) =~= s);
        }
    } else {
        let rest = s.drop_first();
        assert(rest =~= s.subrange(1, s.len() as int));
        assert(forall|k: int| 0 <= k < i - 1 ==> is_ws(#[trigger] rest[k]));
        lemma_trim_front_at(rest, i - 1);
        assert(rest.subrange(i - 1, rest.len() as int) =~= s.subrange(i, s.len() as int));
    }
}

proof fn lemma_trim_back_at(s: Seq<u8>, j: int)
    requires
        0 <= j <= s.len(),
        forall|k: int| j <= k < s.len() ==> is_ws(#[trigger] s[k]),
        j == 0 || !is_ws(s[j - 1]),
    ensures
        trim_back(s) == s.subrange(0, j),
    decreases s.len(),
{
    if j == s.len() {
        assert(s.subrange(0, j) =~= s);
    } else {
        let rest = s.drop_last();
        assert(rest =~= s.subrange(0, s.len() - 1));
        assert(is_ws(s.last()));
        lemma_trim_back_at(rest, j);
        assert(rest.subrange(0, j) =~= s.subrange(0, j));
    }
}

/// Removes leading and trailing ASCII whitespace.
pub fn trim_bytes(s: &Vec<u8>) -> (r: Vec<u8>)
    ensures
        r@ == spec_trim(s@),
{
    let mut lo: usize = 0;
    while lo < s.len() && is_ws_byte(s[lo])
        invariant
            lo <= s@.len(),
            forall|k: int| 0 <= k < lo ==> is_ws(#[trigger] s@[k]),
        decreases s@.len() - lo,
    {
        lo = lo + 1;
    }
    let mut hi: usize = s.len();
    while hi > lo && is_ws_byte(s[hi - 1])
        invariant
            lo <= hi <= s@.len(),
            forall|k: int| 0 <= k < lo ==> is_ws(#[trigger] s@[k]),
            forall|k: int| hi <= k < s@.len() ==> is_ws(#[trigger] s@[k]),
        decreases hi,
    {
        hi = hi - 1;
    }
    proof {
        lemma_trim_front_at(s@, lo as int);
        let f = s@.subrange(lo as int, s@.len() as int);
        assert(forall|k: int|
            hi - lo <= k < f.len() ==> is_ws(#[trigger] f[k]));
        lemma_trim_back_at(f, hi - lo);
        assert(f.subrange(0, hi - lo) =~= s@.subrange(lo as int, hi as int));
    }
    copy_range(s, lo, hi)
}

proof fn lemma_nl_idx_at(s: Seq<u8>, m: int)
    requires
        0 <= m <= s.len(),
        forall|k: int| 0 <= k < m ==> #[trigger] s[k] != 10,
        m == s.len() || s[m] == 10,
    ensures
        nl_idx(s) == m,
    decreases m,
{
    if m == 0 {
    } else {
        let rest = s.drop_first();
        assert(rest =~= s.subrange(1, s.len() as int));
        lemma_nl_idx_at(rest, m - 1);
    }
}

/// Splits a response into its lines, as `spec_lines` describes.
pub fn split_lines(s: &Vec<u8>) -> (r: Vec<Vec<u8>>)
    ensures
        r.deep_view() == spec_lines(s@),
{
    let mut out: Vec<Vec<u8>> = Vec::new();
    proof {
        assert(out.deep_view() =~~= Seq::<Seq<u8>>::empty());
        assert(s@.subrange(0, s@.len() as int) =~= s@);
        assert(out.deep_view() + spec_lines(s@) =~~= spec_lines(s@));
    }
    let mut start: usize = 0;
    let mut i: usize = 0;
    while i < s.len()
        invariant
            start <= i <= s@.len(),
            forall|k: int| start <= k < i ==> #[trigger] s@[k] != 10,
            spec_lines(s@) == out.deep_view() + spec_lines(
                s@.subrange(start as int, s@.len() as int),
            ),
        decreases s@.len() - i,
    {
        if s[i] == 10 {
            let ghost tail = s@.subrange(start as int, s@.len() as int);
            proof {
                assert(forall|k: int|
                    0 <= k < i - start ==> #[trigger] tail[k] != 10);
                lemma_nl_idx_at(tail, i - start);
                assert(tail.subrange(0, i - start) =~= s@.subrange(start as int, i as int));
                assert(tail.subrange(i - start + 1, tail.len() as int) =~= s@.subrange(
                    i + 1,
                    s@.len() as int,
                ));
            }
            let line = copy_range(s, start, i);
            let ghost out_old = out.deep_view();
            out.push(line);
            proof {
                assert(out.deep_view() =~~= out_old.push(s@.subrange(start as int, i as int)));
                assert(out.deep_view() + spec_lines(s@.subrange(i + 1, s@.len() as int))
                    =~~= out_old + (seq![s@.subrange(start as int, i as int)] + spec_lines(
                    s@.subrange(i + 1, s@.len() as int),
                )));
            }
            start = i + 1;
        }
        i = i + 1;
    }
    let ghost tail = s@.subrange(start as int, s@.len() as int);
    proof {
        lemma_nl_idx_at(tail, tail.len() as int);
    }
    let line = copy_range(s, start, s.len());
    let ghost out_old = out.deep_view();
    out.push(line);
    proof {
        assert(out.deep_view() =~~= out_old.push(tail));
        assert(out_old + seq![tail] =~~= out.deep_view());
    }
    out
}

proof fn lemma_ws_idx_at(s: Seq<u8>, m: int)
    requires
        0 <= m <= s.len(),
        forall|k: int| 0 <= k < m ==> !is_ws(#[trigger] s[k]),
        m == s.len() || is_ws(s[m]),
    ensures
        ws_idx(s) == m,
    decreases m,
{
    if m == 0 {
    } else {
        let rest = s.drop_first();
        assert(rest =~= s.subrange(1, s.len() as int));
        lemma_ws_idx_at(rest, m - 1);
    }
}

/// Splits a line into whitespace-separated tokens, as `spec_tokens`
/// describes.
pub fn split_tokens(s: &Vec<u8>) -> (r: Vec<Vec<u8>>)
    ensures
        r.deep_view() == spec_tokens(s@),
{
    let mut out: Vec<Vec<u8>> = Vec::new();
    proof {
        assert(out.deep_view() =~~= Seq::<Seq<u8>>::empty());
        assert(s@.subrange(0, s@.len() as int) =~= s@);
        assert(out.deep_view() + spec_tokens(s@) =~~= spec_tokens(s@));
    }
    let mut i: usize = 0;
    while i < s.len()
        invariant
            i <= s@.len(),
            spec_tokens(s@) == out.deep_view() + spec_tokens(
                s@.subrange(i as int, s@.len() as int),
            ),
        decreases s@.len() - i,
    {
        let ghost tail = s@.subrange(i as int, s@.len() as int);
        if is_ws_byte(s[i]) {
            proof {
                assert(tail.drop_first() =~= s@.subrange(i + 1, s@.len() as int));
            }
            i = i + 1;
        } else {
            let mut j: usize = i + 1;
            while j < s.len() && !is_ws_byte(s[j])
                invariant
                    i < j <= s@.len(),
                    forall|k: int| i <= k < j ==> !is_ws(#[trigger] s@[k]),
                decreases s@.len() - j,
            {
                j = j + 1;
            }
            proof {
                assert(forall|k: int| 0 <= k < j - i ==> !is_ws(#[trigger] tail[k]));
                lemma_ws_idx_at(tail, j - i);
                assert(tail.subrange(0, j - i) =~= s@.subrange(i as int, j as int));
                assert(tail.subrange(j - i, tail.len() as int) =~= s@.subrange(
                    j as int,
                    s@.len() as int,
                ));
            }
            let tok = copy_range(s, i, j);
            let ghost out_old = out.deep_view();
            out.push(tok);
            proof {
                assert(out.deep_view() =~~= out_old.push(s@.subrange(i as int, j as int)));
                assert(out.deep_view() + spec_tokens(s@.subrange(j as int, s@.len() as int))
                    =~~= out_old + (seq![s@.subrange(i as int, j as int)] + spec_tokens(
                    s@.subrange(j as int, s@.len() as int),
                )));
            }
            i = j;
        }
    }
    proof {
        assert(s@.subrange(s@.len() as int, s@.len() as int) =~= Seq::<u8>::empty());
        assert(out.deep_view() + Seq::<Seq<u8>>::empty() =~~= out.deep_view());
    }
    out
}

proof fn lemma_digits_val_grows(s: Seq<u8>, k: int)
    requires
        0 <= k <= s.len(),
        digits_val(s.subrange(0, k)) > u64::MAX,
    ensures
        digits_val(s) > u64::MAX,
    decreases s.len() - k,
{
    if k == s.len() {
        assert(s.subrange(0, k) =~= s);
    } else {
        let t = s.subrange(0, k + 1);
        assert(t.drop_last() =~= s.subrange(0, k));
        assert(digits_val(t) == digits_val(s.subrange(0, k)) * 10 + digit_val(t.last()));
        assert(digits_val(s.subrange(0, k)) * 10 >= digits_val(s.subrange(0, k)));
        lemma_digits_val_grows(s, k + 1);
    }
}

/// Decimal parse of a byte string into a `u64`, exactly as
/// `spec_parse_u64` describes.
pub fn parse_u64(s: &Vec<u8>) -> (r: Option<u64>)
    ensures
        r == spec_parse_u64(s@),
{
    let ghost d = if s@.len() > 0 && s@[0] == 43 {
        s@.drop_first()
    } else {
        s@
    };
    let mut start: usize = 0;
    if s.len() > 0 && s[0] == 43 {
        start = 1;
    }
    proof {
        assert(d =~= s@.subrange(start as int, s@.len() as int));
    }
    if start == s.len() {
        return None;
    }
    let mut acc: u64 = 0;
    let mut i: usize = start;
    while i < s.len()
        invariant
            start <= i <= s@.len(),
            start < s@.len(),
            d == (if s@.len() > 0 && s@[0] == 43 {
                s@.drop_first()
            } else {
                s@
            }),
            d == s@.subrange(start as int, s@.len() as int),
            forall|k: int| start <= k < i ==> is_digit(#[trigger] s@[k]),
            acc as nat == digits_val(s@.subrange(start as int, i as int)),
        decreases s@.len() - i,
    {
        let b = s[i];
        if b < 48 || b > 57 {
            proof {
                assert(d[i - start] == s@[i as int]);
                assert(!all_digits(d));
            }
            return None;
        }
        let digit = (b - 48) as u64;
        let wide: u128 = (acc as u128) * 10 + (digit as u128);
        proof {
            assert(s@.subrange(start as int, i + 1 as int).drop_last() =~= s@.subrange(
                start as int,
                i as int,
            ));
            assert(digits_val(s@.subrange(start as int, i + 1 as int)) == acc as nat * 10
                + digit_val(s@[i as int]));
        }
        if wide > u64::MAX as u128 {
            proof {
                if all_digits(d) {
                    assert(d.subrange(0, i + 1 - start as int) =~= s@.subrange(
                        start as int,
                        i + 1 as int,
                    ));
                    lemma_digits_val_grows(d, i + 1 - start as int);
                }
            }
            return None;
        }
        acc = wide as u64;
        i = i + 1;
    }
    proof {
        assert(d =~= s@.subrange(start as int, s@.len() as int));
        assert(all_digits(d));
        assert(digits_val(d) == acc as nat);
    }
    Some(acc)
}

/// Decimal parse of a byte string into a `u32`, exactly as
/// `spec_parse_u32` describes.
pub fn parse_u32(s: &Vec<u8>) -> (r: Option<u32>)
    ensures
        r == spec_parse_u32(s@),
{
    match parse_u64(s) {
        Some(v) => if v <= u32::MAX as u64 {
            Some(v as u32)
        } else {
            None
        },
        None => None,
    }
}

/// Finds a labelled field in a line-oriented response: the first line
/// whose trimmed form starts with `label` yields what follows the label,
/// trimmed.
pub fn field_value(resp: &Vec<u8>, label: &Vec<u8>) -> (r: Option<Vec<u8>>)
    ensures
        r.deep_view() == spec_field_value(resp@, label@),
{
    let lines = split_lines(resp);
    let ghost ldv = lines.deep_view();
    proof {
        assert(ldv.subrange(0, ldv.len() as int) =~= ldv);
    }
    let mut k: usize = 0;
    while k < lines.len()
        invariant
            ldv == lines.deep_view(),
            ldv == spec_lines(resp@),
            ldv.len() == lines@.len(),
            k <= ldv.len(),
            spec_find_field(ldv.subrange(k as int, ldv.len() as int), label@) == spec_find_field(
                ldv,
                label@,
            ),
        decreases ldv.len() - k,
    {
        let ghost tail = ldv.subrange(k as int, ldv.len() as int);
        proof {
            assert(tail[0] == ldv[k as int]);
            assert(ldv[k as int] == lines@[k as int].deep_view());
            assert(lines@[k as int].deep_view() =~= lines@[k as int]@);
            assert(tail.drop_first() =~= ldv.subrange(k + 1, ldv.len() as int));
        }
        let t = trim_bytes(&lines[k]);
        proof {
            assert(t@ == spec_trim(tail[0]));
        }
        if starts_with_bytes(&t, label) {
            let rest = copy_range(&t, label.len(), t.len());
            let trimmed = trim_bytes(&rest);
            proof {
                assert(spec_find_field(tail, label@) == Some(spec_trim(t@.subrange(
                    label@.len() as int,
                    t@.len() as int,
                ))));
                assert(trimmed.deep_view() =~= trimmed@);
            }
            return Some(trimmed);
        }
        k = k + 1;
    }
    proof {
        assert(ldv.subrange(ldv.len() as int, ldv.len() as int) =~= Seq::<Seq<u8>>::empty());
    }
    None
}

} // verus!
