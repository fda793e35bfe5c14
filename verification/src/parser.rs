//! The request parser.
//!
//! A request line is the raw bytes `"<type>:<seed>\n"`. Parsing trims
//! surrounding whitespace, splits the line at its first colon for the type
//! field and after its last colon for the seed field, reads both fields as
//! unsigned decimal numbers, and decodes the type ordinal. Any failure means
//! the request is uncomputable. The whitespace recognised here is the ASCII
//! kind: space, tab, line feed, vertical tab, form feed and carriage return.

use vstd::prelude::*;
use crate::task::TaskType;

verus! {

/// The bytes trimming removes: ASCII whitespace.
pub open spec fn is_space(b: u8) -> bool {
    b == 32 || b == 9 || b == 10 || b == 11 || b == 12 || b == 13
}

fn space(b: u8) -> (r: bool)
    ensures
        r == is_space(b),
{
    b == 32 || b == 9 || b == 10 || b == 11 || b == 12 || b == 13
}

/// The sequence with its leading whitespace removed.
pub open spec fn trim_front(s: Seq<u8>) -> Seq<u8>
    decreases s.len(),
{
    if s.len() > 0 && is_space(s[0]) {
        trim_front(s.drop_first())
    } else {
        s
    }
}

/// The sequence with its trailing whitespace removed.
pub open spec fn trim_back(s: Seq<u8>) -> Seq<u8>
    decreases s.len(),
{
    if s.len() > 0 && is_space(s.last()) {
        trim_back(s.drop_last())
    } else {
        s
    }
}

/// The sequence with whitespace removed from both ends.
pub open spec fn trimmed(s: Seq<u8>) -> Seq<u8> {
    trim_back(trim_front(s))
}

/// The index of the first colon, or the length if there is none.
pub open spec fn find_colon(s: Seq<u8>) -> int
    decreases s.len(),
{
    if s.len() == 0 {
        0
    } else if s[0] == 58 {
        0
    } else {
        1 + find_colon(s.drop_first())
    }
}

/// The index of the last colon, or -1 if there is none.
pub open spec fn rfind_colon(s: Seq<u8>) -> int
    decreases s.len(),
{
    if s.len() == 0 {
        -1
    } else if s.last() == 58 {
        s.len() - 1
    } else {
        rfind_colon(s.drop_last())
    }
}

pub open spec fn is_digit(b: u8) -> bool {
    48 <= b && b <= 57
}

pub open spec fn all_digits(s: Seq<u8>) -> bool {
    forall|i: int| 0 <= i < s.len() ==> is_digit(s[i])
}

/// The number a digit string denotes.
pub open spec fn dec_value(s: Seq<u8>) -> nat
    decreases s.len(),
{
    if s.len() == 0 {
        0
    } else {
        dec_value(s.drop_last()) * 10 + (s.last() - 48) as nat
    }
}

/// The digits of an unsigned decimal field: a single leading plus sign is
/// allowed and skipped, as the standard integer parsers do.
pub open spec fn digits_of(s: Seq<u8>) -> Seq<u8> {
    if s.len() >= 1 && s[0] == 43 {
        s.drop_first()
    } else {
        s
    }
}

/// What parsing a field as an unsigned 64-bit decimal yields.
pub open spec fn parse_u64_spec(s: Seq<u8>) -> Option<u64> {
    let d = digits_of(s);
    if d.len() > 0 && all_digits(d) && dec_value(d) <= u64::MAX {
        Some(dec_value(d) as u64)
    } else {
        None
    }
}

/// What parsing a field as an unsigned 8-bit decimal yields.
pub open spec fn parse_u8_spec(s: Seq<u8>) -> Option<u8> {
    let d = digits_of(s);
    if d.len() > 0 && all_digits(d) && dec_value(d) <= 255 {
        Some(dec_value(d) as u8)
    } else {
        None
    }
}

/// What parsing a whole request line yields: the task type and the seed,
/// or nothing if any step fails.
pub open spec fn parse_request_spec(line: Seq<u8>) -> Option<(TaskType, u64)> {
    let t = trimmed(line);
    let head = t.subrange(0, find_colon(t));
    let tail = t.subrange(rfind_colon(t) + 1, t.len() as int);
    match parse_u8_spec(head) {
        None => None,
        Some(ordinal) => match parse_u64_spec(tail) {
            None => None,
            Some(seed) => match TaskType::spec_from_u8(ordinal) {
                None => None,
                Some(t) => Some((t, seed)),
            },
        },
    }
}

proof fn lemma_trim_front_is_subrange(s: Seq<u8>, k: int)
    requires
        0 <= k <= s.len(),
        forall|i: int| 0 <= i < k ==> is_space(s[i]),
        k == s.len() || !is_space(s[k]),
    ensures
        trim_front(s) == s.subrange(k, s.len() as int),
    decreases k,
{
    if k == 0 {
        assert(trim_front(s) == s.subrange(0, s.len() as int)) by {
            if s.len() > 0 && is_space(s[0]) {
                assert(false);
            }
            assert(s =~= s.subrange(0, s.len() as int));
        }
    } else {
        let d = s.drop_first();
        assert(trim_front(s) == trim_front(d));
        lemma_trim_front_is_subrange(d, k - 1);
        assert(d.subrange(k - 1, d.len() as int) =~= s.subrange(k, s.len() as int));
    }
}

proof fn lemma_trim_back_is_subrange(s: Seq<u8>, k: int)
    requires
        0 <= k <= s.len(),
        forall|i: int| k <= i < s.len() ==> is_space(s[i]),
        k == 0 || !is_space(s[k - 1]),
    ensures
        trim_back(s) == s.subrange(0, k),
    decreases s.len() - k,
{
    if k == s.len() {
        assert(trim_back(s) == s.subrange(0, k)) by {
            if s.len() > 0 && is_space(s.last()) {
                assert(false);
            }
            assert(s =~= s.subrange(0, s.len() as int));
        }
    } else {
        let d = s.drop_last();
        assert(is_space(s.last()));
        assert(trim_back(s) == trim_back(d));
        lemma_trim_back_is_subrange(d, k);
        assert(d.subrange(0, k) =~= s.subrange(0, k));
    }
}

pub proof fn lemma_find_colon_at(s: Seq<u8>, k: int)
    requires
        0 <= k <= s.len(),
        forall|i: int| 0 <= i < k ==> s[i] != 58,
        k == s.len() || s[k] == 58,
    ensures
        find_colon(s) == k,
    decreases k,
{
    if k == 0 {
    } else {
        let d = s.drop_first();
        lemma_find_colon_at(d, k - 1);
    }
}

pub proof fn lemma_rfind_colon_at(s: Seq<u8>, k: int)
    requires
        -1 <= k < s.len(),
        forall|i: int| k < i < s.len() ==> s[i] != 58,
        k == -1 || s[k] == 58,
    ensures
        rfind_colon(s) == k,
    decreases s.len() - k,
{
    if k == s.len() - 1 {
    } else {
        let d = s.drop_last();
        lemma_rfind_colon_at(d, k);
    }
}

/// A digit string is worth at least as much as any of its prefixes.
proof fn lemma_dec_value_prefix(s: Seq<u8>, k: int)
    requires
        0 <= k <= s.len(),
    ensures
        dec_value(s) >= dec_value(s.subrange(0, k)),
    decreases s.len() - k,
{
    if k == s.len() {
        assert(s.subrange(0, k) =~= s);
    } else {
        lemma_dec_value_prefix(s, k + 1);
        let p = s.subrange(0, k + 1);
        assert(p.drop_last() =~= s.subrange(0, k));
        assert(dec_value(p) == dec_value(s.subrange(0, k)) * 10 + (p.last() - 48) as nat);
        assert(dec_value(s.subrange(0, k)) * 10 >= dec_value(s.subrange(0, k))) by (nonlinear_arith);
    }
}

proof fn lemma_trim_front_pad(p: Seq<u8>, s: Seq<u8>)
    requires
        forall|i: int| 0 <= i < p.len() ==> is_space(p[i]),
    ensures
        trim_front(p + s) == trim_front(s),
    decreases p.len(),
{
    if p.len() == 0 {
        assert(p + s =~= s);
    } else {
        assert((p + s)[0] == p[0]);
        assert((p + s).drop_first() =~= p.drop_first() + s);
        lemma_trim_front_pad(p.drop_first(), s);
    }
}

proof fn lemma_trim_back_pad(s: Seq<u8>, q: Seq<u8>)
    requires
        forall|i: int| 0 <= i < q.len() ==> is_space(q[i]),
    ensures
        trim_back(s + q) == trim_back(s),
    decreases q.len(),
{
    if q.len() == 0 {
        assert(s + q =~= s);
    } else {
        assert((s + q).last() == q.last());
        assert((s + q).drop_last() =~= s + q.drop_last());
        lemma_trim_back_pad(s, q.drop_last());
    }
}

proof fn lemma_trim_front_concat(s: Seq<u8>, q: Seq<u8>)
    requires
        exists|i: int| 0 <= i < s.len() && !is_space(s[i]),
    ensures
        trim_front(s + q) == trim_front(s) + q,
    decreases s.len(),
{
    if !is_space(s[0]) {
        assert((s + q)[0] == s[0]);
        assert(trim_front(s + q) == s + q);
    } else {
        let i = choose|i: int| 0 <= i < s.len() && !is_space(s[i]);
        assert(s.drop_first()[i - 1] == s[i]);
        assert((s + q)[0] == s[0]);
        assert((s + q).drop_first() =~= s.drop_first() + q);
        lemma_trim_front_concat(s.drop_first(), q);
    }
}

proof fn lemma_trim_front_all_space(s: Seq<u8>)
    requires
        forall|i: int| 0 <= i < s.len() ==> is_space(s[i]),
    ensures
        trim_front(s) == Seq::<u8>::empty(),
    decreases s.len(),
{
    if s.len() > 0 {
        lemma_trim_front_all_space(s.drop_first());
    } else {
        assert(s =~= Seq::<u8>::empty());
    }
}

/// Whitespace around a request line changes nothing: the line parses to the
/// same request as its padded forms. The cache key is still the raw bytes,
/// so padded forms are cached separately — only the parse agrees.
pub proof fn lemma_parse_ignores_padding(line: Seq<u8>, front: Seq<u8>, back: Seq<u8>)
    requires
        forall|i: int| 0 <= i < front.len() ==> is_space(front[i]),
        forall|i: int| 0 <= i < back.len() ==> is_space(back[i]),
    ensures
        trimmed(front + line + back) == trimmed(line),
        parse_request_spec(front + line + back) == parse_request_spec(line),
{
    assert(front + line + back =~= front + (line + back));
    lemma_trim_front_pad(front, line + back);
    if exists|i: int| 0 <= i < line.len() && !is_space(line[i]) {
        lemma_trim_front_concat(line, back);
        lemma_trim_back_pad(trim_front(line), back);
    } else {
        lemma_trim_front_pad(line, back);
        lemma_trim_front_all_space(back);
        lemma_trim_front_all_space(line);
    }
}

/// Parse the byte range `[lo, hi)` of `s` as an unsigned 64-bit decimal.
fn parse_u64_range(s: &[u8], lo: usize, hi: usize) -> (r: Option<u64>)
    requires
        lo <= hi <= s@.len(),
    ensures
        r == parse_u64_spec(s@.subrange(lo as int, hi as int)),
{
    let ghost field = s@.subrange(lo as int, hi as int);
    let mut start = lo;
    if lo < hi && s[lo] == 43 {
        start = lo + 1;
    }
    let ghost d = field.subrange(start - lo, field.len() as int);
    proof {
        assert(digits_of(field) =~= d);
        assert(d =~= s@.subrange(start as int, hi as int));
    }
    if start == hi {
        return None;
    }
    let mut acc: u64 = 0;
    let mut i = start;
    while i < hi
        invariant
            start <= i <= hi <= s@.len(),
            start < hi,
            lo <= start,
            field == s@.subrange(lo as int, hi as int),
            digits_of(field) == d,
            d == s@.subrange(start as int, hi as int),
            all_digits(d.subrange(0, i - start)),
            acc == dec_value(d.subrange(0, i - start)),
        decreases hi - i,
    {
        let b = s[i];
        if b < 48 || b > 57 {
            proof {
                assert(d[i - start] == b);
                assert(!all_digits(d));
            }
            return None;
        }
        let digit = (b - 48) as u64;
        if acc > (u64::MAX - digit) / 10 {
            proof {
                let p = d.subrange(0, i - start + 1);
                assert(p.drop_last() =~= d.subrange(0, i - start));
                assert(p.last() == b);
                assert(dec_value(p) == acc * 10 + digit);
                assert(acc * 10 + digit > u64::MAX) by (nonlinear_arith)
                    requires
                        acc > (u64::MAX - digit) / 10,
                        digit <= 9,
                ;
                lemma_dec_value_prefix(d, i - start + 1);
            }
            return None;
        }
        proof {
            let p = d.subrange(0, i - start + 1);
            assert(p.drop_last() =~= d.subrange(0, i - start));
            assert(p.last() == b);
            assert(acc * 10 + digit <= u64::MAX) by (nonlinear_arith)
                requires
                    acc <= (u64::MAX - digit) / 10,
                    digit <= 9,
            ;
        }
        acc = acc * 10 + digit;
        i = i + 1;
    }
    proof {
        assert(d.subrange(0, d.len() as int) =~= d);
    }
    Some(acc)
}

/// Parse a whole request line: trim, split at the colons, read the two
/// decimal fields, decode the ordinal.
#[verifier::rlimit(60)]
pub fn parse_request(line: &[u8]) -> (r: Option<(TaskType, u64)>)
    ensures
        r == parse_request_spec(line@),
{
    let n = line.len();
    // Trim: find the first and last non-whitespace positions.
    let mut lo: usize = 0;
    while lo < n && space(line[lo])
        invariant
            lo <= n,
            n == line@.len(),
            forall|i: int| 0 <= i < lo ==> is_space(line@[i]),
        decreases n - lo,
    {
        lo = lo + 1;
    }
    proof {
        lemma_trim_front_is_subrange(line@, lo as int);
    }
    let ghost front = line@.subrange(lo as int, n as int);
    let mut hi: usize = n;
    while hi > lo && space(line[hi - 1])
        invariant
            lo <= hi <= n,
            n == line@.len(),
            forall|i: int| hi <= i < n ==> is_space(line@[i]),
        decreases hi,
    {
        hi = hi - 1;
    }
    let ghost t = line@.subrange(lo as int, hi as int);
    proof {
        assert(forall|i: int| hi - lo <= i < front.len() ==> is_space(front[i]));
        lemma_trim_back_is_subrange(front, hi - lo);
        assert(front.subrange(0, hi - lo) =~= t);
        assert(trimmed(line@) == t);
    }
    // Find the first and last colon inside the trimmed range.
    let mut c1: usize = lo;
    while c1 < hi && line[c1] != 58
        invariant
            lo <= c1 <= hi <= n,
            n == line@.len(),
            forall|i: int| lo <= i < c1 ==> line@[i] != 58,
        decreases hi - c1,
    {
        c1 = c1 + 1;
    }
    proof {
        lemma_find_colon_at(t, c1 - lo);
    }
    let mut c2: usize = hi;
    while c2 > lo && line[c2 - 1] != 58
        invariant
            lo <= c2 <= hi <= n,
            n == line@.len(),
            forall|i: int| c2 <= i < hi ==> line@[i] != 58,
        decreases c2,
    {
        c2 = c2 - 1;
    }
    proof {
        lemma_rfind_colon_at(t, c2 - 1 - lo);
        assert(t.subrange(0, c1 - lo) =~= line@.subrange(lo as int, c1 as int));
        assert(t.subrange(c2 - lo, t.len() as int) =~= line@.subrange(c2 as int, hi as int));
    }
    let head = parse_u64_range(line, lo, c1);
    let ordinal = match head {
        Some(v) if v <= 255 => Some(v as u8),
        _ => None,
    };
    proof {
        let h = t.subrange(0, c1 - lo);
        assert(parse_u8_spec(h) == (match parse_u64_spec(h) {
            Some(v) => if v <= 255 { Some(v as u8) } else { None },
            None => None,
        })) by {
            let dg = digits_of(h);
            if dg.len() > 0 && all_digits(dg) && dec_value(dg) <= u64::MAX {
            }
        }
    }
    match ordinal {
        None => None,
        Some(ordinal) => {
            let seed = parse_u64_range(line, c2, hi);
            match seed {
                None => None,
                Some(seed) => match TaskType::from_u8(ordinal) {
                    None => None,
                    Some(t) => Some((t, seed)),
                },
            }
        },
    }
}

} // verus!
