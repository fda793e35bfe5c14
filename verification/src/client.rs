//! Client-side request building.
//!
//! The benchmarking driver sends request lines it builds from a task type
//! ordinal and a seed, and folds the bytes it collects into a checksum. The
//! line layout and the fold are the part of the driver worth a contract; the
//! sockets and threads around them belong to the runtime.

use vstd::prelude::*;
use crate::parser::dec_value;
use crate::parser::digits_of;
use crate::parser::is_digit;
use crate::parser::is_space;
use crate::parser::lemma_find_colon_at;
use crate::parser::lemma_parse_ignores_padding;
use crate::parser::lemma_rfind_colon_at;
use crate::parser::parse_request_spec;
use crate::parser::parse_u64_spec;
use crate::parser::parse_u8_spec;
use crate::parser::trim_back;
use crate::parser::trim_front;
use crate::parser::trimmed;
use crate::task::TaskType;

verus! {

/// The decimal digits of a number, most significant first.
pub open spec fn dec_digits(n: nat) -> Seq<u8>
    decreases n,
{
    if n < 10 {
        seq![(48 + n) as u8]
    } else {
        dec_digits(n / 10) + seq![(48 + n % 10) as u8]
    }
}

/// The raw bytes of a request line for a type ordinal and a seed:
/// `"<type>:<seed>\n"`.
pub open spec fn request_line(typ: u8, seed: u64) -> Seq<u8> {
    dec_digits(typ as nat) + seq![58u8] + dec_digits(seed as nat) + seq![10u8]
}

/// Digit strings written by `dec_digits` denote the number they came from.
pub proof fn lemma_dec_digits_value(n: nat)
    ensures
        dec_digits(n).len() >= 1,
        forall|i: int| 0 <= i < dec_digits(n).len() ==> is_digit(#[trigger] dec_digits(n)[i]),
        dec_value(dec_digits(n)) == n,
    decreases n,
{
    if n < 10 {
        let s = dec_digits(n);
        assert(s.len() == 1);
        assert(s.last() == (48 + n) as u8);
        assert(s.drop_last() =~= Seq::<u8>::empty());
        assert(dec_value(s.drop_last()) == 0);
        assert(dec_value(s) == dec_value(s.drop_last()) * 10 + (s.last() - 48) as nat);
        assert(dec_value(s) == (s.last() - 48) as nat);
    } else {
        lemma_dec_digits_value(n / 10);
        let s = dec_digits(n);
        assert(s.drop_last() =~= dec_digits(n / 10));
        assert(dec_value(s) == dec_value(dec_digits(n / 10)) * 10 + (s.last() - 48) as nat);
        assert((n / 10) * 10 + n % 10 == n) by (nonlinear_arith);
    }
}

fn push_dec(out: &mut Vec<u8>, n: u64)
    ensures
        final(out)@ == old(out)@ + dec_digits(n as nat),
{
    let ghost prefix = out@;
    let mut rev: Vec<u8> = Vec::new();
    let mut m: u64 = n;
    let mut done = false;
    while !done
        invariant
            !done ==> dec_digits(n as nat) == dec_digits(m as nat) + rev@,
            done ==> dec_digits(n as nat) == rev@,
        decreases m, (if done { 0int } else { 1int }),
    {
        let d = (48 + (m % 10)) as u8;
        let ghost rev_before = rev@;
        rev.insert(0, d);
        proof {
            assert(rev@ =~= seq![d] + rev_before);
        }
        if m < 10 {
            done = true;
            proof {
                assert(dec_digits(m as nat) =~= seq![d]);
                assert(seq![d] + rev_before =~= dec_digits(m as nat) + rev_before);
            }
        } else {
            m = m / 10;
            proof {
                assert(dec_digits((10 * (m as nat) + n as nat % 10) / 10) == dec_digits(
                    m as nat,
                ));
                assert(dec_digits(((m * 10 + 0) as nat) / 10) == dec_digits(m as nat));
            }
        }
    }
    let mut i: usize = 0;
    let k = rev.len();
    while i < k
        invariant
            i <= k,
            k == rev@.len(),
            out@ == prefix + rev@.subrange(0, i as int),
        decreases k - i,
    {
        out.push(rev[i]);
        proof {
            assert(prefix + rev@.subrange(0, i as int) + seq![rev@[i as int]] =~= prefix
                + rev@.subrange(0, i + 1));
        }
        i = i + 1;
    }
    proof {
        assert(rev@.subrange(0, k as int) =~= rev@);
    }
}

/// The driver's message builder: the raw request line for a type ordinal
/// and a seed, exactly the bytes the parser reads back.
pub fn format_request(typ: u8, seed: u64) -> (r: Vec<u8>)
    ensures
        r@ == request_line(typ, seed),
{
    let mut out: Vec<u8> = Vec::new();
    proof {
        assert(Seq::<u8>::empty() + dec_digits(typ as nat) =~= dec_digits(typ as nat));
    }
    push_dec(&mut out, typ as u64);
    out.push(58);
    push_dec(&mut out, seed);
    out.push(10);
    proof {
        assert(out@ =~= request_line(typ, seed));
    }
    out
}

/// A request line built by the driver parses back to exactly the type and
/// seed it was built from, valid or not: a built line is never mangled, and
/// an invalid ordinal built into a line is rejected as such.
pub proof fn lemma_request_line_round_trip(typ: u8, seed: u64)
    ensures
        parse_request_spec(request_line(typ, seed)) == (match TaskType::spec_from_u8(typ) {
            Some(t) => Some((t, seed)),
            None => None,
        }),
{
    let dt = dec_digits(typ as nat);
    let ds = dec_digits(seed as nat);
    let body = dt + seq![58u8] + ds;
    let line = request_line(typ, seed);
    lemma_dec_digits_value(typ as nat);
    lemma_dec_digits_value(seed as nat);
    assert(line =~= Seq::<u8>::empty() + body + seq![10u8]);
    lemma_parse_ignores_padding(body, Seq::<u8>::empty(), seq![10u8]);
    assert(body[0] == dt[0]);
    assert(!is_space(body[0]));
    assert(trim_front(body) == body);
    assert(body.last() == ds.last());
    assert(!is_space(body.last()));
    assert(trim_back(body) == body);
    assert(trimmed(line) == body);
    let dl = dt.len() as int;
    assert forall|i: int| 0 <= i < dl implies body[i] != 58 by {
        assert(body[i] == dt[i]);
        assert(is_digit(dt[i]));
    };
    assert(body[dl] == 58);
    lemma_find_colon_at(body, dl);
    assert forall|i: int| dl < i < body.len() implies body[i] != 58 by {
        assert(body[i] == ds[i - dl - 1]);
        assert(is_digit(ds[i - dl - 1]));
    };
    lemma_rfind_colon_at(body, dl);
    assert(body.subrange(0, dl) =~= dt);
    assert(body.subrange(dl + 1, body.len() as int) =~= ds);
    assert(dt[0] != 43);
    assert(digits_of(dt) == dt);
    assert(parse_u8_spec(dt) == Some(typ));
    assert(ds[0] != 43);
    assert(digits_of(ds) == ds);
    assert(parse_u64_spec(ds) == Some(seed));
}

/// The sum a run of collected result bytes folds to.
pub open spec fn byte_sum(s: Seq<u8>) -> int
    decreases s.len(),
{
    if s.len() == 0 {
        0
    } else {
        byte_sum(s.drop_last()) + s.last()
    }
}

/// The driver's final fold: the sum of every client's last byte, widened so
/// it cannot overflow.
pub fn checksum(results: &Vec<u8>) -> (r: u64)
    requires
        results@.len() <= 0xffff_ffff,
    ensures
        r == byte_sum(results@),
{
    let mut acc: u64 = 0;
    let mut i: usize = 0;
    while i < results.len()
        invariant
            i <= results@.len(),
            results@.len() <= 0xffff_ffff,
            acc == byte_sum(results@.subrange(0, i as int)),
            acc <= 255 * i,
        decreases results@.len() - i,
    {
        proof {
            assert(results@.subrange(0, i + 1).drop_last() =~= results@.subrange(0, i as int));
        }
        acc = acc + results[i] as u64;
        i = i + 1;
    }
    proof {
        assert(results@.subrange(0, i as int) =~= results@);
    }
    acc
}

} // verus!
