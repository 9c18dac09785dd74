//! Parsing a scalar field from its textual form: three per-axis sample
//! counts followed by exactly one decimal value per sample, all separated by
//! whitespace. Every way a file can be malformed is rejected with a distinct
//! error before any extraction begins.

use vstd::prelude::*;
use crate::SAMPLE_MAX;
use crate::field::{DIM_MAX, ScalarField, lemma_dims_product_bounds};

verus! {

/// Largest total sample count a file may declare.
pub const FILE_SAMPLES_MAX: u64 = 0x4000000;

/// Why a field file was rejected.
#[derive(Clone, Copy, Debug, PartialEq, Eq)]
pub enum ParseError {
    /// Fewer than three tokens: no complete dimension header.
    MissingHeader,
    /// A dimension token is not a plain count between 1 and `DIM_MAX`.
    BadDimension,
    /// The declared dimensions multiply to more than `FILE_SAMPLES_MAX`.
    DimensionsTooLarge,
    /// The token count differs from three plus the declared sample count.
    WrongValueCount,
    /// A sample token is not a decimal number.
    BadValue,
    /// A sample's magnitude exceeds `SAMPLE_MAX`.
    ValueOutOfRange,
}

/// ASCII whitespace separating tokens: space, tab, line feed, carriage
/// return.
pub open spec fn spec_is_ws(b: u8) -> bool {
    b == 32 || b == 9 || b == 10 || b == 13
}

/// Tokenizer state after reading the first `i` bytes: the finished tokens
/// and the token still being read.
pub open spec fn spec_tok_state(s: Seq<u8>, i: int) -> (Seq<Seq<u8>>, Seq<u8>)
    decreases i,
{
    if i <= 0 {
        (Seq::empty(), Seq::empty())
    } else {
        let st = spec_tok_state(s, i - 1);
        let b = s[i - 1];
        if spec_is_ws(b) {
            if st.1.len() > 0 {
                (st.0.push(st.1), Seq::empty())
            } else {
                st
            }
        } else {
            (st.0, st.1.push(b))
        }
    }
}

/// The maximal whitespace-separated tokens of a byte sequence, in order.
pub open spec fn spec_tokens(s: Seq<u8>) -> Seq<Seq<u8>> {
    let st = spec_tok_state(s, s.len() as int);
    if st.1.len() > 0 {
        st.0.push(st.1)
    } else {
        st.0
    }
}

/// An ASCII decimal digit.
pub open spec fn spec_is_digit(b: u8) -> bool {
    48 <= b <= 57
}

/// Whether every byte of the sequence is a digit.
pub open spec fn spec_all_digits(t: Seq<u8>) -> bool {
    forall|i: int| 0 <= i < t.len() ==> spec_is_digit(#[trigger] t[i])
}

/// The number written by a digit sequence, most significant first.
pub open spec fn spec_digits_val(t: Seq<u8>) -> int
    decreases t.len(),
{
    if t.len() == 0 {
        0
    } else {
        spec_digits_val(t.drop_last()) * 10 + (t.last() - 48)
    }
}

/// Ten to the `k`-th power.
pub open spec fn spec_pow10(k: int) -> int
    decreases k,
{
    if k <= 0 {
        1
    } else {
        10 * spec_pow10(k - 1)
    }
}

/// A digit string writes a nonnegative number below ten to its length.
proof fn lemma_digits_val_bound(t: Seq<u8>)
    requires
        spec_all_digits(t),
    ensures
        0 <= spec_digits_val(t) < spec_pow10(t.len() as int),
    decreases t.len(),
{
    if t.len() > 0 {
        assert(spec_all_digits(t.drop_last()));
        lemma_digits_val_bound(t.drop_last());
        assert(spec_digits_val(t.drop_last()) * 10 + 9 < spec_pow10(t.len() as int))
            by (nonlinear_arith)
            requires
                spec_digits_val(t.drop_last()) < spec_pow10(t.len() as int - 1)
                    && spec_pow10(t.len() as int) == 10 * spec_pow10(t.len() as int - 1)
                    && 0 <= spec_digits_val(t.drop_last());
    }
}

/// Powers of ten do not decrease.
proof fn lemma_pow10_le(a: int, b: int)
    requires
        0 <= a <= b,
    ensures
        1 <= spec_pow10(a) <= spec_pow10(b),
    decreases b,
{
    if a < b {
        lemma_pow10_le(a, b - 1);
    } else if a > 0 {
        lemma_pow10_le(a - 1, a - 1);
    }
}

/// Index of the first `.` in the sequence at or after `i`, or the length.
pub open spec fn spec_dot_pos(t: Seq<u8>, i: int) -> int
    decreases t.len() - i,
{
    if i < 0 || i >= t.len() {
        t.len() as int
    } else if t[i] == 46 {
        i
    } else {
        spec_dot_pos(t, i + 1)
    }
}

/// Scanning past non-dots does not change the first dot.
proof fn lemma_dot_pos_advance(t: Seq<u8>, j: int)
    requires
        0 <= j <= t.len(),
        forall|k: int| 0 <= k < j ==> t[k] != 46,
    ensures
        spec_dot_pos(t, 0) == spec_dot_pos(t, j),
    decreases j,
{
    if j > 0 {
        lemma_dot_pos_advance(t, j - 1);
    }
}

/// A token without its sign.
pub open spec fn spec_num_unsigned(t: Seq<u8>) -> Seq<u8> {
    if t.len() > 0 && t[0] == 45 {
        t.skip(1)
    } else {
        t
    }
}

/// A decimal number token: an optional minus sign, one to thirteen integer
/// digits, and optionally a dot followed by one to thirteen fraction digits.
pub open spec fn spec_is_number_token(t: Seq<u8>) -> bool {
    let u = spec_num_unsigned(t);
    let p = spec_dot_pos(u, 0);
    &&& u.len() > 0
    &&& 1 <= p <= 13
    &&& spec_all_digits(u.subrange(0, p))
    &&& (p == u.len()
        || (p + 1 < u.len() && u.len() - p - 1 <= 13
            && spec_all_digits(u.subrange(p + 1, u.len() as int))))
}

/// The fixed-point value a number token writes: its magnitude scaled by
/// `FP_ONE` and truncated toward zero.
pub open spec fn spec_num_val(t: Seq<u8>) -> int {
    let u = spec_num_unsigned(t);
    let p = spec_dot_pos(u, 0);
    let ip = spec_digits_val(u.subrange(0, p));
    let fl: int = if p < u.len() { u.len() - p - 1 } else { 0 };
    let fv: int = if p < u.len() { spec_digits_val(u.subrange(p + 1, u.len() as int)) } else { 0 };
    let mag = (ip * spec_pow10(fl) + fv) * 65536 / spec_pow10(fl);
    if t.len() > 0 && t[0] == 45 {
        -mag
    } else {
        mag
    }
}

/// A dimension token: one to seven digits writing a count between 1 and
/// `DIM_MAX`.
pub open spec fn spec_is_dim_token(t: Seq<u8>) -> bool {
    &&& 1 <= t.len() <= 7
    &&& spec_all_digits(t)
    &&& 1 <= spec_digits_val(t) <= DIM_MAX
}

/// Whether a sample token is well formed and within range.
pub open spec fn spec_value_ok(t: Seq<u8>) -> bool {
    &&& spec_is_number_token(t)
    &&& -SAMPLE_MAX <= spec_num_val(t) <= SAMPLE_MAX
}

/// Whether the first three tokens declare valid dimensions.
pub open spec fn spec_dims_ok(toks: Seq<Seq<u8>>) -> bool {
    &&& toks.len() >= 3
    &&& spec_is_dim_token(toks[0])
    &&& spec_is_dim_token(toks[1])
    &&& spec_is_dim_token(toks[2])
}

/// The total sample count declared by the header.
pub open spec fn spec_decl_count(toks: Seq<Seq<u8>>) -> int {
    spec_digits_val(toks[0]) * spec_digits_val(toks[1]) * spec_digits_val(toks[2])
}


/// Concrete powers of ten used by the digit loops.
proof fn lemma_pow10_values()
    ensures
        spec_pow10(7) == 10000000,
        spec_pow10(13) == 10000000000000,
{
    reveal_with_fuel(spec_pow10, 15);
}

/// Splits the input into its whitespace-separated tokens.
#[verifier::loop_isolation(false)]
fn tokenize(input: &[u8]) -> (out: Vec<Vec<u8>>)
    ensures
        out@.len() == spec_tokens(input@).len(),
        forall|j: int| 0 <= j < out@.len() ==> #[trigger] out@[j]@ == spec_tokens(input@)[j],
{
    let mut out: Vec<Vec<u8>> = Vec::new();
    let mut cur: Vec<u8> = Vec::new();
    let mut i: usize = 0;
    while i < input.len()
        invariant
            i <= input@.len(),
            out@.len() == spec_tok_state(input@, i as int).0.len(),
            forall|j: int| 0 <= j < out@.len()
                ==> #[trigger] out@[j]@ == spec_tok_state(input@, i as int).0[j],
            cur@ == spec_tok_state(input@, i as int).1,
        decreases input@.len() - i,
    {
        let b = input[i];
        if b == 32 || b == 9 || b == 10 || b == 13 {
            if cur.len() > 0 {
                out.push(cur);
                cur = Vec::new();
            }
        } else {
            cur.push(b);
        }
        i = i + 1;
    }
    if cur.len() > 0 {
        out.push(cur);
    }
    out
}

/// Parses a dimension token; `None` exactly when it is not a valid count.
#[verifier::loop_isolation(false)]
fn parse_dim(t: &Vec<u8>) -> (r: Option<usize>)
    ensures
        match r {
            Some(v) => spec_is_dim_token(t@) && v == spec_digits_val(t@) && 1 <= v <= DIM_MAX,
            None => !spec_is_dim_token(t@),
        },
{
    if t.len() < 1 || t.len() > 7 {
        return None;
    }
    let mut val: u64 = 0;
    let mut i: usize = 0;
    while i < t.len()
        invariant
            i <= t@.len(),
            1 <= t@.len() <= 7,
            spec_all_digits(t@.subrange(0, i as int)),
            val == spec_digits_val(t@.subrange(0, i as int)),
            val < 10000000,
        decreases t@.len() - i,
    {
        let b = t[i];
        if b < 48 || b > 57 {
            proof {
                assert(t@.subrange(0, t@.len() as int) =~= t@);
                assert(!spec_is_digit(t@[i as int]));
            }
            return None;
        }
        proof {
            lemma_pow10_values();
            assert forall|k: int| 0 <= k < i + 1
                implies spec_is_digit(#[trigger] t@.subrange(0, i + 1)[k]) by {
                if k < i {
                    assert(t@.subrange(0, i + 1)[k] == t@.subrange(0, i as int)[k]);
                }
            }
            assert(t@.subrange(0, i as int) =~= t@.subrange(0, i + 1).drop_last());
            lemma_digits_val_bound(t@.subrange(0, i + 1));
            lemma_pow10_le(i + 1, 7);
        }
        val = val * 10 + ((b - 48) as u64);
        i = i + 1;
    }
    proof {
        assert(t@.subrange(0, t@.len() as int) =~= t@);
    }
    if val < 1 || val > 1024 {
        return None;
    }
    Some(val as usize)
}

/// Parses a number token into its fixed-point value; `None` exactly when the
/// token is not a decimal number.
#[verifier::rlimit(100)]
#[verifier::loop_isolation(false)]
fn parse_number(t: &Vec<u8>) -> (r: Option<i64>)
    ensures
        match r {
            Some(v) => spec_is_number_token(t@) && v == spec_num_val(t@),
            None => !spec_is_number_token(t@),
        },
{
    proof {
        lemma_pow10_values();
    }
    let neg: bool = t.len() > 0 && t[0] == 45;
    let start: usize = if neg { 1 } else { 0 };
    let ghost u: Seq<u8> = spec_num_unsigned(t@);
    proof {
        assert(u =~= t@.skip(start as int));
    }
    if t.len() == start {
        return None;
    }
    // find the first dot in the unsigned part
    let mut dp: usize = start;
    while dp < t.len() && t[dp] != 46
        invariant
            start <= dp <= t@.len(),
            start <= t@.len(),
            forall|k: int| 0 <= k < dp - start ==> u[k] != 46,
            u == t@.skip(start as int),
        decreases t@.len() - dp,
    {
        proof {
            assert(u[dp - start] == t@[dp as int]);
        }
        dp = dp + 1;
    }
    proof {
        lemma_dot_pos_advance(u, dp - start as int);
        if dp < t@.len() {
            assert(u[dp - start] == t@[dp as int]);
        }
    }
    let ghost p: int = spec_dot_pos(u, 0);
    proof {
        assert(p == dp - start);
    }
    let ip_len: usize = dp - start;
    if ip_len < 1 || ip_len > 13 {
        return None;
    }
    // integer part digits
    let mut ipv: u64 = 0;
    let mut i: usize = start;
    while i < dp
        invariant
            start <= i <= dp <= t@.len(),
            1 <= dp - start <= 13,
            p == dp - start,
            u == t@.skip(start as int),
            spec_all_digits(u.subrange(0, i - start as int)),
            ipv == spec_digits_val(u.subrange(0, i - start as int)),
            ipv < 10000000000000,
        decreases dp - i,
    {
        let b = t[i];
        proof {
            assert(u[i - start] == t@[i as int]);
        }
        if b < 48 || b > 57 {
            proof {
                assert(u.subrange(0, p)[i - start as int] == u[i - start]);
                assert(!spec_all_digits(u.subrange(0, p)));
            }
            return None;
        }
        proof {
            lemma_pow10_values();
            assert forall|k: int| 0 <= k < i + 1 - start
                implies spec_is_digit(#[trigger] u.subrange(0, i + 1 - start as int)[k]) by {
                assert(u.subrange(0, i + 1 - start as int)[k] == u[k]);
                if k < i - start {
                    assert(u.subrange(0, i - start as int)[k] == u[k]);
                }
            }
            assert(u.subrange(0, i - start as int)
                =~= u.subrange(0, i + 1 - start as int).drop_last());
            lemma_digits_val_bound(u.subrange(0, i + 1 - start as int));
            lemma_pow10_le(i + 1 - start as int, 13);
        }
        ipv = ipv * 10 + ((b - 48) as u64);
        i = i + 1;
    }
    // fraction part digits, if a dot is present
    let ghost fl_spec: int = if p < u.len() { u.len() - p - 1 } else { 0 };
    let mut fl: usize = 0;
    let mut fv: u64 = 0;
    if dp < t.len() {
        if dp + 1 == t.len() || t.len() - (dp + 1) > 13 {
            proof {
                assert(p < u.len());
                assert(u.len() == t@.len() - start);
            }
            return None;
        }
        fl = t.len() - (dp + 1);
        let mut j: usize = dp + 1;
        while j < t.len()
            invariant
                dp + 1 <= j <= t@.len(),
                start <= dp < t@.len(),
                1 <= t@.len() - (dp + 1) <= 13,
                fl == t@.len() - (dp + 1),
                p == dp - start,
                u == t@.skip(start as int),
                spec_all_digits(u.subrange(p + 1, j - start as int)),
                fv == spec_digits_val(u.subrange(p + 1, j - start as int)),
                fv < 10000000000000,
            decreases t@.len() - j,
        {
            let b = t[j];
            proof {
                assert(u[j - start] == t@[j as int]);
            }
            if b < 48 || b > 57 {
                proof {
                    assert(u.subrange(p + 1, u.len() as int)[j - start - (p + 1)]
                        == u[j - start]);
                    assert(!spec_all_digits(u.subrange(p + 1, u.len() as int)));
                }
                return None;
            }
            proof {
                lemma_pow10_values();
                assert forall|k: int| 0 <= k < (j + 1 - start) - (p + 1)
                    implies spec_is_digit(
                        #[trigger] u.subrange(p + 1, j + 1 - start as int)[k]) by {
                    assert(u.subrange(p + 1, j + 1 - start as int)[k] == u[p + 1 + k]);
                    if k < (j - start) - (p + 1) {
                        assert(u.subrange(p + 1, j - start as int)[k] == u[p + 1 + k]);
                    } else {
                        assert(p + 1 + k == j - start);
                    }
                }
                assert(u.subrange(p + 1, j - start as int)
                    =~= u.subrange(p + 1, j + 1 - start as int).drop_last());
                lemma_digits_val_bound(u.subrange(p + 1, j + 1 - start as int));
                lemma_pow10_le(j - dp as int, 13);
            }
            fv = fv * 10 + ((b - 48) as u64);
            j = j + 1;
        }
        proof {
            assert(u.subrange(p + 1, u.len() as int)
                =~= u.subrange(p + 1, t@.len() - start as int));
            assert(fl == fl_spec);
        }
    } else {
        proof {
            assert(p == u.len());
            assert(fl == fl_spec);
        }
    }
    proof {
        assert(u.subrange(0, p) =~= u.subrange(0, dp - start as int));
        assert(spec_is_number_token(t@));
    }
    // ten to the fraction length
    let mut pw: u64 = 1;
    let mut k: usize = 0;
    while k < fl
        invariant
            k <= fl <= 13,
            pw == spec_pow10(k as int),
            1 <= pw <= 10000000000000,
        decreases fl - k,
    {
        proof {
            lemma_pow10_values();
            lemma_pow10_le(k + 1, 13);
        }
        pw = pw * 10;
        k = k + 1;
    }
    proof {
        lemma_pow10_values();
        lemma_pow10_le(fl as int, 13);
        if dp < t@.len() {
            lemma_digits_val_bound(u.subrange(p + 1, u.len() as int));
        }
        assert(fv < pw);
        assert(((ipv as int) * (pw as int) + (fv as int)) < 100000000000000000000000000
            && 0 <= (ipv as int) * (pw as int)) by (nonlinear_arith)
            requires
                0 <= (ipv as int) && (ipv as int) < 10000000000000
                    && 0 <= (fv as int) && (fv as int) < (pw as int)
                    && 1 <= (pw as int) && (pw as int) <= 10000000000000;
        assert(((ipv as int) * (pw as int) + (fv as int)) * 65536 / (pw as int)
            < 655360000000000000
            && 0 <= ((ipv as int) * (pw as int) + (fv as int)) * 65536 / (pw as int))
            by (nonlinear_arith)
            requires
                0 <= (ipv as int) && (ipv as int) < 10000000000000
                    && 0 <= (fv as int) && (fv as int) < (pw as int) && 1 <= (pw as int);
    }
    let magw: u128 = ((ipv as u128) * (pw as u128) + (fv as u128)) * 65536 / (pw as u128);
    let mag: i64 = magw as i64;
    if neg {
        Some(-mag)
    } else {
        Some(mag)
    }
}

/// Parses a field file: the three per-axis sample counts, then exactly one
/// decimal value per sample, all separated by whitespace. Returns the field
/// on success and otherwise says exactly what was wrong; a surplus or
/// missing token is an error, never ignored.
#[verifier::rlimit(100)]
#[verifier::loop_isolation(false)]
pub fn parse_field(input: &[u8]) -> (r: Result<ScalarField, ParseError>)
    ensures
        ({
            let toks = spec_tokens(input@);
            match r {
                Ok(f) => {
                    &&& f.wf()
                    &&& spec_dims_ok(toks)
                    &&& f.d0 == spec_digits_val(toks[0])
                    &&& f.d1 == spec_digits_val(toks[1])
                    &&& f.d2 == spec_digits_val(toks[2])
                    &&& spec_decl_count(toks) <= FILE_SAMPLES_MAX
                    &&& toks.len() == 3 + spec_decl_count(toks)
                    &&& f.data@.len() == spec_decl_count(toks)
                    &&& forall|i: int| 0 <= i < f.data@.len()
                        ==> spec_value_ok(toks[3 + i])
                            && #[trigger] f.data@[i] == spec_num_val(toks[3 + i])
                },
                Err(ParseError::MissingHeader) => toks.len() < 3,
                Err(ParseError::BadDimension) => toks.len() >= 3 && !spec_dims_ok(toks),
                Err(ParseError::DimensionsTooLarge) => {
                    &&& spec_dims_ok(toks)
                    &&& spec_decl_count(toks) > FILE_SAMPLES_MAX
                },
                Err(ParseError::WrongValueCount) => {
                    &&& spec_dims_ok(toks)
                    &&& spec_decl_count(toks) <= FILE_SAMPLES_MAX
                    &&& toks.len() != 3 + spec_decl_count(toks)
                },
                Err(ParseError::BadValue) => {
                    &&& spec_dims_ok(toks)
                    &&& spec_decl_count(toks) <= FILE_SAMPLES_MAX
                    &&& toks.len() == 3 + spec_decl_count(toks)
                    &&& exists|i: int| 3 <= i < toks.len()
                        && !spec_is_number_token(#[trigger] toks[i])
                        && (forall|j: int| 3 <= j < i ==> spec_value_ok(#[trigger] toks[j]))
                },
                Err(ParseError::ValueOutOfRange) => {
                    &&& spec_dims_ok(toks)
                    &&& spec_decl_count(toks) <= FILE_SAMPLES_MAX
                    &&& toks.len() == 3 + spec_decl_count(toks)
                    &&& exists|i: int| 3 <= i < toks.len()
                        && spec_is_number_token(#[trigger] toks[i])
                        && !(-SAMPLE_MAX <= spec_num_val(toks[i]) <= SAMPLE_MAX)
                        && (forall|j: int| 3 <= j < i ==> spec_value_ok(#[trigger] toks[j]))
                },
            }
        }),
{
    let toks = tokenize(input);
    let ghost tseq = spec_tokens(input@);
    if toks.len() < 3 {
        return Err(ParseError::MissingHeader);
    }
    let d0 = match parse_dim(&toks[0]) {
        Some(v) => v,
        None => { return Err(ParseError::BadDimension); },
    };
    let d1 = match parse_dim(&toks[1]) {
        Some(v) => v,
        None => { return Err(ParseError::BadDimension); },
    };
    let d2 = match parse_dim(&toks[2]) {
        Some(v) => v,
        None => { return Err(ParseError::BadDimension); },
    };
    proof {
        lemma_dims_product_bounds(d0 as int, d1 as int, d2 as int);
    }
    let count64: u64 = ((d0 as u64) * (d1 as u64)) * (d2 as u64);
    if count64 > FILE_SAMPLES_MAX {
        return Err(ParseError::DimensionsTooLarge);
    }
    let count: usize = count64 as usize;
    if toks.len() - 3 != count {
        return Err(ParseError::WrongValueCount);
    }
    let mut data: Vec<i64> = Vec::new();
    let mut i: usize = 3;
    while i < toks.len()
        invariant
            3 <= i <= toks@.len(),
            toks@.len() == tseq.len(),
            forall|j: int| 0 <= j < toks@.len() ==> #[trigger] toks@[j]@ == tseq[j],
            data@.len() == i - 3,
            forall|j: int| 3 <= j < i ==> spec_value_ok(#[trigger] tseq[j]),
            forall|j: int| 0 <= j < data@.len()
                ==> #[trigger] data@[j] == spec_num_val(tseq[3 + j]),
            forall|j: int| 0 <= j < data@.len()
                ==> -SAMPLE_MAX <= #[trigger] data@[j] <= SAMPLE_MAX,
        decreases toks@.len() - i,
    {
        let v = match parse_number(&toks[i]) {
            Some(v) => v,
            None => {
                proof {
                    assert(!spec_is_number_token(tseq[i as int])
                        && (forall|j: int| 3 <= j < i ==> spec_value_ok(#[trigger] tseq[j])));
                }
                return Err(ParseError::BadValue);
            },
        };
        if v < -SAMPLE_MAX || v > SAMPLE_MAX {
            proof {
                assert(spec_is_number_token(tseq[i as int])
                    && !(-SAMPLE_MAX <= spec_num_val(tseq[i as int]) <= SAMPLE_MAX)
                    && (forall|j: int| 3 <= j < i ==> spec_value_ok(#[trigger] tseq[j])));
            }
            return Err(ParseError::ValueOutOfRange);
        }
        data.push(v);
        i = i + 1;
    }
    let f = ScalarField { d0, d1, d2, data };
    proof {
        assert(f.wf());
    }
    Ok(f)
}

} // verus!
