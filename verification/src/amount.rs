//! Fixed-point decimal amounts.
//!
//! Monetary amounts are held in micro-units: one currency unit is
//! `SCALE` micro-units. The wire carries amounts as decimal text; parsing
//! is deliberately tolerant, coercing any malformed field to zero so that
//! one bad entry never aborts ingestion of the rest of a batch.

use vstd::prelude::*;

verus! {

/// Micro-units per currency unit.
pub const SCALE: i64 = 1_000_000;

/// Strict bound on the magnitude of any parsed amount, in micro-units:
/// a well-formed literal has fewer than 13 integer digits, so its value
/// is below 10^12 units = 10^18 micro-units.
pub const AMOUNT_MAX: i64 = 1_000_000_000_000_000_000;

/// `c` is an ASCII digit `'0'..='9'`.
pub open spec fn is_ascii_digit(c: u8) -> bool {
    48 <= c && c <= 57
}

pub open spec fn all_digits(s: Seq<u8>) -> bool {
    forall|i: int| 0 <= i < s.len() ==> is_ascii_digit(s[i])
}

/// The integer denoted by a sequence of ASCII digits, most significant first.
pub open spec fn digits_val(s: Seq<u8>) -> int
    decreases s.len(),
{
    if s.len() == 0 {
        0
    } else {
        digits_val(s.drop_last()) * 10 + (s.last() - 48)
    }
}

pub open spec fn pow10(n: nat) -> int
    decreases n,
{
    if n == 0 {
        1
    } else {
        10 * pow10((n - 1) as nat)
    }
}

/// Index of the first `'.'` in `s`, or `s.len()` if there is none.
pub open spec fn dot_pos(s: Seq<u8>) -> int
    decreases s.len(),
{
    if s.len() == 0 {
        0
    } else if s[0] == 46 {
        0
    } else {
        1 + dot_pos(s.subrange(1, s.len() as int))
    }
}

pub proof fn lemma_dot_pos(s: Seq<u8>)
    ensures
        0 <= dot_pos(s) <= s.len(),
        dot_pos(s) < s.len() ==> s[dot_pos(s)] == 46,
        forall|j: int| 0 <= j < dot_pos(s) ==> s[j] != 46,
    decreases s.len(),
{
    if s.len() == 0 {
    } else if s[0] == 46 {
    } else {
        let t = s.subrange(1, s.len() as int);
        lemma_dot_pos(t);
        assert forall|j: int| 0 <= j < dot_pos(s) implies s[j] != 46 by {
            if j > 0 {
                assert(t[j - 1] != 46);
            }
        }
    }
}

/// Digit strings denote values below `10^len`.
pub proof fn lemma_digits_val_bound(s: Seq<u8>)
    requires
        all_digits(s),
    ensures
        0 <= digits_val(s) < pow10(s.len()),
    decreases s.len(),
{
    if s.len() == 0 {
    } else {
        lemma_digits_val_bound(s.drop_last());
        assert(is_ascii_digit(s.last()));
        assert(pow10(s.len()) == 10 * pow10((s.len() - 1) as nat));
    }
}

/// Length of the sign prefix of a decimal literal: `'+'` or `'-'`.
pub open spec fn sign_len(s: Seq<u8>) -> int {
    if s.len() > 0 && (s[0] == 43 || s[0] == 45) {
        1
    } else {
        0
    }
}

pub open spec fn is_negative(s: Seq<u8>) -> bool {
    s.len() > 0 && s[0] == 45
}

/// The literal with its sign stripped.
pub open spec fn decimal_body(s: Seq<u8>) -> Seq<u8> {
    s.subrange(sign_len(s), s.len() as int)
}

/// Integer part: the digits before the first `'.'` of the body.
pub open spec fn int_part(s: Seq<u8>) -> Seq<u8> {
    decimal_body(s).subrange(0, dot_pos(decimal_body(s)))
}

/// Fractional part: everything after the first `'.'` of the body,
/// empty when there is no `'.'`.
pub open spec fn frac_part(s: Seq<u8>) -> Seq<u8> {
    let b = decimal_body(s);
    if dot_pos(b) < b.len() {
        b.subrange(dot_pos(b) + 1, b.len() as int)
    } else {
        Seq::empty()
    }
}

/// A well-formed decimal literal: an optional sign, then digits with at
/// most one `'.'` among them and at least one digit overall, denoting
/// fewer than 10^12 currency units.
pub open spec fn well_formed_decimal(s: Seq<u8>) -> bool {
    &&& all_digits(int_part(s))
    &&& all_digits(frac_part(s))
    &&& int_part(s).len() + frac_part(s).len() >= 1
    &&& digits_val(int_part(s)) < 1_000_000_000_000
}

/// Value of a fractional digit string in micro-units: the first six
/// fractional digits, padded with zeros to six places; digits beyond the
/// sixth are truncated away.
pub open spec fn frac_val(fp: Seq<u8>) -> int {
    if fp.len() <= 6 {
        digits_val(fp) * pow10((6 - fp.len()) as nat)
    } else {
        digits_val(fp.subrange(0, 6))
    }
}

/// The amount in micro-units denoted by decimal text, with every
/// malformed or out-of-range literal coerced to zero.
pub open spec fn parse_amount_spec(s: Seq<u8>) -> int {
    if well_formed_decimal(s) {
        let mag = digits_val(int_part(s)) * 1_000_000 + frac_val(frac_part(s));
        if is_negative(s) {
            -mag
        } else {
            mag
        }
    } else {
        0
    }
}

/// A fractional digit string always denotes fewer than 10^6 micro-units.
pub proof fn lemma_frac_val_bound(fp: Seq<u8>)
    requires
        all_digits(fp),
    ensures
        0 <= frac_val(fp) < 1000000,
{
    lemma_pow10_6();
    if fp.len() <= 6 {
        lemma_digits_val_bound(fp);
        let d = digits_val(fp);
        let p = pow10((6 - fp.len()) as nat);
        let q = pow10(fp.len() as nat);
        lemma_pow10_le_6((6 - fp.len()) as nat, fp.len() as nat);
        assert(d * p < q * p) by (nonlinear_arith)
            requires
                0 <= d < q,
                p >= 1,
        {
        }
        assert(q * p == p * q);
    } else {
        assert(all_digits(fp.subrange(0, 6)));
        lemma_digits_val_bound(fp.subrange(0, 6));
    }
}

/// Every parse result, well formed or not, lies strictly within
/// `AMOUNT_MAX` micro-units of zero.
pub proof fn lemma_parse_amount_in_range(s: Seq<u8>)
    ensures
        -AMOUNT_MAX < parse_amount_spec(s) < AMOUNT_MAX,
{
    if well_formed_decimal(s) {
        let ip = int_part(s);
        let fp = frac_part(s);
        lemma_digits_val_bound(ip);
        lemma_frac_val_bound(fp);
    }
}

proof fn lemma_pow10_6()
    ensures
        pow10(0) == 1,
        pow10(1) == 10,
        pow10(2) == 100,
        pow10(3) == 1000,
        pow10(4) == 10000,
        pow10(5) == 100000,
        pow10(6) == 1000000,
{
    assert(pow10(0) == 1);
    assert(pow10(1) == 10);
    assert(pow10(2) == 100);
    assert(pow10(3) == 1000);
    assert(pow10(4) == 10000);
    assert(pow10(5) == 100000);
    assert(pow10(6) == 1000000);
}

/// `pow10(a) * pow10(b) == pow10(a + b)`, stated only for the six
/// fractional places the parser uses.
proof fn lemma_pow10_le_6(a: nat, b: nat)
    requires
        a + b == 6,
    ensures
        pow10(a) * pow10(b) == 1000000,
        pow10(a) >= 1,
        pow10(b) >= 1,
{
    lemma_pow10_6();
}

fn pow10_exec(e: usize) -> (r: i64)
    requires
        e <= 6,
    ensures
        r == pow10(e as nat),
        1 <= r <= 1000000,
{
    proof {
        lemma_pow10_6();
    }
    if e == 0 {
        1
    } else if e == 1 {
        10
    } else if e == 2 {
        100
    } else if e == 3 {
        1000
    } else if e == 4 {
        10000
    } else if e == 5 {
        100000
    } else {
        1000000
    }
}

/// Parse decimal text into micro-units. Tolerant by design: malformed
/// or out-of-range text yields zero rather than an error.
#[verifier::loop_isolation(false)]
#[verifier::rlimit(60)]
pub fn parse_amount(v: &Vec<u8>) -> (a: i64)
    ensures
        a == parse_amount_spec(v@),
        -AMOUNT_MAX < a < AMOUNT_MAX,
{
    proof {
        lemma_parse_amount_in_range(v@);
    }
    let n = v.len();
    let mut i: usize = 0;
    let mut neg = false;
    if n > 0 && (v[0] == 43 || v[0] == 45) {
        neg = v[0] == 45;
        i = 1;
    }
    let start = i;
    let ghost b = decimal_body(v@);
    proof {
        lemma_dot_pos(b);
        assert(b.len() == n - start);
        assert(neg == is_negative(v@));
    }
    let ghost dp = dot_pos(b);

    let mut int_acc: i64 = 0;
    let mut big = false;
    while i < n && v[i] != 46
        invariant
            start <= i <= n,
            forall|j: int| start <= j < i ==> v@[j] != 46 && is_ascii_digit(v@[j]),
            !big ==> int_acc == digits_val(b.subrange(0, i - start)) && 0 <= int_acc
                < 1_000_000_000_000,
            big ==> digits_val(b.subrange(0, i - start)) >= 1_000_000_000_000,
        decreases n - i,
    {
        let c = v[i];
        proof {
            assert(forall|j: int| 0 <= j < i - start ==> b[j] != 46);
            assert(dp > i - start) by {
                assert(b[(i - start) as int] != 46);
            }
        }
        if !(48 <= c && c <= 57) {
            proof {
                assert(int_part(v@)[(i - start) as int] == c);
                assert(!all_digits(int_part(v@)));
            }
            return 0;
        }
        let d = (c - 48) as i64;
        proof {
            let pre = b.subrange(0, i - start);
            let pre2 = b.subrange(0, i + 1 - start);
            assert(pre2.drop_last() =~= pre);
            assert(pre2.last() == c);
            assert(digits_val(pre2) == digits_val(pre) * 10 + d);
        }
        if big {
        } else {
            let cand = int_acc * 10 + d;
            if cand >= 1_000_000_000_000 {
                big = true;
            } else {
                int_acc = cand;
            }
        }
        i += 1;
    }

    let int_len = i - start;
    proof {
        if i < n {
            assert(b[(i - start) as int] == 46);
            assert(dp == i - start);
        } else {
            assert(forall|j: int| 0 <= j < b.len() ==> b[j] != 46);
            assert(dp == b.len());
        }
        assert(int_part(v@) =~= b.subrange(0, int_len as int));
        assert(all_digits(int_part(v@)));
    }

    let mut frac_acc: i64 = 0;
    let mut frac_len: usize = 0;
    let mut frac_total: usize = 0;
    if i < n {
        // skip the dot
        i += 1;
        let fstart = i;
        proof {
            assert(frac_part(v@) =~= v@.subrange(fstart as int, n as int));
        }
        while i < n
            invariant
                fstart <= i <= n,
                frac_total == i - fstart,
                forall|j: int| fstart <= j < i ==> is_ascii_digit(v@[j]),
                frac_len == if i - fstart <= 6 {
                    i - fstart
                } else {
                    6
                },
                i - fstart <= 6 ==> frac_acc == digits_val(v@.subrange(fstart as int, i as int))
                    && 0 <= frac_acc < pow10((i - fstart) as nat),
                i - fstart > 6 ==> frac_acc == digits_val(
                    v@.subrange(fstart as int, i as int).subrange(0, 6),
                ) && 0 <= frac_acc < 1000000,
            decreases n - i,
        {
            let c = v[i];
            if !(48 <= c && c <= 57) {
                proof {
                    assert(frac_part(v@)[(i - fstart) as int] == c);
                    assert(!all_digits(frac_part(v@)));
                }
                return 0;
            }
            proof {
                lemma_pow10_6();
                let pre = v@.subrange(fstart as int, i as int);
                let pre2 = v@.subrange(fstart as int, i + 1 as int);
                assert(pre2.drop_last() =~= pre);
                assert(pre2.last() == c);
                if i - fstart < 6 {
                    assert(digits_val(pre2) == digits_val(pre) * 10 + (c - 48));
                    assert(pow10((i + 1 - fstart) as nat) == 10 * pow10((i - fstart) as nat));
                } else {
                    assert(pre2.subrange(0, 6) =~= if i - fstart == 6 {
                        pre
                    } else {
                        pre.subrange(0, 6)
                    });
                }
            }
            if frac_len < 6 {
                frac_acc = frac_acc * 10 + ((c - 48) as i64);
                frac_len += 1;
            }
            frac_total += 1;
            i += 1;
        }
        proof {
            assert(v@.subrange(fstart as int, n as int) =~= frac_part(v@));
        }
    } else {
        proof {
            assert(frac_part(v@) =~= Seq::<u8>::empty());
        }
    }

    proof {
        assert(all_digits(frac_part(v@)));
        assert(frac_total == frac_part(v@).len());
        lemma_frac_val_bound(frac_part(v@));
    }

    if int_len == 0 && frac_total == 0 {
        return 0;
    }
    if big {
        return 0;
    }
    let pad = pow10_exec(6 - frac_len);
    let frac_micros = frac_acc * pad;
    proof {
        let fp = frac_part(v@);
        if fp.len() <= 6 {
            assert(frac_len == fp.len());
            assert(frac_acc == digits_val(fp));
            assert(pad == pow10((6 - fp.len()) as nat));
        } else {
            assert(frac_len == 6);
            assert(pad == pow10(0));
            assert(frac_acc == digits_val(fp.subrange(0, 6)));
        }
        assert(frac_micros == frac_val(fp));
        assert(well_formed_decimal(v@));
    }
    let mag = int_acc * 1_000_000 + frac_micros;
    if neg {
        -mag
    } else {
        mag
    }
}

} // verus!
