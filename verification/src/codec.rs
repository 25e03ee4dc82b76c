//! The wire codec: envelopes travel as length-prefixed frames whose payload
//! is a self-describing JSON rendering of the envelope (variant discriminant
//! and field names preserved).
//!
//! The encoder is total on well-formed envelopes; the decoder is strict: it
//! accepts exactly one envelope spanning the whole payload, with the fields
//! in declaration order, no surrounding whitespace, and only the quote and
//! backslash escapes inside strings. Coordinates are decimal numbers; the
//! encoder writes them as a signed integer mantissa with a negative
//! power-of-ten exponent (`2e-1` is `0.2`), and the decoder additionally
//! accepts plain fraction notation (`0.2`).

use vstd::prelude::*;

use crate::messages::ClientCommandResponse;
use crate::messages::ClientCommandResponseView;
use crate::messages::ClientFailed;
use crate::messages::ClientFailedView;
use crate::messages::ClientMessage;
use crate::messages::ClientMessageView;
use crate::messages::ClientOnConnect;
use crate::messages::ClientOnConnectView;
use crate::messages::Coord;
use crate::messages::Point;
use crate::messages::ServerMessage;
use crate::messages::ServerMessageView;
use crate::messages::ServerOnConnect;
use crate::messages::ServerOnConnectView;
use crate::messages::MAX_SCALE;

verus! {

// ---------------------------------------------------------------------
// Characters and digits
// ---------------------------------------------------------------------

pub open spec fn is_digit(c: char) -> bool {
    48 <= c as u32 <= 57
}

pub open spec fn digit_val(c: char) -> nat {
    (c as u32 - 48) as nat
}

pub open spec fn digit_char(d: nat) -> char {
    if d == 0 {
        '0'
    } else if d == 1 {
        '1'
    } else if d == 2 {
        '2'
    } else if d == 3 {
        '3'
    } else if d == 4 {
        '4'
    } else if d == 5 {
        '5'
    } else if d == 6 {
        '6'
    } else if d == 7 {
        '7'
    } else if d == 8 {
        '8'
    } else {
        '9'
    }
}

fn is_digit_exec(c: char) -> (r: bool)
    ensures
        r == is_digit(c),
{
    let u = c as u32;
    48 <= u && u <= 57
}

fn digit_val_exec(c: char) -> (r: u64)
    requires
        is_digit(c),
    ensures
        r == digit_val(c),
{
    (c as u32 - 48) as u64
}

fn digit_char_exec(d: u64) -> (r: char)
    requires
        d < 10,
    ensures
        r == digit_char(d as nat),
{
    if d == 0 {
        '0'
    } else if d == 1 {
        '1'
    } else if d == 2 {
        '2'
    } else if d == 3 {
        '3'
    } else if d == 4 {
        '4'
    } else if d == 5 {
        '5'
    } else if d == 6 {
        '6'
    } else if d == 7 {
        '7'
    } else if d == 8 {
        '8'
    } else {
        '9'
    }
}

pub open spec fn pow10(k: nat) -> nat
    decreases k,
{
    if k == 0 {
        1
    } else {
        10 * pow10((k - 1) as nat)
    }
}

proof fn lemma_pow10_mono(a: nat, b: nat)
    requires
        a <= b,
    ensures
        pow10(a) <= pow10(b),
        pow10(a) >= 1,
    decreases b,
{
    if b > 0 {
        if a <= b - 1 {
            lemma_pow10_mono(a, (b - 1) as nat);
        } else {
            lemma_pow10_mono((a - 1) as nat, (b - 1) as nat);
        }
    }
}

proof fn lemma_pow10_19()
    ensures
        pow10(18) == 1000000000000000000,
        pow10(19) == 10000000000000000000,
        pow10(2) == 100,
        i64::MAX < pow10(19),
        pow10(19) < u64::MAX,
{
    reveal_with_fuel(pow10, 21);
}

/// The decimal digits of `n`, most significant first, no leading zeroes
/// (a single `0` for zero).
pub open spec fn spec_digits(n: nat) -> Seq<char>
    decreases n,
{
    if n < 10 {
        seq![digit_char(n)]
    } else {
        spec_digits(n / 10) + seq![digit_char(n % 10)]
    }
}

proof fn lemma_digits_are_digits(n: nat)
    ensures
        spec_digits(n).len() >= 1,
        forall|i: int| 0 <= i < spec_digits(n).len() ==> is_digit(#[trigger] spec_digits(n)[i]),
    decreases n,
{
    if n >= 10 {
        lemma_digits_are_digits(n / 10);
    }
}

proof fn lemma_digits_len_bound(n: nat, k: nat)
    requires
        n < pow10(k),
        k >= 1,
    ensures
        spec_digits(n).len() <= k,
    decreases n,
{
    if n >= 10 {
        assert(k >= 2) by {
            if k == 1 {
                assert(pow10(1) == 10) by {
                    reveal_with_fuel(pow10, 2);
                }
            }
        }
        assert(n / 10 < pow10((k - 1) as nat));
        lemma_digits_len_bound(n / 10, (k - 1) as nat);
    }
}

// ---------------------------------------------------------------------
// Scanning and accumulating digit runs
// ---------------------------------------------------------------------

/// The first position at or after `i` that does not hold a digit.
pub open spec fn digits_end(s: Seq<char>, i: int) -> int
    decreases s.len() - i,
{
    if 0 <= i < s.len() && is_digit(s[i]) {
        digits_end(s, i + 1)
    } else {
        i
    }
}

proof fn lemma_digits_end_at(s: Seq<char>, i: int, j: int)
    requires
        0 <= i <= j <= s.len(),
        forall|k: int| i <= k < j ==> is_digit(s[k]),
        j == s.len() || !is_digit(s[j]),
    ensures
        digits_end(s, i) == j,
    decreases j - i,
{
    if i < j {
        lemma_digits_end_at(s, i + 1, j);
    }
}

/// The value of the digit run `s[i..j]` read left to right on top of the
/// accumulator `acc`.
pub open spec fn digits_acc(s: Seq<char>, i: int, j: int, acc: nat) -> nat
    decreases j - i,
{
    if i >= j {
        acc
    } else {
        digits_acc(s, i + 1, j, acc * 10 + digit_val(s[i]))
    }
}

proof fn lemma_digits_acc_last(s: Seq<char>, i: int, j: int, acc: nat)
    requires
        i < j,
    ensures
        digits_acc(s, i, j, acc) == digits_acc(s, i, j - 1, acc) * 10 + digit_val(s[j - 1]),
    decreases j - i,
{
    if i + 1 < j {
        lemma_digits_acc_last(s, i + 1, j, acc * 10 + digit_val(s[i]));
        assert(digits_acc(s, i, j, acc) == digits_acc(s, i + 1, j, acc * 10 + digit_val(s[i])));
        assert(digits_acc(s, i, j - 1, acc) == digits_acc(
            s,
            i + 1,
            j - 1,
            acc * 10 + digit_val(s[i]),
        ));
    } else {
        assert(digits_acc(s, i, j, acc) == digits_acc(s, i + 1, j, acc * 10 + digit_val(s[i])));
        assert(digits_acc(s, i, j - 1, acc) == acc);
    }
}

proof fn lemma_digits_acc_of_digits(s: Seq<char>, i: int, n: nat, acc: nat)
    requires
        0 <= i,
        i + spec_digits(n).len() <= s.len(),
        s.subrange(i, i + spec_digits(n).len() as int) == spec_digits(n),
    ensures
        digits_acc(s, i, i + spec_digits(n).len() as int, acc) == acc * pow10(spec_digits(n).len())
            + n,
    decreases n,
{
    let d = spec_digits(n);
    let j = i + d.len() as int;
    if n < 10 {
        assert(s[i] == d[0]);
        assert(digit_val(digit_char(n)) == n);
        assert(pow10(1) == 10) by {
            reveal_with_fuel(pow10, 2);
        }
        assert(digits_acc(s, i, j, acc) == digits_acc(s, i + 1, j, acc * 10 + n));
    } else {
        let dh = spec_digits(n / 10);
        let hl = dh.len() as int;
        assert(s.subrange(i, i + hl) =~= dh) by {
            assert(forall|t: int|
                0 <= t < hl ==> s.subrange(i, i + hl)[t] == s.subrange(i, j)[t] && d[t] == dh[t]);
        }
        lemma_digits_acc_of_digits(s, i, n / 10, acc);
        lemma_digits_acc_last(s, i, j, acc);
        assert(s[j - 1] == d[d.len() - 1]);
        assert(d[d.len() - 1] == digit_char(n % 10));
        assert(digit_val(digit_char(n % 10)) == n % 10);
        let h = acc * pow10(dh.len()) + n / 10;
        assert(digits_acc(s, i, j - 1, acc) == h);
        assert(pow10(d.len()) == 10 * pow10(dh.len()));
        assert(h * 10 + n % 10 == acc * (10 * pow10(dh.len())) + ((n / 10) * 10 + n % 10))
            by (nonlinear_arith)
            requires
                h == acc * pow10(dh.len()) + n / 10,
        ;
        assert((n / 10) * 10 + n % 10 == n);
    }
}

proof fn lemma_digits_acc_bound(s: Seq<char>, i: int, j: int, acc: nat, c0: nat)
    requires
        i <= j,
        acc < pow10(c0),
        forall|k: int| i <= k < j ==> is_digit(s[k]),
    ensures
        digits_acc(s, i, j, acc) < pow10((c0 + j - i) as nat),
    decreases j - i,
{
    if i < j {
        assert(is_digit(s[i]));
        assert(digit_val(s[i]) <= 9);
        assert(acc * 10 + digit_val(s[i]) < pow10(c0 + 1)) by {
            assert(pow10(c0 + 1) == 10 * pow10(c0));
            assert(acc * 10 + 10 <= pow10(c0) * 10) by (nonlinear_arith)
                requires
                    acc + 1 <= pow10(c0),
            ;
        }
        lemma_digits_acc_bound(s, i + 1, j, acc * 10 + digit_val(s[i]), c0 + 1);
        assert((c0 + 1 + j - (i + 1)) as nat == (c0 + j - i) as nat);
    }
}

fn scan_digits(v: &Vec<char>, i: usize) -> (j: usize)
    requires
        i <= v@.len(),
    ensures
        i <= j <= v@.len(),
        j as int == digits_end(v@, i as int),
        forall|k: int| i <= k < j ==> is_digit(v@[k]),
        j < v@.len() ==> !is_digit(v@[j as int]),
    decreases v@.len() - i,
{
    let mut j = i;
    while j < v.len() && is_digit_exec(v[j])
        invariant
            i <= j <= v@.len(),
            digits_end(v@, i as int) == digits_end(v@, j as int),
            forall|k: int| i <= k < j ==> is_digit(v@[k]),
        decreases v@.len() - j,
    {
        j += 1;
    }
    proof {
        assert(digits_end(v@, j as int) == j as int);
    }
    j
}

/// Accumulate the digit run `v[from..to]` on top of `acc0`; the ghost digit
/// budget keeps the arithmetic inside `u64`.
fn accum_digits(v: &Vec<char>, from: usize, to: usize, acc0: u64, Ghost(c0): Ghost<nat>) -> (acc:
    u64)
    requires
        from <= to <= v@.len(),
        forall|k: int| from <= k < to ==> is_digit(v@[k]),
        acc0 < pow10(c0),
        c0 + (to - from) <= 19,
    ensures
        acc as nat == digits_acc(v@, from as int, to as int, acc0 as nat),
        (acc as nat) < pow10((c0 + to - from) as nat),
{
    proof {
        lemma_pow10_19();
    }
    let mut acc = acc0;
    let mut cur = from;
    let ghost mut budget = c0;
    while cur < to
        invariant
            from <= cur <= to <= v@.len(),
            forall|k: int| from <= k < to ==> is_digit(v@[k]),
            digits_acc(v@, cur as int, to as int, acc as nat) == digits_acc(
                v@,
                from as int,
                to as int,
                acc0 as nat,
            ),
            (acc as nat) < pow10(budget),
            budget == c0 + (cur - from),
            budget + (to - cur) <= 19,
        decreases to - cur,
    {
        let d = digit_val_exec(v[cur]);
        proof {
            lemma_pow10_mono(budget, 18);
            lemma_pow10_19();
            assert((acc as nat) * 10 <= (pow10(18) - 1) * 10) by (nonlinear_arith)
                requires
                    (acc as nat) <= pow10(18) - 1,
            ;
            assert((acc as nat) * 10 + (d as nat) < pow10(budget + 1)) by {
                assert(pow10(budget + 1) == 10 * pow10(budget));
                assert((acc as nat) * 10 + 10 <= pow10(budget) * 10) by (nonlinear_arith)
                    requires
                        (acc as nat) + 1 <= pow10(budget),
                ;
            }
        }
        acc = acc * 10 + d;
        cur += 1;
        proof {
            budget = budget + 1;
        }
    }
    proof {
        lemma_digits_acc_bound(v@, from as int, to as int, acc0 as nat, c0);
    }
    acc
}

// ---------------------------------------------------------------------
// Coordinates
// ---------------------------------------------------------------------

/// The magnitude of a coordinate's mantissa.
pub open spec fn coord_abs(c: Coord) -> nat {
    if c.mantissa < 0 {
        (-(c.mantissa as int)) as nat
    } else {
        c.mantissa as nat
    }
}

/// The characters a coordinate is written as: signed mantissa digits, then
/// a negative power-of-ten exponent when the scale is not zero.
pub open spec fn spec_coord_chars(c: Coord) -> Seq<char> {
    let sign: Seq<char> = if c.mantissa < 0 {
        seq!['-']
    } else {
        Seq::empty()
    };
    if c.scale == 0 {
        sign + spec_digits(coord_abs(c))
    } else {
        sign + spec_digits(coord_abs(c)) + seq!['e', '-'] + spec_digits(c.scale as nat)
    }
}

/// Parse one decimal number starting at `i`: optional sign, integer digits,
/// optional fraction, optional negative exponent of at most two digits. The
/// mantissa is capped at 19 digits and `i64::MAX`, the resulting scale at
/// `MAX_SCALE`; anything beyond is rejected.
pub open spec fn spec_parse_coord(s: Seq<char>, i: int) -> Option<(Coord, int)> {
    let neg = i < s.len() && s[i] == '-';
    let i1 = if neg {
        i + 1
    } else {
        i
    };
    let j = digits_end(s, i1);
    if j == i1 {
        None
    } else {
        let dotted = j < s.len() && s[j] == '.';
        let frac_end = if dotted {
            digits_end(s, j + 1)
        } else {
            j
        };
        if dotted && frac_end == j + 1 {
            None
        } else {
            let frac_len = frac_end - (if dotted {
                j + 1
            } else {
                j
            });
            if (j - i1) + frac_len > 19 {
                None
            } else {
                let mval = if dotted {
                    digits_acc(s, j + 1, frac_end, digits_acc(s, i1, j, 0))
                } else {
                    digits_acc(s, i1, j, 0)
                };
                if mval > i64::MAX {
                    None
                } else {
                    let has_exp = frac_end + 1 < s.len() && s[frac_end] == 'e' && s[frac_end + 1]
                        == '-';
                    let e1 = frac_end + 2;
                    let e_end = if has_exp {
                        digits_end(s, e1)
                    } else {
                        frac_end
                    };
                    if has_exp && (e_end == e1 || e_end - e1 > 2) {
                        None
                    } else {
                        let exp_val = if has_exp {
                            digits_acc(s, e1, e_end, 0)
                        } else {
                            0
                        };
                        if frac_len + exp_val > MAX_SCALE {
                            None
                        } else {
                            let mantissa: int = if neg {
                                -(mval as int)
                            } else {
                                mval as int
                            };
                            Some(
                                (
                                    Coord {
                                        mantissa: mantissa as i64,
                                        scale: (frac_len + exp_val) as u32,
                                    },
                                    e_end,
                                ),
                            )
                        }
                    }
                }
            }
        }
    }
}

fn parse_coord(v: &Vec<char>, i: usize) -> (r: Option<(Coord, usize)>)
    requires
        i <= v@.len(),
    ensures
        match r {
            Some((c, j)) => spec_parse_coord(v@, i as int) == Some((c, j as int)) && c.wf() && i
                < j <= v@.len(),
            None => spec_parse_coord(v@, i as int) is None,
        },
{
    proof {
        lemma_pow10_19();
    }
    let neg = i < v.len() && v[i] == '-';
    let i1 = if neg {
        i + 1
    } else {
        i
    };
    let j = scan_digits(v, i1);
    if j == i1 {
        return None;
    }
    let dotted = j < v.len() && v[j] == '.';
    let frac_end = if dotted {
        scan_digits(v, j + 1)
    } else {
        j
    };
    if dotted && frac_end == j + 1 {
        return None;
    }
    let frac_start = if dotted {
        j + 1
    } else {
        j
    };
    let frac_len = frac_end - frac_start;
    if (j - i1) + frac_len > 19 {
        return None;
    }
    let int_val = accum_digits(v, i1, j, 0, Ghost(0nat));
    let mval = if dotted {
        accum_digits(v, j + 1, frac_end, int_val, Ghost((j - i1) as nat))
    } else {
        int_val
    };
    if mval > i64::MAX as u64 {
        return None;
    }
    let has_exp = frac_end < v.len() && v[frac_end] == 'e' && frac_end + 1 < v.len() && v[frac_end
        + 1] == '-';
    let e_end = if has_exp {
        scan_digits(v, frac_end + 2)
    } else {
        frac_end
    };
    if has_exp && (e_end == frac_end + 2 || e_end - (frac_end + 2) > 2) {
        return None;
    }
    let exp_val = if has_exp {
        accum_digits(v, frac_end + 2, e_end, 0, Ghost(0nat))
    } else {
        0
    };
    proof {
        lemma_pow10_mono(2, 19);
        assert(pow10(2) == 100) by {
            reveal_with_fuel(pow10, 3);
        }
    }
    if frac_len as u64 + exp_val > MAX_SCALE as u64 {
        return None;
    }
    let mantissa: i64 = if neg {
        -(mval as i64)
    } else {
        mval as i64
    };
    Some((Coord { mantissa, scale: (frac_len as u64 + exp_val) as u32 }, e_end))
}

// ---------------------------------------------------------------------
// Trusted bridges to std
// ---------------------------------------------------------------------

/// Relies on `String::push`: appends exactly the one given character.
#[verifier::external_body]
fn push_char(out: &mut String, c: char)
    ensures
        final(out)@ == old(out)@ + seq![c],
{
    out.push(c);
}

/// Relies on `String::from_utf8`: when the bytes are valid UTF-8 it returns
/// the string whose UTF-8 encoding is exactly those bytes, and otherwise an
/// error.
#[verifier::external_body]
fn string_from_utf8(bytes: Vec<u8>) -> (r: Option<String>)
    ensures
        match r {
            Some(s) => vstd::utf8::valid_utf8(bytes@) && vstd::utf8::encode_utf8(s@) == bytes@,
            None => !vstd::utf8::valid_utf8(bytes@),
        },
{
    match String::from_utf8(bytes) {
        Ok(s) => Some(s),
        Err(_) => None,
    }
}

// ---------------------------------------------------------------------
// Writing numbers
// ---------------------------------------------------------------------

fn push_digits(out: &mut String, n: u64)
    ensures
        final(out)@ == old(out)@ + spec_digits(n as nat),
    decreases n,
{
    if n < 10 {
        push_char(out, digit_char_exec(n));
    } else {
        push_digits(out, n / 10);
        push_char(out, digit_char_exec(n % 10));
        proof {
            assert(out@ =~= old(out)@ + spec_digits(n as nat));
        }
    }
}

fn push_coord(out: &mut String, c: Coord)
    requires
        c.wf(),
    ensures
        final(out)@ == old(out)@ + spec_coord_chars(c),
{
    if c.mantissa < 0 {
        push_char(out, '-');
        push_digits(out, (-(c.mantissa)) as u64);
    } else {
        push_digits(out, c.mantissa as u64);
    }
    if c.scale > 0 {
        push_char(out, 'e');
        push_char(out, '-');
        push_digits(out, c.scale as u64);
    }
    proof {
        assert(out@ =~= old(out)@ + spec_coord_chars(c));
    }
}

// ---------------------------------------------------------------------
// Strings on the wire
// ---------------------------------------------------------------------

/// How one character is written inside a JSON string: quotes and
/// backslashes get a backslash escape, everything else stands as itself.
pub open spec fn esc_char(c: char) -> Seq<char> {
    if c == '"' || c == '\\' {
        seq!['\\', c]
    } else {
        seq![c]
    }
}

pub open spec fn spec_esc(t: Seq<char>) -> Seq<char>
    decreases t.len(),
{
    if t.len() == 0 {
        Seq::empty()
    } else {
        esc_char(t[0]) + spec_esc(t.skip(1))
    }
}

/// A whole JSON string literal: quote, escaped content, quote.
pub open spec fn spec_json_string(t: Seq<char>) -> Seq<char> {
    seq!['"'] + spec_esc(t) + seq!['"']
}

proof fn lemma_esc_concat(a: Seq<char>, b: Seq<char>)
    ensures
        spec_esc(a + b) == spec_esc(a) + spec_esc(b),
    decreases a.len(),
{
    if a.len() == 0 {
        assert(a + b =~= b);
        assert(spec_esc(a) + spec_esc(b) =~= spec_esc(b));
    } else {
        assert((a + b).skip(1) =~= a.skip(1) + b);
        assert((a + b)[0] == a[0]);
        lemma_esc_concat(a.skip(1), b);
        assert(esc_char(a[0]) + (spec_esc(a.skip(1)) + spec_esc(b)) =~= (esc_char(a[0]) + spec_esc(
            a.skip(1),
        )) + spec_esc(b));
    }
}

proof fn lemma_esc_snoc(t: Seq<char>, k: int)
    requires
        0 <= k < t.len(),
    ensures
        spec_esc(t.take(k + 1)) == spec_esc(t.take(k)) + esc_char(t[k]),
{
    assert(t.take(k + 1) =~= t.take(k) + seq![t[k]]);
    lemma_esc_concat(t.take(k), seq![t[k]]);
    assert(spec_esc(seq![t[k]]) =~= esc_char(t[k])) by {
        reveal_with_fuel(spec_esc, 3);
        assert(seq![t[k]].skip(1) =~= Seq::<char>::empty());
        assert(spec_esc(seq![t[k]]) == esc_char(t[k]) + spec_esc(seq![t[k]].skip(1)));
        assert(esc_char(t[k]) + Seq::<char>::empty() =~= esc_char(t[k]));
    }
}

fn push_json_string(out: &mut String, s: &str)
    ensures
        final(out)@ == old(out)@ + spec_json_string(s@),
{
    push_char(out, '"');
    proof {
        assert(s@.take(0) =~= Seq::<char>::empty());
        assert(out@ =~= old(out)@ + seq!['"'] + spec_esc(s@.take(0)));
    }
    let n = s.unicode_len();
    let mut k: usize = 0;
    while k < n
        invariant
            n == s@.len(),
            k <= n,
            out@ == old(out)@ + seq!['"'] + spec_esc(s@.take(k as int)),
        decreases n - k,
    {
        let c = s.get_char(k);
        if c == '"' || c == '\\' {
            push_char(out, '\\');
        }
        push_char(out, c);
        proof {
            lemma_esc_snoc(s@, k as int);
            assert(out@ =~= old(out)@ + seq!['"'] + spec_esc(s@.take((k + 1) as int)));
        }
        k += 1;
    }
    push_char(out, '"');
    proof {
        assert(s@.take(n as int) =~= s@);
        assert(out@ =~= old(out)@ + spec_json_string(s@));
    }
}

/// Scan a JSON string body from `i` (just past the opening quote),
/// accumulating the unescaped characters, up to the closing quote.
pub open spec fn parse_str_body(s: Seq<char>, i: int, acc: Seq<char>) -> Option<(Seq<char>, int)>
    decreases s.len() - i,
{
    if i < 0 || i >= s.len() {
        None
    } else if s[i] == '"' {
        Some((acc, i + 1))
    } else if s[i] == '\\' {
        if i + 1 < s.len() && (s[i + 1] == '"' || s[i + 1] == '\\') {
            parse_str_body(s, i + 2, acc + seq![s[i + 1]])
        } else {
            None
        }
    } else {
        parse_str_body(s, i + 1, acc + seq![s[i]])
    }
}

/// Parse one JSON string literal starting at `i`.
pub open spec fn spec_parse_string(s: Seq<char>, i: int) -> Option<(Seq<char>, int)> {
    if 0 <= i < s.len() && s[i] == '"' {
        parse_str_body(s, i + 1, Seq::empty())
    } else {
        None
    }
}

fn parse_string(v: &Vec<char>, i: usize) -> (r: Option<(String, usize)>)
    requires
        i <= v@.len(),
    ensures
        match r {
            Some((t, j)) => spec_parse_string(v@, i as int) == Some((t@, j as int)) && i < j
                <= v@.len(),
            None => spec_parse_string(v@, i as int) is None,
        },
{
    if i >= v.len() {
        return None;
    }
    if v[i] != '"' {
        return None;
    }
    let mut out = String::new();
    let mut cur = i + 1;
    loop
        invariant
            i + 1 <= cur <= v@.len(),
            i < v@.len(),
            v@[i as int] == '"',
            parse_str_body(v@, cur as int, out@) == parse_str_body(
                v@,
                (i + 1) as int,
                Seq::empty(),
            ),
        decreases v@.len() - cur,
    {
        if cur >= v.len() {
            return None;
        }
        let c = v[cur];
        if c == '"' {
            proof {
                assert(parse_str_body(v@, cur as int, out@) == Some((out@, cur as int + 1)));
            }
            return Some((out, cur + 1));
        }
        if c == '\\' {
            if cur + 1 < v.len() {
                let c2 = v[cur + 1];
                if c2 == '"' || c2 == '\\' {
                    push_char(&mut out, c2);
                    cur = cur + 2;
                    continue ;
                }
            }
            return None;
        }
        push_char(&mut out, c);
        cur = cur + 1;
    }
}

// ---------------------------------------------------------------------
// Fixed text and whole-input helpers
// ---------------------------------------------------------------------

/// The literal `lit` must stand at `i`.
pub open spec fn spec_expect(s: Seq<char>, i: int, lit: Seq<char>) -> Option<int> {
    if 0 <= i && i + lit.len() <= s.len() && s.subrange(i, i + lit.len() as int) == lit {
        Some(i + lit.len() as int)
    } else {
        None
    }
}

fn expect_lit(v: &Vec<char>, i: usize, pat: &str) -> (r: Option<usize>)
    requires
        i <= v@.len(),
    ensures
        match r {
            Some(j) => spec_expect(v@, i as int, pat@) == Some(j as int) && j == i + pat@.len()
                && j <= v@.len(),
            None => spec_expect(v@, i as int, pat@) is None,
        },
{
    let n = pat.unicode_len();
    if v.len() - i < n {
        return None;
    }
    let mut k: usize = 0;
    while k < n
        invariant
            k <= n,
            n == pat@.len(),
            i + n <= v.len(),
            i + n <= v@.len(),
            forall|u: int| 0 <= u < k ==> v@[i + u] == pat@[u],
        decreases n - k,
    {
        if v[i + k] != pat.get_char(k) {
            proof {
                assert(v@.subrange(i as int, (i + n) as int)[k as int] != pat@[k as int]);
            }
            return None;
        }
        k += 1;
    }
    proof {
        assert(v@.subrange(i as int, (i + n) as int) =~= pat@);
    }
    Some(i + n)
}

fn str_chars(s: &str) -> (v: Vec<char>)
    ensures
        v@ == s@,
{
    let n = s.unicode_len();
    let mut v: Vec<char> = Vec::new();
    proof {
        assert(v@ =~= s@.take(0));
    }
    let mut k: usize = 0;
    while k < n
        invariant
            n == s@.len(),
            k <= n,
            v@ == s@.take(k as int),
        decreases n - k,
    {
        v.push(s.get_char(k));
        proof {
            assert(s@.take((k + 1) as int) =~= s@.take(k as int) + seq![s@[k as int]]);
        }
        k += 1;
    }
    proof {
        assert(s@.take(n as int) =~= s@);
    }
    v
}

// ---------------------------------------------------------------------
// Round trips for the two scalar layers
// ---------------------------------------------------------------------

proof fn lemma_coord_roundtrip_at(s: Seq<char>, i: int, c: Coord)
    requires
        c.wf(),
        0 <= i,
        i + spec_coord_chars(c).len() < s.len(),
        s.subrange(i, i + spec_coord_chars(c).len() as int) == spec_coord_chars(c),
        !is_digit(s[i + spec_coord_chars(c).len() as int]),
        s[i + spec_coord_chars(c).len() as int] != '.',
        s[i + spec_coord_chars(c).len() as int] != 'e',
    ensures
        spec_parse_coord(s, i) == Some((c, i + spec_coord_chars(c).len() as int)),
{
    lemma_pow10_19();
    let cc = spec_coord_chars(c);
    let end = i + cc.len() as int;
    let a = coord_abs(c);
    let d = spec_digits(a);
    let neg = c.mantissa < 0;
    let sl: int = if neg {
        1
    } else {
        0
    };
    let i1 = i + sl;
    let j = i1 + d.len() as int;
    lemma_digits_are_digits(a);
    assert(a <= i64::MAX);
    lemma_digits_len_bound(a, 19);
    assert forall|t: int| i <= t < end implies s[t] == cc[t - i] by {
        assert(s.subrange(i, i + cc.len() as int)[t - i] == cc[t - i]);
    }
    if neg {
        assert(cc[0] == '-');
        assert(s[i] == cc[0]);
    } else {
        assert(cc[0] == d[0]);
        assert(s[i] == cc[0]);
        assert(is_digit(d[0]));
        assert(s[i] != '-');
    }
    assert forall|t: int| i1 <= t < j implies is_digit(s[t]) by {
        assert(s[t] == cc[t - i]);
        assert(cc[t - i] == d[t - i1]);
        assert(is_digit(d[t - i1]));
    }
    assert(s.subrange(i1, j) =~= d) by {
        assert forall|t: int| 0 <= t < d.len() implies s.subrange(i1, j)[t] == d[t] by {
            assert(s.subrange(i1, j)[t] == s[i1 + t]);
            assert(s[i1 + t] == cc[i1 + t - i]);
            assert(cc[sl + t] == d[t]);
        }
    }
    if c.scale == 0 {
        assert(j == end);
        lemma_digits_end_at(s, i1, j);
        assert(digits_end(s, i1) == j);
        lemma_digits_acc_of_digits(s, i1, a, 0);
        assert(digits_acc(s, i1, j, 0) == a);
        assert(s[j] != '.' && s[j] != 'e');
        if neg {
            assert(c.mantissa == -(a as int));
        }
    } else {
        let sd = spec_digits(c.scale as nat);
        let e1 = j + 2;
        assert(cc[sl + d.len()] == 'e');
        assert(cc[sl + d.len() + 1] == '-');
        assert(s[j] == cc[j - i]);
        assert(s[j] == 'e');
        assert(!is_digit('e'));
        lemma_digits_end_at(s, i1, j);
        lemma_digits_acc_of_digits(s, i1, a, 0);
        assert(s[j] != '.');
        assert(s[j + 1] == cc[j + 1 - i]);
        assert(s[j + 1] == '-');
        lemma_digits_are_digits(c.scale as nat);
        lemma_digits_len_bound(c.scale as nat, 2);
        assert forall|t: int| e1 <= t < end implies is_digit(s[t]) by {
            assert(s[t] == cc[t - i]);
            assert(cc[t - i] == sd[t - e1]);
            assert(is_digit(sd[t - e1]));
        }
        assert(s.subrange(e1, end) =~= sd) by {
            assert forall|t: int| 0 <= t < sd.len() implies s.subrange(e1, end)[t] == sd[t] by {
                assert(s.subrange(e1, end)[t] == s[e1 + t]);
                assert(s[e1 + t] == cc[e1 + t - i]);
                assert(cc[sl + d.len() + 2 + t] == sd[t]);
            }
        }
        lemma_digits_end_at(s, e1, end);
        lemma_digits_acc_of_digits(s, e1, c.scale as nat, 0);
        assert(digits_acc(s, e1, end, 0) == c.scale);
        assert(end - e1 == sd.len());
        if neg {
            assert(c.mantissa == -(a as int));
        }
    }
}

proof fn lemma_str_body_roundtrip(s: Seq<char>, i: int, t: Seq<char>, acc: Seq<char>)
    requires
        0 <= i,
        i + spec_esc(t).len() < s.len(),
        s.subrange(i, i + spec_esc(t).len() as int) == spec_esc(t),
        s[i + spec_esc(t).len() as int] == '"',
    ensures
        parse_str_body(s, i, acc) == Some((acc + t, i + spec_esc(t).len() + 1)),
    decreases t.len(),
{
    let e = spec_esc(t);
    assert forall|u: int| 0 <= u < e.len() implies s[i + u] == e[u] by {
        assert(s.subrange(i, i + e.len() as int)[u] == e[u]);
    }
    if t.len() == 0 {
        assert(s[i + 0] == '"');
        assert(s[i] == '"');
        assert(acc + t =~= acc);
    } else {
        let e0 = esc_char(t[0]);
        let rest = spec_esc(t.skip(1));
        assert(e == e0 + rest);
        let i2 = i + e0.len() as int;
        assert(s.subrange(i2, i2 + rest.len() as int) =~= rest) by {
            assert forall|u: int|
                0 <= u < rest.len() implies s.subrange(i2, i2 + rest.len() as int)[u] == rest[u] by {
                assert(s.subrange(i2, i2 + rest.len() as int)[u] == s[i2 + u]);
                assert(s[i + (e0.len() + u)] == e[e0.len() + u]);
                assert(e[e0.len() + u] == rest[u]);
            }
        }
        assert(s[i2 + rest.len()] == '"');
        if t[0] == '"' || t[0] == '\\' {
            assert(e0 == seq!['\\', t[0]]);
            assert(s[i + 0] == e[0]);
            assert(s[i] == '\\');
            assert(s[i + 1] == e[1]);
            assert(s[i + 1] == t[0]);
            lemma_str_body_roundtrip(s, i + 2, t.skip(1), acc + seq![t[0]]);
            assert(acc + seq![t[0]] + t.skip(1) =~= acc + t);
        } else {
            assert(e0 == seq![t[0]]);
            assert(s[i + 0] == e[0]);
            assert(s[i] == t[0]);
            assert(s[i] != '"' && s[i] != '\\');
            lemma_str_body_roundtrip(s, i + 1, t.skip(1), acc + seq![t[0]]);
            assert(acc + seq![t[0]] + t.skip(1) =~= acc + t);
        }
    }
}

proof fn lemma_string_roundtrip_at(s: Seq<char>, i: int, t: Seq<char>)
    requires
        0 <= i,
        i + spec_json_string(t).len() <= s.len(),
        s.subrange(i, i + spec_json_string(t).len() as int) == spec_json_string(t),
    ensures
        spec_parse_string(s, i) == Some((t, i + spec_json_string(t).len() as int)),
{
    let js = spec_json_string(t);
    let e = spec_esc(t);
    assert forall|u: int| 0 <= u < js.len() implies s[i + u] == js[u] by {
        assert(s.subrange(i, i + js.len() as int)[u] == js[u]);
    }
    assert(s[i + 0] == js[0]);
    assert(s[i] == '"');
    assert(s.subrange(i + 1, i + 1 + e.len() as int) =~= e) by {
        assert forall|u: int|
            0 <= u < e.len() implies s.subrange(i + 1, i + 1 + e.len() as int)[u] == e[u] by {
            assert(s.subrange(i + 1, i + 1 + e.len() as int)[u] == s[i + 1 + u]);
            assert(s[i + (1 + u)] == js[1 + u]);
            assert(js[1 + u] == e[u]);
        }
    }
    assert(s[i + (1 + e.len())] == js[1 + e.len() as int]);
    assert(s[i + 1 + e.len()] == '"');
    lemma_str_body_roundtrip(s, i + 1, t, Seq::empty());
    assert(Seq::empty() + t =~= t);
}

// ---------------------------------------------------------------------
// Positions
// ---------------------------------------------------------------------

/// A position as an object of its three named coordinates.
pub open spec fn spec_point_chars(p: Point) -> Seq<char> {
    "{\"x\":"@ + spec_coord_chars(p.x) + ",\"y\":"@ + spec_coord_chars(p.y) + ",\"z\":"@
        + spec_coord_chars(p.z) + "}"@
}

fn push_point(out: &mut String, p: Point)
    requires
        p.wf(),
    ensures
        final(out)@ == old(out)@ + spec_point_chars(p),
{
    out.append("{\"x\":");
    push_coord(out, p.x);
    out.append(",\"y\":");
    push_coord(out, p.y);
    out.append(",\"z\":");
    push_coord(out, p.z);
    out.append("}");
    proof {
        assert(out@ =~= old(out)@ + spec_point_chars(p));
    }
}

pub open spec fn spec_parse_point(s: Seq<char>, i: int) -> Option<(Point, int)> {
    match spec_expect(s, i, "{\"x\":"@) {
        None => None,
        Some(i1) => match spec_parse_coord(s, i1) {
            None => None,
            Some((x, i2)) => match spec_expect(s, i2, ",\"y\":"@) {
                None => None,
                Some(i3) => match spec_parse_coord(s, i3) {
                    None => None,
                    Some((y, i4)) => match spec_expect(s, i4, ",\"z\":"@) {
                        None => None,
                        Some(i5) => match spec_parse_coord(s, i5) {
                            None => None,
                            Some((z, i6)) => match spec_expect(s, i6, "}"@) {
                                None => None,
                                Some(i7) => Some((Point { x, y, z }, i7)),
                            },
                        },
                    },
                },
            },
        },
    }
}

fn parse_point(v: &Vec<char>, i: usize) -> (r: Option<(Point, usize)>)
    requires
        i <= v@.len(),
    ensures
        match r {
            Some((p, j)) => spec_parse_point(v@, i as int) == Some((p, j as int)) && p.wf() && i
                <= j <= v@.len(),
            None => spec_parse_point(v@, i as int) is None,
        },
{
    match expect_lit(v, i, "{\"x\":") {
        None => None,
        Some(i1) => match parse_coord(v, i1) {
            None => None,
            Some((x, i2)) => match expect_lit(v, i2, ",\"y\":") {
                None => None,
                Some(i3) => match parse_coord(v, i3) {
                    None => None,
                    Some((y, i4)) => match expect_lit(v, i4, ",\"z\":") {
                        None => None,
                        Some(i5) => match parse_coord(v, i5) {
                            None => None,
                            Some((z, i6)) => match expect_lit(v, i6, "}") {
                                None => None,
                                Some(i7) => Some((Point { x, y, z }, i7)),
                            },
                        },
                    },
                },
            },
        },
    }
}

/// The segment of `whole` standing `pre` characters into its occurrence at
/// `i` in `s` equals `seg`, provided `whole` reads `seg` there.
proof fn lemma_seg(s: Seq<char>, i: int, whole: Seq<char>, pre: int, seg: Seq<char>)
    requires
        0 <= i,
        i + whole.len() <= s.len(),
        s.subrange(i, i + whole.len() as int) == whole,
        0 <= pre,
        pre + seg.len() <= whole.len(),
        forall|u: int| 0 <= u < seg.len() ==> whole[pre + u] == #[trigger] seg[u],
    ensures
        s.subrange(i + pre, i + pre + seg.len() as int) == seg,
{
    assert(s.subrange(i + pre, i + pre + seg.len() as int) =~= seg) by {
        assert forall|u: int|
            0 <= u < seg.len() implies s.subrange(i + pre, i + pre + seg.len() as int)[u] == seg[u] by {
            assert(s.subrange(i + pre, i + pre + seg.len() as int)[u] == s[i + pre + u]);
            assert(s.subrange(i, i + whole.len() as int)[pre + u] == whole[pre + u]);
            assert(seg[u] == whole[pre + u]);
        }
    }
}

proof fn lemma_point_roundtrip_at(s: Seq<char>, i: int, p: Point)
    requires
        p.wf(),
        0 <= i,
        i + spec_point_chars(p).len() <= s.len(),
        s.subrange(i, i + spec_point_chars(p).len() as int) == spec_point_chars(p),
    ensures
        spec_parse_point(s, i) == Some((p, i + spec_point_chars(p).len() as int)),
{
    reveal_strlit("{\"x\":");
    reveal_strlit(",\"y\":");
    reveal_strlit(",\"z\":");
    reveal_strlit("}");
    let pc = spec_point_chars(p);
    let cx = spec_coord_chars(p.x);
    let cy = spec_coord_chars(p.y);
    let cz = spec_coord_chars(p.z);
    let l0: Seq<char> = "{\"x\":"@;
    let ly: Seq<char> = ",\"y\":"@;
    let lz: Seq<char> = ",\"z\":"@;
    let lc: Seq<char> = "}"@;
    let i1 = i + l0.len() as int;
    let i2 = i1 + cx.len() as int;
    let i3 = i2 + ly.len() as int;
    let i4 = i3 + cy.len() as int;
    let i5 = i4 + lz.len() as int;
    let i6 = i5 + cz.len() as int;
    let i7 = i6 + lc.len() as int;
    assert(i7 == i + pc.len());
    lemma_seg(s, i, pc, 0, l0);
    lemma_seg(s, i, pc, i1 - i, cx);
    lemma_seg(s, i, pc, i2 - i, ly);
    lemma_seg(s, i, pc, i3 - i, cy);
    lemma_seg(s, i, pc, i4 - i, lz);
    lemma_seg(s, i, pc, i5 - i, cz);
    lemma_seg(s, i, pc, i6 - i, lc);
    assert(spec_expect(s, i, l0) == Some(i1));
    assert(s[i2] == ly[0]) by {
        assert(s.subrange(i2, i2 + ly.len() as int)[0] == ly[0]);
    }
    assert(s[i2] == ',');
    lemma_coord_roundtrip_at(s, i1, p.x);
    assert(spec_expect(s, i2, ly) == Some(i3));
    assert(s[i4] == lz[0]) by {
        assert(s.subrange(i4, i4 + lz.len() as int)[0] == lz[0]);
    }
    assert(s[i4] == ',');
    lemma_coord_roundtrip_at(s, i3, p.y);
    assert(spec_expect(s, i4, lz) == Some(i5));
    assert(s[i6] == lc[0]) by {
        assert(s.subrange(i6, i6 + lc.len() as int)[0] == lc[0]);
    }
    assert(s[i6] == '}');
    lemma_coord_roundtrip_at(s, i5, p.z);
    assert(spec_expect(s, i6, lc) == Some(i7));
}

// ---------------------------------------------------------------------
// Envelopes
// ---------------------------------------------------------------------

/// The JSON text of a client envelope: the variant name as the single key,
/// its fields in declaration order.
pub open spec fn spec_client_msg_chars(m: ClientMessageView) -> Seq<char> {
    match m {
        ClientMessageView::ClientOnConnect(c) => "{\"ClientOnConnect\":{\"client_name\":"@
            + spec_json_string(c.client_name) + ",\"message\":"@ + spec_json_string(c.message)
            + ",\"current_position\":"@ + spec_point_chars(c.current_position) + "}}"@,
        ClientMessageView::ClientCommandResponse(c) => "{\"ClientCommandResponse\":{\"message\":"@
            + spec_json_string(c.message) + ",\"current_position\":"@ + spec_point_chars(
            c.current_position,
        ) + "}}"@,
        ClientMessageView::Failed(c) => "{\"Failed\":{\"server_command\":"@ + spec_json_string(
            c.server_command,
        ) + ",\"current_position\":"@ + spec_point_chars(c.current_position) + "}}"@,
    }
}

/// The JSON text of a server envelope.
pub open spec fn spec_server_msg_chars(m: ServerMessageView) -> Seq<char> {
    match m {
        ServerMessageView::OnConnect(c) => "{\"OnConnect\":{\"client_name\":"@ + spec_json_string(
            c.client_name,
        ) + ",\"message\":"@ + spec_json_string(c.message) + "}}"@,
        ServerMessageView::ServerMoveCommand(p) => "{\"ServerMoveCommand\":"@ + spec_point_chars(p)
            + "}"@,
        ServerMessageView::ServerFailed(r) => "{\"ServerFailed\":"@ + spec_json_string(r) + "}"@,
    }
}

/// Write a client envelope as its JSON text.
pub fn encode_client_message(m: &ClientMessage) -> (r: String)
    requires
        m.wf(),
    ensures
        r@ == spec_client_msg_chars(m@),
{
    let mut out = String::new();
    match m {
        ClientMessage::ClientOnConnect(c) => {
            out.append("{\"ClientOnConnect\":{\"client_name\":");
            push_json_string(&mut out, c.client_name.as_str());
            out.append(",\"message\":");
            push_json_string(&mut out, c.message.as_str());
            out.append(",\"current_position\":");
            push_point(&mut out, c.current_position);
            out.append("}}");
        },
        ClientMessage::ClientCommandResponse(c) => {
            out.append("{\"ClientCommandResponse\":{\"message\":");
            push_json_string(&mut out, c.message.as_str());
            out.append(",\"current_position\":");
            push_point(&mut out, c.current_position);
            out.append("}}");
        },
        ClientMessage::Failed(c) => {
            out.append("{\"Failed\":{\"server_command\":");
            push_json_string(&mut out, c.server_command.as_str());
            out.append(",\"current_position\":");
            push_point(&mut out, c.current_position);
            out.append("}}");
        },
    }
    proof {
        assert(out@ =~= spec_client_msg_chars(m@));
    }
    out
}

/// Write a server envelope as its JSON text.
pub fn encode_server_message(m: &ServerMessage) -> (r: String)
    requires
        m.wf(),
    ensures
        r@ == spec_server_msg_chars(m@),
{
    let mut out = String::new();
    match m {
        ServerMessage::OnConnect(c) => {
            out.append("{\"OnConnect\":{\"client_name\":");
            push_json_string(&mut out, c.client_name.as_str());
            out.append(",\"message\":");
            push_json_string(&mut out, c.message.as_str());
            out.append("}}");
        },
        ServerMessage::ServerMoveCommand(p) => {
            out.append("{\"ServerMoveCommand\":");
            push_point(&mut out, *p);
            out.append("}");
        },
        ServerMessage::ServerFailed(r) => {
            out.append("{\"ServerFailed\":");
            push_json_string(&mut out, r.as_str());
            out.append("}");
        },
    }
    proof {
        assert(out@ =~= spec_server_msg_chars(m@));
    }
    out
}

/// Parse exactly one client envelope spanning the whole input.
pub open spec fn spec_parse_client(s: Seq<char>) -> Option<ClientMessageView> {
    match spec_expect(s, 0, "{\"ClientOnConnect\":{\"client_name\":"@) {
        Some(i1) => match spec_parse_string(s, i1) {
            None => None,
            Some((name, i2)) => match spec_expect(s, i2, ",\"message\":"@) {
                None => None,
                Some(i3) => match spec_parse_string(s, i3) {
                    None => None,
                    Some((msg, i4)) => match spec_expect(s, i4, ",\"current_position\":"@) {
                        None => None,
                        Some(i5) => match spec_parse_point(s, i5) {
                            None => None,
                            Some((p, i6)) => match spec_expect(s, i6, "}}"@) {
                                None => None,
                                Some(i7) => if i7 == s.len() {
                                    Some(
                                        ClientMessageView::ClientOnConnect(
                                            ClientOnConnectView {
                                                client_name: name,
                                                message: msg,
                                                current_position: p,
                                            },
                                        ),
                                    )
                                } else {
                                    None
                                },
                            },
                        },
                    },
                },
            },
        },
        None => match spec_expect(s, 0, "{\"ClientCommandResponse\":{\"message\":"@) {
            Some(i1) => match spec_parse_string(s, i1) {
                None => None,
                Some((msg, i2)) => match spec_expect(s, i2, ",\"current_position\":"@) {
                    None => None,
                    Some(i3) => match spec_parse_point(s, i3) {
                        None => None,
                        Some((p, i4)) => match spec_expect(s, i4, "}}"@) {
                            None => None,
                            Some(i5) => if i5 == s.len() {
                                Some(
                                    ClientMessageView::ClientCommandResponse(
                                        ClientCommandResponseView {
                                            message: msg,
                                            current_position: p,
                                        },
                                    ),
                                )
                            } else {
                                None
                            },
                        },
                    },
                },
            },
            None => match spec_expect(s, 0, "{\"Failed\":{\"server_command\":"@) {
                Some(i1) => match spec_parse_string(s, i1) {
                    None => None,
                    Some((cmd, i2)) => match spec_expect(s, i2, ",\"current_position\":"@) {
                        None => None,
                        Some(i3) => match spec_parse_point(s, i3) {
                            None => None,
                            Some((p, i4)) => match spec_expect(s, i4, "}}"@) {
                                None => None,
                                Some(i5) => if i5 == s.len() {
                                    Some(
                                        ClientMessageView::Failed(
                                            ClientFailedView {
                                                server_command: cmd,
                                                current_position: p,
                                            },
                                        ),
                                    )
                                } else {
                                    None
                                },
                            },
                        },
                    },
                },
                None => None,
            },
        },
    }
}

/// Parse exactly one server envelope spanning the whole input.
pub open spec fn spec_parse_server(s: Seq<char>) -> Option<ServerMessageView> {
    match spec_expect(s, 0, "{\"OnConnect\":{\"client_name\":"@) {
        Some(i1) => match spec_parse_string(s, i1) {
            None => None,
            Some((name, i2)) => match spec_expect(s, i2, ",\"message\":"@) {
                None => None,
                Some(i3) => match spec_parse_string(s, i3) {
                    None => None,
                    Some((msg, i4)) => match spec_expect(s, i4, "}}"@) {
                        None => None,
                        Some(i5) => if i5 == s.len() {
                            Some(
                                ServerMessageView::OnConnect(
                                    ServerOnConnectView { client_name: name, message: msg },
                                ),
                            )
                        } else {
                            None
                        },
                    },
                },
            },
        },
        None => match spec_expect(s, 0, "{\"ServerMoveCommand\":"@) {
            Some(i1) => match spec_parse_point(s, i1) {
                None => None,
                Some((p, i2)) => match spec_expect(s, i2, "}"@) {
                    None => None,
                    Some(i3) => if i3 == s.len() {
                        Some(ServerMessageView::ServerMoveCommand(p))
                    } else {
                        None
                    },
                },
            },
            None => match spec_expect(s, 0, "{\"ServerFailed\":"@) {
                Some(i1) => match spec_parse_string(s, i1) {
                    None => None,
                    Some((r, i2)) => match spec_expect(s, i2, "}"@) {
                        None => None,
                        Some(i3) => if i3 == s.len() {
                            Some(ServerMessageView::ServerFailed(r))
                        } else {
                            None
                        },
                    },
                },
                None => None,
            },
        },
    }
}

/// Read a client envelope out of one payload's JSON text.
pub fn decode_client_message(s: &str) -> (r: Option<ClientMessage>)
    ensures
        match r {
            Some(m) => spec_parse_client(s@) == Some(m@),
            None => spec_parse_client(s@) is None,
        },
{
    let v = str_chars(s);
    match expect_lit(&v, 0, "{\"ClientOnConnect\":{\"client_name\":") {
        Some(i1) => match parse_string(&v, i1) {
            None => None,
            Some((name, i2)) => match expect_lit(&v, i2, ",\"message\":") {
                None => None,
                Some(i3) => match parse_string(&v, i3) {
                    None => None,
                    Some((msg, i4)) => match expect_lit(&v, i4, ",\"current_position\":") {
                        None => None,
                        Some(i5) => match parse_point(&v, i5) {
                            None => None,
                            Some((p, i6)) => match expect_lit(&v, i6, "}}") {
                                None => None,
                                Some(i7) => if i7 == v.len() {
                                    Some(
                                        ClientMessage::ClientOnConnect(
                                            ClientOnConnect {
                                                client_name: name,
                                                message: msg,
                                                current_position: p,
                                            },
                                        ),
                                    )
                                } else {
                                    None
                                },
                            },
                        },
                    },
                },
            },
        },
        None => match expect_lit(&v, 0, "{\"ClientCommandResponse\":{\"message\":") {
            Some(i1) => match parse_string(&v, i1) {
                None => None,
                Some((msg, i2)) => match expect_lit(&v, i2, ",\"current_position\":") {
                    None => None,
                    Some(i3) => match parse_point(&v, i3) {
                        None => None,
                        Some((p, i4)) => match expect_lit(&v, i4, "}}") {
                            None => None,
                            Some(i5) => if i5 == v.len() {
                                Some(
                                    ClientMessage::ClientCommandResponse(
                                        ClientCommandResponse {
                                            message: msg,
                                            current_position: p,
                                        },
                                    ),
                                )
                            } else {
                                None
                            },
                        },
                    },
                },
            },
            None => match expect_lit(&v, 0, "{\"Failed\":{\"server_command\":") {
                Some(i1) => match parse_string(&v, i1) {
                    None => None,
                    Some((cmd, i2)) => match expect_lit(&v, i2, ",\"current_position\":") {
                        None => None,
                        Some(i3) => match parse_point(&v, i3) {
                            None => None,
                            Some((p, i4)) => match expect_lit(&v, i4, "}}") {
                                None => None,
                                Some(i5) => if i5 == v.len() {
                                    Some(
                                        ClientMessage::Failed(
                                            ClientFailed {
                                                server_command: cmd,
                                                current_position: p,
                                            },
                                        ),
                                    )
                                } else {
                                    None
                                },
                            },
                        },
                    },
                },
                None => None,
            },
        },
    }
}

/// Read a server envelope out of one payload's JSON text.
pub fn decode_server_message(s: &str) -> (r: Option<ServerMessage>)
    ensures
        match r {
            Some(m) => spec_parse_server(s@) == Some(m@),
            None => spec_parse_server(s@) is None,
        },
{
    let v = str_chars(s);
    match expect_lit(&v, 0, "{\"OnConnect\":{\"client_name\":") {
        Some(i1) => match parse_string(&v, i1) {
            None => None,
            Some((name, i2)) => match expect_lit(&v, i2, ",\"message\":") {
                None => None,
                Some(i3) => match parse_string(&v, i3) {
                    None => None,
                    Some((msg, i4)) => match expect_lit(&v, i4, "}}") {
                        None => None,
                        Some(i5) => if i5 == v.len() {
                            Some(
                                ServerMessage::OnConnect(
                                    ServerOnConnect { client_name: name, message: msg },
                                ),
                            )
                        } else {
                            None
                        },
                    },
                },
            },
        },
        None => match expect_lit(&v, 0, "{\"ServerMoveCommand\":") {
            Some(i1) => match parse_point(&v, i1) {
                None => None,
                Some((p, i2)) => match expect_lit(&v, i2, "}") {
                    None => None,
                    Some(i3) => if i3 == v.len() {
                        Some(ServerMessage::ServerMoveCommand(p))
                    } else {
                        None
                    },
                },
            },
            None => match expect_lit(&v, 0, "{\"ServerFailed\":") {
                Some(i1) => match parse_string(&v, i1) {
                    None => None,
                    Some((r, i2)) => match expect_lit(&v, i2, "}") {
                        None => None,
                        Some(i3) => if i3 == v.len() {
                            Some(ServerMessage::ServerFailed(r))
                        } else {
                            None
                        },
                    },
                },
                None => None,
            },
        },
    }
}

// ---------------------------------------------------------------------
// Round trip of whole envelopes
// ---------------------------------------------------------------------

/// Law (framing round trip, payload text): decoding the JSON text produced
/// for any well-formed client envelope yields that envelope again.
#[verifier::rlimit(100)]
#[verifier::spinoff_prover]
pub proof fn lemma_client_message_roundtrip(m: ClientMessageView)
    requires
        m.wf(),
    ensures
        spec_parse_client(spec_client_msg_chars(m)) == Some(m),
{
    reveal_strlit("{\"ClientOnConnect\":{\"client_name\":");
    reveal_strlit("{\"ClientCommandResponse\":{\"message\":");
    reveal_strlit("{\"Failed\":{\"server_command\":");
    reveal_strlit(",\"message\":");
    reveal_strlit(",\"current_position\":");
    reveal_strlit("}}");
    let s = spec_client_msg_chars(m);
    let l_onc: Seq<char> = "{\"ClientOnConnect\":{\"client_name\":"@;
    let l_crs: Seq<char> = "{\"ClientCommandResponse\":{\"message\":"@;
    let l_fld: Seq<char> = "{\"Failed\":{\"server_command\":"@;
    let l_msg: Seq<char> = ",\"message\":"@;
    let l_pos: Seq<char> = ",\"current_position\":"@;
    let l_end: Seq<char> = "}}"@;
    assert(s.subrange(0, s.len() as int) =~= s);
    match m {
        ClientMessageView::ClientOnConnect(c) => {
            let jn = spec_json_string(c.client_name);
            let jm = spec_json_string(c.message);
            let pc = spec_point_chars(c.current_position);
            let i1 = l_onc.len() as int;
            let i2 = i1 + jn.len() as int;
            let i3 = i2 + l_msg.len() as int;
            let i4 = i3 + jm.len() as int;
            let i5 = i4 + l_pos.len() as int;
            let i6 = i5 + pc.len() as int;
            let i7 = i6 + l_end.len() as int;
            lemma_seg(s, 0, s, 0, l_onc);
            lemma_seg(s, 0, s, i1, jn);
            lemma_seg(s, 0, s, i2, l_msg);
            lemma_seg(s, 0, s, i3, jm);
            lemma_seg(s, 0, s, i4, l_pos);
            lemma_seg(s, 0, s, i5, pc);
            lemma_seg(s, 0, s, i6, l_end);
            assert(spec_expect(s, 0, l_onc) == Some(i1));
            lemma_string_roundtrip_at(s, i1, c.client_name);
            assert(spec_expect(s, i2, l_msg) == Some(i3));
            lemma_string_roundtrip_at(s, i3, c.message);
            assert(spec_expect(s, i4, l_pos) == Some(i5));
            lemma_point_roundtrip_at(s, i5, c.current_position);
            assert(spec_expect(s, i6, l_end) == Some(i7));
            assert(i7 == s.len());
        },
        ClientMessageView::ClientCommandResponse(c) => {
            let jm = spec_json_string(c.message);
            let pc = spec_point_chars(c.current_position);
            let i1 = l_crs.len() as int;
            let i2 = i1 + jm.len() as int;
            let i3 = i2 + l_pos.len() as int;
            let i4 = i3 + pc.len() as int;
            let i5 = i4 + l_end.len() as int;
            assert(spec_expect(s, 0, l_onc) is None) by {
                if l_onc.len() <= s.len() && s.subrange(0, l_onc.len() as int) == l_onc {
                    assert(s.subrange(0, l_onc.len() as int)[8] == s[8]);
                    assert(s[8] == l_crs[8]);
                    assert(l_onc[8] != l_crs[8]);
                }
            }
            lemma_seg(s, 0, s, 0, l_crs);
            lemma_seg(s, 0, s, i1, jm);
            lemma_seg(s, 0, s, i2, l_pos);
            lemma_seg(s, 0, s, i3, pc);
            lemma_seg(s, 0, s, i4, l_end);
            assert(spec_expect(s, 0, l_crs) == Some(i1));
            lemma_string_roundtrip_at(s, i1, c.message);
            assert(spec_expect(s, i2, l_pos) == Some(i3));
            lemma_point_roundtrip_at(s, i3, c.current_position);
            assert(spec_expect(s, i4, l_end) == Some(i5));
            assert(i5 == s.len());
        },
        ClientMessageView::Failed(c) => {
            let jm = spec_json_string(c.server_command);
            let pc = spec_point_chars(c.current_position);
            let i1 = l_fld.len() as int;
            let i2 = i1 + jm.len() as int;
            let i3 = i2 + l_pos.len() as int;
            let i4 = i3 + pc.len() as int;
            let i5 = i4 + l_end.len() as int;
            assert(spec_expect(s, 0, l_onc) is None) by {
                if l_onc.len() <= s.len() && s.subrange(0, l_onc.len() as int) == l_onc {
                    assert(s.subrange(0, l_onc.len() as int)[2] == s[2]);
                    assert(s[2] == l_fld[2]);
                    assert(l_onc[2] != l_fld[2]);
                }
            }
            assert(spec_expect(s, 0, l_crs) is None) by {
                if l_crs.len() <= s.len() && s.subrange(0, l_crs.len() as int) == l_crs {
                    assert(s.subrange(0, l_crs.len() as int)[2] == s[2]);
                    assert(s[2] == l_fld[2]);
                    assert(l_crs[2] != l_fld[2]);
                }
            }
            lemma_seg(s, 0, s, 0, l_fld);
            lemma_seg(s, 0, s, i1, jm);
            lemma_seg(s, 0, s, i2, l_pos);
            lemma_seg(s, 0, s, i3, pc);
            lemma_seg(s, 0, s, i4, l_end);
            assert(spec_expect(s, 0, l_fld) == Some(i1));
            lemma_string_roundtrip_at(s, i1, c.server_command);
            assert(spec_expect(s, i2, l_pos) == Some(i3));
            lemma_point_roundtrip_at(s, i3, c.current_position);
            assert(spec_expect(s, i4, l_end) == Some(i5));
            assert(i5 == s.len());
        },
    }
}

/// Law (framing round trip, payload text): decoding the JSON text produced
/// for any well-formed server envelope yields that envelope again.
#[verifier::rlimit(100)]
#[verifier::spinoff_prover]
pub proof fn lemma_server_message_roundtrip(m: ServerMessageView)
    requires
        m.wf(),
    ensures
        spec_parse_server(spec_server_msg_chars(m)) == Some(m),
{
    reveal_strlit("{\"OnConnect\":{\"client_name\":");
    reveal_strlit("{\"ServerMoveCommand\":");
    reveal_strlit("{\"ServerFailed\":");
    reveal_strlit(",\"message\":");
    reveal_strlit("}}");
    reveal_strlit("}");
    let s = spec_server_msg_chars(m);
    let l_soc: Seq<char> = "{\"OnConnect\":{\"client_name\":"@;
    let l_smv: Seq<char> = "{\"ServerMoveCommand\":"@;
    let l_sfl: Seq<char> = "{\"ServerFailed\":"@;
    let l_msg: Seq<char> = ",\"message\":"@;
    let l_end2: Seq<char> = "}}"@;
    let l_end1: Seq<char> = "}"@;
    assert(s.subrange(0, s.len() as int) =~= s);
    match m {
        ServerMessageView::OnConnect(c) => {
            let jn = spec_json_string(c.client_name);
            let jm = spec_json_string(c.message);
            let i1 = l_soc.len() as int;
            let i2 = i1 + jn.len() as int;
            let i3 = i2 + l_msg.len() as int;
            let i4 = i3 + jm.len() as int;
            let i5 = i4 + l_end2.len() as int;
            lemma_seg(s, 0, s, 0, l_soc);
            lemma_seg(s, 0, s, i1, jn);
            lemma_seg(s, 0, s, i2, l_msg);
            lemma_seg(s, 0, s, i3, jm);
            lemma_seg(s, 0, s, i4, l_end2);
            assert(spec_expect(s, 0, l_soc) == Some(i1));
            lemma_string_roundtrip_at(s, i1, c.client_name);
            assert(spec_expect(s, i2, l_msg) == Some(i3));
            lemma_string_roundtrip_at(s, i3, c.message);
            assert(spec_expect(s, i4, l_end2) == Some(i5));
            assert(i5 == s.len());
        },
        ServerMessageView::ServerMoveCommand(p) => {
            let pc = spec_point_chars(p);
            let i1 = l_smv.len() as int;
            let i2 = i1 + pc.len() as int;
            let i3 = i2 + l_end1.len() as int;
            assert(spec_expect(s, 0, l_soc) is None) by {
                if l_soc.len() <= s.len() && s.subrange(0, l_soc.len() as int) == l_soc {
                    assert(s.subrange(0, l_soc.len() as int)[2] == s[2]);
                    assert(s[2] == l_smv[2]);
                    assert(l_soc[2] != l_smv[2]);
                }
            }
            lemma_seg(s, 0, s, 0, l_smv);
            lemma_seg(s, 0, s, i1, pc);
            lemma_seg(s, 0, s, i2, l_end1);
            assert(spec_expect(s, 0, l_smv) == Some(i1));
            lemma_point_roundtrip_at(s, i1, p);
            assert(spec_expect(s, i2, l_end1) == Some(i3));
            assert(i3 == s.len());
        },
        ServerMessageView::ServerFailed(r) => {
            let jr = spec_json_string(r);
            let i1 = l_sfl.len() as int;
            let i2 = i1 + jr.len() as int;
            let i3 = i2 + l_end1.len() as int;
            assert(spec_expect(s, 0, l_soc) is None) by {
                if l_soc.len() <= s.len() && s.subrange(0, l_soc.len() as int) == l_soc {
                    assert(s.subrange(0, l_soc.len() as int)[2] == s[2]);
                    assert(s[2] == l_sfl[2]);
                    assert(l_soc[2] != l_sfl[2]);
                }
            }
            assert(spec_expect(s, 0, l_smv) is None) by {
                if l_smv.len() <= s.len() && s.subrange(0, l_smv.len() as int) == l_smv {
                    assert(s.subrange(0, l_smv.len() as int)[8] == s[8]);
                    assert(s[8] == l_sfl[8]);
                    assert(l_smv[8] != l_sfl[8]);
                }
            }
            lemma_seg(s, 0, s, 0, l_sfl);
            lemma_seg(s, 0, s, i1, jr);
            lemma_seg(s, 0, s, i2, l_end1);
            assert(spec_expect(s, 0, l_sfl) == Some(i1));
            lemma_string_roundtrip_at(s, i1, r);
            assert(spec_expect(s, i2, l_end1) == Some(i3));
            assert(i3 == s.len());
        },
    }
}

// ---------------------------------------------------------------------
// Frames: 4-byte big-endian length prefix, then the payload bytes
// ---------------------------------------------------------------------

/// The four big-endian bytes of a payload length below `2^32`.
pub open spec fn spec_len_prefix(n: nat) -> Seq<u8> {
    seq![
        (n / 0x1000000) as u8,
        ((n / 0x10000) % 0x100) as u8,
        ((n / 0x100) % 0x100) as u8,
        (n % 0x100) as u8,
    ]
}

/// The length announced by the first four bytes of a buffer.
pub open spec fn prefix_val(b: Seq<u8>) -> int {
    b[0] * 0x1000000 + b[1] * 0x10000 + b[2] * 0x100 + b[3]
}

/// One whole frame for a payload.
pub open spec fn spec_frame(payload: Seq<u8>) -> Seq<u8> {
    spec_len_prefix(payload.len()) + payload
}

proof fn lemma_prefix_roundtrip(n: nat)
    requires
        n < 0x100000000,
    ensures
        prefix_val(spec_len_prefix(n)) == n,
        spec_len_prefix(n).len() == 4,
{
    assert(n == (n / 0x1000000) * 0x1000000 + ((n / 0x10000) % 0x100) * 0x10000 + ((n / 0x100)
        % 0x100) * 0x100 + n % 0x100) by (nonlinear_arith)
        requires
            n < 0x100000000nat,
    ;
    assert(n / 0x1000000 < 0x100);
}

/// The bytes of a well-formed client envelope's frame on the wire.
pub open spec fn spec_client_frame(m: ClientMessageView) -> Seq<u8> {
    spec_frame(vstd::utf8::encode_utf8(spec_client_msg_chars(m)))
}

/// The bytes of a well-formed server envelope's frame on the wire.
pub open spec fn spec_server_frame(m: ServerMessageView) -> Seq<u8> {
    spec_frame(vstd::utf8::encode_utf8(spec_server_msg_chars(m)))
}

fn frame_payload(payload: Vec<u8>) -> (r: Option<Vec<u8>>)
    ensures
        match r {
            Some(f) => payload@.len() < 0x100000000 && f@ == spec_frame(payload@),
            None => payload@.len() >= 0x100000000,
        },
{
    if payload.len() as u64 >= 0x100000000u64 {
        return None;
    }
    let n: u64 = payload.len() as u64;
    let mut f: Vec<u8> = Vec::new();
    f.push((n / 0x1000000) as u8);
    f.push(((n / 0x10000) % 0x100) as u8);
    f.push(((n / 0x100) % 0x100) as u8);
    f.push((n % 0x100) as u8);
    proof {
        assert(f@ =~= spec_len_prefix(payload@.len()));
    }
    let mut k: usize = 0;
    while k < payload.len()
        invariant
            k <= payload@.len(),
            f@ == spec_len_prefix(payload@.len()) + payload@.take(k as int),
        decreases payload@.len() - k,
    {
        f.push(payload[k]);
        proof {
            assert(payload@.take((k + 1) as int) =~= payload@.take(k as int) + seq![
                payload@[k as int],
            ]);
            assert(f@ =~= spec_len_prefix(payload@.len()) + payload@.take((k + 1) as int));
        }
        k += 1;
    }
    proof {
        assert(payload@.take(payload@.len() as int) =~= payload@);
    }
    Some(f)
}

/// Encode a client envelope as one frame: length prefix plus UTF-8 JSON
/// payload. `None` only when the payload cannot fit the 4-byte length.
pub fn encode_client_frame(m: &ClientMessage) -> (r: Option<Vec<u8>>)
    requires
        m.wf(),
    ensures
        match r {
            Some(f) => f@ == spec_client_frame(m@) && vstd::utf8::encode_utf8(
                spec_client_msg_chars(m@),
            ).len() < 0x100000000,
            None => vstd::utf8::encode_utf8(spec_client_msg_chars(m@)).len() >= 0x100000000,
        },
{
    let text = encode_client_message(m);
    let payload = text.as_str().as_bytes_vec();
    frame_payload(payload)
}

/// Encode a server envelope as one frame.
pub fn encode_server_frame(m: &ServerMessage) -> (r: Option<Vec<u8>>)
    requires
        m.wf(),
    ensures
        match r {
            Some(f) => f@ == spec_server_frame(m@) && vstd::utf8::encode_utf8(
                spec_server_msg_chars(m@),
            ).len() < 0x100000000,
            None => vstd::utf8::encode_utf8(spec_server_msg_chars(m@)).len() >= 0x100000000,
        },
{
    let text = encode_server_message(m);
    let payload = text.as_str().as_bytes_vec();
    frame_payload(payload)
}

/// Whether a buffered prefix of the stream holds one complete frame.
pub open spec fn spec_frame_complete(b: Seq<u8>) -> bool {
    b.len() >= 4 && b.len() >= 4 + prefix_val(b)
}

/// Split one complete frame off the front of a stream buffer: the payload
/// and the number of bytes consumed. `None` while the buffer does not yet
/// hold the whole announced span — no decode is attempted before then.
pub fn take_frame(buf: &Vec<u8>) -> (r: Option<(Vec<u8>, usize)>)
    ensures
        match r {
            Some((payload, used)) => spec_frame_complete(buf@) && used as int == 4 + prefix_val(
                buf@,
            ) && payload@ == buf@.subrange(4, used as int),
            None => !spec_frame_complete(buf@),
        },
{
    if buf.len() < 4 {
        return None;
    }
    let n: u64 = (buf[0] as u64) * 0x1000000 + (buf[1] as u64) * 0x10000 + (buf[2] as u64) * 0x100
        + (buf[3] as u64);
    if ((buf.len() - 4) as u64) < n {
        return None;
    }
    let used = 4 + n as usize;
    let mut payload: Vec<u8> = Vec::new();
    let mut k: usize = 4;
    while k < used
        invariant
            4 <= k <= used,
            used as int == 4 + prefix_val(buf@),
            used <= buf@.len(),
            payload@ == buf@.subrange(4, k as int),
        decreases used - k,
    {
        payload.push(buf[k]);
        proof {
            assert(buf@.subrange(4, (k + 1) as int) =~= buf@.subrange(4, k as int) + seq![
                buf@[k as int],
            ]);
        }
        k += 1;
    }
    Some((payload, used))
}

/// Decode one frame's payload bytes into a client envelope: the bytes must
/// be valid UTF-8 and hold exactly one envelope.
pub fn decode_client_frame(payload: Vec<u8>) -> (r: Option<ClientMessage>)
    ensures
        match r {
            Some(m) => vstd::utf8::valid_utf8(payload@) && spec_parse_client(
                vstd::utf8::decode_utf8(payload@),
            ) == Some(m@),
            None => !vstd::utf8::valid_utf8(payload@) || spec_parse_client(
                vstd::utf8::decode_utf8(payload@),
            ) is None,
        },
{
    let ghost gb = payload@;
    match string_from_utf8(payload) {
        None => None,
        Some(text) => {
            proof {
                vstd::utf8::encode_utf8_decode_utf8(text@);
            }
            decode_client_message(text.as_str())
        },
    }
}

/// Decode one frame's payload bytes into a server envelope.
pub fn decode_server_frame(payload: Vec<u8>) -> (r: Option<ServerMessage>)
    ensures
        match r {
            Some(m) => vstd::utf8::valid_utf8(payload@) && spec_parse_server(
                vstd::utf8::decode_utf8(payload@),
            ) == Some(m@),
            None => !vstd::utf8::valid_utf8(payload@) || spec_parse_server(
                vstd::utf8::decode_utf8(payload@),
            ) is None,
        },
{
    let ghost gb = payload@;
    match string_from_utf8(payload) {
        None => None,
        Some(text) => {
            proof {
                vstd::utf8::encode_utf8_decode_utf8(text@);
            }
            decode_server_message(text.as_str())
        },
    }
}

/// Law (framing round trip, whole frames): the frame of any well-formed
/// client envelope is complete, splits into exactly its payload, whose
/// bytes are valid UTF-8 decoding to the envelope's JSON text, which parses
/// back to the very envelope.
pub proof fn lemma_client_frame_roundtrip(m: ClientMessageView)
    requires
        m.wf(),
        vstd::utf8::encode_utf8(spec_client_msg_chars(m)).len() < 0x100000000,
    ensures
        ({
            let chars = spec_client_msg_chars(m);
            let payload = vstd::utf8::encode_utf8(chars);
            let f = spec_client_frame(m);
            &&& spec_frame_complete(f)
            &&& 4 + prefix_val(f) == f.len()
            &&& f.subrange(4, f.len() as int) == payload
            &&& vstd::utf8::valid_utf8(payload)
            &&& vstd::utf8::decode_utf8(payload) == chars
            &&& spec_parse_client(chars) == Some(m)
        }),
{
    let chars = spec_client_msg_chars(m);
    let payload = vstd::utf8::encode_utf8(chars);
    let f = spec_client_frame(m);
    lemma_prefix_roundtrip(payload.len());
    assert(f.take(4) =~= spec_len_prefix(payload.len()));
    assert(prefix_val(f) == prefix_val(spec_len_prefix(payload.len()))) by {
        assert(f[0] == spec_len_prefix(payload.len())[0]);
        assert(f[1] == spec_len_prefix(payload.len())[1]);
        assert(f[2] == spec_len_prefix(payload.len())[2]);
        assert(f[3] == spec_len_prefix(payload.len())[3]);
    }
    assert(f.subrange(4, f.len() as int) =~= payload);
    vstd::utf8::encode_utf8_valid_utf8(chars);
    vstd::utf8::encode_utf8_decode_utf8(chars);
    lemma_client_message_roundtrip(m);
}

/// Law (framing round trip, whole frames): the server-envelope frame
/// decodes back to the very envelope, as for the client direction.
pub proof fn lemma_server_frame_roundtrip(m: ServerMessageView)
    requires
        m.wf(),
        vstd::utf8::encode_utf8(spec_server_msg_chars(m)).len() < 0x100000000,
    ensures
        ({
            let chars = spec_server_msg_chars(m);
            let payload = vstd::utf8::encode_utf8(chars);
            let f = spec_server_frame(m);
            &&& spec_frame_complete(f)
            &&& 4 + prefix_val(f) == f.len()
            &&& f.subrange(4, f.len() as int) == payload
            &&& vstd::utf8::valid_utf8(payload)
            &&& vstd::utf8::decode_utf8(payload) == chars
            &&& spec_parse_server(chars) == Some(m)
        }),
{
    let chars = spec_server_msg_chars(m);
    let payload = vstd::utf8::encode_utf8(chars);
    let f = spec_server_frame(m);
    lemma_prefix_roundtrip(payload.len());
    assert(f.take(4) =~= spec_len_prefix(payload.len()));
    assert(prefix_val(f) == prefix_val(spec_len_prefix(payload.len()))) by {
        assert(f[0] == spec_len_prefix(payload.len())[0]);
        assert(f[1] == spec_len_prefix(payload.len())[1]);
        assert(f[2] == spec_len_prefix(payload.len())[2]);
        assert(f[3] == spec_len_prefix(payload.len())[3]);
    }
    assert(f.subrange(4, f.len() as int) =~= payload);
    vstd::utf8::encode_utf8_valid_utf8(chars);
    vstd::utf8::encode_utf8_decode_utf8(chars);
    lemma_server_message_roundtrip(m);
}

} // verus!
