//! Fixed-width decimal fields.
//!
//! Every numeric field of the token payload is written as exactly
//! [`NUM_WIDTH`] decimal digits, zero-padded on the left.  The fixed width
//! keeps the wire format canonical: a value below [`NUM_BOUND`] has exactly
//! one rendering, and a rendering determines exactly one value, which the
//! round-trip lemmas below establish.

use vstd::prelude::*;
use vstd::string::*;

verus! {

/// Width in digits of one numeric field of the token payload.
pub const NUM_WIDTH: usize = 19;

/// `10^NUM_WIDTH`, the exclusive upper bound on every numeric field.
/// Any 19-digit decimal value fits in a `u64`, so reading a field back
/// can never overflow.
pub const NUM_BOUND: u64 = 10_000_000_000_000_000_000;

pub open spec fn pow10(k: nat) -> nat
    decreases k,
{
    if k == 0 {
        1
    } else {
        10 * pow10((k - 1) as nat)
    }
}

pub open spec fn is_digit_char(c: char) -> bool {
    48 <= c as u32 <= 57
}

/// The digit character for a value below ten.
pub open spec fn digit_char(d: nat) -> char {
    ((48 + d) as u8) as char
}

/// Numeric value of a digit character.
pub open spec fn digit_val(c: char) -> nat {
    (c as u32 - 48) as nat
}

pub open spec fn all_digits(s: Seq<char>) -> bool {
    forall|i: int| 0 <= i < s.len() ==> is_digit_char(#[trigger] s[i])
}

/// `n` rendered as exactly `k` decimal digits, most significant first.
pub open spec fn padded(n: nat, k: nat) -> Seq<char> {
    Seq::new(k, |i: int| digit_char(n / pow10((k - 1 - i) as nat) % 10))
}

/// Numeric value of a digit string, most significant digit first.
pub open spec fn val_of(s: Seq<char>) -> nat
    decreases s.len(),
{
    if s.len() == 0 {
        0
    } else {
        val_of(s.drop_last()) * 10 + digit_val(s.last())
    }
}

pub proof fn lemma_pow10_bound()
    ensures
        pow10(NUM_WIDTH as nat) == NUM_BOUND,
{
    reveal_with_fuel(pow10, 20);
}

pub proof fn lemma_pow10_pos(k: nat)
    ensures
        pow10(k) >= 1,
    decreases k,
{
    if k > 0 {
        lemma_pow10_pos((k - 1) as nat);
    }
}

/// A digit character is recovered from its numeric value.
pub proof fn lemma_digit_roundtrip(c: char)
    requires
        is_digit_char(c),
    ensures
        digit_char(digit_val(c)) == c,
{
    vstd::utf8::char_u32_cast(c, c as u32);
}

pub proof fn lemma_pow10_monotone(a: nat, b: nat)
    requires
        a <= b,
    ensures
        pow10(a) <= pow10(b),
    decreases b,
{
    if a < b {
        lemma_pow10_monotone(a, (b - 1) as nat);
    }
}

proof fn lemma_div_by_ten_bound(n: nat, k: nat)
    requires
        k >= 1,
        n < pow10(k),
    ensures
        n / 10 < pow10((k - 1) as nat),
{
    assert(pow10(k) == 10 * pow10((k - 1) as nat));
    assert(n / 10 < pow10((k - 1) as nat)) by (nonlinear_arith)
        requires n < 10 * pow10((k - 1) as nat),
    ;
}

/// A value below `10^k` reads back from its `k`-digit rendering.
pub proof fn lemma_val_of_padded(n: nat, k: nat)
    requires
        n < pow10(k),
    ensures
        padded(n, k).len() == k,
        all_digits(padded(n, k)),
        val_of(padded(n, k)) == n,
    decreases k,
{
    let s = padded(n, k);
    if k == 0 {
        assert(s =~= Seq::<char>::empty());
    } else {
        lemma_div_by_ten_bound(n, k);
        lemma_val_of_padded(n / 10, (k - 1) as nat);
        assert forall|i: int| 0 <= i < k - 1 implies s.drop_last()[i] == padded(
            n / 10,
            (k - 1) as nat,
        )[i] by {
            let e = (k - 1 - i) as nat;
            lemma_pow10_pos((e - 1) as nat);
            assert(pow10(e) == 10 * pow10((e - 1) as nat));
            assert(n / 10 / pow10((e - 1) as nat) == n / pow10(e)) by (nonlinear_arith)
                requires pow10(e) == 10 * pow10((e - 1) as nat), pow10((e - 1) as nat) > 0,
            ;
        }
        assert(s.drop_last() =~= padded(n / 10, (k - 1) as nat));
        assert(pow10(0) == 1);
        assert(s[k - 1] == digit_char(n / pow10(0) % 10));
        assert(s.last() == digit_char(n % 10));
        assert(val_of(s) == (n / 10) * 10 + n % 10);
        vstd::arithmetic::div_mod::lemma_fundamental_div_mod(n as int, 10);
    }
}

/// A `k`-digit string is the rendering of its own value, and that value
/// lies below `10^k`: the rendering is canonical.
pub proof fn lemma_padded_val_of(s: Seq<char>, k: nat)
    requires
        s.len() == k,
        all_digits(s),
    ensures
        val_of(s) < pow10(k),
        padded(val_of(s), k) == s,
    decreases k,
{
    if k == 0 {
        assert(padded(val_of(s), 0) =~= s);
    } else {
        let d = digit_val(s.last());
        let head = s.drop_last();
        lemma_padded_val_of(head, (k - 1) as nat);
        assert(val_of(s) == val_of(head) * 10 + d);
        assert(val_of(s) < pow10(k)) by (nonlinear_arith)
            requires
                val_of(s) == val_of(head) * 10 + d,
                val_of(head) < pow10((k - 1) as nat),
                d < 10,
                pow10(k) == 10 * pow10((k - 1) as nat),
        ;
        assert(val_of(s) / 10 == val_of(head) && val_of(s) % 10 == d) by (nonlinear_arith)
            requires val_of(s) == val_of(head) * 10 + d, d < 10,
        ;
        let p = padded(val_of(s), k);
        assert forall|i: int| 0 <= i < k implies p[i] == s[i] by {
            if i < k - 1 {
                let e = (k - 1 - i) as nat;
                lemma_pow10_pos((e - 1) as nat);
                assert(pow10(e) == 10 * pow10((e - 1) as nat));
                assert(val_of(s) / pow10(e) == val_of(s) / 10 / pow10((e - 1) as nat))
                    by (nonlinear_arith)
                    requires pow10(e) == 10 * pow10((e - 1) as nat), pow10((e - 1) as nat) > 0,
                ;
                assert(padded(val_of(head), (k - 1) as nat)[i] == head[i]);
            } else {
                assert(pow10(0) == 1);
                assert((k - 1 - i) as nat == 0);
                assert(p[i] == digit_char(val_of(s) / pow10((k - 1 - i) as nat) % 10));
                assert(val_of(s) / pow10(0) == val_of(s));
                assert(is_digit_char(s.last()));
                lemma_digit_roundtrip(s.last());
            }
        }
        assert(p =~= s);
    }
}

/// Appends the `NUM_WIDTH`-digit rendering of `n` to `out`.
pub fn write_padded(out: &mut String, n: u64)
    requires
        n < NUM_BOUND,
    ensures
        final(out)@ == old(out)@ + padded(n as nat, NUM_WIDTH as nat),
{
    proof {
        lemma_pow10_bound();
        lemma_val_of_padded(n as nat, NUM_WIDTH as nat);
    }
    let ghost target = padded(n as nat, NUM_WIDTH as nat);
    let mut j: usize = 0;
    let mut p: u64 = 1_000_000_000_000_000_000;
    proof {
        reveal_with_fuel(pow10, 20);
    }
    while j < NUM_WIDTH
        invariant
            j <= NUM_WIDTH,
            n < NUM_BOUND,
            j < NUM_WIDTH ==> p == pow10((NUM_WIDTH - 1 - j) as nat),
            out@ == old(out)@ + target.take(j as int),
            target == padded(n as nat, NUM_WIDTH as nat),
            target.len() == NUM_WIDTH,
        decreases NUM_WIDTH - j,
    {
        proof {
            lemma_pow10_pos((NUM_WIDTH - 1 - j) as nat);
        }
        let d = (n / p) % 10;
        let c = (48u8 + (d as u8)) as char;
        assert(c == target[j as int]);
        out.push(c);
        assert(out@ =~= old(out)@ + target.take(j as int + 1));
        if j < NUM_WIDTH - 1 {
            assert(pow10((NUM_WIDTH - 1 - j) as nat) == 10 * pow10((NUM_WIDTH - 2 - j) as nat));
            p = p / 10;
        }
        j = j + 1;
    }
    assert(target.take(NUM_WIDTH as int) =~= target);
}

/// Reads the `NUM_WIDTH`-digit numeric field that starts at character
/// position `start` of `s`; yields nothing when any of those characters
/// is not a digit.
pub fn read_padded(s: &str, start: usize) -> (r: Option<u64>)
    requires
        start + NUM_WIDTH <= s@.len(),
        s@.len() <= usize::MAX,
    ensures
        ({
            let field = s@.subrange(start as int, start as int + NUM_WIDTH as int);
            if all_digits(field) {
                r == Some((val_of(field) as u64)) && val_of(field) < NUM_BOUND
            } else {
                r is None
            }
        }),
{
    let ghost field = s@.subrange(start as int, start as int + NUM_WIDTH as int);
    let mut acc: u64 = 0;
    let mut j: usize = 0;
    proof {
        lemma_pow10_bound();
    }
    while j < NUM_WIDTH
        invariant
            j <= NUM_WIDTH,
            start + NUM_WIDTH <= s@.len(),
            s@.len() <= usize::MAX,
            field == s@.subrange(start as int, start as int + NUM_WIDTH as int),
            all_digits(field.take(j as int)),
            acc == val_of(field.take(j as int)),
            acc < pow10(j as nat),
            pow10(NUM_WIDTH as nat) == NUM_BOUND,
        decreases NUM_WIDTH - j,
    {
        let c = s.get_char(start + j);
        assert(c == field[j as int]);
        let cu = c as u32;
        if cu < 48 || cu > 57 {
            assert(!is_digit_char(field[j as int]));
            return None;
        }
        proof {
            lemma_pow10_monotone((j + 1) as nat, NUM_WIDTH as nat);
            assert(pow10((j + 1) as nat) == 10 * pow10(j as nat));
        }
        let d = (cu - 48) as u64;
        assert(acc * 10 + d < pow10((j + 1) as nat)) by (nonlinear_arith)
            requires acc < pow10(j as nat), d < 10, pow10((j + 1) as nat) == 10 * pow10(j as nat),
        ;
        acc = acc * 10 + d;
        proof {
            assert(field.take(j as int + 1).drop_last() =~= field.take(j as int));
            assert(field.take(j as int + 1).last() == c);
        }
        j = j + 1;
    }
    assert(field.take(NUM_WIDTH as int) =~= field);
    proof {
        lemma_pow10_monotone(NUM_WIDTH as nat, NUM_WIDTH as nat);
    }
    Some(acc)
}

/// A canonical small decimal: one to three digits, no leading zero, value
/// at most 255.
pub open spec fn spec_parse_u8(s: Seq<char>) -> Option<u8> {
    if 1 <= s.len() <= 3 && all_digits(s) && (s.len() > 1 ==> s[0] != '0') && val_of(s) <= 255 {
        Some(val_of(s) as u8)
    } else {
        None
    }
}

/// Reads a whole string as a canonical small decimal; yields nothing on
/// any other shape.
pub fn parse_u8(s: &str) -> (r: Option<u8>)
    ensures
        r == spec_parse_u8(s@),
{
    let n = s.unicode_len();
    if n < 1 || n > 3 {
        return None;
    }
    if n > 1 && s.get_char(0) == '0' {
        return None;
    }
    let mut acc: u32 = 0;
    let mut j: usize = 0;
    while j < n
        invariant
            j <= n,
            n as nat == s@.len(),
            1 <= n <= 3,
            all_digits(s@.take(j as int)),
            acc == val_of(s@.take(j as int)),
            acc < 1000,
        decreases n - j,
    {
        let c = s.get_char(j);
        let u = c as u32;
        if u < 48 || u > 57 {
            proof {
                assert(!is_digit_char(s@[j as int]));
                if all_digits(s@) {
                    assert(is_digit_char(s@[j as int]));
                }
            }
            return None;
        }
        proof {
            assert(s@.take(j + 1).drop_last() =~= s@.take(j as int));
            assert(s@.take(j + 1).last() == c);
        }
        acc = acc * 10 + (u - 48);
        proof {
            lemma_padded_val_of(s@.take(j as int + 1), (j + 1) as nat);
            lemma_pow10_monotone((j + 1) as nat, 3);
            reveal_with_fuel(pow10, 4);
        }
        j = j + 1;
    }
    proof {
        assert(s@.take(n as int) =~= s@);
    }
    if acc > 255 {
        return None;
    }
    Some(acc as u8)
}

/// The ordinary decimal rendering of a number: no padding, no leading
/// zeros (a lone zero for zero).
pub open spec fn dec_chars(n: nat) -> Seq<char>
    decreases n,
{
    if n < 10 {
        seq![digit_char(n)]
    } else {
        dec_chars(n / 10).push(digit_char(n % 10))
    }
}

/// Appends the decimal rendering of a small number to `out`.
pub fn write_u8_decimal(out: &mut String, n: u8)
    ensures
        final(out)@ == old(out)@ + dec_chars(n as nat),
{
    let ghost v = n as nat;
    if n >= 100 {
        proof {
            vstd::arithmetic::div_mod::lemma_div_denominator(v as int, 10, 10);
            assert(dec_chars(v) == dec_chars(v / 10).push(digit_char(v % 10)));
            assert(dec_chars(v / 10) == dec_chars(v / 100).push(digit_char(v / 10 % 10)));
            assert(dec_chars(v / 100) == seq![digit_char(v / 100)]);
        }
        out.push((48u8 + n / 100) as char);
        out.push((48u8 + (n / 10) % 10) as char);
        out.push((48u8 + n % 10) as char);
        proof {
            assert(out@ =~= old(out)@ + dec_chars(v));
        }
    } else if n >= 10 {
        proof {
            assert(dec_chars(v) == dec_chars(v / 10).push(digit_char(v % 10)));
            assert(dec_chars(v / 10) == seq![digit_char(v / 10)]);
        }
        out.push((48u8 + n / 10) as char);
        out.push((48u8 + n % 10) as char);
        proof {
            assert(out@ =~= old(out)@ + dec_chars(v));
        }
    } else {
        out.push((48u8 + n) as char);
        proof {
            assert(out@ =~= old(out)@ + dec_chars(v));
        }
    }
}

} // verus!
