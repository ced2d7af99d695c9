//! Uppercase hexadecimal formatting and parsing.
//!
//! Registry keys are 24-bit address prefixes written as 6 uppercase hex
//! characters, and the snapshot encodes lengths as 16 fixed-width hex
//! characters, so both directions are specified here once: `hex_seq` gives
//! the fixed-width rendering of a number and `hex_val` reads it back.

use vstd::prelude::*;

verus! {

/// The uppercase hexadecimal digit character for a value below 16.
pub open spec fn hex_digit(n: int) -> char
    recommends
        0 <= n < 16,
{
    if n == 0 {
        '0'
    } else if n == 1 {
        '1'
    } else if n == 2 {
        '2'
    } else if n == 3 {
        '3'
    } else if n == 4 {
        '4'
    } else if n == 5 {
        '5'
    } else if n == 6 {
        '6'
    } else if n == 7 {
        '7'
    } else if n == 8 {
        '8'
    } else if n == 9 {
        '9'
    } else if n == 10 {
        'A'
    } else if n == 11 {
        'B'
    } else if n == 12 {
        'C'
    } else if n == 13 {
        'D'
    } else if n == 14 {
        'E'
    } else {
        'F'
    }
}

/// Whether `c` is an uppercase hexadecimal digit.
pub open spec fn is_hex_digit(c: char) -> bool {
    ('0' as u32 <= c as u32 && c as u32 <= '9' as u32) || ('A' as u32 <= c as u32 && c as u32
        <= 'F' as u32)
}

/// The numeric value of an uppercase hexadecimal digit.
pub open spec fn hex_digit_value(c: char) -> int
    recommends
        is_hex_digit(c),
{
    if '0' as u32 <= c as u32 && c as u32 <= '9' as u32 {
        c as u32 - '0' as u32
    } else {
        c as u32 - 'A' as u32 + 10
    }
}

/// The fixed-width rendering of `n` as `digits` uppercase hex characters,
/// most significant digit first; digits beyond the width are discarded.
pub open spec fn hex_seq(n: int, digits: nat) -> Seq<char>
    decreases digits,
{
    if digits == 0 {
        Seq::empty()
    } else {
        hex_seq(n / 16, (digits - 1) as nat).push(hex_digit(n % 16))
    }
}

/// Whether every character of `s` is an uppercase hexadecimal digit.
pub open spec fn is_hex(s: Seq<char>) -> bool {
    forall|i: int| 0 <= i < s.len() ==> is_hex_digit(#[trigger] s[i])
}

/// The number a sequence of hex digits denotes, most significant first.
pub open spec fn hex_val(s: Seq<char>) -> int
    decreases s.len(),
{
    if s.len() == 0 {
        0
    } else {
        16 * hex_val(s.drop_last()) + hex_digit_value(s.last())
    }
}

/// Sixteen to the power `d`: the number of values `d` hex digits can denote.
pub open spec fn pow16(d: nat) -> int
    decreases d,
{
    if d == 0 {
        1
    } else {
        16 * pow16((d - 1) as nat)
    }
}

pub proof fn lemma_pow16_values()
    ensures
        pow16(2) == 0x100,
        pow16(6) == 0x1000000,
        pow16(15) == 0x1000000000000000,
        pow16(16) == 0x10000000000000000,
{
    assert(pow16(0) == 1);
    assert(pow16(1) == 16);
    assert(pow16(2) == 0x100);
    assert(pow16(3) == 0x1000);
    assert(pow16(4) == 0x10000);
    assert(pow16(5) == 0x100000);
    assert(pow16(6) == 0x1000000);
    assert(pow16(7) == 0x10000000);
    assert(pow16(8) == 0x100000000);
    assert(pow16(9) == 0x1000000000);
    assert(pow16(10) == 0x10000000000);
    assert(pow16(11) == 0x100000000000);
    assert(pow16(12) == 0x1000000000000);
    assert(pow16(13) == 0x10000000000000);
    assert(pow16(14) == 0x100000000000000);
    assert(pow16(15) == 0x1000000000000000);
    assert(pow16(16) == 0x10000000000000000);
}

pub proof fn lemma_pow16_pos(d: nat)
    ensures
        pow16(d) >= 1,
    decreases d,
{
    if d > 0 {
        lemma_pow16_pos((d - 1) as nat);
    }
}

pub proof fn lemma_pow16_monotonic(a: nat, b: nat)
    requires
        a <= b,
    ensures
        pow16(a) <= pow16(b),
        pow16(a) >= 1,
    decreases b,
{
    lemma_pow16_pos(a);
    if a < b {
        lemma_pow16_monotonic(a, (b - 1) as nat);
        lemma_pow16_pos((b - 1) as nat);
        assert(pow16(b) == 16 * pow16((b - 1) as nat));
    }
}

/// A fixed-width rendering always has exactly its requested width.
pub proof fn lemma_hex_seq_len(n: int, digits: nat)
    ensures
        hex_seq(n, digits).len() == digits,
    decreases digits,
{
    if digits > 0 {
        lemma_hex_seq_len(n / 16, (digits - 1) as nat);
    }
}

/// Rendering a number in range and reading it back yields the number, and
/// the rendering consists of hex digits only.
pub proof fn lemma_hex_seq_val(n: int, digits: nat)
    requires
        0 <= n < pow16(digits),
    ensures
        is_hex(hex_seq(n, digits)),
        hex_val(hex_seq(n, digits)) == n,
    decreases digits,
{
    if digits == 0 {
        assert(hex_seq(n, digits) =~= Seq::<char>::empty());
    } else {
        let q = n / 16;
        let r = n % 16;
        assert(0 <= r < 16);
        assert(q < pow16((digits - 1) as nat)) by (nonlinear_arith)
            requires
                n < 16 * pow16((digits - 1) as nat),
                q == n / 16,
                n >= 0,
        {}
        lemma_hex_seq_val(q, (digits - 1) as nat);
        lemma_hex_seq_len(q, (digits - 1) as nat);
        let inner = hex_seq(q, (digits - 1) as nat);
        let whole = inner.push(hex_digit(r));
        assert(whole.drop_last() =~= inner);
        assert(whole.last() == hex_digit(r));
        assert(is_hex_digit(hex_digit(r)) && hex_digit_value(hex_digit(r)) == r);
        assert(hex_val(whole) == 16 * q + r);
        assert(16 * q + r == n) by (nonlinear_arith)
            requires
                q == n / 16,
                r == n % 16,
                n >= 0,
        {}
        assert forall|i: int| 0 <= i < whole.len() implies is_hex_digit(#[trigger] whole[i]) by {
            if i < inner.len() {
                assert(whole[i] == inner[i]);
            }
        }
    }
}

/// A sequence of hex digits denotes a number below sixteen to its length.
pub proof fn lemma_hex_val_bound(s: Seq<char>)
    requires
        is_hex(s),
    ensures
        0 <= hex_val(s) < pow16(s.len()),
    decreases s.len(),
{
    if s.len() > 0 {
        assert(is_hex(s.drop_last()));
        lemma_hex_val_bound(s.drop_last());
        assert(is_hex_digit(s.last()));
        assert(0 <= hex_digit_value(s.last()) < 16);
        assert(16 * hex_val(s.drop_last()) + 16 <= 16 * pow16((s.len() - 1) as nat))
            by (nonlinear_arith)
            requires
                hex_val(s.drop_last()) < pow16((s.len() - 1) as nat),
        {}
    }
}

/// Reading a hex digit character and rendering the value gives the same
/// character back.
pub proof fn lemma_hex_digit_inverse(c: char)
    requires
        is_hex_digit(c),
    ensures
        hex_digit(hex_digit_value(c)) == c,
{
    let u = c as u32;
    let d = hex_digit_value(c);
    if '0' as u32 <= u && u <= '9' as u32 {
        assert(d == u - 48);
        assert(hex_digit(d) as u32 == u);
    } else {
        assert(d == u - 55);
        assert(hex_digit(d) as u32 == u);
    }
}

/// A sequence of hex digits is exactly the rendering, at its own width,
/// of the number it denotes.
pub proof fn lemma_hex_seq_of_val(s: Seq<char>)
    requires
        is_hex(s),
    ensures
        hex_seq(hex_val(s), s.len()) == s,
    decreases s.len(),
{
    if s.len() == 0 {
        assert(hex_seq(hex_val(s), 0) =~= s);
    } else {
        let prefix = s.drop_last();
        assert(is_hex(prefix));
        lemma_hex_seq_of_val(prefix);
        lemma_hex_val_bound(prefix);
        let n = hex_val(s);
        let d = hex_digit_value(s.last());
        assert(0 <= d < 16);
        assert(n == hex_val(prefix) * 16 + d);
        vstd::arithmetic::div_mod::lemma_fundamental_div_mod_converse(n, 16, hex_val(prefix), d);
        assert(n / 16 == hex_val(prefix) && n % 16 == d);
        lemma_hex_digit_inverse(s.last());
        assert(hex_digit(d) == s.last());
        assert(hex_seq(n, s.len()) == hex_seq(hex_val(prefix), (s.len() - 1) as nat).push(
            hex_digit(d),
        ));
        assert(prefix.push(s.last()) =~= s);
    }
}

/// Rendering splits at any digit boundary: the high digits and the low
/// digits of a number render independently.
pub proof fn lemma_hex_seq_split(hi: int, lo: int, d_hi: nat, d_lo: nat)
    requires
        0 <= lo < pow16(d_lo),
        0 <= hi,
    ensures
        hex_seq(hi * pow16(d_lo) + lo, (d_hi + d_lo) as nat) == hex_seq(hi, d_hi) + hex_seq(
            lo,
            d_lo,
        ),
    decreases d_lo,
{
    if d_lo == 0 {
        assert(hex_seq(hi * 1 + 0, d_hi) =~= hex_seq(hi, d_hi) + hex_seq(lo, 0));
    } else {
        let n = hi * pow16(d_lo) + lo;
        let p = pow16((d_lo - 1) as nat);
        lemma_pow16_monotonic(0, (d_lo - 1) as nat);
        let hp = hi * p;
        assert(hi * (16 * p) == 16 * hp) by (nonlinear_arith)
            requires
                hp == hi * p,
        {}
        vstd::arithmetic::div_mod::lemma_fundamental_div_mod(lo, 16);
        assert(n == (hp + lo / 16) * 16 + lo % 16);
        vstd::arithmetic::div_mod::lemma_fundamental_div_mod_converse(
            n,
            16,
            hp + lo / 16,
            lo % 16,
        );
        assert(n % 16 == lo % 16 && n / 16 == hp + lo / 16);
        assert(lo / 16 < p) by (nonlinear_arith)
            requires
                lo < 16 * p,
                lo >= 0,
        {}
        lemma_hex_seq_split(hi, lo / 16, d_hi, (d_lo - 1) as nat);
        assert(hex_seq(n, (d_hi + d_lo) as nat) == hex_seq(n / 16, (d_hi + d_lo - 1) as nat).push(
            hex_digit(n % 16),
        ));
        assert((hex_seq(hi, d_hi) + hex_seq(lo / 16, (d_lo - 1) as nat)).push(hex_digit(lo % 16))
            =~= hex_seq(hi, d_hi) + hex_seq(lo / 16, (d_lo - 1) as nat).push(hex_digit(lo % 16)));
    }
}

/// The uppercase hexadecimal digit character for a value below 16.
fn hex_digit_char(n: u64) -> (c: char)
    requires
        n < 16,
    ensures
        c == hex_digit(n as int),
{
    if n == 0 {
        '0'
    } else if n == 1 {
        '1'
    } else if n == 2 {
        '2'
    } else if n == 3 {
        '3'
    } else if n == 4 {
        '4'
    } else if n == 5 {
        '5'
    } else if n == 6 {
        '6'
    } else if n == 7 {
        '7'
    } else if n == 8 {
        '8'
    } else if n == 9 {
        '9'
    } else if n == 10 {
        'A'
    } else if n == 11 {
        'B'
    } else if n == 12 {
        'C'
    } else if n == 13 {
        'D'
    } else if n == 14 {
        'E'
    } else {
        'F'
    }
}

/// Render `n` as exactly `digits` uppercase hex characters, zero padded.
pub fn hex_str(n: u64, digits: usize) -> (r: String)
    ensures
        r@ == hex_seq(n as int, digits as nat),
        r@.len() == digits,
    decreases digits,
{
    proof {
        lemma_hex_seq_len(n as int, digits as nat);
    }
    if digits == 0 {
        String::new()
    } else {
        let mut r = hex_str(n / 16, digits - 1);
        r.push(hex_digit_char(n % 16));
        r
    }
}

/// Whether `c` is an uppercase hexadecimal digit.
fn is_hex_digit_char(c: char) -> (r: bool)
    ensures
        r == is_hex_digit(c),
{
    let u = c as u32;
    (48 <= u && u <= 57) || (65 <= u && u <= 70)
}

/// Read `digits` characters of `s` starting at `start` as a fixed-width
/// uppercase hex number; `None` exactly when some character is not an
/// uppercase hex digit.
pub fn parse_hex(s: &str, start: usize, digits: usize) -> (r: Option<u64>)
    requires
        start + digits <= s@.len(),
        start + digits <= usize::MAX,
        digits <= 16,
    ensures
        match r {
            Some(n) => {
                &&& is_hex(s@.subrange(start as int, start as int + digits as int))
                &&& n as int == hex_val(s@.subrange(start as int, start as int + digits as int))
                &&& n < pow16(digits as nat)
            },
            None => !is_hex(s@.subrange(start as int, start as int + digits as int)),
        },
{
    proof {
        lemma_pow16_values();
    }
    let ghost whole = s@.subrange(start as int, start as int + digits as int);
    let mut acc: u64 = 0;
    let mut j: usize = 0;
    while j < digits
        invariant
            j <= digits,
            digits <= 16,
            start + digits <= s@.len(),
            start + digits <= usize::MAX,
            whole == s@.subrange(start as int, start as int + digits as int),
            is_hex(s@.subrange(start as int, start as int + j as int)),
            acc as int == hex_val(s@.subrange(start as int, start as int + j as int)),
            acc < pow16(j as nat),
            pow16(15) == 0x1000000000000000,
        decreases digits - j,
    {
        let c = s.get_char(start + j);
        if !is_hex_digit_char(c) {
            proof {
                assert(whole[j as int] == c);
            }
            return None;
        }
        let u = c as u32;
        let d: u64 = if 48 <= u && u <= 57 {
            (u - 48) as u64
        } else {
            (u - 65 + 10) as u64
        };
        proof {
            assert(d as int == hex_digit_value(c));
            lemma_pow16_monotonic(j as nat, 15);
            assert(acc < 0x1000000000000000);
            let prefix = s@.subrange(start as int, start as int + j as int);
            let next = s@.subrange(start as int, start as int + j as int + 1);
            assert(next.drop_last() =~= prefix);
            assert(next.last() == c);
            assert(hex_val(next) == 16 * hex_val(prefix) + hex_digit_value(c));
            assert(is_hex(next)) by {
                assert forall|i: int| 0 <= i < next.len() implies is_hex_digit(
                    #[trigger] next[i],
                ) by {
                    if i < j {
                        assert(next[i] == prefix[i]);
                    }
                }
            }
        }
        acc = acc * 16 + d;
        j = j + 1;
    }
    proof {
        assert(s@.subrange(start as int, start as int + j as int) == whole);
    }
    Some(acc)
}

/// The 24-bit key of an address whose leading bytes are `b0`, `b1`, `b2`.
pub open spec fn oui_key(b0: u8, b1: u8, b2: u8) -> u32 {
    (b0 as int * 0x10000 + b1 as int * 0x100 + b2 as int) as u32
}

/// The 6-character uppercase hex form of a 24-bit key.
pub open spec fn oui_hex(k: u32) -> Seq<char> {
    hex_seq(k as int, 6)
}

/// Format the three leading bytes of a hardware address as the registry
/// key: each byte as two uppercase hex digits, zero padded, concatenated.
pub fn format_oui(b0: u8, b1: u8, b2: u8) -> (r: String)
    ensures
        r@ == oui_hex(oui_key(b0, b1, b2)),
        r@.len() == 6,
{
    let k: u32 = (b0 as u32) * 0x10000 + (b1 as u32) * 0x100 + (b2 as u32);
    hex_str(k as u64, 6)
}

/// Zero-padding law: the formatted key is the concatenation of one
/// two-character component per byte, so a byte below 0x10 still yields a
/// full two characters (its component begins with '0'), never one.
pub proof fn lemma_zero_padding(b0: u8, b1: u8, b2: u8)
    ensures
        oui_hex(oui_key(b0, b1, b2)) == hex_seq(b0 as int, 2) + hex_seq(b1 as int, 2) + hex_seq(
            b2 as int,
            2,
        ),
        hex_seq(b0 as int, 2).len() == 2,
        hex_seq(b1 as int, 2).len() == 2,
        hex_seq(b2 as int, 2).len() == 2,
        b0 < 0x10 ==> hex_seq(b0 as int, 2)[0] == '0',
{
    lemma_pow16_values();
    let k = oui_key(b0, b1, b2);
    lemma_hex_seq_len(b0 as int, 2);
    lemma_hex_seq_len(b1 as int, 2);
    lemma_hex_seq_len(b2 as int, 2);
    lemma_hex_seq_split(b0 as int * 0x100 + b1 as int, b2 as int, 4, 2);
    lemma_hex_seq_split(b0 as int, b1 as int, 2, 2);
    assert(k as int == (b0 as int * 0x100 + b1 as int) * pow16(2) + b2 as int);
    assert(hex_seq(k as int, 6) == hex_seq(b0 as int * 0x100 + b1 as int, 4) + hex_seq(
        b2 as int,
        2,
    ));
    if b0 < 0x10 {
        let t = hex_seq(b0 as int, 2);
        assert(t == hex_seq(b0 as int / 16, 1).push(hex_digit(b0 as int % 16)));
        assert(hex_seq(b0 as int / 16, 1) == hex_seq(b0 as int / 16 / 16, 0).push(
            hex_digit(b0 as int / 16 % 16),
        ));
        assert(hex_seq(b0 as int / 16 / 16, 0) =~= Seq::<char>::empty());
        assert(t[0] == hex_digit(b0 as int / 16 % 16));
        assert(b0 as int / 16 == 0);
    }
}


} // verus!

