//! The arithmetic of the machine: what the register operations compute.
use vstd::arithmetic::power2::pow2;
use vstd::prelude::*;

use crate::isa::Opcode;

verus! {

/// The number of 32-bit words.
pub open spec fn word_count() -> int {
    0x1_0000_0000
}

/// The two's complement value of a word.
pub open spec fn signed(word: u32) -> int {
    if word < 0x8000_0000 {
        word as int
    } else {
        word - word_count()
    }
}

/// The word that stands for an integer, modulo the number of words.
pub open spec fn wrapped(value: int) -> u32 {
    (value % word_count()) as u32
}

/// The quotient of two integers, rounded toward zero.
pub open spec fn truncated_quotient(dividend: int, divisor: int) -> int
    recommends
        divisor != 0,
{
    if dividend >= 0 {
        if divisor > 0 {
            dividend / divisor
        } else {
            -(dividend / -divisor)
        }
    } else {
        if divisor > 0 {
            -(-dividend / divisor)
        } else {
            -dividend / -divisor
        }
    }
}

/// What is left of a division rounded toward zero: it has the sign of the dividend.
pub open spec fn truncated_remainder(dividend: int, divisor: int) -> int
    recommends
        divisor != 0,
{
    dividend - divisor * truncated_quotient(dividend, divisor)
}

/// The result of a register operation on two operands.
pub open spec fn alu_result(opcode: Opcode, b: u32, c: u32) -> u32
    recommends
        opcode.is_alu(),
{
    match opcode {
        Opcode::ADD => wrapped(b + c),
        Opcode::SUB => wrapped(b - c),
        Opcode::XOR => b ^ c,
        Opcode::OR => b | c,
        Opcode::AND => b & c,
        Opcode::SLL => wrapped(b * pow2((c % 32) as nat)),
        Opcode::SRL => wrapped(b as int / pow2((c % 32) as nat) as int),
        Opcode::SRA => wrapped(signed(b) / pow2((c % 32) as nat) as int),
        Opcode::SLT => if signed(b) < signed(c) {
            1
        } else {
            0
        },
        Opcode::SLTU => if b < c {
            1
        } else {
            0
        },
        Opcode::MUL => wrapped(b * c),
        Opcode::MULH => wrapped((signed(b) * signed(c)) / word_count()),
        Opcode::MULHU => wrapped((b * c) / word_count()),
        Opcode::MULHSU => wrapped((signed(b) * c) / word_count()),
        Opcode::DIV => if c == 0 {
            u32::MAX
        } else {
            wrapped(truncated_quotient(signed(b), signed(c)))
        },
        Opcode::DIVU => if c == 0 {
            u32::MAX
        } else {
            b / c
        },
        Opcode::REM => if c == 0 {
            b
        } else {
            wrapped(truncated_remainder(signed(b), signed(c)))
        },
        Opcode::REMU => if c == 0 {
            b
        } else {
            b % c
        },
        _ => 0,
    }
}

/// The two's complement value of a word.
fn to_signed(word: u32) -> (value: i64)
    ensures
        value == signed(word),
        -0x8000_0000 <= value < 0x8000_0000,
{
    if word < 0x8000_0000 {
        word as i64
    } else {
        word as i64 - 0x1_0000_0000
    }
}

/// The word that stands for a value of at most twice its width.
fn to_word(value: i64) -> (word: u32)
    requires
        -0x1_0000_0000 <= value < 0x1_0000_0000,
    ensures
        word == wrapped(value as int),
{
    if value < 0 {
        (value + 0x1_0000_0000) as u32
    } else {
        value as u32
    }
}

/// The size of a word's value, without its sign.
fn magnitude(value: i64) -> (size: u32)
    requires
        -0x8000_0000 <= value < 0x8000_0000,
    ensures
        size == if value < 0 {
            -value
        } else {
            value as int
        },
{
    if value < 0 {
        (-value) as u32
    } else {
        value as u32
    }
}

/// The upper word of a product.
fn high_word(product: i128) -> (word: u32)
    requires
        -0x1_0000_0000_0000_0000 <= product <= 0x1_0000_0000_0000_0000,
    ensures
        word == wrapped(product as int / word_count()),
{
    let lifted: u128 = (product + 0x1_0000_0000_0000_0000) as u128;
    let word: u32 = ((lifted / 0x1_0000_0000) % 0x1_0000_0000) as u32;
    assert(lifted as int / word_count() == product as int / word_count() + word_count());
    word
}

/// The product of two numbers of at most word size.
fn product(x: i64, y: i64) -> (p: i128)
    requires
        -0x8000_0000 <= x < 0x1_0000_0000,
        -0x8000_0000 <= y < 0x1_0000_0000,
    ensures
        p == x * y,
        -0x1_0000_0000_0000_0000 <= p <= 0x1_0000_0000_0000_0000,
{
    assert(-0x1_0000_0000_0000_0000 <= x * y <= 0x1_0000_0000_0000_0000) by (nonlinear_arith)
        requires
            -0x8000_0000 <= x < 0x1_0000_0000,
            -0x8000_0000 <= y < 0x1_0000_0000,
    ;
    x as i128 * y as i128
}

/// A shift to the right that keeps the sign.
fn shift_right_arithmetic(word: u32, distance: u32) -> (shifted: u32)
    requires
        distance < 32,
    ensures
        shifted == wrapped(signed(word) / pow2(distance as nat) as int),
{
    proof {
        vstd::arithmetic::power2::lemma_pow2_pos(distance as nat);
    }
    if word < 0x8000_0000 {
        proof {
            vstd::bits::lemma_u32_shr_is_div(word, distance);
            lemma_quotient_range(word as int, pow2(distance as nat) as int);
        }
        word >> distance
    } else {
        let mirrored: u32 = 0xffff_ffff - word;
        let shifted: u32 = mirrored >> distance;
        proof {
            vstd::bits::lemma_u32_shr_is_div(mirrored, distance);
            let d = pow2(distance as nat) as int;
            lemma_quotient_range(mirrored as int, d);
            // floor(x / d) == -1 - floor((-1 - x) / d)
            assert(signed(word) / d == -1 - (mirrored as int / d)) by {
                let q = mirrored as int / d;
                let r = mirrored as int % d;
                vstd::arithmetic::div_mod::lemma_fundamental_div_mod(mirrored as int, d);
                assert(signed(word) == d * (-1 - q) + (d - 1 - r)) by (nonlinear_arith)
                    requires
                        signed(word) == -1 - mirrored,
                        mirrored as int == d * q + r,
                ;
                vstd::arithmetic::div_mod::lemma_mod_bound(mirrored as int, d);
                vstd::arithmetic::div_mod::lemma_fundamental_div_mod_converse(
                    signed(word),
                    d,
                    -1 - q,
                    d - 1 - r,
                );
            }
        }
        0xffff_ffff - shifted
    }
}

proof fn lemma_quotient_range(value: int, divisor: int)
    requires
        0 <= value < word_count(),
        divisor > 0,
    ensures
        0 <= value / divisor <= value,
{
    vstd::arithmetic::div_mod::lemma_div_pos_is_pos(value, divisor);
    vstd::arithmetic::div_mod::lemma_div_is_ordered_by_denominator(value, 1, divisor);
    assert(value / 1 == value);
}

/// Computes a register operation.
pub fn alu(opcode: Opcode, b: u32, c: u32) -> (a: u32)
    requires
        opcode.is_alu(),
    ensures
        a == alu_result(opcode, b, c),
{
    match opcode {
        Opcode::ADD => b.wrapping_add(c),
        Opcode::SUB => b.wrapping_sub(c),
        Opcode::XOR => b ^ c,
        Opcode::OR => b | c,
        Opcode::AND => b & c,
        Opcode::SLL => shift_left(b, c % 32),
        Opcode::SRL => {
            proof {
                vstd::arithmetic::power2::lemma_pow2_pos((c % 32) as nat);
                vstd::bits::lemma_u32_shr_is_div(b, c % 32);
                lemma_quotient_range(b as int, pow2((c % 32) as nat) as int);
            }
            b >> (c % 32)
        },
        Opcode::SRA => shift_right_arithmetic(b, c % 32),
        Opcode::SLT => if to_signed(b) < to_signed(c) {
            1
        } else {
            0
        },
        Opcode::SLTU => if b < c {
            1
        } else {
            0
        },
        Opcode::MUL => b.wrapping_mul(c),
        Opcode::MULH => high_word(product(to_signed(b), to_signed(c))),
        Opcode::MULHU => high_word(product(b as i64, c as i64)),
        Opcode::MULHSU => high_word(product(to_signed(b), c as i64)),
        Opcode::DIV => if c == 0 {
            u32::MAX
        } else {
            divide(to_signed(b), to_signed(c))
        },
        Opcode::DIVU => if c == 0 {
            u32::MAX
        } else {
            b / c
        },
        Opcode::REM => if c == 0 {
            b
        } else {
            remainder(to_signed(b), to_signed(c))
        },
        Opcode::REMU => if c == 0 {
            b
        } else {
            b % c
        },
        _ => 0,
    }
}

/// A shift to the left; what leaves the word is lost.
fn shift_left(word: u32, distance: u32) -> (shifted: u32)
    requires
        distance < 32,
    ensures
        shifted == wrapped(word * pow2(distance as nat)),
{
    proof {
        let wide: u64 = word as u64;
        let far: u64 = distance as u64;
        assert((word << distance) as u64 == (wide << far) % 0x1_0000_0000) by (bit_vector)
            requires
                wide == word as u64,
                far == distance as u64,
                distance < 32,
        ;
        vstd::arithmetic::power2::lemma2_to64();
        assert(word * pow2(distance as nat) <= u64::MAX) by {
            if distance < 31 {
                vstd::arithmetic::power2::lemma_pow2_strictly_increases(distance as nat, 31);
            }
            assert(pow2(distance as nat) <= 0x8000_0000);
            assert(word * pow2(distance as nat) <= 0xffff_ffff * 0x8000_0000) by (nonlinear_arith)
                requires
                    word <= 0xffff_ffff,
                    pow2(distance as nat) <= 0x8000_0000,
            ;
        }
        vstd::bits::lemma_u64_shl_is_mul(wide, far);
    }
    word << distance
}

/// The quotient of two word values, rounded toward zero.
fn divide(dividend: i64, divisor: i64) -> (quotient: u32)
    requires
        -0x8000_0000 <= dividend < 0x8000_0000,
        -0x8000_0000 <= divisor < 0x8000_0000,
        divisor != 0,
    ensures
        quotient == wrapped(truncated_quotient(dividend as int, divisor as int)),
{
    let size: u32 = magnitude(dividend) / magnitude(divisor);
    proof {
        let n = if dividend < 0 { -dividend } else { dividend as int };
        let d = if divisor < 0 { -divisor } else { divisor as int };
        lemma_quotient_range(n, d);
    }
    if (dividend < 0) == (divisor < 0) {
        to_word(size as i64)
    } else {
        to_word(-(size as i64))
    }
}

/// What is left of a division of two word values.
fn remainder(dividend: i64, divisor: i64) -> (rest: u32)
    requires
        -0x8000_0000 <= dividend < 0x8000_0000,
        -0x8000_0000 <= divisor < 0x8000_0000,
        divisor != 0,
    ensures
        rest == wrapped(truncated_remainder(dividend as int, divisor as int)),
{
    let size: u32 = magnitude(dividend) % magnitude(divisor);
    proof {
        let n = if dividend < 0 { -dividend } else { dividend as int };
        let d = if divisor < 0 { -divisor } else { divisor as int };
        vstd::arithmetic::div_mod::lemma_fundamental_div_mod(n, d);
        vstd::arithmetic::div_mod::lemma_mod_bound(n, d);
        let q = n / d;
        assert((-d) * (-q) == d * q) by (nonlinear_arith);
        assert(d * (-q) == -(d * q)) by (nonlinear_arith);
        assert((-d) * q == -(d * q)) by (nonlinear_arith);
    }
    if dividend < 0 {
        to_word(-(size as i64))
    } else {
        to_word(size as i64)
    }
}

/// The size of an integer, without its sign.
pub open spec fn size_of(value: int) -> int {
    if value < 0 {
        -value
    } else {
        value
    }
}

proof fn lemma_signed_mod(word: u32)
    ensures
        signed(word) % word_count() == word as int,
{
    if word >= 0x8000_0000 {
        assert(signed(word) + word_count() == word);
        vstd::arithmetic::div_mod::lemma_mod_add_multiples_vanish(signed(word), word_count());
    }
}

proof fn lemma_truncated(dividend: int, divisor: int)
    requires
        divisor != 0,
    ensures
        dividend == truncated_quotient(dividend, divisor) * divisor + truncated_remainder(
            dividend,
            divisor,
        ),
        size_of(truncated_remainder(dividend, divisor)) < size_of(divisor),
        dividend >= 0 ==> truncated_remainder(dividend, divisor) >= 0,
        dividend <= 0 ==> truncated_remainder(dividend, divisor) <= 0,
{
    let n = size_of(dividend);
    let d = size_of(divisor);
    let q = n / d;
    vstd::arithmetic::div_mod::lemma_fundamental_div_mod(n, d);
    vstd::arithmetic::div_mod::lemma_mod_bound(n, d);
    assert((-d) * (-q) == d * q) by (nonlinear_arith);
    assert(d * (-q) == -(d * q)) by (nonlinear_arith);
    assert((-d) * q == -(d * q)) by (nonlinear_arith);
    let t = truncated_quotient(dividend, divisor);
    assert(divisor * t == t * divisor) by (nonlinear_arith);
}

proof fn lemma_words_of_sum(x: int, y: int, z: int)
    ensures
        wrapped(wrapped(x) * wrapped(y) + wrapped(z)) == wrapped(x * y + z),
{
    let m = word_count();
    vstd::arithmetic::div_mod::lemma_mul_mod_noop(x, y, m);
    vstd::arithmetic::div_mod::lemma_add_mod_noop(x * y, z, m);
    vstd::arithmetic::div_mod::lemma_add_mod_noop((x % m) * (y % m), z % m, m);
    vstd::arithmetic::div_mod::lemma_mod_twice(z, m);
}

/// A division gives quotient and remainder that make up the dividend again. The remainder is smaller
/// than the divisor and has the sign of the dividend. Division by zero gives all ones and the
/// dividend.
pub proof fn law_division(b: u32, c: u32)
    ensures
        ({
            let q = alu_result(Opcode::DIV, b, c);
            let r = alu_result(Opcode::REM, b, c);
            &&& q.wrapping_mul(c).wrapping_add(r) == b
            &&& c == 0 ==> q == u32::MAX && r == b
            &&& c != 0 ==> size_of(signed(r)) < size_of(signed(c))
            &&& c != 0 ==> signed(r) == 0 || (signed(r) < 0 <==> signed(b) < 0)
            &&& b == 0x8000_0000 && c == u32::MAX ==> q == 0x8000_0000 && r == 0
        }),
        ({
            let q = alu_result(Opcode::DIVU, b, c);
            let r = alu_result(Opcode::REMU, b, c);
            &&& q.wrapping_mul(c).wrapping_add(r) == b
            &&& c == 0 ==> q == u32::MAX && r == b
            &&& c != 0 ==> r < c
        }),
{
    if c != 0 {
        let n = signed(b);
        let d = signed(c);
        let t = truncated_quotient(n, d);
        let left = truncated_remainder(n, d);
        lemma_truncated(n, d);
        lemma_signed_mod(b);
        lemma_signed_mod(c);
        lemma_words_of_sum(t, d, left);
        assert(wrapped(d) == c);
        let q = alu_result(Opcode::DIV, b, c);
        let r = alu_result(Opcode::REM, b, c);
        assert(wrapped(q * c + r) == b);
        lemma_wrapping(q, c, r);
        assert(signed(r) == left);
        if b == 0x8000_0000 && c == u32::MAX {
            assert(n == -0x8000_0000 && d == -1);
            assert(t == 0x8000_0000);
            assert(left == 0);
        }
        vstd::arithmetic::div_mod::lemma_fundamental_div_mod(b as int, c as int);
        vstd::arithmetic::div_mod::lemma_mod_bound(b as int, c as int);
        assert((b / c) * c == c * (b / c)) by (nonlinear_arith);
        lemma_wrapping(b / c, c, b % c);
    } else {
        lemma_wrapping(u32::MAX, c, b);
        assert(u32::MAX * 0 == 0);
    }
}

pub(crate) proof fn lemma_truncated_division(b: u32, c: u32)
    requires
        c != 0,
    ensures
        ({
            let n = signed(b);
            let d = signed(c);
            let t = truncated_quotient(n, d);
            let q = alu_result(Opcode::DIV, b, c);
            let r = alu_result(Opcode::REM, b, c);
            &&& t * d + signed(r) == n
            &&& !(n == -0x8000_0000 && d == -1) ==> signed(q) == t
        }),
{
    let n = signed(b);
    let d = signed(c);
    lemma_truncated(n, d);
    let size = size_of(n) / size_of(d);
    lemma_quotient_range(size_of(n), size_of(d));
    if d != 1 && d != -1 {
        assert(2 * size <= size_of(n)) by (nonlinear_arith)
            requires
                size == size_of(n) / size_of(d),
                size_of(d) >= 2,
                size_of(n) >= 0,
        ;
    }
    assert(-0x8000_0000 <= truncated_quotient(n, d) <= 0x8000_0000);
    if truncated_quotient(n, d) == 0x8000_0000 {
        assert(n == -0x8000_0000 && d == -1);
    }
}

proof fn lemma_wrapping(q: u32, c: u32, r: u32)
    ensures
        q.wrapping_mul(c).wrapping_add(r) == wrapped(q * c + r),
{
    let m = word_count();
    assert(q * c >= 0) by (nonlinear_arith)
        requires
            q >= 0,
            c >= 0,
    ;
    assert(q.wrapping_mul(c) == wrapped(q * c));
    assert(q.wrapping_mul(c).wrapping_add(r) == wrapped(q.wrapping_mul(c) + r));
    vstd::arithmetic::div_mod::lemma_add_mod_noop(q * c, r as int, m);
    vstd::arithmetic::div_mod::lemma_add_mod_noop((q * c) % m, r as int, m);
    vstd::arithmetic::div_mod::lemma_mod_twice(q * c, m);
}

/// The high and the low word of a product are together the whole product, signed, unsigned, or signed
/// by unsigned.
pub proof fn law_product(b: u32, c: u32)
    ensures
        ({
            let low = alu_result(Opcode::MUL, b, c) as int;
            &&& signed(alu_result(Opcode::MULH, b, c)) * word_count() + low == signed(b) * signed(c)
            &&& alu_result(Opcode::MULHU, b, c) * word_count() + low == b * c
            &&& signed(alu_result(Opcode::MULHSU, b, c)) * word_count() + low == signed(b) * c
        }),
{
    let m = word_count();
    lemma_signed_mod(b);
    lemma_signed_mod(c);
    lemma_low_word(signed(b), signed(c), b, c);
    lemma_low_word(signed(b), c as int, b, c);
    lemma_low_word(b as int, c as int, b, c);
    assert(-0x4000_0000_0000_0000 <= signed(b) * signed(c) <= 0x4000_0000_0000_0000)
        by (nonlinear_arith)
        requires
            -0x8000_0000 <= signed(b) < 0x8000_0000,
            -0x8000_0000 <= signed(c) < 0x8000_0000,
    ;
    assert(-0x8000_0000_0000_0000 <= signed(b) * c < 0x8000_0000_0000_0000) by (nonlinear_arith)
        requires
            -0x8000_0000 <= signed(b) < 0x8000_0000,
            0 <= c <= 0xffff_ffff,
    ;
    assert(0 <= b * c <= 0xffff_ffff * 0xffff_ffff) by (nonlinear_arith)
        requires
            0 <= b <= 0xffff_ffff,
            0 <= c <= 0xffff_ffff,
    ;
    lemma_high_word(signed(b) * signed(c));
    lemma_high_word(signed(b) * c);
    vstd::arithmetic::div_mod::lemma_fundamental_div_mod(b * c, m);
}

proof fn lemma_low_word(x: int, y: int, b: u32, c: u32)
    requires
        x % word_count() == b,
        y % word_count() == c,
    ensures
        (x * y) % word_count() == alu_result(Opcode::MUL, b, c),
{
    vstd::arithmetic::div_mod::lemma_mul_mod_noop(x, y, word_count());
}

proof fn lemma_high_word(product: int)
    requires
        -0x8000_0000_0000_0000 <= product < 0x8000_0000_0000_0000,
    ensures
        signed(wrapped(product / word_count())) * word_count() + product % word_count() == product,
{
    vstd::arithmetic::div_mod::lemma_fundamental_div_mod(product, word_count());
    let high = product / word_count();
    assert(-0x8000_0000 <= high < 0x8000_0000);
    assert(signed(wrapped(high)) == high);
}

} // verus!
