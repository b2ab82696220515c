use vstd::prelude::*;
use crate::error::Error;

verus! {

/// Absolute value of a mathematical integer.
pub open spec fn iabs(a: int) -> int {
    if a < 0 {
        -a
    } else {
        a
    }
}

/// Truncated (round-toward-zero) division, the machine semantics of `/`
/// on signed integers.
pub open spec fn trunc_div(a: int, b: int) -> int
    recommends
        b != 0,
{
    if (a < 0) == (b < 0) {
        iabs(a) / iabs(b)
    } else {
        -(iabs(a) / iabs(b))
    }
}

/// Truncated remainder, the machine semantics of `%` on signed integers:
/// the result takes the sign of the dividend.
pub open spec fn trunc_rem(a: int, b: int) -> int
    recommends
        b != 0,
{
    if a < 0 {
        -(iabs(a) % iabs(b))
    } else {
        iabs(a) % iabs(b)
    }
}

/// Widens a nonnegative `i32` index into a `usize`; a negative argument
/// is rejected with an error.
pub fn i32_to_usize(i: i32) -> (r: Result<usize, Error>)
    ensures
        i >= 0 ==> (r matches Ok(u) && u == i),
        i < 0 ==> r is Err,
{
    if i >= 0 {
        Ok(i as usize)
    } else {
        Err(Error::new())
    }
}

/// Narrows a `usize` into an `i32`; a value past `i32::MAX` is rejected
/// with an error.
pub fn usize_to_i32(u: usize) -> (r: Result<i32, Error>)
    ensures
        u <= i32::MAX ==> (r matches Ok(i) && i == u),
        u > i32::MAX ==> r is Err,
{
    if u <= i32::MAX as usize {
        Ok(u as i32)
    } else {
        Err(Error::new())
    }
}

/// Discards a value; generated code uses this to drop an expression result.
pub fn ignore<T>(_unused: T) {
}

/// `i32` division with an explicit error for a zero divisor; the one
/// overflowing quotient, `i32::MIN / -1`, wraps to `i32::MIN`.
pub fn int_div(a: i32, b: i32) -> (r: Result<i32, Error>)
    ensures
        b == 0 ==> r is Err,
        b != 0 && !(a == i32::MIN && b == -1) ==> (r matches Ok(q) && q == trunc_div(a as int, b as int)),
        a == i32::MIN && b == -1 ==> (r matches Ok(q) && q == i32::MIN),
{
    if b == 0 {
        return Err(Error::new());
    }
    if a == i32::MIN && b == -1 {
        return Ok(i32::MIN);
    }
    let ua: u32 = if a >= 0 {
        a as u32
    } else {
        (-(a as i64)) as u32
    };
    let ub: u32 = if b >= 0 {
        b as u32
    } else {
        (-(b as i64)) as u32
    };
    let q: u32 = ua / ub;
    proof {
        assert(ua as int == iabs(a as int));
        assert(ub as int == iabs(b as int));
        vstd::arithmetic::div_mod::lemma_div_nonincreasing(ua as int, ub as int);
        if ub >= 2 {
            vstd::arithmetic::div_mod::lemma_div_is_ordered_by_denominator(ua as int, 2, ub as int);
        }
    }
    if (a < 0) == (b < 0) {
        Ok(q as i32)
    } else {
        if q >= 0x8000_0000u32 {
            Ok(i32::MIN)
        } else {
            Ok(-(q as i32))
        }
    }
}

/// `i32` remainder with an explicit error for a zero divisor;
/// `i32::MIN % -1` is 0, so no quotient overflow can surface here.
pub fn int_rem(a: i32, b: i32) -> (r: Result<i32, Error>)
    ensures
        b == 0 ==> r is Err,
        b != 0 ==> (r matches Ok(m) && m == trunc_rem(a as int, b as int)),
{
    if b == 0 {
        return Err(Error::new());
    }
    let ua: u32 = if a >= 0 {
        a as u32
    } else {
        (-(a as i64)) as u32
    };
    let ub: u32 = if b >= 0 {
        b as u32
    } else {
        (-(b as i64)) as u32
    };
    let m: u32 = ua % ub;
    if a < 0 {
        Ok(-(m as i32))
    } else {
        Ok(m as i32)
    }
}

/// `i64` division with an explicit error for a zero divisor; the one
/// overflowing quotient, `i64::MIN / -1`, wraps to `i64::MIN`.
pub fn int64_div(a: i64, b: i64) -> (r: Result<i64, Error>)
    ensures
        b == 0 ==> r is Err,
        b != 0 && !(a == i64::MIN && b == -1) ==> (r matches Ok(q) && q == trunc_div(a as int, b as int)),
        a == i64::MIN && b == -1 ==> (r matches Ok(q) && q == i64::MIN),
{
    if b == 0 {
        return Err(Error::new());
    }
    if a == i64::MIN && b == -1 {
        return Ok(i64::MIN);
    }
    let ua: u64 = if a >= 0 {
        a as u64
    } else {
        (-(a as i128)) as u64
    };
    let ub: u64 = if b >= 0 {
        b as u64
    } else {
        (-(b as i128)) as u64
    };
    let q: u64 = ua / ub;
    proof {
        assert(ua as int == iabs(a as int));
        assert(ub as int == iabs(b as int));
        vstd::arithmetic::div_mod::lemma_div_nonincreasing(ua as int, ub as int);
        if ub >= 2 {
            vstd::arithmetic::div_mod::lemma_div_is_ordered_by_denominator(ua as int, 2, ub as int);
        }
    }
    if (a < 0) == (b < 0) {
        Ok(q as i64)
    } else {
        if q >= 0x8000_0000_0000_0000u64 {
            Ok(i64::MIN)
        } else {
            Ok(-(q as i64))
        }
    }
}

/// `i64` remainder with an explicit error for a zero divisor.
pub fn int64_rem(a: i64, b: i64) -> (r: Result<i64, Error>)
    ensures
        b == 0 ==> r is Err,
        b != 0 ==> (r matches Ok(m) && m == trunc_rem(a as int, b as int)),
{
    if b == 0 {
        return Err(Error::new());
    }
    let ua: u64 = if a >= 0 {
        a as u64
    } else {
        (-(a as i128)) as u64
    };
    let ub: u64 = if b >= 0 {
        b as u64
    } else {
        (-(b as i128)) as u64
    };
    let m: u64 = ua % ub;
    if a < 0 {
        Ok(-(m as i64))
    } else {
        Ok(m as i64)
    }
}

/// Narrows an `i64` to an `i32`, rejecting values outside the `i32` range.
pub fn int64_to_int32(i: i64) -> (r: Result<i32, Error>)
    ensures
        i32::MIN <= i <= i32::MAX ==> (r matches Ok(n) && n == i),
        !(i32::MIN <= i <= i32::MAX) ==> r is Err,
{
    if i >= i32::MIN as i64 && i <= i32::MAX as i64 {
        Ok(i as i32)
    } else {
        Err(Error::new())
    }
}

/// The character that prints the digit `d`, lowercase past nine.
pub open spec fn digit_char(d: int) -> char {
    if d < 10 {
        ((48 + d) as u8) as char
    } else {
        ((87 + d) as u8) as char
    }
}

/// How an integer prints in base `radix`: a minus sign for negative
/// values, then the digits of its magnitude, most significant first,
/// with no leading zero except for zero itself.
pub open spec fn rendered_int(i: int, radix: int) -> Seq<char>
    recommends
        2 <= radix <= 36,
    decreases iabs(i), (if i < 0 { 1int } else { 0int }),
    when 2 <= radix <= 36
    via rendered_int_decreases
{
    if i < 0 {
        seq!['-'] + rendered_int(-i, radix)
    } else if i < radix {
        seq![digit_char(i)]
    } else {
        rendered_int(i / radix, radix).push(digit_char(i % radix))
    }
}

#[via_fn]
proof fn rendered_int_decreases(i: int, radix: int) {
    if i >= 0 && i >= radix {
        vstd::arithmetic::div_mod::lemma_div_decreases(i, radix);
        vstd::arithmetic::div_mod::lemma_div_pos_is_pos(i, radix);
    }
}

fn digit_char_of(d: u64) -> (r: char)
    requires
        d < 36,
    ensures
        r == digit_char(d as int),
{
    if d < 10 {
        (48 + d as u8) as char
    } else {
        (87 + d as u8) as char
    }
}

/// Renders the magnitude digits: `u` in base `radix`, most
/// significant first.
fn render_magnitude(u: u64, radix: u64) -> (r: Vec<char>)
    requires
        2 <= radix <= 36,
    ensures
        r@ == rendered_int(u as int, radix as int),
{
    let mut collected: Vec<char> = Vec::new();
    let mut left = u;
    loop
        invariant_except_break
            2 <= radix <= 36,
            rendered_int(u as int, radix as int) == rendered_int(left as int, radix as int)
                + collected@.reverse(),
        ensures
            collected@.reverse() == rendered_int(u as int, radix as int),
        decreases left,
    {
        let d = left % radix;
        let next = left / radix;
        let ghost before = collected@;
        collected.push(digit_char_of(d));
        proof {
            assert(before.push(digit_char(d as int)).reverse() =~= seq![
                digit_char(d as int),
            ] + before.reverse());
        }
        if next == 0 {
            proof {
                if left >= radix {
                    vstd::arithmetic::div_mod::lemma_div_non_zero(left as int, radix as int);
                }
                vstd::arithmetic::div_mod::lemma_small_mod(left as nat, radix as nat);
                assert(rendered_int(left as int, radix as int) =~= seq![digit_char(d as int)]);
                assert(collected@.reverse() =~= rendered_int(u as int, radix as int));
            }
            break;
        }
        proof {
            assert(left >= radix) by {
                if left < radix {
                    vstd::arithmetic::div_mod::lemma_basic_div(left as int, radix as int);
                }
            }
            assert(rendered_int(left as int, radix as int) == rendered_int(
                next as int,
                radix as int,
            ).push(digit_char(d as int)));
            assert(rendered_int(next as int, radix as int) + collected@.reverse()
                =~= rendered_int(next as int, radix as int).push(digit_char(d as int))
                + before.reverse());
            vstd::arithmetic::div_mod::lemma_div_decreases(left as int, radix as int);
        }
        left = next;
    }
    let mut out: Vec<char> = Vec::new();
    let ghost digits = collected@;
    while collected.len() > 0
        invariant
            out@ + collected@.reverse() == digits.reverse(),
        decreases collected@.len(),
    {
        let ghost rest = collected@;
        let c = collected.pop().unwrap();
        out.push(c);
        proof {
            assert(rest.drop_last().reverse() =~= rest.reverse().drop_first());
            assert(out@ + collected@.reverse() =~= digits.reverse());
        }
    }
    proof {
        assert(out@ =~= digits.reverse());
        assert(rendered_int(u as int, radix as int) =~= digits.reverse());
    }
    out
}

/// Prints `i` in the given base, ten when none is given; the base
/// must lie between two and thirty-six.
pub fn int64_to_string(i: i64, radix: Option<i32>) -> (r: String)
    requires
        2 <= crate::strings::radix_of(radix) <= 36,
    ensures
        r@ == rendered_int(i as int, crate::strings::radix_of(radix) as int),
{
    let base: i32 = match radix {
        Some(b) => b,
        None => 10,
    };
    let magnitude: u64 = if i >= 0 {
        i as u64
    } else {
        (-(i as i128)) as u64
    };
    let digits = render_magnitude(magnitude, base as u64);
    let mut out = String::new();
    if i < 0 {
        crate::strings::builder::push_char(&mut out, '-');
    }
    let mut k: usize = 0;
    while k < digits.len()
        invariant
            0 <= k <= digits@.len(),
            out@ == (if i < 0 {
                seq!['-']
            } else {
                Seq::<char>::empty()
            }) + digits@.take(k as int),
        decreases digits@.len() - k,
    {
        crate::strings::builder::push_char(&mut out, digits[k]);
        proof {
            assert(out@ =~= (if i < 0 {
                seq!['-']
            } else {
                Seq::<char>::empty()
            }) + digits@.take(k + 1));
        }
        k = k + 1;
    }
    proof {
        assert(digits@.take(digits@.len() as int) =~= digits@);
        if i < 0 {
            assert(out@ =~= rendered_int(i as int, base as int));
        } else {
            assert(out@ =~= rendered_int(i as int, base as int));
        }
    }
    out
}

/// Prints an `i32` in the given base; see [`int64_to_string`].
pub fn int_to_string(i: i32, radix: Option<i32>) -> (r: String)
    requires
        2 <= crate::strings::radix_of(radix) <= 36,
    ensures
        r@ == rendered_int(i as int, crate::strings::radix_of(radix) as int),
{
    int64_to_string(i as i64, radix)
}

} // verus!
