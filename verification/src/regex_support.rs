use vstd::prelude::*;

verus! {

/// The character that prints the hexadecimal digit `d`, uppercase
/// past nine.
pub open spec fn hex_char(d: int) -> char {
    if d < 10 {
        ((48 + d) as u8) as char
    } else {
        ((55 + d) as u8) as char
    }
}

/// The uppercase hexadecimal digits of a nonnegative code point, most
/// significant first.
pub open spec fn rendered_hex(i: int) -> Seq<char>
    recommends
        i >= 0,
    decreases i,
    when i >= 0
    via rendered_hex_decreases
{
    if i < 16 {
        seq![hex_char(i)]
    } else {
        rendered_hex(i / 16).push(hex_char(i % 16))
    }
}

#[via_fn]
proof fn rendered_hex_decreases(i: int) {
    if i >= 16 {
        vstd::arithmetic::div_mod::lemma_div_decreases(i, 16);
        vstd::arithmetic::div_mod::lemma_div_pos_is_pos(i, 16);
    }
}

fn hex_char_of(d: u32) -> (r: char)
    requires
        d < 16,
    ensures
        r == hex_char(d as int),
{
    if d < 10 {
        (48 + d as u8) as char
    } else {
        (55 + d as u8) as char
    }
}

/// Appends a code point to a regular-expression pattern under
/// construction, in the engine's braced hexadecimal escape form. The
/// code must be nonnegative; whether the escape stands inside a
/// character class changes nothing about its spelling.
pub fn push_code_to(out: &mut String, code: i32, _inside_code_set: bool)
    requires
        code >= 0,
    ensures
        final(out)@ == old(out)@ + seq!['\\', 'u', '{'] + rendered_hex(code as int) + seq!['}'],
{
    crate::strings::builder::push_char(out, '\\');
    crate::strings::builder::push_char(out, 'u');
    crate::strings::builder::push_char(out, '{');
    let ghost opened = out@;
    let mut collected: Vec<char> = Vec::new();
    let mut left = code as u32;
    loop
        invariant_except_break
            rendered_hex(code as int) == rendered_hex(left as int) + collected@.reverse(),
        ensures
            collected@.reverse() == rendered_hex(code as int),
        decreases left,
    {
        let d = left % 16;
        let next = left / 16;
        let ghost before = collected@;
        collected.push(hex_char_of(d));
        proof {
            assert(before.push(hex_char(d as int)).reverse() =~= seq![
                hex_char(d as int),
            ] + before.reverse());
        }
        if next == 0 {
            proof {
                if left >= 16 {
                    vstd::arithmetic::div_mod::lemma_div_non_zero(left as int, 16);
                }
                vstd::arithmetic::div_mod::lemma_small_mod(left as nat, 16);
                assert(rendered_hex(left as int) =~= seq![hex_char(d as int)]);
                assert(collected@.reverse() =~= rendered_hex(code as int));
            }
            break;
        }
        proof {
            assert(left >= 16) by {
                if left < 16 {
                    vstd::arithmetic::div_mod::lemma_basic_div(left as int, 16);
                }
            }
            assert(rendered_hex(next as int) + collected@.reverse() =~= rendered_hex(
                next as int,
            ).push(hex_char(d as int)) + before.reverse());
            vstd::arithmetic::div_mod::lemma_div_decreases(left as int, 16);
        }
        left = next;
    }
    let ghost digits = collected@;
    while collected.len() > 0
        invariant
            out@ + collected@.reverse() == opened + digits.reverse(),
        decreases collected@.len(),
    {
        let ghost rest = collected@;
        let c = collected.pop().unwrap();
        crate::strings::builder::push_char(out, c);
        proof {
            assert(rest.drop_last().reverse() =~= rest.reverse().drop_first());
            assert(out@ + collected@.reverse() =~= opened + digits.reverse());
        }
    }
    crate::strings::builder::push_char(out, '}');
    proof {
        assert(out@ =~= old(out)@ + seq!['\\', 'u', '{'] + rendered_hex(code as int) + seq!['}']);
    }
}

} // verus!
