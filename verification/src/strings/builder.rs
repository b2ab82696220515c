use vstd::prelude::*;
use vstd::string::StringExecFns;
use vstd::string::StringSliceAdditionalSpecFns;
use vstd::utf8::is_scalar;

verus! {

/// Relies on `char::from_u32`: a scalar value converts to exactly
/// that character, and anything else to nothing.
pub assume_specification[ char::from_u32 ](i: u32) -> (r: Option<char>)
    ensures
        (r is Some) == is_scalar(i),
        r matches Some(c) ==> c == i as char,
;

/// Relies on `String::push`: appends exactly the given character.
#[verifier::external_body]
pub(crate) fn push_char(builder: &mut String, c: char)
    ensures
        final(builder)@ == old(builder)@.push(c),
{
    builder.push(c);
}

/// Appends text to a string under construction.
pub fn append(builder: &mut String, text: &str)
    ensures
        final(builder)@ == old(builder)@ + text@,
{
    builder.append(text);
}

/// Appends the characters of `text` between the byte positions
/// `begin` and `end`, which must be character boundaries in order.
pub fn append_between(builder: &mut String, text: &str, begin: usize, end: usize)
    requires
        vstd::utf8::is_char_boundary(text.spec_bytes(), begin as int),
        vstd::utf8::is_char_boundary(text.spec_bytes(), end as int),
        begin <= end <= text.spec_bytes().len(),
    ensures
        final(builder)@ == old(builder)@ + vstd::utf8::decode_utf8(
            text.spec_bytes().subrange(begin as int, end as int),
        ),
{
    let mid = crate::strings::sub_between(text, begin, end);
    builder.append(mid);
}

/// Appends the character with code point `code`; a value that is no
/// Unicode scalar is rejected and appends nothing.
pub fn append_code_point(builder: &mut String, code: i32) -> (r: Result<(), crate::error::Error>)
    ensures
        code >= 0 && is_scalar(code as u32) ==> r is Ok && final(builder)@ == old(builder)@.push(
            (code as u32) as char,
        ),
        !(code >= 0 && is_scalar(code as u32)) ==> r is Err && final(builder)@ == old(builder)@,
{
    if code < 0 {
        return Err(crate::error::Error::new());
    }
    match char::from_u32(code as u32) {
        Some(c) => {
            push_char(builder, c);
            Ok(())
        },
        None => Err(crate::error::Error::new()),
    }
}

/// A copy of the text built so far.
pub fn to_string(builder: &String) -> (r: String)
    ensures
        r@ == builder@,
{
    builder.clone()
}

} // verus!
