use vstd::prelude::*;
use vstd::string::StringSliceAdditionalSpecFns;
use vstd::string::StrSliceExecFns;
use vstd::std_specs::iter::IteratorSpec;
use vstd::utf8::{decode_utf8, is_char_boundary, valid_utf8};

pub mod builder;

verus! {

broadcast use
    vstd::utf8::encode_utf8_valid_utf8,
    vstd::utf8::encode_utf8_decode_utf8,
    vstd::utf8::is_char_boundary_start_end_of_seq;

/// Read access to text, shared by the string shapes the runtime
/// passes around.
pub trait AsStr {
    /// The characters of the text.
    spec fn spec_str(&self) -> Seq<char>;

    /// The text as a string slice.
    fn as_str(&self) -> (r: &str)
        ensures
            r@ == self.spec_str(),
    ;
}

impl AsStr for str {
    open spec fn spec_str(&self) -> Seq<char> {
        self@
    }

    fn as_str(&self) -> (r: &str) {
        self
    }
}

impl AsStr for String {
    open spec fn spec_str(&self) -> Seq<char> {
        self@
    }

    fn as_str(&self) -> (r: &str) {
        self.as_str()
    }
}

/// Nothing indexes an absent position.
pub fn cast_none_as_index_option(_none: ()) -> (r: Option<usize>)
    ensures
        r is None,
{
    None
}

/// An optional index, unchanged.
pub fn cast_as_index(option: Option<usize>) -> (r: Option<usize>)
    ensures
        r == option,
{
    option
}

/// Swaps presence: an index becomes nothing, and an absent index
/// becomes the unit witness of absence.
pub fn cast_as_no_index(option: Option<usize>) -> (r: Option<()>)
    ensures
        option is Some ==> r is None,
        option is None ==> r == Some(()),
{
    match option {
        Some(_) => None,
        None => Some(()),
    }
}

/// The largest character boundary at or below `i` (text positions are
/// byte positions; positions past the end have no boundary below
/// them but the end itself, so the search walks down into the text).
pub open spec fn floor_boundary(bytes: Seq<u8>, i: int) -> int
    decreases i,
{
    if i <= 0 {
        0
    } else if is_char_boundary(bytes, i) {
        i
    } else {
        floor_boundary(bytes, i - 1)
    }
}

/// The smallest character boundary at or above `i`, or the end of the
/// text when `i` lies past it.
pub open spec fn ceil_boundary(bytes: Seq<u8>, i: int) -> int
    decreases bytes.len() - i,
{
    if i >= bytes.len() {
        bytes.len() as int
    } else if is_char_boundary(bytes, i) {
        i
    } else {
        ceil_boundary(bytes, i + 1)
    }
}

/// Snaps `index` up to the next character boundary, or to the end of
/// the text.
fn char_boundary_ceil(text: &str, index: usize) -> (r: usize)
    requires
        text.spec_bytes().len() <= usize::MAX,
    ensures
        r == ceil_boundary(text.spec_bytes(), index as int),
        is_char_boundary(text.spec_bytes(), r as int),
        r <= text.spec_bytes().len(),
{
    let len = text.len();
    if index > len {
        return len;
    }
    let mut at = index;
    while at < len && !text.is_char_boundary(at)
        invariant
            index <= at <= len,
            len == text.spec_bytes().len(),
            ceil_boundary(text.spec_bytes(), index as int) == ceil_boundary(
                text.spec_bytes(),
                at as int,
            ),
        decreases len - at,
    {
        at = at + 1;
    }
    at
}

/// Snaps `index` down to the previous character boundary.
fn char_boundary_floor(text: &str, index: usize) -> (r: usize)
    ensures
        r == floor_boundary(text.spec_bytes(), index as int),
        is_char_boundary(text.spec_bytes(), r as int),
        r <= index,
{
    let mut at = index;
    while at > 0 && !text.is_char_boundary(at)
        invariant
            0 <= at <= index,
            floor_boundary(text.spec_bytes(), index as int) == floor_boundary(
                text.spec_bytes(),
                at as int,
            ),
        decreases at,
    {
        at = at - 1;
    }
    at
}

/// A boundary of the whole text below a further boundary `e` is a
/// boundary of the prefix ending at `e`.
proof fn lemma_boundary_in_prefix(bytes: Seq<u8>, e: int, b: int)
    requires
        valid_utf8(bytes),
        is_char_boundary(bytes, e),
        is_char_boundary(bytes, b),
        0 <= b <= e <= bytes.len(),
    ensures
        is_char_boundary(bytes.subrange(0, e), b),
{
    broadcast use vstd::utf8::valid_utf8_split;
    broadcast use vstd::utf8::is_char_boundary_iff_not_is_continuation_byte;

    let prefix = bytes.subrange(0, e);
    assert(valid_utf8(prefix));
    if b == e {
        assert(is_char_boundary(prefix, b));
    } else if b > 0 {
        assert(prefix[b] == bytes[b]);
        assert(!vstd::utf8::is_continuation_byte(bytes[b]));
        assert(is_char_boundary(prefix, b));
    }
}

/// The characters decoded by at most `bytes.len()` bytes.
proof fn lemma_decode_len(bytes: Seq<u8>)
    requires
        valid_utf8(bytes),
    ensures
        decode_utf8(bytes).len() <= bytes.len(),
    decreases bytes.len(),
{
    reveal_with_fuel(valid_utf8, 2);
    reveal_with_fuel(decode_utf8, 2);
    if bytes.len() > 0 {
        lemma_decode_len(vstd::utf8::pop_first_scalar(bytes));
    }
}

/// The characters between `begin` and `end`, once `begin` is snapped
/// up and `end` snapped down to character boundaries; an empty or
/// inverted range holds none.
pub open spec fn spec_count_between(bytes: Seq<u8>, begin: int, end: int) -> int {
    let lo = ceil_boundary(bytes, begin);
    let hi = floor_boundary(bytes, end);
    if lo >= hi {
        0
    } else {
        decode_utf8(bytes.subrange(lo, hi)).len() as int
    }
}

/// Cuts the text at the boundaries `lo <= hi`, returning the slice
/// between them.
fn sub_between<'a>(text: &'a str, lo: usize, hi: usize) -> (r: &'a str)
    requires
        is_char_boundary(text.spec_bytes(), lo as int),
        is_char_boundary(text.spec_bytes(), hi as int),
        lo <= hi <= text.spec_bytes().len(),
    ensures
        r.spec_bytes() == text.spec_bytes().subrange(lo as int, hi as int),
        r@ == decode_utf8(text.spec_bytes().subrange(lo as int, hi as int)),
        valid_utf8(r.spec_bytes()),
{
    proof {
        lemma_boundary_in_prefix(text.spec_bytes(), hi as int, lo as int);
    }
    let (head, _) = text.split_at(hi);
    let (_, mid) = head.split_at(lo);
    proof {
        assert(head.spec_bytes() =~= text.spec_bytes().subrange(0, hi as int));
        assert(mid.spec_bytes() =~= text.spec_bytes().subrange(lo as int, hi as int));
        assert(valid_utf8(mid.spec_bytes()));
        assert(decode_utf8(vstd::utf8::encode_utf8(mid@)) == mid@);
    }
    mid
}

/// Counts the characters between `begin` and `end`, both snapped to
/// character boundaries; the text may hold at most `i32::MAX` bytes.
pub fn count_between(text: &str, begin: usize, end: usize) -> (r: i32)
    requires
        text.spec_bytes().len() <= i32::MAX,
    ensures
        r == spec_count_between(text.spec_bytes(), begin as int, end as int),
{
    let lo = char_boundary_ceil(text, begin);
    let hi = char_boundary_floor(text, end);
    if lo >= hi {
        return 0;
    }
    let mid = sub_between(text, lo, hi);
    proof {
        lemma_decode_len(mid.spec_bytes());
    }
    mid.unicode_len() as i32
}

/// Whether `index` lies inside the text's bytes.
pub fn has_index(text: &str, index: usize) -> (r: bool)
    requires
        text.spec_bytes().len() <= usize::MAX,
    ensures
        r == (index < text.spec_bytes().len()),
{
    index < text.len()
}

/// The code point read at `index`, after snapping `index` down to a
/// character boundary; `index` must lie inside the text.
pub open spec fn spec_code_at(bytes: Seq<u8>, index: int) -> int {
    decode_utf8(bytes.subrange(floor_boundary(bytes, index), bytes.len() as int))[0] as int
}

/// Reads the code point at `index`, snapping down to a character
/// boundary first; `index` must lie inside the text.
pub fn get(text: &str, index: usize) -> (r: i32)
    requires
        text.spec_bytes().len() <= usize::MAX,
        index < text.spec_bytes().len(),
    ensures
        r == spec_code_at(text.spec_bytes(), index as int),
{
    let lo = char_boundary_floor(text, index);
    let len = text.len();
    let tail = sub_between(text, lo, len);
    proof {
        assert(floor_boundary(text.spec_bytes(), index as int) <= index);
        assert(tail.spec_bytes().len() > 0);
        reveal_with_fuel(decode_utf8, 2);
        assert(tail@.len() > 0);
    }
    let mut it = tail.chars();
    let first = it.next();
    proof {
        broadcast use vstd::string::next_postcondition;
        broadcast use vstd::string::axiom_spec_iter;

    }
    match first {
        Some(c) => c as i32,
        None => {
            proof {
                assert(false);
            }
            0
        },
    }
}

/// Whether at least `min_count` characters lie between `begin` and
/// `end`: an empty snapped range answers only a demand of exactly
/// zero.
pub fn has_at_least(text: &str, begin: usize, end: usize, min_count: i32) -> (r: bool)
    requires
        text.spec_bytes().len() <= i32::MAX,
    ensures
        ({
            let lo = ceil_boundary(text.spec_bytes(), begin as int);
            let hi = floor_boundary(text.spec_bytes(), end as int);
            if lo >= hi {
                r == (min_count == 0)
            } else {
                r == (spec_count_between(text.spec_bytes(), begin as int, end as int)
                    >= min_count)
            }
        }),
{
    let lo = char_boundary_ceil(text, begin);
    let hi = char_boundary_floor(text, end);
    if lo >= hi {
        return min_count == 0;
    }
    let count = count_between(text, begin, end);
    count >= min_count
}

/// The byte position one step forward from `index`: the next
/// character boundary strictly above it, or the end of the text.
pub fn next(text: &str, index: usize) -> (r: usize)
    requires
        text.spec_bytes().len() <= usize::MAX,
        index < usize::MAX,
    ensures
        r == ceil_boundary(text.spec_bytes(), index + 1),
        r <= text.spec_bytes().len(),
{
    char_boundary_ceil(text, index + 1)
}

/// The byte position one step backward from `index`: the previous
/// character boundary strictly below it, or the start.
pub fn prev(text: &str, index: usize) -> (r: usize)
    ensures
        index == 0 ==> r == 0,
        index > 0 ==> r == floor_boundary(text.spec_bytes(), index - 1),
        r <= index,
{
    if index == 0 {
        return 0;
    }
    char_boundary_floor(text, index - 1)
}

/// Where stepping from `index` by `by` characters lands: forward
/// steps snap up, backward steps snap down, and a step that cannot
/// move stops early.
pub open spec fn spec_step(bytes: Seq<u8>, index: int, by: int) -> int
    decreases
            (if by >= 0 {
                by
            } else {
                -by
            }),
{
    if by == 0 {
        index
    } else if by > 0 {
        let n = ceil_boundary(bytes, index + 1);
        if n == index {
            index
        } else {
            spec_step(bytes, n, by - 1)
        }
    } else {
        let p = if index <= 0 {
            0
        } else {
            floor_boundary(bytes, index - 1)
        };
        if p == index {
            index
        } else {
            spec_step(bytes, p, by + 1)
        }
    }
}

/// Steps from `index` by `by` characters, forward or backward,
/// stopping early at whichever end of the text it reaches.
pub fn step(text: &str, index: usize, by: i32) -> (r: usize)
    requires
        text.spec_bytes().len() < usize::MAX,
        index < usize::MAX,
    ensures
        r == spec_step(text.spec_bytes(), index as int, by as int),
{
    let mut at = index;
    if by >= 0 {
        let mut left = by;
        while left > 0
            invariant
                text.spec_bytes().len() < usize::MAX,
                index < usize::MAX,
                0 <= left <= by,
                at <= index || at <= text.spec_bytes().len(),
                spec_step(text.spec_bytes(), index as int, by as int) == spec_step(
                    text.spec_bytes(),
                    at as int,
                    left as int,
                ),
            decreases left,
        {
            let moved = next(text, at);
            if moved == at {
                proof {
                    assert(spec_step(text.spec_bytes(), at as int, left as int) == at);
                }
                return at;
            }
            at = moved;
            left = left - 1;
        }
        at
    } else {
        let mut left = by;
        while left < 0
            invariant
                text.spec_bytes().len() < usize::MAX,
                index < usize::MAX,
                by <= left <= 0,
                at <= index || at <= text.spec_bytes().len(),
                spec_step(text.spec_bytes(), index as int, by as int) == spec_step(
                    text.spec_bytes(),
                    at as int,
                    left as int,
                ),
            decreases -left,
        {
            let moved = prev(text, at);
            if moved == at {
                proof {
                    assert(spec_step(text.spec_bytes(), at as int, left as int) == at);
                }
                return at;
            }
            at = moved;
            left = left + 1;
        }
        at
    }
}

/// A copy of the text between `begin` and `end`, both snapped to
/// character boundaries; an empty or inverted range copies nothing.
pub fn slice(text: &str, begin: usize, end: usize) -> (r: String)
    requires
        text.spec_bytes().len() <= usize::MAX,
    ensures
        ({
            let lo = ceil_boundary(text.spec_bytes(), begin as int);
            let hi = floor_boundary(text.spec_bytes(), end as int);
            if lo >= hi {
                r@ == Seq::<char>::empty()
            } else {
                r@ == decode_utf8(text.spec_bytes().subrange(lo, hi))
            }
        }),
{
    let lo = char_boundary_ceil(text, begin);
    let hi = char_boundary_floor(text, end);
    if lo >= hi {
        let empty = String::new();
        return empty;
    }
    let mid = sub_between(text, lo, hi);
    mid.to_owned()
}


/// Collects the characters of the text, in order.
fn chars_vec(text: &str) -> (r: Vec<char>)
    ensures
        r@ == text@,
{
    broadcast use vstd::string::next_postcondition;
    broadcast use vstd::string::axiom_spec_iter;

    let mut it = text.chars();
    let mut r: Vec<char> = Vec::new();
    loop
        invariant
            it.obeys_prophetic_iter_laws(),
            it.decrease() is Some,
            r@ + it.remaining() == text@,
        decreases it.decrease()->0,
    {
        let ghost before = it.remaining();
        match it.next() {
            Some(c) => {
                r.push(c);
                proof {
                    assert(r@ + it.remaining() =~= text@);
                }
            },
            None => {
                proof {
                    assert(r@ =~= text@);
                }
                return r;
            },
        }
    }
}

/// Applies `action` to each code point of the text, in order.
pub fn for_each<F: Fn(i32)>(text: &str, action: F)
    requires
        forall|c: i32| call_requires(action, (c,)),
{
    let chars = chars_vec(text);
    let mut i: usize = 0;
    while i < chars.len()
        invariant
            forall|c: i32| call_requires(action, (c,)),
            0 <= i <= chars@.len(),
        decreases chars@.len() - i,
    {
        let c = chars[i];
        action(c as i32);
        i = i + 1;
    }
}

/// The one-character text of the code point `code`; a value that is
/// no Unicode scalar is rejected.
pub fn from_code_point(code: i32) -> (r: Result<String, crate::error::Error>)
    ensures
        code >= 0 && vstd::utf8::is_scalar(code as u32) ==> (r matches Ok(s) && s@ == seq![
            (code as u32) as char,
        ]),
        !(code >= 0 && vstd::utf8::is_scalar(code as u32)) ==> r is Err,
{
    let mut s = String::new();
    match crate::strings::builder::append_code_point(&mut s, code) {
        Ok(_) => Ok(s),
        Err(e) => Err(e),
    }
}

/// The text of a whole sequence of code points; any value that is no
/// Unicode scalar has the whole sequence rejected.
pub fn from_code_points<L: crate::listed::ListedTrait<i32>>(codes: &L) -> (r: Result<
    String,
    crate::error::Error,
>)
    requires
        codes.contents().len() <= i32::MAX,
    ensures
        (forall|i: int|
            0 <= i < codes.contents().len() ==> #[trigger] codes.contents()[i] >= 0
                && vstd::utf8::is_scalar(codes.contents()[i] as u32)) ==> (r matches Ok(s) && s@
            == Seq::new(codes.contents().len(), |i: int| (codes.contents()[i] as u32) as char)),
        (exists|i: int|
            0 <= i < codes.contents().len() && !(#[trigger] codes.contents()[i] >= 0
                && vstd::utf8::is_scalar(codes.contents()[i] as u32))) ==> r is Err,
{
    let n = codes.len();
    let mut s = String::new();
    let mut i: i32 = 0;
    while i < n
        invariant
            0 <= i <= n,
            n == codes.contents().len(),
            forall|j: int|
                0 <= j < i ==> #[trigger] codes.contents()[j] >= 0 && vstd::utf8::is_scalar(
                    codes.contents()[j] as u32,
                ),
            s@ == Seq::new(i as nat, |j: int| (codes.contents()[j] as u32) as char),
        decreases n - i,
    {
        let code = codes.get(i);
        match crate::strings::builder::append_code_point(&mut s, code) {
            Ok(_) => {},
            Err(e) => {
                return Err(e);
            },
        }
        proof {
            assert(s@ =~= Seq::new((i + 1) as nat, |j: int| (codes.contents()[j] as u32) as char));
        }
        i = i + 1;
    }
    Ok(s)
}

/// The byte pattern `pat` occurs in `bytes` at position `i`.
pub open spec fn is_match_at(bytes: Seq<u8>, pat: Seq<u8>, i: int) -> bool {
    0 <= i && i + pat.len() <= bytes.len() && bytes.subrange(i, i + pat.len()) == pat
}

/// The byte position a search starts from.
pub open spec fn start_at(start: Option<usize>) -> int {
    match start {
        Some(s) => s as int,
        None => 0,
    }
}

/// The first byte position at or after `start` where `target` occurs
/// in the text, if any; `start` must be a character boundary.
pub fn index_of(text: &str, target: &str, start: Option<usize>) -> (r: Option<usize>)
    requires
        text.spec_bytes().len() <= usize::MAX,
        target.spec_bytes().len() <= usize::MAX,
        is_char_boundary(text.spec_bytes(), start_at(start)),
    ensures
        r matches Some(p) ==> start_at(start) <= p && is_match_at(
            text.spec_bytes(),
            target.spec_bytes(),
            p as int,
        ) && forall|q: int|
            start_at(start) <= q < p ==> !is_match_at(text.spec_bytes(), target.spec_bytes(), q),
        r is None ==> forall|q: int|
            q >= start_at(start) ==> !is_match_at(text.spec_bytes(), target.spec_bytes(), q),
{
    let bytes = text.as_bytes();
    let pat = target.as_bytes();
    let n = bytes.len();
    let m = pat.len();
    let s: usize = match start {
        Some(sv) => sv,
        None => 0,
    };
    if m > n {
        return None;
    }
    let mut p = s;
    if s > n - m {
        return None;
    }
    while p <= n - m
        invariant
            s == start_at(start),
            s <= p,
            m <= n,
            p <= n - m + 1,
            n == text.spec_bytes().len(),
            m == target.spec_bytes().len(),
            bytes@ == text.spec_bytes(),
            pat@ == target.spec_bytes(),
            forall|q: int| s <= q < p ==> !is_match_at(text.spec_bytes(), target.spec_bytes(), q),
        decreases n - m + 1 - p,
    {
        let mut k: usize = 0;
        let mut hit = true;
        while k < m
            invariant
                0 <= k <= m,
                p + m <= n,
                !hit ==> exists|j: int| 0 <= j < m && bytes@[p + j] != pat@[j],
                n == text.spec_bytes().len(),
                m == target.spec_bytes().len(),
                bytes@ == text.spec_bytes(),
                pat@ == target.spec_bytes(),
                hit ==> forall|j: int| 0 <= j < k ==> bytes@[p + j] == pat@[j],
            decreases m - k,
        {
            if bytes[p + k] != pat[k] {
                hit = false;
                k = m;
            } else {
                k = k + 1;
            }
        }
        if hit {
            proof {
                assert(text.spec_bytes().subrange(p as int, p + m) =~= target.spec_bytes());
            }
            return Some(p);
        }
        proof {
            assert(!is_match_at(text.spec_bytes(), target.spec_bytes(), p as int)) by {
                if is_match_at(text.spec_bytes(), target.spec_bytes(), p as int) {
                    assert(exists|j: int|
                        0 <= j < m && text.spec_bytes()[p + j] != target.spec_bytes()[j]);
                    let j = choose|j: int|
                        0 <= j < m && text.spec_bytes()[p + j] != target.spec_bytes()[j];
                    assert(text.spec_bytes().subrange(p as int, p + m)[j]
                        == text.spec_bytes()[p + j]);
                }
            }
        }
        p = p + 1;
    }
    None
}


/// The character pattern `sep` occurs in `chars` at position `i`.
pub open spec fn chars_match_at(chars: Seq<char>, sep: Seq<char>, i: int) -> bool {
    0 <= i && i + sep.len() <= chars.len() && chars.subrange(i, i + sep.len()) == sep
}

/// The first position at or after `from` where `sep` occurs in
/// `chars`, or -1 when it occurs nowhere there.
pub open spec fn first_match_from(chars: Seq<char>, sep: Seq<char>, from: int) -> int
    decreases chars.len() - from,
{
    if from < 0 || from + sep.len() > chars.len() {
        -1
    } else if sep.len() == 0 || chars_match_at(chars, sep, from) {
        from
    } else {
        first_match_from(chars, sep, from + 1)
    }
}

proof fn lemma_first_match_from(chars: Seq<char>, sep: Seq<char>, from: int)
    ensures
        ({
            let r = first_match_from(chars, sep, from);
            r == -1 || (from <= r && chars_match_at(chars, sep, r))
        }),
    decreases chars.len() - from,
{
    if !(from < 0 || from + sep.len() > chars.len()) && sep.len() > 0 && !chars_match_at(
        chars,
        sep,
        from,
    ) {
        lemma_first_match_from(chars, sep, from + 1);
    } else {
        if !(from < 0 || from + sep.len() > chars.len()) && sep.len() == 0 {
            assert(chars.subrange(from, from + sep.len() as int) =~= sep);
        }
    }
}

/// The pieces of `chars` from position `from` on, cut at each
/// occurrence of the nonempty separator `sep`.
pub open spec fn split_from(chars: Seq<char>, sep: Seq<char>, from: int) -> Seq<Seq<char>>
    recommends
        sep.len() > 0,
        0 <= from <= chars.len(),
    decreases chars.len() - from,
    when sep.len() > 0 && 0 <= from <= chars.len()
    via split_from_decreases
{
    let m = first_match_from(chars, sep, from);
    if m < 0 {
        seq![chars.subrange(from, chars.len() as int)]
    } else {
        seq![chars.subrange(from, m)] + split_from(chars, sep, m + sep.len() as int)
    }
}

#[via_fn]
proof fn split_from_decreases(chars: Seq<char>, sep: Seq<char>, from: int) {
    lemma_first_match_from(chars, sep, from);
}

/// The pieces the text splits into: with an empty separator, one
/// piece per character; otherwise the stretches between occurrences
/// of the separator.
pub open spec fn split_chars(chars: Seq<char>, sep: Seq<char>) -> Seq<Seq<char>> {
    if sep.len() == 0 {
        Seq::new(chars.len(), |i: int| seq![chars[i]])
    } else {
        split_from(chars, sep, 0)
    }
}

/// A copy of the characters of `cs` between `from` and `to`.
fn chars_to_string(cs: &Vec<char>, from: usize, to: usize) -> (r: String)
    requires
        from <= to <= cs@.len(),
    ensures
        r@ == cs@.subrange(from as int, to as int),
{
    let mut r = String::new();
    let mut i = from;
    while i < to
        invariant
            from <= i <= to <= cs@.len(),
            r@ == cs@.subrange(from as int, i as int),
        decreases to - i,
    {
        crate::strings::builder::push_char(&mut r, cs[i]);
        proof {
            assert(r@ =~= cs@.subrange(from as int, i + 1));
        }
        i = i + 1;
    }
    r
}

/// The first position at or after `from` where `ss` occurs in `cs`.
fn find_chars_from(cs: &Vec<char>, ss: &Vec<char>, from: usize) -> (r: Option<usize>)
    requires
        from <= cs@.len(),
    ensures
        r matches Some(p) ==> p == first_match_from(cs@, ss@, from as int),
        r is None ==> first_match_from(cs@, ss@, from as int) == -1,
{
    let n = cs.len();
    let m = ss.len();
    if m > n || from > n - m {
        proof {
            lemma_first_match_none(cs@, ss@, from as int);
        }
        return None;
    }
    let mut p = from;
    while p <= n - m
        invariant
            from <= p <= n - m + 1,
            m <= n,
            n == cs@.len(),
            m == ss@.len(),
            first_match_from(cs@, ss@, from as int) == first_match_from(cs@, ss@, p as int),
        decreases n - m + 1 - p,
    {
        let mut k: usize = 0;
        let mut hit = true;
        while k < m
            invariant
                0 <= k <= m,
                p + m <= n,
                n == cs@.len(),
                m == ss@.len(),
                hit ==> forall|j: int| 0 <= j < k ==> cs@[p + j] == ss@[j],
                !hit ==> exists|j: int| 0 <= j < m && cs@[p + j] != ss@[j],
            decreases m - k,
        {
            if cs[p + k] != ss[k] {
                hit = false;
                k = m;
            } else {
                k = k + 1;
            }
        }
        if hit {
            proof {
                assert(cs@.subrange(p as int, p + m) =~= ss@);
            }
            return Some(p);
        }
        proof {
            assert(!chars_match_at(cs@, ss@, p as int)) by {
                if chars_match_at(cs@, ss@, p as int) {
                    let j = choose|j: int| 0 <= j < m && cs@[p + j] != ss@[j];
                    assert(cs@.subrange(p as int, p + m)[j] == cs@[p + j]);
                }
            }
        }
        p = p + 1;
    }
    proof {
        lemma_first_match_none(cs@, ss@, p as int);
    }
    None
}

proof fn lemma_first_match_none(chars: Seq<char>, sep: Seq<char>, from: int)
    requires
        from + sep.len() > chars.len() || from < 0,
    ensures
        first_match_from(chars, sep, from) == -1,
{
}

/// Splits the text at each occurrence of `sep`; an empty separator
/// cuts between every pair of characters, one piece per character.
pub fn split(text: &str, sep: &str) -> (r: crate::listed::List<String>)
    ensures
        r@.len() == split_chars(text@, sep@).len(),
        forall|i: int| 0 <= i < r@.len() ==> r@[i]@ == #[trigger] split_chars(text@, sep@)[i],
{
    let cs = chars_vec(text);
    let ss = chars_vec(sep);
    let mut parts: Vec<String> = Vec::new();
    if ss.len() == 0 {
        let mut i: usize = 0;
        while i < cs.len()
            invariant
                0 <= i <= cs@.len(),
                cs@ == text@,
                parts@.len() == i,
                forall|j: int| 0 <= j < i ==> #[trigger] parts@[j]@ == seq![cs@[j]],
            decreases cs@.len() - i,
        {
            let one = chars_to_string(&cs, i, i + 1);
            proof {
                assert(cs@.subrange(i as int, i + 1) =~= seq![cs@[i as int]]);
            }
            parts.push(one);
            i = i + 1;
        }
        proof {
            assert forall|j: int| 0 <= j < parts@.len() implies parts@[j]@ == #[trigger] split_chars(
                text@,
                sep@,
            )[j] by {
                assert(split_chars(text@, sep@)[j] == seq![text@[j]]);
            }
        }
        return crate::listed::List::with_vec(parts);
    }
    let mut from: usize = 0;
    loop
        invariant
            0 <= from <= cs@.len(),
            cs@ == text@,
            ss@ == sep@,
            ss@.len() > 0,
            split_from(cs@, ss@, 0).len() == parts@.len() + split_from(cs@, ss@, from as int).len(),
            forall|j: int|
                0 <= j < parts@.len() ==> #[trigger] split_from(cs@, ss@, 0)[j] == parts@[j]@,
            forall|j: int|
                parts@.len() <= j < split_from(cs@, ss@, 0).len() ==> #[trigger] split_from(
                    cs@,
                    ss@,
                    0,
                )[j] == split_from(cs@, ss@, from as int)[j - parts@.len()],
        decreases cs@.len() - from,
    {
        match find_chars_from(&cs, &ss, from) {
            Some(p) => {
                let total = cs.len();
                proof {
                    lemma_first_match_from(cs@, ss@, from as int);
                    assert(chars_match_at(cs@, ss@, p as int));
                    assert(p + ss@.len() <= total);
                }
                let piece = chars_to_string(&cs, from, p);
                parts.push(piece);
                from = p + ss.len();
            },
            None => {
                let piece = chars_to_string(&cs, from, cs.len());
                parts.push(piece);
                proof {
                    assert forall|j: int| 0 <= j < parts@.len() implies #[trigger] split_chars(
                        text@,
                        sep@,
                    )[j] == parts@[j]@ by {
                        if j < parts@.len() - 1 {
                        } else {
                            assert(split_from(cs@, ss@, from as int) =~= seq![
                                cs@.subrange(from as int, cs@.len() as int),
                            ]);
                        }
                    }
                }
                return crate::listed::List::with_vec(parts);
            },
        }
    }
}


/// A Unicode whitespace character, the set `trim` strips.
pub open spec fn is_ws(c: char) -> bool {
    let u = c as u32;
    (9 <= u <= 13) || u == 32 || u == 0x85 || u == 0xA0 || u == 0x1680 || (0x2000 <= u <= 0x200A)
        || u == 0x2028 || u == 0x2029 || u == 0x202F || u == 0x205F || u == 0x3000
}

fn is_ws_char(c: char) -> (r: bool)
    ensures
        r == is_ws(c),
{
    let u = c as u32;
    (9 <= u && u <= 13) || u == 32 || u == 0x85 || u == 0xA0 || u == 0x1680 || (0x2000 <= u && u
        <= 0x200A) || u == 0x2028 || u == 0x2029 || u == 0x202F || u == 0x205F || u == 0x3000
}

/// The text with leading and trailing whitespace stripped.
pub open spec fn trimmed(chars: Seq<char>) -> Seq<char>
    decreases chars.len(),
{
    if chars.len() == 0 {
        chars
    } else if is_ws(chars[0]) {
        trimmed(chars.drop_first())
    } else if is_ws(chars.last()) {
        trimmed(chars.drop_last())
    } else {
        chars
    }
}

/// The window of `cs` left after trimming whitespace from both ends.
fn trim_range(cs: &Vec<char>) -> (r: (usize, usize))
    ensures
        r.0 <= r.1 <= cs@.len(),
        cs@.subrange(r.0 as int, r.1 as int) == trimmed(cs@),
{
    let mut lo: usize = 0;
    let mut hi: usize = cs.len();
    proof {
        assert(cs@.subrange(0, cs@.len() as int) =~= cs@);
    }
    while lo < hi
        invariant
            0 <= lo <= hi <= cs@.len(),
            trimmed(cs@) == trimmed(cs@.subrange(lo as int, hi as int)),
        decreases hi - lo,
    {
        let ghost window = cs@.subrange(lo as int, hi as int);
        if is_ws_char(cs[lo]) {
            proof {
                assert(cs@.subrange(lo as int, hi as int).drop_first() =~= cs@.subrange(
                    lo + 1,
                    hi as int,
                ));
            }
            lo = lo + 1;
        } else if is_ws_char(cs[hi - 1]) {
            proof {
                assert(cs@.subrange(lo as int, hi as int).drop_last() =~= cs@.subrange(
                    lo as int,
                    hi - 1,
                ));
            }
            hi = hi - 1;
        } else {
            proof {
                assert(trimmed(cs@.subrange(lo as int, hi as int)) == cs@.subrange(
                    lo as int,
                    hi as int,
                ));
            }
            return (lo, hi);
        }
    }
    proof {
        assert(cs@.subrange(lo as int, hi as int) =~= Seq::<char>::empty());
    }
    (lo, hi)
}

/// The numeric value a character denotes as a digit: decimal digits,
/// then letters of either case from ten up; 36 marks a non-digit.
pub open spec fn digit_value(c: char) -> int {
    let u = c as u32 as int;
    if 48 <= u <= 57 {
        u - 48
    } else if 97 <= u <= 122 {
        u - 87
    } else if 65 <= u <= 90 {
        u - 55
    } else {
        36
    }
}

fn digit_value_of(c: char) -> (r: u32)
    ensures
        r == digit_value(c),
{
    let u = c as u32;
    if 48 <= u && u <= 57 {
        u - 48
    } else if 97 <= u && u <= 122 {
        u - 87
    } else if 65 <= u && u <= 90 {
        u - 55
    } else {
        36
    }
}

/// Every character is a digit below `radix`, and there is at least
/// one.
pub open spec fn digits_ok(chars: Seq<char>, radix: int) -> bool {
    chars.len() > 0 && forall|i: int| 0 <= i < chars.len() ==> digit_value(#[trigger] chars[i]) < radix
}

/// The value of a digit string read in base `radix`.
pub open spec fn digits_value(chars: Seq<char>, radix: int) -> int
    decreases chars.len(),
{
    if chars.len() == 0 {
        0
    } else {
        digits_value(chars.drop_last(), radix) * radix + digit_value(chars.last())
    }
}

/// What an integer literal denotes in base `radix`: an optional sign,
/// then one or more digits; anything else denotes nothing.
pub open spec fn parse_int(chars: Seq<char>, radix: int) -> Option<int> {
    let signed = chars.len() > 0 && (chars[0] == '+' || chars[0] == '-');
    let digits = if signed {
        chars.drop_first()
    } else {
        chars
    };
    if digits_ok(digits, radix) {
        if chars.len() > 0 && chars[0] == '-' {
            Some(-digits_value(digits, radix))
        } else {
            Some(digits_value(digits, radix))
        }
    } else {
        None
    }
}

proof fn lemma_digits_value_nonneg(chars: Seq<char>, radix: int)
    requires
        radix >= 2,
        forall|i: int| 0 <= i < chars.len() ==> digit_value(#[trigger] chars[i]) >= 0,
    ensures
        digits_value(chars, radix) >= 0,
    decreases chars.len(),
{
    if chars.len() > 0 {
        lemma_digits_value_nonneg(chars.drop_last(), radix);
        assert(digits_value(chars.drop_last(), radix) * radix >= 0) by (nonlinear_arith)
            requires
                digits_value(chars.drop_last(), radix) >= 0,
                radix >= 2,
        ;
    }
}

proof fn lemma_digits_value_grows(chars: Seq<char>, radix: int, d: char)
    requires
        radix >= 2,
        forall|i: int| 0 <= i < chars.len() ==> digit_value(#[trigger] chars[i]) >= 0,
        digit_value(d) >= 0,
    ensures
        digits_value(chars.push(d), radix) >= digits_value(chars, radix),
        digits_value(chars.push(d), radix) == digits_value(chars, radix) * radix + digit_value(d),
    decreases chars.len(),
{
    assert(chars.push(d).drop_last() =~= chars);
    assert(chars.push(d).last() == d);
    lemma_digits_value_nonneg(chars, radix);
    assert(digits_value(chars, radix) * radix >= digits_value(chars, radix)) by (nonlinear_arith)
        requires
            digits_value(chars, radix) >= 0,
            radix >= 2,
    ;
}

/// Reads the optionally signed digits of `cs` between `lo` and `hi`
/// in base `radix`. `valid` says whether the window is a well-formed
/// literal; `neg` carries the sign; `mag` is the exact magnitude
/// unless `over` reports that it outgrew `u64::MAX`.
fn parse_digits(cs: &Vec<char>, lo: usize, hi: usize, radix: u32) -> (r: (bool, bool, bool, u64))
    requires
        lo <= hi <= cs@.len(),
        2 <= radix <= 36,
    ensures
        ({
            let parsed = parse_int(cs@.subrange(lo as int, hi as int), radix as int);
            let (valid, neg, over, mag) = r;
            &&& valid == (parsed is Some)
            &&& valid && !over ==> parsed->0 == (if neg {
                -(mag as int)
            } else {
                mag as int
            })
            &&& valid && over ==> crate::ints::iabs(parsed->0) > u64::MAX
        }),
{
    let ghost window = cs@.subrange(lo as int, hi as int);
    let mut i = lo;
    let mut neg = false;
    proof {
        if lo < hi {
            assert(window[0] == cs@[lo as int]);
        }
    }
    if i < hi && (cs[i] == '+' || cs[i] == '-') {
        neg = cs[i] == '-';
        i = i + 1;
    }
    let ghost digits = cs@.subrange(i as int, hi as int);
    proof {
        if window.len() > 0 && (window[0] == '+' || window[0] == '-') {
            assert(window.drop_first() =~= digits);
        } else {
            assert(window =~= digits);
        }
    }
    if i == hi {
        proof {
            assert(!digits_ok(digits, radix as int));
        }
        return (false, neg, false, 0);
    }
    let mut mag: u64 = 0;
    let mut over = false;
    let mut j = i;
    while j < hi
        invariant
            lo <= i <= j <= hi <= cs@.len(),
            2 <= radix <= 36,
            window == cs@.subrange(lo as int, hi as int),
            digits == cs@.subrange(i as int, hi as int),
            window.len() > 0 && (window[0] == '+' || window[0] == '-') ==> window.drop_first()
                == digits,
            !(window.len() > 0 && (window[0] == '+' || window[0] == '-')) ==> window == digits,
            forall|k: int| i <= k < j ==> digit_value(#[trigger] cs@[k]) < radix,
            !over ==> mag == digits_value(cs@.subrange(i as int, j as int), radix as int),
            over ==> digits_value(cs@.subrange(i as int, j as int), radix as int) > u64::MAX,
        decreases hi - j,
    {
        let ghost sofar = cs@.subrange(i as int, j as int);
        proof {
            assert forall|k: int| 0 <= k < sofar.len() implies digit_value(#[trigger] sofar[k])
                >= 0 by {
                assert(sofar[k] == cs@[i + k]);
            }
        }
        let d = digit_value_of(cs[j]);
        if d >= radix {
            proof {
                assert(digits[j - i] == cs@[j as int]);
                assert(!digits_ok(digits, radix as int));
            }
            return (false, neg, false, 0);
        }
        proof {
            lemma_digits_value_grows(sofar, radix as int, cs@[j as int]);
            assert(cs@.subrange(i as int, j + 1) =~= sofar.push(cs@[j as int]));
        }
        if !over {
            if mag > (u64::MAX - d as u64) / (radix as u64) {
                over = true;
                proof {
                    assert(digits_value(sofar, radix as int) * (radix as int) + d
                        > u64::MAX) by (nonlinear_arith)
                        requires
                            digits_value(sofar, radix as int) == mag as int,
                            mag as int > (u64::MAX - d as u64) as int / (radix as int),
                            2 <= radix <= 36,
                            0 <= d < radix,
                    ;
                }
            } else {
                proof {
                    assert(mag * (radix as u64) + d <= u64::MAX) by (nonlinear_arith)
                        requires
                            mag as int <= (u64::MAX - d as u64) as int / (radix as int),
                            2 <= radix <= 36,
                            0 <= d < radix,
                    ;
                }
                mag = mag * (radix as u64) + d as u64;
            }
        } else {
            proof {
                lemma_digits_value_nonneg(sofar, radix as int);
                assert(digits_value(sofar.push(cs@[j as int]), radix as int) >= digits_value(
                    sofar,
                    radix as int,
                ));
            }
        }
        j = j + 1;
    }
    proof {
        assert(cs@.subrange(i as int, j as int) =~= digits);
        assert(digits_ok(digits, radix as int));
        if window.len() > 0 && (window[0] == '+' || window[0] == '-') {
            assert(parse_int(window, radix as int) is Some);
        } else {
            assert(window =~= digits);
        }
    }
    (true, neg, over, mag)
}

/// The base a reading request names, ten when it names none.
pub open spec fn radix_of(radix: Option<i32>) -> int {
    match radix {
        Some(r) => r as int,
        None => 10,
    }
}

/// Reads the text as an `i32` in the given base (ten by default),
/// ignoring surrounding whitespace: an optional sign, then one or
/// more digits. A base outside two through thirty-six, a malformed
/// literal, and a value outside the `i32` range are all rejected.
pub fn to_int(text: &str, radix: Option<i32>) -> (r: Result<i32, crate::error::Error>)
    ensures
        !(2 <= radix_of(radix) <= 36) ==> r is Err,
        2 <= radix_of(radix) <= 36 ==> match parse_int(trimmed(text@), radix_of(radix)) {
            Some(n) => if i32::MIN <= n <= i32::MAX {
                r matches Ok(v) && v == n
            } else {
                r is Err
            },
            None => r is Err,
        },
{
    let base: i32 = match radix {
        Some(b) => b,
        None => 10,
    };
    if base < 2 || base > 36 {
        return Err(crate::error::Error::new());
    }
    let cs = chars_vec(text);
    let (lo, hi) = trim_range(&cs);
    let (valid, negative, over, mag) = parse_digits(&cs, lo, hi, base as u32);
    if !valid || over {
        return Err(crate::error::Error::new());
    }
    if negative {
        if mag > 0x8000_0000u64 {
            return Err(crate::error::Error::new());
        }
        if mag == 0x8000_0000u64 {
            return Ok(i32::MIN);
        }
        Ok(-(mag as i32))
    } else {
        if mag > i32::MAX as u64 {
            return Err(crate::error::Error::new());
        }
        Ok(mag as i32)
    }
}

/// Reads the text as an `i64`, under the same rules as [`to_int`].
pub fn to_int64(text: &str, radix: Option<i32>) -> (r: Result<i64, crate::error::Error>)
    ensures
        !(2 <= radix_of(radix) <= 36) ==> r is Err,
        2 <= radix_of(radix) <= 36 ==> match parse_int(trimmed(text@), radix_of(radix)) {
            Some(n) => if i64::MIN <= n <= i64::MAX {
                r matches Ok(v) && v == n
            } else {
                r is Err
            },
            None => r is Err,
        },
{
    let base: i32 = match radix {
        Some(b) => b,
        None => 10,
    };
    if base < 2 || base > 36 {
        return Err(crate::error::Error::new());
    }
    let cs = chars_vec(text);
    let (lo, hi) = trim_range(&cs);
    let (valid, negative, over, mag) = parse_digits(&cs, lo, hi, base as u32);
    if !valid || over {
        return Err(crate::error::Error::new());
    }
    if negative {
        if mag > 0x8000_0000_0000_0000u64 {
            return Err(crate::error::Error::new());
        }
        if mag == 0x8000_0000_0000_0000u64 {
            return Ok(i64::MIN);
        }
        Ok(-(mag as i64))
    } else {
        if mag > i64::MAX as u64 {
            return Err(crate::error::Error::new());
        }
        Ok(mag as i64)
    }
}


/// The first position at or after `from` where `c` occurs, or -1.
pub open spec fn first_index_of(chars: Seq<char>, c: char, from: int) -> int
    decreases chars.len() - from,
{
    if from < 0 || from >= chars.len() {
        -1
    } else if chars[from] == c {
        from
    } else {
        first_index_of(chars, c, from + 1)
    }
}

/// A decimal digit.
pub open spec fn is_digit_char(c: char) -> bool {
    48 <= c as u32 <= 57
}

/// Whether the text, ignoring surrounding whitespace, has the shape
/// accepted as a floating-point literal: it ends in a digit and any
/// first dot directly follows a digit, or it ends like `NaN`, or it
/// ends like `Infinity`. Only such text is handed on to the actual
/// number parser.
pub open spec fn float_literal_ok(chars: Seq<char>) -> bool {
    let t = trimmed(chars);
    t.len() > 0 && {
        let last = t.last();
        if is_digit_char(last) {
            let dot = first_index_of(t, '.', 0);
            dot < 0 || (dot > 0 && is_digit_char(t[dot - 1]))
        } else if last == 'N' {
            t.len() >= 3 && t.subrange(t.len() - 3, t.len() as int) == seq!['N', 'a', 'N']
        } else if last == 'y' {
            t.len() >= 8 && t.subrange(t.len() - 8, t.len() as int) == seq![
                'I',
                'n',
                'f',
                'i',
                'n',
                'i',
                't',
                'y',
            ]
        } else {
            false
        }
    }
}

/// Checks the shape of a floating-point literal; see
/// [`float_literal_ok`].
pub fn to_float64_ok(text: &str) -> (r: bool)
    ensures
        r == float_literal_ok(text@),
{
    let cs = chars_vec(text);
    let (lo, hi) = trim_range(&cs);
    let ghost t = trimmed(cs@);
    if lo == hi {
        return false;
    }
    let last = cs[hi - 1];
    proof {
        assert(t.last() == cs@[hi - 1]);
    }
    let lu = last as u32;
    if 48 <= lu && lu <= 57 {
        let mut k = lo;
        while k < hi
            invariant
                lo < hi,
                lo <= k <= hi <= cs@.len(),
                cs@ == text@,
                t == cs@.subrange(lo as int, hi as int),
                t == trimmed(cs@),
                is_digit_char(t.last()),
                first_index_of(t, '.', 0) == first_index_of(t, '.', k - lo),
                forall|j: int| lo <= j < k ==> #[trigger] cs@[j] != '.',
            decreases hi - k,
        {
            proof {
                assert(t[k - lo] == cs@[k as int]);
            }
            if cs[k] == '.' {
                if k == lo {
                    return false;
                }
                proof {
                    assert(t[k - lo - 1] == cs@[k - 1]);
                }
                let before = cs[k - 1] as u32;
                return 48 <= before && before <= 57;
            }
            k = k + 1;
        }
        true
    } else if last == 'N' {
        if hi - lo < 3 {
            return false;
        }
        let r = cs[hi - 3] == 'N' && cs[hi - 2] == 'a' && cs[hi - 1] == 'N';
        proof {
            let tail = t.subrange(t.len() - 3, t.len() as int);
            assert(tail[0] == cs@[hi - 3] && tail[1] == cs@[hi - 2] && tail[2] == cs@[hi - 1]) by {
                assert(t[t.len() - 3] == cs@[hi - 3]);
                assert(t[t.len() - 2] == cs@[hi - 2]);
                assert(t[t.len() - 1] == cs@[hi - 1]);
            }
            if r {
                assert(t.subrange(t.len() - 3, t.len() as int) =~= seq!['N', 'a', 'N']);
            } else {
                assert(t.subrange(t.len() - 3, t.len() as int) != seq!['N', 'a', 'N']) by {
                    let expected = seq!['N', 'a', 'N'];
                    if t.subrange(t.len() - 3, t.len() as int) == expected {
                        assert(cs@[hi - 3] == expected[0]);
                        assert(cs@[hi - 2] == expected[1]);
                        assert(cs@[hi - 1] == expected[2]);
                    }
                }
            }
        }
        r
    } else if last == 'y' {
        if hi - lo < 8 {
            return false;
        }
        let r = cs[hi - 8] == 'I' && cs[hi - 7] == 'n' && cs[hi - 6] == 'f' && cs[hi - 5] == 'i'
            && cs[hi - 4] == 'n' && cs[hi - 3] == 'i' && cs[hi - 2] == 't' && cs[hi - 1] == 'y';
        proof {
            let expected = seq!['I', 'n', 'f', 'i', 'n', 'i', 't', 'y'];
            let tail = t.subrange(t.len() - 8, t.len() as int);
            assert(tail[0] == cs@[hi - 8] && tail[1] == cs@[hi - 7] && tail[2] == cs@[hi - 6]
                && tail[3] == cs@[hi - 5] && tail[4] == cs@[hi - 4] && tail[5] == cs@[hi - 3]
                && tail[6] == cs@[hi - 2] && tail[7] == cs@[hi - 1]) by {
                assert(t[t.len() - 8] == cs@[hi - 8]);
                assert(t[t.len() - 7] == cs@[hi - 7]);
                assert(t[t.len() - 6] == cs@[hi - 6]);
                assert(t[t.len() - 5] == cs@[hi - 5]);
                assert(t[t.len() - 4] == cs@[hi - 4]);
                assert(t[t.len() - 3] == cs@[hi - 3]);
                assert(t[t.len() - 2] == cs@[hi - 2]);
                assert(t[t.len() - 1] == cs@[hi - 1]);
            }
            if r {
                assert(t.subrange(t.len() - 8, t.len() as int) =~= expected);
            } else {
                assert(t.subrange(t.len() - 8, t.len() as int) != expected) by {
                    if t.subrange(t.len() - 8, t.len() as int) == expected {
                        assert(cs@[hi - 8] == expected[0]);
                        assert(cs@[hi - 7] == expected[1]);
                        assert(cs@[hi - 6] == expected[2]);
                        assert(cs@[hi - 5] == expected[3]);
                        assert(cs@[hi - 4] == expected[4]);
                        assert(cs@[hi - 3] == expected[5]);
                        assert(cs@[hi - 2] == expected[6]);
                        assert(cs@[hi - 1] == expected[7]);
                    }
                }
            }
        }
        r
    } else {
        false
    }
}

} // verus!
