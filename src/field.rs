//! The grammar of a standard placeholder: argument, fill and alignment,
//! sign, alternate form, zero padding, width and precision.

use vstd::prelude::*;
use vstd::string::*;

use crate::cursor::{lemma_run_end, run_end, StrCursor};
use crate::ident::{is_xid_continue, is_xid_start, nfc_message, nfc_of, xid_continue, xid_start, Id};
use crate::text::{digits_value, is_ascii_digit, is_digit, parse_digits};

verus! {

/// What an argument reference in a placeholder denotes.
pub ghost enum ArgRef {
    Positional(nat),
    Named(Seq<char>),
}

/// What a width or a precision count denotes.
pub ghost enum CountRef {
    Argument(ArgRef),
    Integer(Seq<char>),
}

/// What a precision denotes.
pub ghost enum PrecisionRef {
    Asterisk,
    WithCount(CountRef),
}

/// Kind of an argument reference.
#[derive(Debug, PartialEq)]
pub enum ArgKind<'a> {
    /// Positional argument
    Positional(usize),
    /// Named argument
    Named(Id<'a>),
}

impl<'a> View for ArgKind<'a> {
    type V = ArgRef;

    open spec fn view(&self) -> ArgRef {
        match self {
            ArgKind::Positional(i) => ArgRef::Positional(*i as nat),
            ArgKind::Named(id) => ArgRef::Named(id@),
        }
    }
}

/// A width or precision count.
#[derive(Debug, PartialEq)]
pub enum Count<'a> {
    /// Count is provided by an argument
    Argument(ArgKind<'a>),
    /// Count is provided by an integer
    Integer(&'a str),
}

impl<'a> View for Count<'a> {
    type V = CountRef;

    open spec fn view(&self) -> CountRef {
        match self {
            Count::Argument(a) => CountRef::Argument(a@),
            Count::Integer(s) => CountRef::Integer(s@),
        }
    }
}

/// A precision.
#[derive(Debug, PartialEq)]
pub enum Precision<'a> {
    /// Precision is provided by the next positional argument
    Asterisk,
    /// Precision is provided by the specified count
    WithCount(Count<'a>),
}

impl<'a> View for Precision<'a> {
    type V = PrecisionRef;

    open spec fn view(&self) -> PrecisionRef {
        match self {
            Precision::Asterisk => PrecisionRef::Asterisk,
            Precision::WithCount(c) => PrecisionRef::WithCount(c@),
        }
    }
}

/// The view of an optional parse result, or of its error message.
pub open spec fn result_view<T: View>(r: Result<Option<T>, String>) -> Result<
    Option<T::V>,
    Seq<char>,
> {
    match r {
        Ok(Some(x)) => Ok(Some(x@)),
        Ok(None) => Ok(None),
        Err(e) => Err(e@),
    }
}

pub open spec fn is_align(c: char) -> bool {
    c == '<' || c == '^' || c == '>'
}

pub open spec fn digit_pred() -> spec_fn(char) -> bool {
    |c: char| is_digit(c)
}

pub open spec fn xid_continue_pred() -> spec_fn(char) -> bool {
    |c: char| xid_continue(c)
}

/// Number of leading decimal digits of `s`.
pub open spec fn digit_run(s: Seq<char>) -> nat {
    run_end(s, digit_pred(), 0)
}

/// End of the identifier that starts at the front of `s`.
pub open spec fn ident_end(s: Seq<char>) -> nat {
    run_end(s, xid_continue_pred(), 1)
}

/// Result of reading an argument reference at the front of `s`, with the
/// number of characters it takes.
pub open spec fn parse_argument_spec(s: Seq<char>) -> (Result<Option<ArgRef>, Seq<char>>, nat) {
    let d = digit_run(s);
    if d > 0 {
        if digits_value(s.take(d as int)) <= usize::MAX {
            (Ok(Some(ArgRef::Positional(digits_value(s.take(d as int))))), d)
        } else {
            (Err("invalid argument: argument index is too large"@), 0)
        }
    } else if s.len() == 0 {
        (Ok(None), 0)
    } else if s[0] == '_' && ident_end(s) == 1 {
        (Err("invalid argument: argument name cannot be a single underscore"@), 0)
    } else if s[0] == '_' || xid_start(s[0]) {
        let id = s.take(ident_end(s) as int);
        if nfc_of(id) == id {
            (Ok(Some(ArgRef::Named(id))), ident_end(s))
        } else {
            (Err(nfc_message(id)), 0)
        }
    } else {
        (Ok(None), 0)
    }
}

/// Number of fill and alignment characters at the front of `s`.
pub open spec fn align_len(s: Seq<char>) -> nat {
    if s.len() >= 2 && is_align(s[1]) {
        2
    } else if s.len() >= 1 && is_align(s[0]) {
        1
    } else {
        0
    }
}

/// Whether `s` starts with `c`.
pub open spec fn starts_with(s: Seq<char>, c: char) -> bool {
    s.len() > 0 && s[0] == c
}

/// Whether `s` starts with a sign.
pub open spec fn has_sign(s: Seq<char>) -> bool {
    starts_with(s, '+') || starts_with(s, '-')
}

/// Whether `s` starts with a zero flag: a `0` that is not an argument index
/// followed by `$`.
pub open spec fn has_zero_pad(s: Seq<char>) -> bool {
    starts_with(s, '0') && !starts_with(s.skip(1), '$')
}

/// Result of reading a count at the front of `s`, with the number of
/// characters it takes.
pub open spec fn count_spec(s: Seq<char>) -> (Result<Option<CountRef>, Seq<char>>, nat) {
    let (a, k) = parse_argument_spec(s);
    match a {
        Err(e) => (Err(e), 0),
        Ok(arg) => {
            if arg is Some && starts_with(s.skip(k as int), '$') {
                (Ok(Some(CountRef::Argument(arg->0))), k + 1)
            } else if digit_run(s) == 0 {
                (Ok(None), 0)
            } else {
                (Ok(Some(CountRef::Integer(s.take(digit_run(s) as int)))), digit_run(s))
            }
        },
    }
}

/// Result of reading a precision at the front of `s`, with the number of
/// characters it takes.
pub open spec fn precision_spec(s: Seq<char>) -> (Result<Option<PrecisionRef>, Seq<char>>, nat) {
    if !starts_with(s, '.') {
        (Ok(None), 0)
    } else if starts_with(s.skip(1), '*') {
        (Ok(Some(PrecisionRef::Asterisk)), 2)
    } else {
        let (c, k) = count_spec(s.skip(1));
        match c {
            Err(e) => (Err(e), 0),
            Ok(None) => (Err("invalid count in format string"@), 0),
            Ok(Some(count)) => (Ok(Some(PrecisionRef::WithCount(count))), k + 1),
        }
    }
}

/// Reads an argument reference: an index or an identifier.
pub fn parse_argument<'a>(cursor: &mut StrCursor<'a>) -> (r: Result<Option<ArgKind<'a>>, String>)
    ensures
        result_view(r) == parse_argument_spec(old(cursor)@).0,
        r is Ok ==> final(cursor)@ == old(cursor)@.skip(parse_argument_spec(old(cursor)@).1 as int),
        r is Ok ==> parse_argument_spec(old(cursor)@).1 <= old(cursor)@.len(),
{
    let ghost s = cursor@;
    let digits = cursor.read_while(is_ascii_digit);
    proof {
        lemma_run_end(s, digit_pred(), 0, digits@.len());
    }
    if digits.unicode_len() > 0 {
        assert(digits@ =~= s.take(digit_run(s) as int));
        return match parse_digits(digits) {
            Some(v) => Ok(Some(ArgKind::Positional(v))),
            None => Err(String::from_str("invalid argument: argument index is too large")),
        };
    }
    let saved = *cursor;
    let remaining = cursor.remaining();
    let first = match cursor.next() {
        Some(c) => c,
        None => return Ok(None),
    };
    if first == '_' || is_xid_start(first) {
        let ghost t = cursor@;
        let rest = cursor.read_while(is_xid_continue);
        proof {
            assert forall|i: int| 1 <= i < 1 + rest@.len() implies xid_continue(s[i]) by {
                assert(s[i] == t[i - 1]);
            }
            if 1 + rest@.len() < s.len() {
                assert(s[1 + rest@.len() as int] == t[rest@.len() as int]);
            }
            lemma_run_end(s, xid_continue_pred(), 1, 1 + rest@.len());
        }
        let total = remaining.unicode_len();
        let n = rest.unicode_len();
        if first == '_' && n == 0 {
            return Err(String::from_str("invalid argument: argument name cannot be a single underscore"));
        }
        let name = remaining.substring_char(0, 1 + n);
        assert(digit_run(s) == 0);
        assert(s.len() > 0 && s[0] == first);
        assert(ident_end(s) == 1 + n);
        assert(name@ =~= s.take(ident_end(s) as int));
        assert(cursor@ =~= s.skip(ident_end(s) as int));
        match Id::new(name) {
            Ok(id) => Ok(Some(ArgKind::Named(id))),
            Err(e) => Err(e),
        }
    } else {
        *cursor = saved;
        Ok(None)
    }
}

/// Reads fill and alignment characters.
pub fn process_align(cursor: &mut StrCursor) -> (r: [Option<char>; 2])
    ensures
        final(cursor)@ == old(cursor)@.skip(align_len(old(cursor)@) as int),
        r@[0] == (if align_len(old(cursor)@) >= 1 { Some(old(cursor)@[0]) } else { None }),
        r@[1] == (if align_len(old(cursor)@) == 2 { Some(old(cursor)@[1]) } else { None }),
{
    let cursor0 = *cursor;
    let c1 = cursor.next();
    let cursor1 = *cursor;
    let c2 = cursor.next();

    if c1.is_some() && matches!(c2, Some('<') | Some('^') | Some('>')) {
        [c1, c2]
    } else if matches!(c1, Some('<') | Some('^') | Some('>')) {
        *cursor = cursor1;
        [c1, None]
    } else {
        *cursor = cursor0;
        [None, None]
    }
}

/// Reads a sign.
pub fn process_sign(cursor: &mut StrCursor) -> (r: Option<char>)
    ensures
        has_sign(old(cursor)@) ==> r == Some(old(cursor)@[0]) && final(cursor)@
            == old(cursor)@.drop_first(),
        !has_sign(old(cursor)@) ==> r is None && final(cursor)@ == old(cursor)@,
{
    let old_cursor = *cursor;
    match cursor.next() {
        Some('+') => Some('+'),
        Some('-') => Some('-'),
        _ => {
            *cursor = old_cursor;
            None
        },
    }
}

/// Reads an alternate-form flag.
pub fn process_alternate(cursor: &mut StrCursor) -> (r: Option<char>)
    ensures
        starts_with(old(cursor)@, '#') ==> r == Some('#') && final(cursor)@
            == old(cursor)@.drop_first(),
        !starts_with(old(cursor)@, '#') ==> r is None && final(cursor)@ == old(cursor)@,
{
    let old_cursor = *cursor;
    match cursor.next() {
        Some('#') => Some('#'),
        _ => {
            *cursor = old_cursor;
            None
        },
    }
}

/// Reads a sign-aware zero-padding flag.
pub fn process_sign_aware_zero_pad(cursor: &mut StrCursor) -> (r: Option<char>)
    ensures
        has_zero_pad(old(cursor)@) ==> r == Some('0') && final(cursor)@
            == old(cursor)@.drop_first(),
        !has_zero_pad(old(cursor)@) ==> r is None && final(cursor)@ == old(cursor)@,
{
    let old_cursor = *cursor;
    let c = cursor.next();
    let next = cursor.remaining();
    let followed_by_dollar = next.unicode_len() > 0 && next.get_char(0) == '$';
    match c {
        Some('0') if !followed_by_dollar => Some('0'),
        _ => {
            *cursor = old_cursor;
            None
        },
    }
}

/// Reads a width.
pub fn process_width<'a>(cursor: &mut StrCursor<'a>) -> (r: Result<Option<Count<'a>>, String>)
    ensures
        result_view(r) == count_spec(old(cursor)@).0,
        r is Ok ==> final(cursor)@ == old(cursor)@.skip(count_spec(old(cursor)@).1 as int),
{
    process_count(cursor)
}

/// Reads a precision: a `.` followed by `*` or by a count.
pub fn process_precision<'a>(cursor: &mut StrCursor<'a>) -> (r: Result<Option<Precision<'a>>, String>)
    ensures
        result_view(r) == precision_spec(old(cursor)@).0,
        r is Ok ==> final(cursor)@ == old(cursor)@.skip(precision_spec(old(cursor)@).1 as int),
{
    let mut old_cursor = *cursor;

    if !matches!(cursor.next(), Some('.')) {
        *cursor = old_cursor;
        return Ok(None);
    }
    old_cursor = *cursor;

    match cursor.next() {
        Some('*') => {
            assert(cursor@ =~= old(cursor)@.skip(2));
            Ok(Some(Precision::Asterisk))
        },
        _ => {
            *cursor = old_cursor;
            match process_count(cursor) {
                Err(e) => Err(e),
                Ok(Some(count)) => {
                    assert(cursor@ =~= old(cursor)@.skip(count_spec(old_cursor@).1 + 1int));
                    Ok(Some(Precision::WithCount(count)))
                },
                Ok(None) => Err(String::from_str("invalid count in format string")),
            }
        },
    }
}

/// Reads a count: an argument reference followed by `$`, or an integer.
pub fn process_count<'a>(cursor: &mut StrCursor<'a>) -> (r: Result<Option<Count<'a>>, String>)
    ensures
        result_view(r) == count_spec(old(cursor)@).0,
        r is Ok ==> final(cursor)@ == old(cursor)@.skip(count_spec(old(cursor)@).1 as int),
        r is Ok ==> count_spec(old(cursor)@).1 <= old(cursor)@.len(),
{
    let ghost s = cursor@;
    let old_cursor = *cursor;

    match parse_argument(cursor) {
        Err(e) => return Err(e),
        Ok(Some(arg_kind)) => {
            let ghost t = cursor@;
            if cursor.next() == Some('$') {
                assert(cursor@ =~= s.skip(parse_argument_spec(s).1 + 1int));
                return Ok(Some(Count::Argument(arg_kind)));
            }
            *cursor = old_cursor;
        },
        Ok(None) => {
            *cursor = old_cursor;
        },
    }

    let integer = cursor.read_while(is_ascii_digit);
    proof {
        lemma_run_end(s, digit_pred(), 0, integer@.len());
    }
    if integer.unicode_len() == 0 {
        Ok(None)
    } else {
        Ok(Some(Count::Integer(integer)))
    }
}

} // verus!
