//! The template scanner: it copies literal text, rewrites every placeholder
//! with numeric argument indices, and lists what each placeholder refers to.

use vstd::prelude::*;
use vstd::string::*;

use crate::cursor::{lemma_run_end, lemma_run_end_bounds, lemma_run_end_props, run_end, StrCursor};
use crate::field::{
    align_len, count_spec, has_sign, has_zero_pad, parse_argument, parse_argument_spec,
    precision_spec, process_align, process_alternate, process_precision, process_sign,
    process_sign_aware_zero_pad, process_width, starts_with, ArgKind, ArgRef, Count, CountRef,
    Precision, PrecisionRef,
};
use crate::text::{decimal, push_char, push_decimal, push_str, trim_end, trim_end_len};

verus! {

/// What a custom format specifier denotes.
pub ghost enum SpecRef {
    CompileTime(Seq<char>),
    Runtime(Seq<char>),
}

/// What a placeholder refers to.
pub ghost enum PieceRef {
    StdFmt { position: ArgRef, width: Option<ArgRef>, precision: Option<ArgRef> },
    CustomFmt { arg: ArgRef, spec: SpecRef },
}

/// Custom format specifier.
#[derive(Debug, Copy, Clone, PartialEq)]
pub enum Spec<'a> {
    /// Format specifier checked at compile-time
    CompileTime(&'a str),
    /// Format specifier checked at runtime
    Runtime(&'a str),
}

impl<'a> View for Spec<'a> {
    type V = SpecRef;

    open spec fn view(&self) -> SpecRef {
        match self {
            Spec::CompileTime(s) => SpecRef::CompileTime(s@),
            Spec::Runtime(s) => SpecRef::Runtime(s@),
        }
    }
}

/// What one placeholder of a format string refers to.
#[derive(Debug, PartialEq)]
pub enum Piece<'a> {
    /// Standard format specifier data
    StdFmt {
        /// Kind of the positional argument
        arg_kind_position: ArgKind<'a>,
        /// Optional kind of the width argument
        arg_kind_width: Option<ArgKind<'a>>,
        /// Optional kind of the precision argument
        arg_kind_precision: Option<ArgKind<'a>>,
    },
    /// Custom format specifier data
    CustomFmt {
        /// Kind of the positional argument
        arg_kind: ArgKind<'a>,
        /// Custom format specifier
        spec: Spec<'a>,
    },
}

pub open spec fn opt_arg_view(a: Option<ArgKind>) -> Option<ArgRef> {
    match a {
        Some(x) => Some(x@),
        None => None,
    }
}

pub open spec fn opt_count_view(c: Option<Count>) -> Option<CountRef> {
    match c {
        Some(x) => Some(x@),
        None => None,
    }
}

pub open spec fn opt_precision_view(p: Option<Precision>) -> Option<PrecisionRef> {
    match p {
        Some(x) => Some(x@),
        None => None,
    }
}

impl<'a> View for Piece<'a> {
    type V = PieceRef;

    open spec fn view(&self) -> PieceRef {
        match self {
            Piece::StdFmt { arg_kind_position, arg_kind_width, arg_kind_precision } => {
                PieceRef::StdFmt {
                    position: arg_kind_position@,
                    width: opt_arg_view(*arg_kind_width),
                    precision: opt_arg_view(*arg_kind_precision),
                }
            },
            Piece::CustomFmt { arg_kind, spec } => PieceRef::CustomFmt {
                arg: arg_kind@,
                spec: spec@,
            },
        }
    }
}

pub open spec fn invalid_format() -> Seq<char> {
    "invalid format string"@
}

/// Index of the first custom separator (a space followed by a colon) in
/// `s` at or after `i`.
pub open spec fn find_sep(s: Seq<char>, i: nat) -> Option<nat>
    decreases s.len() - i,
{
    if i + 1 >= s.len() {
        None
    } else if s[i as int] == ' ' && s[i + 1int] == ':' {
        Some(i)
    } else {
        find_sep(s, i + 1)
    }
}

/// The custom specifier that follows the separator: angle brackets mark it
/// as checked at runtime.
pub open spec fn spec_of(text: Seq<char>) -> SpecRef {
    if text.len() >= 2 && text[0] == '<' && text.last() == '>' {
        SpecRef::Runtime(text.subrange(1, text.len() - 1))
    } else {
        SpecRef::CompileTime(text)
    }
}

/// A custom placeholder whose separator stands at `p`, with the next
/// implicit position `cur`: the piece and the next implicit position.
pub open spec fn custom_spec(inner: Seq<char>, p: nat, cur: nat) -> Result<(PieceRef, nat), Seq<char>> {
    let head = inner.take(p as int);
    let spec = spec_of(inner.skip(p + 2int));
    let (a, k) = parse_argument_spec(head);
    match a {
        Err(e) => Err(e),
        Ok(Some(arg)) => if k == head.len() {
            Ok((PieceRef::CustomFmt { arg, spec }, cur))
        } else {
            Err(invalid_format())
        },
        Ok(None) => if head.len() == 0 {
            Ok((PieceRef::CustomFmt { arg: ArgRef::Positional(cur), spec }, cur + 1))
        } else {
            Err(invalid_format())
        },
    }
}

/// What is left of `s` once fill, alignment, sign, alternate form and zero
/// padding are read.
pub open spec fn flags_end(s: Seq<char>) -> Seq<char> {
    let s1 = s.skip(align_len(s) as int);
    let s2 = s1.skip(if has_sign(s1) { 1int } else { 0 });
    let s3 = s2.skip(if starts_with(s2, '#') { 1int } else { 0 });
    s3.skip(if has_zero_pad(s3) { 1int } else { 0 })
}

/// The text written for a width, the argument it refers to, and the next
/// output index.
pub open spec fn width_part(w: Option<CountRef>, out: nat) -> (Seq<char>, Option<ArgRef>, nat) {
    match w {
        None => (Seq::<char>::empty(), None, out),
        Some(CountRef::Integer(t)) => (t, None, out),
        Some(CountRef::Argument(x)) => (decimal(out) + "$"@, Some(x), out + 1),
    }
}

/// The text written for a precision, the position and precision arguments,
/// and the next implicit position and output index.
pub open spec fn precision_part(
    pr: Option<PrecisionRef>,
    pos: ArgRef,
    explicit: bool,
    cur: nat,
    out: nat,
) -> (Seq<char>, ArgRef, Option<ArgRef>, nat, nat) {
    match pr {
        None => (Seq::<char>::empty(), pos, None, cur, out),
        Some(PrecisionRef::Asterisk) => (
            "."@ + decimal(out) + "$"@,
            if explicit { pos } else { ArgRef::Positional(cur) },
            Some(if explicit { ArgRef::Positional(cur) } else { pos }),
            cur + 1,
            out + 1,
        ),
        Some(PrecisionRef::WithCount(CountRef::Integer(t))) => ("."@ + t, pos, None, cur, out),
        Some(PrecisionRef::WithCount(CountRef::Argument(x))) => (
            "."@ + decimal(out) + "$"@,
            pos,
            Some(x),
            cur,
            out + 1,
        ),
    }
}

/// The flags, width, precision and type of a standard placeholder, `s`
/// being the text after its `:`: the piece, the text written, and the next
/// implicit position and output index.
pub open spec fn flags_spec(s: Seq<char>, pos: ArgRef, explicit: bool, cur: nat, out: nat) -> Result<
    (PieceRef, Seq<char>, nat, nat),
    Seq<char>,
> {
    let s4 = flags_end(s);
    let flags = s.take(s.len() - s4.len());
    let (w, kw) = count_spec(s4);
    match w {
        Err(e) => Err(e),
        Ok(w) => {
            let s5 = s4.skip(kw as int);
            let (wtext, wref, out1) = width_part(w, out);
            let (pr, kp) = precision_spec(s5);
            match pr {
                Err(e) => Err(e),
                Ok(pr) => {
                    let s6 = s5.skip(kp as int);
                    let (ptext, pos2, pref, cur2, out2) = precision_part(pr, pos, explicit, cur, out1);
                    Ok(
                        (
                            PieceRef::StdFmt { position: pos2, width: wref, precision: pref },
                            flags + wtext + ptext + s6,
                            cur2,
                            out2,
                        ),
                    )
                },
            }
        },
    }
}

/// A standard placeholder: the piece, the text written after its index,
/// and the next implicit position and output index.
pub open spec fn std_spec(inner: Seq<char>, cur: nat, out: nat) -> Result<
    (PieceRef, Seq<char>, nat, nat),
    Seq<char>,
> {
    let (a, k) = parse_argument_spec(inner);
    match a {
        Err(e) => Err(e),
        Ok(arg) => {
            let pos = if arg is Some { arg->0 } else { ArgRef::Positional(cur) };
            let cur1 = if arg is Some { cur } else { cur + 1 };
            let rest = inner.skip(k as int);
            if rest.len() == 0 {
                Ok((PieceRef::StdFmt { position: pos, width: None, precision: None }, Seq::<char>::empty(), cur1, out))
            } else if rest[0] != ':' {
                Err(invalid_format())
            } else {
                match flags_spec(rest.drop_first(), pos, arg is Some, cur1, out) {
                    Err(e) => Err(e),
                    Ok((piece, text, c, o)) => Ok((piece, ":"@ + text, c, o)),
                }
            }
        },
    }
}

/// One placeholder `fmt`, braces included, with the next implicit position
/// `cur` and the next output index `out`: the piece, the rewritten
/// placeholder, and the next implicit position and output index.
pub open spec fn field_spec(fmt: Seq<char>, cur: nat, out: nat) -> Result<
    (PieceRef, Seq<char>, nat, nat),
    Seq<char>,
> {
    if fmt.len() < 2 || fmt[0] != '{' || fmt.last() != '}' {
        Err(invalid_format())
    } else {
        let body = fmt.subrange(1, fmt.len() - 1);
        let inner = body.take(trim_end_len(body) as int);
        let head = "{"@ + decimal(out);
        match find_sep(inner, 0) {
            Some(p) => match custom_spec(inner, p, cur) {
                Err(e) => Err(e),
                Ok((piece, c)) => Ok((piece, head + "}"@, c, out + 1)),
            },
            None => match std_spec(inner, cur, out + 1) {
                Err(e) => Err(e),
                Ok((piece, text, c, o)) => Ok((piece, head + text + "}"@, c, o)),
            },
        }
    }
}

/// Finds the first custom separator (a space followed by a colon) in `s`.
pub fn find_separator(s: &str) -> (r: Option<usize>)
    ensures
        r matches Some(p) ==> find_sep(s@, 0) == Some(p as nat) && p + 1 < s@.len(),
        r is None ==> find_sep(s@, 0) is None,
{
    let n = s.unicode_len();
    let mut i: usize = 0;
    while n > 0 && i < n - 1
        invariant
            n == s@.len(),
            find_sep(s@, 0) == find_sep(s@, i as nat),
        decreases n - i,
    {
        if s.get_char(i) == ' ' && s.get_char(i + 1) == ':' {
            return Some(i);
        }
        i = i + 1;
    }
    None
}

/// Processes a custom placeholder whose separator stands at `p`.
fn process_custom<'a>(inner: &'a str, p: usize, current_positional_index: &mut usize) -> (r: Result<
    Piece<'a>,
    String,
>)
    requires
        p + 1 < inner@.len(),
        *old(current_positional_index) < usize::MAX,
    ensures
        match custom_spec(inner@, p as nat, *old(current_positional_index) as nat) {
            Ok((piece, c)) => r matches Ok(x) && x@ == piece && *final(current_positional_index)
                == c,
            Err(e) => r matches Err(m) && m@ == e,
        },
{
    let n = inner.unicode_len();
    let specifier = inner.substring_char(p + 2, n);
    let m = specifier.unicode_len();
    let spec = if m >= 2 && specifier.get_char(0) == '<' && specifier.get_char(m - 1) == '>' {
        Spec::Runtime(specifier.substring_char(1, m - 1))
    } else {
        Spec::CompileTime(specifier)
    };
    assert(spec@ == spec_of(inner@.skip(p + 2int)));
    let head = inner.substring_char(0, p);
    assert(head@ =~= inner@.take(p as int));
    let mut cursor = StrCursor::new(head);
    let arg_kind = match parse_argument(&mut cursor) {
        Err(e) => return Err(e),
        Ok(Some(a)) => a,
        Ok(None) => {
            let a = ArgKind::Positional(*current_positional_index);
            *current_positional_index = *current_positional_index + 1;
            a
        },
    };
    if cursor.remaining().unicode_len() != 0 {
        return Err(String::from_str("invalid format string"));
    }
    Ok(Piece::CustomFmt { arg_kind, spec })
}

/// Appends `c` to `s` where there is one.
fn push_opt(s: &mut String, c: Option<char>)
    ensures
        c matches Some(x) ==> final(s)@ == old(s)@.push(x),
        c is None ==> final(s)@ == old(s)@,
{
    match c {
        Some(x) => push_char(s, x),
        None => {},
    }
}

/// Reads fill, alignment, sign, alternate form and zero padding, and
/// copies them to `new_format_string`.
fn process_flag_chars(cursor: &mut StrCursor, new_format_string: &mut String)
    ensures
        final(cursor)@ == flags_end(old(cursor)@),
        final(new_format_string)@ == old(new_format_string)@ + old(cursor)@.take(
            old(cursor)@.len() - flags_end(old(cursor)@).len(),
        ),
{
    let ghost s = cursor@;
    let align = process_align(cursor);
    push_opt(new_format_string, align[0]);
    push_opt(new_format_string, align[1]);
    let ghost s1 = cursor@;
    assert(s1 =~= s.skip(align_len(s) as int));
    assert(new_format_string@ =~= old(new_format_string)@ + s.take(s.len() - s1.len()));
    push_opt(new_format_string, process_sign(cursor));
    let ghost s2 = cursor@;
    assert(s2 =~= s1.skip(if has_sign(s1) { 1int } else { 0 }));
    assert(new_format_string@ =~= old(new_format_string)@ + s.take(s.len() - s2.len()));
    push_opt(new_format_string, process_alternate(cursor));
    let ghost s3 = cursor@;
    assert(s3 =~= s2.skip(if starts_with(s2, '#') { 1int } else { 0 }));
    assert(new_format_string@ =~= old(new_format_string)@ + s.take(s.len() - s3.len()));
    push_opt(new_format_string, process_sign_aware_zero_pad(cursor));
    let ghost s4 = cursor@;
    assert(s4 =~= s3.skip(if has_zero_pad(s3) { 1int } else { 0 }));
    assert(new_format_string@ =~= old(new_format_string)@ + s.take(s.len() - s4.len()));
}

/// Writes `{index}$` for an argument that a width or precision refers to.
fn push_index_ref(new_format_string: &mut String, new_current_index: &mut usize)
    requires
        *old(new_current_index) < usize::MAX,
    ensures
        final(new_format_string)@ == old(new_format_string)@ + decimal(
            *old(new_current_index) as nat,
        ) + "$"@,
        *final(new_current_index) == *old(new_current_index) + 1,
{
    push_decimal(new_format_string, *new_current_index);
    push_str(new_format_string, "$");
    *new_current_index = *new_current_index + 1;
}

/// Writes a width, and returns the argument it refers to.
fn write_width<'a>(
    width: Option<Count<'a>>,
    new_format_string: &mut String,
    new_current_index: &mut usize,
) -> (r: Option<ArgKind<'a>>)
    requires
        *old(new_current_index) < usize::MAX,
    ensures
        ({
            let (text, wref, o) = width_part(
                opt_count_view(width),
                *old(new_current_index) as nat,
            );
            final(new_format_string)@ == old(new_format_string)@ + text && opt_arg_view(r) == wref
                && *final(new_current_index) == o
        }),
{
    match width {
        None => None,
        Some(Count::Integer(integer)) => {
            push_str(new_format_string, integer);
            None
        },
        Some(Count::Argument(arg_kind_for_width)) => {
            push_index_ref(new_format_string, new_current_index);
            Some(arg_kind_for_width)
        },
    }
}

/// Writes a precision, and returns the position and precision arguments.
fn write_precision<'a>(
    precision: Option<Precision<'a>>,
    position: ArgKind<'a>,
    explicit: bool,
    current_positional_index: &mut usize,
    new_format_string: &mut String,
    new_current_index: &mut usize,
) -> (r: (ArgKind<'a>, Option<ArgKind<'a>>))
    requires
        *old(current_positional_index) < usize::MAX,
        *old(new_current_index) < usize::MAX,
    ensures
        ({
            let (text, pos, pref, c, o) = precision_part(
                opt_precision_view(precision),
                position@,
                explicit,
                *old(current_positional_index) as nat,
                *old(new_current_index) as nat,
            );
            final(new_format_string)@ == old(new_format_string)@ + text && r.0@ == pos
                && opt_arg_view(r.1) == pref && *final(current_positional_index) == c
                && *final(new_current_index) == o
        }),
{
    match precision {
        None => (position, None),
        Some(Precision::Asterisk) => {
            let new_arg_kind = ArgKind::Positional(*current_positional_index);
            *current_positional_index = *current_positional_index + 1;
            push_str(new_format_string, ".");
            push_index_ref(new_format_string, new_current_index);
            assert(new_format_string@ =~= old(new_format_string)@ + ("."@ + decimal(
                *old(new_current_index) as nat,
            ) + "$"@));
            if explicit {
                (position, Some(new_arg_kind))
            } else {
                (new_arg_kind, Some(position))
            }
        },
        Some(Precision::WithCount(Count::Integer(integer))) => {
            push_str(new_format_string, ".");
            push_str(new_format_string, integer);
            assert(new_format_string@ =~= old(new_format_string)@ + ("."@ + integer@));
            (position, None)
        },
        Some(Precision::WithCount(Count::Argument(arg_kind_for_precision))) => {
            push_str(new_format_string, ".");
            push_index_ref(new_format_string, new_current_index);
            assert(new_format_string@ =~= old(new_format_string)@ + ("."@ + decimal(
                *old(new_current_index) as nat,
            ) + "$"@));
            (position, Some(arg_kind_for_precision))
        },
    }
}

/// Processes what follows the `:` of a standard placeholder.
fn process_flags<'a>(
    cursor: &mut StrCursor<'a>,
    position: ArgKind<'a>,
    explicit: bool,
    current_positional_index: &mut usize,
    new_format_string: &mut String,
    new_current_index: &mut usize,
) -> (r: Result<Piece<'a>, String>)
    requires
        *old(current_positional_index) < usize::MAX,
        *old(new_current_index) + 2 <= usize::MAX,
    ensures
        match flags_spec(
            old(cursor)@,
            position@,
            explicit,
            *old(current_positional_index) as nat,
            *old(new_current_index) as nat,
        ) {
            Ok((piece, text, c, o)) => r matches Ok(x) && x@ == piece && final(new_format_string)@
                == old(new_format_string)@ + text && *final(current_positional_index) == c
                && *final(new_current_index) == o,
            Err(e) => r matches Err(m) && m@ == e,
        },
{
    let ghost s = cursor@;
    process_flag_chars(cursor, new_format_string);
    let ghost flags_out = new_format_string@;
    let width = match process_width(cursor) {
        Err(e) => return Err(e),
        Ok(w) => w,
    };
    let ghost wv = opt_count_view(width);
    let arg_kind_width = write_width(width, new_format_string, new_current_index);
    let ghost w_out = new_format_string@;
    let precision = match process_precision(cursor) {
        Err(e) => return Err(e),
        Ok(p) => p,
    };
    let (arg_kind_position, arg_kind_precision) = write_precision(
        precision,
        position,
        explicit,
        current_positional_index,
        new_format_string,
        new_current_index,
    );
    let ghost p_out = new_format_string@;
    push_str(new_format_string, cursor.remaining());
    assert(new_format_string@ =~= old(new_format_string)@ + s.take(s.len() - flags_end(s).len())
        + width_part(wv, *old(new_current_index) as nat).0 + p_out.skip(w_out.len() as int)
        + cursor@);
    Ok(Piece::StdFmt { arg_kind_position, arg_kind_width, arg_kind_precision })
}

/// Processes a standard placeholder, with the text `inner` between its
/// braces.
fn process_std<'a>(
    inner: &'a str,
    current_positional_index: &mut usize,
    new_format_string: &mut String,
    new_current_index: &mut usize,
) -> (r: Result<Piece<'a>, String>)
    requires
        *old(current_positional_index) + 2 <= usize::MAX,
        *old(new_current_index) + 2 <= usize::MAX,
    ensures
        match std_spec(
            inner@,
            *old(current_positional_index) as nat,
            *old(new_current_index) as nat,
        ) {
            Ok((piece, text, c, o)) => r matches Ok(x) && x@ == piece && final(new_format_string)@
                == old(new_format_string)@ + text && *final(current_positional_index) == c
                && *final(new_current_index) == o,
            Err(e) => r matches Err(m) && m@ == e,
        },
{
    let mut cursor = StrCursor::new(inner);
    let arg = match parse_argument(&mut cursor) {
        Err(e) => return Err(e),
        Ok(a) => a,
    };
    let explicit = arg.is_some();
    let position = match arg {
        Some(a) => a,
        None => {
            let a = ArgKind::Positional(*current_positional_index);
            *current_positional_index = *current_positional_index + 1;
            a
        },
    };
    let ghost rest = cursor@;
    match cursor.next() {
        None => {
            assert(new_format_string@ =~= old(new_format_string)@ + Seq::<char>::empty());
            Ok(Piece::StdFmt { arg_kind_position: position, arg_kind_width: None, arg_kind_precision: None })
        },
        Some(':') => {
            push_str(new_format_string, ":");
            let ghost mid = new_format_string@;
            let r = process_flags(
                &mut cursor,
                position,
                explicit,
                current_positional_index,
                new_format_string,
                new_current_index,
            );
            proof {
                if r is Ok {
                    let text = new_format_string@.skip(mid.len() as int);
                    assert(new_format_string@ =~= old(new_format_string)@ + (":"@ + text));
                }
            }
            r
        },
        _ => Err(String::from_str("invalid format string")),
    }
}

/// Processes one placeholder `fmt`, braces included: appends its rewritten
/// form to `new_format_string` and returns what it refers to.
pub fn process_fmt<'a>(
    fmt: &'a str,
    current_positional_index: &mut usize,
    new_format_string: &mut String,
    new_current_index: &mut usize,
) -> (r: Result<Piece<'a>, String>)
    requires
        *old(current_positional_index) + 2 <= usize::MAX,
        *old(new_current_index) + 3 <= usize::MAX,
    ensures
        match field_spec(
            fmt@,
            *old(current_positional_index) as nat,
            *old(new_current_index) as nat,
        ) {
            Ok((piece, text, c, o)) => r matches Ok(x) && x@ == piece && final(new_format_string)@
                == old(new_format_string)@ + text && *final(current_positional_index) == c
                && *final(new_current_index) == o,
            Err(e) => r matches Err(m) && m@ == e,
        },
{
    let n = fmt.unicode_len();
    if n < 2 || fmt.get_char(0) != '{' || fmt.get_char(n - 1) != '}' {
        return Err(String::from_str("invalid format string"));
    }
    let body = fmt.substring_char(1, n - 1);
    let inner = trim_end(body);
    push_str(new_format_string, "{");
    push_decimal(new_format_string, *new_current_index);
    let ghost head_out = new_format_string@;
    let ghost out0 = *new_current_index;
    *new_current_index = *new_current_index + 1;

    let piece = match find_separator(inner) {
        Some(p) => match process_custom(inner, p, current_positional_index) {
            Err(e) => return Err(e),
            Ok(piece) => piece,
        },
        None => match process_std(inner, current_positional_index, new_format_string, new_current_index) {
            Err(e) => return Err(e),
            Ok(piece) => piece,
        },
    };
    let ghost text = new_format_string@.skip(head_out.len() as int);
    push_str(new_format_string, "}");
    assert(new_format_string@ =~= old(new_format_string)@ + ("{"@ + decimal(out0 as nat) + text + "}"@));
    Ok(piece)
}

pub open spec fn not_open_brace() -> spec_fn(char) -> bool {
    |c: char| c != '{'
}

pub open spec fn not_close_brace() -> spec_fn(char) -> bool {
    |c: char| c != '}'
}

/// End of the literal text of `s` that starts at `i`.
pub open spec fn literal_end(s: Seq<char>, i: nat) -> nat {
    run_end(s, not_open_brace(), i)
}

/// End of the placeholder of `s` that starts at `i`: just after its `}`, or
/// the end of `s` where it has none.
pub open spec fn field_end(s: Seq<char>, i: nat) -> nat {
    let k = run_end(s, not_close_brace(), i);
    if k < s.len() {
        k + 1
    } else {
        k
    }
}

/// Puts `t` and `ps` in front of what `r` holds, where it holds a result.
pub open spec fn prepend(
    t: Seq<char>,
    ps: Seq<PieceRef>,
    r: Result<(Seq<char>, Seq<PieceRef>), Seq<char>>,
) -> Result<(Seq<char>, Seq<PieceRef>), Seq<char>> {
    match r {
        Ok((t2, ps2)) => Ok((t + t2, ps + ps2)),
        Err(e) => Err(e),
    }
}

/// The rewritten template and the pieces of `s` from index `i` on, with the
/// next implicit position `cur` and the next output index `out`.
#[verifier::opaque]
pub open spec fn scan_spec(s: Seq<char>, i: nat, cur: nat, out: nat) -> Result<
    (Seq<char>, Seq<PieceRef>),
    Seq<char>,
>
    decreases s.len() - i,
    via scan_spec_decreases
{
    if i >= s.len() {
        Ok((Seq::<char>::empty(), Seq::<PieceRef>::empty()))
    } else {
        let lit = literal_end(s, i);
        let text = s.subrange(i as int, lit as int);
        if lit >= s.len() {
            Ok((text, Seq::<PieceRef>::empty()))
        } else if lit + 1 < s.len() && s[lit + 1int] == '{' {
            prepend(text + "{{"@, Seq::<PieceRef>::empty(), scan_spec(s, lit + 2, cur, out))
        } else {
            let end = field_end(s, lit);
            match field_spec(s.subrange(lit as int, end as int), cur, out) {
                Err(e) => Err(e),
                Ok((piece, written, c, o)) => prepend(
                    text + written,
                    seq![piece],
                    scan_spec(s, end, c, o),
                ),
            }
        }
    }
}

#[via_fn]
proof fn scan_spec_decreases(s: Seq<char>, i: nat, cur: nat, out: nat) {
    if i < s.len() {
        lemma_run_end_bounds(s, not_open_brace(), i);
        let lit = literal_end(s, i);
        if lit < s.len() {
            lemma_run_end_bounds(s, not_close_brace(), lit);
        }
    }
}

/// The rewritten template and the pieces of the whole of `s`.
pub open spec fn template_spec(s: Seq<char>) -> Result<(Seq<char>, Seq<PieceRef>), Seq<char>> {
    scan_spec(s, 0, 0, 0)
}

pub open spec fn pieces_view(pieces: Seq<Piece>) -> Seq<PieceRef> {
    pieces.map_values(|p: Piece| p@)
}

/// The scan at the end of the text.
proof fn lemma_scan_end(s: Seq<char>, i: nat, cur: nat, out: nat)
    requires
        i <= s.len(),
        literal_end(s, i) >= s.len(),
    ensures
        scan_spec(s, i, cur, out) == Ok::<(Seq<char>, Seq<PieceRef>), Seq<char>>(
            (s.subrange(i as int, s.len() as int), Seq::<PieceRef>::empty()),
        ),
{
    reveal(scan_spec);
    lemma_run_end_bounds(s, not_open_brace(), i);
    if i >= s.len() {
        assert(s.subrange(i as int, s.len() as int) =~= Seq::<char>::empty());
    }
}

/// The scan at an escaped brace.
proof fn lemma_scan_escape(s: Seq<char>, i: nat, cur: nat, out: nat)
    requires
        i <= literal_end(s, i),
        literal_end(s, i) + 1 < s.len(),
        s[literal_end(s, i) + 1int] == '{',
    ensures
        scan_spec(s, i, cur, out) == prepend(
            s.subrange(i as int, literal_end(s, i) as int) + "{{"@,
            Seq::<PieceRef>::empty(),
            scan_spec(s, literal_end(s, i) + 2, cur, out),
        ),
{
    reveal(scan_spec);
}

/// The scan at a placeholder.
proof fn lemma_scan_field(s: Seq<char>, i: nat, cur: nat, out: nat)
    requires
        i <= literal_end(s, i) < s.len(),
        !(literal_end(s, i) + 1 < s.len() && s[literal_end(s, i) + 1int] == '{'),
    ensures
        scan_spec(s, i, cur, out) == ({
            let lit = literal_end(s, i);
            let end = field_end(s, lit);
            match field_spec(s.subrange(lit as int, end as int), cur, out) {
                Err(e) => Err(e),
                Ok((piece, written, c, o)) => prepend(
                    s.subrange(i as int, lit as int) + written,
                    seq![piece],
                    scan_spec(s, end, c, o),
                ),
            }
        }),
{
    reveal(scan_spec);
}

proof fn lemma_prepend_assoc(
    a: Seq<char>,
    pa: Seq<PieceRef>,
    b: Seq<char>,
    pb: Seq<PieceRef>,
    r: Result<(Seq<char>, Seq<PieceRef>), Seq<char>>,
)
    ensures
        prepend(a, pa, prepend(b, pb, r)) == prepend(a + b, pa + pb, r),
{
    match r {
        Ok((t, ps)) => {
            assert(a + (b + t) =~= (a + b) + t);
            assert(pa + (pb + ps) =~= (pa + pb) + ps);
        },
        Err(_) => {},
    }
}

/// A placeholder takes at least two characters, and moves the implicit
/// position by at most two and the output index by at most three.
proof fn lemma_field_counts(fmt: Seq<char>, cur: nat, out: nat)
    requires
        field_spec(fmt, cur, out) is Ok,
    ensures
        ({
            let (piece, text, c, o) = field_spec(fmt, cur, out)->Ok_0;
            fmt.len() >= 2 && cur <= c <= cur + 2 && o <= out + 3
        }),
{
}

/// Whether, from `i` on, every `{` of `s` is the first of an escaped pair
/// `{{`.
pub open spec fn escapes_only(s: Seq<char>, i: nat) -> bool
    decreases s.len() - i,
{
    if i >= s.len() {
        true
    } else if s[i as int] == '{' {
        i + 1 < s.len() && s[i + 1int] == '{' && escapes_only(s, i + 2)
    } else {
        escapes_only(s, i + 1)
    }
}

proof fn lemma_escapes_skip_literal(s: Seq<char>, i: nat, j: nat)
    requires
        i <= j <= s.len(),
        forall|k: int| i <= k < j ==> s[k] != '{',
        escapes_only(s, i),
    ensures
        escapes_only(s, j),
    decreases j - i,
{
    if i < j {
        lemma_escapes_skip_literal(s, i + 1, j);
    }
}

proof fn lemma_scan_literal(s: Seq<char>, i: nat, cur: nat, out: nat)
    requires
        i <= s.len(),
        escapes_only(s, i),
    ensures
        scan_spec(s, i, cur, out) == Ok::<(Seq<char>, Seq<PieceRef>), Seq<char>>(
            (s.subrange(i as int, s.len() as int), Seq::<PieceRef>::empty()),
        ),
    decreases s.len() - i,
{
    lemma_run_end_bounds(s, not_open_brace(), i);
    lemma_run_end_props(s, not_open_brace(), i);
    let lit = literal_end(s, i);
    if lit >= s.len() {
        lemma_scan_end(s, i, cur, out);
    } else {
        assert forall|k: int| i <= k < lit implies s[k] != '{' by {
            assert(not_open_brace()(s[k]));
        }
        lemma_escapes_skip_literal(s, i, lit);
        lemma_scan_escape(s, i, cur, out);
        assert(!not_open_brace()(s[lit as int]));
        assert(s[lit as int] == '{' && s[lit + 1int] == '{');
        lemma_scan_literal(s, lit + 2, cur, out);
        reveal_strlit("{{");
        assert("{{"@.len() == 2 && "{{"@[0] == '{' && "{{"@[1] == '{');
        assert(s.subrange(i as int, lit as int) + "{{"@ + s.subrange(lit + 2int, s.len() as int)
            =~= s.subrange(i as int, s.len() as int));
        assert(Seq::<PieceRef>::empty() + Seq::<PieceRef>::empty() =~= Seq::<PieceRef>::empty());
    }
}

/// A format string of literal text and escaped braces `{{` (and `}}`,
/// which is literal text) is rewritten to itself, with no placeholders.
pub proof fn law_literal_round_trip(s: Seq<char>)
    requires
        escapes_only(s, 0),
    ensures
        template_spec(s) == Ok::<(Seq<char>, Seq<PieceRef>), Seq<char>>(
            (s, Seq::<PieceRef>::empty()),
        ),
{
    lemma_scan_literal(s, 0, 0, 0);
    assert(s.subrange(0, s.len() as int) =~= s);
}

fn is_open_brace(c: char) -> (r: bool)
    ensures
        r == (c == '{'),
{
    c == '{'
}

fn is_close_brace(c: char) -> (r: bool)
    ensures
        r == (c == '}'),
{
    c == '}'
}

/// Parses a format string: returns it with every placeholder rewritten with
/// numeric indices, and what each placeholder refers to.
pub fn parse_format_string(format_string: &str) -> (r: Result<(String, Vec<Piece<'_>>), String>)
    requires
        format_string@.len() * 2 + 3 <= usize::MAX,
    ensures
        match template_spec(format_string@) {
            Ok((t, ps)) => r matches Ok((nt, pieces)) && nt@ == t && pieces_view(pieces@) == ps,
            Err(e) => r matches Err(m) && m@ == e,
        },
        r matches Ok((_, pieces)) ==> pieces@.len() * 2 <= format_string@.len(),
{
    let ghost s = format_string@;
    let mut cursor = StrCursor::new(format_string);
    let mut current_positional_index: usize = 0;
    let mut pieces: Vec<Piece> = Vec::new();
    let mut new_format_string = String::new();
    let mut new_current_index: usize = 0;
    let ghost mut i: nat = 0;
    let mut done = false;
    proof {
        reveal(scan_spec);
        assert(s.skip(0) =~= s);
        assert(new_format_string@ + Seq::<char>::empty() =~= Seq::<char>::empty());
        assert(pieces_view(pieces@) =~= Seq::<PieceRef>::empty());
        match scan_spec(s, 0, 0, 0) {
            Ok((t, ps)) => {
                assert(new_format_string@ + t =~= t);
                assert(pieces_view(pieces@) + ps =~= ps);
            },
            Err(_) => {},
        }
    }
    while !done
        invariant
            s == format_string@,
            i <= s.len(),
            format_string@.len() * 2 + 3 <= usize::MAX,
            done ==> i == s.len() && scan_spec(s, 0, 0, 0) == Ok::<
                (Seq<char>, Seq<PieceRef>),
                Seq<char>,
            >((new_format_string@, pieces_view(pieces@))),
            !done ==> cursor@ == s.skip(i as int) && scan_spec(s, 0, 0, 0) == prepend(
                new_format_string@,
                pieces_view(pieces@),
                scan_spec(s, i, current_positional_index as nat, new_current_index as nat),
            ),
            current_positional_index <= 2 * i,
            new_current_index <= 2 * i,
            pieces@.len() * 2 <= i,
        decreases 2 * (s.len() - i) + (if done { 0int } else { 1int }),
    {
        let ghost before = new_format_string@;
        let literal = cursor.read_until(is_open_brace);
        let ghost lit = i + literal@.len();
        proof {
            assert forall|j: int| i <= j < lit implies #[trigger] not_open_brace()(s[j]) by {
                assert(s[j] == s.skip(i as int)[j - i]);
            }
            if lit < s.len() {
                assert(s[lit as int] == s.skip(i as int)[literal@.len() as int]);
            }
            lemma_run_end(s, not_open_brace(), i, lit);
            assert(literal@ =~= s.subrange(i as int, lit as int));
            assert(cursor@ =~= s.skip(lit as int));
        }
        push_str(&mut new_format_string, literal);
        let remaining = cursor.remaining();
        let m = remaining.unicode_len();
        if m == 0 {
            proof {
                lemma_scan_end(s, i, current_positional_index as nat, new_current_index as nat);
                if i < s.len() {
                    lemma_prepend_assoc(before, pieces_view(pieces@), literal@, Seq::<PieceRef>::empty(),
                        Ok((Seq::<char>::empty(), Seq::<PieceRef>::empty())));
                    assert(pieces_view(pieces@) + Seq::<PieceRef>::empty() =~= pieces_view(pieces@));
                    assert(new_format_string@ + Seq::<char>::empty() =~= new_format_string@);
                    assert(literal@ + Seq::<char>::empty() =~= literal@);
                } else {
                    assert(literal@ =~= Seq::<char>::empty());
                    assert(new_format_string@ =~= before);
                    assert(pieces_view(pieces@) + Seq::<PieceRef>::empty() =~= pieces_view(pieces@));
                    assert(before + Seq::<char>::empty() =~= before);
                }
                i = s.len();
            }
            done = true;
        } else if m >= 2 && remaining.get_char(1) == '{' {
            cursor.next();
            cursor.next();
            push_str(&mut new_format_string, "{{");
            proof {
                lemma_scan_escape(s, i, current_positional_index as nat, new_current_index as nat);
                lemma_prepend_assoc(before, pieces_view(pieces@), literal@ + "{{"@,
                    Seq::<PieceRef>::empty(),
                    scan_spec(s, lit + 2, current_positional_index as nat, new_current_index as nat));
                assert(pieces_view(pieces@) + Seq::<PieceRef>::empty() =~= pieces_view(pieces@));
                assert(before + (literal@ + "{{"@) =~= new_format_string@);
                assert(cursor@ =~= s.skip(lit + 2int));
                i = lit + 2;
            }
        } else {
            let fmt = cursor.read_until_included(is_close_brace);
            let ghost end = lit + fmt@.len();
            proof {
                let k = if fmt@.last() == '}' { (end - 1) as nat } else { end };
                assert forall|j: int| lit <= j < k implies #[trigger] not_close_brace()(s[j]) by {
                    assert(s[j] == s.skip(lit as int)[j - lit]);
                }
                if k < s.len() {
                    assert(s[k as int] == s.skip(lit as int)[k - lit]);
                }
                lemma_run_end(s, not_close_brace(), lit, k);
                assert(fmt@ =~= s.subrange(lit as int, end as int));
                assert(cursor@ =~= s.skip(end as int));
            }
            let ghost old_cur = current_positional_index;
            let ghost old_out = new_current_index;
            proof {
                lemma_scan_field(s, i, old_cur as nat, old_out as nat);
            }
            match process_fmt(fmt, &mut current_positional_index, &mut new_format_string, &mut new_current_index) {
                Err(e) => return Err(e),
                Ok(piece) => {
                    let ghost old_pieces = pieces_view(pieces@);
                    pieces.push(piece);
                    proof {
                        lemma_field_counts(fmt@, old_cur as nat, old_out as nat);
                        let (p, w, c, o) = field_spec(fmt@, old_cur as nat, old_out as nat)->Ok_0;
                        assert(pieces_view(pieces@) =~= old_pieces + seq![p]);
                        lemma_prepend_assoc(before, old_pieces, literal@ + w, seq![p],
                            scan_spec(s, end, c, o));
                        assert(before + (literal@ + w) =~= new_format_string@);
                        i = end;
                    }
                },
            }
        }
    }
    Ok((new_format_string, pieces))
}

} // verus!
