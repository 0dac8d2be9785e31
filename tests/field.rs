use custom_format::cursor::StrCursor;
use custom_format::field::{
    parse_argument, process_align, process_alternate, process_precision, process_sign,
    process_sign_aware_zero_pad, process_width, ArgKind, Count, Precision,
};
use custom_format::ident::Id;

#[test]
fn test_process_align() {
    let data = [
        ("^--", [Some('^'), None], "--"),
        ("<--", [Some('<'), None], "--"),
        (">--", [Some('>'), None], "--"),
        ("-^-", [Some('-'), Some('^')], "-"),
        ("-<-", [Some('-'), Some('<')], "-"),
        ("->-", [Some('-'), Some('>')], "-"),
        ("--^", [None, None], "--^"),
        ("--<", [None, None], "--<"),
        ("-->", [None, None], "-->"),
    ];

    for &(fmt, output, remaining) in &data {
        let mut cursor = StrCursor::new(fmt);
        assert_eq!(process_align(&mut cursor), output);
        assert_eq!(cursor.remaining(), remaining);
    }
}

#[test]
fn test_process_sign() {
    let data = [("+000", Some('+'), "000"), ("-000", Some('-'), "000"), ("0000", None, "0000")];

    for &(fmt, output, remaining) in &data {
        let mut cursor = StrCursor::new(fmt);
        assert_eq!(process_sign(&mut cursor), output);
        assert_eq!(cursor.remaining(), remaining);
    }
}

#[test]
fn test_process_alternate() {
    let data = [("#0", Some('#'), "0"), ("00", None, "00")];

    for &(fmt, output, remaining) in &data {
        let mut cursor = StrCursor::new(fmt);
        assert_eq!(process_alternate(&mut cursor), output);
        assert_eq!(cursor.remaining(), remaining);
    }
}

#[test]
fn test_process_sign_aware_zero_pad() {
    let data = [("0123", Some('0'), "123"), ("0.6", Some('0'), ".6"), ("123", None, "123"), ("0$", None, "0$")];

    for &(fmt, output, remaining) in &data {
        let mut cursor = StrCursor::new(fmt);
        assert_eq!(process_sign_aware_zero_pad(&mut cursor), output);
        assert_eq!(cursor.remaining(), remaining);
    }
}

#[test]
fn test_parse_argument() -> Result<(), String> {
    let data = [
        ("05sdkfh-", Some(ArgKind::Positional(5)), "sdkfh-"),
        ("_sdkfh-", Some(ArgKind::Named(Id::new("_sdkfh")?)), "-"),
        ("_é€", Some(ArgKind::Named(Id::new("_é")?)), "€"),
        ("é€", Some(ArgKind::Named(Id::new("é")?)), "€"),
        ("@é€", None, "@é€"),
        ("€", None, "€"),
    ];

    for &(fmt, ref output, remaining) in &data {
        let mut cursor = StrCursor::new(fmt);
        assert_eq!(parse_argument(&mut cursor)?, *output);
        assert_eq!(cursor.remaining(), remaining);
    }

    assert_eq!(&*parse_argument(&mut StrCursor::new("_")).unwrap_err(), "invalid argument: argument name cannot be a single underscore");

    assert_eq!(
        &*parse_argument(&mut StrCursor::new("A\u{30a}")).unwrap_err(),
        r#"identifiers in format string must be normalized in Unicode NFC (`"A\u{30a}"` != `"Å"`)"#
    );

    Ok(())
}

#[test]
fn test_process_width() -> Result<(), String> {
    let data = [
        ("05sdkfh$-", Some(Count::Integer("05")), "sdkfh$-"),
        ("05$sdkfh-", Some(Count::Argument(ArgKind::Positional(5))), "sdkfh-"),
        ("_sdkfh$-", Some(Count::Argument(ArgKind::Named(Id::new("_sdkfh")?))), "-"),
        ("_é$€", Some(Count::Argument(ArgKind::Named(Id::new("_é")?))), "€"),
        ("é$€", Some(Count::Argument(ArgKind::Named(Id::new("é")?))), "€"),
        ("_sdkfh-$", None, "_sdkfh-$"),
        ("_é€$", None, "_é€$"),
        ("é€$", None, "é€$"),
        ("@é€", None, "@é€"),
        ("€", None, "€"),
    ];

    for &(fmt, ref output, remaining) in &data {
        let mut cursor = StrCursor::new(fmt);
        assert_eq!(process_width(&mut cursor)?, *output);
        assert_eq!(cursor.remaining(), remaining);
    }

    Ok(())
}

#[test]
fn test_process_precision() -> Result<(), String> {
    let data = [
        (".*--", Some(Precision::Asterisk), "--"),
        (".05sdkfh$-", Some(Precision::WithCount(Count::Integer("05"))), "sdkfh$-"),
        (".05$sdkfh-", Some(Precision::WithCount(Count::Argument(ArgKind::Positional(5)))), "sdkfh-"),
        ("._sdkfh$-", Some(Precision::WithCount(Count::Argument(ArgKind::Named(Id::new("_sdkfh")?)))), "-"),
        ("._é$€", Some(Precision::WithCount(Count::Argument(ArgKind::Named(Id::new("_é")?)))), "€"),
        (".é$€", Some(Precision::WithCount(Count::Argument(ArgKind::Named(Id::new("é")?)))), "€"),
        ("05sdkfh$-", None, "05sdkfh$-"),
        ("05$sdkfh-", None, "05$sdkfh-"),
        ("_sdkfh$-", None, "_sdkfh$-"),
        ("_é$€", None, "_é$€"),
        ("é$€", None, "é$€"),
        ("_sdkfh-$", None, "_sdkfh-$"),
        ("_é€$", None, "_é€$"),
        ("é€$", None, "é€$"),
        ("@é€", None, "@é€"),
        ("€", None, "€"),
    ];

    for &(fmt, ref output, remaining) in &data {
        let mut cursor = StrCursor::new(fmt);
        assert_eq!(process_precision(&mut cursor)?, *output);
        assert_eq!(cursor.remaining(), remaining);
    }

    assert_eq!(process_precision(&mut StrCursor::new("._sdkfh-$")).unwrap_err(), "invalid count in format string");
    assert_eq!(process_precision(&mut StrCursor::new("._é€$")).unwrap_err(), "invalid count in format string");
    assert_eq!(process_precision(&mut StrCursor::new(".é€$")).unwrap_err(), "invalid count in format string");
    assert_eq!(process_precision(&mut StrCursor::new(".@é€")).unwrap_err(), "invalid count in format string");
    assert_eq!(process_precision(&mut StrCursor::new(".€")).unwrap_err(), "invalid count in format string");

    Ok(())
}

#[test]
fn argument_index_too_large_is_rejected() {
    let mut cursor = StrCursor::new("99999999999999999999999999");
    assert_eq!(parse_argument(&mut cursor).unwrap_err(), "invalid argument: argument index is too large");
}

#[test]
fn identifier_accessor_returns_name() {
    assert_eq!(Id::new("abc").unwrap().name(), "abc");
}
