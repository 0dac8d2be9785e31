use custom_format::field::ArgKind;
use custom_format::ident::Id;
use custom_format::template::{parse_format_string, process_fmt, Piece, Spec};

#[test]
fn test_process_fmt() -> Result<(), String> {
        let data = [
        ("{ :}",            "{0}",             1, 1, Piece::CustomFmt { arg_kind: ArgKind::Positional(0),         spec: Spec::CompileTime("") }),
        ("{ : \t\r\n }",    "{0}",             1, 1, Piece::CustomFmt { arg_kind: ArgKind::Positional(0),         spec: Spec::CompileTime("") }),
        ("{ :\u{2000} }",   "{0}",             1, 1, Piece::CustomFmt { arg_kind: ArgKind::Positional(0),         spec: Spec::CompileTime("") }),
        ("{ : : : }",       "{0}",             1, 1, Piece::CustomFmt { arg_kind: ArgKind::Positional(0),         spec: Spec::CompileTime(" : :") }),
        ("{ : <: :> }",     "{0}",             1, 1, Piece::CustomFmt { arg_kind: ArgKind::Positional(0),         spec: Spec::CompileTime(" <: :>") }),
        ("{ : éà }" ,       "{0}",             1, 1, Piece::CustomFmt { arg_kind: ArgKind::Positional(0),         spec: Spec::CompileTime(" éà") }),
        ("{ : <éà> }" ,     "{0}",             1, 1, Piece::CustomFmt { arg_kind: ArgKind::Positional(0),         spec: Spec::CompileTime(" <éà>") }),
        ("{3 :%a }",        "{0}",             0, 1, Piece::CustomFmt { arg_kind: ArgKind::Positional(3),         spec: Spec::CompileTime("%a") }),
        ("{éà :%a}",        "{0}",             0, 1, Piece::CustomFmt { arg_kind: ArgKind::Named(Id::new("éà")?), spec: Spec::CompileTime("%a") }),
        ("{éà :<<<>>%a><}", "{0}",             0, 1, Piece::CustomFmt { arg_kind: ArgKind::Named(Id::new("éà")?), spec: Spec::CompileTime("<<<>>%a><") }),
        ("{ :<>}",          "{0}",             1, 1, Piece::CustomFmt { arg_kind: ArgKind::Positional(0),         spec: Spec::Runtime("") }),
        ("{ :<> \t\r\n }",  "{0}",             1, 1, Piece::CustomFmt { arg_kind: ArgKind::Positional(0),         spec: Spec::Runtime("") }),
        ("{ :<>\u{2000} }", "{0}",             1, 1, Piece::CustomFmt { arg_kind: ArgKind::Positional(0),         spec: Spec::Runtime("") }),
        ("{ :< : :> }",     "{0}",             1, 1, Piece::CustomFmt { arg_kind: ArgKind::Positional(0),         spec: Spec::Runtime(" : :") }),
        ("{ :<%a> }",       "{0}",             1, 1, Piece::CustomFmt { arg_kind: ArgKind::Positional(0),         spec: Spec::Runtime("%a") }),
        ("{3 :<%a> }",      "{0}",             0, 1, Piece::CustomFmt { arg_kind: ArgKind::Positional(3),         spec: Spec::Runtime("%a") }),
        ("{éà :<%a>}",      "{0}",             0, 1, Piece::CustomFmt { arg_kind: ArgKind::Named(Id::new("éà")?), spec: Spec::Runtime("%a") }),
        ("{éà :<<<>>%a>}",  "{0}",             0, 1, Piece::CustomFmt { arg_kind: ArgKind::Named(Id::new("éà")?), spec: Spec::Runtime("<<>>%a") }),
        ("{}",              "{0}",             1, 1, Piece::StdFmt { arg_kind_position: ArgKind::Positional(0),         arg_kind_width: None,                                arg_kind_precision: None }),
        ("{:?}",            "{0:?}",           1, 1, Piece::StdFmt { arg_kind_position: ArgKind::Positional(0),         arg_kind_width: None,                                arg_kind_precision: None }),
        ("{3:? }",          "{0:?}",           0, 1, Piece::StdFmt { arg_kind_position: ArgKind::Positional(3),         arg_kind_width: None,                                arg_kind_precision: None }),
        ("{éà}",            "{0}",             0, 1, Piece::StdFmt { arg_kind_position: ArgKind::Named(Id::new("éà")?), arg_kind_width: None,                                arg_kind_precision: None }),
        ("{: ^+#03.6? }",   "{0: ^+#03.6?}",   1, 1, Piece::StdFmt { arg_kind_position: ArgKind::Positional(0),         arg_kind_width: None,                                arg_kind_precision: None }),
        ("{: ^+#0a$.6? }",  "{0: ^+#01$.6?}",  1, 2, Piece::StdFmt { arg_kind_position: ArgKind::Positional(0),         arg_kind_width: Some(ArgKind::Named(Id::new("a")?)), arg_kind_precision: None }),
        ("{: ^+#03.6$? }",  "{0: ^+#03.1$?}",  1, 2, Piece::StdFmt { arg_kind_position: ArgKind::Positional(0),         arg_kind_width: None,                                arg_kind_precision: Some(ArgKind::Positional(6)) }),
        ("{: ^+#03$.d$? }", "{0: ^+#01$.2$?}", 1, 3, Piece::StdFmt { arg_kind_position: ArgKind::Positional(0),         arg_kind_width: Some(ArgKind::Positional(3)),        arg_kind_precision: Some(ArgKind::Named(Id::new("d")?)) }),
        ("{: ^+#0z$.*? }",  "{0: ^+#01$.2$?}", 2, 3, Piece::StdFmt { arg_kind_position: ArgKind::Positional(1),         arg_kind_width: Some(ArgKind::Named(Id::new("z")?)), arg_kind_precision: Some(ArgKind::Positional(0)) }),
        ("{2: ^+#03$.*? }", "{0: ^+#01$.2$?}", 1, 3, Piece::StdFmt { arg_kind_position: ArgKind::Positional(2),         arg_kind_width: Some(ArgKind::Positional(3)),        arg_kind_precision: Some(ArgKind::Positional(0)) }),
        ("{:1$? }",         "{0:1$?}",         1, 2, Piece::StdFmt { arg_kind_position: ArgKind::Positional(0),         arg_kind_width: Some(ArgKind::Positional(1)),        arg_kind_precision: None }),
        ("{:.2$? }",        "{0:.1$?}",        1, 2, Piece::StdFmt { arg_kind_position: ArgKind::Positional(0),         arg_kind_width: None,                                arg_kind_precision: Some(ArgKind::Positional(2)) }),
        ("{:.*? }",         "{0:.1$?}",        2, 2, Piece::StdFmt { arg_kind_position: ArgKind::Positional(1),         arg_kind_width: None,                                arg_kind_precision: Some(ArgKind::Positional(0)) }),
        ("{a:.*? }",        "{0:.1$?}",        1, 2, Piece::StdFmt { arg_kind_position: ArgKind::Named(Id::new("a")?),  arg_kind_width: None,                                arg_kind_precision: Some(ArgKind::Positional(0)) }),
    ];

    for &(fmt, result_new_format_string, result_current_positional_index, result_new_current_index, ref result_piece) in &data {
        let mut new_format_string = String::new();
        let mut current_positional_index = 0;
        let mut new_current_index = 0;

        let piece = process_fmt(fmt, &mut current_positional_index, &mut new_format_string, &mut new_current_index)?;

        assert_eq!(new_format_string, result_new_format_string);
        assert_eq!(current_positional_index, result_current_positional_index);
        assert_eq!(new_current_index, result_new_current_index);
        assert_eq!(piece, *result_piece);
    }

    assert_eq!(process_fmt("{: ", &mut 0, &mut String::new(), &mut 0).unwrap_err(), "invalid format string");
    assert_eq!(process_fmt("{0éà0 :%a}", &mut 0, &mut String::new(), &mut 0).unwrap_err(), "invalid format string");
    assert_eq!(process_fmt("{0éà0}", &mut 0, &mut String::new(), &mut 0).unwrap_err(), "invalid format string");
    assert_eq!(process_fmt("{0:.}", &mut 0, &mut String::new(), &mut 0).unwrap_err(), "invalid count in format string");
    assert_eq!(process_fmt("{_:?}", &mut 0, &mut String::new(), &mut 0).unwrap_err(), "invalid argument: argument name cannot be a single underscore");

    Ok(())
}

#[test]
fn test_parse_format_string() -> Result<(), String> {
    let format_string = "aaaa }} {{}}{} {{{{ \" {:#.*} #{h :<z>} {e \u{3A}3xxx\u{47}xxxxxxx  }, {:?}, { :}, {:?}, {},,{}, {8 :<>}";

    let result_new_format_string = "aaaa }} {{}}{0} {{{{ \" {1:#.2$} #{3} {4}, {5:?}, {6}, {7:?}, {8},,{9}, {10}";

    let result_pieces = [
        Piece::StdFmt { arg_kind_position: ArgKind::Positional(0), arg_kind_width: None, arg_kind_precision: None },
        Piece::StdFmt { arg_kind_position: ArgKind::Positional(2), arg_kind_width: None, arg_kind_precision: Some(ArgKind::Positional(1)) },
        Piece::CustomFmt { arg_kind: ArgKind::Named(Id::new("h")?), spec: Spec::Runtime("z") },
        Piece::CustomFmt { arg_kind: ArgKind::Named(Id::new("e")?), spec: Spec::CompileTime("3xxxGxxxxxxx") },
        Piece::StdFmt { arg_kind_position: ArgKind::Positional(3), arg_kind_width: None, arg_kind_precision: None },
        Piece::CustomFmt { arg_kind: ArgKind::Positional(4), spec: Spec::CompileTime("") },
        Piece::StdFmt { arg_kind_position: ArgKind::Positional(5), arg_kind_width: None, arg_kind_precision: None },
        Piece::StdFmt { arg_kind_position: ArgKind::Positional(6), arg_kind_width: None, arg_kind_precision: None },
        Piece::StdFmt { arg_kind_position: ArgKind::Positional(7), arg_kind_width: None, arg_kind_precision: None },
        Piece::CustomFmt { arg_kind: ArgKind::Positional(8), spec: Spec::Runtime("") },
    ];

    let (new_format_string, pieces) = parse_format_string(format_string)?;

    assert_eq!(new_format_string, result_new_format_string);
    assert_eq!(pieces, result_pieces);

    Ok(())
}

#[test]
fn literal_text_and_escapes_rewrite_to_themselves() {
    let (new_format_string, pieces) = parse_format_string("a {{b}} c}} {{{{").unwrap();
    assert_eq!(new_format_string, "a {{b}} c}} {{{{");
    assert!(pieces.is_empty());
    let (new_format_string, pieces) = parse_format_string("").unwrap();
    assert_eq!(new_format_string, "");
    assert!(pieces.is_empty());
}

#[test]
fn custom_spec_without_brackets_is_compile_time() {
    let mut s = String::new();
    let piece = process_fmt("{ :x}", &mut 0, &mut s, &mut 0).unwrap();
    assert_eq!(piece, Piece::CustomFmt { arg_kind: ArgKind::Positional(0), spec: Spec::CompileTime("x") });
}

#[test]
fn custom_spec_in_brackets_is_runtime() {
    let mut s = String::new();
    let piece = process_fmt("{ :<x>}", &mut 0, &mut s, &mut 0).unwrap();
    assert_eq!(piece, Piece::CustomFmt { arg_kind: ArgKind::Positional(0), spec: Spec::Runtime("x") });
}

#[test]
fn implicit_positions_go_left_to_right() {
    let (new_format_string, pieces) = parse_format_string("{} {} {}").unwrap();
    assert_eq!(new_format_string, "{0} {1} {2}");
    let expected: Vec<Piece> = (0..3)
        .map(|i| Piece::StdFmt { arg_kind_position: ArgKind::Positional(i), arg_kind_width: None, arg_kind_precision: None })
        .collect();
    assert_eq!(pieces, expected);
}

#[test]
fn unclosed_placeholder_is_rejected() {
    assert_eq!(parse_format_string("abc {").unwrap_err(), "invalid format string");
    assert_eq!(parse_format_string("abc {0").unwrap_err(), "invalid format string");
}

#[test]
fn rewritten_indices_use_several_digits() {
    let template = "{}".repeat(12);
    let (new_format_string, pieces) = parse_format_string(&template).unwrap();
    assert_eq!(new_format_string, "{0}{1}{2}{3}{4}{5}{6}{7}{8}{9}{10}{11}");
    assert_eq!(pieces.len(), 12);
}
