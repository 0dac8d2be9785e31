use custom_format::field::ArgKind;
use custom_format::ident::Id;
use custom_format::resolve::{process_format_string, process_pieces, Argument};
use custom_format::template::{Piece, Spec};
use proc_macro2::{Delimiter, Group, TokenStream};

fn create_argument(name: Option<&str>) -> Argument {
    let expr = Group::new(Delimiter::Parenthesis, TokenStream::new());
    Argument { ident: name.map(|x| x.to_owned()), expr }
}

#[test]
fn test_process_pieces() -> Result<(), String> {
    let pieces = vec![
        Piece::StdFmt { arg_kind_position: ArgKind::Named(Id::new("h")?), arg_kind_width: None, arg_kind_precision: None },
        Piece::CustomFmt { arg_kind: ArgKind::Named(Id::new("h")?), spec: Spec::CompileTime("%z") },
        Piece::StdFmt { arg_kind_position: ArgKind::Positional(1), arg_kind_width: None, arg_kind_precision: None },
        Piece::StdFmt { arg_kind_position: ArgKind::Named(Id::new("a")?), arg_kind_width: None, arg_kind_precision: None },
        Piece::StdFmt { arg_kind_position: ArgKind::Positional(3), arg_kind_width: None, arg_kind_precision: None },
        Piece::StdFmt { arg_kind_position: ArgKind::Named(Id::new("b")?), arg_kind_width: None, arg_kind_precision: None },
        Piece::StdFmt { arg_kind_position: ArgKind::Positional(1), arg_kind_width: None, arg_kind_precision: Some(ArgKind::Positional(0)) },
        Piece::StdFmt { arg_kind_position: ArgKind::Positional(3), arg_kind_width: Some(ArgKind::Named(Id::new("g")?)), arg_kind_precision: None },
    ];

    let arguments = [create_argument(None), create_argument(Some("a")), create_argument(Some("b")), create_argument(Some("c"))];

    let result_arg_indices =
        [(4, None), (4, Some(Spec::CompileTime("%z"))), (1, None), (1, None), (3, None), (2, None), (1, None), (0, None), (3, None), (5, None)];

    let result_new_args = ["h", "g"];

    let processed_pieces = process_pieces(pieces, &arguments)?;
    assert_eq!(processed_pieces.arg_indices, result_arg_indices);
    assert_eq!(processed_pieces.new_args, result_new_args);

    assert_eq!(process_pieces(vec![], &[create_argument(Some("a")), create_argument(Some("a"))]).unwrap_err(), "duplicate argument named `a`");
    assert_eq!(process_pieces(vec![], &[create_argument(None)]).unwrap_err(), "positional argument 0 not used");
    assert_eq!(process_pieces(vec![], &[create_argument(Some("a"))]).unwrap_err(), "named argument `a` not used");

    assert_eq!(
        process_pieces(vec![], &[create_argument(Some("é")), create_argument(None)]).unwrap_err(),
        "positional arguments cannot follow named arguments"
    );

    assert_eq!(
        process_pieces(vec![Piece::CustomFmt { arg_kind: ArgKind::Positional(0), spec: Spec::CompileTime("") }], &[]).unwrap_err(),
        "invalid positional argument index: 0"
    );

    Ok(())
}

#[test]
fn implicit_positions_resolve_in_order() {
    let args = [create_argument(None), create_argument(None), create_argument(None)];
    let (_, processed) = process_format_string("{} {} {}", &args).unwrap();
    assert_eq!(processed.arg_indices, vec![(0, None), (1, None), (2, None)]);
    assert!(processed.new_args.is_empty());
}

#[test]
fn asterisk_precision_takes_first_implicit_slot() {
    let args = [create_argument(None), create_argument(None)];
    let (new_format_string, processed) = process_format_string("{:.*}", &args).unwrap();
    assert_eq!(new_format_string, "{0:.1$}");
    // position first, then precision
    assert_eq!(processed.arg_indices, vec![(1, None), (0, None)]);
}

#[test]
fn repeated_captured_name_is_captured_once() {
    let (new_format_string, processed) = process_format_string("{x} {x}", &[]).unwrap();
    assert_eq!(new_format_string, "{0} {1}");
    assert_eq!(processed.new_args, vec!["x"]);
    assert_eq!(processed.arg_indices, vec![(0, None), (0, None)]);
}

#[test]
fn argument_used_twice_is_accepted() {
    let args = [create_argument(None)];
    let (_, processed) = process_format_string("{0} {0}", &args).unwrap();
    assert_eq!(processed.arg_indices, vec![(0, None), (0, None)]);
}

#[test]
fn unused_second_argument_is_rejected() {
    let args = [create_argument(None), create_argument(None)];
    assert_eq!(process_format_string("{}", &args).unwrap_err(), "positional argument 1 not used");
}

#[test]
fn positional_after_named_is_rejected_whatever_the_template() {
    let args = [create_argument(None), create_argument(Some("a")), create_argument(None)];
    assert_eq!(process_format_string("{0} {a} {2}", &args).unwrap_err(), "positional arguments cannot follow named arguments");
    assert_eq!(process_format_string("", &args).unwrap_err(), "positional arguments cannot follow named arguments");
}

#[test]
fn end_to_end_capture_and_rewrite() {
    let args = [create_argument(None)];
    let (new_format_string, processed) = process_format_string("{a}-{}-{a}", &args).unwrap();
    assert_eq!(new_format_string, "{0}-{1}-{2}");
    assert_eq!(processed.new_args, vec!["a"]);
    assert_eq!(processed.arg_indices, vec![(1, None), (0, None), (1, None)]);
}

#[test]
fn custom_spec_is_carried_to_its_slot() {
    let args = [create_argument(None)];
    let (new_format_string, processed) = process_format_string("{ :<x>} {0 :y}", &args).unwrap();
    assert_eq!(new_format_string, "{0} {1}");
    assert_eq!(processed.arg_indices, vec![(0, Some(Spec::Runtime("x"))), (0, Some(Spec::CompileTime("y")))]);
}

#[test]
fn named_argument_resolves_to_its_slot() {
    let args = [create_argument(None), create_argument(Some("b"))];
    let (_, processed) = process_format_string("{b} {}", &args).unwrap();
    assert_eq!(processed.arg_indices, vec![(1, None), (0, None)]);
    let pieces = vec![Piece::StdFmt { arg_kind_position: ArgKind::Named(Id::new("b").unwrap()), arg_kind_width: None, arg_kind_precision: None }];
    assert_eq!(process_pieces(pieces, &args).unwrap_err(), "positional argument 0 not used");
}
