use oxidian::config::MathEngine;
use oxidian::preamble::{convert_preamble, parse_preamble, KatexFormatter, MathjaxFormatter, SyntaxError, TexCommand};

fn test_valid(input_string: &str, expected: &[TexCommand]) {
    for (result, correct) in parse_preamble(input_string).into_iter().zip(expected) {
        match result {
            Ok(res) => assert_eq!(&res, correct),
            Err(e) => panic!("{:?}", e),
        }
    }
}

fn test_invalid(input_string: &str) {
    for result in parse_preamble(input_string) {
        assert!(result.is_err())
    }
}

#[test]
fn basic_newcommand() {
    test_valid(r"\newcommand{\name}[1]{#1}", &vec![TexCommand::newcommand(r"\name", "#1").with_args(1)]);
}

#[test]
fn basic_optional_arg() {
    test_valid(
        r"\newcommand{\area}[2][m^2]{#1 \times #2}",
        &vec![TexCommand::newcommand(r"\area", r"#1\times #2").with_defaults(2, r"m^2")],
    );
}

#[test]
fn nested_commands() {
    test_valid(
        r"\newcommand{\mycommand}[1]{\textbf{#1}}",
        &vec![TexCommand::newcommand(r"\mycommand", r"\textbf{#1}").with_args(1)],
    );
}

#[test]
fn renewcommand() {
    test_valid(
        r"\renewcommand{\emph}[1]{\underline{#1}}",
        &vec![TexCommand::renewcommand(r"\emph", r"\underline{#1}").with_args(1)],
    );
}

#[test]
fn mathoperator_basic() {
    test_valid(r"\DeclareNewMathOperator{\myOperator}{sin}", &vec![TexCommand::declare_math_operator(r"\myOperator", r"sin")]);
}

#[test]
fn missing_argument_count() {
    test_invalid(r"\newcommand{\myOperator}[default]{sin}");
}

#[test]
fn wrong_command() {
    test_invalid(r"\newcommans{\myOperator}{sin}");
}

#[test]
fn wrong_command2() {
    test_invalid(r"\newcommando{\myOperator}{sin}");
}

#[test]
fn missing_body() {
    test_invalid(r"\newcommand{\myOperator}");
}

#[test]
fn definitions_are_read_in_order() {
    let results = parse_preamble("% a comment\n\\newcommand{\\R}{\\mathbb{R}}\n\\DeclareMathOperator*{\\argmax}{arg\\,max}\n");
    assert_eq!(results.len(), 2);
    assert_eq!(results[0], Ok(TexCommand::newcommand(r"\R", r"\mathbb{R}")));
    assert_eq!(results[1], Err(SyntaxError::PrematureEnd));
    let bad = parse_preamble(r"\newcommand{\x}[300]{y}");
    assert!(matches!(bad[0], Err(SyntaxError::InvalidNumber(_))));
    let op = parse_preamble(r"\DeclareMathOperator{\sgn}[1]{sgn} ");
    assert_eq!(op[0], Err(SyntaxError::NoArguments));
}

#[test]
fn engine_entries() {
    assert_eq!(KatexFormatter::fmt_newcommand(r"\R", r"\mathbb{R}", None, &None), r#""\R": "\mathbb{R}""#);
    assert_eq!(MathjaxFormatter::fmt_newcommand(r"\R", r"\mathbb{R}", None, &None), r#""R": "\mathbb{R}""#);
    assert_eq!(MathjaxFormatter::fmt_newcommand(r"\f", "#1", Some(2), &Some("x".to_string())), r##""f": ["#1", 2, "x"]"##);
    assert_eq!(MathjaxFormatter::fmt_newcommand(r"\f", "#1", Some(1), &None), r##""f": ["#1", 1]"##);
    assert_eq!(KatexFormatter::fmt_declaremathoperator(r"\sgn", "sgn", true), r#""\sgn": "\operatorname*{sgn}""#);
    assert_eq!(MathjaxFormatter::fmt_declaremathoperator(r"\sgn", "sgn", false), r#""sgn": "\operatorname{sgn}""#);
    let cfg = convert_preamble("\\newcommand{\\R}{\\mathbb{R}}\n\\newcommand{\\N}{\\mathbb{N}}", MathEngine::Katex);
    assert_eq!(cfg, "\"\\\\R\": \"\\\\mathbb{R}\",\n\"\\\\N\": \"\\\\mathbb{N}\"");
}
