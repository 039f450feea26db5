use filter_lib::netlist::parser::{split_lines, tokenize_line, Parser, Token, TokenKind};

fn kinds(line: &str) -> Vec<TokenKind> {
    tokenize_line(line).0.iter().map(|t| t.kind()).collect()
}

fn columns(line: &str) -> Vec<usize> {
    tokenize_line(line).1
}

#[test]
fn a_resistor_line_gives_a_name_and_three_integers() {
    let (tokens, indexes) = tokenize_line("R1 1 2 1000");
    assert_eq!(tokens.len(), 5);
    assert!(matches!(&tokens[0], Token::Ident(name) if name == "R1"));
    assert!(matches!(tokens[1], Token::Integer(1)));
    assert!(matches!(tokens[2], Token::Integer(2)));
    assert!(matches!(tokens[3], Token::Integer(1000)));
    assert!(matches!(tokens[4], Token::Newline));
    assert_eq!(indexes, vec![0, 3, 5, 7, 11]);
}

#[test]
fn a_number_with_a_point_is_a_value() {
    let (tokens, indexes) = tokenize_line("C3 2 0 0.000005");
    assert!(matches!(&tokens[3], Token::Value(v) if v.value() == "0.000005"));
    assert_eq!(indexes, vec![0, 3, 5, 7, 15]);
}

#[test]
fn a_point_may_end_a_value() {
    let (tokens, _) = tokenize_line("1.");
    assert_eq!(tokens.len(), 2);
    assert!(matches!(&tokens[0], Token::Value(v) if v.value() == "1."));
}

#[test]
fn a_second_point_begins_a_new_token() {
    let (tokens, indexes) = tokenize_line("1.5.2");
    assert_eq!(tokens.len(), 4);
    assert!(matches!(&tokens[0], Token::Value(v) if v.value() == "1.5"));
    assert!(matches!(tokens[1], Token::Symbol('.')));
    assert!(matches!(tokens[2], Token::Integer(2)));
    assert_eq!(indexes, vec![0, 3, 4, 5]);
}

#[test]
fn an_integer_too_large_for_the_machine_is_a_value() {
    let (tokens, _) = tokenize_line("99999999999999999999999999");
    assert_eq!(tokens.len(), 2);
    assert!(matches!(&tokens[0], Token::Value(v) if v.value() == "99999999999999999999999999"));
}

#[test]
fn the_largest_integer_is_an_integer() {
    let text = format!("{}", usize::MAX);
    let (tokens, _) = tokenize_line(&text);
    assert!(matches!(tokens[0], Token::Integer(n) if n == usize::MAX));
}

#[test]
fn leading_zeros_do_not_change_an_integer() {
    let (tokens, _) = tokenize_line("007");
    assert!(matches!(tokens[0], Token::Integer(7)));
}

#[test]
fn an_expression_is_split_at_its_symbols() {
    assert_eq!(
        kinds("4*sin(1000+10000*t)+30*t"),
        vec![
            TokenKind::Integer,
            TokenKind::Symbol,
            TokenKind::Ident,
            TokenKind::Symbol,
            TokenKind::Integer,
            TokenKind::Symbol,
            TokenKind::Integer,
            TokenKind::Symbol,
            TokenKind::Ident,
            TokenKind::Symbol,
            TokenKind::Symbol,
            TokenKind::Integer,
            TokenKind::Symbol,
            TokenKind::Ident,
            TokenKind::Newline,
        ]
    );
}

#[test]
fn a_name_goes_on_through_letters_and_digits() {
    let (tokens, _) = tokenize_line("Rg1x2 ");
    assert!(matches!(&tokens[0], Token::Ident(name) if name == "Rg1x2"));
    assert_eq!(tokens.len(), 2);
}

#[test]
fn a_digit_after_an_integer_that_is_no_ascii_digit_is_a_symbol() {
    let (tokens, indexes) = tokenize_line("1\u{b2}");
    assert_eq!(tokens.len(), 3);
    assert!(matches!(tokens[0], Token::Integer(1)));
    assert!(matches!(tokens[1], Token::Symbol('\u{b2}')));
    assert_eq!(indexes, vec![0, 1, 2]);
}

#[test]
fn columns_count_characters() {
    assert_eq!(columns("\u{e9}t\u{e9} 5"), vec![0, 4, 5]);
}

#[test]
fn whitespace_separates_and_is_skipped() {
    assert_eq!(columns("  R1\t 12   "), vec![2, 6, 11]);
    assert_eq!(kinds("  R1\t 12   "), vec![TokenKind::Ident, TokenKind::Integer, TokenKind::Newline]);
}

#[test]
fn an_empty_line_is_its_end_alone() {
    assert_eq!(kinds(""), vec![TokenKind::Newline]);
    assert_eq!(columns(""), vec![0]);
    assert_eq!(kinds("   "), vec![TokenKind::Newline]);
    assert_eq!(columns("   "), vec![3]);
}

#[test]
fn lines_end_at_line_feeds() {
    assert_eq!(split_lines("a\nb\nc"), vec!["a", "b", "c"]);
    assert_eq!(split_lines("a\nb\n"), vec!["a", "b"]);
    assert_eq!(split_lines("\n"), vec![""]);
    assert_eq!(split_lines("\n\nx"), vec!["", "", "x"]);
    assert_eq!(split_lines(""), Vec::<String>::new());
}

#[test]
fn a_carriage_return_before_a_line_feed_belongs_to_the_ending() {
    assert_eq!(split_lines("a\r\nb"), vec!["a", "b"]);
    assert_eq!(split_lines("\r\n"), vec![""]);
    assert_eq!(split_lines("a\rb"), vec!["a\rb"]);
    assert_eq!(split_lines("a\r"), vec!["a\r"]);
    assert_eq!(split_lines("a\r\r\n"), vec!["a\r"]);
}

#[test]
fn lines_are_those_of_the_standard_library() {
    for text in ["", "a", "a\n", "a\r\n\r\nb", "\r", "x\ry\n\nz\r", "\n\r\n\n"] {
        let expected: Vec<String> = text.lines().map(|l| l.to_owned()).collect();
        assert_eq!(split_lines(text), expected);
    }
}

#[test]
fn a_parser_walks_the_tokens_line_by_line() {
    let mut parser = Parser::new("R1 1\n\nD2".to_owned());
    assert!(parser.more_lines());
    assert!(matches!(parser.peek(), Token::Ident(name) if name == "R1"));
    assert_eq!(parser.expect_ident().unwrap(), "R1");
    assert!(matches!(parser.expect(TokenKind::Integer), Ok(Token::Integer(1))));
    assert_eq!(parser.cur_location().line_num(), 1);
    assert_eq!(parser.cur_location().column(), 4);
    assert!(parser.expect(TokenKind::Newline).is_ok());
    assert_eq!(parser.cur_location().line_num(), 2);
    assert!(matches!(parser.peek(), Token::Newline));
    assert!(parser.expect(TokenKind::Newline).is_ok());
    assert_eq!(parser.cur_location().line_num(), 3);
    assert_eq!(parser.cur_location().line(), "D2");
    assert_eq!(parser.expect_ident().unwrap(), "D2");
    assert!(parser.more_lines());
    assert!(parser.expect(TokenKind::Newline).is_ok());
    assert!(!parser.more_lines());
}

#[test]
fn a_parser_past_the_last_line_stays_at_an_empty_line() {
    let mut parser = Parser::new("".to_owned());
    assert!(!parser.more_lines());
    assert!(matches!(parser.peek(), Token::Newline));
    let location = parser.cur_location();
    assert_eq!((location.line_num(), location.column(), location.line()), (1, 0, ""));
    assert!(parser.expect(TokenKind::Newline).is_ok());
    assert_eq!(parser.cur_location().line_num(), 1);
    assert!(!parser.more_lines());
}

#[test]
fn a_token_of_another_kind_is_not_taken() {
    let mut parser = Parser::new("  R1 5".to_owned());
    let e = parser.expect(TokenKind::Integer).unwrap_err();
    assert_eq!(e.message(), "Expected Integer");
    assert_eq!(e.location().line_num(), 1);
    assert_eq!(e.location().column(), 2);
    assert_eq!(e.location().line(), "  R1 5");
    assert!(matches!(parser.peek(), Token::Ident(_)));
    assert_eq!(parser.expect(TokenKind::Value).unwrap_err().message(), "Expected Value");
    assert_eq!(parser.expect(TokenKind::Symbol).unwrap_err().message(), "Expected Symbol");
    assert_eq!(parser.expect(TokenKind::Newline).unwrap_err().message(), "Expected Newline");
    assert!(parser.expect(TokenKind::Ident).is_ok());
    assert_eq!(parser.expect(TokenKind::Ident).unwrap_err().message(), "Expected Ident");
    assert_eq!(parser.expect_ident().unwrap_err().message(), "Expected identifier");
}

#[test]
fn a_value_is_an_integer_or_a_number_with_a_point() {
    let mut parser = Parser::new("12 0.5 x".to_owned());
    assert_eq!(parser.expect_value().unwrap().value(), "12");
    assert_eq!(parser.expect_value().unwrap().value(), "0.5");
    let e = parser.expect_value().unwrap_err();
    assert_eq!(e.message(), "Expected value");
    assert_eq!(e.location().column(), 7);
}

#[test]
fn a_symbol_is_taken_only_if_it_is_the_one_expected() {
    let mut parser = Parser::new("( +".to_owned());
    let e = parser.expect_symbol(')').unwrap_err();
    assert_eq!(e.message(), "Expected ')'");
    assert_eq!(e.location().column(), 0);
    assert!(parser.expect_symbol('(').is_ok());
    assert!(parser.expect_symbol('+').is_ok());
    assert_eq!(parser.expect_symbol('+').unwrap_err().message(), "Expected '+'");
}

#[test]
fn a_location_becomes_an_error() {
    let parser = Parser::new("abc".to_owned());
    let e = parser.cur_location().into_error_named("Something".to_owned());
    assert_eq!(e.message(), "Something");
    assert_eq!(e.location().line(), "abc");
    let e = parser
        .cur_location()
        .into_error(filter_lib::netlist::parser::ParseErrorCondition::Named("Other".to_owned()));
    assert_eq!(e.message(), "Other");
    assert_eq!(e.location().line_num(), 1);
}
