use filter_lib::netlist::parser::{tokenize_line, Token};
use filter_lib::text::{char_is_digit, chars_of, string_of, to_decimal};

#[test]
fn numbers_are_written_without_leading_zeros() {
    assert_eq!(to_decimal(0), "0");
    assert_eq!(to_decimal(7), "7");
    assert_eq!(to_decimal(10), "10");
    assert_eq!(to_decimal(1203), "1203");
    assert_eq!(to_decimal(usize::MAX), format!("{}", usize::MAX));
}

#[test]
fn only_the_ten_ascii_digits_are_digits() {
    for c in "0123456789".chars() {
        assert!(char_is_digit(c));
    }
    for c in ['/', ':', 'a', ' ', '\u{b2}', '\u{660}'] {
        assert!(!char_is_digit(c));
    }
}

#[test]
fn a_text_is_its_characters() {
    assert_eq!(chars_of("a\u{e9}1"), vec!['a', '\u{e9}', '1']);
    assert_eq!(chars_of(""), Vec::<char>::new());
    let chars = chars_of("hello");
    assert_eq!(string_of(&chars, 1, 4), "ell");
    assert_eq!(string_of(&chars, 2, 2), "");
    assert_eq!(string_of(&chars, 0, 5), "hello");
}

#[test]
fn whitespace_and_letters_are_those_of_unicode() {
    // a no-break space separates, a letter with an accent belongs to a name
    let (tokens, indexes) = tokenize_line("R\u{e9}1\u{a0}\u{3000}5");
    assert_eq!(tokens.len(), 3);
    assert!(matches!(&tokens[0], Token::Ident(name) if name == "R\u{e9}1"));
    assert!(matches!(tokens[1], Token::Integer(5)));
    assert_eq!(indexes, vec![0, 5, 6]);
    // a roman numeral is a letter, and may go on a name
    let (tokens, _) = tokenize_line("x\u{2167}");
    assert_eq!(tokens.len(), 2);
    // a digit of another script goes on a name but begins none and no number
    let (tokens, _) = tokenize_line("a\u{661} \u{661}");
    assert!(matches!(&tokens[0], Token::Ident(name) if name == "a\u{661}"));
    assert!(matches!(tokens[1], Token::Symbol('\u{661}')));
}
