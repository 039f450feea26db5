//! Tokens, and a cursor over the tokens of a text, line by line.

use super::value::Value;
use crate::text::texts_of;
use crate::text::{
    all_digits, char_is_digit, chars_of, decimal_value, digit_value, alphabetic, alphanumeric,
    is_digit, whitespace, string_of,
};
use vstd::prelude::*;
use vstd::string::StringExecFns;

verus! {

/// The kinds of token.
#[derive(Clone, Copy, PartialEq, Eq, Debug, Structural)]
pub enum TokenKind {
    Integer,
    Value,
    Ident,
    Symbol,
    Newline,
}

/// A token of a line.
#[derive(Debug)]
pub enum Token {
    /// A whole number that fits the machine.
    Integer(usize),
    /// A number with a decimal point, or a whole number too large for the machine.
    Value(Value),
    /// A name: a letter followed by letters and digits.
    Ident(String),
    /// Any other character.
    Symbol(char),
    /// The end of the line.
    Newline,
}

/// A token with its texts as sequences of characters.
pub ghost enum TokenModel {
    Integer(nat),
    Value(Seq<char>),
    Ident(Seq<char>),
    Symbol(char),
    Newline,
}

impl TokenModel {
    /// The kind of the token.
    pub open spec fn kind(self) -> TokenKind {
        match self {
            TokenModel::Integer(_) => TokenKind::Integer,
            TokenModel::Value(_) => TokenKind::Value,
            TokenModel::Ident(_) => TokenKind::Ident,
            TokenModel::Symbol(_) => TokenKind::Symbol,
            TokenModel::Newline => TokenKind::Newline,
        }
    }
}

impl View for Token {
    type V = TokenModel;

    open spec fn view(&self) -> TokenModel {
        match self {
            Token::Integer(n) => TokenModel::Integer(*n as nat),
            Token::Value(v) => TokenModel::Value(v@),
            Token::Ident(s) => TokenModel::Ident(s@),
            Token::Symbol(c) => TokenModel::Symbol(*c),
            Token::Newline => TokenModel::Newline,
        }
    }
}

impl Token {
    /// The kind of the token.
    pub fn kind(&self) -> (r: TokenKind)
        ensures
            r == self@.kind(),
    {
        match self {
            Token::Integer(_) => TokenKind::Integer,
            Token::Value(_) => TokenKind::Value,
            Token::Ident(_) => TokenKind::Ident,
            Token::Symbol(_) => TokenKind::Symbol,
            Token::Newline => TokenKind::Newline,
        }
    }
}

impl Clone for Token {
    fn clone(&self) -> (r: Self)
        ensures
            r@ == self@,
    {
        match self {
            Token::Integer(n) => Token::Integer(*n),
            Token::Value(v) => Token::Value(v.clone()),
            Token::Ident(s) => Token::Ident(s.clone()),
            Token::Symbol(c) => Token::Symbol(*c),
            Token::Newline => Token::Newline,
        }
    }
}

/// A token and the column at which it begins.
pub ghost struct Lexeme {
    pub token: TokenModel,
    pub column: nat,
}

/// The number of whitespace characters of `line` from `i` up to the next other character.
pub open spec fn whitespace_run(line: Seq<char>, i: int) -> nat
    decreases line.len() - i,
{
    if 0 <= i < line.len() && whitespace(line[i]) {
        1 + whitespace_run(line, i + 1)
    } else {
        0
    }
}

/// The number of digits of `line` from `i` up to the next other character.
pub open spec fn digit_run(line: Seq<char>, i: int) -> nat
    decreases line.len() - i,
{
    if 0 <= i < line.len() && is_digit(line[i]) {
        1 + digit_run(line, i + 1)
    } else {
        0
    }
}

/// The number of letters and digits of `line` from `i` up to the next other character.
pub open spec fn alphanumeric_run(line: Seq<char>, i: int) -> nat
    decreases line.len() - i,
{
    if 0 <= i < line.len() && alphanumeric(line[i]) {
        1 + alphanumeric_run(line, i + 1)
    } else {
        0
    }
}

/// The token that begins at `start`, where `line` has a character that is no whitespace,
/// and the place where it ends.
///
/// A digit begins a number: digits, then possibly a point and more digits. With a point
/// it is a value; without one it is an integer if it fits the machine, else a value. A
/// letter begins a name, which goes on through letters and digits. Any other character is
/// a symbol by itself.
pub open spec fn lex_at(line: Seq<char>, start: int) -> (TokenModel, int) {
    let c = line[start];
    if is_digit(c) {
        let point = start + 1 + digit_run(line, start + 1);
        if point < line.len() && line[point] == '.' {
            let end = point + 1 + digit_run(line, point + 1);
            (TokenModel::Value(line.subrange(start, end)), end)
        } else {
            let numeral = line.subrange(start, point);
            if decimal_value(numeral) <= usize::MAX {
                (TokenModel::Integer(decimal_value(numeral)), point)
            } else {
                (TokenModel::Value(numeral), point)
            }
        }
    } else if alphabetic(c) {
        let end = start + 1 + alphanumeric_run(line, start + 1);
        (TokenModel::Ident(line.subrange(start, end)), end)
    } else {
        (TokenModel::Symbol(c), start + 1)
    }
}

/// The tokens of `line` from `i` on. The last is the end of the line, and it alone.
pub open spec fn lex_from(line: Seq<char>, i: int) -> Seq<Lexeme>
    decreases line.len() - i,
{
    let start = i + whitespace_run(line, i);
    if 0 <= start < line.len() {
        proof {
            lemma_lex_at(line, start);
        }
        seq![Lexeme { token: lex_at(line, start).0, column: start as nat }] + lex_from(
            line,
            lex_at(line, start).1,
        )
    } else {
        seq![Lexeme { token: TokenModel::Newline, column: start as nat }]
    }
}

/// The tokens of `line`.
pub open spec fn lex(line: Seq<char>) -> Seq<Lexeme> {
    lex_from(line, 0)
}

/// The tokens `tokens` with the columns `columns`.
pub open spec fn lexemes_of(tokens: Seq<Token>, columns: Seq<usize>) -> Seq<Lexeme> {
    Seq::new(tokens.len(), |i: int| Lexeme { token: tokens[i]@, column: columns[i] as nat })
}

/// One more token with its column is one more lexeme.
proof fn lemma_lexemes_push(tokens: Seq<Token>, columns: Seq<usize>, token: Token, column: usize)
    requires
        tokens.len() == columns.len(),
    ensures
        lexemes_of(tokens.push(token), columns.push(column)) == lexemes_of(tokens, columns).push(
            Lexeme { token: token@, column: column as nat },
        ),
{
    assert(lexemes_of(tokens.push(token), columns.push(column)) =~= lexemes_of(tokens, columns).push(
        Lexeme { token: token@, column: column as nat },
    ));
}

/// A run of whitespace ends inside the line or at its end, at a character that is none.
proof fn lemma_whitespace_run(line: Seq<char>, i: int)
    requires
        0 <= i <= line.len(),
    ensures
        i + whitespace_run(line, i) <= line.len(),
        i + whitespace_run(line, i) < line.len() ==> !whitespace(
            line[i + whitespace_run(line, i)],
        ),
    decreases line.len() - i,
{
    if i < line.len() && whitespace(line[i]) {
        lemma_whitespace_run(line, i + 1);
    }
}

/// A run of digits holds digits only and ends inside the line or at its end, at a
/// character that is none.
pub proof fn lemma_digit_run(line: Seq<char>, i: int)
    requires
        0 <= i <= line.len(),
    ensures
        i + digit_run(line, i) <= line.len(),
        all_digits(line.subrange(i, i + digit_run(line, i))),
        i + digit_run(line, i) < line.len() ==> !is_digit(line[i + digit_run(line, i)]),
    decreases line.len() - i,
{
    if i < line.len() && is_digit(line[i]) {
        lemma_digit_run(line, i + 1);
        let run = line.subrange(i, i + digit_run(line, i));
        let rest = line.subrange(i + 1, i + 1 + digit_run(line, i + 1));
        assert forall|k: int| 0 <= k < run.len() implies is_digit(#[trigger] run[k]) by {
            if k > 0 {
                assert(run[k] == rest[k - 1]);
            }
        }
    }
}

/// A run of letters and digits ends inside the line or at its end.
proof fn lemma_alphanumeric_run(line: Seq<char>, i: int)
    requires
        0 <= i <= line.len(),
    ensures
        i + alphanumeric_run(line, i) <= line.len(),
    decreases line.len() - i,
{
    if i < line.len() && alphanumeric(line[i]) {
        lemma_alphanumeric_run(line, i + 1);
    }
}

/// A token ends after it begins, inside the line or at its end.
pub proof fn lemma_lex_at(line: Seq<char>, start: int)
    requires
        0 <= start < line.len(),
    ensures
        start < lex_at(line, start).1 <= line.len(),
        !(lex_at(line, start).0 is Newline),
{
    lemma_digit_run(line, start + 1);
    lemma_alphanumeric_run(line, start + 1);
    let point = start + 1 + digit_run(line, start + 1);
    if point < line.len() {
        lemma_digit_run(line, point + 1);
    }
}

/// The tokens of a line end with the end of the line, which stands nowhere else, and
/// each begins inside the line or at its end.
pub proof fn lemma_lex_from(line: Seq<char>, i: int)
    requires
        0 <= i <= line.len(),
    ensures
        lex_from(line, i).len() >= 1,
        forall|k: int|
            0 <= k < lex_from(line, i).len() ==> ((#[trigger] lex_from(line, i)[k]).token is Newline
                <==> k == lex_from(line, i).len() - 1),
        forall|k: int|
            0 <= k < lex_from(line, i).len() ==> (#[trigger] lex_from(line, i)[k]).column
                <= line.len(),
    decreases line.len() - i,
{
    lemma_whitespace_run(line, i);
    let start = i + whitespace_run(line, i);
    if start < line.len() {
        lemma_lex_at(line, start);
        lemma_lex_from(line, lex_at(line, start).1);
    }
}

/// A name among the tokens of a line has a first letter.
pub proof fn lemma_idents_nonempty(line: Seq<char>, i: int)
    requires
        0 <= i <= line.len(),
    ensures
        forall|k: int|
            0 <= k < lex_from(line, i).len() ==> ((#[trigger] lex_from(line, i)[k]).token matches TokenModel::Ident(
                name,
            ) ==> name.len() >= 1),
    decreases line.len() - i,
{
    lemma_whitespace_run(line, i);
    let start = i + whitespace_run(line, i);
    if start < line.len() {
        lemma_lex_at(line, start);
        lemma_alphanumeric_run(line, start + 1);
        lemma_idents_nonempty(line, lex_at(line, start).1);
    }
}

/// The number written by a longer run of digits is no smaller.
proof fn lemma_decimal_value_grows(s: Seq<char>, k: int)
    requires
        0 <= k <= s.len(),
    ensures
        decimal_value(s.take(k)) <= decimal_value(s),
    decreases s.len(),
{
    if k < s.len() {
        lemma_decimal_value_grows(s.drop_last(), k);
        assert(s.drop_last().take(k) =~= s.take(k));
    } else {
        assert(s.take(k) =~= s);
    }
}

/// The number written by the digits `chars[from..to]`, if it fits the machine.
fn to_integer(chars: &Vec<char>, from: usize, to: usize) -> (r: Option<usize>)
    requires
        from <= to <= chars.len(),
        all_digits(chars@.subrange(from as int, to as int)),
    ensures
        match r {
            Some(n) => n == decimal_value(chars@.subrange(from as int, to as int)),
            None => decimal_value(chars@.subrange(from as int, to as int)) > usize::MAX,
        },
{
    let ghost numeral = chars@.subrange(from as int, to as int);
    let mut n: usize = 0;
    let mut i: usize = from;
    assert(numeral.take(0) =~= Seq::<char>::empty());
    while i < to
        invariant
            from <= i <= to <= chars.len(),
            numeral == chars@.subrange(from as int, to as int),
            all_digits(numeral),
            n == decimal_value(numeral.take(i - from)),
        decreases to - i,
    {
        let c = chars[i];
        proof {
            assert(numeral[i - from] == c);
            assert(is_digit(c));
            assert(numeral.take(i - from + 1).drop_last() =~= numeral.take(i - from));
            assert(numeral.take(i - from + 1).last() == c);
            lemma_decimal_value_grows(numeral, i - from + 1);
        }
        let d: usize = (c as u32 - '0' as u32) as usize;
        assert(d == digit_value(c));
        if n > (usize::MAX - d) / 10 {
            assert(n * 10 + d > usize::MAX) by (nonlinear_arith)
                requires
                    n > (usize::MAX - d) / 10,
                    0 <= d < 10,
            ;
            return None;
        }
        assert(n * 10 + d <= usize::MAX) by (nonlinear_arith)
            requires
                n <= (usize::MAX - d) / 10,
                0 <= d < 10,
        ;
        n = n * 10 + d;
        i += 1;
    }
    assert(numeral.take(to - from) =~= numeral);
    Some(n)
}

/// The tokens of `line`, and the column at which each begins.
pub fn tokenize_line(line: &str) -> (r: (Vec<Token>, Vec<usize>))
    ensures
        r.0.len() == r.1.len(),
        lexemes_of(r.0@, r.1@) == lex(line@),
{
    let mut tokens: Vec<Token> = Vec::new();
    let mut indexes: Vec<usize> = Vec::new();
    let chars = chars_of(line);
    let n: usize = chars.len();
    let mut i: usize = 0;
    assert(lexemes_of(tokens@, indexes@) + lex_from(chars@, 0) =~= lex(line@));
    loop
        invariant
            i <= n,
            n == chars.len(),
            chars@ == line@,
            tokens.len() == indexes.len(),
            lexemes_of(tokens@, indexes@) + lex_from(chars@, i as int) == lex(line@),
        ensures
            i == n,
        decreases n - i,
    {
        // Skip whitespace
        let ghost from = i;
        while i < n && chars[i].is_whitespace()
            invariant
                from <= i <= n,
                n == chars.len(),
                from + whitespace_run(chars@, from as int) == i + whitespace_run(chars@, i as int),
            decreases n - i,
        {
            i += 1;
        }
        assert(i == from + whitespace_run(chars@, from as int));
        if i >= n {
            break ;
        }
        // What to do depends on character

        let start: usize = i;
        let c = chars[i];
        let ghost before = lexemes_of(tokens@, indexes@);
        proof {
            lemma_lex_at(chars@, start as int);
        }
        let token = if char_is_digit(c) {
            i += 1;
            while i < n && char_is_digit(chars[i])
                invariant
                    start < i <= n,
                    n == chars.len(),
                    start + 1 + digit_run(chars@, start + 1) == i + digit_run(chars@, i as int),
                decreases n - i,
            {
                i += 1;
            }
            let point: usize = i;
            proof {
                lemma_digit_run(chars@, start + 1);
                let head = chars@.subrange(start as int, point as int);
                let tail = chars@.subrange(start + 1, point as int);
                assert forall|k: int| 0 <= k < head.len() implies is_digit(#[trigger] head[k]) by {
                    if k > 0 {
                        assert(head[k] == tail[k - 1]);
                    }
                }
            }
            if i < n && chars[i] == '.' {
                i += 1;
                while i < n && char_is_digit(chars[i])
                    invariant
                        point < i <= n,
                        n == chars.len(),
                        point + 1 + digit_run(chars@, point + 1) == i + digit_run(chars@, i as int),
                    decreases n - i,
                {
                    i += 1;
                }
                let text = string_of(&chars, start, i);
                proof {
                    lemma_digit_run(chars@, point + 1);
                    let head = chars@.subrange(start as int, point as int);
                    let tail = chars@.subrange(point + 1, i as int);
                    assert forall|k: int| 0 <= k < text@.len() implies is_digit(#[trigger] text@[k])
                        || text@[k] == '.' by {
                        if k < point - start {
                            assert(text@[k] == head[k]);
                        } else if k > point - start {
                            assert(text@[k] == tail[k - (point - start) - 1]);
                        }
                    }
                    assert forall|k: int, j: int| 0 <= k < j < text@.len() implies !(
                    #[trigger] text@[k] == '.' && #[trigger] text@[j] == '.') by {
                        if k < point - start {
                            assert(text@[k] == head[k]);
                        } else {
                            assert(text@[j] == tail[j - (point - start) - 1]);
                        }
                    }
                    assert(text@[0] == head[0]);
                }
                Token::Value(Value::from_numeral(text))
            } else {
                match to_integer(&chars, start, point) {
                    Some(value) => Token::Integer(value),
                    None => {
                        let text = string_of(&chars, start, point);
                        proof {
                            crate::netlist::value::lemma_digits_are_numeral(text@);
                        }
                        Token::Value(Value::from_numeral(text))
                    },
                }
            }
        } else if c.is_alphabetic() {
            i += 1;
            while i < n && chars[i].is_alphanumeric()
                invariant
                    start < i <= n,
                    n == chars.len(),
                    start + 1 + alphanumeric_run(chars@, start + 1) == i + alphanumeric_run(
                        chars@,
                        i as int,
                    ),
                decreases n - i,
            {
                i += 1;
            }
            Token::Ident(string_of(&chars, start, i))
        } else {
            i += 1;
            Token::Symbol(c)
        };
        proof {
            assert(token@ == lex_at(chars@, start as int).0);
            assert(i == lex_at(chars@, start as int).1);
            let step = Lexeme { token: token@, column: start as nat };
            lemma_lexemes_push(tokens@, indexes@, token, start);
            assert(lex_from(chars@, from as int) == seq![step] + lex_from(chars@, i as int));
            assert(before.push(step) + lex_from(chars@, i as int) =~= before + (seq![step]
                + lex_from(chars@, i as int)));
        }
        tokens.push(token);
        indexes.push(start);
    }
    proof {
        let last = Lexeme { token: TokenModel::Newline, column: i as nat };
        lemma_lexemes_push(tokens@, indexes@, Token::Newline, i);
        assert(whitespace_run(chars@, i as int) == 0);
        assert(lex_from(chars@, i as int) =~= seq![last]);
        assert(lexemes_of(tokens@, indexes@).push(last) =~= lexemes_of(tokens@, indexes@) + seq![last]);
    }
    tokens.push(Token::Newline);
    indexes.push(i);
    (tokens, indexes)
}

/// The number of characters of `s` from `i` up to the next line feed.
pub open spec fn line_run(s: Seq<char>, i: int) -> nat
    decreases s.len() - i,
{
    if 0 <= i < s.len() && s[i] != '\n' {
        1 + line_run(s, i + 1)
    } else {
        0
    }
}

/// `line` without the carriage return at its end, if it has one.
pub open spec fn without_return(line: Seq<char>) -> Seq<char> {
    if line.len() > 0 && line.last() == '\r' {
        line.drop_last()
    } else {
        line
    }
}

/// The lines of `s` from `i` on. A line ends at a line feed, or at a carriage return
/// followed by one; neither belongs to the line. The end of the text ends the last line,
/// unless a line ending stands there already.
pub open spec fn lines_from(s: Seq<char>, i: int) -> Seq<Seq<char>>
    decreases s.len() - i,
{
    if 0 <= i < s.len() {
        let end = i + line_run(s, i);
        if end < s.len() {
            seq![without_return(s.subrange(i, end))] + lines_from(s, end + 1)
        } else {
            seq![s.subrange(i, end)]
        }
    } else {
        Seq::empty()
    }
}

/// The lines of `s`.
pub open spec fn lines_of(s: Seq<char>) -> Seq<Seq<char>> {
    lines_from(s, 0)
}

/// The lines of `text`.
pub fn split_lines(text: &str) -> (r: Vec<String>)
    ensures
        texts_of(r@) == lines_of(text@),
{
    let chars = chars_of(text);
    let n: usize = chars.len();
    let mut lines: Vec<String> = Vec::new();
    let mut i: usize = 0;
    assert(texts_of(lines@) + lines_from(chars@, 0) =~= lines_of(text@));
    while i < n
        invariant
            i <= n,
            n == chars.len(),
            chars@ == text@,
            texts_of(lines@) + lines_from(chars@, i as int) == lines_of(text@),
        decreases n - i,
    {
        let start: usize = i;
        while i < n && chars[i] != '\n'
            invariant
                start <= i <= n,
                n == chars.len(),
                start + line_run(chars@, start as int) == i + line_run(chars@, i as int),
            decreases n - i,
        {
            i += 1;
        }
        assert(i == start + line_run(chars@, start as int));
        let ghost before = texts_of(lines@);
        if i < n {
            let end: usize = if i > start && chars[i - 1] == '\r' {
                i - 1
            } else {
                i
            };
            let line = string_of(&chars, start, end);
            proof {
                let whole = chars@.subrange(start as int, i as int);
                if i > start {
                    assert(whole.last() == chars@[i - 1]);
                }
                assert(line@ =~= without_return(whole));
                assert(texts_of(lines@.push(line)) =~= before.push(line@));
                assert(before.push(line@) + lines_from(chars@, i + 1) =~= before + (seq![line@]
                    + lines_from(chars@, i + 1)));
            }
            lines.push(line);
            i += 1;
        } else {
            let line = string_of(&chars, start, i);
            proof {
                assert(texts_of(lines@.push(line)) =~= before.push(line@));
                assert(lines_from(chars@, i as int) =~= Seq::<Seq<char>>::empty());
                assert(before.push(line@) + lines_from(chars@, i as int) =~= before + seq![line@]);
            }
            lines.push(line);
        }
    }
    assert(lines_from(chars@, i as int) =~= Seq::<Seq<char>>::empty());
    assert(texts_of(lines@) + Seq::<Seq<char>>::empty() =~= texts_of(lines@));
    lines
}

/// What went wrong.
#[derive(Debug)]
pub enum ParseErrorCondition {
    /// A fault described in words.
    Named(String),
}

impl View for ParseErrorCondition {
    type V = Seq<char>;

    open spec fn view(&self) -> Seq<char> {
        match self {
            ParseErrorCondition::Named(description) => description@,
        }
    }
}

/// A place in a text: a line, counted from one, a column in it, counted from zero, and
/// the line itself.
#[derive(Debug)]
pub struct ParseLocation {
    line_num: usize,
    column: usize,
    line: String,
}

/// A place in a text.
pub ghost struct LocationModel {
    pub line_num: nat,
    pub column: nat,
    pub line: Seq<char>,
}

impl View for ParseLocation {
    type V = LocationModel;

    closed spec fn view(&self) -> LocationModel {
        LocationModel { line_num: self.line_num as nat, column: self.column as nat, line: self.line@ }
    }
}

impl ParseLocation {
    /// The error that `condition` holds at this place.
    pub fn into_error(self, condition: ParseErrorCondition) -> (r: ParseError)
        ensures
            r@ == (ErrorModel { message: condition@, location: self@ }),
    {
        ParseError { condition, location: self }
    }

    /// The error that `description` tells of, at this place.
    pub fn into_error_named(self, description: String) -> (r: ParseError)
        ensures
            r@ == (ErrorModel { message: description@, location: self@ }),
    {
        self.into_error(ParseErrorCondition::Named(description))
    }

    /// The number of the line, counted from one.
    pub fn line_num(&self) -> (r: usize)
        ensures
            r == self@.line_num,
    {
        self.line_num
    }

    /// The column, counted from zero.
    pub fn column(&self) -> (r: usize)
        ensures
            r == self@.column,
    {
        self.column
    }

    /// The text of the line.
    pub fn line<'a>(&'a self) -> (r: &'a str)
        ensures
            r@ == self@.line,
    {
        self.line.as_str()
    }
}

/// A fault in a text, and where it was found.
#[derive(Debug)]
pub struct ParseError {
    condition: ParseErrorCondition,
    location: ParseLocation,
}

/// A fault in a text, and where it was found.
pub ghost struct ErrorModel {
    pub message: Seq<char>,
    pub location: LocationModel,
}

impl View for ParseError {
    type V = ErrorModel;

    closed spec fn view(&self) -> ErrorModel {
        ErrorModel { message: self.condition@, location: self.location@ }
    }
}

impl ParseError {
    /// What went wrong, in words.
    pub fn message<'a>(&'a self) -> (r: &'a str)
        ensures
            r@ == self@.message,
    {
        match &self.condition {
            ParseErrorCondition::Named(description) => description.as_str(),
        }
    }

    /// Where it went wrong.
    pub fn location<'a>(&'a self) -> (r: &'a ParseLocation)
        ensures
            r@ == self@.location,
    {
        &self.location
    }
}

/// The number of the line after `line` lines, counted from one as far as the machine
/// counts.
pub open spec fn line_number(line: nat) -> nat {
    if line < usize::MAX {
        line + 1
    } else {
        line
    }
}

/// A position in a text: a line of it, and a token of that line.
pub ghost struct Cursor {
    pub lines: Seq<Seq<char>>,
    pub line: nat,
    pub token: nat,
}

impl Cursor {
    /// The text of the current line; past the last line it is empty.
    pub open spec fn text(self) -> Seq<char> {
        if self.line < self.lines.len() {
            self.lines[self.line as int]
        } else {
            Seq::empty()
        }
    }

    /// The tokens of the current line.
    pub open spec fn lexemes(self) -> Seq<Lexeme> {
        lex(self.text())
    }

    /// The cursor stands at a token.
    pub open spec fn valid(self) -> bool {
        &&& self.line <= self.lines.len()
        &&& self.token < self.lexemes().len()
    }

    /// Whether a line is left.
    pub open spec fn more_lines(self) -> bool {
        self.line < self.lines.len()
    }

    /// The token at the cursor.
    pub open spec fn peek(self) -> TokenModel {
        self.lexemes()[self.token as int].token
    }

    /// The place of the token `at` of the current line.
    pub open spec fn location_of(self, at: int) -> LocationModel {
        LocationModel {
            line_num: line_number(self.line),
            column: self.lexemes()[at].column,
            line: self.text(),
        }
    }

    /// The place of the token at the cursor.
    pub open spec fn location(self) -> LocationModel {
        self.location_of(self.token as int)
    }

    /// The cursor at token `token` of the same line.
    pub open spec fn at(self, token: int) -> Cursor {
        Cursor { lines: self.lines, line: self.line, token: token as nat }
    }

    /// The cursor at the first token of line `line`.
    pub open spec fn at_line(self, line: nat) -> Cursor {
        Cursor { lines: self.lines, line, token: 0 }
    }

    /// The cursor after the token at which it stands: at the next token of the line, or,
    /// after the end of a line, at the first token of the next line. Past the last line
    /// it stays where it is.
    pub open spec fn advance(self) -> Cursor {
        if self.token + 1 < self.lexemes().len() {
            self.at(self.token as int + 1)
        } else if self.line < self.lines.len() {
            self.at_line(self.line + 1)
        } else {
            self.at_line(self.line)
        }
    }

    /// The fault `message` at the token at the cursor.
    pub open spec fn error(self, message: Seq<char>) -> ErrorModel {
        ErrorModel { message, location: self.location() }
    }
}

/// A cursor at a token that is not the end of the line advances within the line.
pub proof fn lemma_advance_in_line(cursor: Cursor)
    requires
        cursor.valid(),
    ensures
        cursor.lexemes().len() >= 1,
        cursor.peek() is Newline <==> cursor.token == cursor.lexemes().len() - 1,
        !(cursor.peek() is Newline) ==> cursor.advance() == cursor.at(cursor.token as int + 1)
            && cursor.advance().valid(),
        cursor.peek() is Newline ==> cursor.advance().token == 0,
        cursor.advance().valid(),
        cursor.location().column <= cursor.text().len(),
{
    lemma_lex_from(cursor.text(), 0);
    lemma_lex_from(cursor.advance().text(), 0);
}

/// The name of a kind of token.
pub open spec fn kind_name(kind: TokenKind) -> Seq<char> {
    match kind {
        TokenKind::Integer => "Integer"@,
        TokenKind::Value => "Value"@,
        TokenKind::Ident => "Ident"@,
        TokenKind::Symbol => "Symbol"@,
        TokenKind::Newline => "Newline"@,
    }
}

/// The message that a token of kind `kind` was expected.
pub open spec fn expected_kind(kind: TokenKind) -> Seq<char> {
    "Expected "@ + kind_name(kind)
}

/// The message that the symbol `symbol` was expected.
pub open spec fn expected_symbol(symbol: char) -> Seq<char> {
    "Expected '"@.push(symbol) + "'"@
}

/// The number that a token gives as a value, written as a numeral.
pub open spec fn value_of(token: TokenModel) -> Option<Seq<char>> {
    match token {
        TokenModel::Integer(n) => Some(crate::text::decimal(n)),
        TokenModel::Value(numeral) => Some(numeral),
        _ => None,
    }
}

/// A cursor over the tokens of a text, line by line.
pub struct Parser {
    lines: Vec<String>,
    cur_line: usize,
    cur_token: usize,
    cur_line_tokens: Vec<Token>,
    cur_line_token_indexes: Vec<usize>,
}

impl View for Parser {
    type V = Cursor;

    closed spec fn view(&self) -> Cursor {
        Cursor {
            lines: texts_of(self.lines@),
            line: self.cur_line as nat,
            token: self.cur_token as nat,
        }
    }
}

impl Parser {
    /// The tokens held are those of the current line.
    pub closed spec fn holds_line(&self) -> bool {
        &&& self.cur_line_tokens.len() == self.cur_line_token_indexes.len()
        &&& lexemes_of(self.cur_line_tokens@, self.cur_line_token_indexes@) == self@.lexemes()
    }

    /// The parser stands at a token of the text.
    pub open spec fn wf(&self) -> bool {
        &&& self@.valid()
        &&& self.holds_line()
    }

    /// A parser at the first token of `contents`.
    pub fn new(contents: String) -> (r: Self)
        ensures
            r.wf(),
            r@ == (Cursor { lines: lines_of(contents@), line: 0, token: 0 }),
    {
        let lines = split_lines(contents.as_str());
        let cur_line: usize = 0;
        let cur_token: usize = 0;
        let (cur_line_tokens, cur_line_token_indexes) = if lines.len() > 0 {
            assert(texts_of(lines@)[0] == lines[0]@);
            tokenize_line(lines[0].as_str())
        } else {
            let (tokens, indexes) = tokenize_line("");
            proof {
                reveal_strlit("");
                assert(""@ =~= Seq::<char>::empty());
            }
            (tokens, indexes)
        };
        let r = Parser { lines, cur_line, cur_token, cur_line_tokens, cur_line_token_indexes };
        proof {
            lemma_lex_from(r@.text(), 0);
            assert(lexemes_of(r.cur_line_tokens@, r.cur_line_token_indexes@).len()
                == r.cur_line_tokens.len());
        }
        r
    }

    /// Whether a line is left.
    pub fn more_lines(&self) -> (r: bool)
        ensures
            r == self@.more_lines(),
    {
        self.cur_line < self.lines.len()
    }

    /// The token at the cursor, which is taken if it is of kind `kind`.
    pub fn expect(&mut self, kind: TokenKind) -> (r: Result<Token, ParseError>)
        requires
            old(self).wf(),
        ensures
            final(self).wf(),
            match r {
                Ok(token) => old(self)@.peek().kind() == kind && token@ == old(self)@.peek()
                    && final(self)@ == old(self)@.advance(),
                Err(e) => old(self)@.peek().kind() != kind && e@ == old(self)@.error(
                    expected_kind(kind),
                ) && final(self)@ == old(self)@,
            },
    {
        let token = self.peek().clone();
        if token.kind() != kind {
            let name = match kind {
                TokenKind::Integer => "Integer",
                TokenKind::Value => "Value",
                TokenKind::Ident => "Ident",
                TokenKind::Symbol => "Symbol",
                TokenKind::Newline => "Newline",
            };
            let mut message = String::from_str("Expected ");
            message.append(name);
            return Err(self.create_error_named(message));
        }
        self.advance();
        Ok(token)
    }

    /// The token at the cursor.
    pub fn peek<'a>(&'a self) -> (r: &'a Token)
        requires
            self.wf(),
        ensures
            r@ == self@.peek(),
    {
        assert(lexemes_of(self.cur_line_tokens@, self.cur_line_token_indexes@)[self.cur_token as int].token
            == self.cur_line_tokens[self.cur_token as int]@);
        &self.cur_line_tokens[self.cur_token]
    }

    /// The name at the cursor, which is taken.
    pub fn expect_ident(&mut self) -> (r: Result<String, ParseError>)
        requires
            old(self).wf(),
        ensures
            final(self).wf(),
            match r {
                Ok(name) => old(self)@.peek() == TokenModel::Ident(name@) && final(self)@ == old(self)@.advance(),
                Err(e) => !(old(self)@.peek() is Ident) && e@ == old(self)@.error(
                    "Expected identifier"@,
                ) && final(self)@ == old(self)@,
            },
    {
        match self.peek().clone() {
            Token::Ident(ident) => {
                self.advance();
                Ok(ident)
            },
            _ => Err(self.create_error_named(String::from_str("Expected identifier"))),
        }
    }

    /// The number at the cursor, which is taken: an integer or a value.
    pub fn expect_value(&mut self) -> (r: Result<Value, ParseError>)
        requires
            old(self).wf(),
        ensures
            final(self).wf(),
            match r {
                Ok(value) => value_of(old(self)@.peek()) == Some(value@) && final(self)@ == old(self)@.advance(),
                Err(e) => value_of(old(self)@.peek()) is None && e@ == old(self)@.error(
                    "Expected value"@,
                ) && final(self)@ == old(self)@,
            },
    {
        match self.peek().clone() {
            Token::Integer(integer) => {
                self.advance();
                Ok(Value::from_integer(integer))
            },
            Token::Value(value) => {
                self.advance();
                Ok(value)
            },
            _ => Err(self.create_error_named(String::from_str("Expected value"))),
        }
    }

    /// Takes the symbol `symbol`, which must stand at the cursor.
    pub fn expect_symbol(&mut self, symbol: char) -> (r: Result<(), ParseError>)
        requires
            old(self).wf(),
        ensures
            final(self).wf(),
            match r {
                Ok(_) => old(self)@.peek() == TokenModel::Symbol(symbol) && final(self)@ == old(self)@.advance(),
                Err(e) => old(self)@.peek() != TokenModel::Symbol(symbol) && e@ == old(self)@.error(
                    expected_symbol(symbol),
                ) && final(self)@ == old(self)@,
            },
    {
        match self.peek().clone() {
            Token::Symbol(actual) => {
                if actual == symbol {
                    self.advance();
                    return Ok(());
                }
            },
            _ => (),
        }
        let mut message = String::from_str("Expected '");
        message.push(symbol);
        message.append("'");
        Err(self.create_error_named(message))
    }

    /// The place of the token at the cursor.
    pub fn cur_location(&self) -> (r: ParseLocation)
        requires
            self.wf(),
        ensures
            r@ == self@.location(),
    {
        assert(lexemes_of(self.cur_line_tokens@, self.cur_line_token_indexes@)[self.cur_token as int].column
            == self.cur_line_token_indexes[self.cur_token as int]);
        let line = if self.cur_line < self.lines.len() {
            assert(texts_of(self.lines@)[self.cur_line as int] == self.lines[self.cur_line as int]@);
            self.lines[self.cur_line].clone()
        } else {
            String::new()
        };
        let line_num: usize = if self.cur_line < usize::MAX {
            self.cur_line + 1
        } else {
            self.cur_line
        };
        ParseLocation { line_num, column: self.cur_line_token_indexes[self.cur_token], line }
    }

    /// Moves the cursor past the token at which it stands.
    fn advance(&mut self)
        requires
            old(self).wf(),
        ensures
            final(self).wf(),
            final(self)@ == old(self)@.advance(),
    {
        proof {
            lemma_advance_in_line(self@);
            assert(lexemes_of(self.cur_line_tokens@, self.cur_line_token_indexes@).len()
                == self.cur_line_tokens.len());
        }
        if self.cur_token + 1 < self.cur_line_tokens.len() {
            self.cur_token += 1;
            return ;
        }
        self.cur_token = 0;
        if self.cur_line < self.lines.len() {
            self.cur_line += 1;
        }
        let (tokens, indexes) = if self.cur_line < self.lines.len() {
            assert(texts_of(self.lines@)[self.cur_line as int] == self.lines[self.cur_line as int]@);
            tokenize_line(self.lines[self.cur_line].as_str())
        } else {
            let (tokens, indexes) = tokenize_line("");
            proof {
                reveal_strlit("");
                assert(""@ =~= Seq::<char>::empty());
            }
            (tokens, indexes)
        };
        self.cur_line_tokens = tokens;
        self.cur_line_token_indexes = indexes;
        proof {
            assert(lexemes_of(self.cur_line_tokens@, self.cur_line_token_indexes@).len()
                == self.cur_line_tokens.len());
        }
    }

    /// The fault `description` at the cursor.
    fn create_error_named(&self, description: String) -> (r: ParseError)
        requires
            self.wf(),
        ensures
            r@ == self@.error(description@),
    {
        self.create_error(ParseErrorCondition::Named(description))
    }

    /// The fault `condition` at the cursor.
    fn create_error(&self, condition: ParseErrorCondition) -> (r: ParseError)
        requires
            self.wf(),
        ensures
            r@ == self@.error(condition@),
    {
        self.cur_location().into_error(condition)
    }
}

} // verus!
