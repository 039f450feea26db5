//! Expressions in the time `t`, which give a source its voltage.

use super::parser::{
    expected_symbol, lemma_advance_in_line, Cursor, ErrorModel, Lexeme, ParseError, Parser, Token,
    TokenKind, TokenModel,
};
use super::value::Value;
use crate::text::decimal;
use vstd::prelude::*;
use vstd::string::StringExecFns;

verus! {

/// An expression in the time `t`.
#[derive(Debug)]
pub enum Exp {
    /// A literal.
    Value(Value),
    /// The sum of the terms.
    Sum(Vec<Box<Exp>>),
    /// The product of the factors.
    Product(Vec<Box<Exp>>),
    /// The sine of `t · x / 2π`, where `x` is the operand: a literal operand is a frequency.
    Sin(Box<Exp>),
    /// The time `t`.
    Time,
}

/// An expression as a mathematical tree, with each literal as its numeral.
pub ghost enum ExpModel {
    Value(Seq<char>),
    Sum(Seq<ExpModel>),
    Product(Seq<ExpModel>),
    Sin(Box<ExpModel>),
    Time,
}

impl Exp {
    /// The expression as a mathematical tree.
    pub open spec fn model(&self) -> ExpModel
        decreases self,
    {
        match self {
            Exp::Value(value) => ExpModel::Value(value@),
            Exp::Sum(terms) => ExpModel::Sum(
                Seq::new(
                    terms@.len(),
                    |i: int|
                        if 0 <= i < terms@.len() {
                            terms@[i].model()
                        } else {
                            ExpModel::Time
                        },
                ),
            ),
            Exp::Product(factors) => ExpModel::Product(
                Seq::new(
                    factors@.len(),
                    |i: int|
                        if 0 <= i < factors@.len() {
                            factors@[i].model()
                        } else {
                            ExpModel::Time
                        },
                ),
            ),
            Exp::Sin(operand) => ExpModel::Sin(Box::new(operand.model())),
            Exp::Time => ExpModel::Time,
        }
    }
}

impl View for Exp {
    type V = ExpModel;

    open spec fn view(&self) -> ExpModel {
        self.model()
    }
}

/// The trees of a list of expressions.
pub open spec fn models_of(list: Seq<Box<Exp>>) -> Seq<ExpModel> {
    Seq::new(list.len(), |i: int| list[i].model())
}

/// The tree of a sum is the sum of the trees of its terms.
pub proof fn lemma_sum_view(terms: Vec<Box<Exp>>)
    ensures
        Exp::Sum(terms)@ == ExpModel::Sum(models_of(terms@)),
{
    assert(Exp::Sum(terms)@->Sum_0 =~= models_of(terms@));
}

/// The tree of a product is the product of the trees of its factors.
pub proof fn lemma_product_view(factors: Vec<Box<Exp>>)
    ensures
        Exp::Product(factors)@ == ExpModel::Product(models_of(factors@)),
{
    assert(Exp::Product(factors)@->Product_0 =~= models_of(factors@));
}

/// A copy of each expression of `list`.
fn clone_list(list: &Vec<Box<Exp>>) -> (r: Vec<Box<Exp>>)
    ensures
        models_of(r@) == models_of(list@),
    decreases list, 0nat,
{
    let mut out: Vec<Box<Exp>> = Vec::new();
    let mut i: usize = 0;
    while i < list.len()
        invariant
            i <= list.len(),
            out.len() == i,
            forall|k: int| 0 <= k < i ==> (#[trigger] out[k])@ == list[k]@,
        decreases list.len() - i,
    {
        let item: &Exp = &list[i];
        out.push(Box::new(item.clone()));
        i += 1;
    }
    assert(models_of(out@) =~= models_of(list@));
    out
}

impl Clone for Exp {
    fn clone(&self) -> (r: Self)
        ensures
            r@ == self@,
        decreases self, 1nat,
    {
        match self {
            Exp::Value(value) => Exp::Value(value.clone()),
            Exp::Sum(terms) => {
                let copy = clone_list(terms);
                proof {
                    lemma_sum_view(copy);
                    lemma_sum_view(*terms);
                }
                Exp::Sum(copy)
            },
            Exp::Product(factors) => {
                let copy = clone_list(factors);
                proof {
                    lemma_product_view(copy);
                    lemma_product_view(*factors);
                }
                Exp::Product(copy)
            },
            Exp::Sin(operand) => {
                let inner: &Exp = &**operand;
                Exp::Sin(Box::new(inner.clone()))
            },
            Exp::Time => Exp::Time,
        }
    }
}

/// What reading a line from some token on gives: a value and the token after it, or a
/// fault and the token at which it was found.
pub ghost enum Parse<T> {
    Done { value: T, next: int },
    Failed { at: int, message: Seq<char> },
}

/// The token `pos` of a line; past the last it is the end of the line.
pub open spec fn peek_at(tokens: Seq<Lexeme>, pos: int) -> TokenModel {
    if 0 <= pos < tokens.len() {
        tokens[pos].token
    } else {
        TokenModel::Newline
    }
}

/// The number of tokens from `pos` on.
pub open spec fn remaining(tokens: Seq<Lexeme>, pos: int) -> nat {
    if 0 <= pos <= tokens.len() {
        (tokens.len() - pos) as nat
    } else {
        0
    }
}

/// The message that `name` names neither a function nor a variable.
pub open spec fn unknown_name(name: Seq<char>) -> Seq<char> {
    "Unknown function/variable \""@ + name + "\""@
}

/// An expression read from token `pos` on: `term ('+' term)*`. One term is that term
/// itself, more are their sum.
pub open spec fn exp_at(tokens: Seq<Lexeme>, pos: int) -> Parse<ExpModel>
    decreases remaining(tokens, pos), 2nat, 0nat,
{
    match term_at(tokens, pos) {
        Parse::Done { value, next } => {
            if 0 <= pos < next <= tokens.len() {
                match terms_at(tokens, next, seq![value]) {
                    Parse::Done { value: terms, next: end } => Parse::Done {
                        value: if terms.len() == 1 {
                            terms[0]
                        } else {
                            ExpModel::Sum(terms)
                        },
                        next: end,
                    },
                    Parse::Failed { at, message } => Parse::Failed { at, message },
                }
            } else {
                Parse::Failed { at: pos, message: Seq::empty() }
            }
        },
        Parse::Failed { at, message } => Parse::Failed { at, message },
    }
}

/// The terms of a sum of which `terms` were read and token `pos` is the next: each
/// further term follows a `+`.
pub open spec fn terms_at(tokens: Seq<Lexeme>, pos: int, terms: Seq<ExpModel>) -> Parse<Seq<ExpModel>>
    decreases remaining(tokens, pos), 0nat, 0nat,
{
    if peek_at(tokens, pos) == TokenModel::Symbol('+') {
        match term_at(tokens, pos + 1) {
            Parse::Done { value, next } => {
                if 0 <= pos < next <= tokens.len() {
                    terms_at(tokens, next, terms.push(value))
                } else {
                    Parse::Failed { at: pos, message: Seq::empty() }
                }
            },
            Parse::Failed { at, message } => Parse::Failed { at, message },
        }
    } else {
        Parse::Done { value: terms, next: pos }
    }
}

/// A term read from token `pos` on: `factor ('*' factor)*`. One factor is that factor
/// itself, more are their product.
pub open spec fn term_at(tokens: Seq<Lexeme>, pos: int) -> Parse<ExpModel>
    decreases remaining(tokens, pos), 1nat, 0nat,
{
    match factor_at(tokens, pos) {
        Parse::Done { value, next } => {
            if 0 <= pos < next <= tokens.len() {
                match factors_at(tokens, next, seq![value]) {
                    Parse::Done { value: factors, next: end } => Parse::Done {
                        value: if factors.len() == 1 {
                            factors[0]
                        } else {
                            ExpModel::Product(factors)
                        },
                        next: end,
                    },
                    Parse::Failed { at, message } => Parse::Failed { at, message },
                }
            } else {
                Parse::Failed { at: pos, message: Seq::empty() }
            }
        },
        Parse::Failed { at, message } => Parse::Failed { at, message },
    }
}

/// The factors of a product of which `factors` were read and token `pos` is the next:
/// each further factor follows a `*`.
pub open spec fn factors_at(tokens: Seq<Lexeme>, pos: int, factors: Seq<ExpModel>) -> Parse<
    Seq<ExpModel>,
>
    decreases remaining(tokens, pos), 0nat, 0nat,
{
    if peek_at(tokens, pos) == TokenModel::Symbol('*') {
        match factor_at(tokens, pos + 1) {
            Parse::Done { value, next } => {
                if 0 <= pos < next <= tokens.len() {
                    factors_at(tokens, next, factors.push(value))
                } else {
                    Parse::Failed { at: pos, message: Seq::empty() }
                }
            },
            Parse::Failed { at, message } => Parse::Failed { at, message },
        }
    } else {
        Parse::Done { value: factors, next: pos }
    }
}

/// A factor read from token `pos` on: a number, `t`, or `sin` `(` expression `)`.
pub open spec fn factor_at(tokens: Seq<Lexeme>, pos: int) -> Parse<ExpModel>
    decreases remaining(tokens, pos), 0nat, 1nat,
{
    match peek_at(tokens, pos) {
        TokenModel::Integer(n) => Parse::Done { value: ExpModel::Value(decimal(n)), next: pos + 1 },
        TokenModel::Value(numeral) => Parse::Done { value: ExpModel::Value(numeral), next: pos + 1 },
        TokenModel::Ident(name) => {
            if name == "sin"@ {
                if peek_at(tokens, pos + 1) == TokenModel::Symbol('(') {
                    match exp_at(tokens, pos + 2) {
                        Parse::Done { value, next } => {
                            if peek_at(tokens, next) == TokenModel::Symbol(')') {
                                Parse::Done { value: ExpModel::Sin(Box::new(value)), next: next + 1 }
                            } else {
                                Parse::Failed { at: next, message: expected_symbol(')') }
                            }
                        },
                        Parse::Failed { at, message } => Parse::Failed { at, message },
                    }
                } else {
                    Parse::Failed { at: pos + 1, message: expected_symbol('(') }
                }
            } else if name == "t"@ {
                Parse::Done { value: ExpModel::Time, next: pos + 1 }
            } else {
                Parse::Failed { at: pos, message: unknown_name(name) }
            }
        },
        _ => Parse::Failed { at: pos, message: "Expected expression factor"@ },
    }
}

/// Reading never stands still: what was read ends after the token at which it began, and
/// inside the line. So the tests of progress in the grammar never fail.
pub proof fn lemma_exp_progress(tokens: Seq<Lexeme>, pos: int)
    requires
        0 <= pos,
    ensures
        exp_at(tokens, pos) matches Parse::Done { next, .. } ==> pos < next <= tokens.len(),
    decreases remaining(tokens, pos), 2nat, 0nat,
{
    lemma_term_progress(tokens, pos);
    match term_at(tokens, pos) {
        Parse::Done { value, next } => {
            lemma_terms_progress(tokens, next, seq![value]);
        },
        _ => {},
    }
}

/// The terms of a sum end at or after the token at which they began, inside the line.
proof fn lemma_terms_progress(tokens: Seq<Lexeme>, pos: int, terms: Seq<ExpModel>)
    requires
        0 <= pos <= tokens.len(),
    ensures
        terms_at(tokens, pos, terms) matches Parse::Done { next, .. } ==> pos <= next <= tokens.len(),
    decreases remaining(tokens, pos), 0nat, 0nat,
{
    if peek_at(tokens, pos) == TokenModel::Symbol('+') {
        lemma_term_progress(tokens, pos + 1);
        match term_at(tokens, pos + 1) {
            Parse::Done { value, next } => {
                lemma_terms_progress(tokens, next, terms.push(value));
            },
            _ => {},
        }
    }
}

/// A term ends after the token at which it began, inside the line.
proof fn lemma_term_progress(tokens: Seq<Lexeme>, pos: int)
    requires
        0 <= pos,
    ensures
        term_at(tokens, pos) matches Parse::Done { next, .. } ==> pos < next <= tokens.len(),
    decreases remaining(tokens, pos), 1nat, 0nat,
{
    lemma_factor_progress(tokens, pos);
    match factor_at(tokens, pos) {
        Parse::Done { value, next } => {
            lemma_factors_progress(tokens, next, seq![value]);
        },
        _ => {},
    }
}

/// The factors of a product end at or after the token at which they began, inside the
/// line.
proof fn lemma_factors_progress(tokens: Seq<Lexeme>, pos: int, factors: Seq<ExpModel>)
    requires
        0 <= pos <= tokens.len(),
    ensures
        factors_at(tokens, pos, factors) matches Parse::Done { next, .. } ==> pos <= next
            <= tokens.len(),
    decreases remaining(tokens, pos), 0nat, 0nat,
{
    if peek_at(tokens, pos) == TokenModel::Symbol('*') {
        lemma_factor_progress(tokens, pos + 1);
        match factor_at(tokens, pos + 1) {
            Parse::Done { value, next } => {
                lemma_factors_progress(tokens, next, factors.push(value));
            },
            _ => {},
        }
    }
}

/// A factor ends after the token at which it began, inside the line.
proof fn lemma_factor_progress(tokens: Seq<Lexeme>, pos: int)
    requires
        0 <= pos,
    ensures
        factor_at(tokens, pos) matches Parse::Done { next, .. } ==> pos < next <= tokens.len(),
    decreases remaining(tokens, pos), 0nat, 1nat,
{
    match peek_at(tokens, pos) {
        TokenModel::Ident(name) => {
            if name == "sin"@ && peek_at(tokens, pos + 1) == TokenModel::Symbol('(') {
                lemma_exp_progress(tokens, pos + 2);
            }
        },
        _ => {},
    }
}

/// A result with the value, or the error, replaced by its view.
pub open spec fn viewed<T: View>(r: Result<T, ParseError>) -> Result<T::V, ErrorModel> {
    match r {
        Ok(value) => Ok(value@),
        Err(e) => Err(e@),
    }
}

/// Whether a parser that stood at `before` has read what `expected` says: it returned
/// the value and stands after it, or it returned the fault and stands at it.
pub open spec fn read<V>(
    before: Cursor,
    after: Cursor,
    expected: Parse<V>,
    r: Result<V, ErrorModel>,
) -> bool {
    match expected {
        Parse::Done { value, next } => r == Ok::<V, ErrorModel>(value) && after == before.at(next)
            && before.token <= next < before.lexemes().len(),
        Parse::Failed { at, message } => r == Err::<V, ErrorModel>(
            ErrorModel { message, location: before.location_of(at) },
        ) && after == before.at(at) && before.token <= at < before.lexemes().len(),
    }
}

impl Exp {
    /// Reads an expression from the tokens at the cursor, which must all be on the line.
    pub fn parse(parser: &mut Parser) -> (r: Result<Exp, ParseError>)
        requires
            old(parser).wf(),
        ensures
            final(parser).wf(),
            read(
                old(parser)@,
                final(parser)@,
                exp_at(old(parser)@.lexemes(), old(parser)@.token as int),
                viewed(r),
            ),
            r is Ok ==> old(parser)@.token < final(parser)@.token,
        decreases remaining(old(parser)@.lexemes(), old(parser)@.token as int), 2nat,
    {
        let ghost start = parser@;
        let ghost tokens = parser@.lexemes();
        let first = match Exp::parse_term(parser) {
            Ok(term) => term,
            Err(e) => {
                return Err(e);
            },
        };
        let mut terms: Vec<Box<Exp>> = Vec::new();
        terms.push(Box::new(first));
        assert(models_of(terms@) =~= seq![first@]);
        loop
            invariant
                start == old(parser)@,
                start.valid(),
                tokens == start.lexemes(),
                parser.wf(),
                parser@ == start.at(parser@.token as int),
                start.token < parser@.token,
                terms.len() >= 1,
                exp_at(tokens, start.token as int) == match terms_at(
                    tokens,
                    parser@.token as int,
                    models_of(terms@),
                ) {
                    Parse::Done { value: all, next: end } => Parse::Done {
                        value: if all.len() == 1 {
                            all[0]
                        } else {
                            ExpModel::Sum(all)
                        },
                        next: end,
                    },
                    Parse::Failed { at, message } => Parse::<ExpModel>::Failed { at, message },
                },
            ensures
                parser.wf(),
                parser@ == start.at(parser@.token as int),
                start.token < parser@.token,
                terms.len() >= 1,
                exp_at(tokens, start.token as int) == (Parse::Done {
                    value: if terms.len() == 1 {
                        models_of(terms@)[0]
                    } else {
                        ExpModel::Sum(models_of(terms@))
                    },
                    next: parser@.token as int,
                }),
            decreases remaining(tokens, parser@.token as int),
        {
            let ghost here = parser@;
            let is_plus = match parser.peek() {
                Token::Symbol(symbol) => *symbol == '+',
                _ => false,
            };
            if !is_plus {
                break ;
            }
            proof {
                lemma_advance_in_line(here);
            }
            match parser.expect_symbol('+') {
                Ok(_) => {},
                Err(e) => {
                    return Err(e);
                },
            }
            let ghost before = models_of(terms@);
            match Exp::parse_term(parser) {
                Ok(term) => {
                    terms.push(Box::new(term));
                    assert(models_of(terms@) =~= before.push(term@));
                },
                Err(e) => {
                    return Err(e);
                },
            }
        }
        if terms.len() == 1 {
            let only = terms.pop().unwrap();
            Ok(*only)
        } else {
            proof {
                lemma_sum_view(terms);
            }
            Ok(Exp::Sum(terms))
        }
    }

    /// Reads a term from the tokens at the cursor.
    fn parse_term(parser: &mut Parser) -> (r: Result<Exp, ParseError>)
        requires
            old(parser).wf(),
        ensures
            final(parser).wf(),
            read(
                old(parser)@,
                final(parser)@,
                term_at(old(parser)@.lexemes(), old(parser)@.token as int),
                viewed(r),
            ),
            r is Ok ==> old(parser)@.token < final(parser)@.token,
        decreases remaining(old(parser)@.lexemes(), old(parser)@.token as int), 1nat,
    {
        let ghost start = parser@;
        let ghost tokens = parser@.lexemes();
        let first = match Exp::parse_factor(parser) {
            Ok(factor) => factor,
            Err(e) => {
                return Err(e);
            },
        };
        let mut factors: Vec<Box<Exp>> = Vec::new();
        factors.push(Box::new(first));
        assert(models_of(factors@) =~= seq![first@]);
        loop
            invariant
                start == old(parser)@,
                start.valid(),
                tokens == start.lexemes(),
                parser.wf(),
                parser@ == start.at(parser@.token as int),
                start.token < parser@.token,
                factors.len() >= 1,
                term_at(tokens, start.token as int) == match factors_at(
                    tokens,
                    parser@.token as int,
                    models_of(factors@),
                ) {
                    Parse::Done { value: all, next: end } => Parse::Done {
                        value: if all.len() == 1 {
                            all[0]
                        } else {
                            ExpModel::Product(all)
                        },
                        next: end,
                    },
                    Parse::Failed { at, message } => Parse::<ExpModel>::Failed { at, message },
                },
            ensures
                parser.wf(),
                parser@ == start.at(parser@.token as int),
                start.token < parser@.token,
                factors.len() >= 1,
                term_at(tokens, start.token as int) == (Parse::Done {
                    value: if factors.len() == 1 {
                        models_of(factors@)[0]
                    } else {
                        ExpModel::Product(models_of(factors@))
                    },
                    next: parser@.token as int,
                }),
            decreases remaining(tokens, parser@.token as int),
        {
            let ghost here = parser@;
            let is_times = match parser.peek() {
                Token::Symbol(symbol) => *symbol == '*',
                _ => false,
            };
            if !is_times {
                break ;
            }
            proof {
                lemma_advance_in_line(here);
            }
            match parser.expect_symbol('*') {
                Ok(_) => {},
                Err(e) => {
                    return Err(e);
                },
            }
            let ghost before = models_of(factors@);
            match Exp::parse_factor(parser) {
                Ok(factor) => {
                    factors.push(Box::new(factor));
                    assert(models_of(factors@) =~= before.push(factor@));
                },
                Err(e) => {
                    return Err(e);
                },
            }
        }
        if factors.len() == 1 {
            let only = factors.pop().unwrap();
            Ok(*only)
        } else {
            proof {
                lemma_product_view(factors);
            }
            Ok(Exp::Product(factors))
        }
    }

    /// Reads a factor from the tokens at the cursor.
    fn parse_factor(parser: &mut Parser) -> (r: Result<Exp, ParseError>)
        requires
            old(parser).wf(),
        ensures
            final(parser).wf(),
            read(
                old(parser)@,
                final(parser)@,
                factor_at(old(parser)@.lexemes(), old(parser)@.token as int),
                viewed(r),
            ),
            r is Ok ==> old(parser)@.token < final(parser)@.token,
        decreases remaining(old(parser)@.lexemes(), old(parser)@.token as int), 0nat,
    {
        let ghost start = parser@;
        proof {
            lemma_advance_in_line(start);
        }
        let location = parser.cur_location();
        match parser.peek().clone() {
            Token::Integer(val) => {
                match parser.expect(TokenKind::Integer) {
                    Ok(_) => Ok(Exp::Value(Value::from_integer(val))),
                    Err(e) => Err(e),
                }
            },
            Token::Value(val) => {
                match parser.expect(TokenKind::Value) {
                    Ok(_) => Ok(Exp::Value(val)),
                    Err(e) => Err(e),
                }
            },
            Token::Ident(ident) => {
                if ident == String::from_str("sin") {
                    match parser.expect(TokenKind::Ident) {
                        Ok(_) => {},
                        Err(e) => {
                            return Err(e);
                        },
                    }
                    proof {
                        lemma_advance_in_line(parser@);
                    }
                    match parser.expect_symbol('(') {
                        Ok(_) => {},
                        Err(e) => {
                            return Err(e);
                        },
                    }
                    let result = match Exp::parse(parser) {
                        Ok(result) => result,
                        Err(e) => {
                            return Err(e);
                        },
                    };
                    proof {
                        lemma_advance_in_line(parser@);
                    }
                    match parser.expect_symbol(')') {
                        Ok(_) => {},
                        Err(e) => {
                            return Err(e);
                        },
                    }
                    Ok(Exp::Sin(Box::new(result)))
                } else if ident == String::from_str("t") {
                    match parser.expect(TokenKind::Ident) {
                        Ok(_) => Ok(Exp::Time),
                        Err(e) => Err(e),
                    }
                } else {
                    let mut message = String::from_str("Unknown function/variable \"");
                    message.append(ident.as_str());
                    message.append("\"");
                    Err(location.into_error_named(message))
                }
            },
            _ => Err(location.into_error_named(String::from_str("Expected expression factor"))),
        }
    }
}

} // verus!
