//! A small arithmetic evaluator for width expressions: `+ - * / ^`,
//! parentheses and unary minus over decimal numerals.
//!
//! The grammar is given by the spec functions `lex`, `parsed_operand`,
//! `parsed_expression` and `parsed_tail`; the tokenizer and the parser are
//! proved to follow them step by step.
use crate::decimal::checked_add;
use crate::decimal::checked_div;
use crate::decimal::checked_mul;
use crate::decimal::checked_sub;
use crate::decimal::decimal_parse;
use crate::decimal::number_of;
use crate::decimal::parse_decimal;
use crate::decimal::Number;
use crate::text::chars_of;
use crate::text::string_of;
use vstd::prelude::*;

verus! {

/// An expression tree.
#[derive(Debug, PartialEq)]
pub enum Node {
    Add(Box<Node>, Box<Node>),
    Subtract(Box<Node>, Box<Node>),
    Multiply(Box<Node>, Box<Node>),
    Divide(Box<Node>, Box<Node>),
    Power(Box<Node>, Box<Node>),
    Negative(Box<Node>),
    Number(Number),
}

/// The result of two operands, where both have one.
pub open spec fn both(
    left: Option<Number>,
    right: Option<Number>,
    op: spec_fn(Number, Number) -> Option<Number>,
) -> Option<Number> {
    match (left, right) {
        (Some(a), Some(b)) => op(a, b),
        _ => None,
    }
}

impl Node {
    /// The value of the tree; nothing where a step has no result (an
    /// overflow, a division by zero, a fractional exponent).
    pub open spec fn value(self) -> Option<Number>
        decreases self,
    {
        match self {
            Node::Add(l, r) => both(l.value(), r.value(), |a: Number, b: Number| a.spec_plus(b)),
            Node::Subtract(l, r) => both(
                l.value(),
                r.value(),
                |a: Number, b: Number| a.spec_minus(b),
            ),
            Node::Multiply(l, r) => both(
                l.value(),
                r.value(),
                |a: Number, b: Number| a.spec_times(b),
            ),
            Node::Divide(l, r) => both(
                l.value(),
                r.value(),
                |a: Number, b: Number| a.spec_over(b),
            ),
            Node::Power(l, r) => both(
                l.value(),
                r.value(),
                |a: Number, b: Number| a.spec_power(b),
            ),
            Node::Negative(e) => match e.value() {
                Some(a) => a.spec_negated(),
                None => None,
            },
            Node::Number(n) => Some(n),
        }
    }

    /// Evaluates the tree.
    pub fn eval(&self) -> (r: Option<Number>)
        ensures
            r == self.value(),
        decreases self,
    {
        match self {
            Node::Add(l, r) => {
                let a = l.eval();
                let b = r.eval();
                match (a, b) {
                    (Some(x), Some(y)) => checked_add(x, y),
                    _ => None,
                }
            },
            Node::Subtract(l, r) => {
                let a = l.eval();
                let b = r.eval();
                match (a, b) {
                    (Some(x), Some(y)) => checked_sub(x, y),
                    _ => None,
                }
            },
            Node::Multiply(l, r) => {
                let a = l.eval();
                let b = r.eval();
                match (a, b) {
                    (Some(x), Some(y)) => checked_mul(x, y),
                    _ => None,
                }
            },
            Node::Divide(l, r) => {
                let a = l.eval();
                let b = r.eval();
                match (a, b) {
                    (Some(x), Some(y)) => checked_div(x, y),
                    _ => None,
                }
            },
            Node::Power(l, r) => {
                let a = l.eval();
                let b = r.eval();
                match (a, b) {
                    (Some(x), Some(y)) => x.power(y),
                    _ => None,
                }
            },
            Node::Negative(e) => {
                match e.eval() {
                    Some(x) => x.negated(),
                    None => None,
                }
            },
            Node::Number(n) => Some(*n),
        }
    }
}

/// A lexical token.
#[derive(Debug, PartialEq, Eq, Structural, Copy, Clone)]
pub enum Token {
    Add,
    Subtract,
    Multiply,
    Divide,
    Caret,
    LeftParen,
    RightParen,
    Number(Number),
    EOF,
}

/// How tightly an operator binds; later variants bind tighter.
#[derive(Debug, PartialEq, Eq, Structural, Copy, Clone)]
pub enum OperatorPrecedence {
    Default,
    AddOrSubtract,
    MultiplyOrDivide,
    Power,
    Negative,
}

impl OperatorPrecedence {
    /// The position of the level in the order of the levels.
    pub open spec fn spec_rank(self) -> int {
        match self {
            OperatorPrecedence::Default => 0,
            OperatorPrecedence::AddOrSubtract => 1,
            OperatorPrecedence::MultiplyOrDivide => 2,
            OperatorPrecedence::Power => 3,
            OperatorPrecedence::Negative => 4,
        }
    }

    /// The position of the level in the order of the levels.
    pub fn rank(&self) -> (r: u8)
        ensures
            r == self.spec_rank(),
    {
        match self {
            OperatorPrecedence::Default => 0,
            OperatorPrecedence::AddOrSubtract => 1,
            OperatorPrecedence::MultiplyOrDivide => 2,
            OperatorPrecedence::Power => 3,
            OperatorPrecedence::Negative => 4,
        }
    }
}

impl Token {
    /// The level at which the token binds as a binary operator.
    pub open spec fn precedence(self) -> OperatorPrecedence {
        match self {
            Token::Add | Token::Subtract => OperatorPrecedence::AddOrSubtract,
            Token::Multiply | Token::Divide => OperatorPrecedence::MultiplyOrDivide,
            Token::Caret => OperatorPrecedence::Power,
            _ => OperatorPrecedence::Default,
        }
    }

    /// The level at which the token binds as a binary operator.
    pub fn get_precedence(&self) -> (r: OperatorPrecedence)
        ensures
            r == self.precedence(),
    {
        match self {
            Token::Add | Token::Subtract => OperatorPrecedence::AddOrSubtract,
            Token::Multiply | Token::Divide => OperatorPrecedence::MultiplyOrDivide,
            Token::Caret => OperatorPrecedence::Power,
            _ => OperatorPrecedence::Default,
        }
    }
}

/// What is wrong with the shape of an expression.
#[derive(Debug, PartialEq, Eq, Structural, Copy, Clone)]
pub enum Mistake {
    /// The expression ends where more was needed.
    Incomplete,
    /// A `)` was needed where this token stands.
    ExpectedCloseParen(Token),
    /// A number or a parenthesised expression was needed here.
    ExpectedOperand(Token),
    /// The expression is complete before this token.
    Trailing(Token),
}

/// Why an expression has no value.
#[derive(Debug, PartialEq, Eq, Structural, Copy, Clone)]
pub enum CalcError {
    /// A character that no token starts with, or the first digit of a
    /// numeral too long to hold.
    UnexpectedChar(char),
    /// The tokens do not form an expression.
    InvalidOperator(Mistake),
    /// The expression is well formed but has no value that fits a
    /// `usize`.
    OutOfRange,
}

pub type CalcResult<T> = Result<T, CalcError>;

/// White space, as Unicode defines the property.
pub open spec fn is_space(c: char) -> bool {
    let v = c as u32;
    ||| 0x09 <= v <= 0x0D
    ||| v == 0x20
    ||| v == 0x85
    ||| v == 0xA0
    ||| v == 0x1680
    ||| 0x2000 <= v <= 0x200A
    ||| v == 0x2028
    ||| v == 0x2029
    ||| v == 0x202F
    ||| v == 0x205F
    ||| v == 0x3000
}

/// One of the digits `0` to `9`.
pub open spec fn is_digit(c: char) -> bool {
    '0' <= c <= '9'
}

fn space(c: char) -> (r: bool)
    ensures
        r == is_space(c),
{
    let v: u32 = c as u32;
    (0x09 <= v && v <= 0x0D) || v == 0x20 || v == 0x85 || v == 0xA0 || v == 0x1680 || (0x2000
        <= v && v <= 0x200A) || v == 0x2028 || v == 0x2029 || v == 0x202F || v == 0x205F || v
        == 0x3000
}

fn digit(c: char) -> (r: bool)
    ensures
        r == is_digit(c),
{
    '0' <= c && c <= '9'
}

/// The first position at or after `pos` that holds no white space.
pub open spec fn skip_spaces(s: Seq<char>, pos: int) -> int
    decreases s.len() - pos,
{
    if 0 <= pos < s.len() && is_space(s[pos]) {
        skip_spaces(s, pos + 1)
    } else {
        pos
    }
}

/// The first position at or after `pos` that holds no digit.
pub open spec fn digits_end(s: Seq<char>, pos: int) -> int
    decreases s.len() - pos,
{
    if 0 <= pos < s.len() && is_digit(s[pos]) {
        digits_end(s, pos + 1)
    } else {
        pos
    }
}

/// One step of the tokenizer: the token read, where reading goes on, and
/// the character that stopped it if there is no token.
pub struct Lexed {
    pub token: Option<Token>,
    pub next: int,
    pub unexpected: Option<char>,
}

/// The token that starts at or after `pos`, white space skipped.
pub open spec fn lex(s: Seq<char>, pos: int) -> Lexed {
    let p = skip_spaces(s, pos);
    if !(0 <= p < s.len()) {
        Lexed { token: Some(Token::EOF), next: p, unexpected: None }
    } else {
        let c = s[p];
        if is_digit(c) {
            let e = digits_end(s, p + 1);
            match number_of(decimal_parse(s.subrange(p, e))) {
                Some(n) => Lexed { token: Some(Token::Number(n)), next: e, unexpected: None },
                None => Lexed { token: None, next: e, unexpected: Some(c) },
            }
        } else if c == '+' {
            Lexed { token: Some(Token::Add), next: p + 1, unexpected: None }
        } else if c == '-' {
            Lexed { token: Some(Token::Subtract), next: p + 1, unexpected: None }
        } else if c == '*' {
            Lexed { token: Some(Token::Multiply), next: p + 1, unexpected: None }
        } else if c == '/' {
            Lexed { token: Some(Token::Divide), next: p + 1, unexpected: None }
        } else if c == '^' {
            Lexed { token: Some(Token::Caret), next: p + 1, unexpected: None }
        } else if c == '(' {
            Lexed { token: Some(Token::LeftParen), next: p + 1, unexpected: None }
        } else if c == ')' {
            Lexed { token: Some(Token::RightParen), next: p + 1, unexpected: None }
        } else {
            Lexed { token: None, next: p + 1, unexpected: Some(c) }
        }
    }
}

proof fn lemma_skip_spaces_bounds(s: Seq<char>, pos: int)
    requires
        0 <= pos <= s.len(),
    ensures
        pos <= skip_spaces(s, pos) <= s.len(),
    decreases s.len() - pos,
{
    if pos < s.len() && is_space(s[pos]) {
        lemma_skip_spaces_bounds(s, pos + 1);
    }
}

proof fn lemma_digits_end_bounds(s: Seq<char>, pos: int)
    requires
        0 <= pos <= s.len(),
    ensures
        pos <= digits_end(s, pos) <= s.len(),
    decreases s.len() - pos,
{
    if pos < s.len() && is_digit(s[pos]) {
        lemma_digits_end_bounds(s, pos + 1);
    }
}

/// A token either ends the input or takes at least one character.
pub proof fn lemma_lex_advances(s: Seq<char>, pos: int)
    requires
        0 <= pos <= s.len(),
    ensures
        pos <= lex(s, pos).next <= s.len(),
        lex(s, pos).token != Some(Token::EOF) ==> pos < lex(s, pos).next,
        lex(s, pos).token is None ==> lex(s, pos).unexpected is Some,
{
    lemma_skip_spaces_bounds(s, pos);
    let p = skip_spaces(s, pos);
    if p < s.len() {
        lemma_digits_end_bounds(s, p + 1);
    }
}

/// Splits an expression into tokens, one at each call of `next`.
pub struct Tokenizer {
    chars: Vec<char>,
    pos: usize,
    reached_end: bool,
    unexpected_char: Option<char>,
}

impl Tokenizer {
    /// The text being read.
    pub closed spec fn text(&self) -> Seq<char> {
        self.chars@
    }

    /// The position of the next character to read.
    pub closed spec fn position(&self) -> int {
        self.pos as int
    }

    /// Whether the end of the text has been reported.
    pub closed spec fn ended(&self) -> bool {
        self.reached_end
    }

    /// The last character that no token could start with.
    pub closed spec fn unexpected(&self) -> Option<char> {
        self.unexpected_char
    }

    /// The position lies in the text.
    pub closed spec fn wf(&self) -> bool {
        self.pos <= self.chars.len()
    }

    /// A tokenizer at the start of `expression`.
    pub fn new(expression: &str) -> (t: Tokenizer)
        ensures
            t.wf(),
            t.text() == expression@,
            t.position() == 0,
            !t.ended(),
            t.unexpected() is None,
    {
        Tokenizer { chars: chars_of(expression), pos: 0, reached_end: false, unexpected_char: None }
    }

    /// The character that stopped the tokenizer, if one did.
    pub fn get_unexpected_char(&self) -> (r: Option<char>)
        ensures
            r == self.unexpected(),
    {
        self.unexpected_char
    }

    /// The next token: `EOF` once at the end of the text, and nothing
    /// after that or where no token can be read.
    pub fn next(&mut self) -> (r: Option<Token>)
        requires
            old(self).wf(),
        ensures
            final(self).wf(),
            final(self).text() == old(self).text(),
            old(self).ended() ==> r is None && *final(self) == *old(self),
            !old(self).ended() ==> {
                let l = lex(old(self).text(), old(self).position());
                &&& r == l.token
                &&& final(self).position() == l.next
                &&& final(self).ended() == (l.token == Some(Token::EOF))
                &&& final(self).unexpected() == if l.token is None {
                    l.unexpected
                } else {
                    old(self).unexpected()
                }
            },
    {
        if self.reached_end {
            return None;
        }
        let ghost s = self.chars@;
        let ghost start = self.pos as int;
        proof {
            lemma_lex_advances(s, start);
        }
        while self.pos < self.chars.len() && space(self.chars[self.pos])
            invariant
                self.chars@ == s,
                start <= self.pos <= s.len(),
                skip_spaces(s, start) == skip_spaces(s, self.pos as int),
                self.reached_end == old(self).reached_end,
                self.unexpected_char == old(self).unexpected_char,
            decreases s.len() - self.pos,
        {
            self.pos += 1;
        }
        if self.pos >= self.chars.len() {
            self.reached_end = true;
            return Some(Token::EOF);
        }
        let c = self.chars[self.pos];
        let p = self.pos;
        self.pos += 1;
        if digit(c) {
            let mut run: Vec<char> = Vec::new();
            run.push(c);
            while self.pos < self.chars.len() && digit(self.chars[self.pos])
                invariant
                    self.chars@ == s,
                    p < self.pos <= s.len(),
                    digits_end(s, p + 1) == digits_end(s, self.pos as int),
                    run@ == s.subrange(p as int, self.pos as int),
                    self.reached_end == old(self).reached_end,
                    self.unexpected_char == old(self).unexpected_char,
                decreases s.len() - self.pos,
            {
                run.push(self.chars[self.pos]);
                self.pos += 1;
                assert(run@ =~= s.subrange(p as int, self.pos as int));
            }
            let numeral = string_of(&run);
            match parse_decimal(numeral.as_str()) {
                Some(n) => Some(Token::Number(n)),
                None => {
                    self.unexpected_char = Some(c);
                    None
                },
            }
        } else if c == '+' {
            Some(Token::Add)
        } else if c == '-' {
            Some(Token::Subtract)
        } else if c == '*' {
            Some(Token::Multiply)
        } else if c == '/' {
            Some(Token::Divide)
        } else if c == '^' {
            Some(Token::Caret)
        } else if c == '(' {
            Some(Token::LeftParen)
        } else if c == ')' {
            Some(Token::RightParen)
        } else {
            self.unexpected_char = Some(c);
            None
        }
    }
}

/// Where a parser stands: the state of its tokenizer and the token it
/// looks at.
pub struct Cursor {
    pub pos: int,
    pub ended: bool,
    pub unexpected: Option<char>,
    pub current: Token,
}

/// What is left to read from a cursor; it bounds the work of the parser.
pub open spec fn remaining(s: Seq<char>, c: Cursor) -> nat {
    if c.ended {
        0
    } else if c.pos <= s.len() {
        (s.len() - c.pos + 1) as nat
    } else {
        1
    }
}

/// The cursor after the next token is read, or the error that reading it
/// gives. Past the end of the text there is no next token.
pub open spec fn advanced(s: Seq<char>, c: Cursor) -> Result<Cursor, CalcError> {
    if c.ended {
        match c.unexpected {
            Some(ch) => Err(CalcError::UnexpectedChar(ch)),
            None => Err(CalcError::InvalidOperator(Mistake::Incomplete)),
        }
    } else {
        let l = lex(s, c.pos);
        match l.token {
            Some(t) => Ok(
                Cursor {
                    pos: l.next,
                    ended: t == Token::EOF,
                    unexpected: c.unexpected,
                    current: t,
                },
            ),
            None => match l.unexpected {
                Some(ch) => Err(CalcError::UnexpectedChar(ch)),
                None => Err(CalcError::InvalidOperator(Mistake::Incomplete)),
            },
        }
    }
}

/// The cursor on the first token of `s`.
pub open spec fn started(s: Seq<char>) -> Result<Cursor, CalcError> {
    let l = lex(s, 0);
    match l.token {
        Some(t) => Ok(Cursor { pos: l.next, ended: t == Token::EOF, unexpected: None, current: t }),
        None => match l.unexpected {
            Some(ch) => Err(CalcError::UnexpectedChar(ch)),
            None => Err(CalcError::InvalidOperator(Mistake::Incomplete)),
        },
    }
}

/// The tree that a binary operator builds from its operands.
pub open spec fn binary_node(op: Token, left: Node, right: Node) -> Node {
    match op {
        Token::Add => Node::Add(Box::new(left), Box::new(right)),
        Token::Subtract => Node::Subtract(Box::new(left), Box::new(right)),
        Token::Multiply => Node::Multiply(Box::new(left), Box::new(right)),
        Token::Divide => Node::Divide(Box::new(left), Box::new(right)),
        _ => Node::Power(Box::new(left), Box::new(right)),
    }
}

/// An operand: a number, a negated expression, or an expression in
/// parentheses.
pub open spec fn parsed_operand(s: Seq<char>, c: Cursor) -> Result<(Node, Cursor), CalcError>
    decreases remaining(s, c), 1int,
{
    match c.current {
        Token::Number(n) => match advanced(s, c) {
            Ok(c1) => Ok((Node::Number(n), c1)),
            Err(e) => Err(e),
        },
        Token::Subtract => match advanced(s, c) {
            Ok(c1) => if remaining(s, c1) < remaining(s, c) {
                match parsed_expression(s, c1, OperatorPrecedence::Negative) {
                    Ok((expr, c2)) => Ok((Node::Negative(Box::new(expr)), c2)),
                    Err(e) => Err(e),
                }
            } else {
                Err(CalcError::InvalidOperator(Mistake::Incomplete))
            },
            Err(e) => Err(e),
        },
        Token::LeftParen => match advanced(s, c) {
            Ok(c1) => if remaining(s, c1) < remaining(s, c) {
                match parsed_expression(s, c1, OperatorPrecedence::Default) {
                    Ok((expr, c2)) => if c2.current != Token::RightParen {
                        if c2.current == Token::EOF {
                            Err(CalcError::InvalidOperator(Mistake::Incomplete))
                        } else {
                            Err(
                                CalcError::InvalidOperator(
                                    Mistake::ExpectedCloseParen(c2.current),
                                ),
                            )
                        }
                    } else {
                        match advanced(s, c2) {
                            Ok(c3) => Ok((expr, c3)),
                            Err(e) => Err(e),
                        }
                    },
                    Err(e) => Err(e),
                }
            } else {
                Err(CalcError::InvalidOperator(Mistake::Incomplete))
            },
            Err(e) => Err(e),
        },
        Token::EOF => Err(CalcError::InvalidOperator(Mistake::Incomplete)),
        t => Err(CalcError::InvalidOperator(Mistake::ExpectedOperand(t))),
    }
}

/// An operand followed by the operators that bind tighter than
/// `precedence`, each with its right-hand side.
pub open spec fn parsed_expression(s: Seq<char>, c: Cursor, precedence: OperatorPrecedence)
    -> Result<(Node, Cursor), CalcError>
    decreases remaining(s, c), 2int,
{
    match parsed_operand(s, c) {
        Ok((expr, c1)) => if remaining(s, c1) <= remaining(s, c) {
            parsed_tail(s, c1, expr, precedence)
        } else {
            Err(CalcError::InvalidOperator(Mistake::Incomplete))
        },
        Err(e) => Err(e),
    }
}

/// The operators after `left` that bind tighter than `precedence`.
pub open spec fn parsed_tail(
    s: Seq<char>,
    c: Cursor,
    left: Node,
    precedence: OperatorPrecedence,
) -> Result<(Node, Cursor), CalcError>
    decreases remaining(s, c), 1int,
{
    if precedence.spec_rank() < c.current.precedence().spec_rank() {
        match parsed_binary(s, c, left) {
            Ok((expr, c1)) => if remaining(s, c1) < remaining(s, c) {
                parsed_tail(s, c1, expr, precedence)
            } else {
                Err(CalcError::InvalidOperator(Mistake::Incomplete))
            },
            Err(e) => Err(e),
        }
    } else {
        Ok((left, c))
    }
}

/// The operator under the cursor applied to `left` and to the expression
/// that follows it.
pub open spec fn parsed_binary(s: Seq<char>, c: Cursor, left: Node) -> Result<
    (Node, Cursor),
    CalcError,
>
    decreases remaining(s, c), 0int,
{
    match advanced(s, c) {
        Ok(c1) => if remaining(s, c1) < remaining(s, c) {
            match parsed_expression(s, c1, c.current.precedence()) {
                Ok((right, c2)) => Ok((binary_node(c.current, left, right), c2)),
                Err(e) => Err(e),
            }
        } else {
            Err(CalcError::InvalidOperator(Mistake::Incomplete))
        },
        Err(e) => Err(e),
    }
}

/// The value of an expression text: its tree must take up all of the
/// text, and its value must be a whole number of `usize`, fractional
/// digits cut off.
pub open spec fn calculated(s: Seq<char>) -> Result<usize, CalcError> {
    match started(s) {
        Err(e) => Err(e),
        Ok(c) => match parsed_expression(s, c, OperatorPrecedence::Default) {
            Err(e) => Err(e),
            Ok((node, c1)) => if c1.current != Token::EOF {
                Err(CalcError::InvalidOperator(Mistake::Trailing(c1.current)))
            } else {
                match node.value() {
                    None => Err(CalcError::OutOfRange),
                    Some(n) => match n.spec_to_usize() {
                        None => Err(CalcError::OutOfRange),
                        Some(v) => Ok(v),
                    },
                }
            },
        },
    }
}

/// A recursive-descent parser over a tokenizer, one token ahead.
pub struct Parser {
    tokenizer: Tokenizer,
    current_token: Token,
}

impl Parser {
    /// The text being parsed.
    pub closed spec fn text(&self) -> Seq<char> {
        self.tokenizer.text()
    }

    /// Where the parser stands.
    pub closed spec fn cursor(&self) -> Cursor {
        Cursor {
            pos: self.tokenizer.position(),
            ended: self.tokenizer.ended(),
            unexpected: self.tokenizer.unexpected(),
            current: self.current_token,
        }
    }

    /// The tokenizer stands inside the text.
    pub closed spec fn wf(&self) -> bool {
        self.tokenizer.wf()
    }

    /// A parser on the first token of `expression`.
    pub fn new(expression: &str) -> (r: CalcResult<Parser>)
        ensures
            match started(expression@) {
                Ok(c) => r is Ok && r->Ok_0.wf() && r->Ok_0.text() == expression@
                    && r->Ok_0.cursor() == c,
                Err(e) => r == Err::<Parser, CalcError>(e),
            },
    {
        let mut tokenizer = Tokenizer::new(expression);
        match tokenizer.next() {
            Some(t) => Ok(Parser { tokenizer, current_token: t }),
            None => match tokenizer.get_unexpected_char() {
                Some(c) => Err(CalcError::UnexpectedChar(c)),
                None => Err(CalcError::InvalidOperator(Mistake::Incomplete)),
            },
        }
    }

    /// The tree of the expression that starts at the current token.
    pub fn parse(&mut self) -> (r: CalcResult<Node>)
        requires
            old(self).wf(),
        ensures
            final(self).wf(),
            final(self).text() == old(self).text(),
            match parsed_expression(
                old(self).text(),
                old(self).cursor(),
                OperatorPrecedence::Default,
            ) {
                Ok((node, c)) => r == Ok::<Node, CalcError>(node) && final(self).cursor() == c,
                Err(e) => r == Err::<Node, CalcError>(e),
            },
    {
        self.parse_expression(OperatorPrecedence::Default)
    }

    /// The token under the cursor.
    pub fn current(&self) -> (t: Token)
        ensures
            t == self.cursor().current,
    {
        self.current_token
    }

    fn next_token(&mut self) -> (r: CalcResult<()>)
        requires
            old(self).wf(),
        ensures
            final(self).wf(),
            final(self).text() == old(self).text(),
            match advanced(old(self).text(), old(self).cursor()) {
                Ok(c) => r is Ok && final(self).cursor() == c && remaining(
                    old(self).text(),
                    c,
                ) < remaining(old(self).text(), old(self).cursor()),
                Err(e) => r == Err::<(), CalcError>(e),
            },
    {
        proof {
            if !self.tokenizer.ended() {
                self.tokenizer.lemma_position_in_text();
                lemma_lex_advances(self.tokenizer.text(), self.tokenizer.position());
            }
        }
        match self.tokenizer.next() {
            Some(t) => {
                self.current_token = t;
                Ok(())
            },
            None => match self.tokenizer.get_unexpected_char() {
                Some(c) => Err(CalcError::UnexpectedChar(c)),
                None => Err(CalcError::InvalidOperator(Mistake::Incomplete)),
            },
        }
    }

    fn parse_expression(&mut self, precedence: OperatorPrecedence) -> (r: CalcResult<Node>)
        requires
            old(self).wf(),
        ensures
            final(self).wf(),
            final(self).text() == old(self).text(),
            match parsed_expression(old(self).text(), old(self).cursor(), precedence) {
                Ok((node, c)) => r == Ok::<Node, CalcError>(node) && final(self).cursor() == c
                    && remaining(old(self).text(), c) < remaining(
                    old(self).text(),
                    old(self).cursor(),
                ),
                Err(e) => r == Err::<Node, CalcError>(e),
            },
        decreases remaining(old(self).text(), old(self).cursor()), 2int,
    {
        let ghost s = self.text();
        let ghost c0 = self.cursor();
        let mut expr = match self.parse_number_or_expression() {
            Ok(e) => e,
            Err(e) => {
                return Err(e);
            },
        };
        let ghost c1 = self.cursor();
        while precedence.rank() < self.current_token.get_precedence().rank()
            invariant
                self.wf(),
                self.text() == s,
                s == old(self).text(),
                c0 == old(self).cursor(),
                parsed_operand(s, c0) is Ok,
                parsed_operand(s, c0)->Ok_0.1 == c1,
                remaining(s, self.cursor()) <= remaining(s, c1),
                remaining(s, c1) < remaining(s, c0),
                parsed_tail(s, c1, parsed_operand(s, c0)->Ok_0.0, precedence) == parsed_tail(
                    s,
                    self.cursor(),
                    expr,
                    precedence,
                ),
            decreases remaining(s, self.cursor()),
        {
            expr = match self.parse_binary_expression(expr) {
                Ok(e) => e,
                Err(e) => {
                    return Err(e);
                },
            };
        }
        Ok(expr)
    }

    fn parse_binary_expression(&mut self, left_expr: Node) -> (r: CalcResult<Node>)
        requires
            old(self).wf(),
        ensures
            final(self).wf(),
            final(self).text() == old(self).text(),
            match parsed_binary(old(self).text(), old(self).cursor(), left_expr) {
                Ok((node, c)) => r == Ok::<Node, CalcError>(node) && final(self).cursor() == c
                    && remaining(old(self).text(), c) < remaining(
                    old(self).text(),
                    old(self).cursor(),
                ),
                Err(e) => r == Err::<Node, CalcError>(e),
            },
        decreases remaining(old(self).text(), old(self).cursor()), 0int,
    {
        let op = self.current_token;
        match self.next_token() {
            Ok(_) => {},
            Err(e) => {
                return Err(e);
            },
        }
        let right_expr = match self.parse_expression(op.get_precedence()) {
            Ok(e) => e,
            Err(e) => {
                return Err(e);
            },
        };
        Ok(
            match op {
                Token::Add => Node::Add(Box::new(left_expr), Box::new(right_expr)),
                Token::Subtract => Node::Subtract(Box::new(left_expr), Box::new(right_expr)),
                Token::Multiply => Node::Multiply(Box::new(left_expr), Box::new(right_expr)),
                Token::Divide => Node::Divide(Box::new(left_expr), Box::new(right_expr)),
                _ => Node::Power(Box::new(left_expr), Box::new(right_expr)),
            },
        )
    }

    fn parse_number_or_expression(&mut self) -> (r: CalcResult<Node>)
        requires
            old(self).wf(),
        ensures
            final(self).wf(),
            final(self).text() == old(self).text(),
            match parsed_operand(old(self).text(), old(self).cursor()) {
                Ok((node, c)) => r == Ok::<Node, CalcError>(node) && final(self).cursor() == c
                    && remaining(old(self).text(), c) < remaining(
                    old(self).text(),
                    old(self).cursor(),
                ),
                Err(e) => r == Err::<Node, CalcError>(e),
            },
        decreases remaining(old(self).text(), old(self).cursor()), 1int,
    {
        match self.current_token {
            Token::Number(n) => {
                match self.next_token() {
                    Ok(_) => Ok(Node::Number(n)),
                    Err(e) => Err(e),
                }
            },
            Token::Subtract => {
                match self.next_token() {
                    Ok(_) => {},
                    Err(e) => {
                        return Err(e);
                    },
                }
                match self.parse_expression(OperatorPrecedence::Negative) {
                    Ok(expr) => Ok(Node::Negative(Box::new(expr))),
                    Err(e) => Err(e),
                }
            },
            Token::LeftParen => {
                match self.next_token() {
                    Ok(_) => {},
                    Err(e) => {
                        return Err(e);
                    },
                }
                let expr = match self.parse_expression(OperatorPrecedence::Default) {
                    Ok(e) => e,
                    Err(e) => {
                        return Err(e);
                    },
                };
                if self.current_token != Token::RightParen {
                    if self.current_token == Token::EOF {
                        return Err(CalcError::InvalidOperator(Mistake::Incomplete));
                    }
                    return Err(
                        CalcError::InvalidOperator(Mistake::ExpectedCloseParen(self.current_token)),
                    );
                }
                match self.next_token() {
                    Ok(_) => Ok(expr),
                    Err(e) => Err(e),
                }
            },
            Token::EOF => Err(CalcError::InvalidOperator(Mistake::Incomplete)),
            t => Err(CalcError::InvalidOperator(Mistake::ExpectedOperand(t))),
        }
    }
}

impl Tokenizer {
    /// A well-formed tokenizer stands inside its text.
    pub proof fn lemma_position_in_text(&self)
        requires
            self.wf(),
        ensures
            0 <= self.position() <= self.text().len(),
    {
    }
}

/// Texts that can be evaluated as arithmetic.
pub trait StrCalc {
    /// The text as a sequence of characters.
    spec fn expression(&self) -> Seq<char>;

    /// The value of the expression.
    fn calculate(&self) -> (r: Result<usize, CalcError>)
        ensures
            r == calculated(self.expression()),
    ;
}

impl StrCalc for String {
    open spec fn expression(&self) -> Seq<char> {
        self@
    }

    fn calculate(&self) -> (r: Result<usize, CalcError>) {
        let mut parser = match Parser::new(self.as_str()) {
            Ok(p) => p,
            Err(e) => {
                return Err(e);
            },
        };
        let ast = match parser.parse() {
            Ok(n) => n,
            Err(e) => {
                return Err(e);
            },
        };
        let last = parser.current();
        if last != Token::EOF {
            return Err(CalcError::InvalidOperator(Mistake::Trailing(last)));
        }
        match ast.eval() {
            None => Err(CalcError::OutOfRange),
            Some(n) => match n.to_usize() {
                None => Err(CalcError::OutOfRange),
                Some(v) => Ok(v),
            },
        }
    }
}

} // verus!
