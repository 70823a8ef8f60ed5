use vstd::prelude::*;
use vstd::string::StrSliceExecFns;

use crate::ast::{Expr, Operator, Statement};
use crate::lexer::{Token, Tokenizer};
use crate::precedence::Precedence;

verus! {

/// A parse error message.
pub type Error = String;

/// Tokens that stand for an operator.
pub open spec fn is_operator_token(t: Token) -> bool {
    match t {
        Token::Plus | Token::Minus | Token::Slash | Token::Star | Token::Caret | Token::Percent
        | Token::And | Token::Or | Token::Gt | Token::Gte | Token::Lt | Token::Lte | Token::Eq
        | Token::Ne | Token::Not | Token::Assign => true,
        _ => false,
    }
}

/// The operator a token stands for.
fn operator_of(t: &Token) -> (r: Operator)
    requires
        is_operator_token(*t),
{
    match t {
        Token::Plus => Operator::Add,
        Token::Minus => Operator::Subtract,
        Token::Slash => Operator::Divide,
        Token::Star => Operator::Multiply,
        Token::Caret => Operator::Power,
        Token::Percent => Operator::Modulo,
        Token::And => Operator::And,
        Token::Or => Operator::Or,
        Token::Gt => Operator::Gt,
        Token::Gte => Operator::Gte,
        Token::Lt => Operator::Lt,
        Token::Lte => Operator::Lte,
        Token::Eq => Operator::Eq,
        Token::Ne => Operator::Ne,
        Token::Not => Operator::Not,
        _ => Operator::Assign,
    }
}

/// A number for each kind of token.
fn kind_code(t: &Token) -> (r: u8)
    ensures
        (r == 35) == (*t is Unknown),
{
    match t {
        Token::Identifier(_) => 0,
        Token::Int(_) => 1,
        Token::If => 2,
        Token::Let => 3,
        Token::Else => 4,
        Token::Return => 5,
        Token::Func => 6,
        Token::True => 7,
        Token::False => 8,
        Token::Lte => 9,
        Token::Gte => 10,
        Token::Eq => 11,
        Token::Ne => 12,
        Token::And => 13,
        Token::Or => 14,
        Token::Lt => 15,
        Token::Gt => 16,
        Token::Not => 17,
        Token::Minus => 18,
        Token::Plus => 19,
        Token::Star => 20,
        Token::Slash => 21,
        Token::Caret => 22,
        Token::Percent => 23,
        Token::Assign => 24,
        Token::Semicolon => 25,
        Token::Colon => 26,
        Token::Comma => 27,
        Token::Dot => 28,
        Token::OpenParenthese => 29,
        Token::CloseParenthese => 30,
        Token::OpenBrace => 31,
        Token::CloseBrace => 32,
        Token::OpenBracket => 33,
        Token::CloseBracket => 34,
        Token::Unknown => 35,
    }
}

/// Whether two tokens are equal: the same kind, with the same text.
fn same_token(a: &Token, b: &Token) -> (r: bool)
    ensures
        r ==> ((*a is Unknown) == (*b is Unknown)),
{
    if kind_code(a) != kind_code(b) {
        return false;
    }
    match (a, b) {
        (Token::Identifier(x), Token::Identifier(y)) => crate::lexer::same_text(x, y),
        (Token::Int(x), Token::Int(y)) => crate::lexer::same_text(x, y),
        _ => true,
    }
}

/// Value of a string of decimal digits, if it fits in a `u32`.
fn int_value(s: &str) -> (r: Option<u32>) {
    let n = s.unicode_len();
    if n == 0 {
        return None;
    }
    let mut value: u32 = 0;
    let mut i: usize = 0;
    while i < n
        invariant
            n == s@.len(),
            0 <= i <= n,
        decreases n - i,
    {
        let c = s.get_char(i);
        if !('0' <= c && c <= '9') {
            return None;
        }
        let digit = (c as u32) - ('0' as u32);
        if value > (u32::MAX - digit) / 10 {
            return None;
        }
        value = value * 10 + digit;
        i = i + 1;
    }
    Some(value)
}

struct Parser<'a> {
    tokenizer: Tokenizer<'a>,
    current_token: Token<'a>,
}

impl<'a> Parser<'a> {
    spec fn wf(&self) -> bool {
        self.tokenizer.wf()
    }

    /// Decreases with every token consumed.
    spec fn measure(&self) -> nat {
        2 * self.tokenizer.remaining() + if self.current_token is Unknown {
            0nat
        } else {
            1nat
        }
    }

    fn new(input: &'a str) -> (r: Parser<'a>)
        ensures
            r.wf(),
            input@.len() == 0 ==> r.current_token is Unknown && !r.tokenizer.met_unsupported(),
    {
        let mut tokenizer = Tokenizer::new(input);
        let current_token = match tokenizer.next() {
            Some(t) => t,
            None => Token::Unknown,
        };
        Parser { tokenizer, current_token }
    }

    fn advance(&mut self)
        requires
            old(self).wf(),
        ensures
            final(self).wf(),
            final(self).measure() <= old(self).measure(),
            !(old(self).current_token is Unknown) ==> final(self).measure() < old(self).measure(),
    {
        self.current_token = match self.tokenizer.next() {
            Some(t) => t,
            None => Token::Unknown,
        };
    }

    fn skip(&mut self, t: Token) -> (r: Result<(), Error>)
        requires
            old(self).wf(),
            !(t is Unknown),
        ensures
            final(self).wf(),
            final(self).measure() <= old(self).measure(),
            r is Ok ==> final(self).measure() < old(self).measure(),
    {
        if !same_token(&self.current_token, &t) {
            return Err("Unexpected token".to_owned());
        }
        self.advance();
        Ok(())
    }

    fn skip_optional(&mut self, t: Token)
        requires
            old(self).wf(),
        ensures
            final(self).wf(),
            final(self).measure() <= old(self).measure(),
    {
        if same_token(&self.current_token, &t) {
            self.advance()
        }
    }

    fn parse_operator(&self) -> (r: Operator)
        requires
            is_operator_token(self.current_token),
    {
        operator_of(&self.current_token)
    }

    fn parse_expr(&mut self, precedence: Precedence) -> (r: Result<Expr, Error>)
        requires
            old(self).wf(),
        ensures
            final(self).wf(),
            final(self).measure() <= old(self).measure(),
            r is Ok ==> final(self).measure() < old(self).measure(),
        decreases old(self).measure(), 5nat,
    {
        let mut left = match self.current_token {
            Token::Int(s) => match self.parse_int_expression(s) {
                Ok(e) => e,
                Err(e) => return Err(e),
            },
            Token::True => self.parse_bool_expression(true),
            Token::False => self.parse_bool_expression(false),
            Token::OpenParenthese => {
                self.advance();
                let expr = match self.parse_expr(Precedence::Lowest) {
                    Ok(e) => e,
                    Err(e) => return Err(e),
                };
                match self.skip(Token::CloseParenthese) {
                    Ok(()) => {},
                    Err(e) => return Err(e),
                }
                expr
            },
            Token::If => match self.parse_if_expr() {
                Ok(e) => e,
                Err(e) => return Err(e),
            },
            Token::Not | Token::Minus => match self.parse_prefix_expr() {
                Ok(e) => e,
                Err(e) => return Err(e),
            },
            Token::Identifier(name) => self.parse_ident(name),
            Token::Func => match self.parse_function_expr() {
                Ok(e) => e,
                Err(e) => return Err(e),
            },
            Token::OpenBracket => match self.parse_array_expr() {
                Ok(e) => e,
                Err(e) => return Err(e),
            },
            _ => {
                return Err("Unexpected token: Expected an expression".to_owned());
            },
        };
        let ghost start = old(self).measure();
        while !matches!(self.current_token, Token::Semicolon) && precedence.rank()
            < self.current_token.precedence().rank()
            invariant
                self.wf(),
                self.measure() < start,
                start == old(self).measure(),
            decreases self.measure(),
        {
            let step = match self.current_token {
                Token::Lt | Token::Lte | Token::Gt | Token::Gte | Token::Eq | Token::Ne
                | Token::Plus | Token::Minus | Token::Slash | Token::Caret | Token::Star
                | Token::And | Token::Or | Token::Percent => self.parse_infix_expr(left),
                Token::Dot => self.parse_prop_access_expr(left),
                Token::Assign => self.parse_assign_expr(left),
                Token::OpenParenthese => self.parse_call_expr(left),
                Token::OpenBracket => self.parse_index_expr(left),
                _ => return Ok(left),
            };
            left = match step {
                Ok(e) => e,
                Err(e) => return Err(e),
            };
        }
        Ok(left)
    }

    fn parse_statement(&mut self) -> (r: Result<Statement, Error>)
        requires
            old(self).wf(),
        ensures
            final(self).wf(),
            final(self).measure() <= old(self).measure(),
            r is Ok ==> final(self).measure() < old(self).measure(),
        decreases old(self).measure(), 6nat,
    {
        let statement = match self.current_token {
            Token::Let => self.parse_declare_statement(),
            Token::OpenBrace => match self.parse_block_statement() {
                Ok(b) => Ok(Statement::Block(b)),
                Err(e) => Err(e),
            },
            Token::Return => self.parse_return_statement(),
            _ => match self.parse_expr(Precedence::Lowest) {
                Ok(e) => Ok(Statement::Expression(e)),
                Err(e) => Err(e),
            },
        };
        match statement {
            Ok(s) => {
                self.skip_optional(Token::Semicolon);
                Ok(s)
            },
            Err(e) => Err(e),
        }
    }

    fn parse_declare_statement(&mut self) -> (r: Result<Statement, Error>)
        requires
            old(self).wf(),
            !(old(self).current_token is Unknown),
        ensures
            final(self).wf(),
            final(self).measure() < old(self).measure(),
        decreases old(self).measure(), 2nat,
    {
        self.advance();
        let identifier = match self.current_token {
            Token::Identifier(name) => name.to_owned(),
            _ => {
                return Err("Unexpected token: expected an identifier".to_owned());
            },
        };
        self.advance();
        match self.skip(Token::Assign) {
            Ok(()) => {},
            Err(e) => return Err(e),
        }
        match self.parse_expr(Precedence::Lowest) {
            Ok(value) => Ok(Statement::Let(identifier, value)),
            Err(e) => Err(e),
        }
    }

    fn parse_op_assign_expression(&mut self, name: String, operator: Operator) -> (r: Result<
        Expr,
        Error,
    >)
        requires
            old(self).wf(),
            old(self).current_token is Assign,
        ensures
            final(self).wf(),
            final(self).measure() < old(self).measure(),
        decreases old(self).measure(), 2nat,
    {
        self.advance();
        let right = match self.parse_expr(Precedence::Lowest) {
            Ok(e) => e,
            Err(e) => return Err(e),
        };
        Ok(
            Expr::Assignment {
                left: Box::new(Expr::Identifier(name.clone())),
                right: Box::new(
                    Expr::Infix {
                        left: Box::new(Expr::Identifier(name)),
                        operator,
                        right: Box::new(right),
                    },
                ),
            },
        )
    }

    fn parse_infix_expr(&mut self, left: Expr) -> (r: Result<Expr, Error>)
        requires
            old(self).wf(),
            is_operator_token(old(self).current_token),
        ensures
            final(self).wf(),
            final(self).measure() < old(self).measure(),
        decreases old(self).measure(), 2nat,
    {
        let operator = self.parse_operator();
        let precedence = self.current_token.precedence();
        self.advance();
        if matches!(self.current_token, Token::Assign) {
            match left {
                Expr::Identifier(name) => {
                    return self.parse_op_assign_expression(name, operator);
                },
                _ => {
                    let right = match self.parse_expr(precedence) {
                        Ok(e) => e,
                        Err(e) => return Err(e),
                    };
                    return Ok(
                        Expr::Infix { left: Box::new(left), operator, right: Box::new(right) },
                    );
                },
            }
        }
        let right = match self.parse_expr(precedence) {
            Ok(e) => e,
            Err(e) => return Err(e),
        };
        Ok(Expr::Infix { left: Box::new(left), operator, right: Box::new(right) })
    }

    fn parse_prefix_expr(&mut self) -> (r: Result<Expr, Error>)
        requires
            old(self).wf(),
            is_operator_token(old(self).current_token),
        ensures
            final(self).wf(),
            final(self).measure() < old(self).measure(),
        decreases old(self).measure(), 2nat,
    {
        let operator = self.parse_operator();
        let precedence = self.current_token.precedence();
        self.advance();
        match self.parse_expr(precedence) {
            Ok(e) => Ok(Expr::Prefix { operator, right: Box::new(e) }),
            Err(e) => Err(e),
        }
    }

    fn parse_if_expr(&mut self) -> (r: Result<Expr, Error>)
        requires
            old(self).wf(),
            !(old(self).current_token is Unknown),
        ensures
            final(self).wf(),
            final(self).measure() < old(self).measure(),
        decreases old(self).measure(), 4nat,
    {
        self.advance();
        let condition = match self.parse_expr(Precedence::Lowest) {
            Ok(e) => e,
            Err(e) => return Err(e),
        };
        let consequence = match self.parse_block_statement() {
            Ok(b) => b,
            Err(e) => return Err(e),
        };
        let alternative = if matches!(self.current_token, Token::Else) {
            self.advance();
            if matches!(self.current_token, Token::If) {
                match self.parse_statement() {
                    Ok(s) => {
                        let mut v: Vec<Statement> = Vec::new();
                        v.push(s);
                        Some(v)
                    },
                    Err(e) => return Err(e),
                }
            } else {
                match self.parse_block_statement() {
                    Ok(b) => Some(b),
                    Err(e) => return Err(e),
                }
            }
        } else {
            None
        };
        Ok(Expr::If { condition: Box::new(condition), consequence, alternative })
    }

    fn parse_prop_access_expr(&mut self, left: Expr) -> (r: Result<Expr, Error>)
        requires
            old(self).wf(),
            !(old(self).current_token is Unknown),
        ensures
            final(self).wf(),
            final(self).measure() <= old(self).measure(),
            r is Ok ==> final(self).measure() < old(self).measure(),
        decreases old(self).measure(), 2nat,
    {
        match left {
            Expr::Identifier(_) => {},
            _ => {
                return Err("Cannot access properties of this expression".to_owned());
            },
        }
        self.advance();
        if matches!(self.current_token, Token::OpenBracket) {
            self.advance();
            let right = match self.parse_expr(Precedence::Lowest) {
                Ok(e) => e,
                Err(e) => return Err(e),
            };
            match self.skip(Token::CloseBracket) {
                Ok(()) => {},
                Err(e) => return Err(e),
            }
            Ok(Expr::Member { left: Box::new(left), right: Box::new(right), computed: true })
        } else {
            let right = match self.current_token {
                Token::Identifier(name) => {
                    self.advance();
                    Expr::String { value: name.to_owned() }
                },
                _ => {
                    return Err("Expected property name after '.'".to_owned());
                },
            };
            Ok(Expr::Member { left: Box::new(left), right: Box::new(right), computed: false })
        }
    }

    fn parse_assign_expr(&mut self, left: Expr) -> (r: Result<Expr, Error>)
        requires
            old(self).wf(),
            !(old(self).current_token is Unknown),
        ensures
            final(self).wf(),
            final(self).measure() <= old(self).measure(),
            r is Ok ==> final(self).measure() < old(self).measure(),
        decreases old(self).measure(), 2nat,
    {
        match left {
            Expr::Identifier(_) | Expr::Index { .. } => {},
            _ => {
                return Err("Cannot assign a value to this expression".to_owned());
            },
        }
        self.advance();
        match self.parse_expr(Precedence::Assign) {
            Ok(right) => Ok(Expr::Assignment { left: Box::new(left), right: Box::new(right) }),
            Err(e) => Err(e),
        }
    }

    fn parse_int_expression(&mut self, strval: &str) -> (r: Result<Expr, Error>)
        requires
            old(self).wf(),
            !(old(self).current_token is Unknown),
        ensures
            final(self).wf(),
            final(self).measure() < old(self).measure(),
    {
        self.advance();
        match int_value(strval) {
            Some(value) => Ok(Expr::Int { value }),
            None => Err("Integer literal out of range".to_owned()),
        }
    }

    fn parse_bool_expression(&mut self, value: bool) -> (r: Expr)
        requires
            old(self).wf(),
            !(old(self).current_token is Unknown),
        ensures
            final(self).wf(),
            final(self).measure() < old(self).measure(),
    {
        self.advance();
        Expr::Bool { value }
    }

    fn parse_function_expr(&mut self) -> (r: Result<Expr, Error>)
        requires
            old(self).wf(),
            !(old(self).current_token is Unknown),
        ensures
            final(self).wf(),
            final(self).measure() < old(self).measure(),
        decreases old(self).measure(), 4nat,
    {
        self.advance();
        let name: &str = match self.current_token {
            Token::Identifier(name) => {
                self.advance();
                name
            },
            _ => "",
        };
        let mut parameters: Vec<String> = Vec::new();
        match self.skip(Token::OpenParenthese) {
            Ok(()) => {},
            Err(e) => return Err(e),
        }
        let ghost start = old(self).measure();
        while !matches!(self.current_token, Token::CloseParenthese)
            invariant
                self.wf(),
                self.measure() < start,
                start == old(self).measure(),
            decreases self.measure(),
        {
            match self.current_token {
                Token::Identifier(p) => {
                    parameters.push(p.to_owned());
                    self.advance();
                    self.skip_optional(Token::Comma);
                },
                _ => {
                    return Err("Expected a parameter name".to_owned());
                },
            }
        }
        match self.skip(Token::CloseParenthese) {
            Ok(()) => {},
            Err(e) => return Err(e),
        }
        match self.parse_block_statement() {
            Ok(body) => Ok(Expr::Function { name: name.to_owned(), parameters, body }),
            Err(e) => Err(e),
        }
    }

    fn parse_ident(&mut self, name: &str) -> (r: Expr)
        requires
            old(self).wf(),
            !(old(self).current_token is Unknown),
        ensures
            final(self).wf(),
            final(self).measure() < old(self).measure(),
    {
        let expr = Expr::Identifier(name.to_owned());
        self.advance();
        expr
    }

    fn parse_call_expr(&mut self, left: Expr) -> (r: Result<Expr, Error>)
        requires
            old(self).wf(),
            !(old(self).current_token is Unknown),
        ensures
            final(self).wf(),
            final(self).measure() <= old(self).measure(),
            r is Ok ==> final(self).measure() < old(self).measure(),
        decreases old(self).measure(), 2nat,
    {
        match left {
            Expr::Identifier(_) | Expr::Function { .. } => {},
            _ => {
                return Err("This expression is not callable".to_owned());
            },
        }
        self.advance();
        let ghost start = old(self).measure();
        let mut arguments: Vec<Expr> = Vec::new();
        while !matches!(self.current_token, Token::CloseParenthese)
            invariant
                self.wf(),
                self.measure() < start,
                start == old(self).measure(),
            decreases self.measure(),
        {
            match self.parse_expr(Precedence::Lowest) {
                Ok(e) => arguments.push(e),
                Err(e) => return Err(e),
            }
            self.skip_optional(Token::Comma);
        }
        self.advance();
        Ok(Expr::Call { left: Box::new(left), arguments })
    }

    fn parse_array_expr(&mut self) -> (r: Result<Expr, Error>)
        requires
            old(self).wf(),
            !(old(self).current_token is Unknown),
        ensures
            final(self).wf(),
            final(self).measure() < old(self).measure(),
        decreases old(self).measure(), 4nat,
    {
        self.advance();
        let ghost start = old(self).measure();
        let mut values: Vec<Expr> = Vec::new();
        while !matches!(self.current_token, Token::CloseBracket)
            invariant
                self.wf(),
                self.measure() < start,
                start == old(self).measure(),
            decreases self.measure(),
        {
            match self.parse_expr(Precedence::Lowest) {
                Ok(e) => values.push(e),
                Err(e) => return Err(e),
            }
            self.skip_optional(Token::Comma);
        }
        match self.skip(Token::CloseBracket) {
            Ok(()) => Ok(Expr::Array { values }),
            Err(e) => Err(e),
        }
    }

    fn parse_index_expr(&mut self, left: Expr) -> (r: Result<Expr, Error>)
        requires
            old(self).wf(),
            !(old(self).current_token is Unknown),
        ensures
            final(self).wf(),
            final(self).measure() <= old(self).measure(),
            r is Ok ==> final(self).measure() < old(self).measure(),
        decreases old(self).measure(), 2nat,
    {
        match &left {
            Expr::Identifier(_) | Expr::Array { .. } | Expr::String { .. } => {},
            _ => {
                return Err("Cannot index in this expression".to_owned());
            },
        }
        self.advance();
        let index = match self.parse_expr(Precedence::Lowest) {
            Ok(e) => e,
            Err(e) => return Err(e),
        };
        match self.skip(Token::CloseBracket) {
            Ok(()) => Ok(Expr::Index { left: Box::new(left), index: Box::new(index) }),
            Err(e) => Err(e),
        }
    }

    fn parse_return_statement(&mut self) -> (r: Result<Statement, Error>)
        requires
            old(self).wf(),
            !(old(self).current_token is Unknown),
        ensures
            final(self).wf(),
            final(self).measure() < old(self).measure(),
        decreases old(self).measure(), 2nat,
    {
        self.advance();
        match self.parse_expr(Precedence::Lowest) {
            Ok(e) => Ok(Statement::Return(e)),
            Err(e) => Err(e),
        }
    }

    fn parse_block_statement(&mut self) -> (r: Result<Vec<Statement>, Error>)
        requires
            old(self).wf(),
        ensures
            final(self).wf(),
            final(self).measure() <= old(self).measure(),
            r is Ok ==> final(self).measure() < old(self).measure(),
        decreases old(self).measure(), 3nat,
    {
        let mut block: Vec<Statement> = Vec::new();
        match self.skip(Token::OpenBrace) {
            Ok(()) => {},
            Err(e) => return Err(e),
        }
        let ghost start = old(self).measure();
        while !matches!(self.current_token, Token::Unknown) && !matches!(
            self.current_token,
            Token::CloseBrace
        )
            invariant
                self.wf(),
                self.measure() < start,
                start == old(self).measure(),
            decreases self.measure(),
        {
            match self.parse_statement() {
                Ok(s) => block.push(s),
                Err(e) => return Err(e),
            }
        }
        match self.skip(Token::CloseBrace) {
            Ok(()) => Ok(block),
            Err(e) => Err(e),
        }
    }
}

/// Parses a program into its statements. Parsing stops at the end of the
/// input or at a character that starts no token; a decimal number or a string
/// literal is an error, as the language does not support them yet.
pub fn parse(program: &str) -> (r: Result<Vec<Statement>, Error>)
    ensures
        program@.len() == 0 ==> (r matches Ok(b) && b@.len() == 0),
{
    let mut parser = Parser::new(program);
    let mut block: Vec<Statement> = Vec::new();
    while !matches!(parser.current_token, Token::Unknown)
        invariant
            parser.wf(),
            program@.len() == 0 ==> parser.current_token is Unknown,
            program@.len() == 0 ==> block@.len() == 0,
        decreases parser.measure(),
    {
        match parser.parse_statement() {
            Ok(s) => block.push(s),
            Err(e) => {
                if parser.tokenizer.met_unsupported_literal() {
                    return Err("Decimal numbers and strings are not yet implemented".to_owned());
                }
                return Err(e);
            },
        }
    }
    if program.unicode_len() > 0 && parser.tokenizer.met_unsupported_literal() {
        return Err("Decimal numbers and strings are not yet implemented".to_owned());
    }
    Ok(block)
}

} // verus!
