//! The parser: tokens to syntax trees.
//!
//! What the tokens of an expression spell is said by [`spans`], a grammar
//! with one rule for each level of precedence; the parser builds the tree
//! that the tokens spell.

use vstd::prelude::*;
use crate::ast::ASTIfStatement;
use crate::ast::Expr;
use crate::ast::AST;
use crate::bytecode::lowering::block_supported;
use crate::bytecode::lowering::stmt_supported;
use crate::bytecode::lowering::expr_supported;
use crate::lexer::Operator;
use crate::lexer::Token;

verus! {

/// Why tokens are no program.
#[derive(Debug, Clone, Copy, PartialEq, Eq, Structural)]
pub enum ParseError {
    /// The tokens end where more are needed.
    UnexpectedEnd,
    /// The token at this index cannot stand where it stands.
    UnexpectedToken(usize),
    /// The line whose first token is at this index is indented too much
    /// or too little.
    Indentation(usize),
}

/// The level of an operator between two operands: `or`, then `and`, then
/// the comparisons, `^`, the sum and difference, and, binding closest,
/// the product, quotient and remainder. Other operators stand between no
/// operands.
pub open spec fn binary_level(op: Operator) -> Option<int> {
    match op {
        Operator::Or => Some(0),
        Operator::And => Some(1),
        Operator::Equals => Some(3),
        Operator::NotEquals => Some(3),
        Operator::Less => Some(3),
        Operator::Greater => Some(3),
        Operator::LessEquals => Some(3),
        Operator::GreaterEquals => Some(3),
        Operator::Xor => Some(4),
        Operator::Plus => Some(5),
        Operator::Minus => Some(5),
        Operator::Multiply => Some(6),
        Operator::Divide => Some(6),
        Operator::Mod => Some(6),
        _ => None,
    }
}

/// Whether `level` is a level of operators between two operands.
pub open spec fn is_binary_level(level: int) -> bool {
    level == 0 || level == 1 || level == 3 || level == 4 || level == 5 || level == 6
}

/// Whether the token at `at` is the operator `op`.
pub open spec fn operator_at(tokens: Seq<Token>, at: int, op: Operator) -> bool {
    0 <= at < tokens.len() && tokens[at] == Token::Operator(op)
}

/// Whether the one token at `at` spells the expression `e`: a literal or
/// a name.
pub open spec fn atom_at(tokens: Seq<Token>, at: int, e: Expr) -> bool {
    0 <= at < tokens.len() && match tokens[at] {
        Token::LiteralInteger(i) => e == Expr::IntegerValue(i),
        Token::LiteralFloat(f) => e == Expr::FloatValue(f),
        Token::LiteralString(s) => e == Expr::StringValue(s),
        Token::Identifier(name) => e == Expr::Variable(name),
        Token::True => e == Expr::BooleanValue(true),
        Token::False => e == Expr::BooleanValue(false),
        Token::NoneValue => e == Expr::NoneValue,
        _ => false,
    }
}

/// A place between tokens at which a rule of the grammar divides them.
pub open spec fn divides(at: int) -> bool {
    true
}

/// Whether the tokens from `from` up to `to` spell the expression `e`, as
/// an expression of the level `level` or of one that binds closer.
///
/// At the level of an operator between operands, the tokens spell a left
/// operand of that level, the operator, and a right operand of the next
/// level: operators of one level group from the left. `not`, and further
/// in a sign, stands in front of an operand of its own level. A call is
/// what is called, of the level of calls, followed by the arguments
/// between parentheses, with commas between them. An expression between
/// parentheses is spelled like the expression.
pub open spec fn spans(tokens: Seq<Token>, from: int, to: int, e: Expr, level: int) -> bool
    decreases to - from, 10 - level,
{
    if from < 0 || to > tokens.len() || from >= to || level < 0 || level > 9 {
        false
    } else if is_binary_level(level) {
        spans(tokens, from, to, e, level + 1) || (e matches Expr::BinaryOperation(lhs, op, rhs)
            && binary_level(op) == Some(level) && exists|mid: int|
            #[trigger] divides(mid) && from < mid < to - 1 && spans(tokens, from, mid, *lhs, level) && operator_at(
                tokens,
                mid,
                op,
            ) && spans(tokens, mid + 1, to, *rhs, level + 1))
    } else if level == 2 {
        spans(tokens, from, to, e, 3) || (e matches Expr::UnaryExpression(op, operand) && op
            == Operator::Not && operator_at(tokens, from, op) && spans(
            tokens,
            from + 1,
            to,
            *operand,
            2,
        ))
    } else if level == 7 {
        spans(tokens, from, to, e, 8) || (e matches Expr::UnaryExpression(op, operand) && (op
            == Operator::Plus || op == Operator::Minus) && operator_at(tokens, from, op) && spans(
            tokens,
            from + 1,
            to,
            *operand,
            7,
        ))
    } else if level == 8 {
        spans(tokens, from, to, e, 9) || (e matches Expr::FunctionCall(callee, arguments)
            && operator_at(tokens, to - 1, Operator::CloseParen) && exists|open: int|
            #[trigger] divides(open) && from < open < to - 1 && spans(tokens, from, open, *callee, 8) && operator_at(
                tokens,
                open,
                Operator::OpenParen,
            ) && arguments_span(tokens, open + 1, to - 1, arguments@, arguments.len() as nat))
    } else {
        (to == from + 1 && atom_at(tokens, from, e)) || (operator_at(
            tokens,
            from,
            Operator::OpenParen,
        ) && operator_at(tokens, to - 1, Operator::CloseParen) && spans(
            tokens,
            from + 1,
            to - 1,
            e,
            0,
        ))
    }
}

/// Whether the tokens from `from` up to `to` spell the first `n` of the
/// arguments `arguments`, with a comma between each two.
pub open spec fn arguments_span(
    tokens: Seq<Token>,
    from: int,
    to: int,
    arguments: Seq<Expr>,
    n: nat,
) -> bool
    decreases to - from, 11int,
{
    if n > arguments.len() || from < 0 || to > tokens.len() || from > to {
        false
    } else if n == 0 {
        from == to
    } else if n == 1 {
        spans(tokens, from, to, arguments[0], 0)
    } else {
        exists|comma: int|
            #[trigger] divides(comma) && from < comma < to - 1 && arguments_span(
                tokens,
                from,
                comma,
                arguments,
                (n - 1) as nat,
            ) && 0 <= comma < tokens.len() && tokens[comma] == Token::Comma && spans(
                tokens,
                comma + 1,
                to,
                arguments[n - 1],
                0,
            )
    }
}

/// What is wrong at `at`: the tokens end there, or the token there cannot
/// stand where it stands.
pub open spec fn trouble_at(tokens: Seq<Token>, at: int) -> ParseError {
    if 0 <= at < tokens.len() {
        ParseError::UnexpectedToken(at as usize)
    } else {
        ParseError::UnexpectedEnd
    }
}

/// Whether the token at `at` spells an expression by itself: a literal
/// or a name.
pub open spec fn is_atom(tokens: Seq<Token>, at: int) -> bool {
    0 <= at < tokens.len() && match tokens[at] {
        Token::LiteralInteger(_) => true,
        Token::LiteralFloat(_) => true,
        Token::LiteralString(_) => true,
        Token::Identifier(_) => true,
        Token::True => true,
        Token::False => true,
        Token::NoneValue => true,
        _ => false,
    }
}

/// The operator that the token at `at` is, if it is one.
pub open spec fn operator_spelled(tokens: Seq<Token>, at: int) -> Option<Operator> {
    if 0 <= at < tokens.len() {
        match tokens[at] {
            Token::Operator(op) => Some(op),
            _ => None,
        }
    } else {
        None
    }
}

/// A reach that lies behind `at` and within the first `limit` tokens, as
/// every reach of something that begins at `at` does, since it holds a
/// token at least.
pub open spec fn onward(r: Result<int, ParseError>, at: int, limit: int) -> Result<
    int,
    ParseError,
> {
    match r {
        Ok(next) => if at < next <= limit {
            r
        } else {
            Err(ParseError::UnexpectedEnd)
        },
        Err(_) => r,
    }
}

/// How far the expression of the level `level` that begins at `at`
/// reaches, read from the left and as far as it goes: the index behind
/// its last token, or what is wrong where the reading cannot go on.
///
/// `not`, and further in a sign, is read with the operand behind it. A
/// call is read as what is called with every list of arguments between
/// parentheses that follows. At the level of an operator between
/// operands, an operand of the next level is read with every operator of
/// the level and operand of the next level that follow: once such an
/// operator is read, its right operand is owed. Without such a prefix or
/// operator, the expression is one of the next level.
pub open spec fn level_reach(tokens: Seq<Token>, at: int, level: int) -> Result<int, ParseError>
    decreases tokens.len() - at, 10 - level,
{
    if at < 0 || level < 0 || level > 9 || at >= tokens.len() {
        Err(ParseError::UnexpectedEnd)
    } else if level == 2 {
        if operator_at(tokens, at, Operator::Not) {
            level_reach(tokens, at + 1, 2)
        } else {
            level_reach(tokens, at, 3)
        }
    } else if level == 7 {
        if operator_at(tokens, at, Operator::Plus) || operator_at(tokens, at, Operator::Minus) {
            level_reach(tokens, at + 1, 7)
        } else {
            level_reach(tokens, at, 8)
        }
    } else if level == 8 {
        match onward(level_reach(tokens, at, 9), at, tokens.len() as int) {
            Ok(next) => calls_reach(tokens, next),
            Err(e) => Err(e),
        }
    } else if level == 9 {
        if is_atom(tokens, at) {
            Ok(at + 1)
        } else if operator_at(tokens, at, Operator::OpenParen) {
            match level_reach(tokens, at + 1, 0) {
                Ok(next) => if operator_at(tokens, next, Operator::CloseParen) {
                    Ok(next + 1)
                } else {
                    Err(trouble_at(tokens, next))
                },
                Err(e) => Err(e),
            }
        } else {
            Err(ParseError::UnexpectedToken(at as usize))
        }
    } else {
        match onward(level_reach(tokens, at, level + 1), at, tokens.len() as int) {
            Ok(next) => operators_reach(tokens, next, level),
            Err(e) => Err(e),
        }
    }
}

/// How far the lists of arguments reach that follow what is called,
/// which ends at `next`: one list between parentheses after the other.
pub open spec fn calls_reach(tokens: Seq<Token>, next: int) -> Result<int, ParseError>
    decreases tokens.len() - next, 0int,
{
    if operator_at(tokens, next, Operator::OpenParen) {
        match onward(arguments_reach(tokens, next + 1), next, tokens.len() as int - 1) {
            Ok(close) => calls_reach(tokens, close + 1),
            Err(e) => Err(e),
        }
    } else {
        Ok(next)
    }
}

/// How far the operators of the level `level`, each with its right
/// operand, reach that follow a left operand, which ends at `next`.
pub open spec fn operators_reach(tokens: Seq<Token>, next: int, level: int) -> Result<
    int,
    ParseError,
>
    decreases tokens.len() - next, 0int,
{
    match operator_spelled(tokens, next) {
        Some(op) => if binary_level(op) == Some(level) && 0 <= level <= 8 {
            match onward(
                level_reach(tokens, next + 1, level + 1),
                next + 1,
                tokens.len() as int,
            ) {
                Ok(after) => operators_reach(tokens, after, level),
                Err(e) => Err(e),
            }
        } else {
            Ok(next)
        },
        None => Ok(next),
    }
}

/// Where the arguments of a call end that begin at `from`, behind the
/// opening parenthesis: the index of the closing parenthesis.
pub open spec fn arguments_reach(tokens: Seq<Token>, from: int) -> Result<int, ParseError>
    decreases tokens.len() - from, 11int,
{
    if operator_at(tokens, from, Operator::CloseParen) {
        Ok(from)
    } else {
        match onward(level_reach(tokens, from, 0), from, tokens.len() as int) {
            Ok(after) => more_arguments_reach(tokens, after),
            Err(e) => Err(e),
        }
    }
}

/// Where the arguments of a call end of which one ends at `next`: at a
/// closing parenthesis there, or behind a comma and one more argument.
pub open spec fn more_arguments_reach(tokens: Seq<Token>, next: int) -> Result<int, ParseError>
    decreases tokens.len() - next, 0int,
{
    if next < 0 || next >= tokens.len() {
        Err(ParseError::UnexpectedEnd)
    } else if tokens[next] == Token::Operator(Operator::CloseParen) {
        Ok(next)
    } else if tokens[next] == Token::Comma {
        match onward(level_reach(tokens, next + 1, 0), next + 1, tokens.len() as int) {
            Ok(after) => more_arguments_reach(tokens, after),
            Err(e) => Err(e),
        }
    } else {
        Err(ParseError::UnexpectedToken(next as usize))
    }
}

/// The level of an operator between two operands.
fn operator_level(op: Operator) -> (r: Option<u8>)
    ensures
        match r {
            Some(level) => binary_level(op) == Some(level as int),
            None => binary_level(op) is None,
        },
{
    match op {
        Operator::Or => Some(0),
        Operator::And => Some(1),
        Operator::Equals => Some(3),
        Operator::NotEquals => Some(3),
        Operator::Less => Some(3),
        Operator::Greater => Some(3),
        Operator::LessEquals => Some(3),
        Operator::GreaterEquals => Some(3),
        Operator::Xor => Some(4),
        Operator::Plus => Some(5),
        Operator::Minus => Some(5),
        Operator::Multiply => Some(6),
        Operator::Divide => Some(6),
        Operator::Mod => Some(6),
        _ => None,
    }
}

/// The operator that the token at `at` is, if it is one.
fn operator_of(tokens: &Vec<Token>, at: usize) -> (r: Option<Operator>)
    ensures
        r == operator_spelled(tokens@, at as int),
        match r {
            Some(op) => operator_at(tokens@, at as int, op),
            None => forall|op: Operator| !operator_at(tokens@, at as int, op),
        },
{
    if at < tokens.len() {
        match &tokens[at] {
            Token::Operator(op) => Some(*op),
            _ => None,
        }
    } else {
        None
    }
}

/// What went wrong at `at`: the end of the tokens, or a token that cannot
/// stand there.
fn unexpected(tokens: &Vec<Token>, at: usize) -> (r: ParseError)
    ensures
        r == trouble_at(tokens@, at as int),
{
    if at < tokens.len() {
        ParseError::UnexpectedToken(at)
    } else {
        ParseError::UnexpectedEnd
    }
}

/// The expression that the token at `at` spells by itself.
fn parse_atom(tokens: &Vec<Token>, at: usize) -> (r: Option<Expr>)
    ensures
        r is Some <==> is_atom(tokens@, at as int),
        match r {
            Some(e) => atom_at(tokens@, at as int, e) && expr_supported(e),
            None => forall|e: Expr| !atom_at(tokens@, at as int, e),
        },
{
    if at >= tokens.len() {
        return None;
    }
    match &tokens[at] {
        Token::LiteralInteger(i) => Some(Expr::IntegerValue(*i)),
        Token::LiteralFloat(f) => Some(Expr::FloatValue(*f)),
        Token::LiteralString(s) => Some(Expr::StringValue(s.clone())),
        Token::Identifier(name) => Some(Expr::Variable(name.clone())),
        Token::True => Some(Expr::BooleanValue(true)),
        Token::False => Some(Expr::BooleanValue(false)),
        Token::NoneValue => Some(Expr::NoneValue),
        _ => None,
    }
}

/// Parses the expression of the level `level` that begins at `at`, as far
/// as it goes: the expression, and the index behind its last token.
pub fn parse_level(tokens: &Vec<Token>, at: usize, level: u8) -> (r: Result<(Expr, usize), ParseError>)
    requires
        level <= 9,
    ensures
        match r {
            Ok((e, next)) => level_reach(tokens@, at as int, level as int) == Ok::<
                int,
                ParseError,
            >(next as int) && at < next <= tokens.len() && spans(
                tokens@,
                at as int,
                next as int,
                e,
                level as int,
            ) && expr_supported(e),
            Err(error) => level_reach(tokens@, at as int, level as int) == Err::<int, ParseError>(
                error,
            ),
        },
    decreases tokens.len() - at, 10 - level,
{
    if at >= tokens.len() {
        return Err(ParseError::UnexpectedEnd);
    }
    if level == 2 {
        match operator_of(tokens, at) {
            Some(Operator::Not) => {
                let (operand, next) = match parse_level(tokens, at + 1, 2) {
                    Ok(found) => found,
                    Err(e) => {
                        return Err(e);
                    },
                };
                Ok((Expr::UnaryExpression(Operator::Not, Box::new(operand)), next))
            },
            _ => parse_level(tokens, at, 3),
        }
    } else if level == 7 {
        match operator_of(tokens, at) {
            Some(Operator::Plus) => {
                let (operand, next) = match parse_level(tokens, at + 1, 7) {
                    Ok(found) => found,
                    Err(e) => {
                        return Err(e);
                    },
                };
                Ok((Expr::UnaryExpression(Operator::Plus, Box::new(operand)), next))
            },
            Some(Operator::Minus) => {
                let (operand, next) = match parse_level(tokens, at + 1, 7) {
                    Ok(found) => found,
                    Err(e) => {
                        return Err(e);
                    },
                };
                Ok((Expr::UnaryExpression(Operator::Minus, Box::new(operand)), next))
            },
            _ => parse_level(tokens, at, 8),
        }
    } else if level == 8 {
        let (first, after) = match parse_level(tokens, at, 9) {
            Ok(found) => found,
            Err(e) => {
                return Err(e);
            },
        };
        let mut callee = first;
        let mut next = after;
        loop
            invariant
                level == 8,
                at < next <= tokens.len(),
                spans(tokens@, at as int, next as int, callee, 8),
                expr_supported(callee),
                level_reach(tokens@, at as int, 8) == calls_reach(tokens@, next as int),
            decreases tokens.len() - next,
        {
            match operator_of(tokens, next) {
                Some(Operator::OpenParen) => {},
                _ => {
                    return Ok((callee, next));
                },
            }
            let (arguments, close) = match parse_arguments(tokens, next + 1) {
                Ok(found) => found,
                Err(e) => {
                    return Err(e);
                },
            };
            let ghost open = next as int;
            let ghost inner = callee;
            callee = Expr::FunctionCall(Box::new(callee), arguments);
            next = close + 1;
            proof {
                reveal_with_fuel(spans, 2);
                assert(spans(tokens@, at as int, open, inner, 8));
                assert(operator_at(tokens@, open, Operator::OpenParen));
                assert(divides(open));
                assert(operator_at(tokens@, next - 1, Operator::CloseParen));
                assert(spans(tokens@, at as int, next as int, callee, 8));
            }
        }
    } else if level == 9 {
        match parse_atom(tokens, at) {
            Some(e) => {
                return Ok((e, at + 1));
            },
            None => {},
        }
        match operator_of(tokens, at) {
            Some(Operator::OpenParen) => {},
            _ => {
                return Err(ParseError::UnexpectedToken(at));
            },
        }
        let (e, next) = match parse_level(tokens, at + 1, 0) {
            Ok(found) => found,
            Err(e) => {
                return Err(e);
            },
        };
        match operator_of(tokens, next) {
            Some(Operator::CloseParen) => Ok((e, next + 1)),
            _ => Err(unexpected(tokens, next)),
        }
    } else {
        let (first, after) = match parse_level(tokens, at, level + 1) {
            Ok(found) => found,
            Err(e) => {
                return Err(e);
            },
        };
        let mut left = first;
        let mut next = after;
        loop
            invariant
                at < next <= tokens.len(),
                level <= 6,
                is_binary_level(level as int),
                spans(tokens@, at as int, next as int, left, level as int),
                expr_supported(left),
                level_reach(tokens@, at as int, level as int) == operators_reach(
                    tokens@,
                    next as int,
                    level as int,
                ),
            decreases tokens.len() - next,
        {
            let op = match operator_of(tokens, next) {
                Some(op) => op,
                None => {
                    return Ok((left, next));
                },
            };
            match operator_level(op) {
                Some(found) => {
                    if found != level {
                        return Ok((left, next));
                    }
                },
                None => {
                    return Ok((left, next));
                },
            }
            let (right, after) = match parse_level(tokens, next + 1, level + 1) {
                Ok(found) => found,
                Err(e) => {
                    return Err(e);
                },
            };
            let ghost mid = next as int;
            let ghost lhs = left;
            let ghost right_value = right;
            left = Expr::BinaryOperation(Box::new(left), op, Box::new(right));
            next = after;
            proof {
                reveal_with_fuel(spans, 2);
                assert(spans(tokens@, at as int, mid, lhs, level as int));
                assert(operator_at(tokens@, mid, op));
                assert(divides(mid));
                assert(spans(tokens@, mid + 1, next as int, right_value, level + 1));
                assert(spans(tokens@, at as int, next as int, left, level as int));
            }
        }
    }
}

/// Parses the arguments of a call that begin at `from`, behind the
/// opening parenthesis: the arguments, and the index of the closing
/// parenthesis.
pub fn parse_arguments(tokens: &Vec<Token>, from: usize) -> (r: Result<(Vec<Expr>, usize), ParseError>)
    ensures
        match r {
            Ok((arguments, close)) => arguments_reach(tokens@, from as int) == Ok::<
                int,
                ParseError,
            >(close as int) && from <= close < tokens.len() && operator_at(
                tokens@,
                close as int,
                Operator::CloseParen,
            ) && arguments_span(
                tokens@,
                from as int,
                close as int,
                arguments@,
                arguments.len() as nat,
            ) && forall|k: int|
                0 <= k < arguments.len() ==> expr_supported(#[trigger] arguments[k]),
            Err(error) => arguments_reach(tokens@, from as int) == Err::<int, ParseError>(error),
        },
    decreases tokens.len() - from, 11int,
{
    let mut arguments: Vec<Expr> = Vec::new();
    match operator_of(tokens, from) {
        Some(Operator::CloseParen) => {
            return Ok((arguments, from));
        },
        _ => {},
    }
    let (first, after) = match parse_level(tokens, from, 0) {
        Ok(found) => found,
        Err(e) => {
            return Err(e);
        },
    };
    arguments.push(first);
    let mut next = after;
    loop
        invariant
            from < next <= tokens.len(),
            arguments.len() >= 1,
            arguments_reach(tokens@, from as int) == more_arguments_reach(tokens@, next as int),
            arguments_span(
                tokens@,
                from as int,
                next as int,
                arguments@,
                arguments.len() as nat,
            ),
            forall|k: int| 0 <= k < arguments.len() ==> expr_supported(#[trigger] arguments[k]),
        decreases tokens.len() - next,
    {
        if next >= tokens.len() {
            return Err(ParseError::UnexpectedEnd);
        }
        match &tokens[next] {
            Token::Operator(Operator::CloseParen) => {
                return Ok((arguments, next));
            },
            Token::Comma => {},
            _ => {
                return Err(ParseError::UnexpectedToken(next));
            },
        }
        let (argument, after) = match parse_level(tokens, next + 1, 0) {
            Ok(found) => found,
            Err(e) => {
                return Err(e);
            },
        };
        let ghost comma = next as int;
        let ghost before = arguments@;
        let ghost argument_value = argument;
        arguments.push(argument);
        next = after;
        proof {
            reveal_with_fuel(arguments_span, 2);
            assert(arguments_span(tokens@, from as int, comma, before, before.len()));
            lemma_arguments_kept(tokens@, from as int, comma, before, arguments@, before.len());
            assert(arguments@[arguments.len() - 1] == argument_value);
            assert(spans(tokens@, comma + 1, next as int, argument_value, 0));
            assert(divides(comma));
            assert(arguments_span(
                tokens@,
                from as int,
                next as int,
                arguments@,
                arguments.len() as nat,
            ));
        }
    }
}

/// What spells the first `n` arguments of a list spells the first `n` of
/// any list that begins with them.
proof fn lemma_arguments_kept(
    tokens: Seq<Token>,
    from: int,
    to: int,
    few: Seq<Expr>,
    more: Seq<Expr>,
    n: nat,
)
    requires
        n <= few.len() <= more.len(),
        forall|k: int| 0 <= k < n ==> few[k] == more[k],
        arguments_span(tokens, from, to, few, n),
    ensures
        arguments_span(tokens, from, to, more, n),
    decreases n,
{
    reveal_with_fuel(arguments_span, 2);
    if n >= 2 {
        let comma = choose|comma: int|
            #[trigger] divides(comma) && from < comma < to - 1 && arguments_span(
                tokens,
                from,
                comma,
                few,
                (n - 1) as nat,
            ) && 0 <= comma < tokens.len() && tokens[comma] == Token::Comma && spans(
                tokens,
                comma + 1,
                to,
                few[n - 1],
                0,
            );
        lemma_arguments_kept(tokens, from, comma, few, more, (n - 1) as nat);
        assert(divides(comma));
    }
}

/// Two places at which a rule of the grammar divides the tokens.
pub open spec fn divides_twice(first: int, second: int) -> bool {
    true
}

/// Three places at which a rule of the grammar divides the tokens.
pub open spec fn divides_thrice(first: int, second: int, third: int) -> bool {
    true
}

/// Whether the token at `at` is `token`, which carries nothing.
pub open spec fn token_at(tokens: Seq<Token>, at: int, token: Token) -> bool {
    0 <= at < tokens.len() && tokens[at] == token
}

/// Whether the tokens from `from` up to `to` are indentations.
pub open spec fn indented(tokens: Seq<Token>, from: int, to: int) -> bool {
    0 <= from <= to <= tokens.len() && forall|k: int|
        from <= k < to ==> #[trigger] tokens[k] == Token::Indentation
}

/// Whether the tokens from `from` up to `to` are lines that hold nothing
/// but indentation.
pub open spec fn blank_lines(tokens: Seq<Token>, from: int, to: int) -> bool
    decreases to - from,
{
    from == to || (from < to && exists|end: int|
        #[trigger] divides(end) && from <= end < to && indented(tokens, from, end) && token_at(
            tokens,
            end,
            Token::NewLine,
        ) && blank_lines(tokens, end + 1, to))
}

/// Whether `start` is the first token of the first line from `from` on
/// that holds more than indentation, and the line is indented `level`
/// times.
pub open spec fn line_begins(tokens: Seq<Token>, from: int, start: int, level: int) -> bool {
    exists|line: int|
        #[trigger] divides(line) && blank_lines(tokens, from, line) && start == line + level
            && indented(tokens, line, start) && 0 <= start < tokens.len() && tokens[start]
            != Token::Indentation && tokens[start] != Token::NewLine
}

/// Whether the tokens from `from` up to `to` spell the statement `s`,
/// which is `break`, an assignment to a name, or an expression.
pub open spec fn simple_spans(tokens: Seq<Token>, from: int, to: int, s: AST) -> bool {
    match s {
        AST::Break => to == from + 1 && token_at(tokens, from, Token::BreakKeyword),
        AST::Assign { path, expression } => path.len() == 1 && token_at(
            tokens,
            from,
            Token::Identifier(path[0]),
        ) && token_at(tokens, from + 1, Token::Assign) && spans(tokens, from + 2, to, expression, 0),
        AST::StandaloneExpr(e) => spans(tokens, from, to, e, 0),
        _ => false,
    }
}

/// Whether the tokens from `from` up to `to` spell the statement `s` of a
/// block of the level `level`.
///
/// A loop is `while`, its condition, a colon and its body. A choice is
/// `if`, a condition, a colon and a body, followed by its `elif`s, which
/// are spelled like it, and by `else`, a colon and a body, if it has one;
/// each of them begins a line of its own at the level of the `if`.
pub open spec fn statement_spans(tokens: Seq<Token>, from: int, to: int, s: AST, level: int) -> bool
    decreases to - from, 2int, 0int,
{
    if from < 0 || from >= to || to > tokens.len() {
        false
    } else {
        match s {
            AST::WhileStatement { expression, body } => token_at(
                tokens,
                from,
                Token::WhileKeyword,
            ) && exists|colon: int|
                #[trigger] divides(colon) && from < colon < to && spans(
                    tokens,
                    from + 1,
                    colon,
                    expression,
                    0,
                ) && token_at(tokens, colon, Token::Colon) && body_spans(
                    tokens,
                    colon + 1,
                    to,
                    body@,
                    level,
                ),
            AST::IfStatement { true_branch, elifs, final_else } => token_at(
                tokens,
                from,
                Token::IfKeyword,
            ) && exists|colon: int, end: int|
                #[trigger] divides_twice(colon, end) && from < colon < end <= to && spans(
                    tokens,
                    from + 1,
                    colon,
                    true_branch.expression,
                    0,
                ) && token_at(tokens, colon, Token::Colon) && body_spans(
                    tokens,
                    colon + 1,
                    end,
                    true_branch.statements@,
                    level,
                ) && branches_span(tokens, end, to, elifs@, final_else, level),
            _ => simple_spans(tokens, from, to, s),
        }
    }
}

/// Whether the tokens from `from`, the end of a body, up to `to` spell
/// the `elif`s `elifs` and the `else`.
pub open spec fn branches_span(
    tokens: Seq<Token>,
    from: int,
    to: int,
    elifs: Seq<ASTIfStatement>,
    final_else: Option<Vec<AST>>,
    level: int,
) -> bool
    decreases to - from, 1int, elifs.len(),
{
    if from < 0 || from > to || to > tokens.len() {
        false
    } else if elifs.len() > 0 {
        token_at(tokens, from, Token::NewLine) && exists|start: int, colon: int, end: int|
            #[trigger] divides_thrice(start, colon, end) && from < start < colon < end <= to
                && line_begins(tokens, from + 1, start, level) && token_at(
                tokens,
                start,
                Token::ElifKeyword,
            ) && spans(tokens, start + 1, colon, elifs[0].expression, 0) && token_at(
                tokens,
                colon,
                Token::Colon,
            ) && body_spans(tokens, colon + 1, end, elifs[0].statements@, level) && branches_span(
                tokens,
                end,
                to,
                elifs.drop_first(),
                final_else,
                level,
            )
    } else {
        match final_else {
            Some(stmts) => token_at(tokens, from, Token::NewLine) && exists|start: int|
                #[trigger] divides(start) && from < start < to - 1 && line_begins(
                    tokens,
                    from + 1,
                    start,
                    level,
                ) && token_at(tokens, start, Token::ElseKeyword) && token_at(
                    tokens,
                    start + 1,
                    Token::Colon,
                ) && body_spans(tokens, start + 2, to, stmts@, level),
            None => from == to,
        }
    }
}

/// Whether the tokens from `from`, behind a colon, up to `to` spell the
/// body `stmts` of a statement at the level `level`: one statement on the
/// same line, or a block of lines that are indented once more.
pub open spec fn body_spans(tokens: Seq<Token>, from: int, to: int, stmts: Seq<AST>, level: int) -> bool
    decreases to - from, 4int, 0int,
{
    if from < 0 || from >= to || to > tokens.len() {
        false
    } else {
        (stmts.len() == 1 && simple_spans(tokens, from, to, stmts[0])) || (token_at(
            tokens,
            from,
            Token::NewLine,
        ) && block_spans(tokens, from + 1, to, stmts, stmts.len(), level + 1))
    }
}

/// Whether the tokens from `from`, the beginning of a line, up to `to`
/// spell the first `n` statements of `stmts`, of which there is at least
/// one, each on a line of its own that is indented `level` times, with
/// lines that hold nothing in between.
pub open spec fn block_spans(
    tokens: Seq<Token>,
    from: int,
    to: int,
    stmts: Seq<AST>,
    n: nat,
    level: int,
) -> bool
    decreases to - from, 3int, 0int,
{
    if from < 0 || from >= to || to > tokens.len() || n == 0 || n > stmts.len() {
        false
    } else if n == 1 {
        exists|start: int|
            #[trigger] divides(start) && from <= start < to && line_begins(
                tokens,
                from,
                start,
                level,
            ) && statement_spans(tokens, start, to, stmts[0], level)
    } else {
        exists|before: int, start: int|
            #[trigger] divides_twice(before, start) && from < before < start < to && block_spans(
                tokens,
                from,
                before,
                stmts,
                (n - 1) as nat,
                level,
            ) && token_at(tokens, before, Token::NewLine) && line_begins(
                tokens,
                before + 1,
                start,
                level,
            ) && statement_spans(tokens, start, to, stmts[n - 1], level)
    }
}

/// Whether the tokens spell the program `stmts`: its statements as a
/// block that is not indented, with at most lines that hold nothing
/// behind it; or nothing but such lines, for the empty program.
pub open spec fn program_spans(tokens: Seq<Token>, stmts: Seq<AST>) -> bool {
    if stmts.len() == 0 {
        exists|end: int|
            #[trigger] divides(end) && blank_lines(tokens, 0, end) && indented(
                tokens,
                end,
                tokens.len() as int,
            )
    } else {
        exists|to: int, end: int|
            #[trigger] divides_twice(to, end) && block_spans(tokens, 0, to, stmts, stmts.len(), 0)
                && (to == tokens.len() || (token_at(tokens, to, Token::NewLine) && blank_lines(
                tokens,
                to + 1,
                end,
            ) && indented(tokens, end, tokens.len() as int)))
    }
}

/// The first line from `at` on that holds more than indentation, where
/// `line` is the beginning of the line that `at` is on and only
/// indentation stands between them: where the line begins, and its first
/// token behind the indentation. There is none if only indentation and
/// line breaks follow.
pub open spec fn line_from(tokens: Seq<Token>, line: int, at: int) -> Option<(int, int)>
    decreases tokens.len() - at,
{
    if at < 0 || at >= tokens.len() {
        None
    } else if tokens[at] == Token::Indentation {
        line_from(tokens, line, at + 1)
    } else if tokens[at] == Token::NewLine {
        line_from(tokens, at + 1, at + 1)
    } else {
        Some((line, at))
    }
}

/// The first line from `from` on, the beginning of a line, that holds
/// more than indentation.
pub open spec fn first_line(tokens: Seq<Token>, from: int) -> Option<(int, int)> {
    match line_from(tokens, from, from) {
        Some((line, start)) => if from <= line <= start < tokens.len() {
            Some((line, start))
        } else {
            None
        },
        None => None,
    }
}

/// How far the statement reaches that begins at `at` and holds no other:
/// `break` is one token; a name in front of `=` is assigned the
/// expression behind it; anything else is read as an expression.
pub open spec fn simple_reach(tokens: Seq<Token>, at: int) -> Result<int, ParseError> {
    if at < 0 || at >= tokens.len() {
        Err(ParseError::UnexpectedEnd)
    } else if tokens[at] == Token::BreakKeyword {
        Ok(at + 1)
    } else if tokens[at] is Identifier && token_at(tokens, at + 1, Token::Assign) {
        level_reach(tokens, at + 2, 0)
    } else {
        level_reach(tokens, at, 0)
    }
}

/// How far the body reaches that begins at `at`, behind a colon: a line
/// break begins a block of lines that are indented once more, of which
/// there must be one; anything else is one statement on the same line.
pub open spec fn body_reach(tokens: Seq<Token>, at: int, level: int) -> Result<int, ParseError>
    decreases tokens.len() - at, 4int,
{
    if at < 0 || at >= tokens.len() {
        Err(ParseError::UnexpectedEnd)
    } else if tokens[at] == Token::NewLine {
        if level >= usize::MAX {
            Err(ParseError::Indentation(at as usize))
        } else {
            match block_reach(tokens, 0, at + 1, at + 1, level + 1) {
                Ok((count, end)) => if count == 0 {
                    Err(trouble_at(tokens, at + 1))
                } else {
                    Ok(end)
                },
                Err(e) => Err(e),
            }
        }
    } else {
        simple_reach(tokens, at)
    }
}

/// How many statements a block of the level `level` holds and how far it
/// reaches, of which `count` statements are read, which end at `end`,
/// and which goes on at `line_start`, the beginning of a line.
///
/// The block ends in front of a line that is indented less, and where
/// only lines that hold nothing follow. A line that is indented more is
/// wrong. Behind a statement the tokens end or a line break follows.
pub open spec fn block_reach(
    tokens: Seq<Token>,
    count: nat,
    end: int,
    line_start: int,
    level: int,
) -> Result<(nat, int), ParseError>
    decreases tokens.len() - line_start, 3int,
{
    match first_line(tokens, line_start) {
        None => Ok((count, end)),
        Some((line, start)) => if start - line < level {
            Ok((count, end))
        } else if start - line > level {
            Err(ParseError::Indentation(start as usize))
        } else {
            match onward(statement_reach(tokens, start, level), start, tokens.len() as int) {
                Err(e) => Err(e),
                Ok(after) => if after >= tokens.len() {
                    Ok((count + 1, after))
                } else if tokens[after] != Token::NewLine {
                    Err(ParseError::UnexpectedToken(after as usize))
                } else {
                    block_reach(tokens, count + 1, after, after + 1, level)
                },
            }
        },
    }
}

/// How far the `elif`s and the `else` reach that follow a body which
/// ends at `from`: each begins the next line that holds more than
/// indentation, at the level `level`; without such a line there are
/// none.
pub open spec fn branches_reach(tokens: Seq<Token>, from: int, level: int) -> Result<
    int,
    ParseError,
>
    decreases tokens.len() - from, 1int,
{
    if !token_at(tokens, from, Token::NewLine) {
        Ok(from)
    } else {
        match first_line(tokens, from + 1) {
            None => Ok(from),
            Some((line, start)) => if start - line != level {
                Ok(from)
            } else if tokens[start] == Token::ElifKeyword {
                match onward(level_reach(tokens, start + 1, 0), start + 1, tokens.len() as int) {
                    Err(e) => Err(e),
                    Ok(colon) => if !token_at(tokens, colon, Token::Colon) {
                        Err(trouble_at(tokens, colon))
                    } else {
                        match onward(
                            body_reach(tokens, colon + 1, level),
                            colon + 1,
                            tokens.len() as int,
                        ) {
                            Err(e) => Err(e),
                            Ok(end) => branches_reach(tokens, end, level),
                        }
                    },
                }
            } else if tokens[start] == Token::ElseKeyword {
                if !token_at(tokens, start + 1, Token::Colon) {
                    Err(trouble_at(tokens, start + 1))
                } else {
                    body_reach(tokens, start + 2, level)
                }
            } else {
                Ok(from)
            },
        }
    }
}

/// How far the statement of a block of the level `level` reaches that
/// begins at `at`: `while` and `if` are followed by a condition, a colon
/// and a body, `if` also by its `elif`s and its `else`; anything else is
/// a statement that holds no other.
pub open spec fn statement_reach(tokens: Seq<Token>, at: int, level: int) -> Result<
    int,
    ParseError,
>
    decreases tokens.len() - at, 2int,
{
    if at < 0 || at >= tokens.len() {
        Err(ParseError::UnexpectedEnd)
    } else if tokens[at] == Token::WhileKeyword || tokens[at] == Token::IfKeyword {
        match onward(level_reach(tokens, at + 1, 0), at + 1, tokens.len() as int) {
            Err(e) => Err(e),
            Ok(colon) => if !token_at(tokens, colon, Token::Colon) {
                Err(trouble_at(tokens, colon))
            } else if tokens[at] == Token::WhileKeyword {
                body_reach(tokens, colon + 1, level)
            } else {
                match onward(body_reach(tokens, colon + 1, level), colon + 1, tokens.len() as int) {
                    Err(e) => Err(e),
                    Ok(end) => branches_reach(tokens, end, level),
                }
            },
        }
    } else {
        simple_reach(tokens, at)
    }
}

/// What is wrong with the tokens as a program, if anything: what is
/// wrong with the block of its statements, which are not indented; or
/// what follows the block, which can only be lines that hold nothing.
pub open spec fn program_trouble(tokens: Seq<Token>) -> Option<ParseError> {
    match block_reach(tokens, 0, 0, 0, 0) {
        Err(e) => Some(e),
        Ok((count, end)) => if count == 0 {
            match first_line(tokens, 0) {
                Some((_, start)) => Some(ParseError::Indentation(start as usize)),
                None => None,
            }
        } else if end >= tokens.len() {
            None
        } else if tokens[end] != Token::NewLine {
            Some(ParseError::UnexpectedToken(end as usize))
        } else {
            match first_line(tokens, end + 1) {
                Some((_, start)) => Some(ParseError::Indentation(start as usize)),
                None => None,
            }
        },
    }
}

/// Indentation does not begin a line's tokens.
proof fn lemma_line_from_indented(tokens: Seq<Token>, line: int, from: int, to: int)
    requires
        indented(tokens, from, to),
    ensures
        line_from(tokens, line, from) == line_from(tokens, line, to),
    decreases to - from,
{
    if from < to {
        assert(tokens[from] == Token::Indentation);
        lemma_line_from_indented(tokens, line, from + 1, to);
    }
}

/// Whether the token at `at` is a line break.
fn is_newline(tokens: &Vec<Token>, at: usize) -> (r: bool)
    ensures
        r == token_at(tokens@, at as int, Token::NewLine),
{
    at < tokens.len() && match &tokens[at] {
        Token::NewLine => true,
        _ => false,
    }
}

/// Whether the token at `at` is a colon.
fn is_colon(tokens: &Vec<Token>, at: usize) -> (r: bool)
    ensures
        r == token_at(tokens@, at as int, Token::Colon),
{
    at < tokens.len() && match &tokens[at] {
        Token::Colon => true,
        _ => false,
    }
}

/// The end of the run of indentations from `from` on.
fn skip_indentation(tokens: &Vec<Token>, from: usize) -> (end: usize)
    requires
        from <= tokens.len(),
    ensures
        from <= end <= tokens.len(),
        indented(tokens@, from as int, end as int),
        end < tokens.len() ==> tokens[end as int] != Token::Indentation,
{
    let mut end = from;
    while end < tokens.len()
        invariant
            from <= end <= tokens.len(),
            indented(tokens@, from as int, end as int),
        decreases tokens.len() - end,
    {
        match &tokens[end] {
            Token::Indentation => {},
            _ => {
                return end;
            },
        }
        end += 1;
    }
    end
}

/// Lines that hold nothing, followed by one more, are lines that hold
/// nothing.
proof fn lemma_blank_lines_extend(tokens: Seq<Token>, from: int, line: int, end: int)
    requires
        blank_lines(tokens, from, line),
        from <= line <= end,
        indented(tokens, line, end),
        token_at(tokens, end, Token::NewLine),
    ensures
        blank_lines(tokens, from, end + 1),
    decreases line - from,
{
    if from == line {
        assert(divides(end));
        assert(blank_lines(tokens, end + 1, end + 1));
    } else {
        let first = choose|first: int|
            #[trigger] divides(first) && from <= first < line && indented(tokens, from, first)
                && token_at(tokens, first, Token::NewLine) && blank_lines(tokens, first + 1, line);
        lemma_blank_lines_extend(tokens, first + 1, line, end);
        assert(divides(first));
    }
}

/// The first line from `from` on, the beginning of a line, that holds
/// more than indentation: where it begins, and its first token behind the
/// indentation. There is none if only indentation and line breaks follow.
fn find_line(tokens: &Vec<Token>, from: usize) -> (r: Option<(usize, usize)>)
    requires
        from <= tokens.len(),
    ensures
        match r {
            Some((line, start)) => from <= line <= start < tokens.len() && blank_lines(
                tokens@,
                from as int,
                line as int,
            ) && indented(tokens@, line as int, start as int) && tokens[start as int]
                != Token::Indentation && tokens[start as int] != Token::NewLine,
            None => exists|end: int|
                #[trigger] divides(end) && from <= end <= tokens.len() && blank_lines(
                    tokens@,
                    from as int,
                    end,
                ) && indented(tokens@, end, tokens.len() as int),
        },
        match r {
            Some((line, start)) => first_line(tokens@, from as int) == Some(
                (line as int, start as int),
            ),
            None => first_line(tokens@, from as int) is None,
        },
{
    let mut line = from;
    loop
        invariant
            from <= line <= tokens.len(),
            blank_lines(tokens@, from as int, line as int),
            line_from(tokens@, from as int, from as int) == line_from(
                tokens@,
                line as int,
                line as int,
            ),
        decreases tokens.len() - line,
    {
        let start = skip_indentation(tokens, line);
        proof {
            lemma_line_from_indented(tokens@, line as int, line as int, start as int);
        }
        if start >= tokens.len() {
            assert(divides(line as int));
            return None;
        }
        if is_newline(tokens, start) {
            proof {
                lemma_blank_lines_extend(tokens@, from as int, line as int, start as int);
            }
            line = start + 1;
        } else {
            return Some((line, start));
        }
    }
}

/// A block that can be lowered, with one more statement that can be, can
/// be lowered.
proof fn lemma_supported_push(stmts: Seq<AST>, s: AST)
    requires
        block_supported(stmts, stmts.len()),
        stmt_supported(s),
    ensures
        block_supported(stmts.push(s), stmts.len() + 1),
{
    lemma_supported_kept(stmts, stmts.push(s), stmts.len());
}

/// Whether the first statements of a block can be lowered does not depend
/// on the statements behind them.
proof fn lemma_supported_kept(few: Seq<AST>, more: Seq<AST>, n: nat)
    requires
        n <= few.len() <= more.len(),
        forall|k: int| 0 <= k < n ==> few[k] == more[k],
        block_supported(few, n),
    ensures
        block_supported(more, n),
    decreases n,
{
    if n > 0 {
        lemma_supported_kept(few, more, (n - 1) as nat);
    }
}

/// What spells the first statements of a block spells them whatever
/// statements follow.
proof fn lemma_block_kept(
    tokens: Seq<Token>,
    from: int,
    to: int,
    few: Seq<AST>,
    more: Seq<AST>,
    n: nat,
    level: int,
)
    requires
        n <= few.len() <= more.len(),
        forall|k: int| 0 <= k < n ==> few[k] == more[k],
        block_spans(tokens, from, to, few, n, level),
    ensures
        block_spans(tokens, from, to, more, n, level),
    decreases n,
{
    if n == 1 {
        let start = choose|start: int|
            #[trigger] divides(start) && from <= start < to && line_begins(
                tokens,
                from,
                start,
                level,
            ) && statement_spans(tokens, start, to, few[0], level);
        assert(divides(start));
    } else if n >= 2 {
        let (before, start) = choose|before: int, start: int|
            #[trigger] divides_twice(before, start) && from < before < start < to && block_spans(
                tokens,
                from,
                before,
                few,
                (n - 1) as nat,
                level,
            ) && token_at(tokens, before, Token::NewLine) && line_begins(
                tokens,
                before + 1,
                start,
                level,
            ) && statement_spans(tokens, start, to, few[n - 1], level);
        lemma_block_kept(tokens, from, before, few, more, (n - 1) as nat, level);
        assert(divides_twice(before, start));
    }
}

/// Parses the statement that begins at `at` and holds no other: `break`,
/// an assignment to a name, or an expression.
pub fn parse_simple(tokens: &Vec<Token>, at: usize) -> (r: Result<(AST, usize), ParseError>)
    ensures
        match r {
            Ok((s, next)) => simple_reach(tokens@, at as int) == Ok::<int, ParseError>(
                next as int,
            ) && at < next <= tokens.len() && simple_spans(tokens@, at as int, next as int, s)
                && stmt_supported(s),
            Err(error) => simple_reach(tokens@, at as int) == Err::<int, ParseError>(error),
        },
{
    if at >= tokens.len() {
        return Err(ParseError::UnexpectedEnd);
    }
    match &tokens[at] {
        Token::BreakKeyword => {
            return Ok((AST::Break, at + 1));
        },
        Token::Identifier(name) => {
            let assigns = at + 1 < tokens.len() && match &tokens[at + 1] {
                Token::Assign => true,
                _ => false,
            };
            if assigns {
                let (expression, next) = match parse_level(tokens, at + 2, 0) {
                    Ok(found) => found,
                    Err(e) => {
                        return Err(e);
                    },
                };
                let mut path: Vec<String> = Vec::new();
                path.push(name.clone());
                return Ok((AST::Assign { path, expression }, next));
            }
        },
        _ => {},
    }
    match parse_level(tokens, at, 0) {
        Ok((e, next)) => Ok((AST::StandaloneExpr(e), next)),
        Err(e) => Err(e),
    }
}

/// Parses the body that begins at `at`, behind a colon: one statement on
/// the same line, or a block of lines that are indented once more.
pub fn parse_body(tokens: &Vec<Token>, at: usize, level: usize) -> (r: Result<
    (Vec<AST>, usize),
    ParseError,
>)
    ensures
        match r {
            Ok((stmts, end)) => body_reach(tokens@, at as int, level as int) == Ok::<
                int,
                ParseError,
            >(end as int) && at < end <= tokens.len() && body_spans(
                tokens@,
                at as int,
                end as int,
                stmts@,
                level as int,
            ) && block_supported(stmts@, stmts.len() as nat),
            Err(error) => body_reach(tokens@, at as int, level as int) == Err::<int, ParseError>(
                error,
            ),
        },
    decreases tokens.len() - at, 4int, 0int,
{
    if at >= tokens.len() {
        return Err(ParseError::UnexpectedEnd);
    }
    if is_newline(tokens, at) {
        if level == usize::MAX {
            return Err(ParseError::Indentation(at));
        }
        match parse_block(tokens, at + 1, level + 1) {
            Ok((stmts, end)) => {
                if stmts.len() == 0 {
                    Err(unexpected(tokens, at + 1))
                } else {
                    Ok((stmts, end))
                }
            },
            Err(e) => Err(e),
        }
    } else {
        match parse_simple(tokens, at) {
            Ok((s, next)) => {
                let mut stmts: Vec<AST> = Vec::new();
                stmts.push(s);
                proof {
                    lemma_supported_push(Seq::empty(), s);
                    assert(Seq::<AST>::empty().push(s) =~= stmts@);
                }
                Ok((stmts, next))
            },
            Err(e) => Err(e),
        }
    }
}

/// Parses the lines from `from` on, the beginning of a line, that are
/// indented `level` times, as far as they go: the statements, and the
/// index behind the last token of the last one. The block ends in front
/// of a line that is indented less, or at the end of the tokens.
pub fn parse_block(tokens: &Vec<Token>, from: usize, level: usize) -> (r: Result<
    (Vec<AST>, usize),
    ParseError,
>)
    requires
        from <= tokens.len(),
    ensures
        match r {
            Ok((stmts, end)) => block_reach(
                tokens@,
                0,
                from as int,
                from as int,
                level as int,
            ) == Ok::<(nat, int), ParseError>((stmts.len() as nat, end as int))
                && block_supported(stmts@, stmts.len() as nat) && if stmts.len() == 0 {
                end == from
            } else {
                from < end <= tokens.len() && block_spans(
                    tokens@,
                    from as int,
                    end as int,
                    stmts@,
                    stmts.len() as nat,
                    level as int,
                )
            },
            Err(error) => block_reach(tokens@, 0, from as int, from as int, level as int)
                == Err::<(nat, int), ParseError>(error),
        },
    decreases tokens.len() - from, 3int, 0int,
{
    let mut stmts: Vec<AST> = Vec::new();
    let mut end = from;
    let mut line_start = from;
    loop
        invariant
            from <= end <= tokens.len(),
            end <= line_start <= tokens.len(),
            block_reach(tokens@, 0, from as int, from as int, level as int) == block_reach(
                tokens@,
                stmts.len() as nat,
                end as int,
                line_start as int,
                level as int,
            ),
            block_supported(stmts@, stmts.len() as nat),
            stmts.len() == 0 ==> end == from && line_start == from,
            stmts.len() > 0 ==> from < end && block_spans(
                tokens@,
                from as int,
                end as int,
                stmts@,
                stmts.len() as nat,
                level as int,
            ) && token_at(tokens@, end as int, Token::NewLine) && line_start == end + 1,
        decreases tokens.len() - line_start,
    {
        let (line, start) = match find_line(tokens, line_start) {
            Some(found) => found,
            None => {
                return Ok((stmts, end));
            },
        };
        let indentation = start - line;
        if indentation < level {
            return Ok((stmts, end));
        }
        if indentation > level {
            return Err(ParseError::Indentation(start));
        }
        let (s, after) = match parse_statement(tokens, start, level) {
            Ok(found) => found,
            Err(e) => {
                return Err(e);
            },
        };
        let ghost before = stmts@;
        let ghost old_end = end as int;
        stmts.push(s);
        proof {
            lemma_supported_push(before, s);
            assert(divides(line as int));
            assert(line_begins(tokens@, line_start as int, start as int, level as int));
            if before.len() == 0 {
                assert(divides(start as int));
            } else {
                lemma_block_kept(
                    tokens@,
                    from as int,
                    old_end,
                    before,
                    stmts@,
                    before.len(),
                    level as int,
                );
                assert(divides_twice(old_end, start as int));
            }
            assert(block_spans(
                tokens@,
                from as int,
                after as int,
                stmts@,
                stmts.len() as nat,
                level as int,
            ));
        }
        end = after;
        if after >= tokens.len() {
            return Ok((stmts, end));
        }
        if !is_newline(tokens, after) {
            return Err(ParseError::UnexpectedToken(after));
        }
        line_start = after + 1;
    }
}

/// Parses the `elif`s and the `else` that follow a body which ends at
/// `from`: the `elif`s, the statements of the `else` if there is one, and
/// the index behind the last token of the last body.
pub fn parse_branches(tokens: &Vec<Token>, from: usize, level: usize) -> (r: Result<
    (Vec<ASTIfStatement>, Option<Vec<AST>>, usize),
    ParseError,
>)
    requires
        from <= tokens.len(),
    ensures
        match r {
            Ok((elifs, final_else, end)) => branches_reach(tokens@, from as int, level as int)
                == Ok::<int, ParseError>(end as int) && from <= end <= tokens.len()
                && branches_span(
                tokens@,
                from as int,
                end as int,
                elifs@,
                final_else,
                level as int,
            ) && (forall|j: int|
                0 <= j < elifs.len() ==> expr_supported((#[trigger] elifs[j]).expression)
                    && block_supported(elifs[j].statements@, elifs[j].statements.len() as nat))
                && (final_else matches Some(stmts) ==> block_supported(
                stmts@,
                stmts.len() as nat,
            )),
            Err(error) => branches_reach(tokens@, from as int, level as int) == Err::<
                int,
                ParseError,
            >(error),
        },
    decreases tokens.len() - from, 1int, 0int,
{
    let none: Vec<ASTIfStatement> = Vec::new();
    if !is_newline(tokens, from) {
        return Ok((none, None, from));
    }
    let (line, start) = match find_line(tokens, from + 1) {
        Some(found) => found,
        None => {
            return Ok((none, None, from));
        },
    };
    if start - line != level {
        return Ok((none, None, from));
    }
    proof {
        assert(divides(line as int));
        assert(line_begins(tokens@, from + 1, start as int, level as int));
    }
    match &tokens[start] {
        Token::ElifKeyword => {
            let (expression, colon) = match parse_level(tokens, start + 1, 0) {
                Ok(found) => found,
                Err(e) => {
                    return Err(e);
                },
            };
            if !is_colon(tokens, colon) {
                return Err(unexpected(tokens, colon));
            }
            let (statements, end) = match parse_body(tokens, colon + 1, level) {
                Ok(found) => found,
                Err(e) => {
                    return Err(e);
                },
            };
            let (rest, final_else, last) = match parse_branches(tokens, end, level) {
                Ok(found) => found,
                Err(e) => {
                    return Err(e);
                },
            };
            let ghost others = rest@;
            let mut elifs = rest;
            let branch = ASTIfStatement { expression, statements };
            elifs.insert(0, branch);
            proof {
                assert(elifs@.drop_first() =~= others);
                assert(elifs@[0] == branch);
                assert(divides_thrice(start as int, colon as int, end as int));
                assert forall|j: int| 0 <= j < elifs.len() implies expr_supported(
                    (#[trigger] elifs[j]).expression,
                ) && block_supported(elifs[j].statements@, elifs[j].statements.len() as nat) by {
                    if j > 0 {
                        assert(elifs[j] == others[j - 1]);
                    }
                }
            }
            Ok((elifs, final_else, last))
        },
        Token::ElseKeyword => {
            if !is_colon(tokens, start + 1) {
                return Err(unexpected(tokens, start + 1));
            }
            let (stmts, end) = match parse_body(tokens, start + 2, level) {
                Ok(found) => found,
                Err(e) => {
                    return Err(e);
                },
            };
            proof {
                assert(divides(start as int));
            }
            Ok((none, Some(stmts), end))
        },
        _ => Ok((none, None, from)),
    }
}

/// Parses the statement of a block of the level `level` that begins at
/// `at`: the statement, and the index behind its last token.
pub fn parse_statement(tokens: &Vec<Token>, at: usize, level: usize) -> (r: Result<
    (AST, usize),
    ParseError,
>)
    ensures
        match r {
            Ok((s, next)) => statement_reach(tokens@, at as int, level as int) == Ok::<
                int,
                ParseError,
            >(next as int) && at < next <= tokens.len() && statement_spans(
                tokens@,
                at as int,
                next as int,
                s,
                level as int,
            ) && stmt_supported(s),
            Err(error) => statement_reach(tokens@, at as int, level as int) == Err::<
                int,
                ParseError,
            >(error),
        },
    decreases tokens.len() - at, 2int, 0int,
{
    if at >= tokens.len() {
        return Err(ParseError::UnexpectedEnd);
    }
    match &tokens[at] {
        Token::WhileKeyword => {
            let (expression, colon) = match parse_level(tokens, at + 1, 0) {
                Ok(found) => found,
                Err(e) => {
                    return Err(e);
                },
            };
            if !is_colon(tokens, colon) {
                return Err(unexpected(tokens, colon));
            }
            let (body, end) = match parse_body(tokens, colon + 1, level) {
                Ok(found) => found,
                Err(e) => {
                    return Err(e);
                },
            };
            proof {
                assert(divides(colon as int));
            }
            Ok((AST::WhileStatement { expression, body }, end))
        },
        Token::IfKeyword => {
            let (expression, colon) = match parse_level(tokens, at + 1, 0) {
                Ok(found) => found,
                Err(e) => {
                    return Err(e);
                },
            };
            if !is_colon(tokens, colon) {
                return Err(unexpected(tokens, colon));
            }
            let (statements, end) = match parse_body(tokens, colon + 1, level) {
                Ok(found) => found,
                Err(e) => {
                    return Err(e);
                },
            };
            let (elifs, final_else, last) = match parse_branches(tokens, end, level) {
                Ok(found) => found,
                Err(e) => {
                    return Err(e);
                },
            };
            proof {
                assert(divides_twice(colon as int, end as int));
            }
            Ok(
                (
                    AST::IfStatement {
                        true_branch: ASTIfStatement { expression, statements },
                        elifs,
                        final_else,
                    },
                    last,
                ),
            )
        },
        _ => {
            match parse_simple(tokens, at) {
                Ok((s, next)) => {
                    assert(!(s is WhileStatement) && !(s is IfStatement));
                    Ok((s, next))
                },
                Err(e) => Err(e),
            }
        },
    }
}

/// Parses a program: the statements that the tokens spell.
///
/// Every statement stands on a line of its own; the statements of a body
/// are indented once more than the statement that they belong to, or
/// follow its colon on the same line.
pub fn parse_ast(tokens: &Vec<Token>) -> (r: Result<Vec<AST>, ParseError>)
    ensures
        match r {
            Ok(stmts) => program_trouble(tokens@) is None && program_spans(tokens@, stmts@)
                && block_supported(stmts@, stmts.len() as nat),
            Err(error) => program_trouble(tokens@) == Some(error),
        },
{
    let (stmts, end) = match parse_block(tokens, 0, 0) {
        Ok(found) => found,
        Err(e) => {
            return Err(e);
        },
    };
    if stmts.len() == 0 {
        return match find_line(tokens, 0) {
            Some((line, start)) => Err(ParseError::Indentation(start)),
            None => Ok(stmts),
        };
    }
    if end >= tokens.len() {
        proof {
            assert(divides_twice(end as int, end as int));
        }
        return Ok(stmts);
    }
    if !is_newline(tokens, end) {
        return Err(ParseError::UnexpectedToken(end));
    }
    match find_line(tokens, end + 1) {
        Some((line, start)) => Err(ParseError::Indentation(start)),
        None => {
            proof {
                let rest = choose|rest: int|
                    #[trigger] divides(rest) && end + 1 <= rest <= tokens.len() && blank_lines(
                        tokens@,
                        end + 1,
                        rest,
                    ) && indented(tokens@, rest, tokens.len() as int);
                assert(divides_twice(end as int, rest));
            }
            Ok(stmts)
        },
    }
}

} // verus!
