use vstd::prelude::*;

verus! {

/// An expression of the source language; each node owns its children.
#[derive(Debug, PartialEq)]
pub enum Expression {
    Int(i64),
    Bool(bool),
    BinaryOp(BinaryOp, Box<Expression>, Box<Expression>),
    UnaryOp(UnaryOp, Box<Expression>),
    Conditional(Box<Expression>, Box<Expression>, Box<Expression>),
}

#[derive(Debug, PartialEq, Eq, Clone, Copy)]
pub enum UnaryOp {
    Minus,
    Not,
}

#[derive(Debug, PartialEq, Eq, Clone, Copy)]
pub enum BinaryOp {
    Multiply,
    Divide,
    Add,
    Sub,
    LessThan,
    LessThanOrEqual,
    GreaterThan,
    GreaterThanOrEqual,
    Equal,
    NotEqual,
    And,
    Or,
}

pub open spec fn word_modulus() -> int {
    0x1_0000_0000_0000_0000int
}

pub open spec fn in_word(x: int) -> bool {
    -0x8000_0000_0000_0000int <= x < 0x8000_0000_0000_0000int
}

/// The signed 64-bit value that `x` becomes in two's complement.
#[verifier::opaque]
pub open spec fn wrap(x: int) -> int {
    let m = x % word_modulus();
    if m >= 0x8000_0000_0000_0000int {
        m - word_modulus()
    } else {
        m
    }
}

pub open spec fn abs(x: int) -> int {
    if x < 0 {
        -x
    } else {
        x
    }
}

/// Division that rounds toward zero; `b` is nonzero.
#[verifier::opaque]
pub open spec fn trunc_div(a: int, b: int) -> int {
    if (a >= 0) == (b > 0) {
        abs(a) / abs(b)
    } else {
        -(abs(a) / abs(b))
    }
}

pub open spec fn trunc_rem(a: int, b: int) -> int {
    a - b * trunc_div(a, b)
}

pub open spec fn truth(b: bool) -> int {
    if b {
        1
    } else {
        0
    }
}

pub open spec fn is_comparison(op: BinaryOp) -> bool {
    match op {
        BinaryOp::LessThan | BinaryOp::LessThanOrEqual | BinaryOp::GreaterThan
        | BinaryOp::GreaterThanOrEqual | BinaryOp::Equal | BinaryOp::NotEqual => true,
        _ => false,
    }
}

pub open spec fn compare(op: BinaryOp, x: int, y: int) -> bool {
    match op {
        BinaryOp::LessThan => x < y,
        BinaryOp::LessThanOrEqual => x <= y,
        BinaryOp::GreaterThan => x > y,
        BinaryOp::GreaterThanOrEqual => x >= y,
        BinaryOp::Equal => x == y,
        _ => x != y,
    }
}

/// The value of a strict binary operator on the values of its operands;
/// `None` where the machine faults (a zero divisor, a quotient that does not fit).
pub open spec fn apply_binary(op: BinaryOp, x: int, y: int) -> Option<int> {
    match op {
        BinaryOp::Multiply => Some(wrap(x * y)),
        BinaryOp::Add => Some(wrap(x + y)),
        BinaryOp::Sub => Some(wrap(x - y)),
        BinaryOp::Divide => if y == 0 || !in_word(trunc_div(x, y)) {
            None
        } else {
            Some(trunc_div(x, y))
        },
        _ => Some(truth(compare(op, x, y))),
    }
}

/// The value an expression has at run time, with booleans as 0 and 1 and
/// 64-bit wrapping arithmetic; `None` where running it faults.
pub open spec fn eval(e: Expression) -> Option<int>
    decreases e,
{
    match e {
        Expression::Int(v) => Some(v as int),
        Expression::Bool(b) => Some(truth(b)),
        Expression::UnaryOp(op, a) => match eval(*a) {
            None => None,
            Some(x) => match op {
                UnaryOp::Minus => Some(wrap(-x)),
                UnaryOp::Not => Some(truth(x == 0)),
            },
        },
        Expression::BinaryOp(op, a, b) => match op {
            BinaryOp::And => match eval(*a) {
                None => None,
                Some(x) => if x == 0 {
                    Some(0)
                } else {
                    match eval(*b) {
                        None => None,
                        Some(y) => Some(truth(y != 0)),
                    }
                },
            },
            BinaryOp::Or => match eval(*a) {
                None => None,
                Some(x) => if x != 0 {
                    Some(1)
                } else {
                    match eval(*b) {
                        None => None,
                        Some(y) => Some(truth(y != 0)),
                    }
                },
            },
            _ => match (eval(*a), eval(*b)) {
                (Some(x), Some(y)) => apply_binary(op, x, y),
                _ => None,
            },
        },
        Expression::Conditional(t, c, a) => match eval(*t) {
            None => None,
            Some(x) => if x == 0 {
                eval(*a)
            } else {
                eval(*c)
            },
        },
    }
}

} // verus!
