//! Binary operators: their tokens and what they compute.
use crate::error::ErrorKind;
use crate::value::{
    add_spec, bool_value, div_spec, mul_spec, order_spec, rem_spec, sub_spec, truth_of,
    values_equal, Val, Value,
};
use std::cmp::Ordering;
use vstd::prelude::*;

verus! {

#[derive(Clone, Copy, Debug, PartialEq, Eq, Structural)]
pub enum BinaryOp {
    Add,
    Sub,
    Mul,
    Div,
    Rem,
    Lt,
    Gt,
    Le,
    Ge,
    Eq,
    Ne,
    And,
    Or,
}

/// The operator a one-character token stands for.
pub open spec fn operator_of_char(c: char) -> Option<BinaryOp> {
    if c == '+' {
        Some(BinaryOp::Add)
    } else if c == '-' {
        Some(BinaryOp::Sub)
    } else if c == '*' {
        Some(BinaryOp::Mul)
    } else if c == '/' {
        Some(BinaryOp::Div)
    } else if c == '%' {
        Some(BinaryOp::Rem)
    } else if c == '<' {
        Some(BinaryOp::Lt)
    } else if c == '>' {
        Some(BinaryOp::Gt)
    } else {
        None
    }
}

/// The operator a two-character token stands for.
pub open spec fn operator_of_pair(c: char, d: char) -> Option<BinaryOp> {
    if c == '<' && d == '=' {
        Some(BinaryOp::Le)
    } else if c == '>' && d == '=' {
        Some(BinaryOp::Ge)
    } else if c == '=' && d == '=' {
        Some(BinaryOp::Eq)
    } else if c == '!' && d == '=' {
        Some(BinaryOp::Ne)
    } else if c == '&' && d == '&' {
        Some(BinaryOp::And)
    } else if c == '|' && d == '|' {
        Some(BinaryOp::Or)
    } else {
        None
    }
}

/// The operator a token stands for, if any.
pub open spec fn operator_of(t: Seq<char>) -> Option<BinaryOp> {
    if t.len() == 1 {
        operator_of_char(t[0])
    } else if t.len() == 2 {
        operator_of_pair(t[0], t[1])
    } else {
        None
    }
}

/// The truth value of an operand of `&&` or `||`: defined for numbers only.
pub open spec fn operand_truth(v: Val) -> Option<bool> {
    match v {
        Val::Num(n) => Some(truth_of(n)),
        _ => None,
    }
}

/// What `a op b` evaluates to. Arithmetic on mismatched kinds gives
/// `Undefined`; a comparison without an order and a logical operator on a
/// non-number fail.
pub open spec fn binary_spec(op: BinaryOp, a: Val, b: Val) -> Result<Val, ErrorKind> {
    match op {
        BinaryOp::Add => Ok(add_spec(a, b)),
        BinaryOp::Sub => Ok(sub_spec(a, b)),
        BinaryOp::Mul => Ok(mul_spec(a, b)),
        BinaryOp::Div => Ok(div_spec(a, b)),
        BinaryOp::Rem => Ok(rem_spec(a, b)),
        BinaryOp::Eq => Ok(bool_value(values_equal(a, b))),
        BinaryOp::Ne => Ok(bool_value(!values_equal(a, b))),
        BinaryOp::And => match (operand_truth(a), operand_truth(b)) {
            (Some(x), Some(y)) => Ok(bool_value(x && y)),
            _ => Err(ErrorKind::NotLogical),
        },
        BinaryOp::Or => match (operand_truth(a), operand_truth(b)) {
            (Some(x), Some(y)) => Ok(bool_value(x || y)),
            _ => Err(ErrorKind::NotLogical),
        },
        _ => match order_spec(a, b) {
            None => Err(ErrorKind::Incomparable),
            Some(o) => Ok(
                bool_value(
                    match op {
                        BinaryOp::Lt => o == Ordering::Less,
                        BinaryOp::Gt => o == Ordering::Greater,
                        BinaryOp::Le => o != Ordering::Greater,
                        _ => o != Ordering::Less,
                    },
                ),
            ),
        },
    }
}

impl BinaryOp {
    /// The operator that token `t` stands for.
    pub fn from_token(t: &Vec<char>) -> (r: Option<BinaryOp>)
        ensures
            r == operator_of(t@),
    {
        if t.len() == 1 {
            let c = t[0];
            if c == '+' {
                Some(BinaryOp::Add)
            } else if c == '-' {
                Some(BinaryOp::Sub)
            } else if c == '*' {
                Some(BinaryOp::Mul)
            } else if c == '/' {
                Some(BinaryOp::Div)
            } else if c == '%' {
                Some(BinaryOp::Rem)
            } else if c == '<' {
                Some(BinaryOp::Lt)
            } else if c == '>' {
                Some(BinaryOp::Gt)
            } else {
                None
            }
        } else if t.len() == 2 {
            let c = t[0];
            let d = t[1];
            if c == '<' && d == '=' {
                Some(BinaryOp::Le)
            } else if c == '>' && d == '=' {
                Some(BinaryOp::Ge)
            } else if c == '=' && d == '=' {
                Some(BinaryOp::Eq)
            } else if c == '!' && d == '=' {
                Some(BinaryOp::Ne)
            } else if c == '&' && d == '&' {
                Some(BinaryOp::And)
            } else if c == '|' && d == '|' {
                Some(BinaryOp::Or)
            } else {
                None
            }
        } else {
            None
        }
    }
}

/// Applies a binary operator to two values.
pub fn apply_binary(op: BinaryOp, a: Value, b: Value) -> (r: Result<Value, ErrorKind>)
    ensures
        match binary_spec(op, a@, b@) {
            Ok(v) => r matches Ok(x) && x@ == v,
            Err(e) => r == Err::<Value, ErrorKind>(e),
        },
{
    match op {
        BinaryOp::Add => Ok(a.add(b)),
        BinaryOp::Sub => Ok(a.sub(b)),
        BinaryOp::Mul => Ok(a.mul(b)),
        BinaryOp::Div => Ok(a.div(b)),
        BinaryOp::Rem => Ok(a.rem(b)),
        BinaryOp::Eq => Ok(Value::from(a.eq(&b))),
        BinaryOp::Ne => Ok(Value::from(!a.eq(&b))),
        BinaryOp::And => match (a.truth(), b.truth()) {
            (Some(x), Some(y)) => Ok(Value::from(x && y)),
            _ => Err(ErrorKind::NotLogical),
        },
        BinaryOp::Or => match (a.truth(), b.truth()) {
            (Some(x), Some(y)) => Ok(Value::from(x || y)),
            _ => Err(ErrorKind::NotLogical),
        },
        _ => match a.partial_cmp(&b) {
            None => Err(ErrorKind::Incomparable),
            Some(o) => {
                let less = matches!(o, Ordering::Less);
                let greater = matches!(o, Ordering::Greater);
                let holds = match op {
                    BinaryOp::Lt => less,
                    BinaryOp::Gt => greater,
                    BinaryOp::Le => !greater,
                    _ => !less,
                };
                Ok(Value::from(holds))
            },
        },
    }
}

} // verus!
