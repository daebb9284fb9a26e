//! Partial-application frames: an operator waiting for its operands.
use vstd::prelude::*;
use crate::errors::CreateError;
use crate::errors::CreateResult;
use crate::errors::SYNTAX;
use crate::errors::UNFILLED;
use crate::scalar::Buffer;
use crate::scalar::ONE;
use crate::scalar::and;
use crate::scalar::equal;
use crate::scalar::greater;
use crate::scalar::less;
use crate::scalar::not;
use crate::scalar::or;
use crate::scalar::spec_equal;
use crate::scalar::spec_from_bool;
use crate::scalar::spec_less;
use crate::scalar::spec_not;

verus! {

/// The operators that take two scalars.
#[derive(Clone, Copy, Debug)]
pub enum BinaryKind {
    Add,
    Sub,
    Mul,
    Div,
    Rem,
    Pow,
    Equal,
    Greater,
    Less,
    Or,
    And,
}

/// The operators that take one scalar.
#[derive(Clone, Copy, Debug)]
pub enum UnaryKind {
    Sin,
    Cos,
    Tan,
    Asin,
    Acos,
    Atan,
    Sqrt,
    Cbrt,
    Not,
    PrintNumber,
    PrintChar,
}

/// A two-operand frame; the left slot fills first.
#[derive(Clone, Copy, Debug)]
pub struct BinaryOp {
    pub left: Option<Buffer>,
    pub right: Option<Buffer>,
    pub op: BinaryKind,
}

/// A one-operand frame.
#[derive(Clone, Copy, Debug)]
pub struct UnaryOp {
    pub value: Option<Buffer>,
    pub op: UnaryKind,
}

/// A frame of the writer stack.
#[derive(Clone, Copy, Debug)]
pub enum Instruction {
    Binary(BinaryOp),
    Unary(UnaryOp),
}

/// A computation that a filled frame stands for.
#[derive(Clone, Copy, Debug)]
pub enum Request {
    Binary(BinaryKind, Buffer, Buffer),
    Unary(UnaryKind, Buffer),
}

impl BinaryKind {
    /// Whether the operator is decided on bit patterns alone, without
    /// floating-point arithmetic.
    pub open spec fn spec_is_logical(self) -> bool {
        self is Equal || self is Greater || self is Less || self is Or || self is And
    }

    /// The result of a logical operator.
    pub open spec fn spec_decide(self, l: Buffer, r: Buffer) -> Buffer {
        match self {
            BinaryKind::Equal => spec_from_bool(spec_equal(l, r)),
            BinaryKind::Greater => spec_from_bool(spec_less(r, l)),
            BinaryKind::Less => spec_from_bool(spec_less(l, r)),
            BinaryKind::Or => spec_from_bool(
                l == ONE || r == ONE,
            ),
            BinaryKind::And => spec_from_bool(
                l == ONE && r == ONE,
            ),
            _ => 0,
        }
    }

    /// Applies a logical operator; `None` for an arithmetic one.
    pub fn decide(self, l: Buffer, r: Buffer) -> (out: Option<Buffer>)
        ensures
            out == if self.spec_is_logical() {
                Some(self.spec_decide(l, r))
            } else {
                None::<Buffer>
            },
    {
        match self {
            BinaryKind::Equal => Some(equal(l, r)),
            BinaryKind::Greater => Some(greater(l, r)),
            BinaryKind::Less => Some(less(l, r)),
            BinaryKind::Or => Some(or(l, r)),
            BinaryKind::And => Some(and(l, r)),
            _ => None,
        }
    }
}

impl UnaryKind {
    /// Applies logical negation; `None` for every other operator.
    pub fn decide(self, v: Buffer) -> (out: Option<Buffer>)
        ensures
            out == if self is Not {
                Some(spec_not(v))
            } else {
                None::<Buffer>
            },
    {
        match self {
            UnaryKind::Not => Some(not(v)),
            _ => None,
        }
    }
}

impl BinaryOp {
    /// An empty frame for `op`.
    pub fn new(op: BinaryKind) -> (out: BinaryOp)
        ensures
            out == (BinaryOp { left: None, right: None, op }),
    {
        BinaryOp { left: None, right: None, op }
    }

    /// Whether every slot holds an operand.
    pub open spec fn spec_is_full(&self) -> bool {
        self.left is Some && self.right is Some
    }

    /// The frame after `value` has been fed to it; a full frame stays as it is.
    pub open spec fn spec_fed(&self, value: Buffer) -> BinaryOp {
        if self.left is None {
            BinaryOp { left: Some(value), right: self.right, op: self.op }
        } else if self.right is None {
            BinaryOp { left: self.left, right: Some(value), op: self.op }
        } else {
            *self
        }
    }

    /// The computation of a full frame.
    pub fn evaluate(&self) -> (out: Result<Request, CreateError>)
        ensures
            self.spec_is_full() ==> out == Ok::<Request, CreateError>(
                Request::Binary(self.op, self.left->0, self.right->0),
            ),
            !self.spec_is_full() ==> out is Err && out->Err_0.code == UNFILLED,
    {
        if let Some(l) = self.left {
            if let Some(r) = self.right {
                return Ok(Request::Binary(self.op, l, r));
            }
        }
        Err(CreateError::new(UNFILLED, "There was an unfilled value within a Binary Operator"))
    }

    /// Feeds the next operand; fails with a syntax error on a full frame.
    pub fn write_buffer(&mut self, value: Buffer) -> (out: CreateResult)
        ensures
            *final(self) == old(self).spec_fed(value),
            old(self).spec_is_full() ==> out is Failure && out->Failure_0.code == SYNTAX,
            !old(self).spec_is_full() ==> out is Success,
    {
        if self.left.is_some() {
            if self.right.is_some() {
                CreateResult::Failure(
                    CreateError::new(SYNTAX, "Tried to add a value to a filled Binary Operator"),
                )
            } else {
                self.right = Some(value);
                CreateResult::Success()
            }
        } else {
            self.left = Some(value);
            CreateResult::Success()
        }
    }

    /// Whether both slots hold an operand.
    pub fn is_full(&self) -> (out: bool)
        ensures
            out == self.spec_is_full(),
    {
        self.left.is_some() && self.right.is_some()
    }

    /// The number of operands the frame takes.
    pub fn capacity(&self) -> (out: usize)
        ensures
            out == 2,
    {
        2
    }
}

impl UnaryOp {
    /// An empty frame for `op`.
    pub fn new(op: UnaryKind) -> (out: UnaryOp)
        ensures
            out == (UnaryOp { value: None, op }),
    {
        UnaryOp { value: None, op }
    }

    /// Whether every slot holds an operand.
    pub open spec fn spec_is_full(&self) -> bool {
        self.value is Some
    }

    /// The frame after `value` has been fed to it; a full frame stays as it is.
    pub open spec fn spec_fed(&self, value: Buffer) -> UnaryOp {
        if self.value is None {
            UnaryOp { value: Some(value), op: self.op }
        } else {
            *self
        }
    }

    /// The computation of a full frame.
    pub fn evaluate(&self) -> (out: Result<Request, CreateError>)
        ensures
            self.spec_is_full() ==> out == Ok::<Request, CreateError>(
                Request::Unary(self.op, self.value->0),
            ),
            !self.spec_is_full() ==> out is Err && out->Err_0.code == UNFILLED,
    {
        if let Some(v) = self.value {
            Ok(Request::Unary(self.op, v))
        } else {
            Err(CreateError::new(UNFILLED, "There was an unfilled value in a Unary Operator"))
        }
    }

    /// Feeds the operand; fails with a syntax error on a full frame.
    pub fn write_buffer(&mut self, value: Buffer) -> (out: CreateResult)
        ensures
            *final(self) == old(self).spec_fed(value),
            old(self).spec_is_full() ==> out is Failure && out->Failure_0.code == SYNTAX,
            !old(self).spec_is_full() ==> out is Success,
    {
        if self.value.is_some() {
            CreateResult::Failure(
                CreateError::new(SYNTAX, "Tried to add a value to a filled Unary Operator"),
            )
        } else {
            self.value = Some(value);
            CreateResult::Success()
        }
    }

    /// Whether the slot holds an operand.
    pub fn is_full(&self) -> (out: bool)
        ensures
            out == self.spec_is_full(),
    {
        self.value.is_some()
    }

    /// The number of operands the frame takes.
    pub fn capacity(&self) -> (out: usize)
        ensures
            out == 1,
    {
        1
    }
}

impl Instruction {
    /// Whether every slot holds an operand.
    pub open spec fn spec_is_full(&self) -> bool {
        match self {
            Instruction::Binary(b) => b.spec_is_full(),
            Instruction::Unary(u) => u.spec_is_full(),
        }
    }

    /// The frame after `value` has been fed to it; a full frame stays as it is.
    pub open spec fn spec_fed(&self, value: Buffer) -> Instruction {
        match self {
            Instruction::Binary(b) => Instruction::Binary(b.spec_fed(value)),
            Instruction::Unary(u) => Instruction::Unary(u.spec_fed(value)),
        }
    }

    /// The number of operands the frame takes.
    pub open spec fn spec_capacity(&self) -> int {
        match self {
            Instruction::Binary(_) => 2,
            Instruction::Unary(_) => 1,
        }
    }

    /// The computation a full frame stands for.
    pub open spec fn spec_request(&self) -> Request
        recommends
            self.spec_is_full(),
    {
        match self {
            Instruction::Binary(b) => Request::Binary(b.op, b.left->0, b.right->0),
            Instruction::Unary(u) => Request::Unary(u.op, u.value->0),
        }
    }

    /// The computation of a full frame; error 5 while a slot is empty.
    pub fn evaluate(&self) -> (out: Result<Request, CreateError>)
        ensures
            self.spec_is_full() ==> out == Ok::<Request, CreateError>(self.spec_request()),
            !self.spec_is_full() ==> out is Err && out->Err_0.code == UNFILLED,
    {
        match self {
            Instruction::Binary(b) => b.evaluate(),
            Instruction::Unary(u) => u.evaluate(),
        }
    }

    /// Feeds the next operand; fails with a syntax error on a full frame.
    pub fn write_buffer(&mut self, value: Buffer) -> (out: CreateResult)
        ensures
            *final(self) == old(self).spec_fed(value),
            old(self).spec_is_full() ==> out is Failure && out->Failure_0.code == SYNTAX,
            !old(self).spec_is_full() ==> out is Success,
    {
        match self {
            Instruction::Binary(b) => b.write_buffer(value),
            Instruction::Unary(u) => u.write_buffer(value),
        }
    }

    /// Whether every slot holds an operand.
    pub fn is_full(&self) -> (out: bool)
        ensures
            out == self.spec_is_full(),
    {
        match self {
            Instruction::Binary(b) => b.is_full(),
            Instruction::Unary(u) => u.is_full(),
        }
    }

    /// The number of operands the frame takes.
    pub fn capacity(&self) -> (out: usize)
        ensures
            out == self.spec_capacity(),
    {
        match self {
            Instruction::Binary(b) => b.capacity(),
            Instruction::Unary(u) => u.capacity(),
        }
    }
}

impl Request {
    /// The result of a computation that needs no floating-point arithmetic.
    pub open spec fn spec_decide(self) -> Option<Buffer> {
        match self {
            Request::Binary(op, l, r) => if op.spec_is_logical() {
                Some(op.spec_decide(l, r))
            } else {
                None
            },
            Request::Unary(op, v) => if op is Not {
                Some(spec_not(v))
            } else {
                None
            },
        }
    }

    /// Computes a comparison or a logical operator; `None` for what only the
    /// caller can compute.
    pub fn decide(self) -> (out: Option<Buffer>)
        ensures
            out == self.spec_decide(),
    {
        match self {
            Request::Binary(op, l, r) => op.decide(l, r),
            Request::Unary(op, v) => op.decide(v),
        }
    }
}

} // verus!
