//! Stack bytecode for compiled expressions.
use vstd::prelude::*;
use crate::ast::{TimeField, VarId};
use crate::property::PropertyId;

verus! {

/// Index into a program's constant pool.
#[derive(Debug, Clone, Copy, PartialEq, Eq)]
pub struct ConstIdx(pub u32);

/// Constant pool entry.
#[derive(Debug, Clone, PartialEq, Eq)]
pub enum ConstVal {
    /// Number literal, as written in the source.
    Number(String),
    /// Boolean.
    Bool(bool),
}

/// Constant with its text as characters.
pub enum ConstV {
    Number(Seq<char>),
    Bool(bool),
}

/// View of a constant.
pub open spec fn const_view(c: ConstVal) -> ConstV {
    match c {
        ConstVal::Number(s) => ConstV::Number(s@),
        ConstVal::Bool(b) => ConstV::Bool(b),
    }
}

/// Views of a constant pool.
pub open spec fn consts_view(cs: Seq<ConstVal>) -> Seq<ConstV> {
    Seq::new(cs.len(), |i: int| const_view(cs[i]))
}

/// Builtin functions.
#[derive(Debug, Clone, Copy, PartialEq, Eq)]
pub enum BuiltinId {
    /// `min(a, b)`.
    Min,
    /// `max(a, b)`.
    Max,
    /// `clamp(x, lo, hi)`.
    Clamp,
    /// `abs(x)`.
    Abs,
    /// `sin(x)`.
    Sin,
    /// `cos(x)`.
    Cos,
    /// `lerp(a, b, t)`.
    Lerp,
}

/// One stack-machine instruction.
#[derive(Debug, Clone, Copy, PartialEq, Eq)]
pub enum Op {
    /// Push a constant.
    PushConst(ConstIdx),
    /// Push a property value.
    LoadProp(PropertyId),
    /// Push a variable.
    LoadVar(VarId),
    /// Push a time field.
    LoadTime(TimeField),
    /// Negate the top.
    Neg,
    /// Logical not of the top.
    Not,
    /// `a + b`.
    Add,
    /// `a - b`.
    Sub,
    /// `a * b`.
    Mul,
    /// `a / b`.
    Div,
    /// `a % b`.
    Mod,
    /// `a == b`.
    Eq,
    /// `a != b`.
    Ne,
    /// `a < b`.
    Lt,
    /// `a <= b`.
    Le,
    /// `a > b`.
    Gt,
    /// `a >= b`.
    Ge,
    /// `a && b`.
    And,
    /// `a || b`.
    Or,
    /// Call a builtin on the top `argc` values.
    CallBuiltin { id: BuiltinId, argc: u8 },
}

/// A compiled expression: instructions and their constant pool.
#[derive(Debug, Clone)]
pub struct BytecodeProgram {
    /// Instructions, in execution order.
    pub ops: Vec<Op>,
    /// Constant pool.
    pub consts: Vec<ConstVal>,
}

impl BytecodeProgram {
    /// An empty program.
    pub fn new() -> (p: Self)
        ensures
            p.ops@ == Seq::<Op>::empty(),
            p.consts@ == Seq::<ConstVal>::empty(),
    {
        BytecodeProgram { ops: Vec::new(), consts: Vec::new() }
    }

    /// Append `c` to the constant pool and return its index (the pool length before, as a
    /// `u32`).
    pub fn push_const(&mut self, c: ConstVal) -> (idx: ConstIdx)
        ensures
            final(self).ops@ == old(self).ops@,
            final(self).consts@ == old(self).consts@.push(c),
            idx.0 == old(self).consts@.len() as u32,
    {
        let idx = ConstIdx(self.consts.len() as u32);
        self.consts.push(c);
        idx
    }
}

} // verus!
