//! The expressions and terminators of the target language, as far as
//! programs are put together from them.
use crate::integer::{Int, IntType};
use crate::types::Type;
use std::rc::Rc;
use vstd::prelude::*;

verus! {

/// A name: a number that is unique among the names of its kind.
#[derive(Clone, Copy, Debug, PartialEq, Eq, Structural)]
pub struct Name(pub u32);

/// The name of a basic block.
#[derive(Clone, Copy, Debug, PartialEq, Eq, Structural)]
pub struct BbName(pub Name);

/// The name of a function.
#[derive(Clone, Copy, Debug, PartialEq, Eq, Structural)]
pub struct FnName(pub Name);

/// The name of a local variable.
#[derive(Clone, Copy, Debug, PartialEq, Eq, Structural)]
pub struct LocalName(pub Name);

impl Name {
    /// The name with the number `id`.
    pub fn from_internal(id: u32) -> (n: Name)
        ensures
            n == Name(id),
    {
        Name(id)
    }
}

/// A constant.
#[derive(Clone, Copy, Debug, PartialEq, Eq, Structural)]
pub enum Constant {
    Int(Int),
    Bool(bool),
    FnPointer(FnName),
    /// A pointer with the given address and nothing to point to.
    PointerWithoutProvenance(Int),
}

/// The binary operators on integers.
#[derive(Clone, Copy, Debug, PartialEq, Eq, Structural)]
pub enum IntBinOp {
    Add,
    Sub,
    Mul,
    Div,
    Rem,
}

/// The casts.
#[derive(Clone, Copy, Debug, PartialEq, Eq, Structural)]
pub enum CastOp {
    /// From a boolean to 0 or 1 of the given integer type.
    BoolToInt(IntType),
}

/// The unary operators.
#[derive(Clone, Copy, Debug, PartialEq, Eq, Structural)]
pub enum UnOp {
    Cast(CastOp),
}

/// An expression that computes a value.
#[derive(Debug, PartialEq, Eq)]
pub enum ValueExpr {
    Constant(Constant, Type),
    Load { source: Rc<PlaceExpr> },
    UnOp { operator: UnOp, operand: Rc<ValueExpr> },
}

/// An expression that computes a place in memory.
#[derive(Debug, PartialEq, Eq)]
pub enum PlaceExpr {
    Local(LocalName),
    Deref { operand: Rc<ValueExpr>, ty: Type },
}

/// An argument of a call.
#[derive(Debug, PartialEq, Eq)]
pub enum ArgumentExpr {
    /// The value is copied to the callee.
    ByValue(ValueExpr),
    /// The callee gets the place itself.
    InPlace(PlaceExpr),
}

/// The operations on locks.
#[derive(Clone, Copy, Debug, PartialEq, Eq, Structural)]
pub enum IntrinsicLockOp {
    Acquire,
    Create,
    Release,
}

/// The operations that the machine offers.
#[derive(Clone, Copy, Debug, PartialEq, Eq, Structural)]
pub enum IntrinsicOp {
    Assume,
    Exit,
    PrintStdout,
    PrintStderr,
    Allocate,
    Deallocate,
    Spawn,
    Join,
    AtomicStore,
    AtomicLoad,
    AtomicCompareExchange,
    AtomicFetchAndOp(IntBinOp),
    Lock(IntrinsicLockOp),
    PointerExposeProvenance,
    PointerWithExposedProvenance,
}

/// How a basic block ends.
#[derive(Debug, PartialEq, Eq)]
#[allow(inconsistent_fields)]
pub enum Terminator {
    /// Go on with the given block.
    Goto(BbName),
    /// Go on with the block that `cases` gives for `value`, or with
    /// `fallback` where it gives none. No value occurs twice in `cases`.
    Switch { value: ValueExpr, cases: Vec<(Int, BbName)>, fallback: BbName },
    /// Getting here is an error.
    Unreachable,
    /// Run `intrinsic`, store what it returns in `ret`, and go on with
    /// `next_block`.
    Intrinsic {
        intrinsic: IntrinsicOp,
        arguments: Vec<ValueExpr>,
        ret: PlaceExpr,
        next_block: Option<BbName>,
    },
    /// Call `callee`, store what it returns in `ret`, and go on with
    /// `next_block`.
    Call {
        callee: ValueExpr,
        arguments: Vec<ArgumentExpr>,
        ret: PlaceExpr,
        next_block: Option<BbName>,
    },
    /// Return from the function.
    Return,
}

/// The block that a list of cases gives for each value: a later entry for a
/// value replaces an earlier one.
pub open spec fn cases_map(cases: Seq<(Int, BbName)>) -> Map<int, BbName>
    decreases cases.len(),
{
    if cases.len() == 0 {
        Map::empty()
    } else {
        cases_map(cases.drop_last()).insert(cases.last().0@, cases.last().1)
    }
}

/// Whether no value occurs twice in the cases.
pub open spec fn cases_unique(cases: Seq<(Int, BbName)>) -> bool {
    forall|i: int, j: int|
        0 <= i < j < cases.len() ==> (#[trigger] cases[i]).0@ != (#[trigger] cases[j]).0@
}

} // verus!
