//! Programs, and the short ways to write them down.
use crate::integer::{Int, IntType, Signedness, Size};
use crate::syntax::{BbName, FnName, IntrinsicOp, LocalName, Name, Terminator};
use crate::terminator::{exit, is_intrinsic, stores_nothing};
use crate::types::Type;
use std::rc::Rc;
use vstd::prelude::*;

verus! {

/// A statement.
#[derive(Clone, Copy, Debug, PartialEq, Eq, Structural)]
pub enum Statement {
    /// Gives the local its storage.
    StorageLive(LocalName),
    /// Takes the storage of the local away.
    StorageDead(LocalName),
}

/// Statements that run in order, and what follows them.
#[derive(Debug, PartialEq, Eq)]
pub struct BasicBlock {
    pub statements: Vec<Statement>,
    pub terminator: Terminator,
}

/// A function: the types of its locals, each under its number, and its
/// blocks, each under its number.
#[derive(Debug, PartialEq, Eq)]
pub struct Function {
    pub locals: Vec<Type>,
    pub blocks: Vec<BasicBlock>,
    pub start: BbName,
}

/// A program: its functions, each under its number, and the one to start
/// with.
#[derive(Debug, PartialEq, Eq)]
pub struct Program {
    pub functions: Vec<Function>,
    pub start: FnName,
}

/// The local with the number `x`.
pub open spec fn local(x: u32) -> LocalName {
    LocalName(Name(x))
}

/// Gives the local with the number `x` its storage.
pub fn storage_live(x: u32) -> (s: Statement)
    ensures
        s == Statement::StorageLive(local(x)),
{
    Statement::StorageLive(LocalName(Name::from_internal(x)))
}

/// Takes the storage of the local with the number `x` away.
pub fn storage_dead(x: u32) -> (s: Statement)
    ensures
        s == Statement::StorageDead(local(x)),
{
    Statement::StorageDead(LocalName(Name::from_internal(x)))
}

/// The type of the booleans.
pub fn bool_type() -> (ty: Type)
    ensures
        ty == Type::Bool,
{
    Type::Bool
}

/// The integer type of the given signedness and size in bytes.
pub fn int_type(signed: Signedness, bytes: u64) -> (ty: Type)
    ensures
        ty == Type::Int(IntType { signed, size: Size { bytes } }),
{
    Type::Int(IntType { signed, size: Size { bytes } })
}

/// The type of the arrays of `count` elements of type `elem`.
pub fn array_ty(elem: Type, count: Int) -> (ty: Type)
    ensures
        ty matches Type::Array { elem: e, count: c } && *e == elem && c == count,
{
    Type::Array { elem: Rc::new(elem), count }
}

/// The block of the given statements and terminator.
pub fn basic_block(statements: Vec<Statement>, terminator: Terminator) -> (b: BasicBlock)
    ensures
        b.statements == statements,
        b.terminator == terminator,
{
    BasicBlock { statements, terminator }
}

/// The function with the given locals and blocks that starts with its first
/// block.
pub fn function(locals: Vec<Type>, blocks: Vec<BasicBlock>) -> (f: Function)
    ensures
        f.locals == locals,
        f.blocks == blocks,
        f.start == BbName(Name(0)),
{
    Function { locals, blocks, start: BbName(Name::from_internal(0)) }
}

/// The program of the given functions that starts with the first of them.
pub fn program(functions: Vec<Function>) -> (p: Program)
    ensures
        p.functions == functions,
        p.start == FnName(Name(0)),
{
    Program { functions, start: FnName(Name::from_internal(0)) }
}

/// The program of one function with the given locals, which runs the
/// statements and exits.
pub fn small_program(locals: Vec<Type>, statements: Vec<Statement>) -> (p: Program)
    ensures
        p.start == FnName(Name(0)),
        p.functions@.len() == 1,
        p.functions@[0].locals == locals,
        p.functions@[0].start == BbName(Name(0)),
        p.functions@[0].blocks@.len() == 1,
        p.functions@[0].blocks@[0].statements == statements,
        is_intrinsic(p.functions@[0].blocks@[0].terminator, IntrinsicOp::Exit, Seq::empty(), None),
        stores_nothing(p.functions@[0].blocks@[0].terminator),
{
    let b = basic_block(statements, exit());
    let mut blocks: Vec<BasicBlock> = Vec::new();
    blocks.push(b);
    let f = function(locals, blocks);
    let mut functions: Vec<Function> = Vec::new();
    functions.push(f);
    program(functions)
}

} // verus!
