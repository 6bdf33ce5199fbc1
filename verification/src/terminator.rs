//! Short ways to write down expressions and terminators.
use crate::integer::{Align, Int, IntType, Signedness, Size};
use crate::syntax::{
    cases_map, cases_unique, ArgumentExpr, BbName, CastOp, Constant, FnName, IntBinOp,
    IntrinsicLockOp, IntrinsicOp, Name, PlaceExpr, Terminator, UnOp, ValueExpr,
};
use crate::types::{PtrType, Type};
use std::rc::Rc;
use vstd::prelude::*;
use vstd::std_specs::convert::IntoSpec;

verus! {

/// The block with the number `x`.
pub open spec fn block(x: u32) -> BbName {
    BbName(Name(x))
}

/// The block to go on with, where there is one.
pub open spec fn next_block(next: Option<u32>) -> Option<BbName> {
    match next {
        Some(x) => Some(block(x)),
        None => None,
    }
}

/// The unsigned integer type of one byte.
pub open spec fn byte_type() -> IntType {
    IntType { signed: Signedness::Unsigned, size: Size { bytes: 1 } }
}

/// Whether `ty` is the type without values to store: the empty tuple.
pub open spec fn is_unit_type(ty: Type) -> bool {
    ty matches Type::Tuple { fields, size, align } && fields@.len() == 0 && size.bytes == 0
        && align.bytes == 1
}

/// Whether `place` is the place for what takes no room: a unit behind a
/// pointer with the address 1 and nothing to point to.
pub open spec fn is_zst_place(place: PlaceExpr) -> bool {
    place matches PlaceExpr::Deref { operand, ty } && is_unit_type(ty) && *operand
        == ValueExpr::Constant(
        Constant::PointerWithoutProvenance(Int::of(1)),
        Type::Ptr(PtrType::Raw),
    )
}

/// The pointer to the function with the number `x`.
pub open spec fn fn_ptr_spec(x: u32) -> ValueExpr {
    ValueExpr::Constant(Constant::FnPointer(FnName(Name(x))), Type::Ptr(PtrType::FnPtr))
}

/// Whether `e` casts the boolean `v` to the integer type `int_ty`.
pub open spec fn is_bool_to_int(e: ValueExpr, int_ty: IntType, v: ValueExpr) -> bool {
    e matches ValueExpr::UnOp { operator, operand } && operator == UnOp::Cast(
        CastOp::BoolToInt(int_ty),
    ) && *operand == v
}

/// Whether `t` runs `op` on `args` and goes on with `next`.
pub open spec fn is_intrinsic(
    t: Terminator,
    op: IntrinsicOp,
    args: Seq<ValueExpr>,
    next: Option<BbName>,
) -> bool {
    t matches Terminator::Intrinsic { intrinsic, arguments, next_block, .. } && intrinsic == op
        && arguments@ =~= args && next_block == next
}

/// Whether `t` is an intrinsic that stores what it returns in `place`.
pub open spec fn stores_in(t: Terminator, place: PlaceExpr) -> bool {
    t matches Terminator::Intrinsic { ret, .. } && ret == place
}

/// Whether `t` is an intrinsic that returns nothing to store.
pub open spec fn stores_nothing(t: Terminator) -> bool {
    t matches Terminator::Intrinsic { ret, .. } && is_zst_place(ret)
}

/// The cases with each value converted to an integer and each number to its
/// block.
pub open spec fn converted_cases<T: Into<Int>>(cases: Seq<(T, u32)>) -> Seq<(Int, BbName)> {
    Seq::new(cases.len(), |i: int| (cases[i].0.into_spec(), block(cases[i].1)))
}

/// The type without values to store.
pub fn unit_type() -> (ty: Type)
    ensures
        is_unit_type(ty),
{
    Type::Tuple { fields: Vec::new(), size: Size { bytes: 0 }, align: Align { bytes: 1 } }
}

/// The place for what takes no room.
pub fn zst_place() -> (place: PlaceExpr)
    ensures
        is_zst_place(place),
{
    let one = Int::one();
    proof {
        one.lemma_of_view();
    }
    let ptr = ValueExpr::Constant(Constant::PointerWithoutProvenance(one), Type::Ptr(PtrType::Raw));
    PlaceExpr::Deref { operand: Rc::new(ptr), ty: unit_type() }
}

/// The pointer to the function with the number `x`.
pub fn fn_ptr(x: u32) -> (e: ValueExpr)
    ensures
        e == fn_ptr_spec(x),
{
    ValueExpr::Constant(
        Constant::FnPointer(FnName(Name::from_internal(x))),
        Type::Ptr(PtrType::FnPtr),
    )
}

/// The boolean `v` as 0 or 1 of the integer type `int_ty`.
pub fn bool_to_int(int_ty: IntType, v: ValueExpr) -> (e: ValueExpr)
    ensures
        is_bool_to_int(e, int_ty, v),
{
    ValueExpr::UnOp { operator: UnOp::Cast(CastOp::BoolToInt(int_ty)), operand: Rc::new(v) }
}

/// Goes on with the block `x`.
pub fn goto(x: u32) -> (t: Terminator)
    ensures
        t == Terminator::Goto(block(x)),
{
    Terminator::Goto(BbName(Name::from_internal(x)))
}

/// Goes on with `then_blk` where `condition` holds, and with `else_blk`
/// where it does not.
pub fn if_(condition: ValueExpr, then_blk: u32, else_blk: u32) -> (t: Terminator)
    ensures
        t matches Terminator::Switch { value, cases, fallback } && is_bool_to_int(
            value,
            byte_type(),
            condition,
        ) && cases@ == seq![(Int::of(1), block(then_blk))] && fallback == block(else_blk),
{
    let one = Int::one();
    proof {
        one.lemma_of_view();
    }
    let mut cases: Vec<(Int, BbName)> = Vec::new();
    cases.push((one, BbName(Name::from_internal(then_blk))));
    Terminator::Switch {
        value: bool_to_int(
            IntType { signed: Signedness::Unsigned, size: Size { bytes: 1 } },
            condition,
        ),
        cases,
        fallback: BbName(Name::from_internal(else_blk)),
    }
}

/// Replacing the target of a value that occurs in the cases is putting the
/// new target under that value.
pub proof fn lemma_cases_update(cases: Seq<(Int, BbName)>, k: int, key: Int, target: BbName)
    requires
        cases_unique(cases),
        0 <= k < cases.len(),
        cases[k].0@ == key@,
    ensures
        cases_unique(cases.update(k, (key, target))),
        cases_map(cases.update(k, (key, target))) == cases_map(cases).insert(key@, target),
    decreases cases.len(),
{
    let updated = cases.update(k, (key, target));
    assert forall|i: int, j: int| 0 <= i < j < updated.len() implies (#[trigger] updated[i]).0@ != (
    #[trigger] updated[j]).0@ by {
        assert(cases[i].0@ != cases[j].0@);
    }
    if k == cases.len() - 1 {
        assert(updated.drop_last() =~= cases.drop_last());
        assert(cases_map(updated) =~= cases_map(cases).insert(key@, target));
    } else {
        let last = cases.last();
        assert(cases[k].0@ != last.0@);
        assert forall|i: int, j: int| 0 <= i < j < cases.drop_last().len() implies (
        #[trigger] cases.drop_last()[i]).0@ != (#[trigger] cases.drop_last()[j]).0@ by {
            assert(cases[i].0@ != cases[j].0@);
        }
        lemma_cases_update(cases.drop_last(), k, key, target);
        assert(updated.drop_last() =~= cases.drop_last().update(k, (key, target)));
        assert(cases_map(updated) =~= cases_map(cases).insert(key@, target));
    }
}

/// Puts `target` under `key`: in place of the target that `key` had, or as a
/// new case.
pub fn insert_case(cases: &mut Vec<(Int, BbName)>, key: Int, target: BbName)
    requires
        cases_unique(old(cases)@),
    ensures
        cases_unique(final(cases)@),
        cases_map(final(cases)@) == cases_map(old(cases)@).insert(key@, target),
{
    let n = cases.len();
    let mut i: usize = 0;
    while i < n
        invariant
            i <= n == cases@.len(),
            cases@ == old(cases)@,
            cases_unique(cases@),
            forall|j: int| 0 <= j < i ==> (#[trigger] cases@[j]).0@ != key@,
        decreases n - i,
    {
        if cases[i].0 == key {
            proof {
                lemma_cases_update(cases@, i as int, key, target);
            }
            cases.set(i, (key, target));
            return ;
        }
        proof {
            Int::lemma_view_injective(cases@[i as int].0, key);
        }
        i = i + 1;
    }
    cases.push((key, target));
    proof {
        assert(cases@.drop_last() =~= old(cases)@);
        assert forall|a: int, b: int| 0 <= a < b < cases@.len() implies (#[trigger] cases@[a]).0@ != (
        #[trigger] cases@[b]).0@ by {
            if b < n {
                assert(old(cases)@[a].0@ != old(cases)@[b].0@);
            }
        }
    }
}

/// Goes on with the block that `cases` gives for `value`, or with `fallback`
/// where they give none. Where a value occurs twice, its last case counts.
pub fn switch_int<T: Copy + Into<Int>>(value: ValueExpr, cases: &[(T, u32)], fallback: u32) -> (t:
    Terminator)
    ensures
        t matches Terminator::Switch { value: v, cases: c, fallback: f } && v == value && f
            == block(fallback) && cases_unique(c@) && (T::obeys_into_spec() ==> cases_map(c@)
            == cases_map(converted_cases(cases@))),
{
    let ghost wanted = converted_cases(cases@);
    let mut out: Vec<(Int, BbName)> = Vec::new();
    let mut i: usize = 0;
    assert(wanted.take(0) =~= Seq::<(Int, BbName)>::empty());
    while i < cases.len()
        invariant
            i <= cases@.len(),
            wanted == converted_cases(cases@),
            cases_unique(out@),
            T::obeys_into_spec() ==> cases_map(out@) == cases_map(wanted.take(i as int)),
        decreases cases@.len() - i,
    {
        let (case, successor) = cases[i];
        let key: Int = case.into();
        insert_case(&mut out, key, BbName(Name::from_internal(successor)));
        proof {
            assert(wanted.take(i + 1).drop_last() =~= wanted.take(i as int));
        }
        i = i + 1;
    }
    assert(wanted.take(cases@.len() as int) =~= wanted);
    Terminator::Switch { value, cases: out, fallback: BbName(Name::from_internal(fallback)) }
}

/// Marks the end of a block that is never reached.
pub fn unreachable() -> (t: Terminator)
    ensures
        t == Terminator::Unreachable,
{
    Terminator::Unreachable
}

/// Calls the function with the number `f`.
pub fn call(f: u32, args: Vec<ArgumentExpr>, ret: PlaceExpr, next: Option<u32>) -> (t: Terminator)
    ensures
        t matches Terminator::Call { callee, arguments, ret: r, next_block: n } && callee
            == fn_ptr_spec(f) && arguments == args && r == ret && n == next_block(next),
{
    let next_block = match next {
        Some(x) => Some(BbName(Name::from_internal(x))),
        None => None,
    };
    Terminator::Call { callee: fn_ptr(f), arguments: args, ret, next_block }
}

/// Passes the value of `val`.
pub fn by_value(val: ValueExpr) -> (a: ArgumentExpr)
    ensures
        a == ArgumentExpr::ByValue(val),
{
    ArgumentExpr::ByValue(val)
}

/// Passes the place `arg` itself.
pub fn in_place(arg: PlaceExpr) -> (a: ArgumentExpr)
    ensures
        a == ArgumentExpr::InPlace(arg),
{
    ArgumentExpr::InPlace(arg)
}

/// Takes `val` to hold; where it does not, the program is in error.
pub fn assume_that(val: ValueExpr, next: u32) -> (t: Terminator)
    ensures
        is_intrinsic(t, IntrinsicOp::Assume, seq![val], Some(block(next))),
        stores_nothing(t),
{
    Terminator::Intrinsic {
        intrinsic: IntrinsicOp::Assume,
        arguments: vec![val],
        ret: zst_place(),
        next_block: Some(BbName(Name::from_internal(next))),
    }
}

/// Prints `arg` to the standard output.
pub fn print(arg: ValueExpr, next: u32) -> (t: Terminator)
    ensures
        is_intrinsic(t, IntrinsicOp::PrintStdout, seq![arg], Some(block(next))),
        stores_nothing(t),
{
    Terminator::Intrinsic {
        intrinsic: IntrinsicOp::PrintStdout,
        arguments: vec![arg],
        ret: zst_place(),
        next_block: Some(BbName(Name::from_internal(next))),
    }
}

/// Prints `arg` to the standard error output.
pub fn eprint(arg: ValueExpr, next: u32) -> (t: Terminator)
    ensures
        is_intrinsic(t, IntrinsicOp::PrintStderr, seq![arg], Some(block(next))),
        stores_nothing(t),
{
    Terminator::Intrinsic {
        intrinsic: IntrinsicOp::PrintStderr,
        arguments: vec![arg],
        ret: zst_place(),
        next_block: Some(BbName(Name::from_internal(next))),
    }
}

/// Allocates `size` bytes at the alignment `align` and stores the pointer in
/// `ret_place`.
pub fn allocate(size: ValueExpr, align: ValueExpr, ret_place: PlaceExpr, next: u32) -> (t:
    Terminator)
    ensures
        is_intrinsic(t, IntrinsicOp::Allocate, seq![size, align], Some(block(next))),
        stores_in(t, ret_place),
{
    Terminator::Intrinsic {
        intrinsic: IntrinsicOp::Allocate,
        arguments: vec![size, align],
        ret: ret_place,
        next_block: Some(BbName(Name::from_internal(next))),
    }
}

/// Frees the `size` bytes at `ptr`, which were allocated at the alignment
/// `align`.
pub fn deallocate(ptr: ValueExpr, size: ValueExpr, align: ValueExpr, next: u32) -> (t: Terminator)
    ensures
        is_intrinsic(t, IntrinsicOp::Deallocate, seq![ptr, size, align], Some(block(next))),
        stores_nothing(t),
{
    Terminator::Intrinsic {
        intrinsic: IntrinsicOp::Deallocate,
        arguments: vec![ptr, size, align],
        ret: zst_place(),
        next_block: Some(BbName(Name::from_internal(next))),
    }
}

/// Ends the program.
pub fn exit() -> (t: Terminator)
    ensures
        is_intrinsic(t, IntrinsicOp::Exit, Seq::empty(), None),
        stores_nothing(t),
{
    Terminator::Intrinsic {
        intrinsic: IntrinsicOp::Exit,
        arguments: Vec::new(),
        ret: zst_place(),
        next_block: None,
    }
}

/// Returns from the function.
pub fn return_() -> (t: Terminator)
    ensures
        t == Terminator::Return,
{
    Terminator::Return
}

/// Starts a thread that runs `fn_ptr` on `data_ptr`, and stores its number
/// in `ret`.
pub fn spawn(fn_ptr: ValueExpr, data_ptr: ValueExpr, ret: PlaceExpr, next: u32) -> (t: Terminator)
    ensures
        is_intrinsic(t, IntrinsicOp::Spawn, seq![fn_ptr, data_ptr], Some(block(next))),
        stores_in(t, ret),
{
    Terminator::Intrinsic {
        intrinsic: IntrinsicOp::Spawn,
        arguments: vec![fn_ptr, data_ptr],
        ret,
        next_block: Some(BbName(Name::from_internal(next))),
    }
}

/// Waits for the thread `thread_id` to end.
pub fn join(thread_id: ValueExpr, next: u32) -> (t: Terminator)
    ensures
        is_intrinsic(t, IntrinsicOp::Join, seq![thread_id], Some(block(next))),
        stores_nothing(t),
{
    Terminator::Intrinsic {
        intrinsic: IntrinsicOp::Join,
        arguments: vec![thread_id],
        ret: zst_place(),
        next_block: Some(BbName(Name::from_internal(next))),
    }
}

/// Stores `src` at `ptr` in one step.
pub fn atomic_store(ptr: ValueExpr, src: ValueExpr, next: u32) -> (t: Terminator)
    ensures
        is_intrinsic(t, IntrinsicOp::AtomicStore, seq![ptr, src], Some(block(next))),
        stores_nothing(t),
{
    Terminator::Intrinsic {
        intrinsic: IntrinsicOp::AtomicStore,
        arguments: vec![ptr, src],
        ret: zst_place(),
        next_block: Some(BbName(Name::from_internal(next))),
    }
}

/// Loads what is at `ptr` into `dest` in one step.
pub fn atomic_load(dest: PlaceExpr, ptr: ValueExpr, next: u32) -> (t: Terminator)
    ensures
        is_intrinsic(t, IntrinsicOp::AtomicLoad, seq![ptr], Some(block(next))),
        stores_in(t, dest),
{
    Terminator::Intrinsic {
        intrinsic: IntrinsicOp::AtomicLoad,
        arguments: vec![ptr],
        ret: dest,
        next_block: Some(BbName(Name::from_internal(next))),
    }
}

/// The operations that an atomic fetch can combine with.
#[derive(Clone, Copy, Debug, PartialEq, Eq, Structural)]
pub enum FetchBinOp {
    Add,
    Sub,
}

/// The operator on integers that `binop` stands for.
pub open spec fn fetch_operator(binop: FetchBinOp) -> IntBinOp {
    match binop {
        FetchBinOp::Add => IntBinOp::Add,
        FetchBinOp::Sub => IntBinOp::Sub,
    }
}

/// Combines what is at `ptr` with `other` in one step, and stores what was
/// there before in `dest`.
pub fn atomic_fetch(
    binop: FetchBinOp,
    dest: PlaceExpr,
    ptr: ValueExpr,
    other: ValueExpr,
    next: u32,
) -> (t: Terminator)
    ensures
        is_intrinsic(
            t,
            IntrinsicOp::AtomicFetchAndOp(fetch_operator(binop)),
            seq![ptr, other],
            Some(block(next)),
        ),
        stores_in(t, dest),
{
    let binop = match binop {
        FetchBinOp::Add => IntBinOp::Add,
        FetchBinOp::Sub => IntBinOp::Sub,
    };

    Terminator::Intrinsic {
        intrinsic: IntrinsicOp::AtomicFetchAndOp(binop),
        arguments: vec![ptr, other],
        ret: dest,
        next_block: Some(BbName(Name::from_internal(next))),
    }
}

/// Puts `next_val` at `ptr` in one step where `current` is there, and stores
/// what was there before in `dest`.
pub fn compare_exchange(
    dest: PlaceExpr,
    ptr: ValueExpr,
    current: ValueExpr,
    next_val: ValueExpr,
    next: u32,
) -> (t: Terminator)
    ensures
        is_intrinsic(
            t,
            IntrinsicOp::AtomicCompareExchange,
            seq![ptr, current, next_val],
            Some(block(next)),
        ),
        stores_in(t, dest),
{
    Terminator::Intrinsic {
        intrinsic: IntrinsicOp::AtomicCompareExchange,
        arguments: vec![ptr, current, next_val],
        ret: dest,
        next_block: Some(BbName(Name::from_internal(next))),
    }
}

/// Stores the address of `ptr` in `dest`, and exposes what it points to.
pub fn expose_provenance(dest: PlaceExpr, ptr: ValueExpr, next: u32) -> (t: Terminator)
    ensures
        is_intrinsic(t, IntrinsicOp::PointerExposeProvenance, seq![ptr], Some(block(next))),
        stores_in(t, dest),
{
    Terminator::Intrinsic {
        intrinsic: IntrinsicOp::PointerExposeProvenance,
        arguments: vec![ptr],
        ret: dest,
        next_block: Some(BbName(Name::from_internal(next))),
    }
}

/// Stores in `dest` a pointer to the address `addr`, with what was exposed
/// there to point to.
pub fn with_exposed_provenance(dest: PlaceExpr, addr: ValueExpr, next: u32) -> (t: Terminator)
    ensures
        is_intrinsic(t, IntrinsicOp::PointerWithExposedProvenance, seq![addr], Some(block(next))),
        stores_in(t, dest),
{
    Terminator::Intrinsic {
        intrinsic: IntrinsicOp::PointerWithExposedProvenance,
        arguments: vec![addr],
        ret: dest,
        next_block: Some(BbName(Name::from_internal(next))),
    }
}

/// Makes a lock and stores its number in `ret`.
pub fn lock_create(ret: PlaceExpr, next: u32) -> (t: Terminator)
    ensures
        is_intrinsic(
            t,
            IntrinsicOp::Lock(IntrinsicLockOp::Create),
            Seq::empty(),
            Some(block(next)),
        ),
        stores_in(t, ret),
{
    Terminator::Intrinsic {
        intrinsic: IntrinsicOp::Lock(IntrinsicLockOp::Create),
        arguments: Vec::new(),
        ret,
        next_block: Some(BbName(Name::from_internal(next))),
    }
}

/// Takes the lock `lock_id`.
pub fn lock_acquire(lock_id: ValueExpr, next: u32) -> (t: Terminator)
    ensures
        is_intrinsic(
            t,
            IntrinsicOp::Lock(IntrinsicLockOp::Acquire),
            seq![lock_id],
            Some(block(next)),
        ),
        stores_nothing(t),
{
    Terminator::Intrinsic {
        intrinsic: IntrinsicOp::Lock(IntrinsicLockOp::Acquire),
        arguments: vec![lock_id],
        ret: zst_place(),
        next_block: Some(BbName(Name::from_internal(next))),
    }
}

/// Gives the lock `lock_id` back.
pub fn lock_release(lock_id: ValueExpr, next: u32) -> (t: Terminator)
    ensures
        is_intrinsic(
            t,
            IntrinsicOp::Lock(IntrinsicLockOp::Release),
            seq![lock_id],
            Some(block(next)),
        ),
        stores_nothing(t),
{
    Terminator::Intrinsic {
        intrinsic: IntrinsicOp::Lock(IntrinsicLockOp::Release),
        arguments: vec![lock_id],
        ret: zst_place(),
        next_block: Some(BbName(Name::from_internal(next))),
    }
}

} // verus!
