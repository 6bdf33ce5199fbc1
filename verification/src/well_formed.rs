//! What is asked of a program before it may run.
use crate::integer::{Int, Offset, Size};
use crate::program::{Function, Program};
use crate::storage::{flow_fault, flow_wf, lemma_fault_excludes_order};
use crate::types::{Type, Variant};
use vstd::prelude::*;

verus! {

/// Why a program is not well formed.
#[derive(Clone, Copy, Debug, PartialEq, Eq, Structural)]
pub enum IllFormed {
    /// An integer type has no width, or one of more than 128 bits.
    IntWidth,
    /// An array type has a negative count.
    NegativeArrayCount,
    /// A field of a tuple ends behind the tuple.
    FieldOutOfBounds,
    /// A type is too large for its values to be addressed.
    SizeNotValid,
    /// The function to start with is not among the functions.
    StartFunctionMissing,
    /// A statement names a local that the function does not have.
    NoSuchLocal,
    /// A local gets storage that it has.
    LocalAlreadyLive,
    /// A local loses storage that it does not have.
    LocalAlreadyDead,
    /// A block to go on with, or the block to start with, is not among the
    /// blocks.
    NoSuchBlock,
    /// A block is entered with different locals live on different ways.
    LiveLocalsDiffer,
}

impl IllFormed {
    /// The fault in words.
    pub open spec fn message_spec(self) -> Seq<char> {
        match self {
            IllFormed::IntWidth => "Type::Int: width is not supported"@,
            IllFormed::NegativeArrayCount => "Type::Array: negative amount of elements"@,
            IllFormed::FieldOutOfBounds => "Type::Tuple: field lies outside the tuple"@,
            IllFormed::SizeNotValid => "Type: size not valid"@,
            IllFormed::StartFunctionMissing => "Program: start function does not exist"@,
            IllFormed::NoSuchLocal => "Statement: local does not exist"@,
            IllFormed::LocalAlreadyLive => "Statement::StorageLive: local already live"@,
            IllFormed::LocalAlreadyDead => "Statement::StorageDead: local already dead"@,
            IllFormed::NoSuchBlock => "Function: block does not exist"@,
            IllFormed::LiveLocalsDiffer => "Function: live locals at block entry differ"@,
        }
    }

    /// The fault in words.
    pub fn message(&self) -> (s: &'static str)
        ensures
            s@ == self.message_spec(),
    {
        match self {
            IllFormed::IntWidth => "Type::Int: width is not supported",
            IllFormed::NegativeArrayCount => "Type::Array: negative amount of elements",
            IllFormed::FieldOutOfBounds => "Type::Tuple: field lies outside the tuple",
            IllFormed::SizeNotValid => "Type: size not valid",
            IllFormed::StartFunctionMissing => "Program: start function does not exist",
            IllFormed::NoSuchLocal => "Statement: local does not exist",
            IllFormed::LocalAlreadyLive => "Statement::StorageLive: local already live",
            IllFormed::LocalAlreadyDead => "Statement::StorageDead: local already dead",
            IllFormed::NoSuchBlock => "Function: block does not exist",
            IllFormed::LiveLocalsDiffer => "Function: live locals at block entry differ",
        }
    }
}

/// The size of a pointer in bytes.
pub open spec fn pointer_size() -> int {
    8
}

/// The least size that is too large: values must leave room to address each
/// of their bytes by a signed offset of the width of a pointer.
pub open spec fn size_limit() -> int {
    0x8000_0000_0000_0000
}

/// The size of the values of a type in bytes.
pub open spec fn type_size(ty: Type) -> int
    decreases ty,
{
    match ty {
        Type::Int(ity) => ity.size.bytes as int,
        Type::Bool => 1,
        Type::Ptr(_) => pointer_size(),
        Type::Tuple { size, .. } => size.bytes as int,
        Type::Array { elem, count } => if count@ < 0 {
            0
        } else {
            type_size(*elem) * count@
        },
        Type::Enum(e) => e.size.bytes as int,
    }
}

/// The first fault of a type, in reading order: in its parts before in itself,
/// and its size last.
pub open spec fn type_fault(ty: Type) -> Option<IllFormed>
    decreases ty, 0nat,
{
    let inner = match ty {
        Type::Int(ity) => if ity.wf() {
            None
        } else {
            Some(IllFormed::IntWidth)
        },
        Type::Bool => None,
        Type::Ptr(_) => None,
        Type::Tuple { fields, size, .. } => fields_fault(fields, size, fields@.len()),
        Type::Array { elem, count } => if count@ < 0 {
            Some(IllFormed::NegativeArrayCount)
        } else {
            type_fault(*elem)
        },
        Type::Enum(e) => variants_fault(e.variants, e.variants@.len()),
    };
    match inner {
        Some(fault) => Some(fault),
        None => if type_size(ty) >= size_limit() {
            Some(IllFormed::SizeNotValid)
        } else {
            None
        },
    }
}

/// The first fault among the first `n` fields of a tuple of the given size: a
/// fault of the type of a field, or that the field ends behind the tuple.
pub open spec fn fields_fault(fields: Vec<(Offset, Type)>, size: Size, n: nat) -> Option<IllFormed>
    decreases fields, n,
{
    if n == 0 || n > fields@.len() {
        None
    } else {
        match fields_fault(fields, size, (n - 1) as nat) {
            Some(fault) => Some(fault),
            None => match type_fault(fields@[n - 1].1) {
                Some(fault) => Some(fault),
                None => if fields@[n - 1].0.bytes + type_size(fields@[n - 1].1) > size.bytes {
                    Some(IllFormed::FieldOutOfBounds)
                } else {
                    None
                },
            },
        }
    }
}

/// The first fault among the types of the first `n` variants.
pub open spec fn variants_fault(variants: Vec<(Int, Variant)>, n: nat) -> Option<IllFormed>
    decreases variants, n,
{
    if n == 0 || n > variants@.len() {
        None
    } else {
        match variants_fault(variants, (n - 1) as nat) {
            Some(fault) => Some(fault),
            None => type_fault(variants@[n - 1].1.ty),
        }
    }
}

/// The first fault among the first `n` of the types.
pub open spec fn types_fault(types: Seq<Type>, n: nat) -> Option<IllFormed>
    decreases n,
{
    if n == 0 || n > types.len() {
        None
    } else {
        match types_fault(types, (n - 1) as nat) {
            Some(fault) => Some(fault),
            None => type_fault(types[n - 1]),
        }
    }
}

/// The size of the values of a type, where it is below the limit.
pub fn valid_size(ty: &Type) -> (r: Option<u64>)
    ensures
        0 <= type_size(*ty),
        type_size(*ty) < size_limit() ==> r == Some(type_size(*ty) as u64),
        type_size(*ty) >= size_limit() ==> r is None,
    decreases ty,
{
    let size: u64 = match ty {
        Type::Int(ity) => ity.size.bytes,
        Type::Bool => 1,
        Type::Ptr(_) => 8,
        Type::Tuple { size, .. } => size.bytes,
        Type::Array { elem, count } => {
            let each: &Type = &**elem;
            let each_size = valid_size(each);
            proof {
                count.lemma_view_in_range();
                if count@ >= 0 {
                    assert(type_size(*each) * count@ >= 0) by (nonlinear_arith)
                        requires
                            type_size(*each) >= 0,
                            count@ >= 0,
                    ;
                }
            }
            let number: u128 = match count.to_u128() {
                Some(number) => number,
                None => {
                    return Some(0);
                },
            };
            if number == 0 {
                assert(type_size(*each) * 0 == 0);
                return Some(0);
            }
            let each_size: u64 = match each_size {
                Some(each_size) => each_size,
                None => {
                    assert(type_size(*each) * number >= size_limit()) by (nonlinear_arith)
                        requires
                            type_size(*each) >= size_limit(),
                            number >= 1,
                            size_limit() > 0,
                    ;
                    return None;
                },
            };
            if each_size == 0 {
                assert(0 * number == 0);
                return Some(0);
            }
            if number >= 0x8000_0000_0000_0000 {
                assert(each_size * number >= size_limit()) by (nonlinear_arith)
                    requires
                        each_size >= 1,
                        number >= size_limit(),
                ;
                return None;
            }
            assert(each_size * number < 0x4000_0000_0000_0000_0000_0000_0000_0000)
                by (nonlinear_arith)
                requires
                    each_size < 0x8000_0000_0000_0000,
                    number < 0x8000_0000_0000_0000,
            ;
            let total: u128 = each_size as u128 * number;
            if total >= 0x8000_0000_0000_0000 {
                return None;
            }
            total as u64
        },
        Type::Enum(e) => e.size.bytes,
    };
    if size >= 0x8000_0000_0000_0000 {
        None
    } else {
        Some(size)
    }
}

/// Checks a type: its first fault, if it has one.
pub fn check_type(ty: &Type) -> (r: Result<(), IllFormed>)
    ensures
        match type_fault(*ty) {
            Some(fault) => r == Err::<(), _>(fault),
            None => r is Ok,
        },
    decreases ty,
{
    match ty {
        Type::Int(ity) => {
            if !ity.is_wf() {
                return Err(IllFormed::IntWidth);
            }
        },
        Type::Bool => {},
        Type::Ptr(_) => {},
        Type::Tuple { fields, size, .. } => {
            let n = fields.len();
            let mut i: usize = 0;
            while i < n
                invariant
                    i <= n == fields@.len(),
                    ty == (Type::Tuple { fields: *fields, size: *size, align: ty->Tuple_align }),
                    fields_fault(*fields, *size, i as nat) is None,
                decreases n - i,
            {
                match check_type(&fields[i].1) {
                    Ok(()) => {},
                    Err(fault) => {
                        proof {
                            lemma_fields_fault_stays(*fields, *size, (i + 1) as nat, n as nat);
                        }
                        return Err(fault);
                    },
                }
                assert(type_fault(fields@[i as int].1) is None);
                let inside = match valid_size(&fields[i].1) {
                    Some(s) => fields[i].0.bytes <= size.bytes && s <= size.bytes
                        - fields[i].0.bytes,
                    None => false,
                };
                if !inside {
                    proof {
                        assert(fields_fault(*fields, *size, (i + 1) as nat) == Some(
                            IllFormed::FieldOutOfBounds,
                        ));
                        lemma_fields_fault_stays(*fields, *size, (i + 1) as nat, n as nat);
                    }
                    return Err(IllFormed::FieldOutOfBounds);
                }
                assert(fields_fault(*fields, *size, (i + 1) as nat) is None);
                i = i + 1;
            }
        },
        Type::Array { elem, count } => {
            if count.lt(&Int::zero()) {
                return Err(IllFormed::NegativeArrayCount);
            }
            let each: &Type = &**elem;
            match check_type(each) {
                Ok(()) => {},
                Err(fault) => {
                    return Err(fault);
                },
            }
        },
        Type::Enum(e) => {
            let n = e.variants.len();
            let mut i: usize = 0;
            while i < n
                invariant
                    i <= n == e.variants@.len(),
                    ty == Type::Enum(*e),
                    variants_fault(e.variants, i as nat) is None,
                decreases n - i,
            {
                match check_type(&e.variants[i].1.ty) {
                    Ok(()) => {},
                    Err(fault) => {
                        proof {
                            lemma_variants_fault_stays(e.variants, (i + 1) as nat, n as nat);
                        }
                        return Err(fault);
                    },
                }
                i = i + 1;
            }
        },
    }
    match valid_size(ty) {
        Some(_) => Ok(()),
        None => Err(IllFormed::SizeNotValid),
    }
}

/// A fault among the first fields is the first fault among more of them.
pub proof fn lemma_fields_fault_stays(fields: Vec<(Offset, Type)>, size: Size, k: nat, n: nat)
    requires
        fields_fault(fields, size, k) is Some,
        k <= n <= fields@.len(),
    ensures
        fields_fault(fields, size, n) == fields_fault(fields, size, k),
    decreases n,
{
    if k < n {
        lemma_fields_fault_stays(fields, size, k, (n - 1) as nat);
    }
}

/// A fault among the first variants is the first fault among more of them.
pub proof fn lemma_variants_fault_stays(variants: Vec<(Int, Variant)>, k: nat, n: nat)
    requires
        variants_fault(variants, k) is Some,
        k <= n <= variants@.len(),
    ensures
        variants_fault(variants, n) == variants_fault(variants, k),
    decreases n,
{
    if k < n {
        lemma_variants_fault_stays(variants, k, (n - 1) as nat);
    }
}

/// A fault among the first types is the first fault among more of them.
pub proof fn lemma_types_fault_stays(types: Seq<Type>, k: nat, n: nat)
    requires
        types_fault(types, k) is Some,
        k <= n <= types.len(),
    ensures
        types_fault(types, n) == types_fault(types, k),
    decreases n,
{
    if k < n {
        lemma_types_fault_stays(types, k, (n - 1) as nat);
    }
}

impl Function {
    /// Whether the function is well formed: the types of its locals are, and
    /// the storage of its locals is in order.
    pub open spec fn wf(self) -> bool {
        types_fault(self.locals@, self.locals@.len()) is None && flow_wf(self)
    }

    /// Whether the function has the fault `fault`: as the first fault among
    /// the types of its locals, or, where these have none, in the storage of
    /// its locals.
    pub open spec fn has_fault(self, fault: IllFormed) -> bool {
        match types_fault(self.locals@, self.locals@.len()) {
            Some(first) => first == fault,
            None => flow_fault(self, fault),
        }
    }

    /// A function with a fault is not well formed.
    pub proof fn lemma_fault_excludes_wf(self, fault: IllFormed)
        requires
            self.has_fault(fault),
        ensures
            !self.wf(),
    {
        if types_fault(self.locals@, self.locals@.len()) is None {
            lemma_fault_excludes_order(self, fault);
        }
    }

    /// Checks the function: the types of its locals, then the storage of its
    /// locals.
    pub fn check_wf(&self) -> (r: Result<(), IllFormed>)
        ensures
            r is Ok <==> self.wf(),
            r matches Err(fault) ==> self.has_fault(fault),
    {
        let n = self.locals.len();
        let mut i: usize = 0;
        while i < n
            invariant
                i <= n == self.locals@.len(),
                types_fault(self.locals@, i as nat) is None,
            decreases n - i,
        {
            match check_type(&self.locals[i]) {
                Ok(()) => {},
                Err(fault) => {
                    proof {
                        lemma_types_fault_stays(self.locals@, (i + 1) as nat, n as nat);
                    }
                    return Err(fault);
                },
            }
            i = i + 1;
        }
        self.check_storage()
    }
}

impl Program {
    /// Whether the program is well formed: its functions are, and the one to
    /// start with is among them.
    pub open spec fn wf(self) -> bool {
        &&& forall|i: int| 0 <= i < self.functions@.len() ==> (#[trigger] self.functions@[i]).wf()
        &&& self.start.0.0 < self.functions@.len()
    }

    /// Whether the program has the fault `fault`: one of its functions has
    /// it, or the function to start with is missing.
    pub open spec fn has_fault(self, fault: IllFormed) -> bool {
        ||| exists|i: int|
            0 <= i < self.functions@.len() && (#[trigger] self.functions@[i]).has_fault(fault)
        ||| fault == IllFormed::StartFunctionMissing && self.start.0.0 >= self.functions@.len()
    }

    /// A program with a fault is not well formed.
    pub proof fn lemma_fault_excludes_wf(self, fault: IllFormed)
        requires
            self.has_fault(fault),
        ensures
            !self.wf(),
    {
        if exists|i: int|
            0 <= i < self.functions@.len() && (#[trigger] self.functions@[i]).has_fault(fault) {
            let i = choose|i: int|
                0 <= i < self.functions@.len() && (#[trigger] self.functions@[i]).has_fault(fault);
            self.functions@[i].lemma_fault_excludes_wf(fault);
        }
    }

    /// Checks the program: its functions in their order, then that the one
    /// to start with is among them.
    pub fn check_wf(&self) -> (r: Result<(), IllFormed>)
        ensures
            r is Ok <==> self.wf(),
            r matches Err(fault) ==> self.has_fault(fault),
    {
        let n = self.functions.len();
        let mut i: usize = 0;
        while i < n
            invariant
                i <= n == self.functions@.len(),
                forall|k: int| 0 <= k < i ==> (#[trigger] self.functions@[k]).wf(),
            decreases n - i,
        {
            match self.functions[i].check_wf() {
                Ok(()) => {},
                Err(fault) => {
                    return Err(fault);
                },
            }
            i = i + 1;
        }
        let start = self.start.0.0;
        if start as usize >= n {
            return Err(IllFormed::StartFunctionMissing);
        }
        Ok(())
    }
}

} // verus!
