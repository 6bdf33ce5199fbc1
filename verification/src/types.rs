//! The types of the target language, with the encoding of enumerated types.
use crate::integer::{Align, Int, IntType, Offset, Size};
use std::rc::Rc;
use vstd::prelude::*;

verus! {

/// The kinds of pointer types.
#[derive(Clone, Copy, Debug, PartialEq, Eq, Structural)]
pub enum PtrType {
    Raw,
    FnPtr,
}

/// One tag write: the integer `value` of type `ty` goes to `offset`.
#[derive(Clone, Copy, Debug, PartialEq, Eq, Structural)]
pub struct TagWrite {
    pub offset: Offset,
    pub ty: IntType,
    pub value: Int,
}

/// One variant of an enumerated type: its fields, and the writes that mark a
/// value as being of this variant.
#[derive(Debug, PartialEq, Eq)]
pub struct Variant {
    pub ty: Type,
    pub tagger: Vec<TagWrite>,
}

/// One entry of a branch: the values from `lo` to `hi`, both included, lead
/// to `target`.
#[derive(Debug, PartialEq, Eq)]
pub struct Child {
    pub lo: Int,
    pub hi: Int,
    pub target: Discriminator,
}

/// The decision structure that finds the variant a value is of.
#[derive(Debug, PartialEq, Eq)]
pub enum Discriminator {
    /// The value is of the variant with this discriminant.
    Known(Int),
    /// No variant is encoded like this.
    Invalid,
    /// Read an integer of `value_type` at `offset`; go on with the child
    /// whose range holds it, or with `fallback` where none does.
    Branch { offset: Offset, value_type: IntType, fallback: Rc<Discriminator>, children: Vec<Child> },
}

/// An enumerated type in its explicit encoding.
#[derive(Debug, PartialEq, Eq)]
pub struct EnumType {
    /// The variants, each under its discriminant.
    pub variants: Vec<(Int, Variant)>,
    pub discriminator: Discriminator,
    pub discriminant_ty: IntType,
    pub size: Size,
    pub align: Align,
}

/// A type of the target language.
#[derive(Debug, PartialEq, Eq)]
pub enum Type {
    Int(IntType),
    Bool,
    Ptr(PtrType),
    /// Fields at offsets, in a representation of fixed size and alignment.
    Tuple { fields: Vec<(Offset, Type)>, size: Size, align: Align },
    Array { elem: Rc<Type>, count: Int },
    Enum(EnumType),
}

impl TagWrite {
    /// Whether the write is one of a value of its integer type, within `size`
    /// bytes.
    pub open spec fn lies_within(self, size: Size) -> bool {
        &&& self.ty.wf()
        &&& self.ty.contains(self.value@)
        &&& self.offset.bytes + self.ty.size.bytes <= size.bytes
    }
}

impl Child {
    /// Whether the range of this child holds `v`.
    pub open spec fn holds(self, v: int) -> bool {
        self.lo@ <= v <= self.hi@
    }

    /// Whether the ranges of the two children have a value in common.
    pub open spec fn overlaps(self, other: Child) -> bool {
        self.lo@ <= other.hi@ && other.lo@ <= self.hi@
    }
}

/// Whether no two of the children have a value in common.
pub open spec fn pairwise_disjoint(children: Seq<Child>) -> bool {
    forall|j: int, k: int|
        0 <= j < k < children.len() ==> !(#[trigger] children[j]).overlaps(#[trigger] children[k])
}

/// The first child whose range holds `v`.
pub open spec fn find_child(children: Seq<Child>, v: int) -> Option<int>
    decreases children.len(),
{
    if children.len() == 0 {
        None
    } else if children[0].holds(v) {
        Some(0)
    } else {
        match find_child(children.skip(1), v) {
            Some(k) => Some(k + 1),
            None => None,
        }
    }
}

impl Discriminator {
    /// Whether every branch in the tree is well formed: each range runs from
    /// a lower to an upper bound, and no two ranges of one branch overlap.
    pub open spec fn wf(self) -> bool
        decreases self,
    {
        match self {
            Discriminator::Known(_) => true,
            Discriminator::Invalid => true,
            Discriminator::Branch { offset, value_type, fallback, children } => {
                &&& value_type.wf()
                &&& fallback.wf()
                &&& pairwise_disjoint(children@)
                &&& forall|k: int|
                    0 <= k < children@.len() ==> {
                        &&& (#[trigger] children@[k]).lo@ <= children@[k].hi@
                        &&& children@[k].target.wf()
                    }
            },
        }
    }

    /// Whether every variant that the tree can decide on is among `keys`.
    pub open spec fn decides_within(self, keys: Set<int>) -> bool
        decreases self,
    {
        match self {
            Discriminator::Known(v) => keys.contains(v@),
            Discriminator::Invalid => true,
            Discriminator::Branch { offset, value_type, fallback, children } => {
                &&& fallback.decides_within(keys)
                &&& forall|k: int|
                    0 <= k < children@.len() ==> (#[trigger] children@[k]).target.decides_within(
                        keys,
                    )
            },
        }
    }
}

impl EnumType {
    /// The discriminants of the variants, in the order of the entries.
    pub open spec fn keys(self) -> Seq<int> {
        Seq::new(self.variants@.len(), |i: int| self.variants@[i].0@)
    }

    /// Whether the type keeps its invariants: no discriminant occurs twice, the
    /// discriminator is well formed and decides on variants of the type only,
    /// every variant has the size and alignment of the type, and every tag
    /// write lies within the type and writes a value of its integer type.
    pub open spec fn wf(self) -> bool {
        &&& self.discriminant_ty.wf()
        &&& self.keys().no_duplicates()
        &&& self.discriminator.wf()
        &&& self.discriminator.decides_within(self.keys().to_set())
        &&& forall|i: int, k: int|
            0 <= i < self.variants@.len() && 0 <= k < self.variants@[i].1.tagger@.len() ==> (
            #[trigger] self.variants@[i].1.tagger@[k]).lies_within(self.size)
        &&& forall|i: int|
            0 <= i < self.variants@.len() ==> ((#[trigger] self.variants@[i]).1.ty matches Type::Tuple {
                size,
                align,
                ..
            } && size == self.size && align == self.align)
    }
}

} // verus!
