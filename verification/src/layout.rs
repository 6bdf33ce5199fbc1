//! What a layout engine has decided about an enumerated type: the input of
//! the translation.
use crate::integer::{Align, Offset, Size};
use crate::types::Type;
use vstd::prelude::*;

verus! {

/// The offsets of the fields of one variant, by field index.
#[derive(Debug, PartialEq, Eq)]
pub struct FieldsShape {
    pub offsets: Vec<Offset>,
}

/// One declared variant: the bit pattern of its discriminant at the
/// discriminant type, and the types of its fields.
#[derive(Debug, PartialEq, Eq)]
pub struct VariantDef {
    pub discriminant: u128,
    pub fields: Vec<Type>,
}

/// The kinds of algebraic data types.
#[derive(Clone, Copy, Debug, PartialEq, Eq, Structural)]
pub enum AdtKind {
    Struct,
    Union,
    Enum,
}

/// The declaration of an algebraic data type.
#[derive(Debug, PartialEq, Eq)]
pub struct AdtDef {
    pub kind: AdtKind,
    /// The type of the discriminants.
    pub discriminant_ty: Type,
    pub variants: Vec<VariantDef>,
}

/// A source type, as far as the translation tells source types apart.
#[derive(Debug, PartialEq, Eq)]
pub enum TyKind {
    Adt(AdtDef),
    Other,
}

/// The bit patterns from `start` to `end`, both included; where `end` is
/// below `start`, the range runs from `start` up to the greatest value and on
/// from the least up to `end`.
#[derive(Clone, Copy, Debug, PartialEq, Eq, Structural)]
pub struct WrappingRange {
    pub start: u128,
    pub end: u128,
}

/// The variants from `start` to `end`, both included, by index.
#[derive(Clone, Copy, Debug, PartialEq, Eq, Structural)]
pub struct VariantRange {
    pub start: usize,
    pub end: usize,
}

/// How the tag tells the variants apart.
#[derive(Clone, Copy, Debug, PartialEq, Eq, Structural)]
pub enum TagEncoding {
    /// The tag holds the discriminant.
    Direct,
    /// The variant `untagged_variant` is recognised by the tag holding none of
    /// the values given to the others; the variant `niche_variants.start` has
    /// the tag value `niche_start`, and the values of the others follow from
    /// their discriminants.
    Niche { untagged_variant: usize, niche_variants: VariantRange, niche_start: u128 },
}

/// How the variants of a type are laid out.
#[derive(Debug, PartialEq, Eq)]
pub enum Variants {
    /// Every value is of the variant `index`; there is no tag.
    Single { index: usize },
    /// A tag of type `tag_ty`, which is the field `tag_field` of the layout,
    /// tells the variants apart; `variants` gives the shape of each.
    Multiple {
        tag_ty: Type,
        tag_valid_range: WrappingRange,
        tag_encoding: TagEncoding,
        tag_field: usize,
        variants: Vec<FieldsShape>,
    },
}

/// The layout of a type.
#[derive(Debug, PartialEq, Eq)]
pub struct Layout {
    pub size: Size,
    pub align: Align,
    pub fields: FieldsShape,
    pub variants: Variants,
}

} // verus!
