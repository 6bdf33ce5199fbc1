//! The translation of an enumerated type from its layout.
use crate::integer::{
    int_from_bits, int_from_bits_spec, int_limit, lemma_domain_in_range,
    lemma_wrap_congruent_wide, lemma_wrap_in_domain, Align, Int, IntType, Offset, Size,
};
use crate::layout::{
    AdtDef, AdtKind, FieldsShape, Layout, TagEncoding, TyKind, VariantDef, Variants,
    WrappingRange,
};
use crate::types::{pairwise_disjoint, Child, Discriminator, EnumType, TagWrite, Type, Variant};
use std::rc::Rc;
use vstd::prelude::*;

verus! {

/// Why a type could not be translated.
#[derive(Clone, Copy, Debug, PartialEq, Eq, Structural)]
pub enum TranslateError {
    /// The type is not an enumerated type.
    NotAnEnum,
    /// The discriminant type is not an integer type.
    DiscriminantNotInteger,
    /// The tag is not of an integer type.
    TagNotInteger,
    /// An integer type has no width, or one of more than 128 bits.
    UnsupportedWidth,
    /// A variant index names no variant of the declaration.
    NoSuchVariant,
    /// The layout lacks the offset of a field, the shape of a variant or the
    /// tag field, or puts the tag outside the type.
    MalformedLayout,
    /// Two variants have the same discriminant.
    DuplicateDiscriminant,
    /// Two ranges of tag values overlap.
    OverlappingTagRanges,
}

/// The fields of a variant at their offsets.
pub open spec fn fields_at(shape: FieldsShape, fields: Seq<Type>) -> Seq<(Offset, Type)> {
    Seq::new(fields.len(), |j: int| (shape.offsets@[j], fields[j]))
}

/// Pairs each field of a variant with its offset.
pub fn translate_fields(shape: &FieldsShape, variant: VariantDef) -> (r: Result<
    Vec<(Offset, Type)>,
    TranslateError,
>)
    ensures
        shape.offsets@.len() >= variant.fields@.len() ==> (r matches Ok(fields) && fields@
            == fields_at(*shape, variant.fields@)),
        shape.offsets@.len() < variant.fields@.len() ==> r == Err::<Vec<(Offset, Type)>, _>(
            TranslateError::MalformedLayout,
        ),
{
    if shape.offsets.len() < variant.fields.len() {
        return Err(TranslateError::MalformedLayout);
    }
    let ghost declared = variant.fields@;
    let n = shape.offsets.len();
    let mut out: Vec<(Offset, Type)> = Vec::new();
    let mut i: usize = 0;
    for ty in it: variant.fields
        invariant
            it.seq() == declared,
            i == it.index(),
            declared.len() <= n == shape.offsets@.len(),
            out@ == fields_at(*shape, declared.take(i as int)),
    {
        out.push((shape.offsets[i], ty));
        i = i + 1;
    }
    assert(declared.take(i as int) == declared);
    Ok(out)
}

/// The integer type of the discriminants of `def`.
pub open spec fn discriminant_type(def: AdtDef) -> Result<IntType, TranslateError> {
    match def.discriminant_ty {
        Type::Int(ity) => if ity.wf() {
            Ok(ity)
        } else {
            Err(TranslateError::UnsupportedWidth)
        },
        _ => Err(TranslateError::DiscriminantNotInteger),
    }
}

/// The discriminant of the variant `i` of `def`, read at the type `dty`.
pub open spec fn discriminant_of(def: AdtDef, dty: IntType, i: int) -> int {
    int_from_bits_spec(def.variants@[i].discriminant, dty)
}

/// The discriminant of one variant of an enumerated type.
pub open spec fn discriminant_for_variant_spec(ty: TyKind, variant_idx: int) -> Result<
    int,
    TranslateError,
> {
    match ty {
        TyKind::Adt(def) => if def.kind != AdtKind::Enum {
            Err(TranslateError::NotAnEnum)
        } else {
            match discriminant_type(def) {
                Err(e) => Err(e),
                Ok(dty) => if variant_idx >= def.variants@.len() {
                    Err(TranslateError::NoSuchVariant)
                } else {
                    Ok(discriminant_of(def, dty, variant_idx))
                },
            }
        },
        TyKind::Other => Err(TranslateError::NotAnEnum),
    }
}

/// The integer type of the discriminants of `def`.
pub fn resolve_discriminant_type(def: &AdtDef) -> (r: Result<IntType, TranslateError>)
    ensures
        r == discriminant_type(*def),
{
    match &def.discriminant_ty {
        Type::Int(ity) => if ity.is_wf() {
            Ok(*ity)
        } else {
            Err(TranslateError::UnsupportedWidth)
        },
        _ => Err(TranslateError::DiscriminantNotInteger),
    }
}

/// The discriminant of the variant `variant_idx` of the enumerated type `ty`.
pub fn discriminant_for_variant(ty: &TyKind, variant_idx: usize) -> (r: Result<
    Int,
    TranslateError,
>)
    ensures
        match discriminant_for_variant_spec(*ty, variant_idx as int) {
            Ok(d) => r matches Ok(x) && x@ == d,
            Err(e) => r == Err::<Int, _>(e),
        },
{
    match ty {
        TyKind::Adt(def) => {
            match def.kind {
                AdtKind::Enum => {},
                _ => {
                    return Err(TranslateError::NotAnEnum);
                },
            }
            let dty = match resolve_discriminant_type(def) {
                Ok(dty) => dty,
                Err(e) => {
                    return Err(e);
                },
            };
            if variant_idx >= def.variants.len() {
                return Err(TranslateError::NoSuchVariant);
            }
            Ok(int_from_bits(def.variants[variant_idx].discriminant, dty))
        },
        TyKind::Other => Err(TranslateError::NotAnEnum),
    }
}


/// The integer type of a tag.
pub open spec fn tag_type(tag_ty: Type) -> Result<IntType, TranslateError> {
    match tag_ty {
        Type::Int(ity) => if ity.wf() {
            Ok(ity)
        } else {
            Err(TranslateError::UnsupportedWidth)
        },
        _ => Err(TranslateError::TagNotInteger),
    }
}

/// Whether there is a shape for every variant of `def`, with an offset for
/// each of its fields.
pub open spec fn shapes_fit(def: AdtDef, shapes: Seq<FieldsShape>) -> bool {
    &&& shapes.len() >= def.variants@.len()
    &&& forall|i: int|
        0 <= i < def.variants@.len() ==> (#[trigger] shapes[i]).offsets@.len()
            >= def.variants@[i].fields@.len()
}

/// Whether the layout has the field `tag_field`, and a tag of type `tty`
/// there ends within the type.
pub open spec fn tag_in_bounds(layout: Layout, tag_field: int, tty: IntType) -> bool {
    &&& tag_field < layout.fields.offsets@.len()
    &&& layout.fields.offsets@[tag_field].bytes + tty.size.bytes <= layout.size.bytes
}

/// The discriminants of the variants of `def`, in order.
pub open spec fn discriminants(def: AdtDef, dty: IntType) -> Seq<int> {
    Seq::new(def.variants@.len(), |i: int| discriminant_of(def, dty, i))
}

/// The tag value of a niche variant: its discriminant, counted from the first
/// niche variant, added to the first niche value, wrapped into the tag type.
pub open spec fn niche_tag(
    discriminant: int,
    niche_variants_start: int,
    niche_start: int,
    tty: IntType,
) -> int {
    tty.wrap(discriminant - niche_variants_start + niche_start)
}

/// The value that the tag holds for the variant `i`; none for the untagged
/// variant of a niche encoding.
pub open spec fn tag_value_of(
    def: AdtDef,
    dty: IntType,
    tty: IntType,
    encoding: TagEncoding,
    i: int,
) -> Option<int> {
    match encoding {
        TagEncoding::Direct => Some(int_from_bits_spec(def.variants@[i].discriminant, tty)),
        TagEncoding::Niche { untagged_variant, niche_variants, niche_start } => if i
            == untagged_variant {
            None
        } else {
            Some(
                niche_tag(
                    discriminant_of(def, dty, i),
                    niche_variants.start as int,
                    niche_start as int,
                    tty,
                ),
            )
        },
    }
}

/// The tag writes of the variant `i`.
pub open spec fn tagger_of(
    def: AdtDef,
    dty: IntType,
    tty: IntType,
    encoding: TagEncoding,
    tag_offset: Offset,
    i: int,
) -> Seq<TagWrite> {
    match tag_value_of(def, dty, tty, encoding, i) {
        Some(t) => seq![TagWrite { offset: tag_offset, ty: tty, value: Int::of(t) }],
        None => Seq::empty(),
    }
}

/// The tag value by which the discriminator finds the variant `i`: with a
/// direct tag the discriminant itself, with a niche the tag value written.
pub open spec fn branch_key_of(
    def: AdtDef,
    dty: IntType,
    tty: IntType,
    encoding: TagEncoding,
    i: int,
) -> Option<int> {
    match encoding {
        TagEncoding::Direct => Some(discriminant_of(def, dty, i)),
        TagEncoding::Niche { .. } => tag_value_of(def, dty, tty, encoding, i),
    }
}

/// The child that leads to the variant `i`, if it has one.
pub open spec fn child_of(
    def: AdtDef,
    dty: IntType,
    tty: IntType,
    encoding: TagEncoding,
    i: int,
) -> Option<Child> {
    match branch_key_of(def, dty, tty, encoding, i) {
        Some(t) => Some(
            Child {
                lo: Int::of(t),
                hi: Int::of(t),
                target: Discriminator::Known(Int::of(discriminant_of(def, dty, i))),
            },
        ),
        None => None,
    }
}

/// The children that lead to the first `n` variants, in their order.
pub open spec fn variant_children(
    def: AdtDef,
    dty: IntType,
    tty: IntType,
    encoding: TagEncoding,
    n: nat,
) -> Seq<Child>
    decreases n,
{
    if n == 0 {
        Seq::empty()
    } else {
        let before = variant_children(def, dty, tty, encoding, (n - 1) as nat);
        match child_of(def, dty, tty, encoding, n - 1) {
            Some(c) => before.push(c),
            None => before,
        }
    }
}

/// The child that declares the values from `lo` to `hi` invalid.
pub open spec fn invalid_child(lo: int, hi: int) -> Child {
    Child { lo: Int::of(lo), hi: Int::of(hi), target: Discriminator::Invalid }
}

/// The children for the tag values outside the valid range: above and below
/// it where it does not wrap around, inside its gap where it does and leaves
/// one.
pub open spec fn gap_children(tty: IntType, valid: WrappingRange) -> Seq<Child> {
    let start = int_from_bits_spec(valid.start, tty);
    let end = int_from_bits_spec(valid.end, tty);
    if start <= end {
        let above = if end < tty.max_value() {
            seq![invalid_child(end + 1, tty.max_value())]
        } else {
            Seq::empty()
        };
        let below = if tty.min_value() < start {
            seq![invalid_child(tty.min_value(), start - 1)]
        } else {
            Seq::empty()
        };
        above + below
    } else if end + 1 < start {
        seq![invalid_child(end + 1, start - 1)]
    } else {
        Seq::empty()
    }
}

/// The children of the branch on the tag.
pub open spec fn branch_children(
    def: AdtDef,
    dty: IntType,
    tty: IntType,
    encoding: TagEncoding,
    valid: WrappingRange,
) -> Seq<Child> {
    let known = variant_children(def, dty, tty, encoding, def.variants@.len());
    match encoding {
        TagEncoding::Direct => known,
        TagEncoding::Niche { .. } => known + gap_children(tty, valid),
    }
}

/// Where the branch on the tag leads when no child holds the tag value: to
/// the untagged variant of a niche encoding, and nowhere with a direct tag.
pub open spec fn fallback_of(def: AdtDef, dty: IntType, encoding: TagEncoding) -> Discriminator {
    match encoding {
        TagEncoding::Direct => Discriminator::Invalid,
        TagEncoding::Niche { untagged_variant, .. } => Discriminator::Known(
            Int::of(discriminant_of(def, dty, untagged_variant as int)),
        ),
    }
}

/// The error on which the translation of `def` with `layout` ends, if any.
pub open spec fn translation_error(def: AdtDef, layout: Layout) -> Option<TranslateError> {
    match discriminant_type(def) {
        Err(e) => Some(e),
        Ok(dty) => match layout.variants {
            Variants::Single { index } => if index >= def.variants@.len() {
                Some(TranslateError::NoSuchVariant)
            } else if layout.fields.offsets@.len() < def.variants@[index as int].fields@.len() {
                Some(TranslateError::MalformedLayout)
            } else {
                None
            },
            Variants::Multiple { tag_ty, tag_valid_range, tag_encoding, tag_field, variants } => {
                match tag_type(tag_ty) {
                    Err(e) => Some(e),
                    Ok(tty) => if !tag_in_bounds(layout, tag_field as int, tty) || !shapes_fit(
                        def,
                        variants@,
                    ) {
                        Some(TranslateError::MalformedLayout)
                    } else if (tag_encoding matches TagEncoding::Niche { untagged_variant, .. }
                        && untagged_variant >= def.variants@.len()) {
                        Some(TranslateError::NoSuchVariant)
                    } else if !discriminants(def, dty).no_duplicates() {
                        Some(TranslateError::DuplicateDiscriminant)
                    } else if !pairwise_disjoint(
                        branch_children(def, dty, tty, tag_encoding, tag_valid_range),
                    ) {
                        Some(TranslateError::OverlappingTagRanges)
                    } else {
                        None
                    },
                }
            },
        },
    }
}

/// Whether `entry` is the variant with the discriminant `key`, the given
/// fields in a tuple of the given size and alignment, and the given tagger.
pub open spec fn variant_matches(
    entry: (Int, Variant),
    key: int,
    fields: Seq<(Offset, Type)>,
    size: Size,
    align: Align,
    tagger: Seq<TagWrite>,
) -> bool {
    &&& entry.0@ == key
    &&& entry.1.tagger@ == tagger
    &&& entry.1.ty matches Type::Tuple { fields: f, size: s, align: a }
    &&& f@ == fields
    &&& s == size
    &&& a == align
}

/// Whether `e` is the translation of `def` with `layout`.
pub open spec fn is_translation(def: AdtDef, layout: Layout, e: EnumType) -> bool {
    &&& discriminant_type(def) matches Ok(dty)
    &&& e.discriminant_ty == dty
    &&& e.size == layout.size
    &&& e.align == layout.align
    &&& match layout.variants {
        Variants::Single { index } => {
            &&& e.variants@.len() == 1
            &&& variant_matches(
                e.variants@[0],
                0,
                fields_at(layout.fields, def.variants@[index as int].fields@),
                layout.size,
                layout.align,
                Seq::empty(),
            )
            &&& e.discriminator == Discriminator::Known(Int::of(0))
        },
        Variants::Multiple { tag_ty, tag_valid_range, tag_encoding, tag_field, variants } => {
            &&& tag_type(tag_ty) matches Ok(tty)
            &&& e.variants@.len() == def.variants@.len()
            &&& forall|i: int|
                0 <= i < def.variants@.len() ==> variant_matches(
                    #[trigger] e.variants@[i],
                    discriminant_of(def, dty, i),
                    fields_at(variants@[i], def.variants@[i].fields@),
                    layout.size,
                    layout.align,
                    tagger_of(
                        def,
                        dty,
                        tty,
                        tag_encoding,
                        layout.fields.offsets@[tag_field as int],
                        i,
                    ),
                )
            &&& e.discriminator matches Discriminator::Branch {
                offset,
                value_type,
                fallback,
                children,
            }
            &&& offset == layout.fields.offsets@[tag_field as int]
            &&& value_type == tty
            &&& *fallback == fallback_of(def, dty, tag_encoding)
            &&& children@ == branch_children(def, dty, tty, tag_encoding, tag_valid_range)
        },
    }
}

/// The integer type of a tag.
pub fn resolve_tag_type(tag_ty: &Type) -> (r: Result<IntType, TranslateError>)
    ensures
        r == tag_type(*tag_ty),
{
    match tag_ty {
        Type::Int(ity) => if ity.is_wf() {
            Ok(*ity)
        } else {
            Err(TranslateError::UnsupportedWidth)
        },
        _ => Err(TranslateError::TagNotInteger),
    }
}

/// Whether there is a shape for every variant of `def`, with an offset for
/// each of its fields.
pub fn check_shapes(def: &AdtDef, shapes: &Vec<FieldsShape>) -> (b: bool)
    ensures
        b == shapes_fit(*def, shapes@),
{
    let n = def.variants.len();
    if shapes.len() < n {
        return false;
    }
    let mut i: usize = 0;
    while i < n
        invariant
            i <= n == def.variants@.len() <= shapes@.len(),
            forall|k: int|
                0 <= k < i ==> (#[trigger] shapes@[k]).offsets@.len()
                    >= def.variants@[k].fields@.len(),
        decreases n - i,
    {
        if shapes[i].offsets.len() < def.variants[i].fields.len() {
            return false;
        }
        i = i + 1;
    }
    true
}

/// The tag value of a niche variant.
pub fn niche_tag_value(
    discriminant: &Int,
    niche_variants_start: usize,
    niche_start: u128,
    tty: IntType,
) -> (r: Int)
    requires
        tty.wf(),
    ensures
        r@ == niche_tag(discriminant@, niche_variants_start as int, niche_start as int, tty),
        tty.contains(r@),
{
    let bits = discriminant.to_bits().wrapping_sub(niche_variants_start as u128).wrapping_add(
        niche_start,
    );
    proof {
        lemma_wrap_congruent_wide(
            tty,
            bits as int,
            discriminant@ - niche_variants_start + niche_start,
        );
    }
    int_from_bits(bits, tty)
}

/// Whether two of the children have a value in common.
pub fn has_overlap(children: &Vec<Child>) -> (b: bool)
    ensures
        b == !pairwise_disjoint(children@),
{
    let n = children.len();
    let mut k: usize = 0;
    while k < n
        invariant
            k <= n == children@.len(),
            forall|a: int, b: int|
                0 <= a < b < k ==> !(#[trigger] children@[a]).overlaps(#[trigger] children@[b]),
        decreases n - k,
    {
        let mut j: usize = 0;
        while j < k
            invariant
                j <= k < n == children@.len(),
                forall|a: int|
                    0 <= a < j ==> !(#[trigger] children@[a]).overlaps(children@[k as int]),
            decreases k - j,
        {
            if children[j].lo.le(&children[k].hi) && children[k].lo.le(&children[j].hi) {
                assert(children@[j as int].overlaps(children@[k as int]));
                return true;
            }
            j = j + 1;
        }
        k = k + 1;
    }
    false
}

/// Whether two of the variants have the same discriminant.
pub fn has_duplicate_key(variants: &Vec<(Int, Variant)>) -> (b: bool)
    ensures
        b == !Seq::new(variants@.len(), |i: int| variants@[i].0@).no_duplicates(),
{
    let ghost keys = Seq::new(variants@.len(), |i: int| variants@[i].0@);
    let n = variants.len();
    let mut k: usize = 0;
    while k < n
        invariant
            k <= n == variants@.len(),
            keys == Seq::new(variants@.len(), |i: int| variants@[i].0@),
            forall|a: int, b: int| 0 <= a < b < k ==> keys[a] != keys[b],
        decreases n - k,
    {
        let mut j: usize = 0;
        while j < k
            invariant
                j <= k < n == variants@.len(),
                keys == Seq::new(variants@.len(), |i: int| variants@[i].0@),
                forall|a: int| 0 <= a < j ==> keys[a] != keys[k as int],
            decreases k - j,
        {
            if variants[j].0 == variants[k].0 {
                assert(keys[j as int] == keys[k as int]);
                return true;
            }
            proof {
                Int::lemma_view_injective(variants@[j as int].0, variants@[k as int].0);
            }
            j = j + 1;
        }
        k = k + 1;
    }
    assert forall|a: int, b: int| 0 <= a < keys.len() && 0 <= b < keys.len() && a != b implies keys[a]
        != keys[b] by {
        if a < b {
        } else {
            assert(keys[b] != keys[a]);
        }
    }
    false
}


/// Adds the children for the tag values outside the valid range.
pub fn push_gap_children(children: &mut Vec<Child>, tty: IntType, valid: &WrappingRange)
    requires
        tty.wf(),
    ensures
        final(children)@ == old(children)@ + gap_children(tty, *valid),
{
    let start = int_from_bits(valid.start, tty);
    let end = int_from_bits(valid.end, tty);
    let min = tty.domain_min();
    let max = tty.domain_max();
    proof {
        min.lemma_view_in_range();
        max.lemma_view_in_range();
        start.lemma_view_in_range();
        min.lemma_of_view();
        max.lemma_of_view();
        if end@ + 1 < int_limit() {
            Int::lemma_view_of(end@ + 1);
        }
    }
    if start.le(&end) {
        if end.lt(&max) {
            let lo = end.checked_add(&Int::one()).unwrap();
            children.push(Child { lo, hi: max, target: Discriminator::Invalid });
        }
        if min.lt(&start) {
            let hi = start.checked_sub(&Int::one()).unwrap();
            children.push(Child { lo: min, hi, target: Discriminator::Invalid });
        }
    } else {
        let lo = end.checked_add(&Int::one()).unwrap();
        if lo.lt(&start) {
            let hi = start.checked_sub(&Int::one()).unwrap();
            children.push(Child { lo, hi, target: Discriminator::Invalid });
        }
    }
    assert(children@ =~= old(children)@ + gap_children(tty, *valid));
}

/// Every child that leads to a variant covers one tag value and leads to the
/// discriminant of that variant.
pub proof fn lemma_variant_children(
    def: AdtDef,
    dty: IntType,
    tty: IntType,
    encoding: TagEncoding,
    n: nat,
    k: int,
)
    requires
        0 <= k < variant_children(def, dty, tty, encoding, n).len(),
    ensures
        exists|i: int|
            0 <= i < n && #[trigger] child_of(def, dty, tty, encoding, i) == Some(
                variant_children(def, dty, tty, encoding, n)[k],
            ),
    decreases n,
{
    if n > 0 {
        let before = variant_children(def, dty, tty, encoding, (n - 1) as nat);
        if k < before.len() {
            lemma_variant_children(def, dty, tty, encoding, (n - 1) as nat, k);
            let i = choose|i: int|
                0 <= i < n - 1 && #[trigger] child_of(def, dty, tty, encoding, i) == Some(
                    before[k],
                );
            assert(child_of(def, dty, tty, encoding, i) == Some(
                variant_children(def, dty, tty, encoding, n)[k],
            ));
        } else {
            assert(child_of(def, dty, tty, encoding, n - 1) == Some(
                variant_children(def, dty, tty, encoding, n)[k],
            ));
        }
    }
}

/// A translation that ends without an error keeps the invariants of the
/// enumerated type: in every branch no two ranges overlap, every range runs
/// from a lower to an upper bound, no discriminant occurs twice, and the
/// discriminator decides on variants of the type only.
pub proof fn lemma_translation_wf(def: AdtDef, layout: Layout, e: EnumType)
    requires
        translation_error(def, layout) is None,
        is_translation(def, layout, e),
    ensures
        e.wf(),
{
    let dty = discriminant_type(def)->Ok_0;
    let keys = e.keys();
    Int::lemma_view_of(0);
    match layout.variants {
        Variants::Single { index } => {
            assert(keys[0] == 0);
        },
        Variants::Multiple { tag_ty, tag_valid_range, tag_encoding, tag_field, variants } => {
            let tty = tag_type(tag_ty)->Ok_0;
            assert(keys =~= discriminants(def, dty));
            assert forall|i: int| 0 <= i < def.variants@.len() implies keys.to_set().contains(
                discriminant_of(def, dty, i),
            ) && Int::of(discriminant_of(def, dty, i))@ == discriminant_of(def, dty, i) by {
                assert(keys[i] == discriminant_of(def, dty, i));
                lemma_wrap_in_domain(dty, def.variants@[i].discriminant as int);
                lemma_domain_in_range(dty, discriminant_of(def, dty, i));
                Int::lemma_view_of(discriminant_of(def, dty, i));
            }
            let known = variant_children(def, dty, tty, tag_encoding, def.variants@.len());
            let all = branch_children(def, dty, tty, tag_encoding, tag_valid_range);
            let start = int_from_bits_spec(tag_valid_range.start, tty);
            let end = int_from_bits_spec(tag_valid_range.end, tty);
            lemma_wrap_in_domain(tty, tag_valid_range.start as int);
            lemma_wrap_in_domain(tty, tag_valid_range.end as int);
            lemma_domain_in_range(tty, start);
            lemma_domain_in_range(tty, end);
            lemma_domain_in_range(tty, tty.min_value());
            lemma_domain_in_range(tty, tty.max_value());
            if end < tty.max_value() || end < start {
                Int::lemma_view_of(end + 1);
            }
            if tty.min_value() < start {
                Int::lemma_view_of(start - 1);
            }
            Int::lemma_view_of(tty.min_value());
            Int::lemma_view_of(tty.max_value());
            assert forall|k: int| 0 <= k < all.len() implies (#[trigger] all[k]).lo@ <= all[k].hi@
                && all[k].target.wf() && all[k].target.decides_within(keys.to_set()) by {
                if k < known.len() {
                    lemma_variant_children(
                        def,
                        dty,
                        tty,
                        tag_encoding,
                        def.variants@.len(),
                        k,
                    );
                }
            }
            let fallback = fallback_of(def, dty, tag_encoding);
            assert(fallback.wf() && fallback.decides_within(keys.to_set()));
            assert forall|i: int, k: int|
                0 <= i < e.variants@.len() && 0 <= k < e.variants@[i].1.tagger@.len() implies (
            #[trigger] e.variants@[i].1.tagger@[k]).lies_within(e.size) by {
                let offset = layout.fields.offsets@[tag_field as int];
                assert(e.variants@[i].1.tagger@ == tagger_of(def, dty, tty, tag_encoding, offset, i));
                let t = tag_value_of(def, dty, tty, tag_encoding, i)->0;
                match tag_encoding {
                    TagEncoding::Direct => {
                        lemma_wrap_in_domain(tty, def.variants@[i].discriminant as int);
                    },
                    TagEncoding::Niche { untagged_variant, niche_variants, niche_start } => {
                        lemma_wrap_in_domain(
                            tty,
                            discriminant_of(def, dty, i) - niche_variants.start + niche_start,
                        );
                    },
                }
                lemma_domain_in_range(tty, t);
                Int::lemma_view_of(t);
            }
        },
    }
}

/// Translates an enumerated type from its declaration and its layout.
///
/// Without a tag the type has the one variant that the layout names, under
/// the discriminant 0. With a tag every declared variant is kept under its
/// discriminant, and a branch on the tag finds it again: by its discriminant
/// where the tag holds that, by its niche value otherwise, where the untagged
/// variant is what remains and the tag values outside the valid range are
/// declared invalid.
pub fn translate_enum(def: AdtDef, layout: &Layout) -> (r: Result<Type, TranslateError>)
    ensures
        match translation_error(def, *layout) {
            Some(e) => r == Err::<Type, _>(e),
            None => r matches Ok(Type::Enum(e)) && is_translation(def, *layout, e) && e.wf(),
        },
{
    let dty = match resolve_discriminant_type(&def) {
        Ok(dty) => dty,
        Err(e) => {
            return Err(e);
        },
    };
    let size = layout.size;
    let align = layout.align;
    let ghost declared_def = def;

    match &layout.variants {
        Variants::Single { index } => {
            let index = *index;
            if index >= def.variants.len() {
                return Err(TranslateError::NoSuchVariant);
            }
            let mut declared = def.variants;
            let variant = declared.swap_remove(index);
            let fields = match translate_fields(&layout.fields, variant) {
                Ok(fields) => fields,
                Err(e) => {
                    return Err(e);
                },
            };
            let only = Variant { ty: Type::Tuple { fields, size, align }, tagger: Vec::new() };
            let zero = Int::zero();
            let mut variants: Vec<(Int, Variant)> = Vec::new();
            variants.push((zero, only));
            let e = EnumType {
                variants,
                discriminator: Discriminator::Known(zero),
                discriminant_ty: dty,
                size,
                align,
            };
            proof {
                zero.lemma_of_view();
                lemma_translation_wf(declared_def, *layout, e);
            }
            Ok(Type::Enum(e))
        },
        Variants::Multiple { tag_ty, tag_valid_range, tag_encoding, tag_field, variants: shapes } => {
            // The tag: its type, and where it lies.
            let tty = match resolve_tag_type(tag_ty) {
                Ok(tty) => tty,
                Err(e) => {
                    return Err(e);
                },
            };
            let encoding = *tag_encoding;
            if *tag_field >= layout.fields.offsets.len() {
                return Err(TranslateError::MalformedLayout);
            }
            let tag_offset: Offset = layout.fields.offsets[*tag_field];
            if tag_offset.bytes > size.bytes || size.bytes - tag_offset.bytes < tty.size.bytes {
                return Err(TranslateError::MalformedLayout);
            }
            if !check_shapes(&def, shapes) {
                return Err(TranslateError::MalformedLayout);
            }
            let fallback = match encoding {
                // A direct tag holds a discriminant or is invalid.
                TagEncoding::Direct => Discriminator::Invalid,
                // With a niche, what no child claims is the untagged variant.
                TagEncoding::Niche { untagged_variant, .. } => {
                    if untagged_variant >= def.variants.len() {
                        return Err(TranslateError::NoSuchVariant);
                    }
                    let untagged = int_from_bits(def.variants[untagged_variant].discriminant, dty);
                    proof {
                        untagged.lemma_of_view();
                    }
                    Discriminator::Known(untagged)
                },
            };

            // The variants, and the children that lead to them.
            let mut translated: Vec<(Int, Variant)> = Vec::new();
            let mut children: Vec<Child> = Vec::new();
            let mut i: usize = 0;
            let shape_count = shapes.len();
            for variant in it: def.variants
                invariant
                    it.seq() == declared_def.variants@,
                    i == it.index(),
                    shapes_fit(declared_def, shapes@),
                    shape_count == shapes@.len(),
                    dty.wf(),
                    tty.wf(),
                    translated@.len() == i,
                    forall|k: int|
                        0 <= k < i ==> variant_matches(
                            #[trigger] translated@[k],
                            discriminant_of(declared_def, dty, k),
                            fields_at(shapes@[k], declared_def.variants@[k].fields@),
                            size,
                            align,
                            tagger_of(declared_def, dty, tty, encoding, tag_offset, k),
                        ),
                    children@ == variant_children(declared_def, dty, tty, encoding, i as nat),
            {
                let discr_bits = variant.discriminant;
                let discr_int = int_from_bits(discr_bits, dty);
                let fields = match translate_fields(&shapes[i], variant) {
                    Ok(fields) => fields,
                    Err(e) => {
                        return Err(e);
                    },
                };
                proof {
                    discr_int.lemma_of_view();
                }
                let tagger: Vec<TagWrite> = match encoding {
                    TagEncoding::Direct => {
                        // The tag holds the discriminant, at the width of the tag.
                        let tag_int = int_from_bits(discr_bits, tty);
                        proof {
                            tag_int.lemma_of_view();
                        }
                        children.push(
                            Child {
                                lo: discr_int,
                                hi: discr_int,
                                target: Discriminator::Known(discr_int),
                            },
                        );
                        vec![TagWrite { offset: tag_offset, ty: tty, value: tag_int }]
                    },
                    TagEncoding::Niche { untagged_variant, niche_variants, niche_start } => {
                        if untagged_variant != i {
                            // A niche variant writes its tag and has a child.
                            let tag_int = niche_tag_value(
                                &discr_int,
                                niche_variants.start,
                                niche_start,
                                tty,
                            );
                            proof {
                                tag_int.lemma_of_view();
                            }
                            children.push(
                                Child {
                                    lo: tag_int,
                                    hi: tag_int,
                                    target: Discriminator::Known(discr_int),
                                },
                            );
                            vec![TagWrite { offset: tag_offset, ty: tty, value: tag_int }]
                        } else {
                            // The untagged variant writes nothing and has no
                            // child: it is where the branch falls back to.
                            Vec::new()
                        }
                    },
                };
                assert(tagger@ =~= tagger_of(declared_def, dty, tty, encoding, tag_offset, i as int));
                translated.push((discr_int, Variant { ty: Type::Tuple { fields, size, align }, tagger }));
                i = i + 1;
            }

            // With a niche, the tag values outside the valid range are invalid.
            match encoding {
                TagEncoding::Direct => {},
                TagEncoding::Niche { .. } => {
                    push_gap_children(&mut children, tty, tag_valid_range);
                },
            }

            assert(Seq::new(translated@.len(), |k: int| translated@[k].0@) =~= discriminants(
                declared_def,
                dty,
            ));
            if has_duplicate_key(&translated) {
                return Err(TranslateError::DuplicateDiscriminant);
            }
            if has_overlap(&children) {
                return Err(TranslateError::OverlappingTagRanges);
            }
            let e = EnumType {
                variants: translated,
                discriminator: Discriminator::Branch {
                    offset: tag_offset,
                    value_type: tty,
                    fallback: Rc::new(fallback),
                    children,
                },
                discriminant_ty: dty,
                size,
                align,
            };
            proof {
                lemma_translation_wf(declared_def, *layout, e);
            }
            Ok(Type::Enum(e))
        },
    }
}

} // verus!
