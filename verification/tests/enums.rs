use minimize::decide::Decision;
use minimize::enums::{discriminant_for_variant, translate_enum, translate_fields, TranslateError};
use minimize::integer::{Align, Int, IntType, Signedness, Size};
use minimize::layout::{
    AdtDef, AdtKind, FieldsShape, Layout, TagEncoding, TyKind, VariantDef, VariantRange,
    Variants, WrappingRange,
};
use minimize::memory::Endianness;
use minimize::types::{Child, Discriminator, EnumType, TagWrite, Type, Variant};
use std::rc::Rc;

fn u8_ty() -> IntType {
    IntType { signed: Signedness::Unsigned, size: Size { bytes: 1 } }
}

fn i8_ty() -> IntType {
    IntType { signed: Signedness::Signed, size: Size { bytes: 1 } }
}

fn isize_ty() -> IntType {
    IntType { signed: Signedness::Signed, size: Size { bytes: 8 } }
}

fn at(bytes: u64) -> Size {
    Size { bytes }
}

fn shape(offsets: &[u64]) -> FieldsShape {
    FieldsShape { offsets: offsets.iter().map(|&bytes| at(bytes)).collect() }
}

/// A variant with the discriminant pattern `discriminant` and `fields` one-byte fields.
fn variant(discriminant: u128, fields: usize) -> VariantDef {
    VariantDef { discriminant, fields: (0..fields).map(|_| Type::Int(u8_ty())).collect() }
}

fn enum_def(discriminant_ty: IntType, variants: Vec<VariantDef>) -> AdtDef {
    AdtDef { kind: AdtKind::Enum, discriminant_ty: Type::Int(discriminant_ty), variants }
}

/// A layout of two bytes with the tag of type `tag_ty` at offset 0 and the
/// one field of a variant, where it has one, at offset 1.
fn tagged_layout(
    tag_ty: IntType,
    tag_encoding: TagEncoding,
    valid: (u128, u128),
    variants: usize,
) -> Layout {
    Layout {
        size: at(2),
        align: Align { bytes: 1 },
        fields: shape(&[0]),
        variants: Variants::Multiple {
            tag_ty: Type::Int(tag_ty),
            tag_valid_range: WrappingRange { start: valid.0, end: valid.1 },
            tag_encoding,
            tag_field: 0,
            variants: (0..variants).map(|_| shape(&[1])).collect(),
        },
    }
}

fn niche(untagged_variant: usize, start: usize, end: usize, niche_start: u128) -> TagEncoding {
    TagEncoding::Niche {
        untagged_variant,
        niche_variants: VariantRange { start, end },
        niche_start,
    }
}

fn translated(def: AdtDef, layout: &Layout) -> EnumType {
    match translate_enum(def, layout) {
        Ok(Type::Enum(e)) => e,
        other => panic!("no enumerated type: {:?}", other),
    }
}

fn branch(e: &EnumType) -> (Size, IntType, &Discriminator, &Vec<Child>) {
    match &e.discriminator {
        Discriminator::Branch { offset, value_type, fallback, children } => {
            (*offset, *value_type, &**fallback, children)
        }
        other => panic!("no branch: {:?}", other),
    }
}

fn known(lo: i128, hi: i128, discriminant: i128) -> Child {
    Child {
        lo: Int::from(lo),
        hi: Int::from(hi),
        target: Discriminator::Known(Int::from(discriminant)),
    }
}

fn invalid(lo: i128, hi: i128) -> Child {
    Child { lo: Int::from(lo), hi: Int::from(hi), target: Discriminator::Invalid }
}

fn tuple(fields: Vec<(Size, Type)>) -> Type {
    Type::Tuple { fields, size: at(2), align: Align { bytes: 1 } }
}

fn tag_write(ty: IntType, value: i128) -> TagWrite {
    TagWrite { offset: at(0), ty, value: Int::from(value) }
}

// Niche, single valid tag value.
#[test]
fn niche_with_a_single_valid_tag_value() {
    let def = enum_def(isize_ty(), vec![variant(0, 0), variant(1, 1)]);
    let layout = tagged_layout(u8_ty(), niche(1, 0, 0, 10), (10, 10), 2);
    let e = translated(def, &layout);

    let (offset, value_type, fallback, children) = branch(&e);
    assert_eq!(offset, at(0));
    assert_eq!(value_type, u8_ty());
    assert_eq!(children, &vec![known(10, 10, 0), invalid(11, 255), invalid(0, 9)]);
    assert_eq!(fallback, &Discriminator::Known(Int::from(1)));

    assert_eq!(
        e.variants,
        vec![
            (
                Int::from(0),
                Variant { ty: tuple(vec![]), tagger: vec![tag_write(u8_ty(), 10)] }
            ),
            (
                Int::from(1),
                Variant { ty: tuple(vec![(at(1), Type::Int(u8_ty()))]), tagger: vec![] }
            ),
        ]
    );
    assert_eq!(e.discriminant_ty, isize_ty());
    assert_eq!(e.size, at(2));
    assert_eq!(e.align, Align { bytes: 1 });
}

// Direct tagging.
#[test]
fn direct_tagging() {
    let def = enum_def(isize_ty(), vec![variant(0, 0), variant(1, 1), variant(2, 0)]);
    let layout = tagged_layout(u8_ty(), TagEncoding::Direct, (0, 2), 3);
    let e = translated(def, &layout);

    let (offset, value_type, fallback, children) = branch(&e);
    assert_eq!(offset, at(0));
    assert_eq!(value_type, u8_ty());
    assert_eq!(children, &vec![known(0, 0, 0), known(1, 1, 1), known(2, 2, 2)]);
    assert_eq!(fallback, &Discriminator::Invalid);

    for (i, (key, variant)) in e.variants.iter().enumerate() {
        assert_eq!(key, &Int::from(i as u8));
        assert_eq!(variant.tagger, vec![tag_write(u8_ty(), i as i128)]);
    }

    // Reading the byte value 5 finds no variant.
    assert_eq!(e.discriminator.evaluate(&[5, 0], Endianness::Little), Decision::Invalid);
    assert_eq!(e.discriminator.evaluate(&[5, 0], Endianness::Big), Decision::Invalid);
    assert_eq!(
        e.discriminator.evaluate(&[2, 0], Endianness::Little),
        Decision::Known(Int::from(2))
    );
}

// Wraparound valid range.
#[test]
fn valid_range_that_wraps_around() {
    let def = enum_def(isize_ty(), vec![variant(0, 1), variant(1, 0)]);
    let layout = tagged_layout(u8_ty(), niche(0, 1, 1, 251), (250, 5), 2);
    let e = translated(def, &layout);

    let (_, _, fallback, children) = branch(&e);
    assert_eq!(children, &vec![known(251, 251, 1), invalid(6, 249)]);
    assert_eq!(fallback, &Discriminator::Known(Int::from(0)));
}

// Adjacent, no gap.
#[test]
fn valid_range_that_wraps_without_a_gap() {
    let def = enum_def(isize_ty(), vec![variant(0, 1), variant(1, 0)]);
    let layout = tagged_layout(u8_ty(), niche(0, 1, 1, 7), (100, 99), 2);
    let e = translated(def, &layout);

    let (_, _, _, children) = branch(&e);
    assert_eq!(children, &vec![known(7, 7, 1)]);
}

#[test]
fn valid_range_at_the_ends_of_the_domain() {
    // The whole domain is valid: nothing is invalid.
    let def = enum_def(isize_ty(), vec![variant(0, 1), variant(1, 0)]);
    let e = translated(def, &tagged_layout(u8_ty(), niche(0, 1, 1, 3), (0, 255), 2));
    assert_eq!(branch(&e).3, &vec![known(3, 3, 1)]);

    // Valid up to the greatest value: only what lies below is invalid.
    let def = enum_def(isize_ty(), vec![variant(0, 1), variant(1, 0)]);
    let e = translated(def, &tagged_layout(u8_ty(), niche(0, 1, 1, 255), (200, 255), 2));
    assert_eq!(branch(&e).3, &vec![known(255, 255, 1), invalid(0, 199)]);

    // Valid from the least value on: only what lies above is invalid.
    let def = enum_def(isize_ty(), vec![variant(0, 1), variant(1, 0)]);
    let e = translated(def, &tagged_layout(u8_ty(), niche(0, 1, 1, 0), (0, 1), 2));
    assert_eq!(branch(&e).3, &vec![known(0, 0, 1), invalid(2, 255)]);
}

#[test]
fn signed_tag_has_signed_bounds() {
    // Valid range -2..=1 of a signed byte, given by its bit patterns.
    let def = enum_def(isize_ty(), vec![variant(0, 1), variant(1, 0), variant(2, 0)]);
    let layout = tagged_layout(i8_ty(), niche(0, 1, 2, 0xfe), (0xfe, 1), 3);
    let e = translated(def, &layout);
    let (_, value_type, fallback, children) = branch(&e);
    assert_eq!(value_type, i8_ty());
    assert_eq!(
        children,
        &vec![known(-2, -2, 1), known(-1, -1, 2), invalid(2, 127), invalid(-128, -3)]
    );
    assert_eq!(fallback, &Discriminator::Known(Int::from(0)));
}

#[test]
fn niche_tag_wraps_around() {
    // Niche variants 1 and 2 from the niche start 255 on: 255 and, wrapped, 0.
    let def = enum_def(isize_ty(), vec![variant(0, 1), variant(1, 0), variant(2, 0)]);
    let layout = tagged_layout(u8_ty(), niche(0, 1, 2, 255), (255, 0), 3);
    let e = translated(def, &layout);
    let (_, _, _, children) = branch(&e);
    assert_eq!(children, &vec![known(255, 255, 1), known(0, 0, 2), invalid(1, 254)]);
    assert_eq!(e.variants[1].1.tagger, vec![tag_write(u8_ty(), 255)]);
    assert_eq!(e.variants[2].1.tagger, vec![tag_write(u8_ty(), 0)]);
    assert_eq!(e.variants[0].1.tagger, vec![]);
}

#[test]
fn direct_tag_is_the_discriminant_at_the_width_of_the_tag() {
    // The discriminant -1 of a four-byte signed type, in a signed byte.
    let discriminant_ty = IntType { signed: Signedness::Signed, size: Size { bytes: 4 } };
    let def = enum_def(discriminant_ty, vec![variant(0xffff_ffff, 0), variant(3, 0)]);
    let e = translated(def, &tagged_layout(i8_ty(), TagEncoding::Direct, (0, 255), 2));
    assert_eq!(e.variants[0].0, Int::from(-1));
    assert_eq!(e.variants[0].1.tagger, vec![tag_write(i8_ty(), -1)]);
    assert_eq!(branch(&e).3, &vec![known(-1, -1, -1), known(3, 3, 3)]);
}

#[test]
fn single_variant_has_no_tag() {
    let def = enum_def(isize_ty(), vec![variant(7, 2), variant(9, 0)]);
    let layout = Layout {
        size: at(2),
        align: Align { bytes: 1 },
        fields: shape(&[0, 1, 5]),
        variants: Variants::Single { index: 0 },
    };
    let e = translated(def, &layout);
    assert_eq!(e.discriminator, Discriminator::Known(Int::from(0)));
    assert_eq!(
        e.variants,
        vec![(
            Int::from(0),
            Variant {
                ty: tuple(vec![(at(0), Type::Int(u8_ty())), (at(1), Type::Int(u8_ty()))]),
                tagger: vec![],
            }
        )]
    );
    assert_eq!(e.discriminator.evaluate(&[0xaa, 0xbb], Endianness::Little), Decision::Known(Int::from(0)));
}

#[test]
fn translate_fields_pairs_offsets_and_types() {
    let declared = VariantDef {
        discriminant: 0,
        fields: vec![Type::Bool, Type::Int(u8_ty()), Type::Int(isize_ty())],
    };
    assert_eq!(
        translate_fields(&shape(&[8, 0, 16, 99]), declared),
        Ok(vec![
            (at(8), Type::Bool),
            (at(0), Type::Int(u8_ty())),
            (at(16), Type::Int(isize_ty())),
        ])
    );
    assert_eq!(translate_fields(&shape(&[]), variant(0, 0)), Ok(vec![]));
    assert_eq!(
        translate_fields(&shape(&[8]), variant(0, 2)),
        Err(TranslateError::MalformedLayout)
    );
}

#[test]
fn round_trip_of_every_variant() {
    for endian in [Endianness::Little, Endianness::Big] {
        // Direct.
        let def = enum_def(isize_ty(), vec![variant(0, 0), variant(1, 1), variant(200, 0)]);
        let e = translated(def, &tagged_layout(u8_ty(), TagEncoding::Direct, (0, 200), 3));
        for (key, variant) in &e.variants {
            let mut buf = vec![0xee, 0x77];
            assert!(variant.write_tag(&mut buf, endian));
            assert_eq!(buf[1], 0x77);
            assert_eq!(e.discriminator.evaluate(&buf, endian), Decision::Known(*key));
        }

        // Niche: the untagged variant 1 keeps the tag at what its field holds.
        let def = enum_def(isize_ty(), vec![variant(0, 0), variant(1, 1), variant(2, 0)]);
        let e = translated(def, &tagged_layout(u8_ty(), niche(1, 0, 2, 2), (0, 4), 3));
        assert_eq!(branch(&e).3, &vec![known(2, 2, 0), known(4, 4, 2), invalid(5, 255)]);
        for (i, (key, variant)) in e.variants.iter().enumerate() {
            let mut buf = vec![0, 0x77];
            assert!(variant.write_tag(&mut buf, endian));
            assert_eq!(buf, vec![[2u8, 0, 4][i], 0x77]);
            assert_eq!(e.discriminator.evaluate(&buf, endian), Decision::Known(*key));
        }
        // Every tag value decides on something: a variant or invalid.
        for tag in 0..=255u8 {
            let expected = match tag {
                2 => Decision::Known(Int::from(0)),
                4 => Decision::Known(Int::from(2)),
                0 | 1 | 3 => Decision::Known(Int::from(1)),
                _ => Decision::Invalid,
            };
            assert_eq!(e.discriminator.evaluate(&[tag, 0], endian), expected);
        }
    }
}

#[test]
fn round_trip_with_a_wide_tag() {
    let tag_ty = IntType { signed: Signedness::Signed, size: Size { bytes: 2 } };
    let def = enum_def(isize_ty(), vec![variant(0, 0), variant(u64::MAX as u128, 0)]);
    let layout = Layout {
        size: at(4),
        align: Align { bytes: 2 },
        fields: shape(&[2]),
        variants: Variants::Multiple {
            tag_ty: Type::Int(tag_ty),
            tag_valid_range: WrappingRange { start: 0xffff, end: 0 },
            tag_encoding: TagEncoding::Direct,
            tag_field: 0,
            variants: vec![shape(&[]), shape(&[])],
        },
    };
    let e = translated(def, &layout);
    assert_eq!(e.variants[1].0, Int::from(-1));
    let mut buf = vec![1, 2, 3, 4];
    assert!(e.variants[1].1.write_tag(&mut buf, Endianness::Little));
    assert_eq!(buf, vec![1, 2, 0xff, 0xff]);
    assert_eq!(e.discriminator.evaluate(&buf, Endianness::Little), Decision::Known(Int::from(-1)));
    // Too short a buffer cannot be read.
    assert_eq!(e.discriminator.evaluate(&[0, 0, 0], Endianness::Little), Decision::Unreadable);
    let mut short = vec![0, 0, 0];
    assert!(!e.variants[1].1.write_tag(&mut short, Endianness::Little));
    assert_eq!(short, vec![0, 0, 0]);
}

#[test]
fn niche_tags_are_apart() {
    let def = enum_def(
        isize_ty(),
        vec![variant(0, 0), variant(1, 0), variant(2, 1), variant(3, 0), variant(4, 0)],
    );
    let e = translated(def, &tagged_layout(u8_ty(), niche(2, 0, 4, 254), (254, 2), 5));
    let (_, _, _, children) = branch(&e);
    let tags: Vec<Int> = e
        .variants
        .iter()
        .filter_map(|(_, v)| v.tagger.first().map(|w| w.value))
        .collect();
    assert_eq!(tags, vec![Int::from(254), Int::from(255), Int::from(1), Int::from(2)]);
    for (i, a) in tags.iter().enumerate() {
        for (j, b) in tags.iter().enumerate() {
            assert_eq!(a == b, i == j);
        }
        for child in children.iter().filter(|c| c.target == Discriminator::Invalid) {
            assert!(!(child.lo.le(a) && a.le(&child.hi)));
        }
    }
    // No two children overlap.
    for (i, a) in children.iter().enumerate() {
        for b in &children[i + 1..] {
            assert!(!(a.lo.le(&b.hi) && b.lo.le(&a.hi)));
        }
    }
}

#[test]
fn discriminant_for_variant_reads_at_the_discriminant_type() {
    let ty = TyKind::Adt(enum_def(i8_ty(), vec![variant(0xff, 0), variant(3, 0)]));
    assert_eq!(discriminant_for_variant(&ty, 0), Ok(Int::from(-1)));
    assert_eq!(discriminant_for_variant(&ty, 1), Ok(Int::from(3)));
    assert_eq!(discriminant_for_variant(&ty, 2), Err(TranslateError::NoSuchVariant));

    // The same values as under which a translation keeps the variants.
    let e = translated(
        enum_def(i8_ty(), vec![variant(0xff, 0), variant(3, 0)]),
        &tagged_layout(i8_ty(), TagEncoding::Direct, (0, 255), 2),
    );
    for (i, (key, _)) in e.variants.iter().enumerate() {
        assert_eq!(discriminant_for_variant(&ty, i), Ok(*key));
    }
}

#[test]
fn discriminant_for_variant_wants_an_enum() {
    assert_eq!(discriminant_for_variant(&TyKind::Other, 0), Err(TranslateError::NotAnEnum));
    let mut def = enum_def(i8_ty(), vec![variant(0, 0)]);
    def.kind = AdtKind::Struct;
    assert_eq!(discriminant_for_variant(&TyKind::Adt(def), 0), Err(TranslateError::NotAnEnum));
    let mut def = enum_def(i8_ty(), vec![variant(0, 0)]);
    def.kind = AdtKind::Union;
    assert_eq!(discriminant_for_variant(&TyKind::Adt(def), 0), Err(TranslateError::NotAnEnum));
    let mut def = enum_def(i8_ty(), vec![variant(0, 0)]);
    def.discriminant_ty = Type::Bool;
    assert_eq!(
        discriminant_for_variant(&TyKind::Adt(def), 0),
        Err(TranslateError::DiscriminantNotInteger)
    );
    let wide = IntType { signed: Signedness::Signed, size: Size { bytes: 32 } };
    assert_eq!(
        discriminant_for_variant(&TyKind::Adt(enum_def(wide, vec![variant(0, 0)])), 0),
        Err(TranslateError::UnsupportedWidth)
    );
}

fn two_variants() -> AdtDef {
    enum_def(isize_ty(), vec![variant(0, 1), variant(1, 0)])
}

#[test]
fn discriminant_type_must_be_an_integer() {
    let mut def = two_variants();
    def.discriminant_ty = Type::Bool;
    let layout = tagged_layout(u8_ty(), TagEncoding::Direct, (0, 1), 2);
    assert_eq!(translate_enum(def, &layout), Err(TranslateError::DiscriminantNotInteger));
}

#[test]
fn tag_type_must_be_an_integer() {
    let mut layout = tagged_layout(u8_ty(), TagEncoding::Direct, (0, 1), 2);
    if let Variants::Multiple { tag_ty, .. } = &mut layout.variants {
        *tag_ty = Type::Ptr(minimize::types::PtrType::Raw);
    }
    assert_eq!(translate_enum(two_variants(), &layout), Err(TranslateError::TagNotInteger));
}

#[test]
fn widths_must_be_supported() {
    let wide = IntType { signed: Signedness::Unsigned, size: Size { bytes: 17 } };
    let none = IntType { signed: Signedness::Unsigned, size: Size { bytes: 0 } };
    let layout = tagged_layout(u8_ty(), TagEncoding::Direct, (0, 1), 2);
    assert_eq!(
        translate_enum(enum_def(wide, vec![variant(0, 0)]), &layout),
        Err(TranslateError::UnsupportedWidth)
    );
    assert_eq!(
        translate_enum(two_variants(), &tagged_layout(none, TagEncoding::Direct, (0, 1), 2)),
        Err(TranslateError::UnsupportedWidth)
    );
}

#[test]
fn variant_indices_must_name_variants() {
    let layout = Layout {
        size: at(2),
        align: Align { bytes: 1 },
        fields: shape(&[0]),
        variants: Variants::Single { index: 2 },
    };
    assert_eq!(translate_enum(two_variants(), &layout), Err(TranslateError::NoSuchVariant));
    let layout = tagged_layout(u8_ty(), niche(2, 0, 1, 0), (0, 1), 2);
    assert_eq!(translate_enum(two_variants(), &layout), Err(TranslateError::NoSuchVariant));
}

#[test]
fn layout_must_fit_the_declaration() {
    // No offset for the field of the one variant.
    let layout = Layout {
        size: at(2),
        align: Align { bytes: 1 },
        fields: shape(&[]),
        variants: Variants::Single { index: 0 },
    };
    assert_eq!(translate_enum(two_variants(), &layout), Err(TranslateError::MalformedLayout));

    // No shape for the second variant.
    let layout = tagged_layout(u8_ty(), TagEncoding::Direct, (0, 1), 1);
    assert_eq!(translate_enum(two_variants(), &layout), Err(TranslateError::MalformedLayout));

    // No offset for the field of the first variant.
    let mut layout = tagged_layout(u8_ty(), TagEncoding::Direct, (0, 1), 2);
    if let Variants::Multiple { variants, .. } = &mut layout.variants {
        variants[0] = shape(&[]);
    }
    assert_eq!(translate_enum(two_variants(), &layout), Err(TranslateError::MalformedLayout));

    // No tag field.
    let mut layout = tagged_layout(u8_ty(), TagEncoding::Direct, (0, 1), 2);
    if let Variants::Multiple { tag_field, .. } = &mut layout.variants {
        *tag_field = 1;
    }
    assert_eq!(translate_enum(two_variants(), &layout), Err(TranslateError::MalformedLayout));

    // The tag ends behind the type.
    let mut layout = tagged_layout(isize_ty(), TagEncoding::Direct, (0, 1), 2);
    layout.size = at(7);
    assert_eq!(translate_enum(two_variants(), &layout), Err(TranslateError::MalformedLayout));
    let mut layout = tagged_layout(u8_ty(), TagEncoding::Direct, (0, 1), 2);
    layout.fields = shape(&[u64::MAX]);
    assert_eq!(translate_enum(two_variants(), &layout), Err(TranslateError::MalformedLayout));
}

#[test]
fn discriminants_must_differ() {
    let def = enum_def(isize_ty(), vec![variant(4, 0), variant(1, 0), variant(4, 0)]);
    let layout = tagged_layout(u8_ty(), TagEncoding::Direct, (0, 4), 3);
    assert_eq!(translate_enum(def, &layout), Err(TranslateError::DuplicateDiscriminant));
    // The untagged variant counts too.
    let def = enum_def(isize_ty(), vec![variant(1, 0), variant(1, 0)]);
    let layout = tagged_layout(u8_ty(), niche(0, 1, 1, 0), (0, 1), 2);
    assert_eq!(translate_enum(def, &layout), Err(TranslateError::DuplicateDiscriminant));
}

#[test]
fn tag_ranges_must_not_overlap() {
    // The niche value 5 lies outside the valid range 0..=0.
    let layout = tagged_layout(u8_ty(), niche(0, 1, 1, 5), (0, 0), 2);
    assert_eq!(translate_enum(two_variants(), &layout), Err(TranslateError::OverlappingTagRanges));
    // The discriminants 1 and 257 get the same tag value.
    let def = enum_def(isize_ty(), vec![variant(0, 0), variant(1, 0), variant(257, 0)]);
    let layout = tagged_layout(u8_ty(), niche(0, 1, 2, 0), (0, 255), 3);
    assert_eq!(translate_enum(def, &layout), Err(TranslateError::OverlappingTagRanges));
}

#[test]
fn variants_are_found_by_their_discriminant() {
    let def = enum_def(isize_ty(), vec![variant(5, 0), variant(9, 1)]);
    let e = translated(def, &tagged_layout(u8_ty(), TagEncoding::Direct, (0, 9), 2));
    assert_eq!(e.variant_index(&Int::from(5)), Some(0));
    assert_eq!(e.variant_index(&Int::from(9)), Some(1));
    assert_eq!(e.variant_index(&Int::from(0)), None);
    let _ = Rc::new(0);
}
