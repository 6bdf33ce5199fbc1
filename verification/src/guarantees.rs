//! What holds of every translated enumerated type.
use crate::decide::{
    apply_tagger, apply_write, lemma_apply_tagger_len, lemma_branch_total, lemma_decides_within,
    lemma_find_child, Decision,
};
use crate::enums::{
    branch_children, branch_key_of, child_of, discriminant_for_variant_spec, discriminant_of,
    discriminant_type, gap_children, is_translation, lemma_translation_wf,
    lemma_variant_children, niche_tag, tag_type, tag_value_of, tagger_of, translation_error,
    variant_children,
};
use crate::integer::{
    int_from_bits_spec, lemma_domain_in_range, lemma_wrap_in_domain,
    lemma_wrap_same_is_congruent, Int, IntType,
};
use crate::layout::{AdtDef, AdtKind, Layout, TagEncoding, TyKind, Variants, WrappingRange};
use crate::memory::{
    decode_int, encode_int, lemma_decode_encode, readable, splice, window, Endianness,
};
use crate::types::{find_child, Discriminator, EnumType, TagWrite};
use vstd::arithmetic::div_mod::lemma_small_mod;
use vstd::prelude::*;

verus! {

/// Where the child of the variant `i` stands among the children: behind the
/// children of the variants before it.
pub open spec fn child_position(
    def: AdtDef,
    dty: IntType,
    tty: IntType,
    encoding: TagEncoding,
    i: int,
) -> int {
    variant_children(def, dty, tty, encoding, i as nat).len() as int
}

/// The child of a variant stands at its position.
pub proof fn lemma_child_position(
    def: AdtDef,
    dty: IntType,
    tty: IntType,
    encoding: TagEncoding,
    n: nat,
    i: int,
)
    requires
        0 <= i < n,
        child_of(def, dty, tty, encoding, i) is Some,
    ensures
        0 <= child_position(def, dty, tty, encoding, i) < variant_children(
            def,
            dty,
            tty,
            encoding,
            n,
        ).len(),
        variant_children(def, dty, tty, encoding, n)[child_position(def, dty, tty, encoding, i)]
            == child_of(def, dty, tty, encoding, i)->0,
    decreases n,
{
    if i < n - 1 {
        lemma_child_position(def, dty, tty, encoding, (n - 1) as nat, i);
    }
}

/// Whether the tag that the variant `i` writes is the value under which the
/// discriminator looks for it. With a niche it always is. With a direct tag
/// the discriminant, read at the width of the tag, must be the discriminant.
pub open spec fn tag_is_faithful(def: AdtDef, dty: IntType, tty: IntType, layout: Layout, i: int) -> bool {
    layout.variants matches Variants::Multiple { tag_encoding, .. } ==> (tag_encoding
        is Direct ==> int_from_bits_spec(def.variants@[i].discriminant, tty) == discriminant_of(
        def,
        dty,
        i,
    ))
}

/// Whether the tag in `mem` holds a value that no child claims.
pub open spec fn tag_is_unclaimed(e: EnumType, mem: Seq<u8>, endian: Endianness) -> bool {
    e.discriminator matches Discriminator::Branch { offset, value_type, children, .. } ==> find_child(
        children@,
        decode_int(window(mem, offset, value_type), value_type, endian),
    ) is None
}

/// After the tagger of a variant was written into memory of the
/// size of the type, the discriminator finds that variant. A variant without
/// a tag is found where its fields leave the tag at a value that no child
/// claims; a variant with a direct tag where its tag is faithful.
pub proof fn lemma_round_trip(
    def: AdtDef,
    layout: Layout,
    e: EnumType,
    i: int,
    mem: Seq<u8>,
    endian: Endianness,
)
    requires
        translation_error(def, layout) is None,
        is_translation(def, layout, e),
        0 <= i < e.variants@.len(),
        mem.len() == layout.size.bytes,
        layout.variants matches Variants::Multiple { tag_ty, .. } ==> tag_is_faithful(
            def,
            discriminant_type(def)->Ok_0,
            tag_type(tag_ty)->Ok_0,
            layout,
            i,
        ),
        e.variants@[i].1.tagger@.len() == 0 ==> tag_is_unclaimed(e, mem, endian),
    ensures
        e.discriminator.decide(apply_tagger(mem, e.variants@[i].1.tagger@, endian), endian)
            == Decision::Known(e.variants@[i].0),
{
    reveal_with_fuel(Discriminator::decide, 2);
    let dty = discriminant_type(def)->Ok_0;
    let key = e.variants@[i].0;
    key.lemma_of_view();
    match layout.variants {
        Variants::Single { index } => {
            assert(e.variants@[i].1.tagger@ =~= Seq::<TagWrite>::empty());
            assert(apply_tagger(mem, e.variants@[i].1.tagger@, endian) == mem);
            assert(e.discriminator.decide(mem, endian) == Decision::Known(key));
        },
        Variants::Multiple { tag_ty, tag_valid_range, tag_encoding, tag_field, variants } => {
            let tty = tag_type(tag_ty)->Ok_0;
            lemma_apply_tagger_len(mem, e.variants@[i].1.tagger@, endian);
            let tag_offset = layout.fields.offsets@[tag_field as int];
            let tagger = tagger_of(def, dty, tty, tag_encoding, tag_offset, i);
            let children = branch_children(def, dty, tty, tag_encoding, tag_valid_range);
            let d = discriminant_of(def, dty, i);
            assert(e.variants@[i].1.tagger@ == tagger);
            assert(key@ == d);
            lemma_wrap_in_domain(dty, def.variants@[i].discriminant as int);
            lemma_domain_in_range(dty, d);
            Int::lemma_view_of(d);
            match tag_value_of(def, dty, tty, tag_encoding, i) {
                None => {
                    assert(tagger.len() == 0);
                    assert(apply_tagger(mem, tagger, endian) == mem);
                    assert(readable(mem.len(), tag_offset, tty));
                    assert(e.discriminator.decide(mem, endian) == Decision::Known(key));
                },
                Some(t) => {
                    let w = TagWrite { offset: tag_offset, ty: tty, value: Int::of(t) };
                    assert(tagger =~= seq![w]);
                    assert(tagger.drop_last() =~= Seq::<TagWrite>::empty());
                    assert(apply_tagger(mem, tagger.drop_last(), endian) == mem);
                    let written = apply_tagger(mem, tagger, endian);
                    assert(written == apply_write(mem, w, endian));
                    // The tag is a value of its type, and is read back.
                    match tag_encoding {
                        TagEncoding::Direct => {
                            lemma_wrap_in_domain(tty, def.variants@[i].discriminant as int);
                        },
                        TagEncoding::Niche { untagged_variant, niche_variants, niche_start } => {
                            lemma_wrap_in_domain(tty, d - niche_variants.start + niche_start);
                        },
                    }
                    lemma_domain_in_range(tty, t);
                    Int::lemma_view_of(t);
                    lemma_decode_encode(t, tty, endian);
                    let bytes = encode_int(t, tty, endian);
                    assert(written == splice(mem, tag_offset.bytes as int, bytes));
                    assert(window(written, tag_offset, tty) =~= bytes);
                    // Its child is the one child that holds it.
                    let n = def.variants@.len();
                    lemma_child_position(def, dty, tty, tag_encoding, n, i);
                    let k = child_position(def, dty, tty, tag_encoding, i);
                    assert(children[k] == child_of(def, dty, tty, tag_encoding, i)->0);
                    assert(branch_key_of(def, dty, tty, tag_encoding, i) == Some(t));
                    assert(children[k].holds(t));
                    lemma_branch_total(children, t, k);
                    assert(readable(written.len(), tag_offset, tty));
                    assert(decode_int(window(written, tag_offset, tty), tty, endian) == t);
                    assert(children[k].target == Discriminator::Known(key));
                    assert(e.discriminator.decide(written, endian) == Decision::Known(key));
                },
            }
        },
    }
}

/// In memory of the size of the type, the discriminator of a
/// translation decides on every value of the tag: on a variant of the type,
/// or that the memory holds no value of the type.
pub proof fn lemma_decision_total(
    def: AdtDef,
    layout: Layout,
    e: EnumType,
    mem: Seq<u8>,
    endian: Endianness,
)
    requires
        translation_error(def, layout) is None,
        is_translation(def, layout, e),
        mem.len() == layout.size.bytes,
    ensures
        match e.discriminator.decide(mem, endian) {
            Decision::Known(v) => e.keys().contains(v@),
            Decision::Invalid => true,
            Decision::Unreadable => false,
        },
{
    reveal_with_fuel(Discriminator::decide, 2);
    lemma_translation_wf(def, layout, e);
    lemma_decides_within(e.discriminator, e.keys().to_set(), mem, endian);
    match layout.variants {
        Variants::Single { index } => {},
        Variants::Multiple { tag_ty, tag_valid_range, tag_encoding, tag_field, variants } => {
            let dty = discriminant_type(def)->Ok_0;
            let tty = tag_type(tag_ty)->Ok_0;
            let offset = layout.fields.offsets@[tag_field as int];
            let children = branch_children(def, dty, tty, tag_encoding, tag_valid_range);
            let known = variant_children(def, dty, tty, tag_encoding, def.variants@.len());
            let v = decode_int(window(mem, offset, tty), tty, endian);
            assert(readable(mem.len(), offset, tty));
            lemma_find_child(children, v);
            match find_child(children, v) {
                Some(k) => {
                    if k < known.len() {
                        lemma_variant_children(
                            def,
                            dty,
                            tty,
                            tag_encoding,
                            def.variants@.len(),
                            k,
                        );
                    }
                    assert(children[k].target.decide(mem, endian) !is Unreadable);
                },
                None => {},
            }
        },
    }
}

/// In a translation with a niche, two niche variants have
/// different tag values, and the tag value of a niche variant lies in none of
/// the ranges that are declared invalid.
pub proof fn lemma_niche_tags_apart(def: AdtDef, layout: Layout, i: int, j: int)
    requires
        translation_error(def, layout) is None,
        layout.variants matches Variants::Multiple { tag_encoding, .. } && tag_encoding is Niche,
        0 <= i < def.variants@.len(),
        0 <= j < def.variants@.len(),
        i != j,
        i != layout.variants->tag_encoding->untagged_variant,
        j != layout.variants->tag_encoding->untagged_variant,
    ensures
        ({
            let dty = discriminant_type(def)->Ok_0;
            let tty = tag_type(layout.variants->tag_ty)->Ok_0;
            let encoding = layout.variants->tag_encoding;
            let gaps = gap_children(tty, layout.variants->tag_valid_range);
            &&& tag_value_of(def, dty, tty, encoding, i) is Some
            &&& tag_value_of(def, dty, tty, encoding, j) is Some
            &&& tag_value_of(def, dty, tty, encoding, i) != tag_value_of(def, dty, tty, encoding, j)
            &&& forall|g: int|
                0 <= g < gaps.len() ==> !(#[trigger] gaps[g]).holds(
                    tag_value_of(def, dty, tty, encoding, i)->0,
                )
        }),
{
    let dty = discriminant_type(def)->Ok_0;
    let tty = tag_type(layout.variants->tag_ty)->Ok_0;
    let encoding = layout.variants->tag_encoding;
    let valid = layout.variants->tag_valid_range;
    let n = def.variants@.len();
    let known = variant_children(def, dty, tty, encoding, n);
    let gaps = gap_children(tty, valid);
    let children = branch_children(def, dty, tty, encoding, valid);
    let ti = tag_value_of(def, dty, tty, encoding, i)->0;
    let tj = tag_value_of(def, dty, tty, encoding, j)->0;
    let di = discriminant_of(def, dty, i);
    let dj = discriminant_of(def, dty, j);
    lemma_wrap_in_domain(tty, di - encoding->niche_variants.start + encoding->niche_start);
    lemma_wrap_in_domain(tty, dj - encoding->niche_variants.start + encoding->niche_start);
    lemma_domain_in_range(tty, ti);
    lemma_domain_in_range(tty, tj);
    Int::lemma_view_of(ti);
    Int::lemma_view_of(tj);
    lemma_child_position(def, dty, tty, encoding, n, i);
    lemma_child_position(def, dty, tty, encoding, n, j);
    let ki = child_position(def, dty, tty, encoding, i);
    let kj = child_position(def, dty, tty, encoding, j);
    assert(children[ki] == child_of(def, dty, tty, encoding, i)->0);
    assert(children[kj] == child_of(def, dty, tty, encoding, j)->0);
    if i < j {
        lemma_child_position(def, dty, tty, encoding, j as nat, i);
        assert(!children[ki].overlaps(children[kj]));
    } else {
        lemma_child_position(def, dty, tty, encoding, i as nat, j);
        assert(!children[kj].overlaps(children[ki]));
    }
    assert forall|g: int| 0 <= g < gaps.len() implies !(#[trigger] gaps[g]).holds(ti) by {
        assert(children[known.len() + g] == gaps[g]);
        assert(!children[ki].overlaps(children[known.len() + g]));
    }
}

/// The tag values of a niche are apart as far as the discriminants are: two
/// discriminants that differ by less than the number of values of the tag
/// type get different tag values.
pub proof fn lemma_niche_tag_injective(
    one: int,
    other: int,
    niche_variants_start: int,
    niche_start: int,
    tty: IntType,
)
    requires
        tty.wf(),
        one != other,
        -tty.modulus() < one - other < tty.modulus(),
    ensures
        niche_tag(one, niche_variants_start, niche_start, tty) != niche_tag(
            other,
            niche_variants_start,
            niche_start,
            tty,
        ),
{
    let a = one - niche_variants_start + niche_start;
    let b = other - niche_variants_start + niche_start;
    let m = tty.modulus();
    if tty.wrap(a) == tty.wrap(b) {
        lemma_wrap_same_is_congruent(tty, a, b);
        lemma_wrap_same_is_congruent(tty, b, a);
        if a > b {
            lemma_small_mod((a - b) as nat, m as nat);
        } else {
            lemma_small_mod((b - a) as nat, m as nat);
        }
    }
}

/// Whether `t` lies in the valid range of a tag of type `tty`.
pub open spec fn in_valid_range(t: int, tty: IntType, valid: WrappingRange) -> bool {
    let start = int_from_bits_spec(valid.start, tty);
    let end = int_from_bits_spec(valid.end, tty);
    if start <= end {
        start <= t <= end
    } else {
        start <= t || t <= end
    }
}

/// The ranges that a niche declares invalid hold the values of the tag type
/// outside the valid range, and no others.
pub proof fn lemma_gap_children_cover(tty: IntType, valid: WrappingRange, t: int)
    requires
        tty.wf(),
        tty.contains(t),
    ensures
        (exists|g: int|
            0 <= g < gap_children(tty, valid).len() && (#[trigger] gap_children(tty, valid)[g]).holds(
                t,
            )) <==> !in_valid_range(t, tty, valid),
        forall|g: int|
            0 <= g < gap_children(tty, valid).len() ==> (#[trigger] gap_children(
                tty,
                valid,
            )[g]).target == Discriminator::Invalid,
{
    let gaps = gap_children(tty, valid);
    let start = int_from_bits_spec(valid.start, tty);
    let end = int_from_bits_spec(valid.end, tty);
    lemma_wrap_in_domain(tty, valid.start as int);
    lemma_wrap_in_domain(tty, valid.end as int);
    lemma_domain_in_range(tty, start);
    lemma_domain_in_range(tty, end);
    lemma_domain_in_range(tty, tty.min_value());
    lemma_domain_in_range(tty, tty.max_value());
    Int::lemma_view_of(tty.min_value());
    Int::lemma_view_of(tty.max_value());
    if end < tty.max_value() || end < start {
        Int::lemma_view_of(end + 1);
    }
    if tty.min_value() < start {
        Int::lemma_view_of(start - 1);
    }
    if !in_valid_range(t, tty, valid) {
        if start <= end {
            if t > end {
                assert(gaps[0].holds(t));
            } else {
                assert(gaps[gaps.len() - 1].holds(t));
            }
        } else {
            assert(gaps[0].holds(t));
        }
    }
}

/// The discriminant that is computed for one variant alone is the one under
/// which a translation with a tag keeps that variant.
pub proof fn lemma_discriminants_agree(def: AdtDef, layout: Layout, e: EnumType, i: int)
    requires
        translation_error(def, layout) is None,
        is_translation(def, layout, e),
        layout.variants is Multiple,
        def.kind == AdtKind::Enum,
        0 <= i < def.variants@.len(),
    ensures
        discriminant_for_variant_spec(TyKind::Adt(def), i) == Ok::<int, crate::enums::TranslateError>(
            e.variants@[i].0@,
        ),
{
}

} // verus!
