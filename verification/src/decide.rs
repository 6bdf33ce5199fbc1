//! Finding the variant of a value in memory, and marking memory as a value of
//! a variant.
use crate::integer::{lemma_domain_in_range, lemma_wrap_in_domain, Int};
use crate::memory::{
    decode_int, encode_int, read_int, readable, splice, window, write_int, Endianness,
};
use crate::types::{find_child, pairwise_disjoint, Child, Discriminator, EnumType, TagWrite, Variant};
use vstd::prelude::*;

verus! {

/// What a discriminator finds in memory.
#[derive(Clone, Copy, Debug, PartialEq, Eq, Structural)]
pub enum Decision {
    /// The value is of the variant with this discriminant.
    Known(Int),
    /// The memory holds no value of the type.
    Invalid,
    /// A tag to be read does not lie within the memory, or is of an
    /// unsupported width.
    Unreadable,
}

/// What `find_child` returns: the index of a child that holds `v`, before
/// which no child holds it; or nothing, where no child holds `v`.
pub proof fn lemma_find_child(children: Seq<Child>, v: int)
    ensures
        match find_child(children, v) {
            Some(k) => 0 <= k < children.len() && children[k].holds(v) && forall|j: int|
                0 <= j < k ==> !(#[trigger] children[j]).holds(v),
            None => forall|j: int| 0 <= j < children.len() ==> !(#[trigger] children[j]).holds(v),
        },
    decreases children.len(),
{
    if children.len() > 0 && !children[0].holds(v) {
        let rest = children.skip(1);
        lemma_find_child(rest, v);
        match find_child(rest, v) {
            Some(k) => {
                assert forall|j: int| 0 <= j < k + 1 implies !(#[trigger] children[j]).holds(
                    v,
                ) by {
                    if j > 0 {
                        assert(rest[j - 1] == children[j]);
                    }
                }
            },
            None => {
                assert forall|j: int| 0 <= j < children.len() implies !(
                #[trigger] children[j]).holds(v) by {
                    if j > 0 {
                        assert(rest[j - 1] == children[j]);
                    }
                }
            },
        }
    }
}

/// Among children of which no two overlap, a value is held by at most one,
/// and that one is found: every value either has its one child or falls through.
pub proof fn lemma_branch_total(children: Seq<Child>, v: int, k: int)
    requires
        pairwise_disjoint(children),
        0 <= k < children.len(),
        children[k].holds(v),
    ensures
        find_child(children, v) == Some(k),
        forall|j: int| 0 <= j < children.len() && j != k ==> !(#[trigger] children[j]).holds(v),
{
    assert forall|j: int| 0 <= j < children.len() && j != k implies !(#[trigger] children[j]).holds(
        v,
    ) by {
        if j < k {
            assert(!children[j].overlaps(children[k]));
        } else {
            assert(!children[k].overlaps(children[j]));
        }
    }
    lemma_find_child(children, v);
}

/// The index of the first child whose range holds `v`.
pub fn find_child_index(children: &Vec<Child>, v: &Int) -> (r: Option<usize>)
    ensures
        match find_child(children@, v@) {
            Some(k) => r == Some(k as usize),
            None => r is None,
        },
{
    let n = children.len();
    let mut i: usize = 0;
    proof {
        lemma_find_child(children@, v@);
    }
    while i < n
        invariant
            i <= n == children@.len(),
            forall|j: int| 0 <= j < i ==> !(#[trigger] children@[j]).holds(v@),
        decreases n - i,
    {
        if children[i].lo.le(v) && v.le(&children[i].hi) {
            proof {
                lemma_find_child(children@, v@);
            }
            return Some(i);
        }
        i = i + 1;
    }
    proof {
        lemma_find_child(children@, v@);
    }
    None
}

impl Discriminator {
    /// Where a branch leads when no child holds the value read.
    pub open spec fn otherwise(self) -> Discriminator {
        match self {
            Discriminator::Branch { fallback, .. } => *fallback,
            _ => Discriminator::Invalid,
        }
    }

    /// What the discriminator finds in `mem`: a branch reads its integer and
    /// goes on with the first child that holds it, or with the fallback.
    pub open spec fn decide(self, mem: Seq<u8>, endian: Endianness) -> Decision
        decreases self,
    {
        match self {
            Discriminator::Known(v) => Decision::Known(v),
            Discriminator::Invalid => Decision::Invalid,
            Discriminator::Branch { offset, value_type, fallback, children } => {
                if !readable(mem.len(), offset, value_type) {
                    Decision::Unreadable
                } else {
                    let v = decode_int(window(mem, offset, value_type), value_type, endian);
                    let found = find_child(children@, v);
                    if found is Some && 0 <= found->0 < children@.len() {
                        children@[found->0].target.decide(mem, endian)
                    } else {
                        fallback.decide(mem, endian)
                    }
                }
            },
        }
    }

    /// Finds the variant of the value in `buf`.
    pub fn evaluate(&self, buf: &[u8], endian: Endianness) -> (r: Decision)
        ensures
            r == self.decide(buf@, endian),
        decreases self,
    {
        match self {
            Discriminator::Known(v) => Decision::Known(*v),
            Discriminator::Invalid => Decision::Invalid,
            Discriminator::Branch { offset, value_type, fallback, children } => {
                match read_int(buf, *offset, *value_type, endian) {
                    None => Decision::Unreadable,
                    Some(v) => {
                        proof {
                            let d = decode_int(
                                window(buf@, *offset, *value_type),
                                *value_type,
                                endian,
                            );
                            lemma_wrap_in_domain(
                                *value_type,
                                crate::memory::bytes_value(
                                    window(buf@, *offset, *value_type),
                                    endian,
                                ) as int,
                            );
                            lemma_domain_in_range(*value_type, d);
                            Int::lemma_view_of(d);
                            lemma_find_child(children@, d);
                        }
                        match find_child_index(children, &v) {
                            Some(k) => children[k].target.evaluate(buf, endian),
                            None => {
                                let rest: &Discriminator = &**fallback;
                                rest.evaluate(buf, endian)
                            },
                        }
                    },
                }
            },
        }
    }
}

/// Whichever variant a discriminator finds in memory is one of those that its
/// tree decides on.
pub proof fn lemma_decides_within(
    d: Discriminator,
    keys: Set<int>,
    mem: Seq<u8>,
    endian: Endianness,
)
    requires
        d.decides_within(keys),
    ensures
        d.decide(mem, endian) matches Decision::Known(v) ==> keys.contains(v@),
    decreases d,
{
    match d {
        Discriminator::Branch { offset, value_type, fallback, children } => {
            if readable(mem.len(), offset, value_type) {
                let v = decode_int(window(mem, offset, value_type), value_type, endian);
                let found = find_child(children@, v);
                if found is Some && 0 <= found->0 < children@.len() {
                    lemma_decides_within(children@[found->0].target, keys, mem, endian);
                } else {
                    lemma_decides_within(d.otherwise(), keys, mem, endian);
                }
            }
        },
        _ => {},
    }
}

/// `mem` after the write `w`, which is left out where it does not lie within
/// `mem`.
pub open spec fn apply_write(mem: Seq<u8>, w: TagWrite, endian: Endianness) -> Seq<u8> {
    if readable(mem.len(), w.offset, w.ty) {
        splice(mem, w.offset.bytes as int, encode_int(w.value@, w.ty, endian))
    } else {
        mem
    }
}

/// `mem` after the writes of `tagger`, in their order.
pub open spec fn apply_tagger(mem: Seq<u8>, tagger: Seq<TagWrite>, endian: Endianness) -> Seq<u8>
    decreases tagger.len(),
{
    if tagger.len() == 0 {
        mem
    } else {
        apply_write(apply_tagger(mem, tagger.drop_last(), endian), tagger.last(), endian)
    }
}

/// Whether every write of `tagger` lies within `len` bytes.
pub open spec fn tagger_fits(len: nat, tagger: Seq<TagWrite>) -> bool {
    forall|k: int| 0 <= k < tagger.len() ==> readable(len, (#[trigger] tagger[k]).offset, tagger[k].ty)
}

/// Writing a tag keeps the length of the memory.
pub proof fn lemma_apply_tagger_len(mem: Seq<u8>, tagger: Seq<TagWrite>, endian: Endianness)
    ensures
        apply_tagger(mem, tagger, endian).len() == mem.len(),
    decreases tagger.len(),
{
    if tagger.len() > 0 {
        let before = apply_tagger(mem, tagger.drop_last(), endian);
        lemma_apply_tagger_len(mem, tagger.drop_last(), endian);
        let w = tagger.last();
        if readable(before.len(), w.offset, w.ty) {
            crate::memory::lemma_value_bytes_len(
                (w.value@ % crate::integer::int_limit()) as nat,
                w.ty.size.bytes as nat,
                endian,
            );
        }
    }
}

impl Variant {
    /// Marks the value in `buf` as one of this variant: makes the writes of
    /// the tagger that lie within the buffer, and says whether all did.
    pub fn write_tag(&self, buf: &mut Vec<u8>, endian: Endianness) -> (done: bool)
        ensures
            final(buf)@ == apply_tagger(old(buf)@, self.tagger@, endian),
            done == tagger_fits(old(buf)@.len(), self.tagger@),
    {
        let n = self.tagger.len();
        let mut done = true;
        let mut i: usize = 0;
        assert(self.tagger@.take(0) =~= Seq::<TagWrite>::empty());
        while i < n
            invariant
                i <= n == self.tagger@.len(),
                buf@ == apply_tagger(old(buf)@, self.tagger@.take(i as int), endian),
                done == tagger_fits(old(buf)@.len(), self.tagger@.take(i as int)),
            decreases n - i,
        {
            let w = self.tagger[i];
            proof {
                lemma_apply_tagger_len(old(buf)@, self.tagger@.take(i as int), endian);
                assert(self.tagger@.take(i + 1).drop_last() =~= self.tagger@.take(i as int));
                assert(self.tagger@.take(i + 1).last() == w);
            }
            let ghost before = self.tagger@.take(i as int);
            let ghost after = self.tagger@.take(i + 1);
            let fits = write_int(buf, w.offset, w.ty, &w.value, endian);
            proof {
                if done && fits {
                    assert forall|k: int| 0 <= k < after.len() implies readable(
                        old(buf)@.len(),
                        (#[trigger] after[k]).offset,
                        after[k].ty,
                    ) by {
                        if k < i {
                            assert(before[k] == after[k]);
                        }
                    }
                } else if !fits {
                    assert(after[i as int] == w);
                } else {
                    let k = choose|k: int|
                        0 <= k < before.len() && !readable(
                            old(buf)@.len(),
                            (#[trigger] before[k]).offset,
                            before[k].ty,
                        );
                    assert(after[k] == before[k]);
                }
            }
            done = done && fits;
            i = i + 1;
        }
        assert(self.tagger@.take(n as int) =~= self.tagger@);
        done
    }
}

impl EnumType {
    /// The index of the variant with the discriminant `d`.
    pub fn variant_index(&self, d: &Int) -> (r: Option<usize>)
        ensures
            match r {
                Some(i) => i < self.variants@.len() && self.variants@[i as int].0 == *d
                    && forall|j: int| 0 <= j < i ==> (#[trigger] self.variants@[j]).0 != *d,
                None => forall|j: int|
                    0 <= j < self.variants@.len() ==> (#[trigger] self.variants@[j]).0 != *d,
            },
    {
        let n = self.variants.len();
        let mut i: usize = 0;
        while i < n
            invariant
                i <= n == self.variants@.len(),
                forall|j: int| 0 <= j < i ==> (#[trigger] self.variants@[j]).0 != *d,
            decreases n - i,
        {
            if self.variants[i].0 == *d {
                return Some(i);
            }
            i = i + 1;
        }
        None
    }
}

} // verus!
