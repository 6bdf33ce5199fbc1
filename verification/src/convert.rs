//! Conversions from the machine integers.
use crate::integer::Int;
use vstd::prelude::*;
use vstd::std_specs::convert::FromSpecImpl;

verus! {

impl From<u8> for Int {
    fn from(v: u8) -> (r: Int) {
        let r = Int::from_u128(v as u128);
        proof {
            r.lemma_of_view();
        }
        r
    }
}

impl FromSpecImpl<u8> for Int {
    open spec fn obeys_from_spec() -> bool {
        true
    }

    open spec fn from_spec(v: u8) -> Int {
        Int::of(v as int)
    }
}

impl From<u16> for Int {
    fn from(v: u16) -> (r: Int) {
        let r = Int::from_u128(v as u128);
        proof {
            r.lemma_of_view();
        }
        r
    }
}

impl FromSpecImpl<u16> for Int {
    open spec fn obeys_from_spec() -> bool {
        true
    }

    open spec fn from_spec(v: u16) -> Int {
        Int::of(v as int)
    }
}

impl From<u32> for Int {
    fn from(v: u32) -> (r: Int) {
        let r = Int::from_u128(v as u128);
        proof {
            r.lemma_of_view();
        }
        r
    }
}

impl FromSpecImpl<u32> for Int {
    open spec fn obeys_from_spec() -> bool {
        true
    }

    open spec fn from_spec(v: u32) -> Int {
        Int::of(v as int)
    }
}

impl From<u64> for Int {
    fn from(v: u64) -> (r: Int) {
        let r = Int::from_u128(v as u128);
        proof {
            r.lemma_of_view();
        }
        r
    }
}

impl FromSpecImpl<u64> for Int {
    open spec fn obeys_from_spec() -> bool {
        true
    }

    open spec fn from_spec(v: u64) -> Int {
        Int::of(v as int)
    }
}

impl From<u128> for Int {
    fn from(v: u128) -> (r: Int) {
        let r = Int::from_u128(v as u128);
        proof {
            r.lemma_of_view();
        }
        r
    }
}

impl FromSpecImpl<u128> for Int {
    open spec fn obeys_from_spec() -> bool {
        true
    }

    open spec fn from_spec(v: u128) -> Int {
        Int::of(v as int)
    }
}

impl From<usize> for Int {
    fn from(v: usize) -> (r: Int) {
        let r = Int::from_u128(v as u128);
        proof {
            r.lemma_of_view();
        }
        r
    }
}

impl FromSpecImpl<usize> for Int {
    open spec fn obeys_from_spec() -> bool {
        true
    }

    open spec fn from_spec(v: usize) -> Int {
        Int::of(v as int)
    }
}

impl From<i8> for Int {
    fn from(v: i8) -> (r: Int) {
        let r = Int::from_i128(v as i128);
        proof {
            r.lemma_of_view();
        }
        r
    }
}

impl FromSpecImpl<i8> for Int {
    open spec fn obeys_from_spec() -> bool {
        true
    }

    open spec fn from_spec(v: i8) -> Int {
        Int::of(v as int)
    }
}

impl From<i16> for Int {
    fn from(v: i16) -> (r: Int) {
        let r = Int::from_i128(v as i128);
        proof {
            r.lemma_of_view();
        }
        r
    }
}

impl FromSpecImpl<i16> for Int {
    open spec fn obeys_from_spec() -> bool {
        true
    }

    open spec fn from_spec(v: i16) -> Int {
        Int::of(v as int)
    }
}

impl From<i32> for Int {
    fn from(v: i32) -> (r: Int) {
        let r = Int::from_i128(v as i128);
        proof {
            r.lemma_of_view();
        }
        r
    }
}

impl FromSpecImpl<i32> for Int {
    open spec fn obeys_from_spec() -> bool {
        true
    }

    open spec fn from_spec(v: i32) -> Int {
        Int::of(v as int)
    }
}

impl From<i64> for Int {
    fn from(v: i64) -> (r: Int) {
        let r = Int::from_i128(v as i128);
        proof {
            r.lemma_of_view();
        }
        r
    }
}

impl FromSpecImpl<i64> for Int {
    open spec fn obeys_from_spec() -> bool {
        true
    }

    open spec fn from_spec(v: i64) -> Int {
        Int::of(v as int)
    }
}

impl From<i128> for Int {
    fn from(v: i128) -> (r: Int) {
        let r = Int::from_i128(v as i128);
        proof {
            r.lemma_of_view();
        }
        r
    }
}

impl FromSpecImpl<i128> for Int {
    open spec fn obeys_from_spec() -> bool {
        true
    }

    open spec fn from_spec(v: i128) -> Int {
        Int::of(v as int)
    }
}

impl From<isize> for Int {
    fn from(v: isize) -> (r: Int) {
        let r = Int::from_i128(v as i128);
        proof {
            r.lemma_of_view();
        }
        r
    }
}

impl FromSpecImpl<isize> for Int {
    open spec fn obeys_from_spec() -> bool {
        true
    }

    open spec fn from_spec(v: isize) -> Int {
        Int::of(v as int)
    }
}

} // verus!
