//! The table of width classes.
use vstd::arithmetic::div_mod::lemma_fundamental_div_mod_converse;
use vstd::arithmetic::power2::{lemma2_to64, lemma2_to64_rest, lemma_pow2_adds, pow2};
use vstd::bits::lemma_u64_shl_is_mul;
use vstd::prelude::*;

verus! {

/// One row of the table: how a width class lays a value out in its record.
#[derive(Clone, Copy, Debug, PartialEq, Eq)]
pub struct DynNumTypeInfo {
    /// Number of low bits of the first byte that hold the tag.
    pub tagsize: u8,
    /// The pattern those bits hold.
    pub tagcode: u8,
    /// Length of the whole record in bytes.
    pub bytecapacity: u8,
    /// Number of bits left for the value.
    pub bitrange: u8,
}

impl DynNumTypeInfo {
    /// A row is well formed when the tag fits into the first byte beside at
    /// least one payload bit, the pattern fits into the tag, the record is
    /// between one and eight bytes long, and tag and payload fill it exactly.
    pub open spec fn wf(self) -> bool {
        &&& 1 <= self.tagsize < 8
        &&& self.tagcode < pow2(self.tagsize as nat)
        &&& 1 <= self.bytecapacity <= 8
        &&& self.bitrange + self.tagsize == 8 * self.bytecapacity
    }

    /// The least value that the class cannot hold: two to the power `bitrange`.
    pub open spec fn limit(self) -> nat {
        pow2(self.bitrange as nat)
    }

    /// Whether the class can hold `value`.
    pub open spec fn holds(self, value: u64) -> bool {
        value < self.limit()
    }

    /// The record of `value` read as one number: the value moved up past the
    /// tag bits, with the tag pattern below it.
    pub open spec fn tagged(self, value: u64) -> nat {
        value as nat * pow2(self.tagsize as nat) + self.tagcode as nat
    }

    /// Whether the low `tagsize` bits of `first` hold this class's pattern.
    pub open spec fn tag_matches(self, first: u8) -> bool {
        first as nat % pow2(self.tagsize as nat) == self.tagcode as nat
    }

    /// In a well-formed row, the tagged form of a value that the class holds
    /// fits into the record, has the value above the tag bits and the
    /// pattern in them.
    pub proof fn lemma_tagged(self, value: u64)
        requires
            self.wf(),
            self.holds(value),
        ensures
            self.tagged(value) < pow2(8 * self.bytecapacity as nat),
            self.tagged(value) / pow2(self.tagsize as nat) == value,
            self.tagged(value) % pow2(self.tagsize as nat) == self.tagcode,
    {
        let unit: nat = pow2(self.tagsize as nat);
        let limit: nat = pow2(self.bitrange as nat);
        let code: nat = self.tagcode as nat;
        lemma_pow2_adds(self.bitrange as nat, self.tagsize as nat);
        assert(value * unit + unit <= limit * unit) by (nonlinear_arith)
            requires
                value < limit,
        ;
        lemma_fundamental_div_mod_converse(
            self.tagged(value) as int,
            unit as int,
            value as int,
            code as int,
        );
    }
}

/// The four width classes, named by the length of their records.
#[derive(Clone, Copy, Debug, PartialEq, Eq)]
pub enum DynNumType {
    Byte,
    Byte2,
    Byte4,
    Byte8,
}

impl DynNumType {
    /// The classes in the order in which encoder and decoder try them:
    /// by growing record length.
    pub open spec fn table() -> Seq<DynNumType> {
        seq![DynNumType::Byte, DynNumType::Byte2, DynNumType::Byte4, DynNumType::Byte8]
    }

    /// The row of the table for this class.
    pub open spec fn typeinfo(self) -> DynNumTypeInfo {
        match self {
            DynNumType::Byte => DynNumTypeInfo {
                tagsize: 1,
                tagcode: 0b001,
                bytecapacity: 1,
                bitrange: 7,
            },
            DynNumType::Byte2 => DynNumTypeInfo {
                tagsize: 2,
                tagcode: 0b010,
                bytecapacity: 2,
                bitrange: 14,
            },
            DynNumType::Byte4 => DynNumTypeInfo {
                tagsize: 3,
                tagcode: 0b100,
                bytecapacity: 4,
                bitrange: 29,
            },
            DynNumType::Byte8 => DynNumTypeInfo {
                tagsize: 3,
                tagcode: 0b000,
                bytecapacity: 8,
                bitrange: 61,
            },
        }
    }

    /// The least value that no class can hold: the limit of the widest class.
    pub open spec fn bound() -> nat {
        Self::table().last().typeinfo().limit()
    }

    /// The first class of `classes` that `accepts` holds of, if there is one.
    pub open spec fn first_of(
        classes: Seq<DynNumType>,
        accepts: spec_fn(DynNumType) -> bool,
    ) -> Option<DynNumType>
        decreases classes.len(),
    {
        if classes.len() == 0 {
            None
        } else if accepts(classes[0]) {
            Some(classes[0])
        } else {
            Self::first_of(classes.drop_first(), accepts)
        }
    }

    /// The first class in table order that `accepts` holds of, if there is one.
    pub open spec fn first_match(accepts: spec_fn(DynNumType) -> bool) -> Option<DynNumType> {
        Self::first_of(Self::table(), accepts)
    }

    /// A search through `classes` that has passed over the first `passed` of
    /// them has its answer at the next one that is accepted, and has none
    /// once it has passed over all.
    pub proof fn lemma_first_of(
        classes: Seq<DynNumType>,
        accepts: spec_fn(DynNumType) -> bool,
        passed: int,
    )
        requires
            0 <= passed <= classes.len(),
            forall|j: int| 0 <= j < passed ==> !accepts(#[trigger] classes[j]),
        ensures
            passed == classes.len() ==> Self::first_of(classes, accepts).is_none(),
            passed < classes.len() && accepts(classes[passed]) ==> Self::first_of(classes, accepts)
                == Some(classes[passed]),
        decreases passed,
    {
        if passed > 0 {
            let rest = classes.drop_first();
            assert forall|j: int| 0 <= j < passed - 1 implies !accepts(#[trigger] rest[j]) by {
                assert(rest[j] == classes[j + 1]);
            }
            Self::lemma_first_of(rest, accepts, passed - 1);
            assert(!accepts(classes[0]));
            if passed < classes.len() {
                assert(rest[passed - 1] == classes[passed]);
            }
        }
    }

    /// Every row of the table is well formed.
    pub proof fn lemma_rows_wf(self)
        ensures
            self.typeinfo().wf(),
    {
        lemma2_to64();
    }

    /// The bound is 2^61.
    pub proof fn lemma_bound()
        ensures
            Self::bound() == 0x2000_0000_0000_0000,
    {
        lemma2_to64_rest();
    }

    /// All classes, narrowest first.
    #[inline]
    pub fn as_list() -> (list: [DynNumType; 4])
        ensures
            list@ == Self::table(),
    {
        [DynNumType::Byte, DynNumType::Byte2, DynNumType::Byte4, DynNumType::Byte8]
    }

    /// The least value that cannot be encoded.
    #[inline]
    pub fn max_value() -> (bound: u64)
        ensures
            bound == Self::bound(),
            bound == 0x2000_0000_0000_0000u64,
    {
        let info = Self::max_value_info();
        proof {
            Self::lemma_bound();
            lemma_u64_shl_is_mul(1, info.bitrange as u64);
        }
        1u64 << info.bitrange
    }

    /// The row of the widest class.
    #[inline]
    pub fn max_value_info() -> (info: DynNumTypeInfo)
        ensures
            info == Self::table().last().typeinfo(),
    {
        let list = Self::as_list();
        list[list.len() - 1].get_typeinfo()
    }

    /// The row of the table for this class.
    #[inline]
    pub fn get_typeinfo(&self) -> (info: DynNumTypeInfo)
        ensures
            info == self.typeinfo(),
    {
        match self {
            DynNumType::Byte => DynNumTypeInfo {
                tagsize: 1,
                tagcode: 0b001,
                bytecapacity: 1,
                bitrange: 7,
            },
            DynNumType::Byte2 => DynNumTypeInfo {
                tagsize: 2,
                tagcode: 0b010,
                bytecapacity: 2,
                bitrange: 14,
            },
            DynNumType::Byte4 => DynNumTypeInfo {
                tagsize: 3,
                tagcode: 0b100,
                bytecapacity: 4,
                bitrange: 29,
            },
            DynNumType::Byte8 => DynNumTypeInfo {
                tagsize: 3,
                tagcode: 0b000,
                bytecapacity: 8,
                bitrange: 61,
            },
        }
    }
}

} // verus!
