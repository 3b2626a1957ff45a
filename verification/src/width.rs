//! Storage widths and the values that fit in them.
use vstd::prelude::*;

verus! {

/// Number of whole bytes in which every element of a vector is stored.
///
/// Widths are ordered by size: a narrower width is less than a wider one. The
/// number of bytes is what [`elem_size`](BitWidth::elem_size) gives; a cast to an
/// integer does not give it, only the place of the variant, from 0 on.
#[derive(Clone, Copy, PartialEq, Eq, Ord, Debug, Structural)]
pub enum BitWidth {
    U8,
    U16,
    U24,
    U32,
}

impl BitWidth {
    /// Bytes per element.
    pub open spec fn spec_elem_size(&self) -> usize {
        match self {
            BitWidth::U8 => 1,
            BitWidth::U16 => 2,
            BitWidth::U24 => 3,
            BitWidth::U32 => 4,
        }
    }

    /// Largest value that an element of this width can hold.
    pub open spec fn spec_max(self) -> u32 {
        match self {
            BitWidth::U8 => 0xFF,
            BitWidth::U16 => 0xFFFF,
            BitWidth::U24 => 0xFF_FFFF,
            BitWidth::U32 => 0xFFFF_FFFF,
        }
    }

    /// Whether `v` can be stored at this width without loss.
    pub open spec fn fits(self, v: u32) -> bool {
        v <= self.spec_max()
    }

    /// Bytes taken by `n` elements: `n` times the element size.
    pub open spec fn bytes_for(self, n: int) -> int {
        match self {
            BitWidth::U8 => n,
            BitWidth::U16 => 2 * n,
            BitWidth::U24 => 3 * n,
            BitWidth::U32 => 4 * n,
        }
    }

    /// `self` is at most as wide as `other`.
    pub open spec fn at_most(self, other: BitWidth) -> bool {
        self.spec_elem_size() <= other.spec_elem_size()
    }

    /// The narrowest width that holds `v`.
    pub open spec fn spec_width_for(v: u32) -> BitWidth {
        if BitWidth::U8.fits(v) {
            BitWidth::U8
        } else if BitWidth::U16.fits(v) {
            BitWidth::U16
        } else if BitWidth::U24.fits(v) {
            BitWidth::U24
        } else {
            BitWidth::U32
        }
    }

    /// The wider of the two.
    pub open spec fn wider(self, other: BitWidth) -> BitWidth {
        if self.at_most(other) {
            other
        } else {
            self
        }
    }

    /// `bytes_for` is the product that its name says.
    pub proof fn lemma_bytes_for(self, n: int)
        ensures
            self.bytes_for(n) == n * self.elem_size(),
    {
        let size = self.elem_size() as int;
        match self {
            BitWidth::U8 => {
                assert(n * size == n) by (nonlinear_arith)
                    requires
                        size == 1,
                ;
            },
            BitWidth::U16 => {
                assert(n * size == 2 * n) by (nonlinear_arith)
                    requires
                        size == 2,
                ;
            },
            BitWidth::U24 => {
                assert(n * size == 3 * n) by (nonlinear_arith)
                    requires
                        size == 3,
                ;
            },
            BitWidth::U32 => {
                assert(n * size == 4 * n) by (nonlinear_arith)
                    requires
                        size == 4,
                ;
            },
        }
    }

    /// Number of bytes each element occupies at this width.
    #[verifier::when_used_as_spec(spec_elem_size)]
    pub fn elem_size(&self) -> (size: usize)
        ensures
            size == self.spec_elem_size(),
    {
        match self {
            BitWidth::U8 => 1,
            BitWidth::U16 => 2,
            BitWidth::U24 => 3,
            BitWidth::U32 => 4,
        }
    }

    /// The narrowest width that can represent `v`.
    #[verifier::when_used_as_spec(spec_width_for)]
    pub fn width_for(v: u32) -> (width: BitWidth)
        ensures
            width == BitWidth::spec_width_for(v),
    {
        if v <= 0xFF {
            BitWidth::U8
        } else if v <= 0xFFFF {
            BitWidth::U16
        } else if v <= 0xFF_FFFF {
            BitWidth::U24
        } else {
            BitWidth::U32
        }
    }
}

impl PartialOrd for BitWidth {
    fn partial_cmp(&self, other: &Self) -> (r: Option<core::cmp::Ordering>) {
        let a: usize = self.elem_size();
        let b: usize = other.elem_size();
        if a < b {
            Some(core::cmp::Ordering::Less)
        } else if a == b {
            Some(core::cmp::Ordering::Equal)
        } else {
            Some(core::cmp::Ordering::Greater)
        }
    }
}

impl vstd::std_specs::cmp::PartialOrdSpecImpl for BitWidth {
    open spec fn obeys_partial_cmp_spec() -> bool {
        true
    }

    open spec fn partial_cmp_spec(&self, other: &Self) -> Option<core::cmp::Ordering> {
        if self.elem_size() < other.elem_size() {
            Some(core::cmp::Ordering::Less)
        } else if self.elem_size() == other.elem_size() {
            Some(core::cmp::Ordering::Equal)
        } else {
            Some(core::cmp::Ordering::Greater)
        }
    }
}

} // verus!
