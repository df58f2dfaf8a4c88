//! The trusted boundary to the `rangemap` crate.
//!
//! The module index keys decoded functions by byte-address range. The range
//! map itself comes from the `rangemap` crate; a [`FuncIndex`] holds one,
//! modelled point-wise as a map from address to stored value, and the three
//! operations the module index uses are given contracts over that model.

use vstd::prelude::*;

verus! {

#[verifier::external_type_specification]
#[verifier::external_body]
#[verifier::reject_recursive_types(K)]
#[verifier::reject_recursive_types(V)]
pub struct ExRangeMap<K, V>(rangemap::RangeMap<K, V>);

/// What the range map holds, point-wise: which stored value covers each
/// address.
pub uninterp spec fn range_map_contents(m: rangemap::RangeMap<u64, usize>) -> Map<u64, usize>;

/// The empty contents.
pub open spec fn no_contents() -> Map<u64, usize> {
    Map::empty()
}

/// The contents `m` with every address of `[start, end)` mapped to `value`,
/// everything outside the range kept.
pub open spec fn overwritten(m: Map<u64, usize>, start: u64, end: u64, value: usize) -> Map<
    u64,
    usize,
> {
    Map::new(
        (|a: u64| start <= a < end || m.dom().contains(a)),
        (|a: u64|
            if start <= a < end {
                value
            } else {
                m[a]
            }),
    )
}

/// An address-range index of `usize` values: a range map viewed point-wise
/// as a map from address to value.
pub struct FuncIndex {
    /// The underlying range map.
    pub map: rangemap::RangeMap<u64, usize>,
}

impl View for FuncIndex {
    type V = Map<u64, usize>;

    open spec fn view(&self) -> Map<u64, usize> {
        range_map_contents(self.map)
    }
}

impl FuncIndex {
    /// An empty index.
    /// Relies on rangemap::RangeMap::new: the new map stores nothing.
    #[verifier::external_body]
    pub fn new() -> (r: FuncIndex)
        ensures
            r@ == no_contents(),
    {
        FuncIndex { map: rangemap::RangeMap::new() }
    }

    /// Maps every address of `[start, end)` to `value`.
    /// Relies on rangemap::RangeMap::insert: afterwards every point of the
    /// range maps to the value, any overlapped part of an existing range is
    /// replaced, and every point outside the range keeps its mapping.
    /// `insert` panics on an empty range, so `start < end` is required.
    #[verifier::external_body]
    pub fn insert(&mut self, start: u64, end: u64, value: usize)
        requires
            start < end,
        ensures
            final(self)@ == overwritten(old(self)@, start, end, value),
            final(self)@ == range_map_contents(final(self).map),
    {
        self.map.insert(start..end, value);
    }

    /// The stored value whose range covers `addr`, if any.
    /// Relies on rangemap::RangeMap::get: it returns the value of the one
    /// stored range containing the key.
    #[verifier::external_body]
    pub fn get(&self, addr: u64) -> (r: Option<usize>)
        ensures
            r == (if self@.dom().contains(addr) {
                Some(self@[addr])
            } else {
                None::<usize>
            }),
    {
        self.map.get(&addr).copied()
    }
}

} // verus!
