//! The compressed bitmaps that track validity and liveness.
//!
//! The bitmaps are `roaring::RoaringBitmap` values. Their behaviour is not
//! proved here: the declarations below state, over the set of members, what
//! the crate documents for the four methods that the engine calls.

use roaring::RoaringBitmap;
use vstd::prelude::*;

verus! {

/// Makes `roaring::RoaringBitmap` known to the verifier as an opaque type.
#[verifier::external_type_specification]
#[verifier::external_body]
pub struct ExRoaringBitmap(RoaringBitmap);

/// The set of integers that a bitmap holds.
pub uninterp spec fn bitmap_members(b: RoaringBitmap) -> Set<u32>;

/// `RoaringBitmap::new` creates an empty bitmap.
pub assume_specification[ RoaringBitmap::new ]() -> (b: RoaringBitmap)
    ensures
        bitmap_members(b) == Set::<u32>::empty(),
;

/// `RoaringBitmap::insert` adds `value` to the set and reports whether it
/// was absent before.
pub assume_specification[ RoaringBitmap::insert ](b: &mut RoaringBitmap, value: u32) -> (added:
    bool)
    ensures
        bitmap_members(*final(b)) == bitmap_members(*old(b)).insert(value),
        added == !bitmap_members(*old(b)).contains(value),
;

/// `RoaringBitmap::remove` takes `value` out of the set and reports whether
/// it was present before.
pub assume_specification[ RoaringBitmap::remove ](b: &mut RoaringBitmap, value: u32) -> (removed:
    bool)
    ensures
        bitmap_members(*final(b)) == bitmap_members(*old(b)).remove(value),
        removed == bitmap_members(*old(b)).contains(value),
;

/// `RoaringBitmap::contains` reports whether `value` is in the set.
pub assume_specification[ RoaringBitmap::contains ](b: &RoaringBitmap, value: u32) -> (found:
    bool)
    ensures
        found == bitmap_members(*b).contains(value),
;

} // verus!
