//! Bounded colour and offset buffers, backed by `heapless::Vec`.
//!
//! The batching pipeline accumulates pixel colours in fixed-capacity
//! vectors so that one emitted row or block never exceeds the transport's
//! per-transaction buffer. The buffers are `heapless::Vec`s; their contents
//! are named by uninterpreted model functions, and every operation the
//! library needs goes through a small trusted wrapper whose contract states
//! what the `heapless` source shows.

use vstd::prelude::*;

verus! {

/// Max number of pixels per pixel row.
pub const CAP_ROW: usize = 100;

/// Max number of pixels per pixel block.
pub const CAP_BLOCK: usize = 200;

/// Max depth of the translation stack.
pub const MAX_TRANSFORMS: usize = 10;

#[verifier::external_type_specification]
#[verifier::external_body]
#[verifier::reject_recursive_types(T)]
pub struct ExHeaplessVec<T, const N: usize>(heapless::Vec<T, N>);

/// Consecutive colour words for a pixel row.
pub type RowColors = heapless::Vec<u16, CAP_ROW>;

/// Consecutive colour words for a pixel block.
pub type BlockColors = heapless::Vec<u16, CAP_BLOCK>;

/// Entries of the translation stack.
pub type OffsetEntries = heapless::Vec<(i32, i32), MAX_TRANSFORMS>;

/// The colour words held by a row buffer, oldest first.
pub uninterp spec fn row_colors_model(v: RowColors) -> Seq<u16>;

/// The colour words held by a block buffer, oldest first.
pub uninterp spec fn block_colors_model(v: BlockColors) -> Seq<u16>;

/// The translation offsets held by an offset stack, bottom first.
pub uninterp spec fn offsets_model(v: OffsetEntries) -> Seq<(i32, i32)>;

/// Relies on `heapless::Vec::new`: the new vector is empty.
#[verifier::external_body]
pub fn row_colors_new() -> (r: RowColors)
    ensures
        row_colors_model(r) == Seq::<u16>::empty(),
{
    heapless::Vec::new()
}

/// Relies on `heapless::Vec::push`: below capacity it appends the item and
/// returns `Ok`.
#[verifier::external_body]
pub fn row_colors_push(v: &mut RowColors, c: u16)
    requires
        row_colors_model(*old(v)).len() < CAP_ROW,
    ensures
        row_colors_model(*final(v)) == row_colors_model(*old(v)).push(c),
{
    let _ = v.push(c);
}

/// Relies on `heapless::Vec::clear`: it removes all values.
#[verifier::external_body]
pub fn row_colors_clear(v: &mut RowColors)
    ensures
        row_colors_model(*final(v)) == Seq::<u16>::empty(),
{
    v.clear();
}

/// Relies on `heapless::Vec::clone`: it clones the vector contents in order.
#[verifier::external_body]
pub fn row_colors_clone(v: &RowColors) -> (r: RowColors)
    ensures
        row_colors_model(r) == row_colors_model(*v),
{
    v.clone()
}

/// Relies on `heapless::Vec::new`: the new vector is empty.
#[verifier::external_body]
pub fn block_colors_new() -> (r: BlockColors)
    ensures
        block_colors_model(r) == Seq::<u16>::empty(),
{
    heapless::Vec::new()
}

/// Relies on `heapless::Vec::extend_from_slice`: when the combined length
/// stays within capacity it appends the slice in order and returns `Ok`.
#[verifier::external_body]
pub fn block_colors_extend(v: &mut BlockColors, row: &RowColors)
    requires
        block_colors_model(*old(v)).len() + row_colors_model(*row).len() <= CAP_BLOCK,
    ensures
        block_colors_model(*final(v)) == block_colors_model(*old(v)) + row_colors_model(*row),
{
    let _ = v.extend_from_slice(row.as_slice());
}

/// Relies on `heapless::Vec::clear`: it removes all values.
#[verifier::external_body]
pub fn block_colors_clear(v: &mut BlockColors)
    ensures
        block_colors_model(*final(v)) == Seq::<u16>::empty(),
{
    v.clear();
}

/// Relies on `heapless::Vec::clone`: it clones the vector contents in order.
#[verifier::external_body]
pub fn block_colors_clone(v: &BlockColors) -> (r: BlockColors)
    ensures
        block_colors_model(r) == block_colors_model(*v),
{
    v.clone()
}

/// Relies on `heapless::Vec::new`: the new vector is empty.
#[verifier::external_body]
pub fn offsets_new() -> (r: OffsetEntries)
    ensures
        offsets_model(r) == Seq::<(i32, i32)>::empty(),
{
    heapless::Vec::new()
}

/// Relies on `heapless::Vec::len` (via `Deref` to a slice): the number of
/// elements held.
#[verifier::external_body]
pub fn offsets_len(v: &OffsetEntries) -> (r: usize)
    ensures
        r == offsets_model(*v).len(),
{
    v.len()
}

/// Relies on `heapless::Vec::push`: below capacity it appends the item and
/// returns `Ok`.
#[verifier::external_body]
pub fn offsets_push(v: &mut OffsetEntries, e: (i32, i32))
    requires
        offsets_model(*old(v)).len() < MAX_TRANSFORMS,
    ensures
        offsets_model(*final(v)) == offsets_model(*old(v)).push(e),
{
    let _ = v.push(e);
}

/// Relies on `heapless::Vec::pop`: on a non-empty vector it removes and
/// returns the last element.
#[verifier::external_body]
pub fn offsets_pop(v: &mut OffsetEntries) -> (r: (i32, i32))
    requires
        offsets_model(*old(v)).len() > 0,
    ensures
        offsets_model(*final(v)) == offsets_model(*old(v)).drop_last(),
        r == offsets_model(*old(v)).last(),
{
    match v.pop() {
        Some(e) => e,
        None => (0, 0),
    }
}

/// Relies on `heapless::Vec`'s `Deref` to a slice and `slice::get`: the
/// element at an in-bounds index.
#[verifier::external_body]
pub fn offsets_get(v: &OffsetEntries, i: usize) -> (r: (i32, i32))
    requires
        i < offsets_model(*v).len(),
    ensures
        r == offsets_model(*v)[i as int],
{
    match v.as_slice().get(i) {
        Some(e) => *e,
        None => (0, 0),
    }
}

} // verus!
