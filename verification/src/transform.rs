//! The translation-only transform stack.
//!
//! Every entry is a `(dx, dy)` offset; the effective translation of the
//! render context is the sum of all entries. `push` opens a scope with a
//! zero offset, `apply_translation` folds a translation into the top entry
//! alone, and `pop` closes the scope, restoring the effective translation
//! that was current when it was opened. Popping or translating with no
//! entry on the stack is a stack-underflow condition.

use vstd::prelude::*;

use crate::bounded::MAX_TRANSFORMS;
use crate::bounded::OffsetEntries;
use crate::bounded::offsets_get;
use crate::bounded::offsets_len;
use crate::bounded::offsets_model;
use crate::bounded::offsets_new;
use crate::bounded::offsets_pop;
use crate::bounded::offsets_push;

verus! {

/// A fault of a transform-stack operation.
#[derive(Clone, Copy, PartialEq, Eq, Structural, Debug)]
pub enum TransformError {
    /// `pop` or `apply_translation` was called with no entry on the stack.
    Underflow,
    /// `push` was called with `MAX_TRANSFORMS` entries already on the stack.
    Overflow,
}

/// The sum of a sequence of translation offsets.
pub open spec fn sum_offsets(s: Seq<(i32, i32)>) -> (int, int)
    decreases s.len(),
{
    if s.len() == 0 {
        (0, 0)
    } else {
        let rest = sum_offsets(s.drop_last());
        (rest.0 + s.last().0, rest.1 + s.last().1)
    }
}

/// Appending an entry adds it to the sum.
pub proof fn lemma_sum_offsets_push(s: Seq<(i32, i32)>, e: (i32, i32))
    ensures
        sum_offsets(s.push(e)) == (sum_offsets(s).0 + e.0, sum_offsets(s).1 + e.1),
{
    assert(s.push(e).drop_last() =~= s);
}

/// A stack of translation offsets with push/pop scoping.
pub struct TransformStack {
    entries: OffsetEntries,
}

impl View for TransformStack {
    type V = Seq<(i32, i32)>;

    closed spec fn view(&self) -> Seq<(i32, i32)> {
        offsets_model(self.entries)
    }
}

impl TransformStack {
    /// The stack never grows beyond `MAX_TRANSFORMS` entries.
    pub closed spec fn wf(self) -> bool {
        offsets_model(self.entries).len() <= MAX_TRANSFORMS
    }

    /// A new, empty stack.
    pub fn new() -> (r: TransformStack)
        ensures
            r.wf(),
            r@ == Seq::<(i32, i32)>::empty(),
    {
        TransformStack { entries: offsets_new() }
    }

    /// The number of open scopes.
    pub fn depth(&self) -> (r: usize)
        ensures
            r == self@.len(),
    {
        offsets_len(&self.entries)
    }

    /// Open a new scope: append a zero offset, which inherits the current
    /// cumulative translation. Fails with `Overflow` on a full stack.
    pub fn push(&mut self) -> (r: Result<(), TransformError>)
        requires
            old(self).wf(),
        ensures
            final(self).wf(),
            if old(self)@.len() < MAX_TRANSFORMS {
                r == Ok::<(), TransformError>(()) && final(self)@ == old(self)@.push((0i32, 0i32))
            } else {
                r == Err::<(), TransformError>(TransformError::Overflow) && final(self)@ == old(
                    self,
                )@
            },
    {
        if offsets_len(&self.entries) < MAX_TRANSFORMS {
            offsets_push(&mut self.entries, (0, 0));
            Ok(())
        } else {
            Err(TransformError::Overflow)
        }
    }

    /// Close the top scope: remove the top entry. Fails with `Underflow`
    /// on an empty stack.
    pub fn pop(&mut self) -> (r: Result<(), TransformError>)
        requires
            old(self).wf(),
        ensures
            final(self).wf(),
            if old(self)@.len() > 0 {
                r == Ok::<(), TransformError>(()) && final(self)@ == old(self)@.drop_last()
            } else {
                r == Err::<(), TransformError>(TransformError::Underflow) && final(self)@ == old(
                    self,
                )@
            },
    {
        if offsets_len(&self.entries) > 0 {
            let _ = offsets_pop(&mut self.entries);
            Ok(())
        } else {
            Err(TransformError::Underflow)
        }
    }

    /// Fold a translation into the top entry alone. Fails with `Underflow`
    /// on an empty stack.
    pub fn apply_translation(&mut self, dx: i32, dy: i32) -> (r: Result<(), TransformError>)
        requires
            old(self).wf(),
            old(self)@.len() > 0 ==> {
                &&& i32::MIN <= old(self)@.last().0 + dx <= i32::MAX
                &&& i32::MIN <= old(self)@.last().1 + dy <= i32::MAX
            },
        ensures
            final(self).wf(),
            if old(self)@.len() > 0 {
                r == Ok::<(), TransformError>(()) && final(self)@ == old(self)@.update(
                    old(self)@.len() - 1,
                    (
                        (old(self)@.last().0 + dx) as i32,
                        (old(self)@.last().1 + dy) as i32,
                    ),
                )
            } else {
                r == Err::<(), TransformError>(TransformError::Underflow) && final(self)@ == old(
                    self,
                )@
            },
    {
        if offsets_len(&self.entries) > 0 {
            let top = offsets_pop(&mut self.entries);
            offsets_push(&mut self.entries, (top.0 + dx, top.1 + dy));
            proof {
                assert(final(self)@ =~= old(self)@.update(
                    old(self)@.len() - 1,
                    ((old(self)@.last().0 + dx) as i32, (old(self)@.last().1 + dy) as i32),
                ));
            }
            Ok(())
        } else {
            Err(TransformError::Underflow)
        }
    }

    /// The current cumulative translation: the sum of all entries.
    pub fn current_offset(&self) -> (r: (i64, i64))
        requires
            self.wf(),
        ensures
            (r.0 as int, r.1 as int) == sum_offsets(self@),
    {
        let n = offsets_len(&self.entries);
        let mut sx: i64 = 0;
        let mut sy: i64 = 0;
        let mut i: usize = 0;
        proof {
            assert(self@.take(0) =~= Seq::<(i32, i32)>::empty());
        }
        while i < n
            invariant
                self.wf(),
                n == self@.len(),
                i <= n,
                (sx as int, sy as int) == sum_offsets(self@.take(i as int)),
                -(i * 0x8000_0000) <= sx <= i * 0x8000_0000,
                -(i * 0x8000_0000) <= sy <= i * 0x8000_0000,
            decreases n - i,
        {
            let e = offsets_get(&self.entries, i);
            proof {
                assert(self@.take(i + 1).drop_last() =~= self@.take(i as int));
                assert(self@.take(i + 1).last() == self@[i as int]);
            }
            sx = sx + e.0 as i64;
            sy = sy + e.1 as i64;
            i = i + 1;
        }
        proof {
            assert(self@.take(n as int) =~= self@);
        }
        (sx, sy)
    }
}

/// Transform scoping law: opening a scope and folding a translation into
/// it shifts the cumulative offset by exactly that translation, and
/// closing the scope restores the stack — and with it the cumulative
/// offset — to what it was before the scope was opened.
pub proof fn lemma_transform_scoped(s: Seq<(i32, i32)>, dx: i32, dy: i32)
    ensures
        ({
            let inside = s.push((0i32, 0i32)).update(s.len() as int, (dx, dy));
            &&& sum_offsets(inside) == (sum_offsets(s).0 + dx, sum_offsets(s).1 + dy)
            &&& inside.drop_last() == s
        }),
{
    let inside = s.push((0i32, 0i32)).update(s.len() as int, (dx, dy));
    assert(inside =~= s.push((dx, dy)));
    lemma_sum_offsets_push(s, (dx, dy));
    assert(inside.drop_last() =~= s);
}

} // verus!
