//! Layer ordering for clipped drawing.
//!
//! Drawing happens on a stack of layers: starting a clip opens the next layer (reusing one from
//! an earlier frame when there is one) and ending it returns to the layer that was current before.
//! The layers themselves, with their bounds and contents, are kept by the caller in a list that
//! this order indexes.

use vstd::prelude::*;

verus! {

/// Which layers are in use, which one is being drawn to, and which ones to return to.
pub struct LayerOrder {
    layer_count: usize,
    previous: Vec<usize>,
    current: usize,
    active_count: usize,
}

/// What the caller does to its list of layers when a clip starts.
#[derive(Clone, Copy, Debug, PartialEq, Eq, Structural)]
pub enum ClipSlot {
    /// Append a new layer with the clip's bounds; it is the new current layer.
    Push,
    /// Give the existing layer at this index the clip's bounds; it is the new current layer.
    Reuse(usize),
}

impl LayerOrder {
    /// The number of layers the caller holds.
    pub closed spec fn spec_layer_count(&self) -> nat {
        self.layer_count as nat
    }

    /// The layers to return to, the most recent last.
    pub closed spec fn spec_previous(&self) -> Seq<usize> {
        self.previous@
    }

    /// The layer being drawn to.
    pub closed spec fn spec_current(&self) -> nat {
        self.current as nat
    }

    /// The number of layers in use this frame (a prefix of the caller's list).
    pub closed spec fn spec_active_count(&self) -> nat {
        self.active_count as nat
    }

    /// The layers in use form a prefix of the caller's list, the current layer and every layer
    /// to return to are among them.
    pub closed spec fn wf(&self) -> bool {
        &&& 1 <= self.active_count <= self.layer_count
        &&& self.current < self.active_count
        &&& forall|i: int| 0 <= i < self.previous@.len() ==> #[trigger] self.previous@[i] < self.active_count
    }

    /// One layer in use, the first, and nothing to return to.
    pub fn new() -> (o: Self)
        ensures
            o.wf(),
            o.spec_layer_count() == 1,
            o.spec_current() == 0,
            o.spec_active_count() == 1,
            o.spec_previous() == Seq::<usize>::empty(),
    {
        Self { layer_count: 1, previous: Vec::new(), current: 0, active_count: 1 }
    }

    /// The index of the layer being drawn to.
    pub fn current(&self) -> (i: usize)
        requires
            self.wf(),
        ensures
            i == self.spec_current(),
            i < self.spec_active_count(),
            i < self.spec_layer_count(),
    {
        self.current
    }

    /// The number of layers in use this frame.
    pub fn active_count(&self) -> (n: usize)
        requires
            self.wf(),
        ensures
            n == self.spec_active_count(),
            1 <= n <= self.spec_layer_count(),
    {
        self.active_count
    }

    /// The number of clips started and not yet ended.
    pub fn clip_depth(&self) -> (n: usize)
        ensures
            n == self.spec_previous().len(),
    {
        self.previous.len()
    }

    /// Start a clip: the current layer is remembered, and the next unused layer becomes current,
    /// appended when the caller holds no unused layer.
    pub fn push_clip(&mut self) -> (slot: ClipSlot)
        requires
            old(self).wf(),
            old(self).spec_layer_count() < usize::MAX,
        ensures
            final(self).wf(),
            final(self).spec_previous() == old(self).spec_previous().push(
                old(self).spec_current() as usize,
            ),
            final(self).spec_current() == old(self).spec_active_count(),
            final(self).spec_active_count() == old(self).spec_active_count() + 1,
            slot == (if old(self).spec_active_count() == old(self).spec_layer_count() {
                ClipSlot::Push
            } else {
                ClipSlot::Reuse(old(self).spec_active_count() as usize)
            }),
            final(self).spec_layer_count() == if slot is Push {
                old(self).spec_layer_count() + 1
            } else {
                old(self).spec_layer_count()
            },
    {
        self.previous.push(self.current);
        self.current = self.active_count;
        self.active_count = self.active_count + 1;
        if self.current == self.layer_count {
            self.layer_count = self.layer_count + 1;
            ClipSlot::Push
        } else {
            ClipSlot::Reuse(self.current)
        }
    }

    /// End the clip: the layer that was current when it started is current again.
    pub fn pop_clip(&mut self)
        requires
            old(self).wf(),
            old(self).spec_previous().len() > 0,
        ensures
            final(self).wf(),
            final(self).spec_current() == old(self).spec_previous().last(),
            final(self).spec_previous() == old(self).spec_previous().drop_last(),
            final(self).spec_active_count() == old(self).spec_active_count(),
            final(self).spec_layer_count() == old(self).spec_layer_count(),
    {
        let last = self.previous.pop();
        match last {
            Some(i) => {
                self.current = i;
            },
            None => {},
        }
        assert(self.previous@ =~= old(self).spec_previous().drop_last());
    }

    /// Start a new frame: only the first layer is in use, and it is current.
    pub fn clear(&mut self)
        requires
            old(self).wf(),
        ensures
            final(self).wf(),
            final(self).spec_current() == 0,
            final(self).spec_active_count() == 1,
            final(self).spec_previous() == Seq::<usize>::empty(),
            final(self).spec_layer_count() == old(self).spec_layer_count(),
    {
        self.current = 0;
        self.active_count = 1;
        self.previous.clear();
    }
}

/// Ending a clip returns to the layer that was current when it started, with the same layers to
/// return to, while the layer the clip used stays in use for the frame.
pub proof fn lemma_pop_undoes_push(before: LayerOrder, pushed: LayerOrder, popped: LayerOrder)
    requires
        before.wf(),
        pushed.spec_previous() == before.spec_previous().push(before.spec_current() as usize),
        pushed.spec_current() == before.spec_active_count(),
        pushed.spec_active_count() == before.spec_active_count() + 1,
        popped.spec_current() == pushed.spec_previous().last(),
        popped.spec_previous() == pushed.spec_previous().drop_last(),
        popped.spec_active_count() == pushed.spec_active_count(),
    ensures
        popped.spec_current() == before.spec_current(),
        popped.spec_previous() == before.spec_previous(),
        popped.spec_active_count() == before.spec_active_count() + 1,
{
    assert(pushed.spec_previous().drop_last() =~= before.spec_previous());
}

} // verus!
