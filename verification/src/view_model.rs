//! The hover and drag decisions of a view model when the pointer moves.
//!
//! Finding the nodes under the pointer compares floating-point rectangles, and telling whether a
//! press has lasted long enough to become a drag reads the clock; both are done by the caller,
//! which hands over the front-most hovered node and whether the drag delay has passed, fires the
//! callbacks returned, in order, on the nodes that have an object, and redraws when asked.

use vstd::prelude::*;

verus! {

/// The hover and drag state of a view model.
#[derive(Clone, Copy, Debug, PartialEq, Eq)]
pub struct HoverState {
    /// The node the pointer was last over.
    pub hovered: Option<u64>,
    /// Whether a drag is in progress.
    pub dragging: bool,
    /// Whether a press over a node has started a possible drag.
    pub drag_armed: bool,
    /// The node the press started over.
    pub drag_node: Option<u64>,
}

/// A callback to fire on a node.
#[derive(Clone, Copy, Debug, PartialEq, Eq)]
pub enum ViewCallback {
    DragStart(u64),
    DragMove(u64),
    Leave(u64),
    Enter(u64),
}

/// What a pointer move decides: the next state, the callbacks to fire in order, and whether to
/// redraw.
#[derive(Debug)]
pub struct MoveOutcome {
    pub state: HoverState,
    pub callbacks: Vec<ViewCallback>,
    pub redraw: bool,
}

/// The drag part of a move: with a press armed over a node, a drag starts once the delay has
/// passed, and a drag in progress moves.
pub open spec fn drag_callbacks(s: HoverState, delay_passed: bool) -> Seq<ViewCallback> {
    if s.drag_armed && s.drag_node is Some {
        let node = s.drag_node->0;
        if s.dragging {
            seq![ViewCallback::DragMove(node)]
        } else if delay_passed {
            seq![ViewCallback::DragStart(node), ViewCallback::DragMove(node)]
        } else {
            Seq::empty()
        }
    } else {
        Seq::empty()
    }
}

/// The hover part of a move: when the front-most node changes, the old one is left and the new
/// one entered.
pub open spec fn hover_callbacks(s: HoverState, topmost: Option<u64>) -> Seq<ViewCallback> {
    if s.hovered != topmost {
        let leave = match s.hovered {
            Some(n) => seq![ViewCallback::Leave(n)],
            None => Seq::empty(),
        };
        let enter = match topmost {
            Some(n) => seq![ViewCallback::Enter(n)],
            None => Seq::empty(),
        };
        leave + enter
    } else {
        Seq::empty()
    }
}

/// The pointer moved to a new position, over `topmost` (the front-most node under it, if any);
/// `delay_passed` tells whether the press that armed a drag is old enough to start one.
///
/// The drag callbacks come first (see `drag_callbacks`); then, when the front-most node
/// changed, the leave and enter callbacks, and the new node is remembered. A redraw is asked when
/// a press is armed over a node or the hovered node changed.
pub fn mouse_move_step(state: HoverState, topmost: Option<u64>, delay_passed: bool) -> (r:
    MoveOutcome)
    ensures
        r.callbacks@ == drag_callbacks(state, delay_passed) + hover_callbacks(state, topmost),
        r.state == (HoverState {
            hovered: topmost,
            dragging: state.dragging || (state.drag_armed && state.drag_node is Some
                && delay_passed),
            ..state
        }),
        r.redraw == ((state.drag_armed && state.drag_node is Some) || state.hovered != topmost),
{
    let mut callbacks: Vec<ViewCallback> = Vec::new();
    let mut next = state;
    let mut redraw = false;
    if state.drag_armed {
        if let Some(node) = state.drag_node {
            if !next.dragging && delay_passed {
                next.dragging = true;
                callbacks.push(ViewCallback::DragStart(node));
            }
            if next.dragging {
                callbacks.push(ViewCallback::DragMove(node));
            }
            redraw = true;
        }
    }
    let ghost drags = callbacks@;
    if state.hovered != topmost {
        if let Some(left) = state.hovered {
            callbacks.push(ViewCallback::Leave(left));
        }
        if let Some(entered) = topmost {
            callbacks.push(ViewCallback::Enter(entered));
        }
        next.hovered = topmost;
        redraw = true;
    }
    proof {
        assert(drags =~= drag_callbacks(state, delay_passed));
        assert(callbacks@ =~= drag_callbacks(state, delay_passed) + hover_callbacks(
            state,
            topmost,
        ));
    }
    MoveOutcome { state: next, callbacks, redraw }
}

/// Moving over the same front-most node with no press armed decides nothing: no callback, no
/// redraw, the same state.
pub proof fn lemma_still_pointer_is_quiet(state: HoverState, delay_passed: bool)
    requires
        !(state.drag_armed && state.drag_node is Some),
    ensures
        drag_callbacks(state, delay_passed) + hover_callbacks(state, state.hovered) == Seq::<
            ViewCallback,
        >::empty(),
{
    assert(drag_callbacks(state, delay_passed) + hover_callbacks(state, state.hovered) =~= Seq::<
        ViewCallback,
    >::empty());
}

/// When the front-most node changes, the callbacks of a move end by leaving the old node (when
/// there was one) and then entering the new one (when there is one), whatever the drag is doing;
/// when it does not change, no node is left or entered. With a press armed over a node, the
/// callbacks begin with that node's drag start (once the delay has passed, if no drag was in
/// progress) and drag move (when a drag is, or just got, in progress); without one, no drag
/// callback is fired.
pub proof fn lemma_move_callbacks(state: HoverState, topmost: Option<u64>, delay_passed: bool)
    ensures
        ({
            let cbs = drag_callbacks(state, delay_passed) + hover_callbacks(state, topmost);
            let n = cbs.len();
            &&& (state.hovered != topmost && state.hovered is Some && topmost is Some) ==> {
                &&& n >= 2
                &&& cbs[n - 2] == ViewCallback::Leave(state.hovered->0)
                &&& cbs[n - 1] == ViewCallback::Enter(topmost->0)
            }
            &&& (state.hovered != topmost && state.hovered is Some && topmost is None) ==> {
                &&& n >= 1
                &&& cbs[n - 1] == ViewCallback::Leave(state.hovered->0)
            }
            &&& (state.hovered != topmost && state.hovered is None && topmost is Some) ==> {
                &&& n >= 1
                &&& cbs[n - 1] == ViewCallback::Enter(topmost->0)
            }
            &&& forall|k: int|
                0 <= k < n ==> (#[trigger] cbs[k] is Leave || cbs[k] is Enter) ==> state.hovered
                    != topmost
            &&& forall|k: int|
                0 <= k < n ==> (#[trigger] cbs[k] is DragStart || cbs[k] is DragMove) ==> (
                state.drag_armed && state.drag_node is Some)
            &&& (state.drag_armed && state.drag_node is Some && state.dragging) ==> {
                &&& n >= 1
                &&& cbs[0] == ViewCallback::DragMove(state.drag_node->0)
                &&& forall|k: int| 1 <= k < n ==> !(#[trigger] cbs[k] is DragStart)
            }
            &&& (state.drag_armed && state.drag_node is Some && !state.dragging && delay_passed)
                ==> {
                &&& n >= 2
                &&& cbs[0] == ViewCallback::DragStart(state.drag_node->0)
                &&& cbs[1] == ViewCallback::DragMove(state.drag_node->0)
            }
            &&& (state.drag_armed && state.drag_node is Some && !state.dragging && !delay_passed)
                ==> forall|k: int|
                0 <= k < n ==> !(#[trigger] cbs[k] is DragStart || cbs[k] is DragMove)
            &&& n <= 4
        }),
{
}

} // verus!
