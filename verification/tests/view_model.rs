use bog::view_model::{mouse_move_step, HoverState, ViewCallback};

fn idle() -> HoverState {
    HoverState { hovered: None, dragging: false, drag_armed: false, drag_node: None }
}

#[test]
fn view_model_move_enters_and_leaves() {
    let first = mouse_move_step(idle(), Some(3), false);
    assert_eq!(first.callbacks, vec![ViewCallback::Enter(3)]);
    assert!(first.redraw);
    assert_eq!(first.state.hovered, Some(3));
    let second = mouse_move_step(first.state, Some(5), false);
    assert_eq!(second.callbacks, vec![ViewCallback::Leave(3), ViewCallback::Enter(5)]);
    let out = mouse_move_step(second.state, None, false);
    assert_eq!(out.callbacks, vec![ViewCallback::Leave(5)]);
    assert_eq!(out.state.hovered, None);
    let still = mouse_move_step(out.state, None, true);
    assert!(still.callbacks.is_empty());
    assert!(!still.redraw);
}

#[test]
fn view_model_drag_starts_after_the_delay() {
    let armed = HoverState { hovered: Some(2), dragging: false, drag_armed: true, drag_node: Some(2) };
    let early = mouse_move_step(armed, Some(2), false);
    assert!(early.callbacks.is_empty());
    assert!(early.redraw);
    assert!(!early.state.dragging);
    let started = mouse_move_step(early.state, Some(4), true);
    assert_eq!(
        started.callbacks,
        vec![
            ViewCallback::DragStart(2),
            ViewCallback::DragMove(2),
            ViewCallback::Leave(2),
            ViewCallback::Enter(4),
        ]
    );
    assert!(started.state.dragging);
    let moved = mouse_move_step(started.state, Some(4), false);
    assert_eq!(moved.callbacks, vec![ViewCallback::DragMove(2)]);
}
