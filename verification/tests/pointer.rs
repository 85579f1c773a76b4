use bog::input::MouseButton;
use bog::pointer::{compute_hover_changes, MouseAction, PointerState};

#[test]
fn hover_changes_report_left_then_entered() {
    let before = vec!["root", "left", "top"];
    let after = vec!["root", "right"];
    let changes = compute_hover_changes(&before, &after);
    assert_eq!(
        changes,
        vec![
            MouseAction::Leave { area: "left" },
            MouseAction::Leave { area: "top" },
            MouseAction::Enter { area: "right" },
        ]
    );
    assert!(compute_hover_changes(&after, &after).is_empty());
    let back = compute_hover_changes(&after, &before);
    assert_eq!(
        back,
        vec![
            MouseAction::Leave { area: "right" },
            MouseAction::Enter { area: "left" },
            MouseAction::Enter { area: "top" },
        ]
    );
}

#[test]
fn pointer_press_and_release_each_hovered_area() {
    let mut p = PointerState::new();
    let entered = p.handle_mouse_move(vec!["root", "button"]);
    assert_eq!(
        entered,
        vec![MouseAction::Enter { area: "root" }, MouseAction::Enter { area: "button" }]
    );
    let down = p.handle_mouse_down(MouseButton::Right);
    assert_eq!(
        down,
        vec![
            MouseAction::Press { area: "root", button: MouseButton::Right },
            MouseAction::Press { area: "button", button: MouseButton::Right },
        ]
    );
    assert!(p.buttons_down().right());
    let up = p.handle_mouse_up(MouseButton::Right);
    assert_eq!(
        up,
        vec![
            MouseAction::Release { area: "root", button: MouseButton::Right },
            MouseAction::Release { area: "button", button: MouseButton::Right },
        ]
    );
    assert_eq!(p.buttons_down().bits(), 0);
}

#[test]
fn pointer_drag_starts_moves_and_ends() {
    let mut p = PointerState::new();
    let _ = p.handle_mouse_move(vec!["root", "handle"]);
    let _ = p.handle_mouse_down(MouseButton::Left);
    assert!(!p.is_dragging());
    let moved = p.handle_mouse_move(vec!["root", "handle"]);
    assert_eq!(
        moved,
        vec![MouseAction::DragStart { area: "handle" }, MouseAction::DragMove { area: "handle" }]
    );
    assert!(p.is_dragging());
    assert_eq!(p.drag_start_area(), Some("handle"));
    let moved = p.handle_mouse_move(vec!["root", "target"]);
    assert_eq!(
        moved,
        vec![
            MouseAction::Leave { area: "handle" },
            MouseAction::Enter { area: "target" },
            MouseAction::DragMove { area: "handle" },
        ]
    );
    let up = p.handle_mouse_up(MouseButton::Left);
    assert_eq!(
        up,
        vec![
            MouseAction::Release { area: "root", button: MouseButton::Left },
            MouseAction::Release { area: "target", button: MouseButton::Left },
            MouseAction::Drag { start_area: "handle", end_area: Some("target") },
        ]
    );
    assert!(!p.is_dragging());
    assert_eq!(p.drag_start_area(), None);
}

#[test]
fn pointer_untracked_button_changes_nothing_held() {
    let mut p = PointerState::new();
    let _ = p.handle_mouse_move(vec!["root"]);
    let down = p.handle_mouse_down(MouseButton::Other(9));
    assert_eq!(down, vec![MouseAction::Press { area: "root", button: MouseButton::Other(9) }]);
    assert_eq!(p.buttons_down().bits(), 0);
    let changes = p.update_areas(vec![]);
    assert_eq!(changes, vec![MouseAction::Leave { area: "root" }]);
    assert!(p.hovered().is_empty());
}
