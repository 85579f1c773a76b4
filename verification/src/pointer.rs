//! Pointer decisions: which areas the mouse enters and leaves, which areas a button press or
//! release lands on, and when a drag starts, moves and ends.
//!
//! The caller finds the areas under the pointer (front-most last) and reports positions and
//! times; this state machine decides what happened.

use vstd::prelude::*;
use crate::input::{MouseButton, MouseButtonMask};
use crate::text::str_eq;

verus! {

/// A decision of the pointer state machine, in the order it is reported.
#[derive(Clone, Copy, Debug, PartialEq, Eq)]
pub enum MouseAction {
    /// The mouse just entered this area.
    Enter { area: &'static str },
    /// The mouse just left this area.
    Leave { area: &'static str },
    /// A mouse button was just pressed down over this area.
    Press { area: &'static str, button: MouseButton },
    /// A mouse button was just released over this area.
    Release { area: &'static str, button: MouseButton },
    /// A drag that started over `start_area` ended, over `end_area` if the mouse is over any.
    Drag { start_area: &'static str, end_area: Option<&'static str> },
    /// A drag started over this area.
    DragStart { area: &'static str },
    /// The mouse moved while dragging what started over this area.
    DragMove { area: &'static str },
}

/// The names of a list of areas.
pub open spec fn area_names(areas: Seq<&'static str>) -> Seq<Seq<char>> {
    areas.map_values(|a: &'static str| a@)
}

/// The areas of `before` that `after` does not name, reported as left, followed by the areas of
/// `after` that `before` does not name, reported as entered, each list in its own order.
pub open spec fn hover_changes(before: Seq<&'static str>, after: Seq<&'static str>) -> Seq<
    MouseAction,
> {
    before.filter(|a: &'static str| !area_names(after).contains(a@)).map_values(
        |a: &'static str| MouseAction::Leave { area: a },
    ) + after.filter(|a: &'static str| !area_names(before).contains(a@)).map_values(
        |a: &'static str| MouseAction::Enter { area: a },
    )
}

/// One press for every hovered area, in hover order.
pub open spec fn press_actions(hovered: Seq<&'static str>, button: MouseButton) -> Seq<MouseAction> {
    hovered.map_values(|a: &'static str| MouseAction::Press { area: a, button })
}

/// One release for every hovered area, in hover order.
pub open spec fn release_actions(hovered: Seq<&'static str>, button: MouseButton) -> Seq<
    MouseAction,
> {
    hovered.map_values(|a: &'static str| MouseAction::Release { area: a, button })
}

/// Whether `areas` holds an area with the same name as `area`.
fn names_area(areas: &Vec<&'static str>, area: &'static str) -> (r: bool)
    ensures
        r == area_names(areas@).contains(area@),
{
    let mut i: usize = 0;
    while i < areas.len()
        invariant
            i <= areas@.len(),
            forall|j: int| 0 <= j < i ==> areas@[j]@ != area@,
        decreases areas@.len() - i,
    {
        if str_eq(areas[i], area) {
            assert(area_names(areas@)[i as int] == area@);
            return true;
        }
        i += 1;
    }
    proof {
        if area_names(areas@).contains(area@) {
            let k = choose|k: int| 0 <= k < area_names(areas@).len() && area_names(areas@)[k] == area@;
            assert(areas@[k]@ == area@);
        }
    }
    false
}

/// Append one action per area of `from` whose name `other` does not hold, `Leave` or `Enter`.
fn push_unmatched(
    actions: &mut Vec<MouseAction>,
    from: &Vec<&'static str>,
    other: &Vec<&'static str>,
    leaving: bool,
)
    ensures
        final(actions)@ == old(actions)@ + if leaving {
            from@.filter(|a: &'static str| !area_names(other@).contains(a@)).map_values(
                |a: &'static str| MouseAction::Leave { area: a },
            )
        } else {
            from@.filter(|a: &'static str| !area_names(other@).contains(a@)).map_values(
                |a: &'static str| MouseAction::Enter { area: a },
            )
        },
{
    let ghost start = actions@;
    let ghost pred = |a: &'static str| !area_names(other@).contains(a@);
    let ghost mk = |a: &'static str|
        if leaving {
            MouseAction::Leave { area: a }
        } else {
            MouseAction::Enter { area: a }
        };
    let mut i: usize = 0;
    while i < from.len()
        invariant
            i <= from@.len(),
            actions@ == start + from@.take(i as int).filter(pred).map_values(mk),
            pred == (|a: &'static str| !area_names(other@).contains(a@)),
            mk == (|a: &'static str|
                if leaving {
                    MouseAction::Leave { area: a }
                } else {
                    MouseAction::Enter { area: a }
                }),
        decreases from@.len() - i,
    {
        let area = from[i];
        proof {
            assert(from@.take(i + 1).drop_last() =~= from@.take(i as int));
            assert(from@.take(i + 1).last() == area);
        }
        if !names_area(other, area) {
            let action = if leaving {
                MouseAction::Leave { area }
            } else {
                MouseAction::Enter { area }
            };
            actions.push(action);
            proof {
                assert(from@.take(i + 1).filter(pred) == from@.take(i as int).filter(pred).push(
                    area,
                )) by {
                    reveal(Seq::filter);
                    assert(pred(area));
                    assert(from@.take(i + 1).drop_last() =~= from@.take(i as int));
                }
                assert(action == mk(area));
                assert(from@.take(i + 1).filter(pred).map_values(mk) =~= from@.take(
                    i as int,
                ).filter(pred).map_values(mk).push(mk(area)));
            }
        } else {
            proof {
                assert(from@.take(i + 1).filter(pred) == from@.take(i as int).filter(pred)) by {
                    reveal(Seq::filter);
                    assert(!pred(area));
                    assert(from@.take(i + 1).drop_last() =~= from@.take(i as int));
                }
            }
        }
        i += 1;
    }
    proof {
        assert(from@.take(from@.len() as int) =~= from@);
        if leaving {
            assert(from@.filter(pred).map_values(mk) =~= from@.filter(
                |a: &'static str| !area_names(other@).contains(a@),
            ).map_values(|a: &'static str| MouseAction::Leave { area: a }));
        } else {
            assert(from@.filter(pred).map_values(mk) =~= from@.filter(
                |a: &'static str| !area_names(other@).contains(a@),
            ).map_values(|a: &'static str| MouseAction::Enter { area: a }));
        }
    }
}

/// The areas left and entered when the hovered areas change from `before` to `after`.
pub fn compute_hover_changes(before: &Vec<&'static str>, after: &Vec<&'static str>) -> (actions:
    Vec<MouseAction>)
    ensures
        actions@ == hover_changes(before@, after@),
{
    let mut actions: Vec<MouseAction> = Vec::new();
    push_unmatched(&mut actions, before, after, true);
    push_unmatched(&mut actions, after, before, false);
    assert(actions@ =~= hover_changes(before@, after@));
    actions
}

/// One action per hovered area, a press or a release of `button`.
fn button_actions(hovered: &Vec<&'static str>, button: MouseButton, press: bool) -> (actions: Vec<
    MouseAction,
>)
    ensures
        actions@ == if press {
            press_actions(hovered@, button)
        } else {
            release_actions(hovered@, button)
        },
{
    let mut actions: Vec<MouseAction> = Vec::new();
    let mut i: usize = 0;
    while i < hovered.len()
        invariant
            i <= hovered@.len(),
            actions@.len() == i,
            forall|j: int|
                0 <= j < i ==> #[trigger] actions@[j] == if press {
                    MouseAction::Press { area: hovered@[j], button }
                } else {
                    MouseAction::Release { area: hovered@[j], button }
                },
        decreases hovered@.len() - i,
    {
        let area = hovered[i];
        if press {
            actions.push(MouseAction::Press { area, button });
        } else {
            actions.push(MouseAction::Release { area, button });
        }
        i += 1;
    }
    proof {
        if press {
            assert(actions@ =~= press_actions(hovered@, button));
        } else {
            assert(actions@ =~= release_actions(hovered@, button));
        }
    }
    actions
}

/// The pointer's decision state: the hovered areas (front-most last), the held buttons and the
/// drag in progress.
pub struct PointerState {
    hovered: Vec<&'static str>,
    buttons_down: MouseButtonMask,
    is_dragging: bool,
    drag_start_area: Option<&'static str>,
}

impl PointerState {
    /// The areas under the pointer, front-most last.
    pub closed spec fn spec_hovered(&self) -> Seq<&'static str> {
        self.hovered@
    }

    /// The held buttons.
    pub closed spec fn spec_buttons(&self) -> u8 {
        self.buttons_down.spec_bits()
    }

    /// Whether a drag is in progress.
    pub closed spec fn spec_dragging(&self) -> bool {
        self.is_dragging
    }

    /// The area the drag in progress started over.
    pub closed spec fn spec_drag_area(&self) -> Option<&'static str> {
        self.drag_start_area
    }

    /// A drag is in progress exactly when the area it started over is known.
    pub closed spec fn wf(&self) -> bool {
        self.is_dragging <==> self.drag_start_area is Some
    }

    /// A pointer over nothing, with no button held and no drag.
    pub fn new() -> (p: Self)
        ensures
            p.wf(),
            p.spec_hovered() == Seq::<&'static str>::empty(),
            p.spec_buttons() == 0,
            !p.spec_dragging(),
            p.spec_drag_area() is None,
    {
        Self {
            hovered: Vec::new(),
            buttons_down: MouseButtonMask::empty(),
            is_dragging: false,
            drag_start_area: None,
        }
    }

    /// The areas under the pointer, front-most last.
    pub fn hovered(&self) -> (h: &Vec<&'static str>)
        ensures
            h@ == self.spec_hovered(),
    {
        &self.hovered
    }

    /// The held buttons.
    pub fn buttons_down(&self) -> (m: MouseButtonMask)
        ensures
            m.spec_bits() == self.spec_buttons(),
    {
        self.buttons_down
    }

    /// Whether a drag is in progress.
    pub fn is_dragging(&self) -> (r: bool)
        ensures
            r == self.spec_dragging(),
    {
        self.is_dragging
    }

    /// The area the drag in progress started over.
    pub fn drag_start_area(&self) -> (a: Option<&'static str>)
        ensures
            a == self.spec_drag_area(),
    {
        self.drag_start_area
    }

    /// The pointer moved and now hovers `new_hovered` (front-most last).
    ///
    /// Reports the areas left and entered; then, while the left button is held over some area, a
    /// drag starts over the front-most hovered area if none is in progress, and the drag in
    /// progress moves.
    pub fn handle_mouse_move(&mut self, new_hovered: Vec<&'static str>) -> (actions: Vec<MouseAction>)
        requires
            old(self).wf(),
        ensures
            final(self).wf(),
            move_step(*old(self), new_hovered@, *final(self), actions@),
    {
        let mut actions = compute_hover_changes(&self.hovered, &new_hovered);
        self.hovered = new_hovered;
        let ghost changes = actions@;
        let n = self.hovered.len();
        if n > 0 && self.buttons_down.left() {
            let top = self.hovered[n - 1];
            if !self.is_dragging {
                self.is_dragging = true;
                self.drag_start_area = Some(top);
                actions.push(MouseAction::DragStart { area: top });
            }
            if let Some(start_area) = self.drag_start_area {
                actions.push(MouseAction::DragMove { area: start_area });
            }
            assert(top == new_hovered@.last());
        }
        proof {
            if new_hovered@.len() > 0 && old(self).spec_buttons() & 1 == 1 {
                let top = new_hovered@.last();
                if !old(self).spec_dragging() {
                    assert(actions@ =~= changes + seq![
                        MouseAction::DragStart { area: top },
                        MouseAction::DragMove { area: top },
                    ]);
                } else {
                    assert(actions@ =~= changes + seq![
                        MouseAction::DragMove { area: old(self).spec_drag_area()->0 },
                    ]);
                }
            }
        }
        actions
    }

    /// A mouse button went down: it is held from now on, and each hovered area gets a press.
    pub fn handle_mouse_down(&mut self, button: MouseButton) -> (actions: Vec<MouseAction>)
        requires
            old(self).wf(),
        ensures
            final(self).wf(),
            final(self).spec_hovered() == old(self).spec_hovered(),
            final(self).spec_dragging() == old(self).spec_dragging(),
            final(self).spec_drag_area() == old(self).spec_drag_area(),
            final(self).spec_buttons() == old(self).spec_buttons() | button_bit(button),
            actions@ == press_actions(old(self).spec_hovered(), button),
    {
        match button {
            MouseButton::Left => self.buttons_down.insert(MouseButtonMask::from_bits_retain(
                MouseButtonMask::LEFT,
            )),
            MouseButton::Right => self.buttons_down.insert(MouseButtonMask::from_bits_retain(
                MouseButtonMask::RIGHT,
            )),
            MouseButton::Middle => self.buttons_down.insert(MouseButtonMask::from_bits_retain(
                MouseButtonMask::MIDDLE,
            )),
            _ => {
                let ghost b = self.buttons_down.spec_bits();
                assert(b | 0 == b) by (bit_vector);
            },
        }
        button_actions(&self.hovered, button, true)
    }

    /// A mouse button came up: each hovered area gets a release; releasing the left button ends
    /// the drag in progress, reported as a drag from the area it started over to the front-most
    /// hovered area; the button is no longer held.
    pub fn handle_mouse_up(&mut self, button: MouseButton) -> (actions: Vec<MouseAction>)
        requires
            old(self).wf(),
        ensures
            final(self).wf(),
            final(self).spec_hovered() == old(self).spec_hovered(),
            final(self).spec_buttons() == old(self).spec_buttons() & !button_bit(button),
            actions@ == release_actions(old(self).spec_hovered(), button) + drag_end_actions(
                *old(self),
                button,
            ),
            button is Left ==> !final(self).spec_dragging(),
            (button is Left && old(self).spec_dragging()) ==> final(self).spec_drag_area() is None,
            !(button is Left && old(self).spec_dragging()) ==> (final(self).spec_dragging()
                == old(self).spec_dragging() && final(self).spec_drag_area()
                == old(self).spec_drag_area()),
    {
        let mut actions = button_actions(&self.hovered, button, false);
        let ghost releases = actions@;
        match button {
            MouseButton::Left => {
                if self.is_dragging {
                    self.is_dragging = false;
                    if let Some(start_area) = self.drag_start_area.take() {
                        let n = self.hovered.len();
                        let end_area = if n > 0 {
                            Some(self.hovered[n - 1])
                        } else {
                            None
                        };
                        actions.push(MouseAction::Drag { start_area, end_area });
                    }
                }
                self.buttons_down.remove(MouseButtonMask::from_bits_retain(MouseButtonMask::LEFT));
            },
            MouseButton::Right => self.buttons_down.remove(MouseButtonMask::from_bits_retain(
                MouseButtonMask::RIGHT,
            )),
            MouseButton::Middle => self.buttons_down.remove(MouseButtonMask::from_bits_retain(
                MouseButtonMask::MIDDLE,
            )),
            _ => {
                let ghost b = self.buttons_down.spec_bits();
                assert(b & !0u8 == b) by (bit_vector);
            },
        }
        assert(actions@ =~= releases + drag_end_actions(*old(self), button));
        actions
    }

    /// The areas were rebuilt and the pointer now hovers `new_hovered`: reports the areas left and
    /// entered.
    pub fn update_areas(&mut self, new_hovered: Vec<&'static str>) -> (actions: Vec<MouseAction>)
        requires
            old(self).wf(),
        ensures
            final(self).wf(),
            actions@ == hover_changes(old(self).spec_hovered(), new_hovered@),
            final(self).spec_hovered() == new_hovered@,
            final(self).spec_buttons() == old(self).spec_buttons(),
            final(self).spec_dragging() == old(self).spec_dragging(),
            final(self).spec_drag_area() == old(self).spec_drag_area(),
    {
        let actions = compute_hover_changes(&self.hovered, &new_hovered);
        self.hovered = new_hovered;
        actions
    }
}

/// The bit a button occupies in the set of held buttons (none for the buttons it does not track).
pub open spec fn button_bit(button: MouseButton) -> u8 {
    match button {
        MouseButton::Left => MouseButtonMask::LEFT,
        MouseButton::Right => MouseButtonMask::RIGHT,
        MouseButton::Middle => MouseButtonMask::MIDDLE,
        _ => 0,
    }
}

/// The drag reported when `button` comes up: releasing the left button during a drag reports
/// the drag, from the area it started over to the front-most hovered area.
pub open spec fn drag_end_actions(before: PointerState, button: MouseButton) -> Seq<MouseAction> {
    if button is Left && before.spec_dragging() {
        let hovered = before.spec_hovered();
        seq![
            MouseAction::Drag {
                start_area: before.spec_drag_area()->0,
                end_area: if hovered.len() > 0 {
                    Some(hovered.last())
                } else {
                    None
                },
            },
        ]
    } else {
        Seq::empty()
    }
}

/// What a pointer move does: the hover changes are reported and the hovered areas replaced;
/// while the left button is held over some area, a drag starts over the front-most area when none
/// is in progress, and the drag in progress then moves.
pub open spec fn move_step(
    before: PointerState,
    new_hovered: Seq<&'static str>,
    after: PointerState,
    actions: Seq<MouseAction>,
) -> bool {
    let changes = hover_changes(before.spec_hovered(), new_hovered);
    let left_held = before.spec_buttons() & 1 == 1;
    &&& after.spec_hovered() == new_hovered
    &&& after.spec_buttons() == before.spec_buttons()
    &&& if new_hovered.len() > 0 && left_held {
        let top = new_hovered.last();
        if !before.spec_dragging() {
            &&& after.spec_dragging()
            &&& after.spec_drag_area() == Some(top)
            &&& actions == changes + seq![
                MouseAction::DragStart { area: top },
                MouseAction::DragMove { area: top },
            ]
        } else {
            &&& after.spec_dragging()
            &&& after.spec_drag_area() == before.spec_drag_area()
            &&& actions == changes + seq![MouseAction::DragMove { area: before.spec_drag_area()->0 }]
        }
    } else {
        &&& after.spec_dragging() == before.spec_dragging()
        &&& after.spec_drag_area() == before.spec_drag_area()
        &&& actions == changes
    }
}

/// When the hovered areas do not change, no area is entered or left.
pub proof fn lemma_same_hover_is_quiet(hovered: Seq<&'static str>)
    ensures
        hover_changes(hovered, hovered) == Seq::<MouseAction>::empty(),
{
    let pred = |a: &'static str| !area_names(hovered).contains(a@);
    assert forall|i: int| 0 <= i < hovered.len() implies !pred(#[trigger] hovered[i]) by {
        assert(area_names(hovered)[i] == hovered[i]@);
    }
    assert(hovered.all(|x: &'static str| !pred(x)));
    hovered.lemma_all_neg_filter_empty(pred);
    assert(hover_changes(hovered, hovered) =~= Seq::<MouseAction>::empty());
}

/// Moving back undoes a move: the areas reported entered on the way there are those reported
/// left on the way back, and the other way round.
pub proof fn lemma_hover_changes_reverse(before: Seq<&'static str>, after: Seq<&'static str>)
    ensures
        hover_changes(before, after).filter(|m: MouseAction| m is Leave).map_values(
            |m: MouseAction| m->Leave_area,
        ) == hover_changes(after, before).filter(|m: MouseAction| m is Enter).map_values(
            |m: MouseAction| m->Enter_area,
        ),
        hover_changes(before, after).filter(|m: MouseAction| m is Enter).map_values(
            |m: MouseAction| m->Enter_area,
        ) == hover_changes(after, before).filter(|m: MouseAction| m is Leave).map_values(
            |m: MouseAction| m->Leave_area,
        ),
{
    lemma_changes_split(before, after);
    lemma_changes_split(after, before);
}

/// The areas named by the leave and enter actions of a hover change.
proof fn lemma_changes_split(before: Seq<&'static str>, after: Seq<&'static str>)
    ensures
        hover_changes(before, after).filter(|m: MouseAction| m is Leave).map_values(
            |m: MouseAction| m->Leave_area,
        ) == before.filter(|a: &'static str| !area_names(after).contains(a@)),
        hover_changes(before, after).filter(|m: MouseAction| m is Enter).map_values(
            |m: MouseAction| m->Enter_area,
        ) == after.filter(|a: &'static str| !area_names(before).contains(a@)),
{
    let left = before.filter(|a: &'static str| !area_names(after).contains(a@));
    let entered = after.filter(|a: &'static str| !area_names(before).contains(a@));
    let leaves = left.map_values(|a: &'static str| MouseAction::Leave { area: a });
    let enters = entered.map_values(|a: &'static str| MouseAction::Enter { area: a });
    let is_leave = |m: MouseAction| m is Leave;
    let is_enter = |m: MouseAction| m is Enter;
    assert(hover_changes(before, after) == leaves + enters);
    Seq::filter_distributes_over_add(leaves, enters, is_leave);
    Seq::filter_distributes_over_add(leaves, enters, is_enter);
    lemma_filter_all(leaves, is_leave);
    lemma_filter_none(enters, is_leave);
    lemma_filter_all(enters, is_enter);
    lemma_filter_none(leaves, is_enter);
    assert(leaves.map_values(|m: MouseAction| m->Leave_area) =~= left);
    assert(enters.map_values(|m: MouseAction| m->Enter_area) =~= entered);
    assert(leaves + Seq::<MouseAction>::empty() =~= leaves);
    assert(Seq::<MouseAction>::empty() + enters =~= enters);
}

proof fn lemma_filter_all(s: Seq<MouseAction>, p: spec_fn(MouseAction) -> bool)
    requires
        forall|i: int| 0 <= i < s.len() ==> p(#[trigger] s[i]),
    ensures
        s.filter(p) == s,
    decreases s.len(),
{
    reveal(Seq::filter);
    if s.len() > 0 {
        lemma_filter_all(s.drop_last(), p);
        assert(s.drop_last().push(s.last()) =~= s);
    } else {
        assert(s.filter(p) =~= s);
    }
}

proof fn lemma_filter_none(s: Seq<MouseAction>, p: spec_fn(MouseAction) -> bool)
    requires
        forall|i: int| 0 <= i < s.len() ==> !p(#[trigger] s[i]),
    ensures
        s.filter(p) == Seq::<MouseAction>::empty(),
{
    assert(s.all(|x: MouseAction| !p(x)));
    s.lemma_all_neg_filter_empty(p);
    assert(s.filter(p) =~= Seq::<MouseAction>::empty());
}

/// A drag started by a move with the left button held, over some area, is reported when the left
/// button comes up: one drag from the area it started over to the front-most hovered area.
pub proof fn lemma_drag_started_then_reported(
    before: PointerState,
    new_hovered: Seq<&'static str>,
    after: PointerState,
    actions: Seq<MouseAction>,
)
    requires
        move_step(before, new_hovered, after, actions),
        new_hovered.len() > 0,
        before.spec_buttons() & 1 == 1,
        !before.spec_dragging(),
    ensures
        after.spec_dragging(),
        drag_end_actions(after, MouseButton::Left) == seq![
            MouseAction::Drag {
                start_area: new_hovered.last(),
                end_area: Some(new_hovered.last()),
            },
        ],
{
}

/// Pressing a tracked button that was not held and releasing it leaves the held buttons as they
/// were.
pub proof fn lemma_press_release_buttons(buttons: u8, button: MouseButton)
    requires
        buttons & button_bit(button) == 0,
    ensures
        (buttons | button_bit(button)) & !button_bit(button) == buttons,
{
    let b = button_bit(button);
    assert(b == 1 || b == 2 || b == 4 || b == 0);
    assert(forall|x: u8, y: u8| x & y == 0 ==> (x | y) & !y == x) by (bit_vector);
}

} // verus!
