use vstd::prelude::*;
use vstd::string::StringExecFns;
use crate::input::{ButtonState, Key, MouseButton, frame_advanced, is_down_state, key_display_name, same_key};
use crate::text::{decimal_text, push_decimal};

verus! {

/// The kind of a button action.
#[derive(Debug, Clone, Copy, PartialEq, Eq, Structural)]
pub enum ActionKind {
    Press,
    Release,
    Click,
    Hold,
}

/// A button action, named after its key or mouse button.
#[derive(Debug, Clone)]
pub enum ButtonAction {
    /// A key or button went down this frame (discrete).
    ButtonPress { key_or_button: String },
    /// A key or button went up this frame (discrete).
    ButtonRelease { key_or_button: String },
    /// A key or button went down and up within one frame (discrete).
    ButtonClick { key_or_button: String },
    /// A key or button is being held down (continuous).
    ButtonHold { key_or_button: String },
}

/// A button action as (kind, name).
pub type ActionView = (ActionKind, Seq<char>);

/// The (kind, name) view of an action.
pub open spec fn action_view(a: ButtonAction) -> ActionView {
    match a {
        ButtonAction::ButtonPress { key_or_button } => (ActionKind::Press, key_or_button@),
        ButtonAction::ButtonRelease { key_or_button } => (ActionKind::Release, key_or_button@),
        ButtonAction::ButtonClick { key_or_button } => (ActionKind::Click, key_or_button@),
        ButtonAction::ButtonHold { key_or_button } => (ActionKind::Hold, key_or_button@),
    }
}

/// The views of a list of actions.
pub open spec fn actions_view(list: Seq<ButtonAction>) -> Seq<ActionView> {
    list.map_values(|a: ButtonAction| action_view(a))
}

/// An action of kind `kind` named `name`.
fn make_action(kind: ActionKind, name: String) -> (a: ButtonAction)
    ensures
        action_view(a) == (kind, name@),
{
    match kind {
        ActionKind::Press => ButtonAction::ButtonPress { key_or_button: name },
        ActionKind::Release => ButtonAction::ButtonRelease { key_or_button: name },
        ActionKind::Click => ButtonAction::ButtonClick { key_or_button: name },
        ActionKind::Hold => ButtonAction::ButtonHold { key_or_button: name },
    }
}

/// The name a mouse button gets in actions: `Mouse` followed by the button's
/// debug form.
pub open spec fn mouse_action_name(button: MouseButton) -> Seq<char> {
    "Mouse"@ + match button {
        MouseButton::Left => "Left"@,
        MouseButton::Right => "Right"@,
        MouseButton::Middle => "Middle"@,
        MouseButton::Other(code) => "Other("@ + decimal_text(code as nat) + ")"@,
    }
}

/// The name a mouse button gets in actions.
fn mouse_name(button: MouseButton) -> (s: String)
    ensures
        s@ == mouse_action_name(button),
{
    let mut s = String::from_str("Mouse");
    match button {
        MouseButton::Left => s.append("Left"),
        MouseButton::Right => s.append("Right"),
        MouseButton::Middle => s.append("Middle"),
        MouseButton::Other(code) => {
            s.append("Other(");
            push_decimal(&mut s, code as u64);
            s.append(")");
        },
    }
    proof {
        assert(s@ =~= mouse_action_name(button));
    }
    s
}

/// The recorded state of `key`: that of the first entry for the same key.
pub open spec fn key_lookup(list: Seq<(Key, ButtonState)>, key: Key) -> Option<ButtonState>
    decreases list.len(),
{
    if list.len() == 0 {
        None
    } else if same_key(list[0].0, key) {
        Some(list[0].1)
    } else {
        key_lookup(list.drop_first(), key)
    }
}

/// The recorded state of `button`: that of its first entry.
pub open spec fn mouse_lookup(list: Seq<(MouseButton, ButtonState)>, button: MouseButton) -> Option<
    ButtonState,
>
    decreases list.len(),
{
    if list.len() == 0 {
        None
    } else if list[0].0 == button {
        Some(list[0].1)
    } else {
        mouse_lookup(list.drop_first(), button)
    }
}

/// A recorded state, or released when nothing is recorded.
pub open spec fn state_or_released(state: Option<ButtonState>) -> ButtonState {
    match state {
        Some(s) => s,
        None => ButtonState::Released,
    }
}

/// Whether a recorded state is down; nothing recorded is up.
pub open spec fn recorded_down(state: Option<ButtonState>) -> bool {
    state matches Some(s) && is_down_state(s)
}

/// Looking up keys that are the same key gives the same state.
pub proof fn lemma_key_lookup_same(list: Seq<(Key, ButtonState)>, a: Key, b: Key)
    requires
        same_key(a, b),
    ensures
        key_lookup(list, a) == key_lookup(list, b),
    decreases list.len(),
{
    if list.len() > 0 {
        lemma_key_lookup_same(list.drop_first(), a, b);
    }
}

/// Replacing the state of the first entry for `key` changes what is
/// recorded for that key only.
proof fn lemma_key_lookup_update(
    list: Seq<(Key, ButtonState)>,
    i: int,
    key: Key,
    state: ButtonState,
    other: Key,
)
    requires
        0 <= i < list.len(),
        same_key(list[i].0, key),
        forall|j: int| 0 <= j < i ==> !same_key(#[trigger] list[j].0, key),
    ensures
        key_lookup(list.update(i, (list[i].0, state)), other) == if same_key(other, key) {
            Some(state)
        } else {
            key_lookup(list, other)
        },
    decreases list.len(),
{
    let after = list.update(i, (list[i].0, state));
    if i > 0 {
        assert(after.drop_first() =~= list.drop_first().update(i - 1, (list[i].0, state)));
        assert forall|j: int| 0 <= j < i - 1 implies !same_key(
            #[trigger] list.drop_first()[j].0,
            key,
        ) by {
            assert(list.drop_first()[j] == list[j + 1]);
        }
        lemma_key_lookup_update(list.drop_first(), i - 1, key, state, other);
        assert(!same_key(list[0].0, key));
    } else {
        assert(after.drop_first() =~= list.drop_first());
    }
}

/// Appending an entry for a key with no entry records its state and
/// changes nothing else.
proof fn lemma_key_lookup_push(list: Seq<(Key, ButtonState)>, key: Key, state: ButtonState, other: Key)
    requires
        key_lookup(list, key) is None,
    ensures
        key_lookup(list.push((key, state)), other) == if same_key(other, key) {
            Some(state)
        } else {
            key_lookup(list, other)
        },
    decreases list.len(),
{
    if list.len() == 0 {
        assert(list.push((key, state)).drop_first() =~= Seq::<(Key, ButtonState)>::empty());
    } else {
        assert(list.push((key, state)).drop_first() =~= list.drop_first().push((key, state)));
        lemma_key_lookup_push(list.drop_first(), key, state, other);
    }
}

/// Replacing the state of the first entry for `button` changes what is
/// recorded for that button only.
proof fn lemma_mouse_lookup_update(
    list: Seq<(MouseButton, ButtonState)>,
    i: int,
    button: MouseButton,
    state: ButtonState,
    other: MouseButton,
)
    requires
        0 <= i < list.len(),
        list[i].0 == button,
        forall|j: int| 0 <= j < i ==> #[trigger] list[j].0 != button,
    ensures
        mouse_lookup(list.update(i, (button, state)), other) == if other == button {
            Some(state)
        } else {
            mouse_lookup(list, other)
        },
    decreases list.len(),
{
    let after = list.update(i, (button, state));
    if i > 0 {
        assert(after.drop_first() =~= list.drop_first().update(i - 1, (button, state)));
        assert forall|j: int| 0 <= j < i - 1 implies #[trigger] list.drop_first()[j].0 != button by {
            assert(list.drop_first()[j] == list[j + 1]);
        }
        lemma_mouse_lookup_update(list.drop_first(), i - 1, button, state, other);
    } else {
        assert(after.drop_first() =~= list.drop_first());
    }
}

/// Appending an entry for a button with no entry records its state and
/// changes nothing else.
proof fn lemma_mouse_lookup_push(
    list: Seq<(MouseButton, ButtonState)>,
    button: MouseButton,
    state: ButtonState,
    other: MouseButton,
)
    requires
        mouse_lookup(list, button) is None,
    ensures
        mouse_lookup(list.push((button, state)), other) == if other == button {
            Some(state)
        } else {
            mouse_lookup(list, other)
        },
    decreases list.len(),
{
    if list.len() == 0 {
        assert(list.push((button, state)).drop_first() =~= Seq::<(MouseButton, ButtonState)>::empty());
    } else {
        assert(list.push((button, state)).drop_first() =~= list.drop_first().push((button, state)));
        lemma_mouse_lookup_push(list.drop_first(), button, state, other);
    }
}

/// The key states after recording `state` for `key`: the first entry for
/// the same key gets the state, or an entry is appended when there is none.
pub open spec fn key_set(list: Seq<(Key, ButtonState)>, key: Key, state: ButtonState) -> Seq<
    (Key, ButtonState),
>
    decreases list.len(),
{
    if list.len() == 0 {
        seq![(key, state)]
    } else if same_key(list[0].0, key) {
        seq![(list[0].0, state)] + list.drop_first()
    } else {
        seq![list[0]] + key_set(list.drop_first(), key, state)
    }
}

/// The mouse button states after recording `state` for `button`.
pub open spec fn mouse_set(
    list: Seq<(MouseButton, ButtonState)>,
    button: MouseButton,
    state: ButtonState,
) -> Seq<(MouseButton, ButtonState)>
    decreases list.len(),
{
    if list.len() == 0 {
        seq![(button, state)]
    } else if list[0].0 == button {
        seq![(button, state)] + list.drop_first()
    } else {
        seq![list[0]] + mouse_set(list.drop_first(), button, state)
    }
}

proof fn lemma_key_set_at(list: Seq<(Key, ButtonState)>, i: int, key: Key, state: ButtonState)
    requires
        0 <= i < list.len(),
        same_key(list[i].0, key),
        forall|j: int| 0 <= j < i ==> !same_key(#[trigger] list[j].0, key),
    ensures
        key_set(list, key, state) == list.update(i, (list[i].0, state)),
    decreases list.len(),
{
    if i > 0 {
        assert forall|j: int| 0 <= j < i - 1 implies !same_key(
            #[trigger] list.drop_first()[j].0,
            key,
        ) by {
            assert(list.drop_first()[j] == list[j + 1]);
        }
        assert(!same_key(list[0].0, key));
        lemma_key_set_at(list.drop_first(), i - 1, key, state);
        assert(seq![list[0]] + list.drop_first().update(i - 1, (list[i].0, state)) =~= list.update(
            i,
            (list[i].0, state),
        ));
    } else {
        assert(seq![(list[0].0, state)] + list.drop_first() =~= list.update(0, (list[0].0, state)));
    }
}

proof fn lemma_key_set_absent(list: Seq<(Key, ButtonState)>, key: Key, state: ButtonState)
    requires
        key_lookup(list, key) is None,
    ensures
        key_set(list, key, state) == list.push((key, state)),
    decreases list.len(),
{
    if list.len() > 0 {
        lemma_key_set_absent(list.drop_first(), key, state);
        assert(seq![list[0]] + list.drop_first().push((key, state)) =~= list.push((key, state)));
    } else {
        assert(seq![(key, state)] =~= list.push((key, state)));
    }
}

proof fn lemma_mouse_set_at(
    list: Seq<(MouseButton, ButtonState)>,
    i: int,
    button: MouseButton,
    state: ButtonState,
)
    requires
        0 <= i < list.len(),
        list[i].0 == button,
        forall|j: int| 0 <= j < i ==> #[trigger] list[j].0 != button,
    ensures
        mouse_set(list, button, state) == list.update(i, (button, state)),
    decreases list.len(),
{
    if i > 0 {
        assert forall|j: int| 0 <= j < i - 1 implies #[trigger] list.drop_first()[j].0 != button by {
            assert(list.drop_first()[j] == list[j + 1]);
        }
        lemma_mouse_set_at(list.drop_first(), i - 1, button, state);
        assert(seq![list[0]] + list.drop_first().update(i - 1, (button, state)) =~= list.update(
            i,
            (button, state),
        ));
    } else {
        assert(seq![(button, state)] + list.drop_first() =~= list.update(0, (button, state)));
    }
}

proof fn lemma_mouse_set_absent(list: Seq<(MouseButton, ButtonState)>, button: MouseButton, state: ButtonState)
    requires
        mouse_lookup(list, button) is None,
    ensures
        mouse_set(list, button, state) == list.push((button, state)),
    decreases list.len(),
{
    if list.len() > 0 {
        lemma_mouse_set_absent(list.drop_first(), button, state);
        assert(seq![list[0]] + list.drop_first().push((button, state)) =~= list.push((button, state)));
    } else {
        assert(seq![(button, state)] =~= list.push((button, state)));
    }
}

/// What is recorded for a key is read back for that key (and for any key
/// that is the same key); other keys keep what they had.
pub proof fn lemma_key_set_read_back(list: Seq<(Key, ButtonState)>, key: Key, state: ButtonState, other: Key)
    ensures
        key_lookup(key_set(list, key, state), other) == if same_key(other, key) {
            Some(state)
        } else {
            key_lookup(list, other)
        },
    decreases list.len(),
{
    let after = key_set(list, key, state);
    if list.len() == 0 {
        assert(after.drop_first() =~= Seq::<(Key, ButtonState)>::empty());
    } else if same_key(list[0].0, key) {
        assert(after.drop_first() =~= list.drop_first());
    } else {
        assert(after.drop_first() =~= key_set(list.drop_first(), key, state));
        lemma_key_set_read_back(list.drop_first(), key, state, other);
    }
}

/// At the start of a frame every key keeps its entry and its state moves on
/// by one frame.
pub proof fn lemma_frame_advance_lookup(list: Seq<(Key, ButtonState)>, key: Key)
    ensures
        key_lookup(advanced_keys(list), key) == match key_lookup(list, key) {
            Some(s) => Some(frame_advanced(s)),
            None => None,
        },
    decreases list.len(),
{
    if list.len() > 0 {
        assert(advanced_keys(list).drop_first() =~= advanced_keys(list.drop_first()));
        lemma_frame_advance_lookup(list.drop_first(), key);
    }
}

/// Recording a state for one mouse button leaves every other button's state.
proof fn lemma_mouse_set_other(
    list: Seq<(MouseButton, ButtonState)>,
    button: MouseButton,
    state: ButtonState,
    other: MouseButton,
)
    requires
        other != button,
    ensures
        mouse_lookup(mouse_set(list, button, state), other) == mouse_lookup(list, other),
    decreases list.len(),
{
    let after = mouse_set(list, button, state);
    if list.len() == 0 {
        assert(after =~= seq![(button, state)]);
        assert(after.drop_first() =~= Seq::<(MouseButton, ButtonState)>::empty());
        assert(mouse_lookup(after, other) == mouse_lookup(after.drop_first(), other));
    } else if list[0].0 == button {
        assert(after =~= seq![(button, state)] + list.drop_first());
        assert(after[0].0 == button);
        assert(after.drop_first() =~= list.drop_first());
        assert(mouse_lookup(after, other) == mouse_lookup(after.drop_first(), other));
        assert(mouse_lookup(list, other) == mouse_lookup(list.drop_first(), other));
    } else {
        assert(after =~= seq![list[0]] + mouse_set(list.drop_first(), button, state));
        assert(after[0] == list[0]);
        assert(after.drop_first() =~= mouse_set(list.drop_first(), button, state));
        lemma_mouse_set_other(list.drop_first(), button, state, other);
    }
}

/// At the start of a frame every mouse button keeps its entry and its state
/// moves on by one frame.
proof fn lemma_frame_advance_mouse_lookup(list: Seq<(MouseButton, ButtonState)>, button: MouseButton)
    ensures
        mouse_lookup(advanced_mouse(list), button) == advanced_state(mouse_lookup(list, button)),
    decreases list.len(),
{
    if list.len() > 0 {
        assert(advanced_mouse(list).drop_first() =~= advanced_mouse(list.drop_first()));
        lemma_frame_advance_mouse_lookup(list.drop_first(), button);
    }
}

/// Whether `event` presses or releases `key` (or the same key).
pub open spec fn event_names_key(event: ButtonEvent, key: Key) -> bool {
    match event {
        ButtonEvent::KeyPress(k) => same_key(k, key),
        ButtonEvent::KeyRelease(k) => same_key(k, key),
        _ => false,
    }
}

/// Whether `event` presses or releases `button`.
pub open spec fn event_names_button(event: ButtonEvent, button: MouseButton) -> bool {
    match event {
        ButtonEvent::MousePress(b) => b == button,
        ButtonEvent::MouseRelease(b) => b == button,
        _ => false,
    }
}

/// A recorded state moved on by one frame; nothing recorded stays so.
pub open spec fn advanced_state(state: Option<ButtonState>) -> Option<ButtonState> {
    match state {
        Some(s) => Some(frame_advanced(s)),
        None => None,
    }
}

/// Events that name neither `key` nor `button` leave their states as they are.
proof fn lemma_unnamed_states_kept(m: ButtonModel, events: Seq<ButtonEvent>, key: Key, button: MouseButton)
    requires
        forall|i: int| 0 <= i < events.len() ==> !event_names_key(#[trigger] events[i], key),
        forall|i: int| 0 <= i < events.len() ==> !event_names_button(#[trigger] events[i], button),
    ensures
        key_lookup(apply_events(m, events).0, key) == key_lookup(m.0, key),
        mouse_lookup(apply_events(m, events).1, button) == mouse_lookup(m.1, button),
    decreases events.len(),
{
    if events.len() > 0 {
        let before = events.drop_last();
        assert forall|i: int| 0 <= i < before.len() implies !event_names_key(#[trigger] before[i], key)
            && !event_names_button(before[i], button) by {
            assert(before[i] == events[i]);
        }
        lemma_unnamed_states_kept(m, before, key, button);
        let mid = apply_events(m, before);
        let e = events.last();
        assert(!event_names_key(e, key) && !event_names_button(e, button)) by {
            assert(e == events[events.len() - 1]);
        }
        match e {
            ButtonEvent::KeyPress(k) => {
                lemma_key_set_read_back(mid.0, k, ButtonState::JustPressed, key);
                if same_key(key, k) {
                    assert(same_key(k, key));
                }
            },
            ButtonEvent::KeyRelease(k) => {
                lemma_key_set_read_back(mid.0, k, ButtonState::JustReleased, key);
                if same_key(key, k) {
                    assert(same_key(k, key));
                }
            },
            ButtonEvent::MousePress(b) => {
                lemma_mouse_set_other(mid.1, b, ButtonState::JustPressed, button);
            },
            ButtonEvent::MouseRelease(b) => {
                lemma_mouse_set_other(mid.1, b, ButtonState::JustReleased, button);
            },
        }
    }
}

/// A frame of events (as `ButtonInput::update_from_events` runs it) only
/// moves on by one frame the state of a key, and of a mouse button, that no
/// event presses or releases.
pub proof fn lemma_unnamed_buttons_only_advance(
    m: ButtonModel,
    events: Seq<ButtonEvent>,
    key: Key,
    button: MouseButton,
)
    requires
        forall|i: int| 0 <= i < events.len() ==> !event_names_key(#[trigger] events[i], key),
        forall|i: int| 0 <= i < events.len() ==> !event_names_button(#[trigger] events[i], button),
    ensures
        ({
            let end = apply_events(
                (advanced_keys(m.0), advanced_mouse(m.1), Seq::<ActionView>::empty()),
                events,
            );
            &&& key_lookup(end.0, key) == advanced_state(key_lookup(m.0, key))
            &&& mouse_lookup(end.1, button) == advanced_state(mouse_lookup(m.1, button))
        }),
{
    let start = (advanced_keys(m.0), advanced_mouse(m.1), Seq::<ActionView>::empty());
    lemma_unnamed_states_kept(start, events, key, button);
    lemma_frame_advance_lookup(m.0, key);
    lemma_frame_advance_mouse_lookup(m.1, button);
}

/// The name of the key or mouse button an event presses or releases.
pub open spec fn event_button_name(event: ButtonEvent) -> Seq<char> {
    match event {
        ButtonEvent::KeyPress(k) => key_display_name(k),
        ButtonEvent::KeyRelease(k) => key_display_name(k),
        ButtonEvent::MousePress(b) => mouse_action_name(b),
        ButtonEvent::MouseRelease(b) => mouse_action_name(b),
    }
}

/// Whether `action` is one that `event` makes: a press makes a press
/// action, a release a release or click action, named after the event's key
/// or button.
pub open spec fn made_by(action: ActionView, event: ButtonEvent) -> bool {
    &&& action.1 == event_button_name(event)
    &&& match event {
        ButtonEvent::KeyPress(_) => action.0 == ActionKind::Press,
        ButtonEvent::MousePress(_) => action.0 == ActionKind::Press,
        _ => action.0 == ActionKind::Release || action.0 == ActionKind::Click,
    }
}

/// Events only append actions, each made by one of the events.
proof fn lemma_event_actions(m: ButtonModel, events: Seq<ButtonEvent>)
    ensures
        apply_events(m, events).2.len() >= m.2.len(),
        apply_events(m, events).2.take(m.2.len() as int) == m.2,
        forall|i: int|
            m.2.len() <= i < apply_events(m, events).2.len() ==> exists|j: int|
                0 <= j < events.len() && made_by(#[trigger] apply_events(m, events).2[i], events[j]),
    decreases events.len(),
{
    if events.len() > 0 {
        let before = events.drop_last();
        lemma_event_actions(m, before);
        let mid = apply_events(m, before);
        let end = apply_events(m, events);
        let e = events.last();
        assert(end == apply_event(mid, e));
        assert(end.2.len() >= mid.2.len());
        assert forall|i: int| 0 <= i < mid.2.len() implies end.2[i] == mid.2[i] by {
        }
        assert(end.2.take(m.2.len() as int) =~= mid.2.take(m.2.len() as int));
        assert forall|i: int| m.2.len() <= i < end.2.len() implies exists|j: int|
            0 <= j < events.len() && made_by(#[trigger] end.2[i], events[j]) by {
            if i < mid.2.len() {
                assert(end.2[i] == mid.2[i]);
                let j = choose|j: int| 0 <= j < before.len() && made_by(mid.2[i], before[j]);
                assert(before[j] == events[j]);
            } else {
                assert(made_by(end.2[i], events[events.len() - 1]));
            }
        }
    }
}

/// A frame of events (as `ButtonInput::update_from_events` runs it) leaves
/// frame actions made only by that frame's events: each is a press action
/// of a key or button some event of the frame presses, or a release or
/// click action of one some event releases.
pub proof fn lemma_frame_actions_come_from_events(m: ButtonModel, events: Seq<ButtonEvent>)
    ensures
        ({
            let end = apply_events(
                (advanced_keys(m.0), advanced_mouse(m.1), Seq::<ActionView>::empty()),
                events,
            );
            forall|i: int|
                0 <= i < end.2.len() ==> exists|j: int|
                    0 <= j < events.len() && made_by(#[trigger] end.2[i], events[j])
        }),
{
    lemma_event_actions((advanced_keys(m.0), advanced_mouse(m.1), Seq::<ActionView>::empty()), events);
}

/// Pressing and releasing a key that is up within one frame records a
/// press, a release and a click, in that order, and leaves the key just
/// released.
pub proof fn lemma_quick_click(m: ButtonModel, key: Key)
    requires
        state_or_released(key_lookup(m.0, key)) is Released,
    ensures
        ({
            let name = key_display_name(key);
            let r = apply_events(m, seq![ButtonEvent::KeyPress(key), ButtonEvent::KeyRelease(key)]);
            &&& r.2 == m.2 + seq![
                (ActionKind::Press, name),
                (ActionKind::Release, name),
                (ActionKind::Click, name),
            ]
            &&& key_lookup(r.0, key) == Some(ButtonState::JustReleased)
            &&& r.1 == m.1
        }),
{
    let events = seq![ButtonEvent::KeyPress(key), ButtonEvent::KeyRelease(key)];
    assert(events.drop_last() =~= seq![ButtonEvent::KeyPress(key)]);
    assert(seq![ButtonEvent::KeyPress(key)].drop_last() =~= Seq::<ButtonEvent>::empty());
    let pressed = apply_event(m, ButtonEvent::KeyPress(key));
    assert(apply_events(m, Seq::<ButtonEvent>::empty()) == m);
    assert(apply_events(m, seq![ButtonEvent::KeyPress(key)]) == pressed);
    assert(apply_events(m, events) == apply_event(pressed, ButtonEvent::KeyRelease(key)));
    lemma_key_set_read_back(m.0, key, ButtonState::JustPressed, key);
    lemma_key_set_read_back(pressed.0, key, ButtonState::JustReleased, key);
    let name = key_display_name(key);
    assert(m.2.push((ActionKind::Press, name)).push((ActionKind::Release, name)).push(
        (ActionKind::Click, name),
    ) =~= m.2 + seq![(ActionKind::Press, name), (ActionKind::Release, name), (ActionKind::Click, name)]);
}

/// A button event: a key or mouse button going down or up.
#[derive(Debug, Clone)]
pub enum ButtonEvent {
    KeyPress(Key),
    KeyRelease(Key),
    MousePress(MouseButton),
    MouseRelease(MouseButton),
}

/// The recorded key states, mouse button states and frame actions.
pub type ButtonModel = (Seq<(Key, ButtonState)>, Seq<(MouseButton, ButtonState)>, Seq<ActionView>);

/// What one button event does to the recorded states and frame actions.
pub open spec fn apply_event(m: ButtonModel, event: ButtonEvent) -> ButtonModel {
    match event {
        ButtonEvent::KeyPress(key) => if state_or_released(key_lookup(m.0, key)) is Released {
            (
                key_set(m.0, key, ButtonState::JustPressed),
                m.1,
                m.2.push((ActionKind::Press, key_display_name(key))),
            )
        } else {
            m
        },
        ButtonEvent::KeyRelease(key) => {
            let before = key_lookup(m.0, key);
            let name = key_display_name(key);
            if recorded_down(before) {
                (
                    key_set(m.0, key, ButtonState::JustReleased),
                    m.1,
                    if before == Some(ButtonState::JustPressed) {
                        m.2.push((ActionKind::Release, name)).push((ActionKind::Click, name))
                    } else {
                        m.2.push((ActionKind::Release, name))
                    },
                )
            } else {
                m
            }
        },
        ButtonEvent::MousePress(button) => if state_or_released(mouse_lookup(m.1, button)) is Released {
            (
                m.0,
                mouse_set(m.1, button, ButtonState::JustPressed),
                m.2.push((ActionKind::Press, mouse_action_name(button))),
            )
        } else {
            m
        },
        ButtonEvent::MouseRelease(button) => {
            let before = mouse_lookup(m.1, button);
            let name = mouse_action_name(button);
            if recorded_down(before) {
                (
                    m.0,
                    mouse_set(m.1, button, ButtonState::JustReleased),
                    if before == Some(ButtonState::JustPressed) {
                        m.2.push((ActionKind::Release, name)).push((ActionKind::Click, name))
                    } else {
                        m.2.push((ActionKind::Release, name))
                    },
                )
            } else {
                m
            }
        },
    }
}

/// What a list of button events does, one after the other.
pub open spec fn apply_events(m: ButtonModel, events: Seq<ButtonEvent>) -> ButtonModel
    decreases events.len(),
{
    if events.len() == 0 {
        m
    } else {
        apply_event(apply_events(m, events.drop_last()), events.last())
    }
}

/// The key states at the start of the next frame.
pub open spec fn advanced_keys(list: Seq<(Key, ButtonState)>) -> Seq<(Key, ButtonState)> {
    list.map_values(|e: (Key, ButtonState)| (e.0, frame_advanced(e.1)))
}

/// The mouse button states at the start of the next frame.
pub open spec fn advanced_mouse(list: Seq<(MouseButton, ButtonState)>) -> Seq<(MouseButton, ButtonState)> {
    list.map_values(|e: (MouseButton, ButtonState)| (e.0, frame_advanced(e.1)))
}

/// The hold actions of the keys that are down, in order.
pub open spec fn key_holds(list: Seq<(Key, ButtonState)>) -> Seq<ActionView>
    decreases list.len(),
{
    if list.len() == 0 {
        Seq::empty()
    } else if is_down_state(list.last().1) {
        key_holds(list.drop_last()).push((ActionKind::Hold, key_display_name(list.last().0)))
    } else {
        key_holds(list.drop_last())
    }
}

/// The hold actions of the mouse buttons that are down, in order.
pub open spec fn mouse_holds(list: Seq<(MouseButton, ButtonState)>) -> Seq<ActionView>
    decreases list.len(),
{
    if list.len() == 0 {
        Seq::empty()
    } else if is_down_state(list.last().1) {
        mouse_holds(list.drop_last()).push((ActionKind::Hold, mouse_action_name(list.last().0)))
    } else {
        mouse_holds(list.drop_last())
    }
}

/// The hold actions name exactly the keys that are down: every key whose
/// recorded state is just pressed or held has a hold action, and every hold
/// action is one of such a key.
pub proof fn lemma_key_holds_are_the_down_keys(keys: Seq<(Key, ButtonState)>)
    ensures
        forall|i: int|
            0 <= i < keys.len() && (keys[i].1 == ButtonState::JustPressed || keys[i].1
                == ButtonState::Held) ==> key_holds(keys).contains(
                (ActionKind::Hold, key_display_name(#[trigger] keys[i].0)),
            ),
        forall|a: ActionView|
            #[trigger] key_holds(keys).contains(a) ==> a.0 == ActionKind::Hold && exists|i: int|
                0 <= i < keys.len() && (keys[i].1 == ButtonState::JustPressed || keys[i].1
                    == ButtonState::Held) && a.1 == key_display_name(keys[i].0),
    decreases keys.len(),
{
    if keys.len() > 0 {
        let rest = keys.drop_last();
        lemma_key_holds_are_the_down_keys(rest);
        let last = keys.last();
        let before = key_holds(rest);
        assert forall|i: int|
            0 <= i < keys.len() && (keys[i].1 == ButtonState::JustPressed || keys[i].1
                == ButtonState::Held) implies key_holds(keys).contains(
            (ActionKind::Hold, key_display_name(#[trigger] keys[i].0)),
        ) by {
            if i < rest.len() {
                assert(rest[i] == keys[i]);
                assert(before.contains((ActionKind::Hold, key_display_name(rest[i].0))));
                if is_down_state(last.1) {
                    vstd::seq_lib::lemma_seq_contains_after_push(
                        before,
                        (ActionKind::Hold, key_display_name(last.0)),
                        (ActionKind::Hold, key_display_name(keys[i].0)),
                    );
                }
            } else {
                let x = (ActionKind::Hold, key_display_name(last.0));
                vstd::seq_lib::lemma_seq_contains_after_push(before, x, x);
            }
        }
        assert forall|a: ActionView| #[trigger] key_holds(keys).contains(a) implies a.0
            == ActionKind::Hold && exists|i: int|
            0 <= i < keys.len() && (keys[i].1 == ButtonState::JustPressed || keys[i].1
                == ButtonState::Held) && a.1 == key_display_name(keys[i].0) by {
            let x = (ActionKind::Hold, key_display_name(last.0));
            if is_down_state(last.1) {
                vstd::seq_lib::lemma_seq_contains_after_push(before, x, a);
            }
            if before.contains(a) {
                let i = choose|i: int|
                    0 <= i < rest.len() && (rest[i].1 == ButtonState::JustPressed || rest[i].1
                        == ButtonState::Held) && a.1 == key_display_name(rest[i].0);
                assert(keys[i] == rest[i]);
            } else {
                assert(keys[keys.len() - 1] == last);
            }
        }
    }
}

/// The hold actions of mouse buttons name exactly the buttons that are down.
pub proof fn lemma_mouse_holds_are_the_down_buttons(buttons: Seq<(MouseButton, ButtonState)>)
    ensures
        forall|i: int|
            0 <= i < buttons.len() && (buttons[i].1 == ButtonState::JustPressed || buttons[i].1
                == ButtonState::Held) ==> mouse_holds(buttons).contains(
                (ActionKind::Hold, mouse_action_name(#[trigger] buttons[i].0)),
            ),
        forall|a: ActionView|
            #[trigger] mouse_holds(buttons).contains(a) ==> a.0 == ActionKind::Hold && exists|i: int|
                0 <= i < buttons.len() && (buttons[i].1 == ButtonState::JustPressed || buttons[i].1
                    == ButtonState::Held) && a.1 == mouse_action_name(buttons[i].0),
    decreases buttons.len(),
{
    if buttons.len() > 0 {
        let rest = buttons.drop_last();
        lemma_mouse_holds_are_the_down_buttons(rest);
        let last = buttons.last();
        let before = mouse_holds(rest);
        assert forall|i: int|
            0 <= i < buttons.len() && (buttons[i].1 == ButtonState::JustPressed || buttons[i].1
                == ButtonState::Held) implies mouse_holds(buttons).contains(
            (ActionKind::Hold, mouse_action_name(#[trigger] buttons[i].0)),
        ) by {
            if i < rest.len() {
                assert(rest[i] == buttons[i]);
                assert(before.contains((ActionKind::Hold, mouse_action_name(rest[i].0))));
                if is_down_state(last.1) {
                    vstd::seq_lib::lemma_seq_contains_after_push(
                        before,
                        (ActionKind::Hold, mouse_action_name(last.0)),
                        (ActionKind::Hold, mouse_action_name(buttons[i].0)),
                    );
                }
            } else {
                let x = (ActionKind::Hold, mouse_action_name(last.0));
                vstd::seq_lib::lemma_seq_contains_after_push(before, x, x);
            }
        }
        assert forall|a: ActionView| #[trigger] mouse_holds(buttons).contains(a) implies a.0
            == ActionKind::Hold && exists|i: int|
            0 <= i < buttons.len() && (buttons[i].1 == ButtonState::JustPressed || buttons[i].1
                == ButtonState::Held) && a.1 == mouse_action_name(buttons[i].0) by {
            let x = (ActionKind::Hold, mouse_action_name(last.0));
            if is_down_state(last.1) {
                vstd::seq_lib::lemma_seq_contains_after_push(before, x, a);
            }
            if before.contains(a) {
                let i = choose|i: int|
                    0 <= i < rest.len() && (rest[i].1 == ButtonState::JustPressed || rest[i].1
                        == ButtonState::Held) && a.1 == mouse_action_name(rest[i].0);
                assert(buttons[i] == rest[i]);
            } else {
                assert(buttons[buttons.len() - 1] == last);
            }
        }
    }
}

/// The button state of keys and mouse buttons, and the button actions of the
/// current frame.
#[derive(Debug)]
pub struct ButtonInput {
    key_states: Vec<(Key, ButtonState)>,
    mouse_button_states: Vec<(MouseButton, ButtonState)>,
    frame_actions: Vec<ButtonAction>,
    active_actions: Vec<ButtonAction>,
}

impl ButtonInput {
    /// The recorded key states, in the order the keys were first seen.
    pub closed spec fn spec_keys(&self) -> Seq<(Key, ButtonState)> {
        self.key_states@
    }

    /// The recorded mouse button states, in the order the buttons were first seen.
    pub closed spec fn spec_mouse(&self) -> Seq<(MouseButton, ButtonState)> {
        self.mouse_button_states@
    }

    /// The discrete actions of this frame, in the order they happened.
    pub closed spec fn spec_frame_actions(&self) -> Seq<ActionView> {
        actions_view(self.frame_actions@)
    }

    /// The continuous actions: a hold for every button that is down.
    pub closed spec fn spec_active_actions(&self) -> Seq<ActionView> {
        actions_view(self.active_actions@)
    }

    /// The recorded key states, mouse button states and frame actions.
    pub open spec fn spec_model(&self) -> ButtonModel {
        (self.spec_keys(), self.spec_mouse(), self.spec_frame_actions())
    }

    /// No state recorded and no actions.
    pub fn new() -> (r: Self)
        ensures
            r.spec_keys() == Seq::<(Key, ButtonState)>::empty(),
            r.spec_mouse() == Seq::<(MouseButton, ButtonState)>::empty(),
            r.spec_frame_actions() == Seq::<ActionView>::empty(),
            r.spec_active_actions() == Seq::<ActionView>::empty(),
    {
        let r = ButtonInput {
            key_states: Vec::new(),
            mouse_button_states: Vec::new(),
            frame_actions: Vec::new(),
            active_actions: Vec::new(),
        };
        proof {
            assert(r.spec_frame_actions() =~= Seq::<ActionView>::empty());
            assert(r.spec_active_actions() =~= Seq::<ActionView>::empty());
        }
        r
    }

    /// The index of the first entry for `key`.
    fn find_key(&self, key: &Key) -> (r: Option<usize>)
        ensures
            match r {
                Some(i) => {
                    &&& i < self.key_states@.len()
                    &&& same_key(self.key_states@[i as int].0, *key)
                    &&& forall|j: int| 0 <= j < i ==> !same_key(#[trigger] self.key_states@[j].0, *key)
                    &&& key_lookup(self.key_states@, *key) == Some(self.key_states@[i as int].1)
                },
                None => key_lookup(self.key_states@, *key) is None,
            },
    {
        let ghost list = self.key_states@;
        assert(list.subrange(0, list.len() as int) =~= list);
        let mut i: usize = 0;
        while i < self.key_states.len()
            invariant
                list == self.key_states@,
                i <= list.len(),
                forall|j: int| 0 <= j < i ==> !same_key(#[trigger] list[j].0, *key),
                key_lookup(list, *key) == key_lookup(list.subrange(i as int, list.len() as int), *key),
            decreases list.len() - i,
        {
            let ghost rest = list.subrange(i as int, list.len() as int);
            assert(rest[0] == list[i as int]);
            if self.key_states[i].0.same_as(key) {
                return Some(i);
            }
            assert(list.subrange(i + 1, list.len() as int) =~= rest.drop_first());
            i = i + 1;
        }
        None
    }

    /// The index of the first entry for `button`.
    fn find_mouse_button(&self, button: MouseButton) -> (r: Option<usize>)
        ensures
            match r {
                Some(i) => {
                    &&& i < self.mouse_button_states@.len()
                    &&& self.mouse_button_states@[i as int].0 == button
                    &&& forall|j: int|
                        0 <= j < i ==> #[trigger] self.mouse_button_states@[j].0 != button
                    &&& mouse_lookup(self.mouse_button_states@, button) == Some(
                        self.mouse_button_states@[i as int].1,
                    )
                },
                None => mouse_lookup(self.mouse_button_states@, button) is None,
            },
    {
        let ghost list = self.mouse_button_states@;
        assert(list.subrange(0, list.len() as int) =~= list);
        let mut i: usize = 0;
        while i < self.mouse_button_states.len()
            invariant
                list == self.mouse_button_states@,
                i <= list.len(),
                forall|j: int| 0 <= j < i ==> #[trigger] list[j].0 != button,
                mouse_lookup(list, button) == mouse_lookup(
                    list.subrange(i as int, list.len() as int),
                    button,
                ),
            decreases list.len() - i,
        {
            let ghost rest = list.subrange(i as int, list.len() as int);
            assert(rest[0] == list[i as int]);
            if self.mouse_button_states[i].0 == button {
                return Some(i);
            }
            assert(list.subrange(i + 1, list.len() as int) =~= rest.drop_first());
            i = i + 1;
        }
        None
    }

    /// The recorded state of `key`.
    pub fn key_state(&self, key: &Key) -> (r: Option<ButtonState>)
        ensures
            r == key_lookup(self.spec_keys(), *key),
    {
        match self.find_key(key) {
            Some(i) => Some(self.key_states[i].1),
            None => None,
        }
    }

    /// The recorded state of `button`.
    pub fn mouse_button_state(&self, button: MouseButton) -> (r: Option<ButtonState>)
        ensures
            r == mouse_lookup(self.spec_mouse(), button),
    {
        match self.find_mouse_button(button) {
            Some(i) => Some(self.mouse_button_states[i].1),
            None => None,
        }
    }

    /// Whether `key` is down (continuous input).
    pub fn is_key_pressed(&self, key: &Key) -> (b: bool)
        ensures
            b == recorded_down(key_lookup(self.spec_keys(), *key)),
    {
        match self.key_state(key) {
            Some(state) => state.is_down(),
            None => false,
        }
    }

    /// Whether `key` went down this frame (discrete input).
    pub fn is_key_just_pressed(&self, key: &Key) -> (b: bool)
        ensures
            b == (key_lookup(self.spec_keys(), *key) == Some(ButtonState::JustPressed)),
    {
        match self.key_state(key) {
            Some(state) => state.is_just_pressed(),
            None => false,
        }
    }

    /// Whether `key` went up this frame (discrete input).
    pub fn is_key_just_released(&self, key: &Key) -> (b: bool)
        ensures
            b == (key_lookup(self.spec_keys(), *key) == Some(ButtonState::JustReleased)),
    {
        match self.key_state(key) {
            Some(state) => state.is_just_released(),
            None => false,
        }
    }

    /// Whether `button` is down (continuous input).
    pub fn is_mouse_button_pressed(&self, button: MouseButton) -> (b: bool)
        ensures
            b == recorded_down(mouse_lookup(self.spec_mouse(), button)),
    {
        match self.mouse_button_state(button) {
            Some(state) => state.is_down(),
            None => false,
        }
    }

    /// Whether `button` went down this frame (discrete input).
    pub fn is_mouse_button_just_pressed(&self, button: MouseButton) -> (b: bool)
        ensures
            b == (mouse_lookup(self.spec_mouse(), button) == Some(ButtonState::JustPressed)),
    {
        match self.mouse_button_state(button) {
            Some(state) => state.is_just_pressed(),
            None => false,
        }
    }

    /// Whether `button` went up this frame (discrete input).
    pub fn is_mouse_button_just_released(&self, button: MouseButton) -> (b: bool)
        ensures
            b == (mouse_lookup(self.spec_mouse(), button) == Some(ButtonState::JustReleased)),
    {
        match self.mouse_button_state(button) {
            Some(state) => state.is_just_released(),
            None => false,
        }
    }

    /// The discrete actions of this frame.
    pub fn get_frame_actions(&self) -> (r: &[ButtonAction])
        ensures
            actions_view(r@) == self.spec_frame_actions(),
    {
        self.frame_actions.as_slice()
    }

    /// The continuous actions.
    pub fn get_active_actions(&self) -> (r: &[ButtonAction])
        ensures
            actions_view(r@) == self.spec_active_actions(),
    {
        self.active_actions.as_slice()
    }

    /// Records `state` for `key`.
    fn set_key_state(&mut self, key: &Key, state: ButtonState)
        ensures
            forall|k: Key|
                #[trigger] key_lookup(final(self).spec_keys(), k) == if same_key(k, *key) {
                    Some(state)
                } else {
                    key_lookup(old(self).spec_keys(), k)
                },
            final(self).spec_keys() == key_set(old(self).spec_keys(), *key, state),
            final(self).spec_mouse() == old(self).spec_mouse(),
            final(self).frame_actions == old(self).frame_actions,
            final(self).active_actions == old(self).active_actions,
    {
        let ghost before = self.key_states@;
        match self.find_key(key) {
            Some(i) => {
                let entry_key = self.key_states[i].0.clone();
                self.key_states.set(i, (entry_key, state));
                proof {
                    lemma_key_set_at(before, i as int, *key, state);
                    assert forall|k: Key| #[trigger] key_lookup(self.key_states@, k) == if same_key(
                        k,
                        *key,
                    ) {
                        Some(state)
                    } else {
                        key_lookup(before, k)
                    } by {
                        lemma_key_lookup_update(before, i as int, *key, state, k);
                    }
                }
            },
            None => {
                let entry_key = key.clone();
                self.key_states.push((entry_key, state));
                proof {
                    lemma_key_set_absent(before, *key, state);
                    assert forall|k: Key| #[trigger] key_lookup(self.key_states@, k) == if same_key(
                        k,
                        *key,
                    ) {
                        Some(state)
                    } else {
                        key_lookup(before, k)
                    } by {
                        lemma_key_lookup_push(before, *key, state, k);
                    }
                }
            },
        }
    }

    /// Records `state` for `button`.
    fn set_mouse_button_state(&mut self, button: MouseButton, state: ButtonState)
        ensures
            forall|b: MouseButton|
                #[trigger] mouse_lookup(final(self).spec_mouse(), b) == if b == button {
                    Some(state)
                } else {
                    mouse_lookup(old(self).spec_mouse(), b)
                },
            final(self).spec_mouse() == mouse_set(old(self).spec_mouse(), button, state),
            final(self).spec_keys() == old(self).spec_keys(),
            final(self).frame_actions == old(self).frame_actions,
            final(self).active_actions == old(self).active_actions,
    {
        let ghost before = self.mouse_button_states@;
        match self.find_mouse_button(button) {
            Some(i) => {
                self.mouse_button_states.set(i, (button, state));
                proof {
                    lemma_mouse_set_at(before, i as int, button, state);
                    assert forall|b: MouseButton| #[trigger] mouse_lookup(
                        self.mouse_button_states@,
                        b,
                    ) == if b == button {
                        Some(state)
                    } else {
                        mouse_lookup(before, b)
                    } by {
                        lemma_mouse_lookup_update(before, i as int, button, state, b);
                    }
                }
            },
            None => {
                self.mouse_button_states.push((button, state));
                proof {
                    lemma_mouse_set_absent(before, button, state);
                    assert forall|b: MouseButton| #[trigger] mouse_lookup(
                        self.mouse_button_states@,
                        b,
                    ) == if b == button {
                        Some(state)
                    } else {
                        mouse_lookup(before, b)
                    } by {
                        lemma_mouse_lookup_push(before, button, state, b);
                    }
                }
            },
        }
    }

    /// Appends an action to this frame's actions.
    fn push_frame_action(&mut self, kind: ActionKind, name: String)
        ensures
            final(self).spec_frame_actions() == old(self).spec_frame_actions().push((kind, name@)),
            final(self).spec_keys() == old(self).spec_keys(),
            final(self).spec_mouse() == old(self).spec_mouse(),
            final(self).active_actions == old(self).active_actions,
    {
        let ghost before = self.frame_actions@;
        let action = make_action(kind, name);
        self.frame_actions.push(action);
        proof {
            assert(actions_view(self.frame_actions@) =~= actions_view(before).push((kind, name@)));
        }
    }

    /// A key press: a released key (or one never seen) goes down and a press
    /// action is recorded; a key that is already down ignores the event.
    pub fn press_key(&mut self, key: &Key)
        ensures
            final(self).spec_model() == apply_event(old(self).spec_model(), ButtonEvent::KeyPress(*key)),
            final(self).spec_active_actions() == old(self).spec_active_actions(),
            ({
                let before = key_lookup(old(self).spec_keys(), *key);
                if state_or_released(before) is Released {
                    &&& forall|k: Key|
                        #[trigger] key_lookup(final(self).spec_keys(), k) == if same_key(k, *key) {
                            Some(ButtonState::JustPressed)
                        } else {
                            key_lookup(old(self).spec_keys(), k)
                        }
                    &&& final(self).spec_frame_actions() == old(self).spec_frame_actions().push(
                        (ActionKind::Press, key_display_name(*key)),
                    )
                    &&& final(self).spec_mouse() == old(self).spec_mouse()
                    &&& final(self).spec_active_actions() == old(self).spec_active_actions()
                } else {
                    *final(self) == *old(self)
                }
            }),
    {
        let current = match self.key_state(key) {
            Some(state) => state,
            None => ButtonState::Released,
        };
        if current.is_released() {
            self.set_key_state(key, ButtonState::JustPressed);
            self.push_frame_action(ActionKind::Press, key.to_string());
        }
    }

    /// A key release: a key that is down goes up and a release action is
    /// recorded, followed by a click action when the key went down this
    /// frame; a key that is up ignores the event.
    pub fn release_key(&mut self, key: &Key)
        ensures
            final(self).spec_model() == apply_event(old(self).spec_model(), ButtonEvent::KeyRelease(*key)),
            final(self).spec_active_actions() == old(self).spec_active_actions(),
            ({
                let before = key_lookup(old(self).spec_keys(), *key);
                let name = key_display_name(*key);
                if recorded_down(before) {
                    &&& forall|k: Key|
                        #[trigger] key_lookup(final(self).spec_keys(), k) == if same_key(k, *key) {
                            Some(ButtonState::JustReleased)
                        } else {
                            key_lookup(old(self).spec_keys(), k)
                        }
                    &&& final(self).spec_frame_actions() == if before == Some(
                        ButtonState::JustPressed,
                    ) {
                        old(self).spec_frame_actions().push((ActionKind::Release, name)).push(
                            (ActionKind::Click, name),
                        )
                    } else {
                        old(self).spec_frame_actions().push((ActionKind::Release, name))
                    }
                    &&& final(self).spec_mouse() == old(self).spec_mouse()
                    &&& final(self).spec_active_actions() == old(self).spec_active_actions()
                } else {
                    *final(self) == *old(self)
                }
            }),
    {
        let current = match self.key_state(key) {
            Some(state) => state,
            None => ButtonState::Released,
        };
        if current.is_down() {
            self.set_key_state(key, ButtonState::JustReleased);
            self.push_frame_action(ActionKind::Release, key.to_string());
            if current.is_just_pressed() {
                self.push_frame_action(ActionKind::Click, key.to_string());
            }
        }
    }

    /// A mouse button press: a released button goes down and a press action
    /// is recorded; a button that is already down ignores the event.
    pub fn press_mouse_button(&mut self, button: MouseButton)
        ensures
            final(self).spec_model() == apply_event(old(self).spec_model(), ButtonEvent::MousePress(button)),
            final(self).spec_active_actions() == old(self).spec_active_actions(),
            ({
                let before = mouse_lookup(old(self).spec_mouse(), button);
                if state_or_released(before) is Released {
                    &&& forall|b: MouseButton|
                        #[trigger] mouse_lookup(final(self).spec_mouse(), b) == if b == button {
                            Some(ButtonState::JustPressed)
                        } else {
                            mouse_lookup(old(self).spec_mouse(), b)
                        }
                    &&& final(self).spec_frame_actions() == old(self).spec_frame_actions().push(
                        (ActionKind::Press, mouse_action_name(button)),
                    )
                    &&& final(self).spec_keys() == old(self).spec_keys()
                    &&& final(self).spec_active_actions() == old(self).spec_active_actions()
                } else {
                    *final(self) == *old(self)
                }
            }),
    {
        let current = match self.mouse_button_state(button) {
            Some(state) => state,
            None => ButtonState::Released,
        };
        if current.is_released() {
            self.set_mouse_button_state(button, ButtonState::JustPressed);
            self.push_frame_action(ActionKind::Press, mouse_name(button));
        }
    }

    /// A mouse button release: a button that is down goes up and a release
    /// action is recorded, followed by a click action when it went down this
    /// frame; a button that is up ignores the event.
    pub fn release_mouse_button(&mut self, button: MouseButton)
        ensures
            final(self).spec_model() == apply_event(old(self).spec_model(), ButtonEvent::MouseRelease(button)),
            final(self).spec_active_actions() == old(self).spec_active_actions(),
            ({
                let before = mouse_lookup(old(self).spec_mouse(), button);
                let name = mouse_action_name(button);
                if recorded_down(before) {
                    &&& forall|b: MouseButton|
                        #[trigger] mouse_lookup(final(self).spec_mouse(), b) == if b == button {
                            Some(ButtonState::JustReleased)
                        } else {
                            mouse_lookup(old(self).spec_mouse(), b)
                        }
                    &&& final(self).spec_frame_actions() == if before == Some(
                        ButtonState::JustPressed,
                    ) {
                        old(self).spec_frame_actions().push((ActionKind::Release, name)).push(
                            (ActionKind::Click, name),
                        )
                    } else {
                        old(self).spec_frame_actions().push((ActionKind::Release, name))
                    }
                    &&& final(self).spec_keys() == old(self).spec_keys()
                    &&& final(self).spec_active_actions() == old(self).spec_active_actions()
                } else {
                    *final(self) == *old(self)
                }
            }),
    {
        let current = match self.mouse_button_state(button) {
            Some(state) => state,
            None => ButtonState::Released,
        };
        if current.is_down() {
            self.set_mouse_button_state(button, ButtonState::JustReleased);
            self.push_frame_action(ActionKind::Release, mouse_name(button));
            if current.is_just_pressed() {
                self.push_frame_action(ActionKind::Click, mouse_name(button));
            }
        }
    }

    /// Handles one button event.
    pub fn process_event(&mut self, event: &ButtonEvent)
        ensures
            final(self).spec_model() == apply_event(old(self).spec_model(), *event),
            final(self).spec_active_actions() == old(self).spec_active_actions(),
    {
        match event {
            ButtonEvent::KeyPress(key) => self.press_key(key),
            ButtonEvent::KeyRelease(key) => self.release_key(key),
            ButtonEvent::MousePress(button) => self.press_mouse_button(*button),
            ButtonEvent::MouseRelease(button) => self.release_mouse_button(*button),
        }
    }

    /// Moves every recorded state on to the next frame: fresh presses become
    /// held, fresh releases become released.
    pub fn update_button_states(&mut self)
        ensures
            final(self).spec_keys() == advanced_keys(old(self).spec_keys()),
            final(self).spec_mouse() == advanced_mouse(old(self).spec_mouse()),
            final(self).spec_frame_actions() == old(self).spec_frame_actions(),
            final(self).spec_active_actions() == old(self).spec_active_actions(),
    {
        let ghost keys = self.key_states@;
        let mut i: usize = 0;
        while i < self.key_states.len()
            invariant
                i <= keys.len(),
                self.key_states@.len() == keys.len(),
                forall|j: int|
                    0 <= j < i ==> #[trigger] self.key_states@[j] == (keys[j].0, frame_advanced(
                        keys[j].1,
                    )),
                forall|j: int| i <= j < keys.len() ==> #[trigger] self.key_states@[j] == keys[j],
                self.mouse_button_states == old(self).mouse_button_states,
                self.frame_actions == old(self).frame_actions,
                self.active_actions == old(self).active_actions,
                keys == old(self).key_states@,
            decreases keys.len() - i,
        {
            let key = self.key_states[i].0.clone();
            let state = self.key_states[i].1.next_frame();
            self.key_states.set(i, (key, state));
            i = i + 1;
        }
        assert(self.key_states@ =~= advanced_keys(keys));
        let ghost buttons = self.mouse_button_states@;
        let mut k: usize = 0;
        while k < self.mouse_button_states.len()
            invariant
                k <= buttons.len(),
                self.mouse_button_states@.len() == buttons.len(),
                forall|j: int|
                    0 <= j < k ==> #[trigger] self.mouse_button_states@[j] == (
                        buttons[j].0,
                        frame_advanced(buttons[j].1),
                    ),
                forall|j: int|
                    k <= j < buttons.len() ==> #[trigger] self.mouse_button_states@[j] == buttons[j],
                self.key_states@ == advanced_keys(keys),
                self.frame_actions == old(self).frame_actions,
                self.active_actions == old(self).active_actions,
                keys == old(self).key_states@,
                buttons == old(self).mouse_button_states@,
            decreases buttons.len() - k,
        {
            let entry = self.mouse_button_states[k];
            self.mouse_button_states.set(k, (entry.0, entry.1.next_frame()));
            k = k + 1;
        }
        assert(self.mouse_button_states@ =~= advanced_mouse(buttons));
    }

    /// Rebuilds the continuous actions: a hold for every key that is down,
    /// then for every mouse button that is down, in the order they were first seen.
    pub fn update_active_actions(&mut self)
        ensures
            final(self).spec_active_actions() == key_holds(old(self).spec_keys()) + mouse_holds(
                old(self).spec_mouse(),
            ),
            final(self).spec_model() == old(self).spec_model(),
    {
        self.active_actions.clear();
        let ghost keys = self.key_states@;
        let ghost buttons = self.mouse_button_states@;
        let mut i: usize = 0;
        while i < self.key_states.len()
            invariant
                i <= keys.len(),
                keys == self.key_states@,
                buttons == self.mouse_button_states@,
                self.key_states == old(self).key_states,
                self.mouse_button_states == old(self).mouse_button_states,
                self.frame_actions == old(self).frame_actions,
                actions_view(self.active_actions@) == key_holds(keys.take(i as int)),
            decreases keys.len() - i,
        {
            let ghost prev = self.active_actions@;
            proof {
                assert(keys.take(i + 1).drop_last() =~= keys.take(i as int));
                assert(keys.take(i + 1).last() == keys[i as int]);
            }
            if self.key_states[i].1.is_down() {
                let name = self.key_states[i].0.to_string();
                let action = make_action(ActionKind::Hold, name);
                self.active_actions.push(action);
                proof {
                    assert(actions_view(self.active_actions@) =~= actions_view(prev).push(
                        action_view(action),
                    ));
                }
            }
            i = i + 1;
        }
        assert(keys.take(keys.len() as int) =~= keys);
        let ghost key_part = actions_view(self.active_actions@);
        let mut k: usize = 0;
        while k < self.mouse_button_states.len()
            invariant
                k <= buttons.len(),
                keys == self.key_states@,
                buttons == self.mouse_button_states@,
                self.key_states == old(self).key_states,
                self.mouse_button_states == old(self).mouse_button_states,
                self.frame_actions == old(self).frame_actions,
                key_part == key_holds(keys),
                actions_view(self.active_actions@) == key_part + mouse_holds(buttons.take(k as int)),
            decreases buttons.len() - k,
        {
            let ghost prev = self.active_actions@;
            proof {
                assert(buttons.take(k + 1).drop_last() =~= buttons.take(k as int));
                assert(buttons.take(k + 1).last() == buttons[k as int]);
            }
            let entry = self.mouse_button_states[k];
            if entry.1.is_down() {
                let action = make_action(ActionKind::Hold, mouse_name(entry.0));
                self.active_actions.push(action);
                proof {
                    assert(actions_view(self.active_actions@) =~= actions_view(prev).push(
                        action_view(action),
                    ));
                }
            }
            k = k + 1;
        }
        assert(buttons.take(buttons.len() as int) =~= buttons);
    }

    /// Runs one frame of button input: the frame actions are cleared, the
    /// states move on to the new frame, the events are handled in order and
    /// the continuous actions are rebuilt.
    pub fn update_from_events(&mut self, events: &[ButtonEvent])
        ensures
            ({
                let start = (
                    advanced_keys(old(self).spec_keys()),
                    advanced_mouse(old(self).spec_mouse()),
                    Seq::<ActionView>::empty(),
                );
                let end = apply_events(start, events@);
                &&& final(self).spec_model() == end
                &&& final(self).spec_active_actions() == key_holds(end.0) + mouse_holds(end.1)
            }),
    {
        self.frame_actions.clear();
        proof {
            assert(actions_view(self.frame_actions@) =~= Seq::<ActionView>::empty());
        }
        self.update_button_states();
        let ghost start = self.spec_model();
        let mut i: usize = 0;
        while i < events.len()
            invariant
                i <= events@.len(),
                self.spec_model() == apply_events(start, events@.take(i as int)),
            decreases events@.len() - i,
        {
            proof {
                assert(events@.take(i + 1).drop_last() =~= events@.take(i as int));
                assert(events@.take(i + 1).last() == events@[i as int]);
            }
            self.process_event(&events[i]);
            i = i + 1;
        }
        assert(events@.take(events@.len() as int) =~= events@);
        self.update_active_actions();
    }

    /// Forgets all recorded states and actions.
    pub fn clear(&mut self)
        ensures
            final(self).spec_keys() == Seq::<(Key, ButtonState)>::empty(),
            final(self).spec_mouse() == Seq::<(MouseButton, ButtonState)>::empty(),
            final(self).spec_frame_actions() == Seq::<ActionView>::empty(),
            final(self).spec_active_actions() == Seq::<ActionView>::empty(),
    {
        self.key_states.clear();
        self.mouse_button_states.clear();
        self.frame_actions.clear();
        self.active_actions.clear();
        proof {
            assert(actions_view(self.frame_actions@) =~= Seq::<ActionView>::empty());
            assert(actions_view(self.active_actions@) =~= Seq::<ActionView>::empty());
        }
    }
}

} // verus!
