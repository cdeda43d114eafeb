use midi_keys::emit::{action_strokes, press_keys, release_key, ModifierRoute, Stroke};
use midi_keys::engine::KeyAction;
use midi_keys::layout::ModKeys::{Control, Shift};
use midi_keys::layout::{KeyBinding, Layout};

#[test]
fn plain_press() {
    let b = KeyBinding { modifier: None, key: 'q' };
    for layout in [Layout::OnlinePiano, Layout::FullOnlinePiano, Layout::GameLayout, Layout::FullGameLayout] {
        assert_eq!(press_keys(&b, &layout), vec![Stroke::KeyDown('q')]);
    }
}

#[test]
fn modifier_routes() {
    let b = KeyBinding { modifier: Some(Control), key: 'w' };
    assert_eq!(press_keys(&b, &Layout::OnlinePiano), vec![Stroke::KeyDown('w')]);
    assert_eq!(
        press_keys(&b, &Layout::FullOnlinePiano),
        vec![
            Stroke::ModifierDown(Shift, ModifierRoute::Simulated),
            Stroke::KeyDown('w'),
            Stroke::ModifierUp(Shift, ModifierRoute::Simulated),
        ]
    );
    assert_eq!(
        press_keys(&b, &Layout::GameLayout),
        vec![
            Stroke::ModifierDown(Shift, ModifierRoute::LowLevel),
            Stroke::KeyDown('w'),
            Stroke::ModifierUp(Shift, ModifierRoute::LowLevel),
        ]
    );
    assert_eq!(
        press_keys(&b, &Layout::FullGameLayout),
        vec![
            Stroke::ModifierDown(Control, ModifierRoute::LowLevel),
            Stroke::KeyDown('w'),
            Stroke::ModifierUp(Control, ModifierRoute::LowLevel),
        ]
    );
}

#[test]
fn actions_to_strokes() {
    assert_eq!(release_key('x'), Stroke::KeyUp('x'));
    assert_eq!(action_strokes(&KeyAction::KeyUp('x'), &Layout::GameLayout), vec![Stroke::KeyUp('x')]);
    assert_eq!(
        action_strokes(&KeyAction::KeyDown('s', Some(Shift)), &Layout::FullGameLayout),
        vec![
            Stroke::ModifierDown(Shift, ModifierRoute::LowLevel),
            Stroke::KeyDown('s'),
            Stroke::ModifierUp(Shift, ModifierRoute::LowLevel),
        ]
    );
}
