//! How a key action is carried out on the keyboard, for each layout.
use vstd::prelude::*;
use crate::engine::KeyAction;
use crate::layout::{KeyBinding, Layout, ModKeys};

verus! {

/// How a modifier is sent: through the keyboard simulator, or as low-level key
/// events, which games pick up where they ignore simulated modifiers.
#[derive(Clone, Copy, Debug, PartialEq, Eq, Structural)]
pub enum ModifierRoute {
    Simulated,
    LowLevel,
}

/// One keyboard operation.
#[derive(Clone, Copy, Debug, PartialEq, Eq, Structural)]
pub enum Stroke {
    ModifierDown(ModKeys, ModifierRoute),
    ModifierUp(ModKeys, ModifierRoute),
    KeyDown(char),
    KeyUp(char),
}

/// The modifier a layout sends for `binding`, and how: `OnlinePiano` sends none,
/// `FullOnlinePiano` simulates Shift, `GameLayout` sends Shift as low-level events,
/// `FullGameLayout` sends the binding's own modifier as low-level events.
pub open spec fn sent_modifier(binding: KeyBinding, layout: Layout) -> Option<(ModKeys, ModifierRoute)> {
    match binding.modifier {
        None => None,
        Some(m) => match layout {
            Layout::OnlinePiano => None,
            Layout::FullOnlinePiano => Some((ModKeys::Shift, ModifierRoute::Simulated)),
            Layout::GameLayout => Some((ModKeys::Shift, ModifierRoute::LowLevel)),
            Layout::FullGameLayout => Some((m, ModifierRoute::LowLevel)),
        },
    }
}

/// Pressing `binding`: the modifier goes down, the key goes down, the modifier goes
/// up again, so that it shapes this press alone.
pub open spec fn press_plan(binding: KeyBinding, layout: Layout) -> Seq<Stroke> {
    match sent_modifier(binding, layout) {
        None => seq![Stroke::KeyDown(binding.key)],
        Some((m, route)) => seq![
            Stroke::ModifierDown(m, route),
            Stroke::KeyDown(binding.key),
            Stroke::ModifierUp(m, route),
        ],
    }
}

pub open spec fn action_plan(action: KeyAction, layout: Layout) -> Seq<Stroke> {
    match action {
        KeyAction::KeyDown(key, modifier) => press_plan(KeyBinding { modifier, key }, layout),
        KeyAction::KeyUp(key) => seq![Stroke::KeyUp(key)],
    }
}

/// The strokes that press `key_presses` under `layout`.
pub fn press_keys(key_presses: &KeyBinding, layout: &Layout) -> (r: Vec<Stroke>)
    ensures
        r@ == press_plan(*key_presses, *layout),
{
    let key = key_presses.key;
    let sent = match key_presses.modifier {
        None => None,
        Some(m) => match layout {
            Layout::OnlinePiano => None,
            Layout::FullOnlinePiano => Some((ModKeys::Shift, ModifierRoute::Simulated)),
            Layout::GameLayout => Some((ModKeys::Shift, ModifierRoute::LowLevel)),
            Layout::FullGameLayout => Some((m, ModifierRoute::LowLevel)),
        },
    };
    match sent {
        None => vec![Stroke::KeyDown(key)],
        Some((m, route)) => vec![
            Stroke::ModifierDown(m, route),
            Stroke::KeyDown(key),
            Stroke::ModifierUp(m, route),
        ],
    }
}

/// The stroke that releases `key`.
pub fn release_key(key: char) -> (r: Stroke)
    ensures
        r == Stroke::KeyUp(key),
{
    Stroke::KeyUp(key)
}

/// The strokes that carry out `action` under `layout`.
pub fn action_strokes(action: &KeyAction, layout: &Layout) -> (r: Vec<Stroke>)
    ensures
        r@ == action_plan(*action, *layout),
{
    match action {
        KeyAction::KeyDown(key, modifier) => press_keys(
            &KeyBinding { modifier: *modifier, key: *key },
            layout,
        ),
        KeyAction::KeyUp(key) => vec![release_key(*key)],
    }
}

} // verus!
