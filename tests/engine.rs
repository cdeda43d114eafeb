use midi_keys::engine::{decode, KeyAction, NoteEvent, TranslationEngine};
use midi_keys::layout::Layout;
use midi_keys::layout::ModKeys::{Control, Shift};

fn play(e: &mut TranslationEngine, ev: NoteEvent) -> Vec<KeyAction> {
    e.handle(ev)
}

#[test]
fn basic_note_on_off() {
    let mut e = TranslationEngine::new(Layout::OnlinePiano);
    assert_eq!(play(&mut e, NoteEvent::NoteOn(60)), vec![KeyAction::KeyDown('i', None)]);
    assert_eq!(play(&mut e, NoteEvent::NoteOff(60)), vec![KeyAction::KeyUp('i')]);
    assert_eq!(e.key_held_by(60), None);
}

#[test]
fn accidentals_share_key_and_collide() {
    let mut e = TranslationEngine::new(Layout::FullOnlinePiano);
    assert_eq!(play(&mut e, NoteEvent::NoteOn(36)), vec![KeyAction::KeyDown('1', None)]);
    // 37 is played on the same key '1', with Shift: the key is released first.
    assert_eq!(
        play(&mut e, NoteEvent::NoteOn(37)),
        vec![KeyAction::KeyUp('1'), KeyAction::KeyDown('1', Some(Shift))]
    );
    assert_eq!(e.key_held_by(36), None);
    assert_eq!(e.key_held_by(37), Some('1'));
}

#[test]
fn octave_collision_releases_first_note() {
    // 48 and 36 resolve to the same key: 36 is transposed up to 48.
    let mut e = TranslationEngine::new(Layout::OnlinePiano);
    assert_eq!(play(&mut e, NoteEvent::NoteOn(48)), vec![KeyAction::KeyDown('q', None)]);
    assert_eq!(
        play(&mut e, NoteEvent::NoteOn(36)),
        vec![KeyAction::KeyUp('q'), KeyAction::KeyDown('q', None)]
    );
    // The first note no longer holds the key: its note-off is stray.
    assert_eq!(play(&mut e, NoteEvent::NoteOff(48)), vec![]);
    assert_eq!(play(&mut e, NoteEvent::NoteOff(36)), vec![KeyAction::KeyUp('q')]);
}

#[test]
fn different_keys_do_not_collide() {
    let mut e = TranslationEngine::new(Layout::OnlinePiano);
    assert_eq!(play(&mut e, NoteEvent::NoteOn(60)), vec![KeyAction::KeyDown('i', None)]);
    assert_eq!(play(&mut e, NoteEvent::NoteOn(62)), vec![KeyAction::KeyDown('o', None)]);
    assert_eq!(e.key_held_by(60), Some('i'));
    assert_eq!(e.key_held_by(62), Some('o'));
}

#[test]
fn sustain_retrigger_and_release() {
    let mut e = TranslationEngine::new(Layout::OnlinePiano);
    assert_eq!(play(&mut e, NoteEvent::NoteOn(60)), vec![KeyAction::KeyDown('i', None)]);
    assert_eq!(play(&mut e, NoteEvent::PedalChange(true)), vec![]);
    assert!(e.is_pedal_down());
    assert_eq!(play(&mut e, NoteEvent::NoteOff(60)), vec![]);
    assert_eq!(e.key_held_by(60), Some('i'));
    assert_eq!(
        play(&mut e, NoteEvent::NoteOn(60)),
        vec![KeyAction::KeyUp('i'), KeyAction::KeyDown('i', None)]
    );
    assert_eq!(play(&mut e, NoteEvent::NoteOff(60)), vec![]);
    assert_eq!(play(&mut e, NoteEvent::PedalChange(false)), vec![KeyAction::KeyUp('i')]);
    assert!(!e.is_pedal_down());
    assert_eq!(e.key_held_by(60), None);
}

#[test]
fn pedal_up_releases_each_sustained_key_once() {
    let mut e = TranslationEngine::new(Layout::OnlinePiano);
    play(&mut e, NoteEvent::PedalChange(true));
    for n in [60u8, 62, 64] {
        play(&mut e, NoteEvent::NoteOn(n));
        assert_eq!(play(&mut e, NoteEvent::NoteOff(n)), vec![]);
    }
    let mut ups = play(&mut e, NoteEvent::PedalChange(false));
    ups.sort_by_key(|a| match a {
        KeyAction::KeyUp(c) => *c,
        KeyAction::KeyDown(c, _) => *c,
    });
    assert_eq!(ups, vec![KeyAction::KeyUp('i'), KeyAction::KeyUp('o'), KeyAction::KeyUp('p')]);
    assert_eq!(play(&mut e, NoteEvent::PedalChange(false)), vec![]);
}

#[test]
fn held_note_survives_pedal_release() {
    let mut e = TranslationEngine::new(Layout::OnlinePiano);
    play(&mut e, NoteEvent::PedalChange(true));
    play(&mut e, NoteEvent::NoteOn(60));
    assert_eq!(play(&mut e, NoteEvent::PedalChange(false)), vec![]);
    assert_eq!(e.key_held_by(60), Some('i'));
    assert_eq!(play(&mut e, NoteEvent::NoteOff(60)), vec![KeyAction::KeyUp('i')]);
}

#[test]
fn pedal_down_twice_is_no_op() {
    let mut e = TranslationEngine::new(Layout::OnlinePiano);
    assert_eq!(play(&mut e, NoteEvent::PedalChange(true)), vec![]);
    play(&mut e, NoteEvent::NoteOn(60));
    play(&mut e, NoteEvent::NoteOff(60));
    assert_eq!(play(&mut e, NoteEvent::PedalChange(true)), vec![]);
    assert_eq!(e.key_held_by(60), Some('i'));
}

#[test]
fn stray_note_off_is_ignored() {
    let mut e = TranslationEngine::new(Layout::GameLayout);
    assert_eq!(play(&mut e, NoteEvent::NoteOff(60)), vec![]);
    assert_eq!(e.key_held_by(60), None);
}

#[test]
fn high_note_transposed_down() {
    let mut e = TranslationEngine::new(Layout::FullOnlinePiano);
    // 110 is above 96: two octaves down to 86, which is 'z'.
    assert_eq!(play(&mut e, NoteEvent::NoteOn(110)), vec![KeyAction::KeyDown('z', None)]);
    assert_eq!(e.key_held_by(110), Some('z'));
}

#[test]
fn full_game_control_keys() {
    let mut e = TranslationEngine::new(Layout::FullGameLayout);
    assert_eq!(play(&mut e, NoteEvent::NoteOn(21)), vec![KeyAction::KeyDown('1', Some(Control))]);
    assert_eq!(play(&mut e, NoteEvent::NoteOn(108)), vec![KeyAction::KeyDown('j', Some(Control))]);
    assert_eq!(e.layout_of(), Layout::FullGameLayout);
}

#[test]
fn outstanding_keys_never_repeat() {
    let mut e = TranslationEngine::new(Layout::OnlinePiano);
    let mut down: Vec<char> = Vec::new();
    for n in 0u8..=127 {
        for a in play(&mut e, NoteEvent::NoteOn(n)) {
            match a {
                KeyAction::KeyDown(c, _) => {
                    assert!(!down.contains(&c));
                    down.push(c);
                }
                KeyAction::KeyUp(c) => down.retain(|d| *d != c),
            }
        }
    }
    assert!(down.len() <= 35);
    for n in 0u8..=127 {
        for a in play(&mut e, NoteEvent::NoteOff(n)) {
            match a {
                KeyAction::KeyUp(c) => {
                    assert!(down.contains(&c));
                    down.retain(|d| *d != c);
                }
                KeyAction::KeyDown(..) => panic!("note-off pressed a key"),
            }
        }
    }
    assert!(down.is_empty());
}

#[test]
fn decode_messages() {
    assert_eq!(decode(0x90, 60, 100), Some(NoteEvent::NoteOn(60)));
    assert_eq!(decode(0x80, 60, 0), Some(NoteEvent::NoteOff(60)));
    assert_eq!(decode(0xB0, 64, 127), Some(NoteEvent::PedalChange(true)));
    assert_eq!(decode(0xB0, 64, 126), Some(NoteEvent::PedalChange(false)));
    assert_eq!(decode(0xB0, 7, 127), None);
    assert_eq!(decode(0xE0, 0, 0), None);
}

#[test]
fn handle_message_dispatches() {
    let mut e = TranslationEngine::new(Layout::OnlinePiano);
    assert_eq!(e.handle_message(0x90, 60, 90), vec![KeyAction::KeyDown('i', None)]);
    assert_eq!(e.handle_message(0xB0, 64, 127), vec![]);
    assert_eq!(e.handle_message(0x80, 60, 0), vec![]);
    assert_eq!(e.handle_message(0xC0, 1, 0), vec![]);
    assert_eq!(e.handle_message(0xB0, 64, 0), vec![KeyAction::KeyUp('i')]);
}
