//! Layouts: which keyboard key (and modifier) each MIDI note is played with.
use vstd::prelude::*;
use vstd::string::*;

verus! {

/// A scheme assigning keyboard keys to a contiguous range of MIDI notes.
#[derive(Clone, Copy, Debug, PartialEq, Eq, Structural)]
pub enum Layout {
    /// Letters and digits only, notes 48 to 82.
    OnlinePiano,
    /// Letters and digits, with Shift for the accidentals, notes 36 to 96.
    FullOnlinePiano,
    /// The keys of `FullOnlinePiano`, with modifiers sent as low-level key events.
    GameLayout,
    /// `GameLayout` extended with Control chords below and above, notes 21 to 108.
    FullGameLayout,
}

/// A modifier held while a key is pressed.
#[derive(Clone, Copy, Debug, PartialEq, Eq, Structural)]
pub enum ModKeys {
    Shift,
    Control,
}

/// Press `key`, optionally with `modifier` held.
#[derive(Clone, Copy, Debug, PartialEq, Eq, Structural)]
pub struct KeyBinding {
    pub modifier: Option<ModKeys>,
    pub key: char,
}

/// Why a note could not be resolved to a key.
#[derive(Clone, Copy, Debug, PartialEq, Eq, Structural)]
pub enum LookupFailure {
    /// The layout's table has no key for the (transposed) note; holds the note asked for.
    NoBinding(u8),
    /// The layout is not one that has a table.
    UnsupportedLayout,
}

/// Keys of `OnlinePiano`, one per note from 48 to 82.
pub const ONLINE_PIANO_KEYS: &'static str = "q2w3er5t6y7ui9o0pzsxdcfvbhnjm,l.;/'";

/// Keys of `FullOnlinePiano` and `GameLayout`, one per note from 36 to 96;
/// an accidental shares the key of the natural just below it.
pub const SHIFT_PIANO_KEYS: &'static str =
    "11223445566788990qqwweerttyyuiiooppassddfgghhjjkllzzxccvvbbnm";

/// Control-chord keys of `FullGameLayout` below the shifted range, notes 21 to 35.
pub const LOW_CONTROL_KEYS: &'static str = "1234567890qwert";

/// Control-chord keys of `FullGameLayout` above the shifted range, notes 97 to 108.
pub const HIGH_CONTROL_KEYS: &'static str = "vuiopasdfghj";

pub open spec fn layout_min(layout: Layout) -> u8 {
    match layout {
        Layout::OnlinePiano => 48,
        Layout::FullOnlinePiano | Layout::GameLayout => 36,
        Layout::FullGameLayout => 21,
    }
}

pub open spec fn layout_max(layout: Layout) -> u8 {
    match layout {
        Layout::OnlinePiano => 82,
        Layout::FullOnlinePiano | Layout::GameLayout => 96,
        Layout::FullGameLayout => 108,
    }
}

/// The number of whole octaves, in semitones, needed to cover a gap of `d`:
/// `ceil(d / 12) * 12`.
pub open spec fn octaves_covering(d: int) -> int {
    (d + 11) / 12 * 12
}

/// `note` moved by the fewest whole octaves that bring it into `[min, max]`
/// from the side it lies outside of; unchanged when already within.
pub open spec fn transposed(note: int, min: int, max: int) -> int {
    if note < min {
        note + octaves_covering(min - note)
    } else if note > max {
        note - octaves_covering(note - max)
    } else {
        note
    }
}

/// The note that `layout` actually looks up for `note`.
pub open spec fn layout_note(note: u8, layout: Layout) -> int {
    transposed(note as int, layout_min(layout) as int, layout_max(layout) as int)
}

/// Black keys of the piano: C#, D#, F#, G#, A#.
pub open spec fn is_accidental(note: int) -> bool {
    let p = note % 12;
    p == 1 || p == 3 || p == 6 || p == 8 || p == 10
}

pub open spec fn shift_piano_binding(note: int) -> Option<KeyBinding> {
    if 36 <= note <= 96 {
        Some(
            KeyBinding {
                modifier: if is_accidental(note) {
                    Some(ModKeys::Shift)
                } else {
                    None
                },
                key: SHIFT_PIANO_KEYS@[note - 36],
            },
        )
    } else {
        None
    }
}

/// The fixed note table of `layout`, before any transposition.
pub open spec fn table_binding(layout: Layout, note: int) -> Option<KeyBinding> {
    match layout {
        Layout::OnlinePiano => if 48 <= note <= 82 {
            Some(KeyBinding { modifier: None, key: ONLINE_PIANO_KEYS@[note - 48] })
        } else {
            None
        },
        Layout::FullOnlinePiano | Layout::GameLayout => shift_piano_binding(note),
        Layout::FullGameLayout => if 21 <= note <= 35 {
            Some(KeyBinding { modifier: Some(ModKeys::Control), key: LOW_CONTROL_KEYS@[note - 21] })
        } else if 97 <= note <= 108 {
            Some(
                KeyBinding { modifier: Some(ModKeys::Control), key: HIGH_CONTROL_KEYS@[note - 97] },
            )
        } else {
            shift_piano_binding(note)
        },
    }
}

/// The binding that `layout` gives to `note`, after transposition.
pub open spec fn binding_of(note: u8, layout: Layout) -> Option<KeyBinding> {
    table_binding(layout, layout_note(note, layout))
}

pub proof fn lemma_key_table_lengths()
    ensures
        ONLINE_PIANO_KEYS@.len() == 35,
        SHIFT_PIANO_KEYS@.len() == 61,
        LOW_CONTROL_KEYS@.len() == 15,
        HIGH_CONTROL_KEYS@.len() == 12,
{
    reveal_strlit("q2w3er5t6y7ui9o0pzsxdcfvbhnjm,l.;/'");
    reveal_strlit("11223445566788990qqwweerttyyuiiooppassddfgghhjjkllzzxccvvbbnm");
    reveal_strlit("1234567890qwert");
    reveal_strlit("vuiopasdfghj");
}

/// Transposition lands in `[min, max]` whenever that range spans at least an octave,
/// and moves the note by whole octaves only.
pub proof fn lemma_transposed_in_range(note: int, min: int, max: int)
    requires
        min + 11 <= max,
    ensures
        min <= transposed(note, min, max) <= max,
        (transposed(note, min, max) - note) % 12 == 0,
{
}

/// Transposing a note that is already within `[min, max]` leaves it unchanged,
/// so transposing twice is the same as transposing once.
pub proof fn lemma_transpose_idempotent(note: int, min: int, max: int)
    requires
        min + 11 <= max,
    ensures
        min <= note <= max ==> transposed(note, min, max) == note,
        transposed(transposed(note, min, max), min, max) == transposed(note, min, max),
{
    lemma_transposed_in_range(note, min, max);
}

/// Every note resolves: after transposition it lies within the layout's range,
/// and the layout's table has a key for it.
pub proof fn lemma_every_note_resolves(note: u8, layout: Layout)
    ensures
        layout_min(layout) <= layout_note(note, layout) <= layout_max(layout),
        binding_of(note, layout) is Some,
{
    lemma_transposed_in_range(note as int, layout_min(layout) as int, layout_max(layout) as int);
    lemma_key_table_lengths();
}

/// The distinct key characters that `layout` uses.
pub open spec fn layout_keys(layout: Layout) -> Set<char> {
    match layout {
        Layout::OnlinePiano => ONLINE_PIANO_KEYS@.to_set(),
        Layout::FullOnlinePiano | Layout::GameLayout => SHIFT_PIANO_KEYS@.to_set(),
        Layout::FullGameLayout => SHIFT_PIANO_KEYS@.to_set().union(LOW_CONTROL_KEYS@.to_set()).union(
            HIGH_CONTROL_KEYS@.to_set(),
        ),
    }
}

/// A layout uses finitely many keys, and every note it resolves is played on one of them.
pub proof fn lemma_bound_key_in_layout_keys(note: u8, layout: Layout)
    ensures
        layout_keys(layout).finite(),
        binding_of(note, layout) matches Some(b) && layout_keys(layout).contains(b.key),
{
    broadcast use vstd::seq_lib::seq_to_set_is_finite;

    lemma_every_note_resolves(note, layout);
    lemma_key_table_lengths();
    let t = layout_note(note, layout);
    match layout {
        Layout::OnlinePiano => {
            assert(ONLINE_PIANO_KEYS@.contains(ONLINE_PIANO_KEYS@[t - 48]));
        },
        Layout::FullOnlinePiano | Layout::GameLayout => {
            assert(SHIFT_PIANO_KEYS@.contains(SHIFT_PIANO_KEYS@[t - 36]));
        },
        Layout::FullGameLayout => {
            if t <= 35 {
                assert(LOW_CONTROL_KEYS@.contains(LOW_CONTROL_KEYS@[t - 21]));
            } else if t >= 97 {
                assert(HIGH_CONTROL_KEYS@.contains(HIGH_CONTROL_KEYS@[t - 97]));
            } else {
                assert(SHIFT_PIANO_KEYS@.contains(SHIFT_PIANO_KEYS@[t - 36]));
            }
        },
    }
}

/// The key binding of `note_number` under `layout`, transposing it by octaves into range.
pub fn resolve(note_number: u8, layout: &Layout) -> (r: Result<KeyBinding, LookupFailure>)
    ensures
        r == (match binding_of(note_number, *layout) {
            Some(b) => Ok::<KeyBinding, LookupFailure>(b),
            None => Err(LookupFailure::NoBinding(note_number)),
        }),
        r is Ok,
{
    proof {
        lemma_every_note_resolves(note_number, *layout);
    }
    let (min, max) = note_range(layout);
    let note = transpose_octave(&note_number, min, max);
    match table_lookup(layout, note) {
        Some(b) => Ok(b),
        None => Err(LookupFailure::NoBinding(note_number)),
    }
}

/// The key binding of `note_no` under `layout`, if its table has one.
pub fn get_keys(note_no: &u8, layout: &Layout) -> (r: Option<KeyBinding>)
    ensures
        r == binding_of(*note_no, *layout),
{
    match resolve(*note_no, layout) {
        Ok(b) => Some(b),
        Err(_) => None,
    }
}

/// The range `[min, max]` of notes that `layout` has keys for.
pub fn note_range(layout: &Layout) -> (r: (u8, u8))
    ensures
        r.0 == layout_min(*layout),
        r.1 == layout_max(*layout),
{
    match layout {
        Layout::OnlinePiano => (48, 82),
        Layout::FullOnlinePiano | Layout::GameLayout => (36, 96),
        Layout::FullGameLayout => (21, 108),
    }
}

/// Moves `note_no` by whole octaves into `[min, max]`: up by `ceil((min - note_no) / 12)`
/// octaves when below, down by `ceil((note_no - max) / 12)` octaves when above.
pub fn transpose_octave(note_no: &u8, min: u8, max: u8) -> (r: u8)
    requires
        0 <= transposed(*note_no as int, min as int, max as int) <= 255,
    ensures
        r == transposed(*note_no as int, min as int, max as int),
{
    let n = *note_no;
    if n < min {
        let shift: u16 = ((min - n) as u16 + 11) / 12 * 12;
        (n as u16 + shift) as u8
    } else if n > max {
        let shift: u16 = ((n - max) as u16 + 11) / 12 * 12;
        (n as u16 - shift) as u8
    } else {
        n
    }
}

fn shift_piano_lookup(note: u8) -> (r: Option<KeyBinding>)
    ensures
        r == shift_piano_binding(note as int),
{
    proof {
        lemma_key_table_lengths();
    }
    if 36 <= note && note <= 96 {
        let p: u8 = note % 12;
        let modifier = if p == 1 || p == 3 || p == 6 || p == 8 || p == 10 {
            Some(ModKeys::Shift)
        } else {
            None
        };
        Some(KeyBinding { modifier, key: SHIFT_PIANO_KEYS.get_char((note - 36) as usize) })
    } else {
        None
    }
}

/// Looks `note` up in the fixed table of `layout`, without transposing it.
pub fn table_lookup(layout: &Layout, note: u8) -> (r: Option<KeyBinding>)
    ensures
        r == table_binding(*layout, note as int),
{
    proof {
        lemma_key_table_lengths();
    }
    match layout {
        Layout::OnlinePiano => if 48 <= note && note <= 82 {
            Some(KeyBinding { modifier: None, key: ONLINE_PIANO_KEYS.get_char((note - 48) as usize) })
        } else {
            None
        },
        Layout::FullOnlinePiano | Layout::GameLayout => shift_piano_lookup(note),
        Layout::FullGameLayout => if 21 <= note && note <= 35 {
            Some(
                KeyBinding {
                    modifier: Some(ModKeys::Control),
                    key: LOW_CONTROL_KEYS.get_char((note - 21) as usize),
                },
            )
        } else if 97 <= note && note <= 108 {
            Some(
                KeyBinding {
                    modifier: Some(ModKeys::Control),
                    key: HIGH_CONTROL_KEYS.get_char((note - 97) as usize),
                },
            )
        } else {
            shift_piano_lookup(note)
        },
    }
}

/// The layout picked by a menu answer: `1` to `4`, in the order the layouts are declared.
pub open spec fn layout_for_choice(choice: Seq<char>) -> Option<Layout> {
    if choice.len() != 1 {
        None
    } else if choice[0] == '1' {
        Some(Layout::OnlinePiano)
    } else if choice[0] == '2' {
        Some(Layout::FullOnlinePiano)
    } else if choice[0] == '3' {
        Some(Layout::GameLayout)
    } else if choice[0] == '4' {
        Some(Layout::FullGameLayout)
    } else {
        None
    }
}

/// Reads a menu answer (already trimmed) as a layout; any other answer is invalid.
pub fn layout_from_choice(choice: &str) -> (r: Option<Layout>)
    ensures
        r == layout_for_choice(choice@),
{
    if choice.unicode_len() != 1 {
        return None;
    }
    let c = choice.get_char(0);
    if c == '1' {
        Some(Layout::OnlinePiano)
    } else if c == '2' {
        Some(Layout::FullOnlinePiano)
    } else if c == '3' {
        Some(Layout::GameLayout)
    } else if c == '4' {
        Some(Layout::FullGameLayout)
    } else {
        None
    }
}

} // verus!
