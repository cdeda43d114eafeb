//! The translation engine: turns note and pedal events into key presses and releases.
use vstd::prelude::*;
use crate::layout::{binding_of, layout_keys, lemma_bound_key_in_layout_keys, resolve, KeyBinding, Layout, ModKeys};
use crate::note_map::{key_of_note, new_note_map, note_keys, note_of_key, pairs, remove_note, insert_pair, without_note_or_key, NoteMap};

verus! {

/// Status byte of a note-on message.
pub const NOTE_ON_STATUS: u8 = 0x90;

/// Status byte of a note-off message.
pub const NOTE_OFF_STATUS: u8 = 0x80;

/// Status byte of a control-change message.
pub const CONTROL_CHANGE_STATUS: u8 = 0xB0;

/// Controller number of the sustain pedal.
pub const SUSTAIN_CONTROLLER: u8 = 64;

/// Pedal position from which the sustain pedal counts as down.
pub const SUSTAIN_THRESHOLD: u8 = 127;

/// A decoded MIDI event.
#[derive(Clone, Copy, Debug, PartialEq, Eq, Structural)]
pub enum NoteEvent {
    NoteOn(u8),
    NoteOff(u8),
    /// The sustain pedal is now down (`true`) or up (`false`).
    PedalChange(bool),
}

/// A logical key instruction for the key emitter.
#[derive(Clone, Copy, Debug, PartialEq, Eq, Structural)]
pub enum KeyAction {
    /// Press the key, with the modifier held for the press.
    KeyDown(char, Option<ModKeys>),
    KeyUp(char),
}

/// The state of a session: which notes hold their key down, which are kept down by
/// the sustain pedal, and whether the pedal is down.
pub struct TranslationEngine {
    layout: Layout,
    pressed: NoteMap,
    sustained: NoteMap,
    sustain_down: bool,
}

/// `actions` releases each key of `m` exactly once, and does nothing else.
pub open spec fn releases_each_once(actions: Seq<KeyAction>, m: Map<u8, char>) -> bool {
    &&& actions.no_duplicates()
    &&& forall|i: int|
        0 <= i < actions.len() ==> #[trigger] actions[i] is KeyUp && m.values().contains(
            actions[i]->KeyUp_0,
        )
    &&& forall|n: u8| #[trigger]
        m.dom().contains(n) ==> actions.contains(KeyAction::KeyUp(m[n]))
}

/// The key binding of `note` under `layout`; every note has one.
pub open spec fn bound_key(note: u8, layout: Layout) -> KeyBinding {
    binding_of(note, layout)->Some_0
}

/// The release of `key`. Built by a call of its own: pushed from the loop of `key_ups`
/// as an inline constructor, the vector's new length was not derived.
fn key_up(key: char) -> (r: KeyAction)
    ensures
        r == KeyAction::KeyUp(key),
{
    KeyAction::KeyUp(key)
}

/// A key release for each key of `notes`, in the same order.
fn key_ups(notes: &Vec<(u8, char)>) -> (r: Vec<KeyAction>)
    ensures
        r@.len() == notes@.len(),
        forall|j: int| 0 <= j < notes@.len() ==> r@[j] == KeyAction::KeyUp(#[trigger] notes@[j].1),
{
    let mut ups: Vec<KeyAction> = Vec::new();
    let mut i: usize = 0;
    while i < notes.len()
        invariant
            0 <= i <= notes@.len(),
            ups@.len() == i,
            forall|j: int| 0 <= j < i ==> ups@[j] == KeyAction::KeyUp(#[trigger] notes@[j].1),
        decreases notes@.len() - i,
    {
        ups.push(key_up(notes[i].1));
        i += 1;
    }
    ups
}

/// `post` and `actions` are what applying `event` to `pre` gives.
pub open spec fn handles(
    pre: TranslationEngine,
    post: TranslationEngine,
    event: NoteEvent,
    actions: Seq<KeyAction>,
) -> bool {
    &&& post.layout() == pre.layout()
    &&& match event {
        NoteEvent::NoteOn(n) => {
            let b = bound_key(n, pre.layout());
            &&& post.pedal_down() == pre.pedal_down()
            &&& post.held() == without_note_or_key(pre.held(), n, b.key).insert(n, b.key)
            &&& post.sustained() == without_note_or_key(pre.sustained(), n, b.key)
            &&& actions == (if pre.key_is_down(b.key) {
                seq![KeyAction::KeyUp(b.key), KeyAction::KeyDown(b.key, b.modifier)]
            } else {
                seq![KeyAction::KeyDown(b.key, b.modifier)]
            })
        },
        NoteEvent::NoteOff(n) => {
            &&& post.pedal_down() == pre.pedal_down()
            &&& post.held() == pre.held().remove(n)
            &&& post.sustained() == (if pre.pedal_down() && pre.held().dom().contains(n) {
                pre.sustained().insert(n, pre.held()[n])
            } else {
                pre.sustained()
            })
            &&& actions == (if !pre.pedal_down() && pre.held().dom().contains(n) {
                seq![KeyAction::KeyUp(pre.held()[n])]
            } else {
                Seq::<KeyAction>::empty()
            })
        },
        NoteEvent::PedalChange(down) => {
            &&& post.pedal_down() == down
            &&& post.held() == pre.held()
            &&& down ==> post.sustained() == pre.sustained() && actions.len() == 0
            &&& !down ==> post.sustained().dom() == Set::<u8>::empty()
            &&& !down ==> releases_each_once(actions, pre.sustained())
        },
    }
}

/// The event that a MIDI message `(status, data1, data2)` carries, if it is a note-on,
/// a note-off or a sustain-pedal change; the pedal counts as down from `SUSTAIN_THRESHOLD` on.
pub open spec fn decoded(status: u8, data1: u8, data2: u8) -> Option<NoteEvent> {
    if status == NOTE_ON_STATUS {
        Some(NoteEvent::NoteOn(data1))
    } else if status == NOTE_OFF_STATUS {
        Some(NoteEvent::NoteOff(data1))
    } else if status == CONTROL_CHANGE_STATUS && data1 == SUSTAIN_CONTROLLER {
        Some(NoteEvent::PedalChange(data2 >= SUSTAIN_THRESHOLD))
    } else {
        None
    }
}

/// Decodes a MIDI message into the event it carries.
pub fn decode(status: u8, data1: u8, data2: u8) -> (r: Option<NoteEvent>)
    ensures
        r == decoded(status, data1, data2),
{
    if status == NOTE_ON_STATUS {
        Some(NoteEvent::NoteOn(data1))
    } else if status == NOTE_OFF_STATUS {
        Some(NoteEvent::NoteOff(data1))
    } else if status == CONTROL_CHANGE_STATUS && data1 == SUSTAIN_CONTROLLER {
        Some(NoteEvent::PedalChange(data2 >= SUSTAIN_THRESHOLD))
    } else {
        None
    }
}

/// At every step of a session the keys that are down are keys of the layout, each
/// down for one note only: so no more keys are down than the layout has distinct keys.
pub proof fn lemma_keys_down_within_layout(e: TranslationEngine)
    requires
        e.wf(),
    ensures
        e.asserted().values().subset_of(layout_keys(e.layout())),
        e.asserted().is_injective(),
        e.asserted().dom().finite(),
        e.asserted().dom().len() == e.asserted().values().len(),
        e.asserted().dom().len() <= layout_keys(e.layout()).len(),
{
    let m = e.asserted();
    assert(m.dom() =~= e.sustained().dom().union(e.held().dom()));
    assert forall|c: char| #[trigger] m.values().contains(c) implies layout_keys(
        e.layout(),
    ).contains(c) by {
        let n = choose|n: u8| m.dom().contains(n) && m[n] == c;
        lemma_bound_key_in_layout_keys(n, e.layout());
    }
    lemma_bound_key_in_layout_keys(0, e.layout());
    m.lemma_injective_values_len();
    vstd::set_lib::lemma_len_subset(m.values(), layout_keys(e.layout()));
}

/// Two notes that share a key: while one holds it down, the key counts as down for the
/// other, so playing the other releases it before pressing it again; and the key is
/// never down for both notes at once.
pub proof fn lemma_shared_key_collides(e: TranslationEngine, first: u8, second: u8)
    requires
        e.wf(),
        first != second,
        bound_key(first, e.layout()).key == bound_key(second, e.layout()).key,
        e.asserted().dom().contains(first),
    ensures
        e.key_is_down(bound_key(second, e.layout()).key),
        !e.asserted().dom().contains(second),
{
    assert(e.asserted()[first] == bound_key(second, e.layout()).key);
    if e.asserted().dom().contains(second) {
        assert(e.asserted()[second] == e.asserted()[first]);
    }
}

/// Playing a note again while it is sustained re-triggers it: its key counts as down,
/// so the sustained press is released before the key is pressed again.
pub proof fn lemma_sustained_note_retriggers(e: TranslationEngine, note: u8)
    requires
        e.wf(),
        e.sustained().dom().contains(note),
    ensures
        e.key_is_down(bound_key(note, e.layout()).key),
{
    assert(e.asserted().dom().contains(note));
}

impl TranslationEngine {
    pub closed spec fn layout(&self) -> Layout {
        self.layout
    }

    /// Notes whose key is down because the note is held.
    pub closed spec fn held(&self) -> Map<u8, char> {
        note_keys(self.pressed)
    }

    /// Notes released while the pedal was down, whose key is still down.
    pub closed spec fn sustained(&self) -> Map<u8, char> {
        note_keys(self.sustained)
    }

    pub closed spec fn pedal_down(&self) -> bool {
        self.sustain_down
    }

    /// Every note whose key is down, with its key.
    pub open spec fn asserted(&self) -> Map<u8, char> {
        self.sustained().union_prefer_right(self.held())
    }

    pub open spec fn key_is_down(&self, key: char) -> bool {
        exists|n: u8| self.asserted().dom().contains(n) && #[trigger] self.asserted()[n] == key
    }

    /// A note is held or sustained, not both; no key is down twice; nothing is
    /// sustained while the pedal is up; each note holds the key its layout gives it.
    pub open spec fn wf(&self) -> bool {
        &&& self.held().dom().disjoint(self.sustained().dom())
        &&& self.held().dom().finite()
        &&& self.sustained().dom().finite()
        &&& self.asserted().is_injective()
        &&& !self.pedal_down() ==> self.sustained().dom() == Set::<u8>::empty()
        &&& forall|n: u8| #[trigger]
            self.asserted().dom().contains(n) ==> self.asserted()[n] == bound_key(
                n,
                self.layout(),
            ).key
    }

    /// A session on `layout` with no key down and the pedal up.
    pub fn new(layout: Layout) -> (r: Self)
        ensures
            r.wf(),
            r.layout() == layout,
            r.held().dom() == Set::<u8>::empty(),
            r.sustained().dom() == Set::<u8>::empty(),
            !r.pedal_down(),
    {
        TranslationEngine {
            layout,
            pressed: new_note_map(),
            sustained: new_note_map(),
            sustain_down: false,
        }
    }

    pub fn layout_of(&self) -> (r: Layout)
        ensures
            r == self.layout(),
    {
        self.layout
    }

    pub fn is_pedal_down(&self) -> (r: bool)
        ensures
            r == self.pedal_down(),
    {
        self.sustain_down
    }

    /// The key that `note` holds down, if any, held or sustained.
    pub fn key_held_by(&self, note: u8) -> (r: Option<char>)
        requires
            self.wf(),
        ensures
            r == (if self.asserted().dom().contains(note) {
                Some(self.asserted()[note])
            } else {
                None
            }),
    {
        match key_of_note(&self.pressed, note) {
            Some(k) => Some(k),
            None => key_of_note(&self.sustained, note),
        }
    }
    /// The note is released. With the pedal up its key goes up; with the pedal down
    /// the note moves to the sustained notes and its key stays down. A note that
    /// holds no key is ignored.
    pub fn note_off(&mut self, note: u8) -> (actions: Vec<KeyAction>)
        requires
            old(self).wf(),
        ensures
            final(self).wf(),
            handles(*old(self), *final(self), NoteEvent::NoteOff(note), actions@),
    {
        let ghost pre = *self;
        let mut out: Vec<KeyAction> = Vec::new();
        match remove_note(&mut self.pressed, note) {
            Some((_, key)) => {
                if self.sustain_down {
                    proof {
                        assert forall|n: u8| pre.sustained().dom().contains(n) implies n != note
                            && pre.sustained()[n] != key by {
                            assert(pre.asserted()[n] == pre.sustained()[n]);
                            assert(pre.asserted()[note] == key);
                        }
                        assert(without_note_or_key(pre.sustained(), note, key) =~= pre.sustained());
                    }
                    insert_pair(&mut self.sustained, note, key);
                    proof {
                        assert(self.asserted() =~= pre.asserted());
                    }
                } else {
                    out.push(KeyAction::KeyUp(key));
                    proof {
                        assert(self.asserted() =~= pre.asserted().remove(note));
                    }
                }
            },
            None => {
                proof {
                    assert(self.held() =~= pre.held());
                }
            },
        }
        out
    }
    /// The note is played. If its key is already down, for whichever note, held or
    /// sustained, that occurrence is released first; then the key is pressed and the
    /// note is held.
    pub fn note_on(&mut self, note: u8) -> (actions: Vec<KeyAction>)
        requires
            old(self).wf(),
        ensures
            final(self).wf(),
            handles(*old(self), *final(self), NoteEvent::NoteOn(note), actions@),
    {
        let ghost pre = *self;
        let b = match resolve(note, &self.layout) {
            Ok(b) => b,
            Err(_) => {
                return Vec::new();
            },
        };
        let ghost k = b.key;
        assert(b == bound_key(note, pre.layout()));
        proof {
            // `note` can only hold its own key, so removing the owner of that key
            // also takes `note` out.
            assert(pre.asserted().dom().contains(note) ==> pre.asserted()[note] == k);
        }
        let mut out: Vec<KeyAction> = Vec::new();
        match note_of_key(&self.pressed, b.key) {
            Some(owner) => {
                remove_note(&mut self.pressed, owner);
                out.push(KeyAction::KeyUp(b.key));
                proof {
                    assert(pre.asserted()[owner] == k);
                    assert(pre.key_is_down(k));
                    assert forall|n: u8| pre.sustained().dom().contains(n) implies n != note
                        && pre.sustained()[n] != k by {
                        assert(pre.asserted()[n] == pre.sustained()[n]);
                    }
                    assert(without_note_or_key(pre.sustained(), note, k) =~= pre.sustained());
                    assert forall|n: u8|
                        pre.held().dom().contains(n) && n != owner implies n != note
                        && pre.held()[n] != k by {
                        assert(pre.asserted()[n] == pre.held()[n]);
                    }
                    assert(without_note_or_key(pre.held(), note, k) =~= pre.held().remove(owner));
                }
            },
            None => {
                match note_of_key(&self.sustained, b.key) {
                    Some(owner) => {
                        remove_note(&mut self.sustained, owner);
                        out.push(KeyAction::KeyUp(b.key));
                        proof {
                            assert(pre.asserted()[owner] == k);
                            assert(pre.key_is_down(k));
                            assert forall|n: u8| pre.held().dom().contains(n) implies n != note
                                && pre.held()[n] != k by {
                                assert(pre.asserted()[n] == pre.held()[n]);
                            }
                            assert(without_note_or_key(pre.held(), note, k) =~= pre.held());
                            assert forall|n: u8|
                                pre.sustained().dom().contains(n) && n != owner implies n != note
                                && pre.sustained()[n] != k by {
                                assert(pre.asserted()[n] == pre.sustained()[n]);
                                assert(pre.asserted()[owner] == pre.sustained()[owner]);
                            }
                            assert(without_note_or_key(pre.sustained(), note, k)
                                =~= pre.sustained().remove(owner));
                        }
                    },
                    None => {
                        proof {
                            assert(!pre.key_is_down(k));
                            assert(without_note_or_key(pre.held(), note, k) =~= pre.held());
                            assert(without_note_or_key(pre.sustained(), note, k)
                                =~= pre.sustained());
                        }
                    },
                }
            },
        }
        let ghost mid = *self;
        proof {
            assert forall|n: u8| mid.asserted().dom().contains(n) implies n != note
                && mid.asserted()[n] != k by {
                assert(pre.asserted().dom().contains(n));
                assert(mid.asserted()[n] == pre.asserted()[n]);
            }
            assert forall|x: u8, y: u8|
                x != y && mid.asserted().dom().contains(x) && mid.asserted().dom().contains(
                    y,
                ) implies #[trigger] mid.asserted()[x] != #[trigger] mid.asserted()[y] by {
                assert(mid.asserted()[x] == pre.asserted()[x]);
                assert(mid.asserted()[y] == pre.asserted()[y]);
            }
        }
        insert_pair(&mut self.pressed, note, b.key);
        out.push(KeyAction::KeyDown(b.key, b.modifier));
        proof {
            assert(without_note_or_key(mid.held(), note, k) =~= mid.held());
            assert(self.held() =~= without_note_or_key(pre.held(), note, k).insert(note, k));
            assert(self.sustained() =~= without_note_or_key(pre.sustained(), note, k));
            assert(self.asserted() =~= mid.asserted().insert(note, k));
            assert(self.asserted().is_injective());
            assert forall|n: u8| #[trigger]
                self.asserted().dom().contains(n) implies self.asserted()[n] == bound_key(
                n,
                self.layout(),
            ).key by {
                if n != note {
                    assert(mid.asserted()[n] == pre.asserted()[n]);
                    assert(pre.asserted().dom().contains(n));
                }
            }
            assert(out@ =~= (if pre.key_is_down(k) {
                seq![KeyAction::KeyUp(k), KeyAction::KeyDown(k, b.modifier)]
            } else {
                seq![KeyAction::KeyDown(k, b.modifier)]
            }));
        }
        out
    }
    /// The pedal goes down or up. Going up releases every sustained key once and
    /// empties the sustained notes; every other change only records the position.
    pub fn pedal_change(&mut self, down: bool) -> (actions: Vec<KeyAction>)
        requires
            old(self).wf(),
        ensures
            final(self).wf(),
            handles(*old(self), *final(self), NoteEvent::PedalChange(down), actions@),
    {
        let ghost pre = *self;
        if down {
            self.sustain_down = true;
            return Vec::new();
        }
        let ps = pairs(&self.sustained);
        let ups = key_ups(&ps);
        self.sustained = new_note_map();
        self.sustain_down = false;
        proof {
            let m = pre.sustained();
            assert forall|i: int| 0 <= i < ps@.len() implies pre.asserted()[#[trigger] ps@[i].0]
                == m[ps@[i].0] && m.dom().contains(ps@[i].0) by {}
            assert forall|i: int, j: int|
                0 <= i < ups@.len() && 0 <= j < ups@.len() && i != j implies ups@[i]
                != ups@[j] by {
                assert(ps@[i].0 != ps@[j].0);
                assert(ups@[i] == KeyAction::KeyUp(ps@[i].1));
                assert(ups@[j] == KeyAction::KeyUp(ps@[j].1));
                assert(pre.asserted()[ps@[i].0] == m[ps@[i].0]);
                assert(pre.asserted()[ps@[j].0] == m[ps@[j].0]);
            }
            assert(ups@.no_duplicates());
            assert forall|i: int| 0 <= i < ups@.len() implies #[trigger] ups@[i] is KeyUp
                && m.values().contains(ups@[i]->KeyUp_0) by {
                let n = ps@[i].0;
                assert(m.dom().contains(n));
                assert(ups@[i] == KeyAction::KeyUp(ps@[i].1));
                assert(m[n] == ps@[i].1);
            }
            assert forall|n: u8| #[trigger]
                m.dom().contains(n) implies ups@.contains(KeyAction::KeyUp(m[n])) by {
                let i = choose|i: int| 0 <= i < ps@.len() && ps@[i].0 == n;
                assert(ups@[i] == KeyAction::KeyUp(ps@[i].1));
                assert(m[n] == ps@[i].1);
                assert(ups@[i] == KeyAction::KeyUp(m[n]));
            }
            assert(releases_each_once(ups@, m));
            assert(self.asserted() =~= pre.held());
            assert forall|n: u8| #[trigger]
                self.asserted().dom().contains(n) implies self.asserted()[n] == bound_key(
                n,
                self.layout(),
            ).key by {
                assert(pre.asserted().dom().contains(n));
                assert(pre.asserted()[n] == pre.held()[n]);
            }
            assert forall|x: u8, y: u8|
                x != y && self.asserted().dom().contains(x) && self.asserted().dom().contains(
                    y,
                ) implies #[trigger] self.asserted()[x] != #[trigger] self.asserted()[y] by {
                assert(pre.asserted()[x] == pre.held()[x]);
                assert(pre.asserted()[y] == pre.held()[y]);
            }
        }
        ups
    }

    /// Applies one event, returning the key actions to perform, in order.
    pub fn handle(&mut self, event: NoteEvent) -> (actions: Vec<KeyAction>)
        requires
            old(self).wf(),
        ensures
            final(self).wf(),
            handles(*old(self), *final(self), event, actions@),
    {
        match event {
            NoteEvent::NoteOn(n) => self.note_on(n),
            NoteEvent::NoteOff(n) => self.note_off(n),
            NoteEvent::PedalChange(down) => self.pedal_change(down),
        }
    }
    /// Decodes a MIDI message and applies the event it carries; other messages
    /// change nothing.
    pub fn handle_message(&mut self, status: u8, data1: u8, data2: u8) -> (actions: Vec<
        KeyAction,
    >)
        requires
            old(self).wf(),
        ensures
            final(self).wf(),
            match decoded(status, data1, data2) {
                Some(event) => handles(*old(self), *final(self), event, actions@),
                None => *final(self) == *old(self) && actions@.len() == 0,
            },
    {
        match decode(status, data1, data2) {
            Some(event) => self.handle(event),
            None => Vec::new(),
        }
    }
}

} // verus!
