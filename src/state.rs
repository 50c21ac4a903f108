use crate::caret::{tick_and_compact, new_caret, Caret, CaretType, Direction};
use crate::flags::{FlagBank, FLAG_COUNT};
use vstd::prelude::*;

verus! {

/// The bit of each game key in a key bitfield.
pub const KEY_LEFT: u16 = 1;
pub const KEY_RIGHT: u16 = 2;
pub const KEY_UP: u16 = 4;
pub const KEY_DOWN: u16 = 8;
pub const KEY_MAP: u16 = 16;
pub const KEY_JUMP: u16 = 32;
pub const KEY_FIRE: u16 = 64;
pub const KEY_WEAPON_NEXT: u16 = 128;
pub const KEY_WEAPON_PREV: u16 = 256;

/// The physical keys that the game reads.
#[derive(Clone, Copy, Debug, PartialEq, Eq, Structural)]
pub enum KeyCode {
    Left,
    Right,
    Up,
    Down,
    Z,
    X,
    A,
    S,
    Other,
}

/// The game-key bit that a physical key drives, or zero for none.
pub open spec fn key_mask(k: KeyCode) -> u16 {
    match k {
        KeyCode::Left => KEY_LEFT,
        KeyCode::Right => KEY_RIGHT,
        KeyCode::Up => KEY_UP,
        KeyCode::Down => KEY_DOWN,
        KeyCode::Z => KEY_JUMP,
        KeyCode::X => KEY_FIRE,
        KeyCode::A => KEY_WEAPON_PREV,
        KeyCode::S => KEY_WEAPON_NEXT,
        KeyCode::Other => 0,
    }
}

pub fn key_code_mask(k: KeyCode) -> (r: u16)
    ensures
        r == key_mask(k),
{
    match k {
        KeyCode::Left => KEY_LEFT,
        KeyCode::Right => KEY_RIGHT,
        KeyCode::Up => KEY_UP,
        KeyCode::Down => KEY_DOWN,
        KeyCode::Z => KEY_JUMP,
        KeyCode::X => KEY_FIRE,
        KeyCode::A => KEY_WEAPON_PREV,
        KeyCode::S => KEY_WEAPON_NEXT,
        KeyCode::Other => 0,
    }
}

/// The keys newly pressed this frame: held now and not held before.
pub open spec fn trigger_of(held: u16, previous: u16) -> u16 {
    held & !previous
}

/// The fade transition that the renderer shows.
#[derive(Clone, Copy, Debug, PartialEq, Eq, Structural)]
pub enum FadeState {
    Visible,
    FadeIn(Direction),
    Hidden,
    FadeOut(Direction),
}

/// The game data layouts that the engine recognises.
#[derive(Clone, Copy, Debug, PartialEq, Eq, Structural)]
pub enum DataKind {
    CaveStoryPlus,
    Cse2e,
    NxEngineEvo,
    Freeware,
}

/// Which files the data directory holds, as far as telling layouts apart
/// needs.
#[derive(Clone, Copy, Debug, PartialEq, Eq, Structural)]
pub struct DataFiles {
    pub nicalis_bmp: bool,
    pub mrmap_bin: bool,
    pub font: bool,
    pub stage_dat: bool,
    pub sprites_sif: bool,
}

pub open spec fn data_kind_of(f: DataFiles) -> DataKind {
    if f.nicalis_bmp {
        DataKind::CaveStoryPlus
    } else if f.mrmap_bin || f.font {
        DataKind::Cse2e
    } else if f.stage_dat || f.sprites_sif {
        DataKind::NxEngineEvo
    } else {
        DataKind::Freeware
    }
}

/// The data layout that a data directory's files reveal.
pub fn detect_data_kind(f: DataFiles) -> (r: DataKind)
    ensures
        r == data_kind_of(f),
{
    if f.nicalis_bmp {
        DataKind::CaveStoryPlus
    } else if f.mrmap_bin || f.font {
        DataKind::Cse2e
    } else if f.stage_dat || f.sprites_sif {
        DataKind::NxEngineEvo
    } else {
        DataKind::Freeware
    }
}

/// The directory under the data root that holds the game files of a layout.
pub fn base_path(kind: DataKind) -> (r: &'static str)
    ensures
        kind == DataKind::CaveStoryPlus ==> r@ == "/base/"@,
        kind != DataKind::CaveStoryPlus ==> r@ == "/"@,
{
    match kind {
        DataKind::CaveStoryPlus => "/base/",
        _ => "/",
    }
}

/// The state of a game's world that every subsystem reads and writes.
pub struct SharedGameState {
    pub control_flags: u16,
    pub game_flags: FlagBank,
    pub fade_state: FadeState,
    pub carets: Vec<Caret>,
    pub key_state: u16,
    pub key_trigger: u16,
    pub sound_queue: Vec<u16>,
    pub text: Vec<u8>,
    pub text_shown: usize,
    pub key_old: u16,
}

/// The mathematical value of a game state.
pub struct GameView {
    pub control_flags: u16,
    pub flags: Seq<bool>,
    pub fade: FadeState,
    pub carets: Seq<Caret>,
    pub key_state: u16,
    pub key_trigger: u16,
    pub sounds: Seq<u16>,
    pub text: Seq<u8>,
    pub shown: nat,
    pub key_old: u16,
}

impl View for SharedGameState {
    type V = GameView;

    open spec fn view(&self) -> GameView {
        GameView {
            control_flags: self.control_flags,
            flags: self.game_flags@,
            fade: self.fade_state,
            carets: self.carets@,
            key_state: self.key_state,
            key_trigger: self.key_trigger,
            sounds: self.sound_queue@,
            text: self.text@,
            shown: self.text_shown as nat,
            key_old: self.key_old,
        }
    }
}

impl SharedGameState {
    /// A state at the start of a game: every flag clear, no key held, the
    /// screen faded out and nothing on it.
    pub fn new() -> (r: SharedGameState)
        ensures
            r@.flags == Seq::new(FLAG_COUNT as nat, |_i: int| false),
            r@.control_flags == 0,
            r@.fade == FadeState::Hidden,
            r@.carets.len() == 0,
            r@.key_state == 0,
            r@.key_trigger == 0,
            r@.key_old == 0,
            r@.sounds.len() == 0,
            r@.text.len() == 0,
            r@.shown == 0,
    {
        SharedGameState {
            control_flags: 0,
            game_flags: FlagBank::new(FLAG_COUNT),
            fade_state: FadeState::Hidden,
            carets: Vec::new(),
            key_state: 0,
            key_trigger: 0,
            sound_queue: Vec::new(),
            text: Vec::new(),
            text_shown: 0,
            key_old: 0,
        }
    }

    /// Derives the keys pressed this frame from those held now and those held
    /// at the previous derivation.
    pub fn update_key_trigger(&mut self)
        ensures
            final(self).key_trigger == trigger_of(old(self).key_state, old(self).key_old),
            final(self).key_old == old(self).key_state,
            final(self)@ == (GameView {
                key_trigger: trigger_of(old(self).key_state, old(self).key_old),
                key_old: old(self).key_state,
                ..old(self)@
            }),
    {
        let held = self.key_state;
        let previous = self.key_old;
        let mut trigger: u16 = held ^ previous;
        trigger = trigger & held;
        assert(trigger == held & !previous) by (bit_vector)
            requires
                trigger == (held ^ previous) & held,
        ;
        self.key_old = held;
        self.key_trigger = trigger;
    }

    /// Ages every caret by one tick and drops those that have died.
    pub fn tick_carets(&mut self)
        ensures
            final(self)@ == (GameView { carets: tick_and_compact(old(self)@.carets), ..old(self)@ }),
    {
        let mut live: Vec<Caret> = Vec::new();
        let n = self.carets.len();
        let mut i: usize = 0;
        while i < n
            invariant
                n == self.carets@.len(),
                i <= n,
                self@ == old(self)@,
                live@ == tick_and_compact(self.carets@.take(i as int)),
            decreases n - i,
        {
            let mut c = self.carets[i];
            c.tick();
            assert(self.carets@.take(i + 1).drop_last() == self.carets@.take(i as int));
            if !c.is_dead() {
                live.push(c);
            }
            i = i + 1;
        }
        assert(self.carets@.take(n as int) == self.carets@);
        self.carets = live;
    }

    /// Adds a fresh caret to the active set.
    pub fn create_caret(&mut self, x: i32, y: i32, ctype: CaretType, direct: Direction)
        ensures
            final(self)@ == (GameView {
                carets: old(self)@.carets.push(new_caret(x, y, ctype, direct)),
                ..old(self)@
            }),
    {
        self.carets.push(Caret::new(x, y, ctype, direct));
    }

    /// Marks the game key of `key_code` held, unless the press is a repeat.
    pub fn key_down_event(&mut self, key_code: KeyCode, repeat: bool)
        ensures
            final(self)@ == (GameView {
                key_state: if repeat { old(self).key_state } else { old(self).key_state | key_mask(key_code) },
                ..old(self)@
            }),
    {
        if repeat {
            return;
        }
        let m = key_code_mask(key_code);
        self.key_state = self.key_state | m;
    }

    /// Marks the game key of `key_code` released.
    pub fn key_up_event(&mut self, key_code: KeyCode)
        ensures
            final(self)@ == (GameView { key_state: old(self).key_state & !key_mask(key_code), ..old(self)@ }),
    {
        let m = key_code_mask(key_code);
        self.key_state = self.key_state & !m;
    }
}

/// A key counts as pressed in the frame in which it goes from released to
/// held, and in no other: held, released, held again gives a press only on
/// the frames where it was not held before.
pub proof fn lemma_trigger_rising_edge(held: u16, previous: u16, bit: u16)
    requires
        bit < 16,
    ensures
        (trigger_of(held, previous) >> bit) & 1 == 1 <==> ((held >> bit) & 1 == 1 && (previous >> bit) & 1 == 0),
{
    assert((held & !previous) >> bit & 1 == 1 <==> ((held >> bit) & 1 == 1 && (previous >> bit) & 1 == 0))
        by (bit_vector)
        requires
            bit < 16,
    ;
}

} // verus!
