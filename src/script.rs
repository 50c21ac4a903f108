use crate::caret::{CaretType, Direction};
use crate::state::FadeState;
use vstd::prelude::*;

verus! {

/// One operation of a cutscene script.
#[derive(Debug)]
pub enum Command {
    /// Sets a story flag.
    SetFlag(u16),
    /// Clears a story flag.
    ClearFlag(u16),
    /// Queues a sound cue.
    PlaySound(u16),
    /// Sets the fade transition.
    SetFade(FadeState),
    /// Spawns a caret at a position.
    SpawnCaret(i32, i32, CaretType, Direction),
    /// Appends a run of glyphs to the message.
    Text(Vec<u8>),
    /// Empties the message.
    ClearText,
    /// Continues at an offset of the same script.
    Jump(u16),
    /// Continues at an offset of the same script when a flag is set.
    JumpIfFlag(u16, u16),
    /// Runs another script, then comes back.
    Call(u16),
    /// Goes back to the caller, or ends the script at top level.
    Return,
    /// Waits for a number of frames.
    WaitFrames(u16),
    /// Waits until one of the keys of a mask is pressed.
    WaitKey(u16),
    /// Waits until the message is fully typed out.
    WaitText,
    /// Lets one frame be drawn before going on.
    EndFrame,
    /// Ends the script.
    End,
}

/// The scripts that can run: a global bank and the current stage's set, each
/// indexed by script id. A stage script shadows a global one of the same id.
#[derive(Debug)]
pub struct ScriptTable {
    pub global: Vec<Option<Vec<Command>>>,
    pub stage: Vec<Option<Vec<Command>>>,
}

/// The commands of script `id` in a bank, if the bank has it.
pub open spec fn bank_script(bank: Seq<Option<Vec<Command>>>, id: u16) -> Option<Seq<Command>> {
    if id < bank.len() && bank[id as int] is Some {
        Some(bank[id as int]->0@)
    } else {
        None
    }
}

/// The commands of script `id`, if the table has it.
pub open spec fn script_of(t: ScriptTable, id: u16) -> Option<Seq<Command>> {
    if bank_script(t.stage@, id) is Some {
        bank_script(t.stage@, id)
    } else {
        bank_script(t.global@, id)
    }
}

fn bank_lookup(bank: &Vec<Option<Vec<Command>>>, id: u16) -> (r: Option<&Vec<Command>>)
    ensures
        r is Some <==> bank_script(bank@, id) is Some,
        r is Some ==> bank_script(bank@, id) == Some(r->0@),
{
    if (id as usize) < bank.len() {
        match &bank[id as usize] {
            Some(v) => Some(v),
            None => None,
        }
    } else {
        None
    }
}

impl ScriptTable {
    /// A table with no scripts.
    pub fn new() -> (r: ScriptTable)
        ensures
            r.global@.len() == 0,
            r.stage@.len() == 0,
    {
        ScriptTable { global: Vec::new(), stage: Vec::new() }
    }

    /// Whether the stage set has script `id`.
    pub fn stage_has(&self, id: u16) -> (r: bool)
        ensures
            r == (bank_script(self.stage@, id) is Some),
    {
        bank_lookup(&self.stage, id).is_some()
    }

    /// The commands of script `id`.
    pub fn lookup(&self, id: u16) -> (r: Option<&Vec<Command>>)
        ensures
            r is Some <==> script_of(*self, id) is Some,
            r is Some ==> script_of(*self, id) == Some(r->0@),
    {
        let s = bank_lookup(&self.stage, id);
        if s.is_some() {
            s
        } else {
            bank_lookup(&self.global, id)
        }
    }
}

} // verus!
