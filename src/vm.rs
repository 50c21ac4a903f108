use crate::caret::{new_caret, Caret};
use crate::script::{bank_script, script_of, Command, ScriptTable};
use crate::state::{GameView, SharedGameState};
use vstd::prelude::*;

verus! {

/// Where the interpreter stands between frames.
#[derive(Clone, Copy, Debug, PartialEq, Eq, Structural)]
pub enum VmState {
    /// No script runs.
    Idle,
    /// A script runs and goes on at the next frame.
    Running,
    /// A script waits for this many more frames.
    WaitingFrames(u16),
    /// A script waits for a key of this mask to be pressed.
    WaitingForInput(u16),
    /// A script waits for the message to be fully typed out.
    WaitingForText,
}

/// Why a frame's slice of interpretation ended.
#[derive(Clone, Copy, Debug, PartialEq, Eq, Structural)]
pub enum FrameExit {
    /// No script was running.
    Idle,
    /// The script waits on a condition.
    Blocked,
    /// The script asked for the frame to be drawn.
    EndFrame,
    /// The script ended.
    Terminated,
    /// The script broke an engine invariant and was stopped.
    Aborted,
    /// The script ran as many commands as a `usize` counts without yielding;
    /// it goes on next frame.
    StepLimit,
}

/// A position in a script: its id and a command offset.
#[derive(Clone, Copy, Debug, PartialEq, Eq, Structural)]
pub struct Frame {
    pub script: u16,
    pub offset: usize,
}

/// The interpreter's tunable limits.
#[derive(Clone, Copy, Debug, PartialEq, Eq, Structural)]
pub struct VmConfig {
    /// The deepest nesting of calls; a deeper call stops the script.
    pub max_call_depth: usize,
    /// How many characters of the message are revealed each frame.
    pub reveal_per_frame: usize,
}

pub const DEFAULT_MAX_CALL_DEPTH: usize = 16;
pub const DEFAULT_REVEAL_PER_FRAME: usize = 1;

impl VmConfig {
    pub fn defaults() -> (r: VmConfig)
        ensures
            r.max_call_depth == DEFAULT_MAX_CALL_DEPTH,
            r.reveal_per_frame == DEFAULT_REVEAL_PER_FRAME,
    {
        VmConfig {
            max_call_depth: DEFAULT_MAX_CALL_DEPTH,
            reveal_per_frame: DEFAULT_REVEAL_PER_FRAME,
        }
    }
}

/// The cutscene script interpreter.
pub struct TextScriptVM {
    pub scripts: ScriptTable,
    pub config: VmConfig,
    pub state: VmState,
    pub cursor: Frame,
    pub stack: Vec<Frame>,
}

/// The interpreter's execution state: its mode, its cursor and the return
/// positions of the calls in progress, innermost last.
pub struct VmView {
    pub state: VmState,
    pub cursor: Frame,
    pub stack: Seq<Frame>,
}

impl View for TextScriptVM {
    type V = VmView;

    open spec fn view(&self) -> VmView {
        VmView { state: self.state, cursor: self.cursor, stack: self.stack@ }
    }
}

/// The interpreter with its script stopped.
pub open spec fn halted(vm: VmView) -> VmView {
    VmView { state: VmState::Idle, cursor: vm.cursor, stack: Seq::empty() }
}

/// The cursor moved to `offset` of the same script.
pub open spec fn goto(vm: VmView, offset: int) -> VmView {
    VmView { cursor: Frame { script: vm.cursor.script, offset: offset as usize }, ..vm }
}

/// The cursor moved past the current command.
pub open spec fn advanced(vm: VmView) -> VmView {
    goto(vm, vm.cursor.offset + 1)
}

/// The effect of the command `c`, at the cursor of `vm` in a script of `len`
/// commands: the next execution state, the next game state, and whether the
/// frame's slice ends.
pub open spec fn exec_command(
    t: ScriptTable,
    cfg: VmConfig,
    vm: VmView,
    g: GameView,
    c: Command,
    len: nat,
) -> (VmView, GameView, Option<FrameExit>) {
    match c {
        Command::SetFlag(f) => if f < g.flags.len() {
            (advanced(vm), GameView { flags: g.flags.update(f as int, true), ..g }, None)
        } else {
            (halted(vm), g, Some(FrameExit::Aborted))
        },
        Command::ClearFlag(f) => if f < g.flags.len() {
            (advanced(vm), GameView { flags: g.flags.update(f as int, false), ..g }, None)
        } else {
            (halted(vm), g, Some(FrameExit::Aborted))
        },
        Command::PlaySound(id) => (advanced(vm), GameView { sounds: g.sounds.push(id), ..g }, None),
        Command::SetFade(f) => (advanced(vm), GameView { fade: f, ..g }, None),
        Command::SpawnCaret(x, y, ct, d) => (
            advanced(vm),
            GameView { carets: g.carets.push(new_caret(x, y, ct, d)), ..g },
            None,
        ),
        Command::Text(s) => (advanced(vm), GameView { text: g.text + s@, ..g }, None),
        Command::ClearText => (advanced(vm), GameView { text: Seq::empty(), shown: 0, ..g }, None),
        Command::Jump(o) => if o < len {
            (goto(vm, o as int), g, None)
        } else {
            (halted(vm), g, Some(FrameExit::Aborted))
        },
        Command::JumpIfFlag(f, o) => if f >= g.flags.len() {
            (halted(vm), g, Some(FrameExit::Aborted))
        } else if !g.flags[f as int] {
            (advanced(vm), g, None)
        } else if o < len {
            (goto(vm, o as int), g, None)
        } else {
            (halted(vm), g, Some(FrameExit::Aborted))
        },
        Command::Call(id) => if script_of(t, id) is Some && vm.stack.len() < cfg.max_call_depth {
            (
                VmView {
                    state: vm.state,
                    cursor: Frame { script: id, offset: 0 },
                    stack: vm.stack.push(advanced(vm).cursor),
                },
                g,
                None,
            )
        } else {
            (halted(vm), g, Some(FrameExit::Aborted))
        },
        Command::Return => if vm.stack.len() == 0 {
            (halted(vm), g, Some(FrameExit::Terminated))
        } else {
            (VmView { cursor: vm.stack.last(), stack: vm.stack.drop_last(), ..vm }, g, None)
        },
        Command::WaitFrames(n) => if n == 0 {
            (advanced(vm), g, None)
        } else {
            (VmView { state: VmState::WaitingFrames(n), ..advanced(vm) }, g, Some(FrameExit::Blocked))
        },
        Command::WaitKey(m) => (
            VmView { state: VmState::WaitingForInput(m), ..advanced(vm) },
            g,
            Some(FrameExit::Blocked),
        ),
        Command::WaitText => (
            VmView { state: VmState::WaitingForText, ..advanced(vm) },
            g,
            Some(FrameExit::Blocked),
        ),
        Command::EndFrame => if vm.cursor.offset + 1 >= len && vm.stack.len() == 0 {
            (halted(advanced(vm)), g, Some(FrameExit::Terminated))
        } else {
            (advanced(vm), g, Some(FrameExit::EndFrame))
        },
        Command::End => (halted(vm), g, Some(FrameExit::Terminated)),
    }
}

/// One step of a running script: the command at the cursor, or, past the
/// script's end, a return to the caller or the end of the script.
pub open spec fn step(t: ScriptTable, cfg: VmConfig, vm: VmView, g: GameView) -> (
    VmView,
    GameView,
    Option<FrameExit>,
) {
    match script_of(t, vm.cursor.script) {
        None => (halted(vm), g, Some(FrameExit::Aborted)),
        Some(cmds) => if vm.cursor.offset < cmds.len() {
            exec_command(t, cfg, vm, g, cmds[vm.cursor.offset as int], cmds.len())
        } else if vm.stack.len() == 0 {
            (halted(vm), g, Some(FrameExit::Terminated))
        } else {
            (VmView { cursor: vm.stack.last(), stack: vm.stack.drop_last(), ..vm }, g, None)
        },
    }
}

/// Steps a running script until its slice of the frame ends, for at most
/// `fuel` steps.
pub open spec fn run(t: ScriptTable, cfg: VmConfig, vm: VmView, g: GameView, fuel: nat) -> (
    VmView,
    GameView,
    FrameExit,
)
    decreases fuel,
{
    if fuel == 0 {
        (vm, g, FrameExit::StepLimit)
    } else {
        let (v2, g2, e) = step(t, cfg, vm, g);
        match e {
            Some(x) => (v2, g2, x),
            None => run(t, cfg, v2, g2, (fuel - 1) as nat),
        }
    }
}

/// The message after one frame of typing out.
pub open spec fn revealed(cfg: VmConfig, g: GameView) -> GameView {
    let n = (g.shown + cfg.reveal_per_frame) as nat;
    GameView { shown: if n < g.text.len() { n } else { g.text.len() }, ..g }
}

/// Whether a waiting script may go on in game state `g`.
pub open spec fn wakes(s: VmState, g: GameView) -> bool {
    match s {
        VmState::WaitingFrames(n) => n <= 1,
        VmState::WaitingForInput(m) => g.key_trigger & m != 0,
        VmState::WaitingForText => g.shown >= g.text.len(),
        _ => true,
    }
}

/// One frame of interpretation: the message types on, a waiting script
/// checks its condition, and a running one executes until its slice ends.
pub open spec fn frame(t: ScriptTable, cfg: VmConfig, vm: VmView, g: GameView) -> (
    VmView,
    GameView,
    FrameExit,
) {
    if vm.state == VmState::Idle {
        (vm, g, FrameExit::Idle)
    } else {
        let g1 = revealed(cfg, g);
        if wakes(vm.state, g1) {
            run(t, cfg, VmView { state: VmState::Running, ..vm }, g1, usize::MAX as nat)
        } else {
            match vm.state {
                VmState::WaitingFrames(n) => (
                    VmView { state: VmState::WaitingFrames((n - 1) as u16), ..vm },
                    g1,
                    FrameExit::Blocked,
                ),
                _ => (vm, g1, FrameExit::Blocked),
            }
        }
    }
}

/// Whether an executing script, or a call in progress, belongs to the stage
/// set of `t`.
pub open spec fn uses_stage(t: ScriptTable, vm: VmView) -> bool {
    vm.state != VmState::Idle && (bank_script(t.stage@, vm.cursor.script) is Some || exists|i: int|
        0 <= i < vm.stack.len() && bank_script(t.stage@, #[trigger] vm.stack[i].script) is Some)
}

impl TextScriptVM {
    /// Whether a script of the current stage set is executing or waiting to
    /// be returned to.
    pub fn runs_stage_script(&self) -> (r: bool)
        ensures
            r == uses_stage(self.scripts, self@),
    {
        if self.state == VmState::Idle {
            return false;
        }
        if self.scripts.stage_has(self.cursor.script) {
            return true;
        }
        let mut i: usize = 0;
        while i < self.stack.len()
            invariant
                i <= self.stack@.len(),
                self.state != VmState::Idle,
                forall|j: int| 0 <= j < i ==> bank_script(self.scripts.stage@, #[trigger] self.stack@[j].script) is None,
            decreases self.stack@.len() - i,
        {
            if self.scripts.stage_has(self.stack[i].script) {
                assert(bank_script(self.scripts.stage@, self@.stack[i as int].script) is Some);
                return true;
            }
            i = i + 1;
        }
        false
    }

    /// Replaces the stage set of scripts; the global bank, the cursor and the
    /// call stack stay as they are.
    pub fn replace_stage_scripts(&mut self, stage: Vec<Option<Vec<Command>>>)
        requires
            !uses_stage(old(self).scripts, old(self)@),
        ensures
            final(self).scripts.stage@ == stage@,
            final(self).scripts.global@ == old(self).scripts.global@,
            final(self)@ == old(self)@,
            final(self).config == old(self).config,
    {
        self.scripts.stage = stage;
    }

    /// An idle interpreter over `scripts`.
    pub fn new(scripts: ScriptTable, config: VmConfig) -> (r: TextScriptVM)
        ensures
            r.scripts == scripts,
            r.config == config,
            r@.state == VmState::Idle,
            r@.stack.len() == 0,
    {
        TextScriptVM {
            scripts,
            config,
            state: VmState::Idle,
            cursor: Frame { script: 0, offset: 0 },
            stack: Vec::new(),
        }
    }

    /// Starts script `id` from its first command, dropping whatever ran
    /// before; a script that the table lacks is not started.
    pub fn start_script(&mut self, id: u16) -> (r: bool)
        ensures
            r == (script_of(old(self).scripts, id) is Some),
            r ==> final(self)@ == (VmView {
                state: VmState::Running,
                cursor: Frame { script: id, offset: 0 },
                stack: Seq::empty(),
            }),
            !r ==> final(self)@ == old(self)@,
            final(self).scripts == old(self).scripts,
            final(self).config == old(self).config,
    {
        if self.scripts.lookup(id).is_none() {
            return false;
        }
        self.state = VmState::Running;
        self.cursor = Frame { script: id, offset: 0 };
        self.stack = Vec::new();
        true
    }

    fn halt(&mut self)
        ensures
            final(self)@ == halted(old(self)@),
            final(self).scripts == old(self).scripts,
            final(self).config == old(self).config,
    {
        self.state = VmState::Idle;
        self.stack = Vec::new();
    }

    /// Executes one step of the running script.
    fn step(&mut self, gs: &mut SharedGameState) -> (r: Option<FrameExit>)
        requires
            old(self).state == VmState::Running,
        ensures
            (final(self)@, final(gs)@, r) == step(old(self).scripts, old(self).config, old(self)@, old(gs)@),
            final(self).scripts == old(self).scripts,
            final(self).config == old(self).config,
    {
        let cmds = match self.scripts.lookup(self.cursor.script) {
            Some(c) => c,
            None => {
                self.halt();
                return Some(FrameExit::Aborted);
            },
        };
        let len = cmds.len();
        let at = self.cursor.offset;
        if at >= len {
            match self.stack.pop() {
                Some(f) => {
                    self.cursor = f;
                    return None;
                },
                None => {
                    self.halt();
                    return Some(FrameExit::Terminated);
                },
            }
        }
        let next = Frame { script: self.cursor.script, offset: at + 1 };
        match &cmds[at] {
            Command::SetFlag(f) => {
                if (*f as usize) < gs.game_flags.len() {
                    gs.game_flags.set(*f as usize, true);
                    self.cursor = next;
                    None
                } else {
                    self.halt();
                    Some(FrameExit::Aborted)
                }
            },
            Command::ClearFlag(f) => {
                if (*f as usize) < gs.game_flags.len() {
                    gs.game_flags.set(*f as usize, false);
                    self.cursor = next;
                    None
                } else {
                    self.halt();
                    Some(FrameExit::Aborted)
                }
            },
            Command::PlaySound(id) => {
                gs.sound_queue.push(*id);
                self.cursor = next;
                None
            },
            Command::SetFade(f) => {
                gs.fade_state = *f;
                self.cursor = next;
                None
            },
            Command::SpawnCaret(x, y, ct, d) => {
                gs.carets.push(Caret::new(*x, *y, *ct, *d));
                self.cursor = next;
                None
            },
            Command::Text(s) => {
                gs.text.extend_from_slice(s.as_slice());
                assert(gs.text@ =~= old(gs).text@ + s@);
                self.cursor = next;
                None
            },
            Command::ClearText => {
                gs.text.clear();
                gs.text_shown = 0;
                self.cursor = next;
                None
            },
            Command::Jump(o) => {
                if (*o as usize) < len {
                    self.cursor = Frame { script: self.cursor.script, offset: *o as usize };
                    None
                } else {
                    self.halt();
                    Some(FrameExit::Aborted)
                }
            },
            Command::JumpIfFlag(f, o) => {
                if (*f as usize) >= gs.game_flags.len() {
                    self.halt();
                    Some(FrameExit::Aborted)
                } else if !gs.game_flags.get(*f as usize) {
                    self.cursor = next;
                    None
                } else if (*o as usize) < len {
                    self.cursor = Frame { script: self.cursor.script, offset: *o as usize };
                    None
                } else {
                    self.halt();
                    Some(FrameExit::Aborted)
                }
            },
            Command::Call(id) => {
                if self.scripts.lookup(*id).is_some() && self.stack.len() < self.config.max_call_depth {
                    self.stack.push(next);
                    self.cursor = Frame { script: *id, offset: 0 };
                    None
                } else {
                    self.halt();
                    Some(FrameExit::Aborted)
                }
            },
            Command::Return => {
                match self.stack.pop() {
                    Some(f) => {
                        self.cursor = f;
                        None
                    },
                    None => {
                        self.halt();
                        Some(FrameExit::Terminated)
                    },
                }
            },
            Command::WaitFrames(n) => {
                self.cursor = next;
                if *n == 0 {
                    None
                } else {
                    self.state = VmState::WaitingFrames(*n);
                    Some(FrameExit::Blocked)
                }
            },
            Command::WaitKey(m) => {
                self.cursor = next;
                self.state = VmState::WaitingForInput(*m);
                Some(FrameExit::Blocked)
            },
            Command::WaitText => {
                self.cursor = next;
                self.state = VmState::WaitingForText;
                Some(FrameExit::Blocked)
            },
            Command::EndFrame => {
                if at + 1 >= len && self.stack.len() == 0 {
                    self.cursor = next;
                    self.halt();
                    Some(FrameExit::Terminated)
                } else {
                    self.cursor = next;
                    Some(FrameExit::EndFrame)
                }
            },
            Command::End => {
                self.halt();
                Some(FrameExit::Terminated)
            },
        }
    }

    /// Runs the script until its slice of the frame ends.
    fn run(&mut self, gs: &mut SharedGameState) -> (r: FrameExit)
        requires
            old(self).state == VmState::Running,
        ensures
            (final(self)@, final(gs)@, r) == run(
                old(self).scripts,
                old(self).config,
                old(self)@,
                old(gs)@,
                usize::MAX as nat,
            ),
            final(self).scripts == old(self).scripts,
            final(self).config == old(self).config,
    {
        let mut fuel: usize = usize::MAX;
        while fuel > 0
            invariant
                self.state == VmState::Running,
                self.scripts == old(self).scripts,
                self.config == old(self).config,
                run(self.scripts, self.config, self@, gs@, fuel as nat) == run(
                    old(self).scripts,
                    old(self).config,
                    old(self)@,
                    old(gs)@,
                    usize::MAX as nat,
                ),
            decreases fuel,
        {
            let ghost before = (self@, gs@);
            match self.step(gs) {
                Some(e) => {
                    return e;
                },
                None => {},
            }
            proof {
                lemma_step_keeps_running(self.scripts, self.config, before.0, before.1);
            }
            fuel = fuel - 1;
        }
        FrameExit::StepLimit
    }

    /// Advances the interpreter by one frame.
    pub fn advance_one_frame(&mut self, gs: &mut SharedGameState) -> (r: FrameExit)
        ensures
            (final(self)@, final(gs)@, r) == frame(old(self).scripts, old(self).config, old(self)@, old(gs)@),
            final(self).scripts == old(self).scripts,
            final(self).config == old(self).config,
    {
        if self.state == VmState::Idle {
            return FrameExit::Idle;
        }
        let len = gs.text.len();
        let reveal = self.config.reveal_per_frame;
        if gs.text_shown < len && reveal < len - gs.text_shown {
            gs.text_shown = gs.text_shown + reveal;
        } else {
            gs.text_shown = len;
        }
        match self.state {
            VmState::WaitingFrames(n) => {
                if n > 1 {
                    self.state = VmState::WaitingFrames(n - 1);
                    return FrameExit::Blocked;
                }
            },
            VmState::WaitingForInput(m) => {
                if gs.key_trigger & m == 0 {
                    return FrameExit::Blocked;
                }
            },
            VmState::WaitingForText => {
                if gs.text_shown < len {
                    return FrameExit::Blocked;
                }
            },
            _ => {},
        }
        self.state = VmState::Running;
        self.run(gs)
    }
}

/// A step that does not end the frame's slice leaves the script running.
pub proof fn lemma_step_keeps_running(t: ScriptTable, cfg: VmConfig, vm: VmView, g: GameView)
    requires
        vm.state == VmState::Running,
        step(t, cfg, vm, g).2 is None,
    ensures
        step(t, cfg, vm, g).0.state == VmState::Running,
{
}

/// A command that neither waits nor moves the cursor elsewhere, and whose
/// flag, if it names one, lies in a bank of `nflags` flags.
pub open spec fn straight(c: Command, nflags: nat) -> bool {
    match c {
        Command::SetFlag(f) => f < nflags,
        Command::ClearFlag(f) => f < nflags,
        Command::PlaySound(_) => true,
        Command::SetFade(_) => true,
        Command::SpawnCaret(_, _, _, _) => true,
        Command::Text(_) => true,
        Command::ClearText => true,
        Command::EndFrame => true,
        Command::End => true,
        _ => false,
    }
}

proof fn lemma_straight_run(t: ScriptTable, cfg: VmConfig, vm: VmView, g: GameView, fuel: nat)
    requires
        vm.state == VmState::Running,
        vm.stack.len() == 0,
        script_of(t, vm.cursor.script) is Some,
        vm.cursor.offset <= script_of(t, vm.cursor.script)->0.len(),
        script_of(t, vm.cursor.script)->0.len() < usize::MAX,
        forall|i: int|
            vm.cursor.offset <= i < script_of(t, vm.cursor.script)->0.len() ==> straight(
                #[trigger] script_of(t, vm.cursor.script)->0[i],
                g.flags.len(),
            ),
        script_of(t, vm.cursor.script)->0.len() - vm.cursor.offset < fuel,
    ensures
        run(t, cfg, vm, g, fuel).2 == FrameExit::Terminated || run(t, cfg, vm, g, fuel).2
            == FrameExit::EndFrame,
        run(t, cfg, vm, g, fuel).2 == FrameExit::Terminated ==> run(t, cfg, vm, g, fuel).0.state == VmState::Idle,
        run(t, cfg, vm, g, fuel).2 == FrameExit::EndFrame ==> run(t, cfg, vm, g, fuel).0.state == VmState::Running
            && run(t, cfg, vm, g, fuel).0.cursor.script == vm.cursor.script
            && run(t, cfg, vm, g, fuel).0.cursor.offset < script_of(t, vm.cursor.script)->0.len(),
    decreases script_of(t, vm.cursor.script)->0.len() - vm.cursor.offset,
{
    let cmds = script_of(t, vm.cursor.script)->0;
    if vm.cursor.offset < cmds.len() {
        let c = cmds[vm.cursor.offset as int];
        assert(straight(c, g.flags.len()));
        assert(step(t, cfg, vm, g) == exec_command(t, cfg, vm, g, c, cmds.len()));
        let (v2, g2, e) = step(t, cfg, vm, g);
        if e is None {
            assert(v2 == advanced(vm));
            assert(v2.cursor.script == vm.cursor.script);
            assert(v2.cursor.offset == vm.cursor.offset + 1);
            assert(fuel > 1);
            assert(g2.flags.len() == g.flags.len());
            lemma_straight_run(t, cfg, v2, g2, (fuel - 1) as nat);
        }
    }
}

/// A script that neither waits nor jumps, calls or returns, and whose flags
/// lie in the bank, runs in a single frame up to its end or to an explicit
/// end of the frame; it is then idle, or running when commands follow.
pub proof fn lemma_straight_script_one_frame(t: ScriptTable, cfg: VmConfig, vm: VmView, g: GameView)
    requires
        vm.state == VmState::Running,
        vm.stack.len() == 0,
        script_of(t, vm.cursor.script) is Some,
        vm.cursor.offset <= script_of(t, vm.cursor.script)->0.len(),
        script_of(t, vm.cursor.script)->0.len() < usize::MAX,
        forall|i: int|
            vm.cursor.offset <= i < script_of(t, vm.cursor.script)->0.len() ==> straight(
                #[trigger] script_of(t, vm.cursor.script)->0[i],
                g.flags.len(),
            ),
    ensures
        frame(t, cfg, vm, g).2 == FrameExit::Terminated || frame(t, cfg, vm, g).2 == FrameExit::EndFrame,
        frame(t, cfg, vm, g).2 == FrameExit::Terminated ==> frame(t, cfg, vm, g).0.state == VmState::Idle,
        frame(t, cfg, vm, g).2 == FrameExit::EndFrame ==> frame(t, cfg, vm, g).0.state == VmState::Running
            && frame(t, cfg, vm, g).0.cursor.script == vm.cursor.script
            && frame(t, cfg, vm, g).0.cursor.offset < script_of(t, vm.cursor.script)->0.len(),
{
    let g1 = revealed(cfg, g);
    assert(VmView { state: VmState::Running, ..vm } == vm);
    lemma_straight_run(t, cfg, vm, g1, usize::MAX as nat);
}

/// A waiting script whose condition does not hold keeps its cursor and its
/// call stack through a frame, and is still waiting afterwards.
pub proof fn lemma_wait_keeps_position(t: ScriptTable, cfg: VmConfig, vm: VmView, g: GameView)
    requires
        vm.state != VmState::Idle,
        vm.state != VmState::Running,
        !wakes(vm.state, revealed(cfg, g)),
    ensures
        frame(t, cfg, vm, g).0.cursor == vm.cursor,
        frame(t, cfg, vm, g).0.stack == vm.stack,
        frame(t, cfg, vm, g).0.state != VmState::Idle,
        frame(t, cfg, vm, g).0.state != VmState::Running,
        frame(t, cfg, vm, g).2 == FrameExit::Blocked,
{
}

/// The execution state after one frame for each game state of `gs`, in turn.
pub open spec fn frames(t: ScriptTable, cfg: VmConfig, vm: VmView, gs: Seq<GameView>) -> VmView
    decreases gs.len(),
{
    if gs.len() == 0 {
        vm
    } else {
        frames(t, cfg, frame(t, cfg, vm, gs[0]).0, gs.drop_first())
    }
}

/// A script waiting for a key or for the message, whose condition stays false
/// over any number of frames, keeps its mode, cursor and call stack through
/// all of them.
pub proof fn lemma_wait_keeps_position_over_frames(t: ScriptTable, cfg: VmConfig, vm: VmView, gs: Seq<GameView>)
    requires
        vm.state is WaitingForInput || vm.state is WaitingForText,
        forall|i: int| 0 <= i < gs.len() ==> !wakes(vm.state, revealed(cfg, #[trigger] gs[i])),
    ensures
        frames(t, cfg, vm, gs) == vm,
    decreases gs.len(),
{
    if gs.len() > 0 {
        assert(!wakes(vm.state, revealed(cfg, gs[0])));
        let v1 = frame(t, cfg, vm, gs[0]).0;
        assert(v1 == vm);
        assert forall|i: int| 0 <= i < gs.drop_first().len() implies !wakes(
            vm.state,
            revealed(cfg, #[trigger] gs.drop_first()[i]),
        ) by {
            assert(gs.drop_first()[i] == gs[i + 1]);
        }
        lemma_wait_keeps_position_over_frames(t, cfg, vm, gs.drop_first());
    }
}

/// A call, followed at any later point by a return at the same call depth,
/// comes back to the command just after the call, in the calling script, with
/// the caller's call stack.
pub proof fn lemma_call_return(
    t: ScriptTable,
    cfg: VmConfig,
    vm: VmView,
    g: GameView,
    callee: u16,
    later: VmView,
    g_later: GameView,
)
    requires
        vm.state == VmState::Running,
        script_of(t, vm.cursor.script) is Some,
        vm.cursor.offset < script_of(t, vm.cursor.script)->0.len(),
        script_of(t, vm.cursor.script)->0[vm.cursor.offset as int] == Command::Call(callee),
        script_of(t, callee) is Some,
        vm.stack.len() < cfg.max_call_depth,
        later.state == VmState::Running,
        later.stack == step(t, cfg, vm, g).0.stack,
        script_of(t, later.cursor.script) is Some,
        later.cursor.offset < script_of(t, later.cursor.script)->0.len(),
        script_of(t, later.cursor.script)->0[later.cursor.offset as int] == Command::Return,
    ensures
        step(t, cfg, vm, g).2 is None,
        step(t, cfg, later, g_later).2 is None,
        step(t, cfg, later, g_later).0.cursor == (Frame {
            script: vm.cursor.script,
            offset: (vm.cursor.offset + 1) as usize,
        }),
        step(t, cfg, later, g_later).0.stack == vm.stack,
        step(t, cfg, later, g_later).0.state == VmState::Running,
{
    let cmds = script_of(t, vm.cursor.script)->0;
    assert(step(t, cfg, vm, g) == exec_command(t, cfg, vm, g, Command::Call(callee), cmds.len()));
    let s1 = step(t, cfg, vm, g).0.stack;
    let lc = script_of(t, later.cursor.script)->0;
    assert(step(t, cfg, later, g_later) == exec_command(t, cfg, later, g_later, Command::Return, lc.len()));
    assert(s1 == vm.stack.push(advanced(vm).cursor));
    assert(s1.drop_last() =~= vm.stack);
    assert(s1.last() == advanced(vm).cursor);
    assert(s1.len() > 0);
    let r = exec_command(t, cfg, later, g_later, Command::Return, lc.len());
    assert(r.0.cursor == later.stack.last());
    assert(r.0.cursor == advanced(vm).cursor);
    assert(r.0.stack == s1.drop_last());
}

/// A flag written by one command is seen by a conditional jump on it in the
/// very next command of the same burst.
pub proof fn lemma_set_then_branch(
    t: ScriptTable,
    cfg: VmConfig,
    vm: VmView,
    g: GameView,
    flag: u16,
    target: u16,
)
    requires
        vm.state == VmState::Running,
        script_of(t, vm.cursor.script) is Some,
        vm.cursor.offset + 1 < script_of(t, vm.cursor.script)->0.len(),
        script_of(t, vm.cursor.script)->0[vm.cursor.offset as int] == Command::SetFlag(flag),
        script_of(t, vm.cursor.script)->0[vm.cursor.offset + 1] == Command::JumpIfFlag(flag, target),
        flag < g.flags.len(),
        target < script_of(t, vm.cursor.script)->0.len(),
        script_of(t, vm.cursor.script)->0.len() <= usize::MAX,
    ensures
        step(t, cfg, vm, g).2 is None,
        step(t, cfg, vm, g).1.flags[flag as int],
        step(t, cfg, step(t, cfg, vm, g).0, step(t, cfg, vm, g).1).2 is None,
        step(t, cfg, step(t, cfg, vm, g).0, step(t, cfg, vm, g).1).0.cursor == (Frame {
            script: vm.cursor.script,
            offset: target as usize,
        }),
{
    let cmds = script_of(t, vm.cursor.script)->0;
    assert(step(t, cfg, vm, g) == exec_command(t, cfg, vm, g, Command::SetFlag(flag), cmds.len()));
    let (v1, g1, e1) = step(t, cfg, vm, g);
    assert(v1.cursor.offset == vm.cursor.offset + 1);
    assert(g1.flags[flag as int]);
    assert(step(t, cfg, v1, g1) == exec_command(t, cfg, v1, g1, Command::JumpIfFlag(flag, target), cmds.len()));
}

/// Within a frame, a call hands the rest of the frame's run to the callee
/// with the return position pushed, and a return at the same depth hands it
/// back to the command just after the call, in the calling script, with the
/// caller's call stack.
pub proof fn lemma_call_return_in_run(
    t: ScriptTable,
    cfg: VmConfig,
    vm: VmView,
    g: GameView,
    callee: u16,
    later: VmView,
    g_later: GameView,
    fuel: nat,
)
    requires
        fuel > 0,
        vm.state == VmState::Running,
        script_of(t, vm.cursor.script) is Some,
        vm.cursor.offset < script_of(t, vm.cursor.script)->0.len(),
        script_of(t, vm.cursor.script)->0[vm.cursor.offset as int] == Command::Call(callee),
        script_of(t, callee) is Some,
        vm.stack.len() < cfg.max_call_depth,
        later.state == VmState::Running,
        later.stack == vm.stack.push(Frame { script: vm.cursor.script, offset: (vm.cursor.offset + 1) as usize }),
        script_of(t, later.cursor.script) is Some,
        later.cursor.offset < script_of(t, later.cursor.script)->0.len(),
        script_of(t, later.cursor.script)->0[later.cursor.offset as int] == Command::Return,
    ensures
        run(t, cfg, vm, g, fuel) == run(
            t,
            cfg,
            VmView { state: VmState::Running, cursor: Frame { script: callee, offset: 0 }, stack: later.stack },
            g,
            (fuel - 1) as nat,
        ),
        run(t, cfg, later, g_later, fuel) == run(
            t,
            cfg,
            VmView {
                state: VmState::Running,
                cursor: Frame { script: vm.cursor.script, offset: (vm.cursor.offset + 1) as usize },
                stack: vm.stack,
            },
            g_later,
            (fuel - 1) as nat,
        ),
{
    lemma_call_return(t, cfg, vm, g, callee, later, g_later);
    let cmds = script_of(t, vm.cursor.script)->0;
    assert(step(t, cfg, vm, g) == exec_command(t, cfg, vm, g, Command::Call(callee), cmds.len()));
    assert(step(t, cfg, vm, g).0 == (VmView {
        state: VmState::Running,
        cursor: Frame { script: callee, offset: 0 },
        stack: later.stack,
    }));
    assert(step(t, cfg, later, g_later).0 == (VmView {
        state: VmState::Running,
        cursor: Frame { script: vm.cursor.script, offset: (vm.cursor.offset + 1) as usize },
        stack: vm.stack,
    }));
}

/// Within one frame, a flag set by one command and branched on by the next
/// is seen set: the rest of the frame runs from the jump target, with the
/// flag set.
pub proof fn lemma_set_then_branch_in_frame(
    t: ScriptTable,
    cfg: VmConfig,
    vm: VmView,
    g: GameView,
    flag: u16,
    target: u16,
)
    requires
        vm.state == VmState::Running,
        script_of(t, vm.cursor.script) is Some,
        vm.cursor.offset + 1 < script_of(t, vm.cursor.script)->0.len(),
        script_of(t, vm.cursor.script)->0[vm.cursor.offset as int] == Command::SetFlag(flag),
        script_of(t, vm.cursor.script)->0[vm.cursor.offset + 1] == Command::JumpIfFlag(flag, target),
        flag < g.flags.len(),
        target < script_of(t, vm.cursor.script)->0.len(),
        script_of(t, vm.cursor.script)->0.len() <= usize::MAX,
    ensures
        frame(t, cfg, vm, g) == run(
            t,
            cfg,
            goto(vm, target as int),
            GameView { flags: revealed(cfg, g).flags.update(flag as int, true), ..revealed(cfg, g) },
            (usize::MAX - 2) as nat,
        ),
{
    let g1 = revealed(cfg, g);
    assert(VmView { state: VmState::Running, ..vm } == vm);
    lemma_set_then_branch(t, cfg, vm, g1, flag, target);
    let (v1, h1, e1) = step(t, cfg, vm, g1);
    let (v2, h2, e2) = step(t, cfg, v1, h1);
    assert(run(t, cfg, vm, g1, usize::MAX as nat) == run(t, cfg, v1, h1, (usize::MAX - 1) as nat));
    assert(run(t, cfg, v1, h1, (usize::MAX - 1) as nat) == run(t, cfg, v2, h2, (usize::MAX - 2) as nat));
    assert(v2 == goto(vm, target as int));
    assert(h2 == GameView { flags: g1.flags.update(flag as int, true), ..g1 });
}

/// A script waiting for `n` frames keeps its cursor and call stack through
/// any `m < n` frames, and then waits for `n - m` more.
pub proof fn lemma_frame_wait_keeps_position_over_frames(
    t: ScriptTable,
    cfg: VmConfig,
    vm: VmView,
    n: u16,
    gs: Seq<GameView>,
)
    requires
        vm.state == VmState::WaitingFrames(n),
        gs.len() < n,
    ensures
        frames(t, cfg, vm, gs) == (VmView { state: VmState::WaitingFrames((n - gs.len()) as u16), ..vm }),
    decreases gs.len(),
{
    if gs.len() > 0 {
        let v1 = frame(t, cfg, vm, gs[0]).0;
        assert(v1 == VmView { state: VmState::WaitingFrames((n - 1) as u16), ..vm });
        lemma_frame_wait_keeps_position_over_frames(t, cfg, v1, (n - 1) as u16, gs.drop_first());
    } else {
        assert(VmView { state: VmState::WaitingFrames(n), ..vm } == vm);
    }
}

/// A command that makes the script wait.
pub open spec fn blocking(c: Command) -> bool {
    match c {
        Command::WaitFrames(n) => n > 0,
        Command::WaitKey(_) => true,
        Command::WaitText => true,
        _ => false,
    }
}

/// No script of the table holds a command that waits.
pub open spec fn no_blocking_commands(t: ScriptTable) -> bool {
    forall|id: u16, i: int|
        script_of(t, id) is Some && 0 <= i < script_of(t, id)->0.len() ==> !blocking(
            #[trigger] script_of(t, id)->0[i],
        )
}

proof fn lemma_run_never_blocks(t: ScriptTable, cfg: VmConfig, vm: VmView, g: GameView, fuel: nat)
    requires
        vm.state == VmState::Running,
        no_blocking_commands(t),
    ensures
        run(t, cfg, vm, g, fuel).2 != FrameExit::Blocked,
        run(t, cfg, vm, g, fuel).2 != FrameExit::Idle,
        run(t, cfg, vm, g, fuel).0.state == VmState::Idle || run(t, cfg, vm, g, fuel).0.state == VmState::Running,
        run(t, cfg, vm, g, fuel).0.state == VmState::Idle <==> (run(t, cfg, vm, g, fuel).2 == FrameExit::Terminated
            || run(t, cfg, vm, g, fuel).2 == FrameExit::Aborted),
    decreases fuel,
{
    if fuel > 0 {
        match script_of(t, vm.cursor.script) {
            Some(cmds) => {
                if vm.cursor.offset < cmds.len() {
                    let c = cmds[vm.cursor.offset as int];
                    assert(!blocking(script_of(t, vm.cursor.script)->0[vm.cursor.offset as int]));
                    assert(step(t, cfg, vm, g) == exec_command(t, cfg, vm, g, c, cmds.len()));
                }
            },
            None => {},
        }
        let (v2, g2, e) = step(t, cfg, vm, g);
        if e is None {
            lemma_step_keeps_running(t, cfg, vm, g);
            lemma_run_never_blocks(t, cfg, v2, g2, (fuel - 1) as nat);
        }
    }
}

/// When no script of the table waits on anything, a frame that finds a
/// script running never leaves it waiting: the frame ends because the script
/// ended (idle afterwards), yielded at an explicit end of the frame (still
/// running), or hit an engine fault (idle), and only otherwise after as many
/// commands as a `usize` counts.
pub proof fn lemma_no_blocking_one_frame(t: ScriptTable, cfg: VmConfig, vm: VmView, g: GameView)
    requires
        vm.state == VmState::Running,
        no_blocking_commands(t),
    ensures
        frame(t, cfg, vm, g).2 == FrameExit::Terminated || frame(t, cfg, vm, g).2 == FrameExit::EndFrame
            || frame(t, cfg, vm, g).2 == FrameExit::Aborted || frame(t, cfg, vm, g).2 == FrameExit::StepLimit,
        frame(t, cfg, vm, g).0.state == VmState::Idle <==> (frame(t, cfg, vm, g).2 == FrameExit::Terminated
            || frame(t, cfg, vm, g).2 == FrameExit::Aborted),
        frame(t, cfg, vm, g).0.state != VmState::Idle ==> frame(t, cfg, vm, g).0.state == VmState::Running,
{
    assert(VmView { state: VmState::Running, ..vm } == vm);
    lemma_run_never_blocks(t, cfg, vm, revealed(cfg, g), usize::MAX as nat);
}

} // verus!
