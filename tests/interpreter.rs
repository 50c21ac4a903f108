use doukutsu_rs::caret::{CaretType, Direction};
use doukutsu_rs::script::{Command, ScriptTable};
use doukutsu_rs::state::{FadeState, SharedGameState, KEY_JUMP};
use doukutsu_rs::vm::{Frame, FrameExit, TextScriptVM, VmConfig, VmState};

fn bank(scripts: Vec<(u16, Vec<Command>)>) -> Vec<Option<Vec<Command>>> {
    let mut out: Vec<Option<Vec<Command>>> = Vec::new();
    for (id, cmds) in scripts {
        while out.len() <= id as usize {
            out.push(None);
        }
        out[id as usize] = Some(cmds);
    }
    out
}

fn vm_with(scripts: Vec<(u16, Vec<Command>)>) -> TextScriptVM {
    let table = ScriptTable { global: bank(scripts), stage: Vec::new() };
    TextScriptVM::new(table, VmConfig::defaults())
}

#[test]
fn set_flag_then_branch_skips() {
    let mut cmds = vec![Command::SetFlag(5), Command::JumpIfFlag(5, 10)];
    for _ in 2..10 {
        cmds.push(Command::SetFlag(6));
    }
    cmds.push(Command::EndFrame);
    let mut vm = vm_with(vec![(1, cmds)]);
    let mut gs = SharedGameState::new();
    assert!(vm.start_script(1));
    let exit = vm.advance_one_frame(&mut gs);
    assert_eq!(exit, FrameExit::Terminated);
    assert!(gs.game_flags.get(5));
    assert!(!gs.game_flags.get(6));
    assert_eq!(vm.cursor, Frame { script: 1, offset: 11 });
    assert_eq!(vm.state, VmState::Idle);
}

#[test]
fn set_flag_then_branch_with_trailing_content() {
    let mut cmds = vec![Command::SetFlag(5), Command::JumpIfFlag(5, 10)];
    for _ in 2..10 {
        cmds.push(Command::SetFlag(6));
    }
    cmds.push(Command::EndFrame);
    cmds.push(Command::SetFlag(7));
    let mut vm = vm_with(vec![(1, cmds)]);
    let mut gs = SharedGameState::new();
    assert!(vm.start_script(1));
    assert_eq!(vm.advance_one_frame(&mut gs), FrameExit::EndFrame);
    assert!(gs.game_flags.get(5));
    assert!(!gs.game_flags.get(6));
    assert!(!gs.game_flags.get(7));
    assert_eq!(vm.cursor, Frame { script: 1, offset: 11 });
    assert_eq!(vm.state, VmState::Running);
    assert_eq!(vm.advance_one_frame(&mut gs), FrameExit::Terminated);
    assert!(gs.game_flags.get(7));
    assert_eq!(vm.state, VmState::Idle);
}

#[test]
fn long_straight_script_runs_in_one_frame() {
    let mut cmds = Vec::new();
    for i in 0..5000u16 {
        cmds.push(Command::SetFlag(i % 8000));
    }
    let mut vm = vm_with(vec![(0, cmds)]);
    let mut gs = SharedGameState::new();
    assert!(vm.start_script(0));
    assert_eq!(vm.advance_one_frame(&mut gs), FrameExit::Terminated);
    assert!(gs.game_flags.get(4999));
    assert_eq!(vm.state, VmState::Idle);
}

#[test]
fn branch_not_taken_when_flag_clear() {
    let cmds = vec![Command::JumpIfFlag(7, 3), Command::SetFlag(8), Command::End, Command::SetFlag(9)];
    let mut vm = vm_with(vec![(0, cmds)]);
    let mut gs = SharedGameState::new();
    assert!(vm.start_script(0));
    assert_eq!(vm.advance_one_frame(&mut gs), FrameExit::Terminated);
    assert!(gs.game_flags.get(8));
    assert!(!gs.game_flags.get(9));
}

#[test]
fn straight_script_runs_in_one_frame() {
    let cmds = vec![
        Command::SetFlag(1),
        Command::PlaySound(42),
        Command::SetFade(FadeState::FadeIn(Direction::Left)),
        Command::SpawnCaret(3, 4, CaretType::Zzz, Direction::Up),
        Command::Text(b"Hi".to_vec()),
        Command::ClearFlag(1),
    ];
    let mut vm = vm_with(vec![(2, cmds)]);
    let mut gs = SharedGameState::new();
    gs.game_flags.set(1, true);
    assert!(vm.start_script(2));
    assert_eq!(vm.advance_one_frame(&mut gs), FrameExit::Terminated);
    assert_eq!(vm.state, VmState::Idle);
    assert!(!gs.game_flags.get(1));
    assert_eq!(gs.sound_queue, vec![42]);
    assert_eq!(gs.fade_state, FadeState::FadeIn(Direction::Left));
    assert_eq!(gs.carets.len(), 1);
    assert_eq!(gs.carets[0].x, 3);
    assert_eq!(gs.carets[0].ctype, CaretType::Zzz);
    assert_eq!(gs.text, b"Hi".to_vec());
}

#[test]
fn idle_vm_does_nothing() {
    let mut vm = vm_with(vec![(0, vec![Command::SetFlag(1)])]);
    let mut gs = SharedGameState::new();
    assert_eq!(vm.advance_one_frame(&mut gs), FrameExit::Idle);
    assert!(!gs.game_flags.get(1));
}

#[test]
fn start_unknown_script_is_refused() {
    let mut vm = vm_with(vec![(0, vec![Command::End])]);
    assert!(!vm.start_script(3));
    assert_eq!(vm.state, VmState::Idle);
}

#[test]
fn waiting_for_key_keeps_position() {
    let cmds = vec![Command::Call(5), Command::End];
    let callee = vec![Command::WaitKey(KEY_JUMP), Command::SetFlag(3), Command::Return];
    let mut vm = vm_with(vec![(0, cmds), (5, callee)]);
    let mut gs = SharedGameState::new();
    assert!(vm.start_script(0));
    assert_eq!(vm.advance_one_frame(&mut gs), FrameExit::Blocked);
    assert_eq!(vm.state, VmState::WaitingForInput(KEY_JUMP));
    let cursor = vm.cursor;
    let stack = vm.stack.clone();
    for _ in 0..5 {
        gs.update_key_trigger();
        assert_eq!(vm.advance_one_frame(&mut gs), FrameExit::Blocked);
        assert_eq!(vm.cursor, cursor);
        assert_eq!(vm.stack, stack);
    }
    assert!(!gs.game_flags.get(3));
    gs.key_state = KEY_JUMP;
    gs.update_key_trigger();
    assert_eq!(vm.advance_one_frame(&mut gs), FrameExit::Terminated);
    assert!(gs.game_flags.get(3));
}

#[test]
fn call_returns_after_call_site() {
    let main = vec![Command::SetFlag(1), Command::Call(9), Command::EndFrame, Command::SetFlag(2)];
    let sub = vec![Command::SetFlag(10), Command::Return];
    let mut vm = vm_with(vec![(0, main), (9, sub)]);
    let mut gs = SharedGameState::new();
    assert!(vm.start_script(0));
    assert_eq!(vm.advance_one_frame(&mut gs), FrameExit::EndFrame);
    assert!(gs.game_flags.get(10));
    assert_eq!(vm.cursor, Frame { script: 0, offset: 3 });
    assert!(vm.stack.is_empty());
    assert!(!gs.game_flags.get(2));
    assert_eq!(vm.advance_one_frame(&mut gs), FrameExit::Terminated);
    assert!(gs.game_flags.get(2));
}

#[test]
fn running_off_callee_end_returns() {
    let main = vec![Command::Call(1), Command::SetFlag(2)];
    let sub = vec![Command::SetFlag(1)];
    let mut vm = vm_with(vec![(0, main), (1, sub)]);
    let mut gs = SharedGameState::new();
    assert!(vm.start_script(0));
    assert_eq!(vm.advance_one_frame(&mut gs), FrameExit::Terminated);
    assert!(gs.game_flags.get(1));
    assert!(gs.game_flags.get(2));
}

#[test]
fn wait_frames_counts_down() {
    let cmds = vec![Command::WaitFrames(3), Command::SetFlag(4)];
    let mut vm = vm_with(vec![(0, cmds)]);
    let mut gs = SharedGameState::new();
    assert!(vm.start_script(0));
    assert_eq!(vm.advance_one_frame(&mut gs), FrameExit::Blocked);
    assert_eq!(vm.state, VmState::WaitingFrames(3));
    assert_eq!(vm.advance_one_frame(&mut gs), FrameExit::Blocked);
    assert_eq!(vm.state, VmState::WaitingFrames(2));
    assert_eq!(vm.advance_one_frame(&mut gs), FrameExit::Blocked);
    assert_eq!(vm.state, VmState::WaitingFrames(1));
    assert!(!gs.game_flags.get(4));
    assert_eq!(vm.advance_one_frame(&mut gs), FrameExit::Terminated);
    assert!(gs.game_flags.get(4));
}

#[test]
fn text_is_typed_out_before_going_on() {
    let cmds = vec![Command::Text(b"abc".to_vec()), Command::WaitText, Command::SetFlag(1), Command::ClearText];
    let mut vm = vm_with(vec![(0, cmds)]);
    let mut gs = SharedGameState::new();
    assert!(vm.start_script(0));
    assert_eq!(vm.advance_one_frame(&mut gs), FrameExit::Blocked);
    assert_eq!(gs.text_shown, 0);
    assert_eq!(vm.advance_one_frame(&mut gs), FrameExit::Blocked);
    assert_eq!(gs.text_shown, 1);
    assert_eq!(vm.advance_one_frame(&mut gs), FrameExit::Blocked);
    assert_eq!(gs.text_shown, 2);
    assert!(!gs.game_flags.get(1));
    assert_eq!(vm.advance_one_frame(&mut gs), FrameExit::Terminated);
    assert!(gs.game_flags.get(1));
    assert!(gs.text.is_empty());
    assert_eq!(gs.text_shown, 0);
}

#[test]
fn runaway_recursion_aborts() {
    let mut vm = vm_with(vec![(0, vec![Command::Call(0)])]);
    let mut gs = SharedGameState::new();
    assert!(vm.start_script(0));
    assert_eq!(vm.advance_one_frame(&mut gs), FrameExit::Aborted);
    assert_eq!(vm.state, VmState::Idle);
    assert!(vm.stack.is_empty());
}

#[test]
fn bad_jump_and_flag_abort() {
    let mut vm = vm_with(vec![(0, vec![Command::Jump(5)]), (1, vec![Command::SetFlag(9000)])]);
    let mut gs = SharedGameState::new();
    assert!(vm.start_script(0));
    assert_eq!(vm.advance_one_frame(&mut gs), FrameExit::Aborted);
    assert!(vm.start_script(1));
    assert_eq!(vm.advance_one_frame(&mut gs), FrameExit::Aborted);
    assert_eq!(vm.state, VmState::Idle);
}

#[test]
fn new_script_replaces_running_one() {
    let main = vec![Command::Call(1)];
    let sub = vec![Command::WaitText, Command::Text(b"x".to_vec())];
    let mut vm = vm_with(vec![(0, main), (1, sub), (2, vec![Command::SetFlag(3)])]);
    let mut gs = SharedGameState::new();
    gs.text = b"long".to_vec();
    assert!(vm.start_script(0));
    assert_eq!(vm.advance_one_frame(&mut gs), FrameExit::Blocked);
    assert_eq!(vm.stack.len(), 1);
    assert!(vm.start_script(2));
    assert!(vm.stack.is_empty());
    assert_eq!(vm.cursor, Frame { script: 2, offset: 0 });
    assert_eq!(vm.advance_one_frame(&mut gs), FrameExit::Terminated);
    assert!(gs.game_flags.get(3));
}

#[test]
fn stage_scripts_shadow_and_replace() {
    let table = ScriptTable { global: bank(vec![(0, vec![Command::SetFlag(1)])]), stage: bank(vec![(0, vec![Command::SetFlag(2)])]) };
    let mut vm = TextScriptVM::new(table, VmConfig::defaults());
    let mut gs = SharedGameState::new();
    assert!(!vm.runs_stage_script());
    assert!(vm.start_script(0));
    assert!(vm.runs_stage_script());
    assert_eq!(vm.advance_one_frame(&mut gs), FrameExit::Terminated);
    assert!(gs.game_flags.get(2));
    assert!(!gs.game_flags.get(1));
    vm.replace_stage_scripts(Vec::new());
    assert!(vm.start_script(0));
    assert!(!vm.runs_stage_script());
    assert_eq!(vm.advance_one_frame(&mut gs), FrameExit::Terminated);
    assert!(gs.game_flags.get(1));
}
