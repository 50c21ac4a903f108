use doukutsu_rs::caret::{CaretType, Direction};
use doukutsu_rs::decode::{decode_one, decode_script, load_stage, DecodeError};
use doukutsu_rs::script::Command;
use doukutsu_rs::state::FadeState;

fn known(ids: &[u16]) -> Vec<bool> {
    let mut k = vec![false; 32];
    for id in ids {
        k[*id as usize] = true;
    }
    k
}

#[test]
fn decodes_every_command() {
    let bytes: Vec<u8> = vec![
        0x01, 0x05, 0x00, // SetFlag(5)
        0x02, 0x34, 0x12, // ClearFlag(0x1234)
        0x03, 0x07, 0x00, // PlaySound(7)
        0x04, 0x06, // SetFade(FadeOut(Left))
        0x05, 0xFE, 0xFF, 0x10, 0x00, 0x03, 0x02, // SpawnCaret(-2, 16, Zzz, Right)
        0x06, 0x02, b'o', b'k', // Text("ok")
        0x07, // ClearText
        0x10, 0x02, 0x00, // Jump(2)
        0x11, 0x05, 0x00, 0x01, 0x00, // JumpIfFlag(5, 1)
        0x12, 0x03, 0x00, // Call(3)
        0x13, // Return
        0x20, 0x3C, 0x00, // WaitFrames(60)
        0x21, 0x20, 0x00, // WaitKey(32)
        0x22, 0x30, 0x31, // WaitText, EndFrame, End
    ];
    let cmds = decode_script(&bytes, &known(&[3])).unwrap();
    assert_eq!(cmds.len(), 16);
    assert!(matches!(cmds[0], Command::SetFlag(5)));
    assert!(matches!(cmds[1], Command::ClearFlag(0x1234)));
    assert!(matches!(cmds[2], Command::PlaySound(7)));
    assert!(matches!(cmds[3], Command::SetFade(FadeState::FadeOut(Direction::Left))));
    assert!(matches!(cmds[4], Command::SpawnCaret(-2, 16, CaretType::Zzz, Direction::Right)));
    match &cmds[5] {
        Command::Text(t) => assert_eq!(t, &b"ok".to_vec()),
        _ => panic!("expected text"),
    }
    assert!(matches!(cmds[6], Command::ClearText));
    assert!(matches!(cmds[7], Command::Jump(2)));
    assert!(matches!(cmds[8], Command::JumpIfFlag(5, 1)));
    assert!(matches!(cmds[9], Command::Call(3)));
    assert!(matches!(cmds[10], Command::Return));
    assert!(matches!(cmds[11], Command::WaitFrames(60)));
    assert!(matches!(cmds[12], Command::WaitKey(32)));
    assert!(matches!(cmds[13], Command::WaitText));
    assert!(matches!(cmds[14], Command::EndFrame));
    assert!(matches!(cmds[15], Command::End));
}

#[test]
fn empty_script_decodes_empty() {
    assert!(decode_script(&[], &known(&[])).unwrap().is_empty());
}

#[test]
fn unknown_opcode_is_refused() {
    assert_eq!(decode_script(&[0x30, 0x99], &known(&[])).unwrap_err(), DecodeError::UnknownOpcode(0x99));
}

#[test]
fn truncated_operand_is_refused() {
    assert_eq!(decode_script(&[0x01, 0x05], &known(&[])).unwrap_err(), DecodeError::Truncated);
    assert_eq!(decode_script(&[0x06, 0x03, b'a', b'b'], &known(&[])).unwrap_err(), DecodeError::Truncated);
    assert_eq!(decode_script(&[0x11, 0, 0, 0], &known(&[])).unwrap_err(), DecodeError::Truncated);
}

#[test]
fn dangling_call_is_refused() {
    assert_eq!(decode_script(&[0x12, 0x04, 0x00], &known(&[3])).unwrap_err(), DecodeError::DanglingCall(4));
    assert_eq!(decode_script(&[0x12, 0x00, 0x01], &known(&[3])).unwrap_err(), DecodeError::DanglingCall(256));
}

#[test]
fn invalid_operand_is_refused() {
    assert_eq!(decode_script(&[0x04, 0x0A], &known(&[])).unwrap_err(), DecodeError::InvalidOperand(0x0A));
    assert_eq!(
        decode_script(&[0x05, 0, 0, 0, 0, 0x0C, 0], &known(&[])).unwrap_err(),
        DecodeError::InvalidOperand(0x0C)
    );
    assert_eq!(decode_script(&[0x05, 0, 0, 0, 0, 0, 4], &known(&[])).unwrap_err(), DecodeError::InvalidOperand(4));
}

#[test]
fn decode_one_reports_next_position() {
    let bytes = [0x30, 0x06, 0x01, b'z', 0x31];
    let (c, next) = decode_one(&bytes, 1, &known(&[])).unwrap();
    assert_eq!(next, 4);
    assert!(matches!(c, Command::Text(_)));
}

fn record(id: u16, body: &[u8]) -> Vec<u8> {
    let mut r = vec![(id & 0xFF) as u8, (id >> 8) as u8, body.len() as u8, 0];
    r.extend_from_slice(body);
    r
}

#[test]
fn load_stage_builds_table() {
    let mut blob = record(200, &[0x12, 0x2C, 0x01, 0x31]); // Call(300), End
    blob.extend(record(300, &[0x01, 0x09, 0x00])); // SetFlag(9)
    blob.extend(record(5, &[0x12, 0x01, 0x00])); // Call(1), a global script
    let global: Vec<Option<Vec<Command>>> = vec![None, Some(vec![Command::End])];
    let table = load_stage(global, &blob).unwrap();
    assert_eq!(table.global.len(), 2);
    assert!(matches!(table.lookup(200).unwrap()[0], Command::Call(300)));
    assert!(matches!(table.lookup(300).unwrap()[0], Command::SetFlag(9)));
    assert!(matches!(table.lookup(5).unwrap()[0], Command::Call(1)));
    assert!(matches!(table.lookup(1).unwrap()[0], Command::End));
    assert!(table.lookup(6).is_none());
    assert!(table.stage_has(300));
    assert!(!table.stage_has(1));
}

#[test]
fn load_stage_later_record_replaces_earlier() {
    let mut blob = record(7, &[0x30]);
    blob.extend(record(7, &[0x31, 0x31]));
    let table = load_stage(Vec::new(), &blob).unwrap();
    assert_eq!(table.lookup(7).unwrap().len(), 2);
}

#[test]
fn load_stage_refuses_bad_blobs() {
    assert_eq!(load_stage(Vec::new(), &[0x01, 0x00, 0x05]).unwrap_err(), DecodeError::Truncated);
    assert_eq!(load_stage(Vec::new(), &[0x01, 0x00, 0x05, 0x00, 0x31]).unwrap_err(), DecodeError::Truncated);
    assert_eq!(load_stage(Vec::new(), &record(1, &[0x12, 0x02, 0x00])).unwrap_err(), DecodeError::DanglingCall(2));
    let mut blob = record(1, &[0x31]);
    blob.extend(record(2, &[0x77]));
    assert_eq!(load_stage(Vec::new(), &blob).unwrap_err(), DecodeError::UnknownOpcode(0x77));
}

#[test]
fn load_stage_empty_blob() {
    let table = load_stage(Vec::new(), &[]).unwrap();
    assert!(table.lookup(0).is_none());
}
