use doukutsu_rs::caret::{Caret, CaretType, Direction};
use doukutsu_rs::flags::{FlagBank, FLAG_COUNT};
use doukutsu_rs::state::{
    base_path, detect_data_kind, DataFiles, DataKind, FadeState, KeyCode, SharedGameState, KEY_FIRE, KEY_JUMP,
    KEY_LEFT, KEY_WEAPON_PREV,
};

#[test]
fn key_trigger_fires_on_rising_edge_only() {
    let mut gs = SharedGameState::new();
    let held = [0u16, 1, 1, 0];
    let mut triggers = Vec::new();
    for h in held.iter() {
        gs.key_state = *h;
        gs.update_key_trigger();
        triggers.push(gs.key_trigger);
    }
    assert_eq!(triggers, vec![0, 1, 0, 0]);
}

#[test]
fn key_trigger_per_bit() {
    let mut gs = SharedGameState::new();
    gs.key_state = KEY_LEFT | KEY_JUMP;
    gs.update_key_trigger();
    assert_eq!(gs.key_trigger, KEY_LEFT | KEY_JUMP);
    gs.key_state = KEY_LEFT | KEY_FIRE;
    gs.update_key_trigger();
    assert_eq!(gs.key_trigger, KEY_FIRE);
    assert_eq!(gs.key_old, KEY_LEFT | KEY_FIRE);
}

#[test]
fn key_events_set_and_clear_bits() {
    let mut gs = SharedGameState::new();
    gs.key_down_event(KeyCode::Left, false);
    gs.key_down_event(KeyCode::Z, false);
    assert_eq!(gs.key_state, KEY_LEFT | KEY_JUMP);
    gs.key_down_event(KeyCode::A, true);
    assert_eq!(gs.key_state, KEY_LEFT | KEY_JUMP);
    gs.key_down_event(KeyCode::A, false);
    assert_eq!(gs.key_state, KEY_LEFT | KEY_JUMP | KEY_WEAPON_PREV);
    gs.key_down_event(KeyCode::Other, false);
    assert_eq!(gs.key_state, KEY_LEFT | KEY_JUMP | KEY_WEAPON_PREV);
    gs.key_up_event(KeyCode::Z);
    assert_eq!(gs.key_state, KEY_LEFT | KEY_WEAPON_PREV);
    gs.key_up_event(KeyCode::Left);
    gs.key_up_event(KeyCode::A);
    assert_eq!(gs.key_state, 0);
}

#[test]
fn caret_removed_after_lifetime() {
    let mut gs = SharedGameState::new();
    gs.create_caret(10, 20, CaretType::Projectile, Direction::Left);
    assert_eq!(gs.carets.len(), 1);
    assert_eq!(gs.carets[0].lifetime, 16);
    for _ in 0..15 {
        gs.tick_carets();
        assert_eq!(gs.carets.len(), 1);
    }
    assert_eq!(gs.carets[0].age, 15);
    gs.tick_carets();
    assert!(gs.carets.is_empty());
    gs.tick_carets();
    assert!(gs.carets.is_empty());
}

#[test]
fn caret_compaction_keeps_live_ones_in_order() {
    let mut gs = SharedGameState::new();
    gs.create_caret(1, 1, CaretType::Projectile, Direction::Up);
    gs.create_caret(2, 2, CaretType::LevelUp, Direction::Right);
    gs.create_caret(3, 3, CaretType::Zzz, Direction::Bottom);
    for _ in 0..16 {
        gs.tick_carets();
    }
    assert_eq!(gs.carets.len(), 2);
    assert_eq!(gs.carets[0].x, 2);
    assert_eq!(gs.carets[1].x, 3);
    assert_eq!(gs.carets[1].age, 16);
}

#[test]
fn caret_tick_and_death() {
    let mut c = Caret::new(0, 0, CaretType::Shoot, Direction::Left);
    assert!(!c.is_dead());
    for _ in 0..16 {
        c.tick();
    }
    assert!(c.is_dead());
    c.tick();
    assert_eq!(c.age, 16);
}

#[test]
fn new_state_defaults() {
    let gs = SharedGameState::new();
    assert_eq!(gs.game_flags.len(), FLAG_COUNT);
    assert_eq!(FLAG_COUNT, 8000);
    assert!(!gs.game_flags.get(7999));
    assert_eq!(gs.fade_state, FadeState::Hidden);
    assert_eq!(gs.key_state, 0);
    assert!(gs.text.is_empty());
}

#[test]
fn flag_bank_set_and_get() {
    let mut f = FlagBank::new(16);
    assert_eq!(f.len(), 16);
    f.set(3, true);
    assert!(f.get(3));
    assert!(!f.get(2));
    assert!(!f.get(4));
    f.set(3, false);
    assert!(!f.get(3));
    f.set(15, true);
    assert!(f.get(15));
}

#[test]
fn data_kind_detection() {
    let none = DataFiles { nicalis_bmp: false, mrmap_bin: false, font: false, stage_dat: false, sprites_sif: false };
    assert_eq!(detect_data_kind(none), DataKind::Freeware);
    assert_eq!(detect_data_kind(DataFiles { nicalis_bmp: true, font: true, ..none }), DataKind::CaveStoryPlus);
    assert_eq!(detect_data_kind(DataFiles { font: true, ..none }), DataKind::Cse2e);
    assert_eq!(detect_data_kind(DataFiles { mrmap_bin: true, ..none }), DataKind::Cse2e);
    assert_eq!(detect_data_kind(DataFiles { sprites_sif: true, ..none }), DataKind::NxEngineEvo);
    assert_eq!(base_path(DataKind::CaveStoryPlus), "/base/");
    assert_eq!(base_path(DataKind::Cse2e), "/");
}
