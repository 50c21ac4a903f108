use crate::caret::{CaretType, Direction};
use crate::script::{bank_script, Command, ScriptTable};
use crate::state::FadeState;
use vstd::prelude::*;

verus! {

/// Why a script's bytes could not be decoded.
#[derive(Clone, Copy, Debug, PartialEq, Eq, Structural)]
pub enum DecodeError {
    /// A command starts with a byte that names no command.
    UnknownOpcode(u8),
    /// The bytes end inside a command.
    Truncated,
    /// An operand holds a value that its command does not accept.
    InvalidOperand(u8),
    /// A call names a script that is not registered.
    DanglingCall(u16),
}

/// The value of a command, with its text as a sequence.
pub enum CommandView {
    SetFlag(u16),
    ClearFlag(u16),
    PlaySound(u16),
    SetFade(FadeState),
    SpawnCaret(i32, i32, CaretType, Direction),
    Text(Seq<u8>),
    ClearText,
    Jump(u16),
    JumpIfFlag(u16, u16),
    Call(u16),
    Return,
    WaitFrames(u16),
    WaitKey(u16),
    WaitText,
    EndFrame,
    End,
}

impl View for Command {
    type V = CommandView;

    open spec fn view(&self) -> CommandView {
        match self {
            Command::SetFlag(f) => CommandView::SetFlag(*f),
            Command::ClearFlag(f) => CommandView::ClearFlag(*f),
            Command::PlaySound(s) => CommandView::PlaySound(*s),
            Command::SetFade(f) => CommandView::SetFade(*f),
            Command::SpawnCaret(x, y, t, d) => CommandView::SpawnCaret(*x, *y, *t, *d),
            Command::Text(s) => CommandView::Text(s@),
            Command::ClearText => CommandView::ClearText,
            Command::Jump(o) => CommandView::Jump(*o),
            Command::JumpIfFlag(f, o) => CommandView::JumpIfFlag(*f, *o),
            Command::Call(id) => CommandView::Call(*id),
            Command::Return => CommandView::Return,
            Command::WaitFrames(n) => CommandView::WaitFrames(*n),
            Command::WaitKey(m) => CommandView::WaitKey(*m),
            Command::WaitText => CommandView::WaitText,
            Command::EndFrame => CommandView::EndFrame,
            Command::End => CommandView::End,
        }
    }
}

/// The little-endian 16-bit value at `p`.
pub open spec fn u16_at(b: Seq<u8>, p: int) -> u16 {
    (b[p] + 256 * b[p + 1]) as u16
}

pub open spec fn caret_type_of(v: u8) -> Option<CaretType> {
    if v == 0 {
        Some(CaretType::Bubble)
    } else if v == 1 {
        Some(CaretType::Projectile)
    } else if v == 2 {
        Some(CaretType::Shoot)
    } else if v == 3 {
        Some(CaretType::Zzz)
    } else if v == 4 {
        Some(CaretType::Exhaust)
    } else if v == 5 {
        Some(CaretType::QuestionMark)
    } else if v == 6 {
        Some(CaretType::LevelUp)
    } else if v == 7 {
        Some(CaretType::HurtParticles)
    } else if v == 8 {
        Some(CaretType::Explosion)
    } else if v == 9 {
        Some(CaretType::LittleParticles)
    } else {
        None
    }
}

pub open spec fn direction_of(v: u8) -> Option<Direction> {
    if v == 0 {
        Some(Direction::Left)
    } else if v == 1 {
        Some(Direction::Up)
    } else if v == 2 {
        Some(Direction::Right)
    } else if v == 3 {
        Some(Direction::Bottom)
    } else {
        None
    }
}

/// Fades: 0 shown, 1 hidden, 2 to 5 fading in and 6 to 9 fading out, towards
/// each direction in turn.
pub open spec fn fade_of(v: u8) -> Option<FadeState> {
    if v == 0 {
        Some(FadeState::Visible)
    } else if v == 1 {
        Some(FadeState::Hidden)
    } else if 2 <= v < 6 {
        Some(FadeState::FadeIn(direction_of((v - 2) as u8)->0))
    } else if 6 <= v < 10 {
        Some(FadeState::FadeOut(direction_of((v - 6) as u8)->0))
    } else {
        None
    }
}

/// Whether script `id` is among the registered ids.
pub open spec fn known_id(known: Seq<bool>, id: u16) -> bool {
    id < known.len() && known[id as int]
}

/// The command that starts at `p`, with the position after it.
pub open spec fn decode_command(b: Seq<u8>, p: int, known: Seq<bool>) -> Result<(CommandView, int), DecodeError> {
    let op = b[p];
    let left = b.len() - p;
    if op == 0x01 || op == 0x02 || op == 0x03 || op == 0x10 || op == 0x12 || op == 0x20 || op == 0x21 {
        if left < 3 {
            Err(DecodeError::Truncated)
        } else {
            let v = u16_at(b, p + 1);
            if op == 0x01 {
                Ok((CommandView::SetFlag(v), p + 3))
            } else if op == 0x02 {
                Ok((CommandView::ClearFlag(v), p + 3))
            } else if op == 0x03 {
                Ok((CommandView::PlaySound(v), p + 3))
            } else if op == 0x10 {
                Ok((CommandView::Jump(v), p + 3))
            } else if op == 0x12 {
                if known_id(known, v) {
                    Ok((CommandView::Call(v), p + 3))
                } else {
                    Err(DecodeError::DanglingCall(v))
                }
            } else if op == 0x20 {
                Ok((CommandView::WaitFrames(v), p + 3))
            } else {
                Ok((CommandView::WaitKey(v), p + 3))
            }
        }
    } else if op == 0x04 {
        if left < 2 {
            Err(DecodeError::Truncated)
        } else {
            match fade_of(b[p + 1]) {
                Some(f) => Ok((CommandView::SetFade(f), p + 2)),
                None => Err(DecodeError::InvalidOperand(b[p + 1])),
            }
        }
    } else if op == 0x05 {
        if left < 7 {
            Err(DecodeError::Truncated)
        } else {
            match (caret_type_of(b[p + 5]), direction_of(b[p + 6])) {
                (Some(t), Some(d)) => Ok((
                    CommandView::SpawnCaret(
                        u16_at(b, p + 1) as i16 as i32,
                        u16_at(b, p + 3) as i16 as i32,
                        t,
                        d,
                    ),
                    p + 7,
                )),
                (None, _) => Err(DecodeError::InvalidOperand(b[p + 5])),
                (_, None) => Err(DecodeError::InvalidOperand(b[p + 6])),
            }
        }
    } else if op == 0x06 {
        if left < 2 || left < 2 + b[p + 1] {
            Err(DecodeError::Truncated)
        } else {
            Ok((CommandView::Text(b.subrange(p + 2, p + 2 + b[p + 1])), p + 2 + b[p + 1]))
        }
    } else if op == 0x11 {
        if left < 5 {
            Err(DecodeError::Truncated)
        } else {
            Ok((CommandView::JumpIfFlag(u16_at(b, p + 1), u16_at(b, p + 3)), p + 5))
        }
    } else if op == 0x07 {
        Ok((CommandView::ClearText, p + 1))
    } else if op == 0x13 {
        Ok((CommandView::Return, p + 1))
    } else if op == 0x22 {
        Ok((CommandView::WaitText, p + 1))
    } else if op == 0x30 {
        Ok((CommandView::EndFrame, p + 1))
    } else if op == 0x31 {
        Ok((CommandView::End, p + 1))
    } else {
        Err(DecodeError::UnknownOpcode(op))
    }
}

/// The commands encoded from `p` to the end of `b`, back to back, or the
/// first error met.
pub open spec fn decode_from(b: Seq<u8>, p: int, known: Seq<bool>) -> Result<Seq<CommandView>, DecodeError>
    decreases b.len() - p,
{
    if p < 0 || p >= b.len() {
        Ok(Seq::empty())
    } else {
        match decode_command(b, p, known) {
            Err(e) => Err(e),
            Ok((c, q)) => if q <= p {
                Ok(Seq::empty())
            } else {
                match decode_from(b, q, known) {
                    Ok(rest) => Ok(seq![c] + rest),
                    Err(e) => Err(e),
                }
            },
        }
    }
}

/// `r` with `s` in front of its commands.
pub open spec fn prepend(s: Seq<CommandView>, r: Result<Seq<CommandView>, DecodeError>) -> Result<Seq<CommandView>, DecodeError> {
    match r {
        Ok(x) => Ok(s + x),
        Err(e) => Err(e),
    }
}

pub open spec fn views(v: Seq<Command>) -> Seq<CommandView> {
    v.map_values(|c: Command| c@)
}

fn read_u16(b: &[u8], p: usize) -> (r: u16)
    requires
        p + 1 < b@.len(),
    ensures
        r == u16_at(b@, p as int),
{
    b[p] as u16 + (b[p + 1] as u16) * 256
}

fn caret_type_from(v: u8) -> (r: Option<CaretType>)
    ensures
        r == caret_type_of(v),
{
    match v {
        0 => Some(CaretType::Bubble),
        1 => Some(CaretType::Projectile),
        2 => Some(CaretType::Shoot),
        3 => Some(CaretType::Zzz),
        4 => Some(CaretType::Exhaust),
        5 => Some(CaretType::QuestionMark),
        6 => Some(CaretType::LevelUp),
        7 => Some(CaretType::HurtParticles),
        8 => Some(CaretType::Explosion),
        9 => Some(CaretType::LittleParticles),
        _ => None,
    }
}

fn direction_from(v: u8) -> (r: Option<Direction>)
    ensures
        r == direction_of(v),
{
    match v {
        0 => Some(Direction::Left),
        1 => Some(Direction::Up),
        2 => Some(Direction::Right),
        3 => Some(Direction::Bottom),
        _ => None,
    }
}

fn fade_from(v: u8) -> (r: Option<FadeState>)
    ensures
        r == fade_of(v),
{
    if v == 0 {
        Some(FadeState::Visible)
    } else if v == 1 {
        Some(FadeState::Hidden)
    } else if v < 6 {
        match direction_from(v - 2) {
            Some(d) => Some(FadeState::FadeIn(d)),
            None => None,
        }
    } else if v < 10 {
        match direction_from(v - 6) {
            Some(d) => Some(FadeState::FadeOut(d)),
            None => None,
        }
    } else {
        None
    }
}

fn copy_bytes(b: &[u8], from: usize, to: usize) -> (r: Vec<u8>)
    requires
        from <= to <= b@.len(),
    ensures
        r@ == b@.subrange(from as int, to as int),
{
    let mut out: Vec<u8> = Vec::new();
    let mut i = from;
    while i < to
        invariant
            from <= i <= to <= b@.len(),
            out@ == b@.subrange(from as int, i as int),
        decreases to - i,
    {
        out.push(b[i]);
        assert(out@ =~= b@.subrange(from as int, i + 1));
        i = i + 1;
    }
    out
}

/// Decodes the command that starts at `p`.
pub fn decode_one(b: &[u8], p: usize, known: &Vec<bool>) -> (r: Result<(Command, usize), DecodeError>)
    requires
        p < b@.len(),
    ensures
        match decode_command(b@, p as int, known@) {
            Ok((c, q)) => r matches Ok((rc, rq)) && rc@ == c && rq == q,
            Err(e) => r == Err::<(Command, usize), DecodeError>(e),
        },
{
    let op = b[p];
    let left = b.len() - p;
    if op == 0x01 || op == 0x02 || op == 0x03 || op == 0x10 || op == 0x12 || op == 0x20 || op == 0x21 {
        if left < 3 {
            return Err(DecodeError::Truncated);
        }
        let v = read_u16(b, p + 1);
        let c = if op == 0x01 {
            Command::SetFlag(v)
        } else if op == 0x02 {
            Command::ClearFlag(v)
        } else if op == 0x03 {
            Command::PlaySound(v)
        } else if op == 0x10 {
            Command::Jump(v)
        } else if op == 0x12 {
            if (v as usize) < known.len() && known[v as usize] {
                Command::Call(v)
            } else {
                return Err(DecodeError::DanglingCall(v));
            }
        } else if op == 0x20 {
            Command::WaitFrames(v)
        } else {
            Command::WaitKey(v)
        };
        Ok((c, p + 3))
    } else if op == 0x04 {
        if left < 2 {
            return Err(DecodeError::Truncated);
        }
        match fade_from(b[p + 1]) {
            Some(f) => Ok((Command::SetFade(f), p + 2)),
            None => Err(DecodeError::InvalidOperand(b[p + 1])),
        }
    } else if op == 0x05 {
        if left < 7 {
            return Err(DecodeError::Truncated);
        }
        let t = caret_type_from(b[p + 5]);
        let d = direction_from(b[p + 6]);
        match (t, d) {
            (Some(t), Some(d)) => {
                let x = read_u16(b, p + 1) as i16 as i32;
                let y = read_u16(b, p + 3) as i16 as i32;
                Ok((Command::SpawnCaret(x, y, t, d), p + 7))
            },
            (None, _) => Err(DecodeError::InvalidOperand(b[p + 5])),
            (_, None) => Err(DecodeError::InvalidOperand(b[p + 6])),
        }
    } else if op == 0x06 {
        if left < 2 || left - 2 < b[p + 1] as usize {
            return Err(DecodeError::Truncated);
        }
        let end = p + 2 + b[p + 1] as usize;
        let s = copy_bytes(b, p + 2, end);
        Ok((Command::Text(s), end))
    } else if op == 0x11 {
        if left < 5 {
            return Err(DecodeError::Truncated);
        }
        Ok((Command::JumpIfFlag(read_u16(b, p + 1), read_u16(b, p + 3)), p + 5))
    } else if op == 0x07 {
        Ok((Command::ClearText, p + 1))
    } else if op == 0x13 {
        Ok((Command::Return, p + 1))
    } else if op == 0x22 {
        Ok((Command::WaitText, p + 1))
    } else if op == 0x30 {
        Ok((Command::EndFrame, p + 1))
    } else if op == 0x31 {
        Ok((Command::End, p + 1))
    } else {
        Err(DecodeError::UnknownOpcode(op))
    }
}

/// Decodes a script's commands, encoded back to back; a call may name only a
/// script `id` with `known[id]` set. The whole script is refused on the first
/// error.
pub fn decode_script(b: &[u8], known: &Vec<bool>) -> (r: Result<Vec<Command>, DecodeError>)
    ensures
        match decode_from(b@, 0, known@) {
            Ok(cs) => r matches Ok(v) && views(v@) == cs,
            Err(e) => r == Err::<Vec<Command>, DecodeError>(e),
        },
{
    let mut out: Vec<Command> = Vec::new();
    let mut p: usize = 0;
    while p < b.len()
        invariant
            p <= b@.len(),
            decode_from(b@, 0, known@) == prepend(views(out@), decode_from(b@, p as int, known@)),
        decreases b@.len() - p,
    {
        let r = decode_one(b, p, known);
        match r {
            Err(e) => {
                return Err(e);
            },
            Ok((c, q)) => {
                proof {
                    let (cv, q2) = decode_command(b@, p as int, known@)->Ok_0;
                    assert(q2 > p);
                    match decode_from(b@, q as int, known@) {
                        Ok(rest) => {
                            assert(views(out@.push(c)) =~= views(out@).push(c@));
                            assert(views(out@) + (seq![cv] + rest) =~= views(out@.push(c)) + rest);
                        },
                        Err(_) => {},
                    }
                }
                out.push(c);
                p = q;
            },
        }
    }
    assert(views(out@) + Seq::<CommandView>::empty() =~= views(out@));
    Ok(out)
}

/// The number of script ids.
pub const SCRIPT_ID_COUNT: usize = 65536;

/// The records of a stage blob from `p` on: each is a script id and a byte
/// count, both little-endian 16-bit, then that many bytes of commands.
pub open spec fn records_from(b: Seq<u8>, p: int) -> Result<Seq<(u16, Seq<u8>)>, DecodeError>
    decreases b.len() - p,
{
    if p < 0 || p >= b.len() {
        Ok(Seq::empty())
    } else if b.len() - p < 4 {
        Err(DecodeError::Truncated)
    } else {
        let n = u16_at(b, p + 2) as int;
        if b.len() - p - 4 < n {
            Err(DecodeError::Truncated)
        } else {
            match records_from(b, p + 4 + n) {
                Ok(rest) => Ok(seq![(u16_at(b, p), b.subrange(p + 4, p + 4 + n))] + rest),
                Err(e) => Err(e),
            }
        }
    }
}

/// The ids a stage's calls may name: those of the global bank and those of
/// the stage's own records.
pub open spec fn known_ids(global: Seq<Option<Vec<Command>>>, recs: Seq<(u16, Seq<u8>)>) -> Seq<bool> {
    Seq::new(
        SCRIPT_ID_COUNT as nat,
        |i: int|
            (i < global.len() && global[i] is Some) || exists|j: int| 0 <= j < recs.len() && #[trigger] recs[j].0 == i,
    )
}

/// The scripts that the records define, decoded in order; a later record of
/// an id replaces an earlier one. The first record that fails to decode
/// gives the error.
pub open spec fn bank_of(recs: Seq<(u16, Seq<u8>)>, known: Seq<bool>) -> Result<Map<u16, Seq<CommandView>>, DecodeError>
    decreases recs.len(),
{
    if recs.len() == 0 {
        Ok(Map::empty())
    } else {
        match bank_of(recs.drop_last(), known) {
            Err(e) => Err(e),
            Ok(m) => match decode_from(recs.last().1, 0, known) {
                Err(e) => Err(e),
                Ok(cs) => Ok(m.insert(recs.last().0, cs)),
            },
        }
    }
}

pub open spec fn record_views(v: Seq<(u16, Vec<u8>)>) -> Seq<(u16, Seq<u8>)> {
    v.map_values(|r: (u16, Vec<u8>)| (r.0, r.1@))
}

pub open spec fn prepend_records(
    s: Seq<(u16, Seq<u8>)>,
    r: Result<Seq<(u16, Seq<u8>)>, DecodeError>,
) -> Result<Seq<(u16, Seq<u8>)>, DecodeError> {
    match r {
        Ok(x) => Ok(s + x),
        Err(e) => Err(e),
    }
}

/// Splits a stage blob into its records.
pub fn split_records(b: &[u8]) -> (r: Result<Vec<(u16, Vec<u8>)>, DecodeError>)
    ensures
        match records_from(b@, 0) {
            Ok(recs) => r matches Ok(v) && record_views(v@) == recs,
            Err(e) => r == Err::<Vec<(u16, Vec<u8>)>, DecodeError>(e),
        },
{
    let mut out: Vec<(u16, Vec<u8>)> = Vec::new();
    let mut p: usize = 0;
    while p < b.len()
        invariant
            p <= b@.len(),
            records_from(b@, 0) == prepend_records(record_views(out@), records_from(b@, p as int)),
        decreases b@.len() - p,
    {
        if b.len() - p < 4 {
            return Err(DecodeError::Truncated);
        }
        let id = read_u16(b, p);
        let n = read_u16(b, p + 2) as usize;
        if b.len() - p - 4 < n {
            return Err(DecodeError::Truncated);
        }
        let body = copy_bytes(b, p + 4, p + 4 + n);
        proof {
            let q = p + 4 + n;
            match records_from(b@, q as int) {
                Ok(rest) => {
                    assert(record_views(out@.push((id, body))) =~= record_views(out@).push((id, body@)));
                    assert(record_views(out@) + (seq![(id, body@)] + rest) =~= record_views(out@.push((id, body)))
                        + rest);
                },
                Err(_) => {},
            }
        }
        out.push((id, body));
        p = p + 4 + n;
    }
    assert(record_views(out@) + Seq::<(u16, Seq<u8>)>::empty() =~= record_views(out@));
    Ok(out)
}

fn known_ids_of(global: &Vec<Option<Vec<Command>>>, recs: &Vec<(u16, Vec<u8>)>) -> (r: Vec<bool>)
    ensures
        r@ == known_ids(global@, record_views(recs@)),
{
    let mut known: Vec<bool> = Vec::new();
    let mut i: usize = 0;
    while i < SCRIPT_ID_COUNT
        invariant
            i <= SCRIPT_ID_COUNT,
            known@.len() == i,
            forall|x: int| 0 <= x < i ==> #[trigger] known@[x] == (x < global@.len() && global@[x] is Some),
        decreases SCRIPT_ID_COUNT - i,
    {
        known.push(i < global.len() && global[i].is_some());
        i = i + 1;
    }
    let ghost rv = record_views(recs@);
    let mut k: usize = 0;
    while k < recs.len()
        invariant
            k <= recs@.len(),
            rv == record_views(recs@),
            known@.len() == SCRIPT_ID_COUNT,
            forall|x: int|
                0 <= x < SCRIPT_ID_COUNT ==> #[trigger] known@[x] == ((x < global@.len() && global@[x] is Some)
                    || exists|j: int| 0 <= j < k && #[trigger] rv[j].0 == x),
        decreases recs@.len() - k,
    {
        let id = recs[k].0;
        known.set(id as usize, true);
        assert(rv[k as int].0 == id);
        assert forall|x: int| 0 <= x < SCRIPT_ID_COUNT implies #[trigger] known@[x] == ((x < global@.len()
            && global@[x] is Some) || exists|j: int| 0 <= j < k + 1 && #[trigger] rv[j].0 == x) by {
            if x != id as int {
                if exists|j: int| 0 <= j < k + 1 && #[trigger] rv[j].0 == x {
                    let j = choose|j: int| 0 <= j < k + 1 && #[trigger] rv[j].0 == x;
                    assert(j != k);
                }
            }
        }
        k = k + 1;
    }
    assert(known@ =~= known_ids(global@, rv));
    known
}

/// Once a prefix of the records fails, so do all of them, with its error.
proof fn lemma_bank_error_persists(recs: Seq<(u16, Seq<u8>)>, k: int, known: Seq<bool>)
    requires
        0 <= k <= recs.len(),
        bank_of(recs.take(k), known) is Err,
    ensures
        bank_of(recs, known) == bank_of(recs.take(k), known),
    decreases recs.len() - k,
{
    if k == recs.len() {
        assert(recs.take(k) =~= recs);
    } else {
        assert(recs.drop_last().take(k) =~= recs.take(k));
        lemma_bank_error_persists(recs.drop_last(), k, known);
    }
}

/// Loads a stage blob beside a global bank of scripts. Each call must name a
/// script of the global bank or of the blob; nothing is loaded unless the
/// whole blob decodes.
pub fn load_stage(global: Vec<Option<Vec<Command>>>, blob: &[u8]) -> (r: Result<ScriptTable, DecodeError>)
    ensures
        match records_from(blob@, 0) {
            Err(e) => r == Err::<ScriptTable, DecodeError>(e),
            Ok(recs) => match bank_of(recs, known_ids(global@, recs)) {
                Err(e) => r == Err::<ScriptTable, DecodeError>(e),
                Ok(m) => r matches Ok(t) && t.global == global && forall|id: u16|
                    (#[trigger] bank_script(t.stage@, id) is Some <==> m.contains_key(id)) && (m.contains_key(id)
                        ==> views(bank_script(t.stage@, id)->0) == m[id]),
            },
        },
{
    let recs = match split_records(blob) {
        Ok(v) => v,
        Err(e) => return Err(e),
    };
    let ghost rv = record_views(recs@);
    assert(records_from(blob@, 0) == Ok::<Seq<(u16, Seq<u8>)>, DecodeError>(rv));
    let known = known_ids_of(&global, &recs);
    let mut stage: Vec<Option<Vec<Command>>> = Vec::new();
    let mut i: usize = 0;
    while i < SCRIPT_ID_COUNT
        invariant
            i <= SCRIPT_ID_COUNT,
            stage@.len() == i,
            forall|x: int| 0 <= x < i ==> #[trigger] stage@[x] is None,
        decreases SCRIPT_ID_COUNT - i,
    {
        stage.push(None);
        i = i + 1;
    }
    let mut k: usize = 0;
    while k < recs.len()
        invariant
            k <= recs@.len(),
            rv == record_views(recs@),
            records_from(blob@, 0) == Ok::<Seq<(u16, Seq<u8>)>, DecodeError>(rv),
            known@ == known_ids(global@, rv),
            stage@.len() == SCRIPT_ID_COUNT,
            bank_of(rv.take(k as int), known@) is Ok,
            forall|id: u16|
                (#[trigger] bank_script(stage@, id) is Some <==> bank_of(rv.take(k as int), known@)->Ok_0.contains_key(
                    id,
                )) && (bank_of(rv.take(k as int), known@)->Ok_0.contains_key(id) ==> views(
                    bank_script(stage@, id)->0,
                ) == bank_of(rv.take(k as int), known@)->Ok_0[id]),
        decreases recs@.len() - k,
    {
        let ghost m = bank_of(rv.take(k as int), known@)->Ok_0;
        assert(rv.take(k + 1).drop_last() =~= rv.take(k as int));
        assert(rv.take(k + 1).last() == rv[k as int]);
        assert(rv[k as int] == (recs@[k as int].0, recs@[k as int].1@));
        let id = recs[k].0;
        match decode_script(recs[k].1.as_slice(), &known) {
            Err(e) => {
                proof {
                    assert(decode_from(rv[k as int].1, 0, known@) == Err::<Seq<CommandView>, DecodeError>(e));
                    assert(bank_of(rv.take(k + 1), known@) == Err::<Map<u16, Seq<CommandView>>, DecodeError>(e));
                    lemma_bank_error_persists(rv, k + 1, known@);
                }
                return Err(e);
            },
            Ok(cmds) => {
                let ghost before = stage@;
                let ghost cv = views(cmds@);
                stage.set(id as usize, Some(cmds));
                proof {
                    let m2 = bank_of(rv.take(k + 1), known@)->Ok_0;
                    assert(m2 == m.insert(id, cv));
                    assert forall|x: u16|
                        (#[trigger] bank_script(stage@, x) is Some <==> m2.contains_key(x)) && (m2.contains_key(x)
                            ==> views(bank_script(stage@, x)->0) == m2[x]) by {
                        if x != id {
                            assert(stage@[x as int] == before[x as int]);
                            assert(bank_script(stage@, x) == bank_script(before, x));
                        } else {
                            assert(bank_script(stage@, x) == Some(stage@[x as int]->0@));
                        }
                    }
                }
            },
        }
        k = k + 1;
    }
    assert(rv.take(recs@.len() as int) =~= rv);
    Ok(ScriptTable { global, stage })
}

/// The two little-endian bytes of `v`.
pub open spec fn encode_u16(v: u16) -> Seq<u8> {
    seq![(v % 256) as u8, (v / 256) as u8]
}

pub open spec fn caret_type_code(t: CaretType) -> u8 {
    match t {
        CaretType::Bubble => 0,
        CaretType::Projectile => 1,
        CaretType::Shoot => 2,
        CaretType::Zzz => 3,
        CaretType::Exhaust => 4,
        CaretType::QuestionMark => 5,
        CaretType::LevelUp => 6,
        CaretType::HurtParticles => 7,
        CaretType::Explosion => 8,
        CaretType::LittleParticles => 9,
    }
}

pub open spec fn direction_code(d: Direction) -> u8 {
    match d {
        Direction::Left => 0,
        Direction::Up => 1,
        Direction::Right => 2,
        Direction::Bottom => 3,
    }
}

pub open spec fn fade_code(f: FadeState) -> u8 {
    match f {
        FadeState::Visible => 0,
        FadeState::Hidden => 1,
        FadeState::FadeIn(d) => (2 + direction_code(d)) as u8,
        FadeState::FadeOut(d) => (6 + direction_code(d)) as u8,
    }
}

/// The bytes of one command.
pub open spec fn encode_command(c: CommandView) -> Seq<u8> {
    match c {
        CommandView::SetFlag(f) => seq![0x01u8] + encode_u16(f),
        CommandView::ClearFlag(f) => seq![0x02u8] + encode_u16(f),
        CommandView::PlaySound(v) => seq![0x03u8] + encode_u16(v),
        CommandView::SetFade(f) => seq![0x04u8, fade_code(f)],
        CommandView::SpawnCaret(x, y, t, d) => seq![0x05u8] + encode_u16(x as u16) + encode_u16(y as u16) + seq![
            caret_type_code(t),
            direction_code(d),
        ],
        CommandView::Text(t) => seq![0x06u8, t.len() as u8] + t,
        CommandView::ClearText => seq![0x07u8],
        CommandView::Jump(o) => seq![0x10u8] + encode_u16(o),
        CommandView::JumpIfFlag(f, o) => seq![0x11u8] + encode_u16(f) + encode_u16(o),
        CommandView::Call(id) => seq![0x12u8] + encode_u16(id),
        CommandView::Return => seq![0x13u8],
        CommandView::WaitFrames(n) => seq![0x20u8] + encode_u16(n),
        CommandView::WaitKey(m) => seq![0x21u8] + encode_u16(m),
        CommandView::WaitText => seq![0x22u8],
        CommandView::EndFrame => seq![0x30u8],
        CommandView::End => seq![0x31u8],
    }
}

/// Whether a command has an encoding that decodes back to it: caret
/// positions fit in 16 signed bits, a text run is at most 255 bytes, and a
/// call names a registered script.
pub open spec fn encodable(c: CommandView, known: Seq<bool>) -> bool {
    match c {
        CommandView::SpawnCaret(x, y, _, _) => -32768 <= x <= 32767 && -32768 <= y <= 32767,
        CommandView::Text(t) => t.len() <= 255,
        CommandView::Call(id) => known_id(known, id),
        _ => true,
    }
}

/// The bytes of a script: its commands back to back.
pub open spec fn encode_script(cs: Seq<CommandView>) -> Seq<u8>
    decreases cs.len(),
{
    if cs.len() == 0 {
        Seq::empty()
    } else {
        encode_command(cs[0]) + encode_script(cs.drop_first())
    }
}

proof fn lemma_u16_bytes(v: u16)
    ensures
        ((v % 256) as u8 + 256 * ((v / 256) as u8)) as u16 == v,
{
    assert(((v % 256) as u8 + 256 * ((v / 256) as u8)) as u16 == v) by (nonlinear_arith);
}

proof fn lemma_i16_bits(x: i32)
    requires
        -32768 <= x <= 32767,
    ensures
        x as u16 as i16 as i32 == x,
{
    assert(x as u16 as i16 as i32 == x) by (bit_vector)
        requires
            -32768 <= x <= 32767,
    ;
}

/// Where `b` holds the bytes of an encodable command at `p`, that command is
/// decoded there, and decoding goes on right after its bytes.
proof fn lemma_decode_encoded_command(b: Seq<u8>, p: int, c: CommandView, known: Seq<bool>)
    requires
        encodable(c, known),
        0 <= p,
        p + encode_command(c).len() <= b.len(),
        b.subrange(p, p + encode_command(c).len()) == encode_command(c),
    ensures
        decode_command(b, p, known) == Ok::<(CommandView, int), DecodeError>((c, p + encode_command(c).len())),
{
    let e = encode_command(c);
    assert forall|k: int| 0 <= k < e.len() implies b[p + k] == #[trigger] e[k] by {
        assert(b.subrange(p, p + e.len())[k] == b[p + k]);
    }
    assert(b[p] == e[0]);
    match c {
        CommandView::SetFlag(v) | CommandView::ClearFlag(v) | CommandView::PlaySound(v) | CommandView::Jump(v)
        | CommandView::Call(v) | CommandView::WaitFrames(v) | CommandView::WaitKey(v) => {
            assert(b[p + 1] == e[1] && b[p + 2] == e[2]);
            lemma_u16_bytes(v);
            assert(u16_at(b, p + 1) == v);
        },
        CommandView::JumpIfFlag(f, o) => {
            assert(b[p + 1] == e[1] && b[p + 2] == e[2] && b[p + 3] == e[3] && b[p + 4] == e[4]);
            lemma_u16_bytes(f);
            lemma_u16_bytes(o);
            assert(u16_at(b, p + 1) == f);
            assert(u16_at(b, p + 3) == o);
        },
        CommandView::SpawnCaret(x, y, t, d) => {
            assert(b[p + 1] == e[1] && b[p + 2] == e[2] && b[p + 3] == e[3] && b[p + 4] == e[4]);
            assert(b[p + 5] == e[5] && b[p + 6] == e[6]);
            lemma_u16_bytes(x as u16);
            lemma_u16_bytes(y as u16);
            lemma_i16_bits(x);
            lemma_i16_bits(y);
            assert(u16_at(b, p + 1) == x as u16);
            assert(u16_at(b, p + 3) == y as u16);
        },
        CommandView::SetFade(f) => {
            assert(b[p + 1] == e[1]);
        },
        CommandView::Text(t) => {
            assert(b[p + 1] == e[1]);
            assert(b[p + 1] == t.len());
            assert(b.subrange(p + 2, p + 2 + t.len()) =~= t) by {
                assert forall|k: int| 0 <= k < t.len() implies b.subrange(p + 2, p + 2 + t.len())[k] == t[k] by {
                    assert(e[2 + k] == t[k]);
                }
            }
        },
        _ => {},
    }
}

proof fn lemma_decode_encoded_from(b: Seq<u8>, p: int, cs: Seq<CommandView>, known: Seq<bool>)
    requires
        forall|i: int| 0 <= i < cs.len() ==> encodable(#[trigger] cs[i], known),
        0 <= p <= b.len(),
        b.subrange(p, b.len() as int) == encode_script(cs),
    ensures
        decode_from(b, p, known) == Ok::<Seq<CommandView>, DecodeError>(cs),
    decreases cs.len(),
{
    if cs.len() == 0 {
        assert(b.subrange(p, b.len() as int).len() == 0);
        assert(p == b.len());
        assert(cs =~= Seq::<CommandView>::empty());
    } else {
        let e = encode_command(cs[0]);
        let rest = encode_script(cs.drop_first());
        assert(encode_script(cs) == e + rest);
        assert(b.subrange(p, b.len() as int).len() == e.len() + rest.len());
        assert(b.subrange(p, p + e.len()) =~= e) by {
            assert forall|k: int| 0 <= k < e.len() implies b.subrange(p, p + e.len())[k] == e[k] by {
                assert(b.subrange(p, b.len() as int)[k] == (e + rest)[k]);
            }
        }
        assert(encodable(cs[0], known));
        lemma_decode_encoded_command(b, p, cs[0], known);
        assert(e.len() > 0);
        assert(b.subrange(p + e.len(), b.len() as int) =~= rest) by {
            assert forall|k: int| 0 <= k < rest.len() implies b.subrange(p + e.len(), b.len() as int)[k] == rest[k] by {
                assert(b.subrange(p, b.len() as int)[e.len() + k] == (e + rest)[e.len() + k]);
            }
        }
        assert forall|i: int| 0 <= i < cs.drop_first().len() implies encodable(#[trigger] cs.drop_first()[i], known) by {
            assert(cs.drop_first()[i] == cs[i + 1]);
        }
        lemma_decode_encoded_from(b, p + e.len(), cs.drop_first(), known);
        assert(p < b.len());
        assert(seq![cs[0]] + cs.drop_first() =~= cs);
        assert(decode_from(b, p, known) == Ok::<Seq<CommandView>, DecodeError>(seq![cs[0]] + cs.drop_first()));
    }
}

/// Decoding is lossless: the bytes of a script of encodable commands decode
/// to exactly those commands.
pub proof fn lemma_decode_encode(cs: Seq<CommandView>, known: Seq<bool>)
    requires
        forall|i: int| 0 <= i < cs.len() ==> encodable(#[trigger] cs[i], known),
    ensures
        decode_from(encode_script(cs), 0, known) == Ok::<Seq<CommandView>, DecodeError>(cs),
{
    let b = encode_script(cs);
    assert(b.subrange(0, b.len() as int) =~= b);
    lemma_decode_encoded_from(b, 0, cs, known);
}

} // verus!
