use vstd::prelude::*;

verus! {

/// The facing of an entity or effect.
#[derive(Clone, Copy, Debug, PartialEq, Eq, Structural)]
pub enum Direction {
    Left,
    Up,
    Right,
    Bottom,
}

/// The kinds of short-lived visual effects.
#[derive(Clone, Copy, Debug, PartialEq, Eq, Structural)]
pub enum CaretType {
    Bubble,
    Projectile,
    Shoot,
    Zzz,
    Exhaust,
    QuestionMark,
    LevelUp,
    HurtParticles,
    Explosion,
    LittleParticles,
}

/// How many ticks a caret of each kind lives. These are placeholder defaults
/// chosen for this library, not values taken from any game data.
pub open spec fn lifetime_of(t: CaretType) -> u16 {
    match t {
        CaretType::Bubble => 40,
        CaretType::Projectile => 16,
        CaretType::Shoot => 16,
        CaretType::Zzz => 60,
        CaretType::Exhaust => 20,
        CaretType::QuestionMark => 40,
        CaretType::LevelUp => 80,
        CaretType::HurtParticles => 20,
        CaretType::Explosion => 32,
        CaretType::LittleParticles => 24,
    }
}

/// The lifetime of a caret kind, in ticks.
pub fn caret_lifetime(t: CaretType) -> (r: u16)
    ensures
        r == lifetime_of(t),
{
    match t {
        CaretType::Bubble => 40,
        CaretType::Projectile => 16,
        CaretType::Shoot => 16,
        CaretType::Zzz => 60,
        CaretType::Exhaust => 20,
        CaretType::QuestionMark => 40,
        CaretType::LevelUp => 80,
        CaretType::HurtParticles => 20,
        CaretType::Explosion => 32,
        CaretType::LittleParticles => 24,
    }
}

/// A short-lived visual effect: a position, a kind, a facing and an age.
#[derive(Clone, Copy, Debug, PartialEq, Eq, Structural)]
pub struct Caret {
    pub x: i32,
    pub y: i32,
    pub ctype: CaretType,
    pub direction: Direction,
    pub age: u16,
    pub lifetime: u16,
}

/// A fresh caret of kind `t`.
pub open spec fn new_caret(x: i32, y: i32, t: CaretType, d: Direction) -> Caret {
    Caret { x, y, ctype: t, direction: d, age: 0, lifetime: lifetime_of(t) }
}

/// A caret is dead once its age has reached its lifetime.
pub open spec fn dead(c: Caret) -> bool {
    c.age >= c.lifetime
}

/// One tick of age; a dead caret ages no further.
pub open spec fn ticked(c: Caret) -> Caret {
    if c.age < c.lifetime {
        Caret { age: (c.age + 1) as u16, ..c }
    } else {
        c
    }
}

/// A caret after `n` ticks.
pub open spec fn ticked_n(c: Caret, n: nat) -> Caret
    decreases n,
{
    if n == 0 {
        c
    } else {
        ticked(ticked_n(c, (n - 1) as nat))
    }
}

/// The carets that are still alive after each of `s` has ticked once, in
/// their order.
pub open spec fn tick_and_compact(s: Seq<Caret>) -> Seq<Caret>
    decreases s.len(),
{
    if s.len() == 0 {
        Seq::empty()
    } else {
        let rest = tick_and_compact(s.drop_last());
        let t = ticked(s.last());
        if dead(t) {
            rest
        } else {
            rest.push(t)
        }
    }
}

impl Caret {
    pub fn new(x: i32, y: i32, ctype: CaretType, direction: Direction) -> (r: Caret)
        ensures
            r == new_caret(x, y, ctype, direction),
    {
        Caret { x, y, ctype, direction, age: 0, lifetime: caret_lifetime(ctype) }
    }

    pub fn is_dead(&self) -> (r: bool)
        ensures
            r == dead(*self),
    {
        self.age >= self.lifetime
    }

    pub fn tick(&mut self)
        ensures
            *final(self) == ticked(*old(self)),
    {
        if self.age < self.lifetime {
            self.age = self.age + 1;
        }
    }
}

/// Every caret that survives compaction is alive.
pub proof fn lemma_compacted_alive(s: Seq<Caret>)
    ensures
        forall|i: int| 0 <= i < tick_and_compact(s).len() ==> !dead(#[trigger] tick_and_compact(s)[i]),
    decreases s.len(),
{
    if s.len() > 0 {
        lemma_compacted_alive(s.drop_last());
        let rest = tick_and_compact(s.drop_last());
        let t = ticked(s.last());
        if !dead(t) {
            assert forall|i: int| 0 <= i < rest.push(t).len() implies !dead(#[trigger] rest.push(t)[i]) by {
                if i < rest.len() {
                    assert(rest.push(t)[i] == rest[i]);
                }
            }
        }
    }
}

/// Ticking a caret as many times as its lifetime kills it.
pub proof fn lemma_caret_dies(c: Caret)
    requires
        c.age <= c.lifetime,
    ensures
        dead(ticked_n(c, (c.lifetime - c.age) as nat)),
{
    lemma_ticked_n_age(c, (c.lifetime - c.age) as nat);
}

proof fn lemma_ticked_n_age(c: Caret, n: nat)
    requires
        c.age + n <= c.lifetime,
    ensures
        ticked_n(c, n).age == c.age + n,
        ticked_n(c, n).lifetime == c.lifetime,
    decreases n,
{
    if n > 0 {
        lemma_ticked_n_age(c, (n - 1) as nat);
    }
}

/// A caret spawned and then ticked through its whole lifetime is dead, and
/// the compaction that ticks it for the last time drops it.
pub proof fn lemma_caret_lifecycle(x: i32, y: i32, t: CaretType, d: Direction)
    ensures
        dead(ticked_n(new_caret(x, y, t, d), lifetime_of(t) as nat)),
        lifetime_of(t) > 0 ==> tick_and_compact(
            seq![ticked_n(new_caret(x, y, t, d), (lifetime_of(t) - 1) as nat)],
        ).len() == 0,
{
    let c = new_caret(x, y, t, d);
    lemma_caret_dies(c);
    if lifetime_of(t) > 0 {
        let n = (lifetime_of(t) - 1) as nat;
        lemma_ticked_n_age(c, n);
        let s = seq![ticked_n(c, n)];
        assert(s.drop_last().len() == 0);
        assert(tick_and_compact(s.drop_last()) == Seq::<Caret>::empty());
        assert(s.last() == ticked_n(c, n));
        assert(dead(ticked(ticked_n(c, n))));
    }
}

} // verus!
