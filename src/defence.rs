use vstd::prelude::*;
use crate::time::{div_toward_zero, Timestamp, MICROS_PER_MILLI};

verus! {

/// The attribute of a visitor that an effect changes.
#[derive(Debug, Clone, Copy, PartialEq, Eq, Structural)]
pub enum HoboAttributeType {
    Health,
    Speed,
}

/// A lasting change to an attacking visitor, with its strength where it has
/// one.
#[derive(Debug, Clone, Copy, PartialEq, Eq, Structural)]
pub struct HoboEffect {
    pub attribute: HoboAttributeType,
    pub strength: Option<i64>,
}

/// Read-model of one visitor of an attack, joining its stored attributes
/// with the attack's arrival time. Computed on demand, never stored.
#[derive(Debug, Clone)]
pub struct AttackingHobo {
    pub hp: u32,
    pub hurried: bool,
    /// When the visitor was let go by the town, if it was.
    pub released: Option<Timestamp>,
    pub effects: Vec<HoboEffect>,
    /// When the attack arrives.
    pub arrival: Timestamp,
}

/// The sum of the strengths of the health effects of `es`.
pub open spec fn health_strength(es: Seq<HoboEffect>) -> int
    decreases es.len(),
{
    if es.len() == 0 {
        0
    } else {
        health_strength(es.drop_last()) + match es.last() {
            HoboEffect { attribute: HoboAttributeType::Health, strength: Some(s) } => s as int,
            _ => 0,
        }
    }
}

/// Whole milliseconds of `t`, rounded towards zero.
pub open spec fn millis_of(t: Timestamp) -> int {
    div_toward_zero(t.0 as int, MICROS_PER_MILLI as int)
}

proof fn lemma_health_strength_bound(es: Seq<HoboEffect>)
    ensures
        -(es.len() * 0x8000_0000_0000_0000) <= health_strength(es) <= es.len()
            * 0x8000_0000_0000_0000,
    decreases es.len(),
{
    if es.len() > 0 {
        lemma_health_strength_bound(es.drop_last());
    }
}

impl AttackingHobo {
    /// Hit points the visitor starts with.
    pub fn max_hp(&self) -> (r: u32)
        ensures
            r == self.hp,
    {
        self.hp
    }

    /// Whether the visitor hurries through the town.
    pub fn hurried(&self) -> (r: bool)
        ensures
            r == self.hurried,
    {
        self.hurried
    }

    /// Arrival of the attack, in milliseconds.
    pub fn arrival(&self) -> (r: i64)
        ensures
            r == millis_of(self.arrival),
    {
        self.arrival.millis()
    }

    /// When the visitor was released, in milliseconds.
    pub fn released(&self) -> (r: Option<i64>)
        ensures
            r == match self.released {
                Some(t) => Some(millis_of(t) as i64),
                None => None::<i64>,
            },
    {
        match self.released {
            Some(t) => Some(t.millis()),
            None => None,
        }
    }

    /// Total strength of the health effects on the visitor, taken to 32
    /// bits as a wrapping sum would give it.
    pub fn effects_strength(&self) -> (r: i32)
        ensures
            r == health_strength(self.effects@) as i32,
    {
        let mut sum: i128 = 0;
        let mut i: usize = 0;
        while i < self.effects.len()
            invariant
                i <= self.effects@.len(),
                sum == health_strength(self.effects@.take(i as int)),
            decreases self.effects@.len() - i,
        {
            proof {
                assert(self.effects@.take(i + 1).drop_last() =~= self.effects@.take(i as int));
                lemma_health_strength_bound(self.effects@.take(i as int));
                assert(i * 0x8000_0000_0000_0000 <= 0xffff_ffff_ffff_ffff * 0x8000_0000_0000_0000)
                    by (nonlinear_arith)
                    requires
                        i <= 0xffff_ffff_ffff_ffff,
                ;
            }
            let e = self.effects[i];
            match e {
                HoboEffect { attribute: HoboAttributeType::Health, strength: Some(s) } => {
                    sum = sum + s as i128;
                },
                _ => {},
            }
            i = i + 1;
        }
        proof {
            assert(self.effects@.take(self.effects@.len() as int) =~= self.effects@);
        }
        #[verifier::truncate]
        (sum as i32)
    }
}

/// The aura of a building: the tiles it reaches and how strongly.
#[derive(Debug, Clone)]
pub struct Aura {
    /// The entity of the building that casts the aura.
    pub id: u32,
    pub effect: i32,
    pub affected_tiles: Vec<(i32, i32)>,
    /// When the building was built.
    pub built: Timestamp,
}

/// One `(id, effect)` entry for each tile of `tiles` that is `index`.
pub open spec fn tile_hits(tiles: Seq<(i32, i32)>, index: (i32, i32), id: u32, effect: i32) -> Seq<
    (u32, i32),
>
    decreases tiles.len(),
{
    if tiles.len() == 0 {
        Seq::empty()
    } else {
        tile_hits(tiles.drop_last(), index, id, effect) + if tiles.last() == index {
            seq![(id, effect)]
        } else {
            Seq::empty()
        }
    }
}

/// The auras of `auras` that reach `index` at `time` (milliseconds), in
/// order: an aura counts from the moment its building stands, once per
/// listing of the tile.
pub open spec fn aura_hits(auras: Seq<Aura>, index: (i32, i32), time: i64) -> Seq<(u32, i32)>
    decreases auras.len(),
{
    if auras.len() == 0 {
        Seq::empty()
    } else {
        let a = auras.last();
        aura_hits(auras.drop_last(), index, time) + if time < millis_of(a.built) {
            Seq::empty()
        } else {
            tile_hits(a.affected_tiles@, index, a.id, a.effect)
        }
    }
}

/// The defences of a town that attacks have to get through.
#[derive(Debug, Clone)]
pub struct DefendingTown {
    pub auras: Vec<Aura>,
}

impl DefendingTown {
    /// The auras that reach the tile `index` at `time` (milliseconds), each
    /// with the id of its building and its effect.
    pub fn auras_in_range(&self, index: (i32, i32), time: i64) -> (r: Vec<(u32, i32)>)
        ensures
            r@ == aura_hits(self.auras@, index, time),
    {
        let mut out: Vec<(u32, i32)> = Vec::new();
        let mut i: usize = 0;
        while i < self.auras.len()
            invariant
                i <= self.auras@.len(),
                out@ == aura_hits(self.auras@.take(i as int), index, time),
            decreases self.auras@.len() - i,
        {
            let a = &self.auras[i];
            proof {
                assert(self.auras@.take(i + 1).drop_last() =~= self.auras@.take(i as int));
                assert(self.auras@.take(i + 1).last() == *a);
            }
            if time >= a.built.millis() {
                let ghost base = out@;
                let mut j: usize = 0;
                while j < a.affected_tiles.len()
                    invariant
                        j <= a.affected_tiles@.len(),
                        out@ == base + tile_hits(a.affected_tiles@.take(j as int), index, a.id, a.effect),
                    decreases a.affected_tiles@.len() - j,
                {
                    let tile = a.affected_tiles[j];
                    proof {
                        assert(a.affected_tiles@.take(j + 1).drop_last() =~= a.affected_tiles@.take(j as int));
                    }
                    if tile.0 == index.0 && tile.1 == index.1 {
                        out.push((a.id, a.effect));
                    }
                    proof {
                        assert(out@ =~= base + tile_hits(a.affected_tiles@.take(j + 1), index, a.id, a.effect));
                    }
                    j = j + 1;
                }
                proof {
                    assert(a.affected_tiles@.take(a.affected_tiles@.len() as int) =~= a.affected_tiles@);
                }
            } else {
                proof {
                    assert(out@ =~= aura_hits(self.auras@.take(i + 1), index, time));
                }
            }
            i = i + 1;
        }
        proof {
            assert(self.auras@.take(self.auras@.len() as int) =~= self.auras@);
        }
        out
    }
}

} // verus!
