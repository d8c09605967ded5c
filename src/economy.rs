use vstd::prelude::*;
use crate::time::{PadlId, Timestamp};

verus! {

/// Microseconds in one hour: production rates are given per hour.
pub const MICROS_PER_HOUR: u128 = 3_600_000_000;

/// The resources a village stores.
#[derive(Debug, Clone, Copy, PartialEq, Eq, Structural)]
pub enum ResourceType {
    Feathers,
    Sticks,
    Logs,
}

/// Something in a village that yields one resource at a steady rate.
#[derive(Debug, Clone, Copy, PartialEq, Eq, Structural)]
pub struct Producer {
    pub resource: ResourceType,
    pub per_hour: u32,
}

/// The stock of a village and the time up to which production has been
/// accounted.
#[derive(Debug, Clone, Copy, PartialEq, Eq, Structural)]
pub struct VillageEconomy {
    pub village: PadlId,
    pub last_tick: Timestamp,
    pub feathers: u64,
    pub sticks: u64,
    pub logs: u64,
}

/// What one producer yields in `dt` microseconds, in whole units.
pub open spec fn yield_of(p: Producer, dt: int) -> int {
    (p.per_hour as int * dt) / (MICROS_PER_HOUR as int)
}

/// What the producers of `ps` that yield `r` together yield in `dt`
/// microseconds.
pub open spec fn production(ps: Seq<Producer>, r: ResourceType, dt: int) -> int
    decreases ps.len(),
{
    if ps.len() == 0 {
        0
    } else {
        production(ps.drop_last(), r, dt) + if ps.last().resource == r {
            yield_of(ps.last(), dt)
        } else {
            0
        }
    }
}

/// `x`, but no more than a `u64` holds: stocks saturate.
pub open spec fn capped(x: int) -> int {
    if x > u64::MAX {
        u64::MAX as int
    } else {
        x
    }
}

/// The stock of `r` in `v`.
pub open spec fn stock(v: VillageEconomy, r: ResourceType) -> int {
    match r {
        ResourceType::Feathers => v.feathers as int,
        ResourceType::Sticks => v.sticks as int,
        ResourceType::Logs => v.logs as int,
    }
}

/// The village after the tick that accounts production over the window
/// from `start` to `now`. The tick is a conditional write: it applies only
/// while production is accounted up to exactly `start`; otherwise the window
/// was already accounted and nothing changes.
pub open spec fn tick_result(
    v: VillageEconomy,
    ps: Seq<Producer>,
    start: Timestamp,
    now: Timestamp,
) -> VillageEconomy {
    if v.last_tick == start && start.0 < now.0 {
        let dt = now.0 - start.0;
        VillageEconomy {
            village: v.village,
            last_tick: now,
            feathers: capped(v.feathers + production(ps, ResourceType::Feathers, dt)) as u64,
            sticks: capped(v.sticks + production(ps, ResourceType::Sticks, dt)) as u64,
            logs: capped(v.logs + production(ps, ResourceType::Logs, dt)) as u64,
        }
    } else {
        v
    }
}

/// A yield is never negative.
proof fn lemma_yield_nonneg(p: Producer, dt: int)
    requires
        dt >= 0,
    ensures
        yield_of(p, dt) >= 0,
{
    assert(p.per_hour as int * dt >= 0) by (nonlinear_arith)
        requires
            p.per_hour >= 0,
            dt >= 0,
    ;
}

/// One producer's yield over an `i64` window, added to a `u64` stock,
/// computed without overflow.
fn add_yield(amount: u64, per_hour: u32, dt: u128) -> (r: u64)
    requires
        dt <= u64::MAX,
    ensures
        r == capped(amount + (per_hour as int * dt as int) / (MICROS_PER_HOUR as int)),
{
    assert(per_hour as int * dt as int <= u32::MAX as int * u64::MAX as int) by (nonlinear_arith)
        requires
            per_hour <= u32::MAX,
            dt <= u64::MAX,
    ;
    assert(per_hour as int * dt as int >= 0) by (nonlinear_arith)
        requires
            per_hour >= 0,
            dt >= 0,
    ;
    let y: u128 = (per_hour as u128 * dt) / MICROS_PER_HOUR;
    assert(y <= u32::MAX as int * u64::MAX as int / 3_600_000_000int);
    let total: u128 = amount as u128 + y;
    if total > u64::MAX as u128 {
        u64::MAX
    } else {
        total as u64
    }
}

impl VillageEconomy {
    /// A village with nothing in stock, with production accounted up to
    /// `since`.
    pub fn new(village: PadlId, since: Timestamp) -> (r: VillageEconomy)
        ensures
            r.village == village,
            r.last_tick == since,
            r.feathers == 0 && r.sticks == 0 && r.logs == 0,
    {
        VillageEconomy { village, last_tick: since, feathers: 0, sticks: 0, logs: 0 }
    }

    /// Accounts the production of `producers` over the window from
    /// `window_start` to `now`, if that window starts where the accounting
    /// stands. Applying the same window again changes nothing.
    pub fn apply_tick(&mut self, producers: &Vec<Producer>, window_start: Timestamp, now: Timestamp)
        ensures
            *final(self) == tick_result(*old(self), producers@, window_start, now),
    {
        if self.last_tick.0 != window_start.0 || window_start.0 >= now.0 {
            return ;
        }
        let dt: u128 = (now.0 as i128 - window_start.0 as i128) as u128;
        let ghost dti: int = now.0 - window_start.0;
        let ghost ps = producers@;
        let ghost v0 = *self;
        let mut feathers = self.feathers;
        let mut sticks = self.sticks;
        let mut logs = self.logs;
        let mut i: usize = 0;
        while i < producers.len()
            invariant
                i <= ps.len(),
                ps == producers@,
                dt == dti,
                0 < dti <= u64::MAX,
                feathers == capped(v0.feathers + production(ps.take(i as int), ResourceType::Feathers, dti)),
                sticks == capped(v0.sticks + production(ps.take(i as int), ResourceType::Sticks, dti)),
                logs == capped(v0.logs + production(ps.take(i as int), ResourceType::Logs, dti)),
            decreases ps.len() - i,
        {
            let p = producers[i];
            proof {
                assert(ps.take(i + 1).drop_last() =~= ps.take(i as int));
                assert(ps.take(i + 1).last() == p);
                lemma_yield_nonneg(p, dti);
            }
            match p.resource {
                ResourceType::Feathers => {
                    feathers = add_yield(feathers, p.per_hour, dt);
                },
                ResourceType::Sticks => {
                    sticks = add_yield(sticks, p.per_hour, dt);
                },
                ResourceType::Logs => {
                    logs = add_yield(logs, p.per_hour, dt);
                },
            }
            i = i + 1;
        }
        proof {
            assert(ps.take(ps.len() as int) =~= ps);
        }
        self.feathers = feathers;
        self.sticks = sticks;
        self.logs = logs;
        self.last_tick = now;
    }

    /// The stock of one resource.
    pub fn stock(&self, r: ResourceType) -> (n: u64)
        ensures
            n == stock(*self, r),
    {
        match r {
            ResourceType::Feathers => self.feathers,
            ResourceType::Sticks => self.sticks,
            ResourceType::Logs => self.logs,
        }
    }
}

/// A tick applied twice over the same window leaves the village as applying
/// it once does.
pub proof fn lemma_tick_idempotent(
    v: VillageEconomy,
    ps: Seq<Producer>,
    start: Timestamp,
    now: Timestamp,
)
    ensures
        tick_result(tick_result(v, ps, start, now), ps, start, now) == tick_result(v, ps, start, now),
{
}

} // verus!
