use paddlers::defence::{AttackingHobo, Aura, DefendingTown, HoboAttributeType, HoboEffect};
use paddlers::worker::{keep_known, Failure};
use paddlers::Timestamp;

fn hobo(effects: Vec<HoboEffect>) -> AttackingHobo {
    AttackingHobo {
        hp: 7,
        hurried: true,
        released: Some(Timestamp(2_500_999)),
        effects,
        arrival: Timestamp(9_000_500),
    }
}

fn effect(attribute: HoboAttributeType, strength: Option<i64>) -> HoboEffect {
    HoboEffect { attribute, strength }
}

#[test]
fn hobo_read_model() {
    let h = hobo(Vec::new());
    assert_eq!(h.max_hp(), 7);
    assert!(h.hurried());
    assert_eq!(h.arrival(), 9000);
    assert_eq!(h.released(), Some(2500));
    let mut still_there = hobo(Vec::new());
    still_there.released = None;
    assert_eq!(still_there.released(), None);
}

#[test]
fn effects_strength_sums_health_effects_only() {
    let h = hobo(vec![
        effect(HoboAttributeType::Health, Some(3)),
        effect(HoboAttributeType::Speed, Some(100)),
        effect(HoboAttributeType::Health, None),
        effect(HoboAttributeType::Health, Some(-1)),
    ]);
    assert_eq!(h.effects_strength(), 2);
    assert_eq!(hobo(Vec::new()).effects_strength(), 0);
}

#[test]
fn effects_strength_wraps_to_32_bits() {
    let h = hobo(vec![effect(HoboAttributeType::Health, Some((1i64 << 32) + 5))]);
    assert_eq!(h.effects_strength(), 5);
}

fn town() -> DefendingTown {
    DefendingTown {
        auras: vec![
            Aura { id: 1, effect: 4, affected_tiles: vec![(0, 0), (1, 0), (1, 0)], built: Timestamp(0) },
            Aura { id: 2, effect: 9, affected_tiles: vec![(1, 0)], built: Timestamp(5_000_000) },
            Aura { id: 3, effect: 2, affected_tiles: vec![(2, 2)], built: Timestamp(0) },
        ],
    }
}

#[test]
fn auras_reach_tiles_once_their_building_stands() {
    let t = town();
    assert_eq!(t.auras_in_range((1, 0), 4_999), vec![(1, 4), (1, 4)]);
    assert_eq!(t.auras_in_range((1, 0), 5_000), vec![(1, 4), (1, 4), (2, 9)]);
    assert_eq!(t.auras_in_range((2, 2), 0), vec![(3, 2)]);
    assert_eq!(t.auras_in_range((5, 5), 10_000), Vec::<(u32, i32)>::new());
}

#[test]
fn missing_references_are_skipped_other_failures_fail() {
    let ok: Vec<Result<u8, Failure>> = vec![Ok(1), Err(Failure::ReferenceMissing), Ok(3)];
    assert_eq!(keep_known(ok), Ok(vec![1, 3]));
    let bad: Vec<Result<u8, Failure>> =
        vec![Ok(1), Err(Failure::StoreFailure), Err(Failure::Fatal), Ok(3)];
    assert_eq!(keep_known(bad), Err(Failure::StoreFailure));
    assert_eq!(keep_known(Vec::<Result<u8, Failure>>::new()), Ok(Vec::new()));
}
