use paddlers::attack::{AdmissionError, AttackDraft, AttackFunnel, AttackState, AttackStep};
use paddlers::coordinator::{Command, GameMaster};
use paddlers::economy::{Producer, ResourceType, VillageEconomy};
use paddlers::shop::{
    new_temple_menu, purchase_prophet, BuildingType, PlayerInfo, Price, ProphetPurchase,
    PurchaseError, ShopAction, ShopItem,
};
use paddlers::worker::{
    follow_up, idle_wait, next_action, on_failure, owner, Disposition, Failure, WorkerAction,
    WorkerRole, MAX_RETRIES,
};
use paddlers::{Event, EventQueue, TimedEvent, Timestamp};

const HOUR: i64 = 3_600_000_000;

#[test]
fn timestamp_conversions() {
    assert_eq!(Timestamp::from_us(42).micros(), 42);
    assert_eq!(Timestamp::from_millis(3).micros(), 3000);
    assert_eq!(Timestamp::from_seconds(2).micros(), 2_000_000);
    assert_eq!(Timestamp::from_us(2_500_999).millis(), 2500);
    assert_eq!(Timestamp::from_us(2_500_999).seconds(), 2);
    assert_eq!(Timestamp::from_us(-1500).millis(), -1);
    assert_eq!(Timestamp::from_us(-1_500_000).seconds(), -1);
    assert_eq!(Timestamp::default(), Timestamp(0));
}

#[test]
fn timestamp_arithmetic() {
    assert_eq!(Timestamp(5) + Timestamp(6), Timestamp(11));
    assert_eq!(Timestamp(5) - Timestamp(6), Timestamp(-1));
    assert!(Timestamp(-3) < Timestamp(2));
}

fn village() -> VillageEconomy {
    VillageEconomy::new(1, Timestamp(0))
}

fn producers() -> Vec<Producer> {
    vec![
        Producer { resource: ResourceType::Sticks, per_hour: 10 },
        Producer { resource: ResourceType::Sticks, per_hour: 5 },
        Producer { resource: ResourceType::Logs, per_hour: 2 },
    ]
}

#[test]
fn tick_accounts_production_over_the_window() {
    let mut v = village();
    v.apply_tick(&producers(), Timestamp(0), Timestamp(2 * HOUR));
    assert_eq!(v.sticks, 30);
    assert_eq!(v.logs, 4);
    assert_eq!(v.feathers, 0);
    assert_eq!(v.stock(ResourceType::Sticks), 30);
    assert_eq!(v.last_tick, Timestamp(2 * HOUR));
}

#[test]
fn tick_rounds_each_producer_down() {
    let mut v = village();
    v.apply_tick(&producers(), Timestamp(0), Timestamp(HOUR / 2));
    // 10 / 2 + 5 / 2 (rounded down) = 5 + 2
    assert_eq!(v.sticks, 7);
    assert_eq!(v.logs, 1);
}

#[test]
fn tick_applied_twice_over_one_window_counts_once() {
    let mut once = village();
    once.apply_tick(&producers(), Timestamp(0), Timestamp(HOUR));
    let mut twice = village();
    twice.apply_tick(&producers(), Timestamp(0), Timestamp(HOUR));
    twice.apply_tick(&producers(), Timestamp(0), Timestamp(HOUR));
    assert_eq!(once, twice);
    assert_eq!(twice.sticks, 15);
}

#[test]
fn tick_with_empty_or_backward_window_changes_nothing() {
    let mut v = village();
    v.apply_tick(&producers(), Timestamp(0), Timestamp(0));
    assert_eq!(v, village());
    v.apply_tick(&producers(), Timestamp(0), Timestamp(-5));
    assert_eq!(v, village());
}

#[test]
fn tick_stock_saturates() {
    let mut v = village();
    v.feathers = u64::MAX - 1;
    let ps = vec![Producer { resource: ResourceType::Feathers, per_hour: u32::MAX }];
    v.apply_tick(&ps, Timestamp(0), Timestamp(HOUR));
    assert_eq!(v.feathers, u64::MAX);
}

fn draft(attack: i64, target: i64, units: u32) -> AttackDraft {
    AttackDraft { attack, target, units, arrival: Timestamp(1000 + attack) }
}

#[test]
fn two_requests_at_one_remaining_capacity_admit_exactly_one() {
    let mut f = AttackFunnel::new();
    let mut q = EventQueue::new();
    assert!(f.register_target(7, 1));
    let first = f.handle_draft(&mut q, draft(1, 7, 1));
    let second = f.handle_draft(&mut q, draft(2, 7, 1));
    assert_eq!(first, Ok(()));
    assert_eq!(second, Err(AdmissionError::OverCapacity));
    assert_eq!(q.len(), 1);
    assert_eq!(q.claim_next(Timestamp(i64::MAX)).unwrap().event, Event::AttackArrival { attack: 1 });
}

#[test]
fn funnel_never_exceeds_capacity() {
    let mut f = AttackFunnel::new();
    let mut q = EventQueue::new();
    assert!(f.register_target(7, 10));
    let sizes = [4u32, 3, 5, 3, 1, 2];
    let mut admitted = 0u32;
    for (i, s) in sizes.iter().enumerate() {
        if f.handle_draft(&mut q, draft(i as i64, 7, *s)).is_ok() {
            admitted += s;
        }
        assert!(admitted <= 10);
        assert_eq!(f.remaining(7), 10 - admitted);
    }
    assert_eq!(admitted, 10);
    assert_eq!(q.len(), 3);
}

#[test]
fn unknown_target_is_rejected() {
    let mut f = AttackFunnel::new();
    let mut q = EventQueue::new();
    assert_eq!(f.handle_draft(&mut q, draft(1, 99, 1)), Err(AdmissionError::UnknownTarget));
    assert!(q.is_empty());
    assert_eq!(f.remaining(99), 0);
}

#[test]
fn target_registered_once() {
    let mut f = AttackFunnel::new();
    assert!(f.register_target(7, 3));
    assert!(!f.register_target(7, 9));
    assert_eq!(f.remaining(7), 3);
}

#[test]
fn resolution_releases_capacity() {
    let mut f = AttackFunnel::new();
    let mut q = EventQueue::new();
    assert!(f.register_target(7, 2));
    assert_eq!(f.handle_draft(&mut q, draft(1, 7, 2)), Ok(()));
    assert_eq!(f.remaining(7), 0);
    assert!(f.resolve(1));
    assert_eq!(f.remaining(7), 2);
    assert!(!f.resolve(1));
    assert_eq!(f.handle_draft(&mut q, draft(2, 7, 2)), Ok(()));
}

#[test]
fn attack_state_machine() {
    let s = AttackState::Drafted;
    let s = s.advance(AttackStep::AdmissionPassed).unwrap();
    assert_eq!(s, AttackState::Admitted);
    let s = s.advance(AttackStep::Persisted).unwrap();
    assert_eq!(s, AttackState::InFlight);
    let s = s.advance(AttackStep::ArrivalFired).unwrap();
    assert_eq!(s, AttackState::Arrived);
    let s = s.advance(AttackStep::OutcomePersisted).unwrap();
    assert_eq!(s, AttackState::Resolved);
    assert!(s.is_final());
    assert_eq!(s.advance(AttackStep::ArrivalFired), None);
    assert_eq!(
        AttackState::Drafted.advance(AttackStep::AdmissionFailed),
        Some(AttackState::Rejected)
    );
    assert!(AttackState::Rejected.is_final());
    assert!(!AttackState::InFlight.is_final());
    assert_eq!(AttackState::InFlight.advance(AttackStep::Persisted), None);
}

#[test]
fn idle_wait_is_bounded() {
    assert_eq!(idle_wait(None, Timestamp(0), 500), 500);
    assert_eq!(idle_wait(Some(Timestamp(100)), Timestamp(40), 500), 60);
    assert_eq!(idle_wait(Some(Timestamp(10_000)), Timestamp(40), 500), 500);
    assert_eq!(idle_wait(Some(Timestamp(10)), Timestamp(40), 500), 0);
    assert_eq!(idle_wait(Some(Timestamp(i64::MAX)), Timestamp(i64::MIN), 500), 500);
}

#[test]
fn failure_policy_table() {
    let tick = Event::EconomyTick { village: 1 };
    let spawn = Event::AttackSpawn { village: 1 };
    assert_eq!(on_failure(&tick, Failure::Fatal, 0), Disposition::Abort);
    assert_eq!(on_failure(&tick, Failure::StoreFailure, 0), Disposition::Retry);
    assert_eq!(on_failure(&tick, Failure::StoreFailure, MAX_RETRIES), Disposition::Drop);
    assert_eq!(on_failure(&spawn, Failure::StoreFailure, 0), Disposition::Drop);
    assert_eq!(on_failure(&tick, Failure::ReferenceMissing, 0), Disposition::Drop);
    assert_eq!(on_failure(&tick, Failure::ValidationFailure, 0), Disposition::Drop);
}

#[test]
fn events_are_routed_to_their_owner() {
    assert_eq!(owner(&Event::EconomyTick { village: 1 }), WorkerRole::EconomyWorker);
    assert_eq!(owner(&Event::BuildingCompletion { building: 1 }), WorkerRole::TownWorker);
    assert_eq!(owner(&Event::TaskAdvance { worker: 1 }), WorkerRole::TownWorker);
    assert_eq!(owner(&Event::AttackArrival { attack: 1 }), WorkerRole::TownWorker);
    assert_eq!(owner(&Event::AttackSpawn { village: 1 }), WorkerRole::AttackSpawner);
}

#[test]
fn recurring_events_follow_up() {
    let tick = TimedEvent::new(Event::EconomyTick { village: 3 }, Timestamp(100));
    assert_eq!(
        follow_up(&tick, Timestamp(50)),
        Some(TimedEvent::new(Event::EconomyTick { village: 3 }, Timestamp(150)))
    );
    let done = TimedEvent::new(Event::BuildingCompletion { building: 3 }, Timestamp(100));
    assert_eq!(follow_up(&done, Timestamp(50)), None);
    let late = TimedEvent::new(Event::AttackSpawn { village: 3 }, Timestamp(i64::MAX));
    assert_eq!(follow_up(&late, Timestamp(1)), None);
}

#[test]
fn worker_step_claims_or_sleeps() {
    let mut q = EventQueue::new();
    assert_eq!(next_action(&mut q, Timestamp(0), 1000), WorkerAction::Sleep(1000));
    q.add_event(Event::TaskAdvance { worker: 1 }, Timestamp(300));
    assert_eq!(next_action(&mut q, Timestamp(100), 1000), WorkerAction::Sleep(200));
    assert_eq!(
        next_action(&mut q, Timestamp(300), 1000),
        WorkerAction::Process(TimedEvent::new(Event::TaskAdvance { worker: 1 }, Timestamp(300)))
    );
    assert!(q.is_empty());
}

#[test]
fn commands_schedule_their_events() {
    let mut gm = GameMaster::new();
    assert_eq!(
        gm.handle_command(Command::PurchaseBuilding { building: 4, completes_at: Some(Timestamp(70)) }),
        Ok(())
    );
    assert_eq!(gm.handle_command(Command::DeleteBuilding { building: 4 }), Ok(()));
    assert_eq!(
        gm.handle_command(Command::OverwriteTasks { worker: 2, next_task_at: Some(Timestamp(60)) }),
        Ok(())
    );
    assert_eq!(gm.handle_command(Command::RuntimeStatistics), Ok(()));
    assert_eq!(gm.queue.len(), 2);
    assert_eq!(
        gm.handle_command(Command::CreateAttack { draft: draft(1, 5, 1) }),
        Err(AdmissionError::UnknownTarget)
    );
    assert!(gm.funnel.register_target(5, 1));
    assert_eq!(gm.handle_command(Command::CreateAttack { draft: draft(1, 5, 1) }), Ok(()));
    assert_eq!(gm.queue.len(), 3);
    assert_eq!(gm.queue.claim_next(Timestamp(100)).unwrap().event, Event::TaskAdvance { worker: 2 });
    assert!(gm.attack_resolved(1));
    assert_eq!(gm.funnel.remaining(5), 1);
}

#[test]
fn reschedule_requeues_recurring_events() {
    let mut gm = GameMaster::new();
    gm.reschedule(&TimedEvent::new(Event::EconomyTick { village: 1 }, Timestamp(10)), Timestamp(5));
    gm.reschedule(&TimedEvent::new(Event::TaskAdvance { worker: 1 }, Timestamp(10)), Timestamp(5));
    assert_eq!(gm.queue.len(), 1);
    assert_eq!(gm.queue.time_of_next_event(), Some(&Timestamp(15)));
}

#[test]
fn building_names() {
    assert_eq!(BuildingType::BlueFlowers.name(), "blue flowers");
    assert_eq!(BuildingType::RedFlowers.name(), "red flower field");
    assert_eq!(BuildingType::Tree.name(), "tree");
    assert_eq!(BuildingType::BundlingStation.name(), "bundling station");
    assert_eq!(BuildingType::SawMill.name(), "saw mill");
}

fn player(limit: i64, total: i64) -> PlayerInfo {
    PlayerInfo {
        prophets_limit: limit,
        prophets_total: total,
        prophet_price: Price { feathers: 20, sticks: 0, logs: 5 },
    }
}

#[test]
fn prophet_purchase_needs_karma() {
    assert_eq!(purchase_prophet(&player(2, 1), 8), Ok(ProphetPurchase { village: 8 }));
    assert_eq!(purchase_prophet(&player(2, 2), 8), Err(PurchaseError::NotEnoughKarma));
    assert_eq!(purchase_prophet(&player(0, 0), 8), Err(PurchaseError::NotEnoughKarma));
}

#[test]
fn temple_menu_offers_a_prophet() {
    let p = player(1, 0);
    let menu = new_temple_menu(&p);
    assert_eq!(
        menu.items,
        vec![ShopItem { action: ShopAction::BuyProphet, price: Price { feathers: 20, sticks: 0, logs: 5 } }]
    );
    assert_eq!(p.prophets_limit(), 1);
    assert_eq!(p.prophets_total(), 0);
    assert_eq!(p.prophet_price().feathers, 20);
}
