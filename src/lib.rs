//! Scheduling core of the Paddlers game master: timed events, the queue that
//! orders them, and the decisions of the workers that consume them.

pub mod attack;
pub mod coordinator;
pub mod defence;
pub mod economy;
pub mod event;
pub mod queue;
pub mod recovery;
pub mod shop;
pub mod time;
pub mod worker;

pub use attack::{AdmissionError, AttackDraft, AttackFunnel, AttackState, AttackStep};
pub use coordinator::{Command, GameMaster};
pub use defence::{AttackingHobo, Aura, DefendingTown, HoboAttributeType, HoboEffect};
pub use economy::{Producer, ResourceType, VillageEconomy};
pub use event::{Event, TimedEvent};
pub use queue::EventQueue;
pub use recovery::{rebuild_queue, StoreRecord};
pub use shop::{
    new_temple_menu, purchase_prophet, BuildingType, PlayerInfo, Price, ProphetPurchase, PurchaseError,
    ShopAction, ShopItem, UiMenu,
};
pub use time::{PadlId, Timestamp};
pub use worker::{Disposition, Failure, WorkerAction, WorkerRole};
