use vstd::prelude::*;
use crate::time::PadlId;

verus! {

/// The buildings a village can hold.
#[derive(Debug, Clone, Copy, PartialEq, Eq, Structural)]
pub enum BuildingType {
    BlueFlowers,
    RedFlowers,
    Tree,
    BundlingStation,
    SawMill,
}

/// The name under which a building is shown to players.
pub open spec fn building_name(b: BuildingType) -> Seq<char> {
    match b {
        BuildingType::BlueFlowers => "blue flowers"@,
        BuildingType::RedFlowers => "red flower field"@,
        BuildingType::Tree => "tree"@,
        BuildingType::BundlingStation => "bundling station"@,
        BuildingType::SawMill => "saw mill"@,
    }
}

impl BuildingType {
    /// The name under which this building is shown to players.
    pub fn name(&self) -> (r: &'static str)
        ensures
            r@ == building_name(*self),
    {
        match self {
            BuildingType::BlueFlowers => "blue flowers",
            BuildingType::RedFlowers => "red flower field",
            BuildingType::Tree => "tree",
            BuildingType::BundlingStation => "bundling station",
            BuildingType::SawMill => "saw mill",
        }
    }
}

/// A cost in resources.
#[derive(Debug, Clone, Copy, PartialEq, Eq, Structural)]
pub struct Price {
    pub feathers: i64,
    pub sticks: i64,
    pub logs: i64,
}

/// What the client knows of its player.
#[derive(Debug, Clone, Copy, PartialEq, Eq, Structural)]
pub struct PlayerInfo {
    /// How many prophets the player's karma allows.
    pub prophets_limit: i64,
    /// How many prophets the player has.
    pub prophets_total: i64,
    /// What the next prophet costs.
    pub prophet_price: Price,
}

impl PlayerInfo {
    /// How many prophets the player's karma allows.
    pub fn prophets_limit(&self) -> (r: i64)
        ensures
            r == self.prophets_limit,
    {
        self.prophets_limit
    }

    /// How many prophets the player has.
    pub fn prophets_total(&self) -> (r: i64)
        ensures
            r == self.prophets_total,
    {
        self.prophets_total
    }

    /// What the next prophet costs.
    pub fn prophet_price(&self) -> (r: Price)
        ensures
            r == self.prophet_price,
    {
        self.prophet_price
    }
}

/// What a shop entry does when bought.
#[derive(Debug, Clone, Copy, PartialEq, Eq, Structural)]
pub enum ShopAction {
    /// Ask the game master for a new prophet.
    BuyProphet,
}

/// One entry of a shop menu.
#[derive(Debug, Clone, Copy, PartialEq, Eq, Structural)]
pub struct ShopItem {
    pub action: ShopAction,
    pub price: Price,
}

/// A shop menu: the entries on offer, in the order shown.
#[derive(Debug, Clone)]
pub struct UiMenu {
    pub items: Vec<ShopItem>,
}

/// The request for a new prophet in a village.
#[derive(Debug, Clone, Copy, PartialEq, Eq, Structural)]
pub struct ProphetPurchase {
    pub village: PadlId,
}

/// Why a purchase is refused before it is sent.
#[derive(Debug, Clone, Copy, PartialEq, Eq, Structural)]
pub enum PurchaseError {
    /// The player's karma allows no further prophet.
    NotEnoughKarma,
}

/// The temple's menu: a single entry to buy a prophet at the player's
/// current price.
pub fn new_temple_menu(player_info: &PlayerInfo) -> (r: UiMenu)
    ensures
        r.items@ == seq![ShopItem { action: ShopAction::BuyProphet, price: player_info.prophet_price }],
{
    let mut items: Vec<ShopItem> = Vec::new();
    items.push(ShopItem { action: ShopAction::BuyProphet, price: player_info.prophet_price() });
    proof {
        assert(items@ =~= seq![ShopItem { action: ShopAction::BuyProphet, price: player_info.prophet_price }]);
    }
    UiMenu { items }
}

/// Checks that the player may have another prophet and, if so, gives the
/// request to send for one in `village`.
pub fn purchase_prophet(player_info: &PlayerInfo, village: PadlId) -> (r: Result<
    ProphetPurchase,
    PurchaseError,
>)
    ensures
        r == if player_info.prophets_limit <= player_info.prophets_total {
            Err(PurchaseError::NotEnoughKarma)
        } else {
            Ok(ProphetPurchase { village })
        },
{
    if player_info.prophets_limit() <= player_info.prophets_total() {
        return Err(PurchaseError::NotEnoughKarma);
    }
    Ok(ProphetPurchase { village })
}

} // verus!
