//! The run's item catalogue (stable ids shared by client and server), what
//! traders pay for items, and the NPC trade rules.

use vstd::prelude::*;

use crate::run::RunState;
use crate::text::str_eq;

verus! {

pub const FLASHLIGHT: u32 = 10;

pub const MAP: u32 = 11;

pub const PIPE_BAT: u32 = 12;

pub const CREDITS: u32 = 13;

pub const SCRAP: u32 = 14;

pub const MEDICAL_BAG: u32 = 15;

pub const HACKER_DEVICE: u32 = 16;

pub const SCRAP_PISTOL: u32 = 17;

pub const BANDAGE: u32 = 18;

pub const TAGGER: u32 = 19;

pub const ARMOR: u32 = 20;

pub const DATA_SHARD: u32 = 21;

/// One inventory item; weight in grams.
#[derive(Clone, Debug)]
pub struct Item {
    pub id: u32,
    pub name: String,
    pub weight_g: u32,
    pub value: u32,
}

/// `(weight in grams, list value)` of a catalogue item.
pub open spec fn item_stats(id: u32) -> Option<(u32, u32)> {
    if id == FLASHLIGHT {
        Some((800u32, 25u32))
    } else if id == MAP {
        Some((300u32, 40u32))
    } else if id == PIPE_BAT {
        Some((2500u32, 15u32))
    } else if id == MEDICAL_BAG {
        Some((1500u32, 0u32))
    } else if id == HACKER_DEVICE {
        Some((600u32, 0u32))
    } else if id == SCRAP_PISTOL {
        Some((1800u32, 60u32))
    } else if id == BANDAGE {
        Some((100u32, 8u32))
    } else if id == TAGGER {
        Some((500u32, 0u32))
    } else if id == ARMOR {
        Some((4000u32, 50u32))
    } else if id == DATA_SHARD {
        Some((100u32, 35u32))
    } else {
        None
    }
}

/// Display name of a catalogue item.
pub open spec fn item_name(id: u32) -> Seq<char> {
    if id == FLASHLIGHT {
        "Flashlight"@
    } else if id == MAP {
        "Sector Map"@
    } else if id == PIPE_BAT {
        "Pipe Bat"@
    } else if id == MEDICAL_BAG {
        "Medical Bag"@
    } else if id == HACKER_DEVICE {
        "Hacker Device"@
    } else if id == SCRAP_PISTOL {
        "Scrap Pistol"@
    } else if id == BANDAGE {
        "Bandage"@
    } else if id == TAGGER {
        "Tagger"@
    } else if id == ARMOR {
        "Body Armor"@
    } else {
        "Data Shard"@
    }
}

fn make(id: u32, name: &str, weight_g: u32, value: u32) -> (r: Item)
    ensures
        r.id == id && r.name@ == name@ && r.weight_g == weight_g && r.value == value,
{
    Item { id, name: name.to_owned(), weight_g, value }
}

/// The catalogue item with id `id` (spawn loadouts, shop grants, hack
/// rewards); `None` for ids that are not catalogue items.
pub fn by_id(id: u32) -> (r: Option<Item>)
    ensures
        r is Some == item_stats(id) is Some,
        r matches Some(it) ==> it.id == id && it.name@ == item_name(id) && (it.weight_g, it.value)
            == item_stats(id)->0,
{
    if id == FLASHLIGHT {
        Some(make(FLASHLIGHT, "Flashlight", 800, 25))
    } else if id == MAP {
        Some(make(MAP, "Sector Map", 300, 40))
    } else if id == PIPE_BAT {
        Some(make(PIPE_BAT, "Pipe Bat", 2500, 15))
    } else if id == MEDICAL_BAG {
        Some(make(MEDICAL_BAG, "Medical Bag", 1500, 0))
    } else if id == HACKER_DEVICE {
        Some(make(HACKER_DEVICE, "Hacker Device", 600, 0))
    } else if id == SCRAP_PISTOL {
        Some(make(SCRAP_PISTOL, "Scrap Pistol", 1800, 60))
    } else if id == BANDAGE {
        Some(make(BANDAGE, "Bandage", 100, 8))
    } else if id == TAGGER {
        Some(make(TAGGER, "Tagger", 500, 0))
    } else if id == ARMOR {
        Some(make(ARMOR, "Body Armor", 4000, 50))
    } else if id == DATA_SHARD {
        Some(make(DATA_SHARD, "Data Shard", 100, 35))
    } else {
        None
    }
}

/// An NPC pays half an item's list value, rounded down, and never less
/// than one credit: twice the price is the value or one below it, except
/// for items worth under two, which fetch one.
pub proof fn law_sell_price_is_half(value: u32)
    ensures
        sell_price_spec(value) >= 1,
        value >= 2 ==> 2 * sell_price_spec(value) <= value < 2 * sell_price_spec(value) + 2,
        value < 2 ==> sell_price_spec(value) == 1,
        sell_price_spec(value) <= value || value == 0,
{
}

/// What an NPC pays for an item: half its list value, never zero.
pub open spec fn sell_price_spec(value: u32) -> u32 {
    if value / 2 >= 1 {
        value / 2
    } else {
        1
    }
}

/// What an NPC pays for an item: half its list value, never zero.
pub fn sell_price(item: &Item) -> (r: u32)
    ensures
        r == sell_price_spec(item.value),
        r >= 1,
{
    let half = item.value / 2;
    if half >= 1 {
        half
    } else {
        1
    }
}

/// Health a consumable restores (before class bonuses).
pub fn heal_amount(item: &Item) -> (r: Option<u32>)
    ensures
        item.id == BANDAGE ==> r == Some(30u32),
        item.id == MEDICAL_BAG ==> r == Some(70u32),
        item.id != BANDAGE && item.id != MEDICAL_BAG ==> r is None,
{
    if item.id == BANDAGE {
        Some(30)
    } else if item.id == MEDICAL_BAG {
        Some(70)
    } else {
        None
    }
}

pub fn is_armor(item: &Item) -> (r: bool)
    ensures
        r == (item.id == ARMOR),
{
    item.id == ARMOR
}

pub fn is_gun(item: &Item) -> (r: bool)
    ensures
        r == (item.id == SCRAP_PISTOL),
{
    item.id == SCRAP_PISTOL
}

pub fn is_map(item: &Item) -> (r: bool)
    ensures
        r == (item.id == MAP),
{
    item.id == MAP
}

pub fn is_bat(item: &Item) -> (r: bool)
    ensures
        r == (item.id == PIPE_BAT),
{
    item.id == PIPE_BAT
}

pub fn is_flashlight(item: &Item) -> (r: bool)
    ensures
        r == (item.id == FLASHLIGHT),
{
    item.id == FLASHLIGHT
}

/// What a trader sells, `(item id, price)`: hidden-room keepers only
/// bandages, hub traders the gear catalogue.
pub open spec fn trader_stock(keeper: bool) -> Seq<(u32, u32)> {
    if keeper {
        seq![(BANDAGE, 6u32)]
    } else {
        seq![(PIPE_BAT, 10u32), (FLASHLIGHT, 12u32), (SCRAP_PISTOL, 45u32), (MEDICAL_BAG, 30u32), (ARMOR, 60u32), (MAP, 20u32)]
    }
}

/// Nothing a trader sells can be sold back for more than it cost: every
/// stock entry is a known item whose resale price is at most its price.
pub proof fn law_no_profit_from_trading(keeper: bool, idx: int)
    requires
        0 <= idx < trader_stock(keeper).len(),
    ensures
        item_stats(trader_stock(keeper)[idx].0) is Some,
        sell_price_spec((item_stats(trader_stock(keeper)[idx].0)->0).1) <= trader_stock(keeper)[idx].1,
{
    if !keeper {
        assert(idx == 0 || idx == 1 || idx == 2 || idx == 3 || idx == 4 || idx == 5);
    }
}

/// A trader's stock, `(item id, price, display name)`, in dialogue order.
pub fn stock_for(keeper: bool) -> (r: Vec<(u32, u32, &'static str)>)
    ensures
        r@.map_values(|e: (u32, u32, &str)| (e.0, e.1)) == trader_stock(keeper),
{
    let r = if keeper {
        vec![(BANDAGE, 6, "Bandage")]
    } else {
        vec![
            (PIPE_BAT, 10, "Pipe Bat"),
            (FLASHLIGHT, 12, "Flashlight"),
            (SCRAP_PISTOL, 45, "Scrap Pistol"),
            (MEDICAL_BAG, 30, "Medical Bag"),
            (ARMOR, 60, "Body Armor"),
            (MAP, 20, "Sector Map"),
        ]
    };
    assert(r@.map_values(|e: (u32, u32, &str)| (e.0, e.1)) =~= trader_stock(keeper));
    r
}

/// Trade range around an NPC (mm).
pub const NPC_TRADE_RANGE_MM: u64 = 4500;

/// Among NPCs `(distance in mm, is keeper)`, the nearest one within trade
/// range (the first of equally near ones); returns whether it is a keeper.
pub fn nearest_trader(npcs: &Vec<(u64, bool)>) -> (r: Option<bool>)
    ensures
        r is None <==> forall|i: int| 0 <= i < npcs@.len() ==> #[trigger] npcs@[i].0 >= NPC_TRADE_RANGE_MM,
        r is Some ==> exists|i: int|
            #![trigger npcs@[i]]
            0 <= i < npcs@.len() && npcs@[i].0 < NPC_TRADE_RANGE_MM && npcs@[i].1 == r->0 && (forall|j: int|
                0 <= j < npcs@.len() && npcs@[j].0 < NPC_TRADE_RANGE_MM ==> npcs@[i].0 <= #[trigger] npcs@[j].0),
{
    let mut best: Option<usize> = None;
    let mut i: usize = 0;
    while i < npcs.len()
        invariant
            i <= npcs@.len(),
            best is None ==> forall|k: int| 0 <= k < i ==> #[trigger] npcs@[k].0 >= NPC_TRADE_RANGE_MM,
            best matches Some(b) ==> b < i && npcs@[b as int].0 < NPC_TRADE_RANGE_MM && forall|k: int|
                0 <= k < i && npcs@[k].0 < NPC_TRADE_RANGE_MM ==> npcs@[b as int].0 <= #[trigger] npcs@[k].0,
        decreases npcs@.len() - i,
    {
        let d = npcs[i].0;
        if d < NPC_TRADE_RANGE_MM {
            match best {
                None => {
                    best = Some(i);
                },
                Some(b) => {
                    if d < npcs[b].0 {
                        best = Some(i);
                    }
                },
            }
        }
        i = i + 1;
    }
    match best {
        Some(b) => {
            proof {
                assert(npcs@[b as int] == npcs@[b as int]);
            }
            Some(npcs[b].1)
        },
        None => None,
    }
}

/// First empty inventory slot.
pub fn first_free_slot(inventory: &Vec<Option<Item>>) -> (r: Option<usize>)
    ensures
        r matches Some(s) ==> s < inventory@.len() && inventory@[s as int] is None && forall|k: int|
            0 <= k < s ==> #[trigger] inventory@[k] is Some,
        r is None ==> forall|k: int| 0 <= k < inventory@.len() ==> #[trigger] inventory@[k] is Some,
{
    let mut i: usize = 0;
    while i < inventory.len()
        invariant
            i <= inventory@.len(),
            forall|k: int| 0 <= k < i ==> #[trigger] inventory@[k] is Some,
        decreases inventory@.len() - i,
    {
        if inventory[i].is_none() {
            return Some(i);
        }
        i = i + 1;
    }
    None
}

/// The rest of the run state is as before.
pub open spec fn run_rest_same(a: RunState, b: RunState) -> bool {
    a.phase == b.phase && a.level_id == b.level_id && a.hub_id == b.hub_id && a.scrap == b.scrap
        && a.route_options == b.route_options && a.run_seed == b.run_seed
}

/// What buying stock entry `idx` does: nothing unless `can_buy`; else the
/// credits pay the price, the item lands in the first free slot, and the
/// map buyer becomes the map's carrier.
pub open spec fn buy_step(run0: RunState, inv0: Seq<Option<Item>>, keeper: bool, buyer: Seq<char>, idx: u32, run1: RunState, inv1: Seq<Option<Item>>) -> bool {
    &&& !can_buy(run0, inv0, keeper, idx) ==> run1 == run0 && inv1 == inv0
    &&& run_rest_same(run1, run0)
    &&& inv1.len() == inv0.len()
    &&& can_buy(run0, inv0, keeper, idx) ==> ({
        let (id, cost) = trader_stock(keeper)[idx as int];
        &&& run1.credits == run0.credits - cost
        &&& id == MAP ==> run1.map_holder is Some && run1.map_holder->0@ == buyer
        &&& id != MAP ==> run1.map_holder == run0.map_holder
        &&& exists|s: int| {
            &&& 0 <= s < inv0.len() && inv0[s] is None
            &&& forall|k: int| 0 <= k < s ==> #[trigger] inv0[k] is Some
            &&& inv1 == inv0.update(s, inv1[s])
            &&& inv1[s] matches Some(it) && it.id == id && it.name@ == item_name(id)
                && (it.weight_g, it.value) == item_stats(id)->0
        }
    })
}

/// The map carrier is `name`.
pub open spec fn carrier_is(run: RunState, name: Seq<char>) -> bool {
    run.map_holder is Some && run.map_holder->0@ == name
}

/// What selling the item in `slot` does: nothing when the slot is empty or
/// out of range; else the slot empties, the credits grow by the sell price,
/// and selling the map one carries frees it.
pub open spec fn sell_step(run0: RunState, inv0: Seq<Option<Item>>, seller: Seq<char>, slot: u32, run1: RunState, inv1: Seq<Option<Item>>) -> bool {
    let ok = slot < inv0.len() && inv0[slot as int] is Some;
    &&& !ok ==> run1 == run0 && inv1 == inv0
    &&& run_rest_same(run1, run0)
    &&& ok ==> ({
        let item = inv0[slot as int]->0;
        let frees = item.id == MAP && carrier_is(run0, seller);
        &&& inv1 == inv0.update(slot as int, None)
        &&& run1.credits == run0.credits + sell_price_spec(item.value)
        &&& frees ==> run1.map_holder is None
        &&& !frees ==> run1.map_holder == run0.map_holder
    })
}

/// A purchase of stock entry `idx` goes through.
pub open spec fn can_buy(run: RunState, inventory: Seq<Option<Item>>, keeper: bool, idx: u32) -> bool {
    let stock = trader_stock(keeper);
    &&& idx < stock.len()
    &&& run.credits >= stock[idx as int].1
    &&& !(stock[idx as int].0 == MAP && run.map_holder is Some)
    &&& exists|k: int| 0 <= k < inventory.len() && #[trigger] inventory[k] is None
}

/// Buy entry `idx` of the nearest trader's stock into the buyer's first
/// free slot. Needs the credits, a free slot and, for the sector map, nobody
/// already carrying one; the map buyer becomes its carrier.
pub fn trade_buy(run: &mut RunState, inventory: &mut Vec<Option<Item>>, keeper: bool, buyer: &str, idx: u32) -> (bought: bool)
    ensures
        bought == can_buy(*old(run), old(inventory)@, keeper, idx),
        buy_step(*old(run), old(inventory)@, keeper, buyer@, idx, *final(run), final(inventory)@),
{
    let stock = stock_for(keeper);
    proof {
        assert(stock@.map_values(|e: (u32, u32, &str)| (e.0, e.1)).len() == stock@.len());
    }
    if (idx as usize) >= stock.len() {
        return false;
    }
    let (id, cost, _label) = stock[idx as usize];
    proof {
        assert((id, cost) == trader_stock(keeper)[idx as int]);
    }
    if run.credits < cost {
        return false;
    }
    if id == MAP && run.map_holder.is_some() {
        return false;
    }
    let free = first_free_slot(inventory);
    let slot = match free {
        Some(s) => s,
        None => {
            return false;
        },
    };
    let item = match by_id(id) {
        Some(it) => it,
        None => {
            proof {
                assert(item_stats(id) is Some);
            }
            return false;
        },
    };
    if id == MAP {
        run.map_holder = Some(buyer.to_owned());
    }
    run.credits = run.credits - cost;
    let ghost before = inventory@;
    inventory.set(slot, Some(item));
    proof {
        assert(inventory@ =~= before.update(slot as int, inventory@[slot as int]));
    }
    true
}

/// Sell the item in `slot` to the nearest trader for its sell price. Selling
/// the map one carries frees the map for others.
pub fn trade_sell(run: &mut RunState, inventory: &mut Vec<Option<Item>>, seller: &str, slot: u32) -> (sold: bool)
    requires
        (slot < old(inventory)@.len() && old(inventory)@[slot as int] is Some) ==> old(run).credits + sell_price_spec(
            old(inventory)@[slot as int]->0.value,
        ) <= u32::MAX,
    ensures
        sold == (slot < old(inventory)@.len() && old(inventory)@[slot as int] is Some),
        sell_step(*old(run), old(inventory)@, seller@, slot, *final(run), final(inventory)@),
{
    let s = slot as usize;
    if s >= inventory.len() || inventory[s].is_none() {
        return false;
    }
    let taken = inventory.remove(s);
    inventory.insert(s, None);
    proof {
        assert(inventory@ =~= old(inventory)@.update(s as int, None));
    }
    let item = match taken {
        Some(it) => it,
        None => {
            return false;
        },
    };
    let carries = match &run.map_holder {
        Some(h) => str_eq(h.as_str(), seller),
        None => false,
    };
    if is_map(&item) && carries {
        run.map_holder = None;
    }
    let price = sell_price(&item);
    run.credits = run.credits + price;
    true
}

/// One player's trade with the nearest NPC: a purchase of stock entry `buy`,
/// then a sale of the item in slot `sell`. Returns whether the inventory
/// changed.
pub fn npc_trade(run: &mut RunState, inventory: &mut Vec<Option<Item>>, keeper: bool, name: &str, buy: Option<u32>, sell: Option<u32>) -> (changed: bool)
    requires
        sell matches Some(slot) ==> (slot < old(inventory)@.len() && old(inventory)@[slot as int] is Some)
            ==> old(run).credits + sell_price_spec(old(inventory)@[slot as int]->0.value) <= u32::MAX,
    ensures
        run_rest_same(*final(run), *old(run)),
        final(inventory)@.len() == old(inventory)@.len(),
        (buy is None || !can_buy(*old(run), old(inventory)@, keeper, buy->0)) && (sell is None || !(sell->0
            < old(inventory)@.len() && old(inventory)@[sell->0 as int] is Some)) ==> !changed && *final(run)
            == *old(run) && final(inventory)@ == old(inventory)@,
        exists|mid_run: RunState, mid_inv: Seq<Option<Item>>| #[trigger] trade_steps(
            *old(run), old(inventory)@, keeper, name@, buy, sell, mid_run, mid_inv, *final(run), final(inventory)@, changed),
{
    let ghost inv0 = inventory@;
    let ghost run0 = *run;
    let bought = match buy {
        Some(idx) => trade_buy(run, inventory, keeper, name, idx),
        None => false,
    };
    proof {
        if let Some(slot) = sell {
            if slot < inventory@.len() && inventory@[slot as int] is Some && bought {
                let idx = buy->0;
                lemma_resale_below_cost(keeper, idx);
                let s = choose|s: int| {
                    &&& 0 <= s < inv0.len() && inv0[s] is None
                    &&& forall|k: int| 0 <= k < s ==> #[trigger] inv0[k] is Some
                    &&& inventory@ == inv0.update(s, inventory@[s])
                    &&& inventory@[s] matches Some(it) && it.id == trader_stock(keeper)[idx as int].0
                        && it.name@ == item_name(trader_stock(keeper)[idx as int].0)
                        && (it.weight_g, it.value) == item_stats(trader_stock(keeper)[idx as int].0)->0
                };
                if slot as int != s {
                    assert(inventory@[slot as int] == inv0[slot as int]);
                }
            }
        }
    }
    let ghost mid_run = *run;
    let ghost mid_inv = inventory@;
    let sold = match sell {
        Some(slot) => trade_sell(run, inventory, name, slot),
        None => false,
    };
    proof {
        assert(trade_steps(run0, inv0, keeper, name@, buy, sell, mid_run, mid_inv, *run, inventory@, bought || sold));
    }
    bought || sold
}

/// A trade as two steps through the middle state `(run1, inv1)`: the
/// purchase (if asked for), then the sale (if asked for); `changed` says
/// whether either went through.
pub open spec fn trade_steps(
    run0: RunState,
    inv0: Seq<Option<Item>>,
    keeper: bool,
    name: Seq<char>,
    buy: Option<u32>,
    sell: Option<u32>,
    run1: RunState,
    inv1: Seq<Option<Item>>,
    run2: RunState,
    inv2: Seq<Option<Item>>,
    changed: bool,
) -> bool {
    &&& match buy {
        Some(idx) => buy_step(run0, inv0, keeper, name, idx, run1, inv1),
        None => run1 == run0 && inv1 == inv0,
    }
    &&& match sell {
        Some(slot) => sell_step(run1, inv1, name, slot, run2, inv2),
        None => run2 == run1 && inv2 == inv1,
    }
    &&& changed == ((buy is Some && can_buy(run0, inv0, keeper, buy->0)) || (sell is Some && sell->0 < inv1.len()
        && inv1[sell->0 as int] is Some))
}

/// Everything a trader sells is a catalogue item that sells back for no more
/// than it costs.
proof fn lemma_resale_below_cost(keeper: bool, idx: u32)
    requires
        idx < trader_stock(keeper).len(),
    ensures
        item_stats(trader_stock(keeper)[idx as int].0) is Some,
        sell_price_spec((item_stats(trader_stock(keeper)[idx as int].0)->0).1) <= trader_stock(keeper)[idx as int].1,
{
    if !keeper {
        assert(idx == 0 || idx == 1 || idx == 2 || idx == 3 || idx == 4 || idx == 5);
    }
}

/// What a pick-up attempt did with the item.
#[derive(Debug)]
pub enum PickupOutcome {
    /// Credits went to the party purse.
    Credits,
    /// The item went into this inventory slot.
    Stored(usize),
    /// Someone else carries the sector map; the item stays where it was.
    MapHeldByOther(Item),
    /// No free slot; the item stays where it was.
    InventoryFull(Item),
}

/// `name` is the recorded map carrier.
pub open spec fn holds_map(run: RunState, name: Seq<char>) -> bool {
    run.map_holder is Some && run.map_holder->0@ == name
}

/// A player picks up `item`: credits join the party purse; the sector map
/// is refused while someone else carries it, and otherwise makes the picker
/// its carrier (even when the pack then turns out to be full); any other
/// item goes into the first free slot.
pub fn pick_up(run: &mut RunState, inventory: &mut Vec<Option<Item>>, item: Item, picker: &str) -> (r: PickupOutcome)
    requires
        item.id == CREDITS ==> old(run).credits + item.value <= u32::MAX,
    ensures
        run_rest_same(*final(run), *old(run)),
        item.id == CREDITS ==> r is Credits && final(run).credits == old(run).credits + item.value
            && final(run).map_holder == old(run).map_holder && final(inventory)@ == old(inventory)@,
        item.id != CREDITS ==> final(run).credits == old(run).credits,
        item.id != CREDITS && item.id == MAP && old(run).map_holder is Some && !holds_map(*old(run), picker@) ==> r
            == PickupOutcome::MapHeldByOther(item) && *final(run) == *old(run) && final(inventory)@ == old(inventory)@,
        item.id != CREDITS && !(item.id == MAP && old(run).map_holder is Some && !holds_map(*old(run), picker@)) ==> {
            &&& (item.id == MAP && old(run).map_holder is None) ==> holds_map(*final(run), picker@)
            &&& !(item.id == MAP && old(run).map_holder is None) ==> final(run).map_holder == old(run).map_holder
            &&& (forall|k: int| 0 <= k < old(inventory)@.len() ==> #[trigger] old(inventory)@[k] is Some) ==> r
                == PickupOutcome::InventoryFull(item) && final(inventory)@ == old(inventory)@
            &&& (exists|k: int| 0 <= k < old(inventory)@.len() && #[trigger] old(inventory)@[k] is None) ==> (r matches PickupOutcome::Stored(s) && s
                < old(inventory)@.len() && old(inventory)@[s as int] is None && (forall|k: int| 0 <= k < s ==> #[trigger] old(inventory)@[k] is Some)
                && final(inventory)@ == old(inventory)@.update(s as int, Some(item)))
        },
{
    if item.id == CREDITS {
        run.credits = run.credits + item.value;
        return PickupOutcome::Credits;
    }
    if is_map(&item) {
        match &run.map_holder {
            Some(holder) => {
                if !str_eq(holder.as_str(), picker) {
                    return PickupOutcome::MapHeldByOther(item);
                }
            },
            None => {
                run.map_holder = Some(picker.to_owned());
            },
        }
    }
    match first_free_slot(inventory) {
        None => PickupOutcome::InventoryFull(item),
        Some(s) => {
            inventory.set(s, Some(item));
            PickupOutcome::Stored(s)
        },
    }
}

/// A player drops the item in `slot`, if there is one; dropping the sector
/// map one carries frees it for others. Returns the dropped item.
pub fn drop_slot(run: &mut RunState, inventory: &mut Vec<Option<Item>>, slot: u32, dropper: &str) -> (r: Option<Item>)
    ensures
        run_rest_same(*final(run), *old(run)),
        final(run).credits == old(run).credits,
        r == if slot < old(inventory)@.len() { old(inventory)@[slot as int] } else { None },
        r is None ==> final(inventory)@ == old(inventory)@ && *final(run) == *old(run),
        r matches Some(item) ==> {
            &&& final(inventory)@ == old(inventory)@.update(slot as int, None)
            &&& (item.id == MAP && holds_map(*old(run), dropper@)) ==> final(run).map_holder is None
            &&& !(item.id == MAP && holds_map(*old(run), dropper@)) ==> final(run).map_holder == old(run).map_holder
        },
{
    let s = slot as usize;
    if s >= inventory.len() || inventory[s].is_none() {
        return None;
    }
    let taken = inventory.remove(s);
    inventory.insert(s, None);
    proof {
        assert(inventory@ =~= old(inventory)@.update(s as int, None));
    }
    let item = match taken {
        Some(it) => it,
        None => {
            return None;
        },
    };
    let carries = match &run.map_holder {
        Some(h) => str_eq(h.as_str(), dropper),
        None => false,
    };
    if is_map(&item) && carries {
        run.map_holder = None;
    }
    Some(item)
}

/// The slot holds the sector map.
pub open spec fn is_map_slot(slot: Option<Item>) -> bool {
    slot matches Some(it) && it.id == MAP
}

/// Some slot of `inventory` holds the sector map.
pub open spec fn carries_map(inventory: Seq<Option<Item>>) -> bool {
    exists|k: int| 0 <= k < inventory.len() && is_map_slot(#[trigger] inventory[k])
}

fn has_map(inventory: &Vec<Option<Item>>) -> (r: bool)
    ensures
        r == carries_map(inventory@),
{
    let mut i: usize = 0;
    while i < inventory.len()
        invariant
            i <= inventory@.len(),
            forall|k: int| 0 <= k < i ==> !is_map_slot(#[trigger] inventory@[k]),
        decreases inventory@.len() - i,
    {
        match &inventory[i] {
            Some(it) => {
                if is_map(it) {
                    return true;
                }
            },
            None => {},
        }
        i += 1;
    }
    false
}

/// The recorded map carrier is among `players` (name and inventory) and
/// holds the sector map.
pub open spec fn holder_still_carries(holder: Seq<char>, players: Seq<(String, Vec<Option<Item>>)>) -> bool {
    exists|i: int| 0 <= i < players.len() && (#[trigger] players[i]).0@ == holder && carries_map(players[i].1@)
}

/// Forget the map carrier once nobody of that name carries the map any more.
pub fn map_holder_rules(run: &mut RunState, players: &Vec<(String, Vec<Option<Item>>)>)
    ensures
        run_rest_same(*final(run), *old(run)),
        final(run).credits == old(run).credits,
        final(run).map_holder == match old(run).map_holder {
            Some(h) => if holder_still_carries(h@, players@) { Some(h) } else { None },
            None => None,
        },
{
    let still = match &run.map_holder {
        None => {
            return;
        },
        Some(holder) => {
            let mut found = false;
            let mut i: usize = 0;
            while i < players.len()
                invariant
                    i <= players@.len(),
                    found == exists|j: int| 0 <= j < i && (#[trigger] players@[j]).0@ == holder@ && carries_map(players@[j].1@),
                decreases players@.len() - i,
            {
                if !found && str_eq(players[i].0.as_str(), holder.as_str()) && has_map(&players[i].1) {
                    found = true;
                }
                i += 1;
            }
            found
        },
    };
    if !still {
        run.map_holder = None;
    }
}

} // verus!
