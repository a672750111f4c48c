//! Friendly NPCs: their stable flavour profiles and the Tech class's
//! terminal hack.

use vstd::prelude::*;

use crate::items::{by_id, first_free_slot, item_name, item_stats, Item, DATA_SHARD};
use crate::run::{ClassKind, RunState};

verus! {

/// Stable flavour identity of an NPC, rolled once at spawn.
#[derive(Clone, Copy, Debug)]
pub struct NpcProfile {
    pub name: &'static str,
    pub greeting: &'static str,
    pub rumor: &'static str,
    /// A hidden-room keeper: sells only bandages and tells deeper lore.
    pub keeper: bool,
}

pub open spec fn name_table() -> Seq<Seq<char>> {
    seq![
        "Vex"@,
        "Mara"@,
        "Old Serj"@,
        "Tunnel Kate"@,
        "Brick"@,
        "Whisper"@,
        "Doc Halden"@,
        "Rusty"@,
        "The Ledger"@,
        "Pip"@,
    ]
}

pub open spec fn greeting_table() -> Seq<Seq<char>> {
    seq![
        "Looking to trade, or just passing through?"@,
        "Keep your voice down. The walls listen."@,
        "Fresh from the tunnels? You look it."@,
        "Credits or scrap, I don't judge."@,
        "Don't touch the pallet. Ask first."@,
        "Another runner. The sewers keep spitting you out."@,
    ]
}

pub open spec fn rumor_table() -> Seq<Seq<char>> {
    seq![
        "Some doors down here aren't on any map. Walk the walls if you're curious."@,
        "Patrols hear a sprint from across the hall. Crouch and they're half deaf."@,
        "Lost a friend to a locked gate once. It opened for the thing chasing him."@,
        "The machines further down still run. Nobody remembers switching them on."@,
        "There's a whole floor below this one, they say. And another below that."@,
        "Buy the map. Everyone thinks they don't need the map."@,
        "Extraction pays for what you carry OUT, not for what you shot on the way."@,
    ]
}

pub open spec fn keeper_name_table() -> Seq<Seq<char>> {
    seq!["The Hermit"@, "Old Wick"@, "Sister Ash"@, "The Cartographer"@, "Grim"@, "Mother Kell"@]
}

pub open spec fn keeper_greeting_table() -> Seq<Seq<char>> {
    seq![
        "You found the door. Few do. Sit — but keep your hands where I can see them."@,
        "A visitor. It's been... I've stopped counting. What do you need?"@,
        "Quiet, out there. Quieter in here. That's how I like it."@,
        "You've got the look of someone still counting on getting out. Cute."@,
    ]
}

pub open spec fn keeper_lore_table() -> Seq<Seq<char>> {
    seq![
        "This whole sector was a shelter once. Then the shelter needed shelter from what it kept."@,
        "The factions up top are children fighting over a corpse's pockets. The body's still warm below."@,
        "Every hidden room connects, if you know the old maintenance codes. I've walked the whole ring."@,
        "The machines didn't wake. They were never asleep. We just stopped being worth their attention."@,
        "There's a floor they sealed with people still on it. On some nights, the seals still knock."@,
        "Extraction isn't up. Never was. They just point you at the light so you stop digging."@,
    ]
}

fn pick(list: &[&'static str], i: usize) -> (r: &'static str)
    requires
        list@.len() > 0,
    ensures
        r@ == list@[(i as int) % (list@.len() as int)]@,
{
    list[i % list.len()]
}

/// Profile of the `idx`-th NPC of a layout, `h` being the hash of its spawn
/// position: the first ten get distinct names; greeting and rumour mix in
/// the position for variety across maps.
pub fn profile_for(idx: usize, h: usize) -> (r: NpcProfile)
    requires
        idx + h <= usize::MAX,
        idx * 3 + h / 5 <= usize::MAX,
    ensures
        r.name@ == name_table()[(idx % 10) as int],
        r.greeting@ == greeting_table()[((idx + h) % 6) as int],
        r.rumor@ == rumor_table()[((idx * 3 + h / 5) % 7) as int],
        !r.keeper,
{
    let names = ["Vex", "Mara", "Old Serj", "Tunnel Kate", "Brick", "Whisper", "Doc Halden", "Rusty", "The Ledger", "Pip"];
    let greetings = [
        "Looking to trade, or just passing through?",
        "Keep your voice down. The walls listen.",
        "Fresh from the tunnels? You look it.",
        "Credits or scrap, I don't judge.",
        "Don't touch the pallet. Ask first.",
        "Another runner. The sewers keep spitting you out.",
    ];
    let rumors = [
        "Some doors down here aren't on any map. Walk the walls if you're curious.",
        "Patrols hear a sprint from across the hall. Crouch and they're half deaf.",
        "Lost a friend to a locked gate once. It opened for the thing chasing him.",
        "The machines further down still run. Nobody remembers switching them on.",
        "There's a whole floor below this one, they say. And another below that.",
        "Buy the map. Everyone thinks they don't need the map.",
        "Extraction pays for what you carry OUT, not for what you shot on the way.",
    ];
    proof {
        assert(names@.map_values(|s: &str| s@) =~= name_table());
        assert(greetings@.map_values(|s: &str| s@) =~= greeting_table());
        assert(rumors@.map_values(|s: &str| s@) =~= rumor_table());
    }
    let r = NpcProfile {
        name: pick(names.as_slice(), idx),
        greeting: pick(greetings.as_slice(), idx + h),
        rumor: pick(rumors.as_slice(), idx * 3 + h / 5),
        keeper: false,
    };
    proof {
        assert(names@.map_values(|s: &str| s@)[(idx % 10) as int] == name_table()[(idx % 10) as int]);
        assert(greetings@.map_values(|s: &str| s@)[((idx + h) % 6) as int] == greeting_table()[((idx + h) % 6) as int]);
        assert(rumors@.map_values(|s: &str| s@)[((idx * 3 + h / 5) % 7) as int] == rumor_table()[((idx * 3 + h / 5) % 7) as int]);
    }
    r
}

/// Profile of the `idx`-th hidden-room keeper, `h` being the hash of its
/// spawn position.
pub fn keeper_profile(idx: usize, h: usize) -> (r: NpcProfile)
    requires
        idx + h <= usize::MAX,
        idx + h / 3 <= usize::MAX,
    ensures
        r.name@ == keeper_name_table()[(idx % 6) as int],
        r.greeting@ == keeper_greeting_table()[((idx + h) % 4) as int],
        r.rumor@ == keeper_lore_table()[((idx + h / 3) % 6) as int],
        r.keeper,
{
    let names = ["The Hermit", "Old Wick", "Sister Ash", "The Cartographer", "Grim", "Mother Kell"];
    let greetings = [
        "You found the door. Few do. Sit — but keep your hands where I can see them.",
        "A visitor. It's been... I've stopped counting. What do you need?",
        "Quiet, out there. Quieter in here. That's how I like it.",
        "You've got the look of someone still counting on getting out. Cute.",
    ];
    let lore = [
        "This whole sector was a shelter once. Then the shelter needed shelter from what it kept.",
        "The factions up top are children fighting over a corpse's pockets. The body's still warm below.",
        "Every hidden room connects, if you know the old maintenance codes. I've walked the whole ring.",
        "The machines didn't wake. They were never asleep. We just stopped being worth their attention.",
        "There's a floor they sealed with people still on it. On some nights, the seals still knock.",
        "Extraction isn't up. Never was. They just point you at the light so you stop digging.",
    ];
    proof {
        assert(names@.map_values(|s: &str| s@) =~= keeper_name_table());
        assert(greetings@.map_values(|s: &str| s@) =~= keeper_greeting_table());
        assert(lore@.map_values(|s: &str| s@) =~= keeper_lore_table());
    }
    let r = NpcProfile {
        name: pick(names.as_slice(), idx),
        greeting: pick(greetings.as_slice(), idx + h),
        rumor: pick(lore.as_slice(), idx + h / 3),
        keeper: true,
    };
    proof {
        assert(names@.map_values(|s: &str| s@)[(idx % 6) as int] == keeper_name_table()[(idx % 6) as int]);
        assert(greetings@.map_values(|s: &str| s@)[((idx + h) % 4) as int] == keeper_greeting_table()[((idx + h) % 4) as int]);
        assert(lore@.map_values(|s: &str| s@)[((idx + h / 3) % 6) as int] == keeper_lore_table()[((idx + h / 3) % 6) as int]);
    }
    r
}

/// Credits a terminal hack pays the party.
pub const HACK_REWARD_CREDITS: u32 = 40;

/// Time between two hacks by one Tech, in milliseconds.
pub const HACK_COOLDOWN_MS: u32 = 20000;

/// The inventory after a hack: a Data Shard in the first free slot, or
/// unchanged when the pack is full.
pub open spec fn shard_dropped(before: Seq<Option<Item>>, after: Seq<Option<Item>>) -> bool {
    if forall|k: int| 0 <= k < before.len() ==> #[trigger] before[k] is Some {
        after == before
    } else {
        exists|s: int|
            0 <= s < before.len() && before[s] is None && (forall|k: int| 0 <= k < s ==> #[trigger] before[k] is Some)
                && after == before.update(s, after[s]) && is_data_shard(after[s])
    }
}

/// The slot holds a catalogue Data Shard.
pub open spec fn is_data_shard(slot: Option<Item>) -> bool {
    slot matches Some(it) && it.id == DATA_SHARD && it.name@ == item_name(DATA_SHARD) && (it.weight_g, it.value)
        == item_stats(DATA_SHARD)->0
}

/// One tick of a player's terminal hack: the cooldown runs down by `dt_ms`
/// (not below zero); a requested hack by a living Tech whose cooldown has
/// run out pays the party, restarts the cooldown and drops a Data Shard into
/// the first free slot, if any. Returns whether the hack went through.
pub fn tech_hack(
    run: &mut RunState,
    inventory: &mut Vec<Option<Item>>,
    class: ClassKind,
    alive: bool,
    requested: bool,
    cooldown_ms: &mut u32,
    dt_ms: u32,
) -> (hacked: bool)
    requires
        old(run).credits + HACK_REWARD_CREDITS <= u32::MAX,
    ensures
        hacked == (requested && alive && class == ClassKind::Tech && *old(cooldown_ms) <= dt_ms),
        !hacked ==> *final(cooldown_ms) == if *old(cooldown_ms) > dt_ms { *old(cooldown_ms) - dt_ms } else { 0 }
            && *final(run) == *old(run) && final(inventory)@ == old(inventory)@,
        hacked ==> {
            &&& *final(cooldown_ms) == HACK_COOLDOWN_MS
            &&& final(run).credits == old(run).credits + HACK_REWARD_CREDITS
            &&& final(run).map_holder == old(run).map_holder
            &&& crate::items::run_rest_same(*final(run), *old(run))
            &&& shard_dropped(old(inventory)@, final(inventory)@)
        },
{
    *cooldown_ms = if *cooldown_ms > dt_ms { *cooldown_ms - dt_ms } else { 0 };
    if !requested || !alive || class != ClassKind::Tech || *cooldown_ms > 0 {
        return false;
    }
    *cooldown_ms = HACK_COOLDOWN_MS;
    run.credits = run.credits + HACK_REWARD_CREDITS;
    match first_free_slot(inventory) {
        Some(slot) => {
            inventory.set(slot, by_id(DATA_SHARD));
        },
        None => {},
    }
    true
}

} // verus!
