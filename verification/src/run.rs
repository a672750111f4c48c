//! The extraction run: phases, camps, the stretch graph and its routes, and
//! the server's run rules (entering a hub, shopping, choosing a route,
//! permadeath and restart).

use vstd::prelude::*;

use crate::text::{concat, str_eq};

verus! {

/// The four playable operator classes.
#[derive(Clone, Copy, Debug, PartialEq, Eq, Structural, Hash)]
pub enum ClassKind {
    Soldier,
    Medic,
    Scout,
    Tech,
}

impl Default for ClassKind {
    fn default() -> (r: Self)
        ensures
            r == ClassKind::Soldier,
    {
        ClassKind::Soldier
    }
}

/// High-level run phase.
#[derive(Clone, Copy, Debug, PartialEq, Eq, Structural)]
pub enum RunPhase {
    InStretch,
    InHub,
    RunOver,
}

impl Default for RunPhase {
    fn default() -> (r: Self)
        ensures
            r == RunPhase::InStretch,
    {
        RunPhase::InStretch
    }
}

/// Hub specialization; biases what the shop stocks.
#[derive(Clone, Copy, Debug, PartialEq, Eq, Structural)]
pub enum CampKind {
    MedBay,
    Armory,
    Workshop,
    Intel,
}

impl CampKind {
    pub fn name(self) -> (r: &'static str)
        ensures
            r@ == (match self {
                CampKind::MedBay => "medbay"@,
                CampKind::Armory => "armory"@,
                CampKind::Workshop => "workshop"@,
                CampKind::Intel => "intel"@,
            }),
    {
        match self {
            CampKind::MedBay => "medbay",
            CampKind::Armory => "armory",
            CampKind::Workshop => "workshop",
            CampKind::Intel => "intel",
        }
    }

    pub fn label(self) -> (r: &'static str)
        ensures
            r@ == (match self {
                CampKind::MedBay => "Med Bay"@,
                CampKind::Armory => "Armory"@,
                CampKind::Workshop => "Workshop"@,
                CampKind::Intel => "Intel Post"@,
            }),
    {
        match self {
            CampKind::MedBay => "Med Bay",
            CampKind::Armory => "Armory",
            CampKind::Workshop => "Workshop",
            CampKind::Intel => "Intel Post",
        }
    }
}

/// One selectable path leaving a hub.
#[derive(Clone, Debug)]
pub struct RouteOption {
    pub target_id: String,
    pub label: String,
    pub camp: CampKind,
    pub cost: u32,
}

/// Replicated summary of the current run.
#[derive(Clone, Debug)]
pub struct RunState {
    pub phase: RunPhase,
    /// The active sewer stretch; unchanged while in a hub.
    pub level_id: String,
    /// The hub being shopped at (set while in a hub).
    pub hub_id: Option<String>,
    pub credits: u32,
    pub scrap: u32,
    /// Who carries the sector map, if anyone.
    pub map_holder: Option<String>,
    /// Routes offered at the hub.
    pub route_options: Vec<RouteOption>,
    pub run_seed: u64,
}

/// One authored edge of the stretch graph.
#[derive(Clone, Debug)]
pub struct RouteEdge {
    pub target: String,
    pub label: String,
    pub cost: u32,
}

/// A stretch or hub of the run.
#[derive(Clone, Debug)]
pub struct StretchNode {
    pub id: String,
    pub label: String,
    pub camp: CampKind,
    pub routes: Vec<RouteEdge>,
}

/// `i` is the first node with id `id`.
pub open spec fn is_first_node(graph: Seq<StretchNode>, id: Seq<char>, i: int) -> bool {
    &&& 0 <= i < graph.len()
    &&& graph[i].id@ == id
    &&& forall|j: int| 0 <= j < i ==> #[trigger] graph[j].id@ != id
}

/// The graph has a node with id `id`.
pub open spec fn has_node(graph: Seq<StretchNode>, id: Seq<char>) -> bool {
    exists|i: int| is_first_node(graph, id, i)
}

/// The node a lookup of `id` finds (meaningful when `has_node`).
pub open spec fn node_of(graph: Seq<StretchNode>, id: Seq<char>) -> StretchNode {
    graph[choose|i: int| is_first_node(graph, id, i)]
}

proof fn lemma_first_node_unique(graph: Seq<StretchNode>, id: Seq<char>, i: int, k: int)
    requires
        is_first_node(graph, id, i),
        is_first_node(graph, id, k),
    ensures
        i == k,
{
    if i < k {
        assert(graph[i].id@ != id);
    } else if k < i {
        assert(graph[k].id@ != id);
    }
}

/// Position of the node with id `id`.
pub fn node(graph: &Vec<StretchNode>, id: &str) -> (r: Option<usize>)
    ensures
        r is Some == has_node(graph@, id@),
        r matches Some(i) ==> is_first_node(graph@, id@, i as int) && node_of(graph@, id@) == graph@[i as int],
{
    let n = graph.len();
    let mut i: usize = 0;
    while i < n
        invariant
            n == graph@.len(),
            i <= n,
            forall|j: int| 0 <= j < i ==> #[trigger] graph@[j].id@ != id@,
        decreases n - i,
    {
        if str_eq(graph[i].id.as_str(), id) {
            proof {
                assert(is_first_node(graph@, id@, i as int));
                let k = choose|k: int| is_first_node(graph@, id@, k);
                lemma_first_node_unique(graph@, id@, i as int, k);
            }
            return Some(i);
        }
        i = i + 1;
    }
    None
}

/// What a player sees of a route option.
pub open spec fn option_view(o: RouteOption) -> (Seq<char>, Seq<char>, CampKind, u32) {
    (o.target_id@, o.label@, o.camp, o.cost)
}

/// The options offered for `edges`: each edge whose target exists, labelled
/// `"<edge label> → <target label>"`, with the target's camp and the edge's cost.
pub open spec fn routes_spec(graph: Seq<StretchNode>, edges: Seq<RouteEdge>) -> Seq<(Seq<char>, Seq<char>, CampKind, u32)>
    decreases edges.len(),
{
    if edges.len() == 0 {
        Seq::empty()
    } else {
        let prev = routes_spec(graph, edges.drop_last());
        let e = edges.last();
        if has_node(graph, e.target@) {
            let t = node_of(graph, e.target@);
            prev.push((e.target@, e.label@ + " → "@ + t.label@, t.camp, e.cost))
        } else {
            prev
        }
    }
}

/// Route options leaving `graph[from]`, in authored order.
pub fn build_routes(graph: &Vec<StretchNode>, from: usize) -> (r: Vec<RouteOption>)
    requires
        from < graph@.len(),
    ensures
        r@.map_values(|o: RouteOption| option_view(o)) == routes_spec(graph@, graph@[from as int].routes@),
{
    let edges = &graph[from].routes;
    let mut out: Vec<RouteOption> = Vec::new();
    let mut i: usize = 0;
    while i < edges.len()
        invariant
            edges == &graph@[from as int].routes,
            i <= edges@.len(),
            out@.map_values(|o: RouteOption| option_view(o)) == routes_spec(graph@, edges@.take(i as int)),
        decreases edges@.len() - i,
    {
        proof {
            assert(edges@.take(i + 1).drop_last() =~= edges@.take(i as int));
        }
        let e = &edges[i];
        match node(graph, e.target.as_str()) {
            Some(t) => {
                let a = concat(e.label.as_str(), " → ");
                let label = concat(a.as_str(), graph[t].label.as_str());
                let opt = RouteOption { target_id: e.target.clone(), label, camp: graph[t].camp, cost: e.cost };
                let ghost before = out@;
                out.push(opt);
                proof {
                    assert(out@.map_values(|o: RouteOption| option_view(o)) =~= before.map_values(
                        |o: RouteOption| option_view(o),
                    ).push(option_view(opt)));
                }
            },
            None => {},
        }
        i = i + 1;
    }
    proof {
        assert(edges@.take(edges@.len() as int) =~= edges@);
    }
    out
}

fn edge(target: &str, label: &str, cost: u32) -> (r: RouteEdge)
    ensures
        r.target@ == target@,
        r.label@ == label@,
        r.cost == cost,
{
    RouteEdge { target: target.to_owned(), label: label.to_owned(), cost }
}

/// Views of the authored graph: id, label, camp and `(target, label, cost)` edges.
pub open spec fn node_view(n: StretchNode) -> (Seq<char>, Seq<char>, CampKind, Seq<(Seq<char>, Seq<char>, u32)>) {
    (n.id@, n.label@, n.camp, n.routes@.map_values(|e: RouteEdge| (e.target@, e.label@, e.cost)))
}

/// The authored stretch graph; the first node starts the run.
pub open spec fn graph_spec() -> Seq<(Seq<char>, Seq<char>, CampKind, Seq<(Seq<char>, Seq<char>, u32)>)> {
    seq![
        ("sewer_entry"@, "Drop Shaft — Sector 7"@, CampKind::MedBay, seq![("hub_medbay"@, "Med Bay camp"@, 0u32)]),
        ("hub_medbay"@, "Camp Med Bay"@, CampKind::MedBay, seq![
            ("sewer_branch_a"@, "Subway spur (east)"@, 5u32),
            ("sewer_branch_b"@, "Vent crawl (west)"@, 5u32),
            ("hub_intel"@, "Intel relay (deep)"@, 10u32),
        ]),
        ("sewer_branch_a"@, "Subway Spur A"@, CampKind::Armory, seq![("hub_armory"@, "Armory outpost"@, 0u32)]),
        ("sewer_branch_b"@, "Vent Crawl B"@, CampKind::Workshop, seq![("hub_armory"@, "Armory outpost"@, 0u32)]),
        ("hub_armory"@, "Camp Armory"@, CampKind::Armory, seq![
            ("sewer_entry"@, "Backtrack to drop shaft"@, 8u32),
            ("hub_intel"@, "Intel relay"@, 6u32),
        ]),
        ("hub_intel"@, "Intel Relay"@, CampKind::Intel, seq![
            ("sewer_branch_a"@, "Subway spur"@, 5u32),
            ("sewer_branch_b"@, "Vent crawl"@, 5u32),
        ]),
    ]
}

fn make_node(id: &str, label: &str, camp: CampKind, routes: Vec<RouteEdge>) -> (r: StretchNode)
    ensures
        r.id@ == id@,
        r.label@ == label@,
        r.camp == camp,
        r.routes@ == routes@,
{
    StretchNode { id: id.to_owned(), label: label.to_owned(), camp, routes }
}

/// All authored stretches and hubs.
pub fn stretch_graph() -> (r: Vec<StretchNode>)
    ensures
        r@.map_values(|n: StretchNode| node_view(n)) == graph_spec(),
{
    let mut g: Vec<StretchNode> = Vec::new();
    g.push(make_node("sewer_entry", "Drop Shaft — Sector 7", CampKind::MedBay, vec![edge("hub_medbay", "Med Bay camp", 0)]));
    g.push(make_node("hub_medbay", "Camp Med Bay", CampKind::MedBay, vec![
        edge("sewer_branch_a", "Subway spur (east)", 5),
        edge("sewer_branch_b", "Vent crawl (west)", 5),
        edge("hub_intel", "Intel relay (deep)", 10),
    ]));
    g.push(make_node("sewer_branch_a", "Subway Spur A", CampKind::Armory, vec![edge("hub_armory", "Armory outpost", 0)]));
    g.push(make_node("sewer_branch_b", "Vent Crawl B", CampKind::Workshop, vec![edge("hub_armory", "Armory outpost", 0)]));
    g.push(make_node("hub_armory", "Camp Armory", CampKind::Armory, vec![
        edge("sewer_entry", "Backtrack to drop shaft", 8),
        edge("hub_intel", "Intel relay", 6),
    ]));
    g.push(make_node("hub_intel", "Intel Relay", CampKind::Intel, vec![
        edge("sewer_branch_a", "Subway spur", 5),
        edge("sewer_branch_b", "Vent crawl", 5),
    ]));
    proof {
        let v = g@.map_values(|n: StretchNode| node_view(n));
        assert forall|k: int| 0 <= k < 6 implies v[k] == graph_spec()[k] by {
            assert(v[k].3 =~= graph_spec()[k].3);
        }
        assert(v =~= graph_spec());
    }
    g
}

/// The node a run starts at: the first of the graph.
pub fn start_node(graph: &Vec<StretchNode>) -> (r: &StretchNode)
    requires
        graph@.len() > 0,
    ensures
        *r == graph@[0],
{
    &graph[0]
}

/// Item ids the shop sells.
pub const FLASHLIGHT: u32 = 10;

pub const MAP_ITEM: u32 = 11;

pub const PIPE_BAT: u32 = 12;

/// One shop offer: item id, price in credits, log name.
#[derive(Clone, Debug)]
pub struct ShopOffer {
    pub item_id: u32,
    pub cost: u32,
    pub name: String,
}

pub open spec fn offer_view(o: ShopOffer) -> (u32, u32, Seq<char>) {
    (o.item_id, o.cost, o.name@)
}

/// The camp's special offer.
pub open spec fn camp_offer(camp: CampKind) -> (u32, u32, Seq<char>) {
    match camp {
        CampKind::MedBay => (FLASHLIGHT, 8u32, "Tactical Light"@),
        CampKind::Armory => (PIPE_BAT, 8u32, "Reinforced Bat"@),
        CampKind::Workshop => (FLASHLIGHT, 6u32, "Helmet Mount Kit"@),
        CampKind::Intel => (MAP_ITEM, 12u32, "Sector Map"@),
    }
}

/// What a camp's shop sells: the basics, the camp's special, and the sector
/// map at full price unless the special already is a map.
pub open spec fn stock_spec(camp: CampKind) -> Seq<(u32, u32, Seq<char>)> {
    let base = seq![(FLASHLIGHT, 12u32, "Flashlight"@), (PIPE_BAT, 10u32, "Pipe Bat"@), camp_offer(camp)];
    if camp_offer(camp).0 == MAP_ITEM {
        base
    } else {
        base.push((MAP_ITEM, 20u32, "Sector Map"@))
    }
}

fn offer(item_id: u32, cost: u32, name: &str) -> (r: ShopOffer)
    ensures
        offer_view(r) == (item_id, cost, name@),
{
    ShopOffer { item_id, cost, name: name.to_owned() }
}

/// The shop stock of a camp, in display order.
pub fn shop_stock(camp: CampKind) -> (r: Vec<ShopOffer>)
    ensures
        r@.map_values(|o: ShopOffer| offer_view(o)) == stock_spec(camp),
{
    let mut stock: Vec<ShopOffer> = Vec::new();
    stock.push(offer(FLASHLIGHT, 12, "Flashlight"));
    stock.push(offer(PIPE_BAT, 10, "Pipe Bat"));
    match camp {
        CampKind::MedBay => stock.push(offer(FLASHLIGHT, 8, "Tactical Light")),
        CampKind::Armory => stock.push(offer(PIPE_BAT, 8, "Reinforced Bat")),
        CampKind::Workshop => stock.push(offer(FLASHLIGHT, 6, "Helmet Mount Kit")),
        CampKind::Intel => stock.push(offer(MAP_ITEM, 12, "Sector Map")),
    }
    let mut has_map = false;
    let mut i: usize = 0;
    while i < stock.len()
        invariant
            stock@.len() == 3,
            i <= 3,
            has_map == (exists|k: int| 0 <= k < i && #[trigger] stock@[k].item_id == MAP_ITEM),
        decreases 3 - i,
    {
        if stock[i].item_id == MAP_ITEM {
            has_map = true;
        }
        i = i + 1;
    }
    let ghost s3 = stock@;
    if !has_map {
        stock.push(offer(MAP_ITEM, 20, "Sector Map"));
    }
    proof {
        assert(has_map == (s3[2].item_id == MAP_ITEM)) by {
            if has_map {
                let k = choose|k: int| 0 <= k < 3 && #[trigger] s3[k].item_id == MAP_ITEM;
            }
            assert(s3[0].item_id == FLASHLIGHT);
            assert(s3[1].item_id == PIPE_BAT);
        }
        assert(stock@.map_values(|o: ShopOffer| offer_view(o)) =~= stock_spec(camp));
    }
    stock
}


/// Golden-ratio multiplier used to spread the clock's seconds over a seed.
pub const SEED_MIX: u64 = 0x9e3779b97f4a7c15;

/// A run seed from the wall clock: the sub-second nanoseconds xor the
/// seconds times `SEED_MIX` (wrapping).
pub fn mix_seed(secs: u64, nanos: u32) -> (r: u64)
    ensures
        r == (nanos as u64) ^ (((secs as int * SEED_MIX as int) % 0x1_0000_0000_0000_0000) as u64),
{
    (nanos as u64) ^ secs.wrapping_mul(SEED_MIX)
}

/// A fresh run at the start node of `graph`.
pub fn new_run(graph: &Vec<StretchNode>, seed: u64) -> (r: RunState)
    requires
        graph@.len() > 0,
    ensures
        r.phase == RunPhase::InStretch,
        r.level_id@ == graph@[0].id@,
        r.hub_id is None,
        r.credits == 0,
        r.scrap == 0,
        r.map_holder is None,
        r.route_options@.len() == 0,
        r.run_seed == seed,
{
    RunState {
        phase: RunPhase::InStretch,
        level_id: graph[0].id.clone(),
        hub_id: None,
        credits: 0,
        scrap: 0,
        map_holder: None,
        route_options: Vec::new(),
        run_seed: seed,
    }
}

/// Position of the node the run is on (the start node if its id is unknown).
pub open spec fn current_node(graph: Seq<StretchNode>, id: Seq<char>) -> int {
    if has_node(graph, id) {
        choose|i: int| is_first_node(graph, id, i)
    } else {
        0
    }
}

/// The hub a stretch's drop shaft leads to: its first route's target.
pub open spec fn hub_target(graph: Seq<StretchNode>, id: Seq<char>) -> Seq<char> {
    let n = graph[current_node(graph, id)];
    if n.routes@.len() > 0 {
        n.routes@[0].target@
    } else {
        "hub_medbay"@
    }
}

/// The node whose routes the hub offers.
pub open spec fn hub_node(graph: Seq<StretchNode>, id: Seq<char>) -> int {
    let h = hub_target(graph, id);
    if has_node(graph, h) {
        choose|i: int| is_first_node(graph, h, i)
    } else {
        current_node(graph, id)
    }
}

/// The party reached the hub: in a stretch with an extraction, someone is
/// alive and every living player is below the extraction floor.
pub open spec fn party_in_hub(alive: Seq<bool>, below: Seq<bool>) -> bool {
    (exists|i: int| 0 <= i < alive.len() && #[trigger] alive[i]) && forall|i: int| 0 <= i < alive.len() && #[trigger] alive[i] ==> below[i]
}

/// The run state except the phase, hub and routes is as before.
pub open spec fn same_run_core(a: RunState, b: RunState) -> bool {
    a.level_id == b.level_id && a.credits == b.credits && a.scrap == b.scrap && a.map_holder == b.map_holder
        && a.run_seed == b.run_seed
}

/// Enter the hub once the whole living party dropped through the shaft.
/// `alive[i]` and `below[i]` describe player `i`.
pub fn check_extraction(run: &mut RunState, graph: &Vec<StretchNode>, has_extraction: bool, alive: &Vec<bool>, below: &Vec<bool>) -> (entered: bool)
    requires
        graph@.len() > 0,
        alive@.len() == below@.len(),
    ensures
        entered == (old(run).phase == RunPhase::InStretch && has_extraction && party_in_hub(alive@, below@)),
        !entered ==> *final(run) == *old(run),
        entered ==> final(run).phase == RunPhase::InHub && same_run_core(*final(run), *old(run))
            && final(run).hub_id is Some && final(run).hub_id->0@ == hub_target(graph@, old(run).level_id@)
            && final(run).route_options@.map_values(|o: RouteOption| option_view(o)) == routes_spec(
                graph@,
                graph@[hub_node(graph@, old(run).level_id@)].routes@,
            ),
{
    if run.phase != RunPhase::InStretch || !has_extraction {
        return false;
    }
    let n = alive.len();
    let mut any_alive = false;
    let mut all_below = true;
    let mut i: usize = 0;
    while i < n
        invariant
            n == alive@.len(),
            alive@.len() == below@.len(),
            i <= n,
            any_alive == (exists|k: int| 0 <= k < i && #[trigger] alive@[k]),
            all_below == (forall|k: int| 0 <= k < i && #[trigger] alive@[k] ==> below@[k]),
        decreases n - i,
    {
        if alive[i] {
            any_alive = true;
            if !below[i] {
                all_below = false;
            }
        }
        i = i + 1;
    }
    if !any_alive || !all_below {
        return false;
    }
    let cur = match node(graph, run.level_id.as_str()) {
        Some(k) => k,
        None => 0,
    };
    let hub_id = if graph[cur].routes.len() > 0 {
        graph[cur].routes[0].target.clone()
    } else {
        "hub_medbay".to_owned()
    };
    let from = match node(graph, hub_id.as_str()) {
        Some(k) => k,
        None => cur,
    };
    let routes = build_routes(graph, from);
    run.phase = RunPhase::InHub;
    run.hub_id = Some(hub_id);
    run.route_options = routes;
    true
}

/// What became of a shop request.
#[derive(Clone, Copy, Debug, PartialEq, Eq, Structural)]
pub enum ShopOutcome {
    /// The shop does not sell that item.
    NotSold,
    TooPoor,
    /// Someone already carries the sector map.
    MapTaken,
    /// The buyer's inventory is full.
    NoFreeSlot,
    Bought { slot: usize, cost: u32 },
}

/// `i` is the first offer of item `id`.
pub open spec fn is_first_offer(stock: Seq<ShopOffer>, id: u32, i: int) -> bool {
    0 <= i < stock.len() && stock[i].item_id == id && forall|j: int| 0 <= j < i ==> #[trigger] stock[j].item_id != id
}

/// Items the hub can hand out.
pub open spec fn is_stocked_kind(id: u32) -> bool {
    id == FLASHLIGHT || id == MAP_ITEM || id == PIPE_BAT
}

/// A player in the hub asks to buy `buy_id`. Credits are shared by the run;
/// the sector map may have only one carrier. `free_slot` is the buyer's
/// first empty inventory slot.
pub fn hub_shop_purchase(run: &mut RunState, stock: &Vec<ShopOffer>, buy_id: u32, buyer: &str, free_slot: Option<usize>) -> (r: ShopOutcome)
    ensures
        (forall|i: int| !is_first_offer(stock@, buy_id, i)) ==> r == ShopOutcome::NotSold && *final(run) == *old(run),
        forall|i: int| is_first_offer(stock@, buy_id, i) ==> {
            let cost = stock@[i].cost;
            if old(run).credits < cost {
                r == ShopOutcome::TooPoor && *final(run) == *old(run)
            } else if buy_id == MAP_ITEM && old(run).map_holder is Some {
                r == ShopOutcome::MapTaken && *final(run) == *old(run)
            } else {
                &&& buy_id == MAP_ITEM ==> final(run).map_holder is Some && final(run).map_holder->0@ == buyer@
                &&& buy_id != MAP_ITEM ==> final(run).map_holder == old(run).map_holder
                &&& final(run).phase == old(run).phase && final(run).level_id == old(run).level_id
                &&& final(run).hub_id == old(run).hub_id && final(run).scrap == old(run).scrap
                &&& final(run).route_options == old(run).route_options && final(run).run_seed == old(run).run_seed
                &&& match free_slot {
                    None => r == ShopOutcome::NoFreeSlot && final(run).credits == old(run).credits,
                    Some(s) => if is_stocked_kind(buy_id) {
                        r == (ShopOutcome::Bought { slot: s, cost }) && final(run).credits == old(run).credits - cost
                    } else {
                        r == ShopOutcome::NotSold && final(run).credits == old(run).credits
                    },
                }
            }
        },
{
    let n = stock.len();
    let mut i: usize = 0;
    while i < n && stock[i].item_id != buy_id
        invariant
            n == stock@.len(),
            i <= n,
            forall|j: int| 0 <= j < i ==> #[trigger] stock@[j].item_id != buy_id,
        decreases n - i,
    {
        i = i + 1;
    }
    if i == n {
        return ShopOutcome::NotSold;
    }
    proof {
        assert(is_first_offer(stock@, buy_id, i as int));
        assert forall|k: int| is_first_offer(stock@, buy_id, k) implies k == i by {
            if k < i {
                assert(stock@[k].item_id != buy_id);
            } else if k > i {
                assert(stock@[i as int].item_id != buy_id);
            }
        }
    }
    let cost = stock[i].cost;
    if run.credits < cost {
        return ShopOutcome::TooPoor;
    }
    if buy_id == MAP_ITEM {
        if run.map_holder.is_some() {
            return ShopOutcome::MapTaken;
        }
        run.map_holder = Some(buyer.to_owned());
    }
    let slot = match free_slot {
        Some(s) => s,
        None => {
            return ShopOutcome::NoFreeSlot;
        },
    };
    if !(buy_id == FLASHLIGHT || buy_id == MAP_ITEM || buy_id == PIPE_BAT) {
        return ShopOutcome::NotSold;
    }
    run.credits = run.credits - cost;
    ShopOutcome::Bought { slot, cost }
}

/// What came of a route pick at the hub.
#[derive(Clone, Debug)]
pub enum RouteChoice {
    NotInHub,
    NoSuchRoute,
    /// The run cannot pay the route's cost.
    TooPoor { need: u32 },
    /// Paid; the party departs along this route.
    Chosen(RouteOption),
}

/// Pick route `idx` of the hub's offer and pay for it.
pub fn select_route(run: &mut RunState, idx: u32) -> (r: RouteChoice)
    ensures
        old(run).phase != RunPhase::InHub ==> r is NotInHub && *final(run) == *old(run),
        old(run).phase == RunPhase::InHub && idx >= old(run).route_options@.len() ==> r is NoSuchRoute
            && *final(run) == *old(run),
        old(run).phase == RunPhase::InHub && idx < old(run).route_options@.len() ==> {
            let o = old(run).route_options@[idx as int];
            if old(run).credits < o.cost {
                r == (RouteChoice::TooPoor { need: o.cost }) && *final(run) == *old(run)
            } else {
                &&& r matches RouteChoice::Chosen(c) && option_view(c) == option_view(o)
                &&& final(run).credits == old(run).credits - o.cost
                &&& final(run).phase == old(run).phase && final(run).level_id == old(run).level_id
                &&& final(run).hub_id == old(run).hub_id && final(run).scrap == old(run).scrap
                &&& final(run).map_holder == old(run).map_holder
                &&& final(run).route_options == old(run).route_options && final(run).run_seed == old(run).run_seed
            }
        },
{
    if run.phase != RunPhase::InHub {
        return RouteChoice::NotInHub;
    }
    if idx as usize >= run.route_options.len() {
        return RouteChoice::NoSuchRoute;
    }
    let i = idx as usize;
    let cost = run.route_options[i].cost;
    if run.credits < cost {
        return RouteChoice::TooPoor { need: cost };
    }
    let o = RouteOption {
        target_id: run.route_options[i].target_id.clone(),
        label: run.route_options[i].label.clone(),
        camp: run.route_options[i].camp,
        cost,
    };
    run.credits = run.credits - cost;
    RouteChoice::Chosen(o)
}

/// Arrive at `target` after a paid route: a stretch becomes the active level
/// (leaving the hub), another hub switches the camp and its routes.
pub fn depart(run: &mut RunState, graph: &Vec<StretchNode>, target: &str, target_is_stretch: bool)
    ensures
        final(run).credits == old(run).credits && final(run).scrap == old(run).scrap,
        final(run).map_holder == old(run).map_holder && final(run).run_seed == old(run).run_seed,
        target_is_stretch ==> final(run).phase == RunPhase::InStretch && final(run).hub_id is None
            && final(run).level_id@ == target@ && final(run).route_options == old(run).route_options,
        !target_is_stretch ==> final(run).phase == RunPhase::InHub && final(run).level_id == old(run).level_id
            && final(run).hub_id is Some && final(run).hub_id->0@ == target@,
        !target_is_stretch && has_node(graph@, target@) ==> final(run).route_options@.map_values(
            |o: RouteOption| option_view(o),
        ) == routes_spec(graph@, node_of(graph@, target@).routes@),
        !target_is_stretch && !has_node(graph@, target@) ==> final(run).route_options == old(run).route_options,
{
    if target_is_stretch {
        run.hub_id = None;
        run.phase = RunPhase::InStretch;
        run.level_id = target.to_owned();
    } else {
        run.hub_id = Some(target.to_owned());
        run.phase = RunPhase::InHub;
        match node(graph, target) {
            Some(k) => {
                run.route_options = build_routes(graph, k);
            },
            None => {},
        }
    }
}

/// The run ends when there are players and none of them is alive.
pub fn check_permadeath(run: &mut RunState, alive: &Vec<bool>)
    ensures
        (old(run).phase != RunPhase::RunOver && alive@.len() > 0 && forall|i: int| 0 <= i < alive@.len() ==> !#[trigger] alive@[i])
            ==> final(run).phase == RunPhase::RunOver,
        !(old(run).phase != RunPhase::RunOver && alive@.len() > 0 && forall|i: int| 0 <= i < alive@.len() ==> !#[trigger] alive@[i])
            ==> *final(run) == *old(run),
        final(run).phase != old(run).phase ==> final(run).phase == RunPhase::RunOver,
        same_run_core(*final(run), *old(run)) && final(run).hub_id == old(run).hub_id
            && final(run).route_options == old(run).route_options,
{
    if run.phase == RunPhase::RunOver {
        return;
    }
    let mut any_alive = false;
    let mut i: usize = 0;
    while i < alive.len()
        invariant
            i <= alive@.len(),
            any_alive == (exists|k: int| 0 <= k < i && #[trigger] alive@[k]),
        decreases alive@.len() - i,
    {
        if alive[i] {
            any_alive = true;
        }
        i = i + 1;
    }
    if alive.len() > 0 && !any_alive {
        run.phase = RunPhase::RunOver;
    }
}

/// After a wipe, a restart begins a new run at the start node with nothing
/// carried over but the offered routes; it does nothing before the run is over.
pub fn restart_run(run: &mut RunState, graph: &Vec<StretchNode>, seed: u64) -> (restarted: bool)
    requires
        graph@.len() > 0,
    ensures
        restarted == (old(run).phase == RunPhase::RunOver),
        !restarted ==> *final(run) == *old(run),
        restarted ==> final(run).phase == RunPhase::InStretch && final(run).level_id@ == graph@[0].id@
            && final(run).hub_id is None && final(run).credits == 0 && final(run).scrap == 0
            && final(run).map_holder is None && final(run).run_seed == seed
            && final(run).route_options == old(run).route_options,
{
    if run.phase != RunPhase::RunOver {
        return false;
    }
    run.credits = 0;
    run.scrap = 0;
    run.map_holder = None;
    run.hub_id = None;
    run.run_seed = seed;
    run.level_id = graph[0].id.clone();
    run.phase = RunPhase::InStretch;
    true
}

} // verus!
