//! How the path search goes on, way by way, and what it finds.

use vstd::prelude::*;

use crate::config;
use crate::config::LocPixNode;
use crate::display::open_heap;
use crate::display::open_heap::OpenLocNode;
use crate::display::path_find::{LocPixEdgeDirected, PathFindError};
use crate::display::routes;

verus! {

/// Most ways that a search keeps.
pub const MAX_WAYS: usize = 0x1000_0000;

/// A way by which a train gets from the start to a location.
#[derive(Copy, Clone)]
pub struct Way {
    pub loc: u16,
    /// Track direction by which the train comes in, none at the start.
    pub dir: u16,
    /// Transit modes that the goal and all locations on the way have in common.
    pub modes: u8,
    /// Cost of the way.
    pub g: i64,
    /// Number of the way to the location before, and of the edge from there.
    pub from: Option<(usize, usize)>,
}

/// The way to the start.
pub open spec fn start_way(nodes: Seq<LocPixNode>, start: u16, goal: u16) -> Way {
    Way {
        loc: start,
        dir: 0,
        modes: nodes[start as int].modes & nodes[goal as int].modes,
        g: 0,
        from: None,
    }
}

/// Whether a train goes on by edge number `e` of the location that `way` leads to, and arrives
/// where edge number `r` leads back: a transit mode is left, and the turn is allowed.
pub open spec fn goes_on(nodes: Seq<LocPixNode>, way: Way, e: int, r: int) -> bool {
    let edge = nodes[way.loc as int].edges@[e];
    let succ = nodes[edge.to_loc as int];
    &&& 0 <= e < nodes[way.loc as int].edges@.len()
    &&& 0 <= r < succ.edges@.len()
    &&& succ.edges@[r].to_loc == way.loc
    &&& way.modes & succ.modes != 0
    &&& way.dir != 0 ==> routes::may_leave(way.dir, edge.dir)
}

/// Way number `w`, which is `way`, and edge number `e` after it, arriving where edge number `r`
/// leads back.
pub open spec fn onward(nodes: Seq<LocPixNode>, way: Way, w: usize, e: int, r: int) -> Way {
    let edge = nodes[way.loc as int].edges@[e];
    let succ = nodes[edge.to_loc as int];
    Way {
        loc: edge.to_loc,
        dir: succ.edges@[r].dir,
        modes: way.modes & succ.modes,
        g: (way.g + routes::step_cost(nodes[way.loc as int], succ)) as i64,
        from: Some((w, e as usize)),
    }
}

/// The ways on from way number `w` by edge number `e`, by the first `k` edges that may lead back.
pub open spec fn onward_by_edge(
    nodes: Seq<LocPixNode>,
    way: Way,
    w: usize,
    e: int,
    k: nat,
) -> Seq<Way>
    decreases k,
{
    if k == 0 {
        Seq::empty()
    } else {
        let before = onward_by_edge(nodes, way, w, e, (k - 1) as nat);
        if goes_on(nodes, way, e, k - 1) {
            before.push(onward(nodes, way, w, e, k - 1))
        } else {
            before
        }
    }
}

/// The number of edges of the location that edge number `e` of location `i` leads to.
pub open spec fn backs_of(nodes: Seq<LocPixNode>, i: int, e: int) -> nat {
    nodes[nodes[i].edges@[e].to_loc as int].edges@.len()
}

/// The ways on from way number `w` by the first `k` edges of its location.
pub open spec fn onward_ways(nodes: Seq<LocPixNode>, way: Way, w: usize, k: nat) -> Seq<Way>
    decreases k,
{
    if k == 0 {
        Seq::empty()
    } else {
        onward_ways(nodes, way, w, (k - 1) as nat) + onward_by_edge(
            nodes,
            way,
            w,
            k - 1,
            backs_of(nodes, way.loc as int, k - 1),
        )
    }
}

/// Whether a way `a` makes a way `b` superfluous: it leads to the same location, with the same
/// ways on, and costs no more.
pub open spec fn replaces(a: Way, b: Way) -> bool {
    a.loc == b.loc && a.dir == b.dir && a.modes == b.modes && a.g <= b.g
}

/// Whether there is a way already that makes `way` superfluous.
pub open spec fn is_known(ways: Seq<Way>, way: Way) -> bool {
    exists|i: int| 0 <= i < ways.len() && replaces(#[trigger] ways[i], way)
}

/// What the search knows at one moment.
#[verifier::ext_equal]
pub struct SearchState {
    /// The ways that it has still to go on from, as a binary heap.
    pub open: Seq<OpenLocNode>,
    /// All ways, in the order in which they were found.
    pub ways: Seq<Way>,
}

/// The search after it found `way`.
pub open spec fn found(
    nodes: Seq<LocPixNode>,
    goal: u16,
    s: SearchState,
    way: Way,
) -> SearchState {
    SearchState {
        open: open_heap::pushed(
            s.open,
            OpenLocNode {
                idx: way.loc,
                way: s.ways.len() as usize,
                f: (way.g + routes::step_cost(nodes[way.loc as int], nodes[goal as int])) as i64,
            },
        ),
        ways: s.ways.push(way),
    }
}

/// The search before its first step.
pub open spec fn initial_state(nodes: Seq<LocPixNode>, start: u16, goal: u16) -> SearchState {
    found(
        nodes,
        goal,
        SearchState { open: Seq::empty(), ways: Seq::empty() },
        start_way(nodes, start, goal),
    )
}

/// The search after the first `k` of `news` were added, as far as they are not superfluous. `None`
/// once the open list, which holds `cap` nodes, or the list of ways is full.
pub open spec fn after_news(
    nodes: Seq<LocPixNode>,
    goal: u16,
    cap: nat,
    s: SearchState,
    news: Seq<Way>,
    k: nat,
) -> Option<SearchState>
    decreases k,
{
    if k == 0 {
        Some(s)
    } else {
        match after_news(nodes, goal, cap, s, news, (k - 1) as nat) {
            None => None,
            Some(t) => if is_known(t.ways, news[k - 1]) {
                Some(t)
            } else if t.open.len() >= cap || t.ways.len() >= MAX_WAYS {
                None
            } else {
                Some(found(nodes, goal, t, news[k - 1]))
            },
        }
    }
}

/// What one step of the search comes to.
pub enum StepOutcome {
    /// The search goes on.
    Continue(SearchState),
    /// The goal is reached by a way.
    Reached(usize),
    /// There is no room for more ways.
    OutOfMemory,
    /// There is no way to go on from.
    Exhausted,
}

/// One step of the search: it takes the way from the open list that promises to be the cheapest and,
/// unless it leads to the goal, adds the ways on from there.
pub open spec fn advance(
    nodes: Seq<LocPixNode>,
    goal: u16,
    cap: nat,
    s: SearchState,
) -> StepOutcome {
    if s.open.len() == 0 {
        StepOutcome::Exhausted
    } else {
        let cur = s.open[0];
        if cur.idx == goal {
            StepOutcome::Reached(cur.way)
        } else {
            let way = s.ways[cur.way as int];
            let news = onward_ways(nodes, way, cur.way, nodes[way.loc as int].edges@.len());
            let taken = SearchState { open: open_heap::popped(s.open), ..s };
            match after_news(nodes, goal, cap, taken, news, news.len()) {
                Some(t) => StepOutcome::Continue(t),
                None => StepOutcome::OutOfMemory,
            }
        }
    }
}

/// The search `k` steps after `s`, if it gets that far.
pub open spec fn after_steps(
    nodes: Seq<LocPixNode>,
    goal: u16,
    cap: nat,
    s: SearchState,
    k: nat,
) -> Option<SearchState>
    decreases k,
{
    if k == 0 {
        Some(s)
    } else {
        match after_steps(nodes, goal, cap, s, (k - 1) as nat) {
            None => None,
            Some(t) => match advance(nodes, goal, cap, t) {
                StepOutcome::Continue(u) => Some(u),
                _ => None,
            },
        }
    }
}

/// The locations on way number `w`, each with the pixel at which the edge from it begins, the last
/// one with `pix`.
pub open spec fn traced(nodes: Seq<LocPixNode>, ways: Seq<Way>, w: nat, pix: u16) -> Seq<
    LocPixEdgeDirected,
>
    decreases w,
{
    let here = LocPixEdgeDirected { from_loc: ways[w as int].loc, from_pix: pix };
    match ways[w as int].from {
        Some((p, e)) if p < w => traced(
            nodes,
            ways,
            p as nat,
            nodes[ways[p as int].loc as int].edges@[e as int].from_pix,
        ).push(here),
        _ => seq![here],
    }
}

/// The path that way number `w` makes, if it fits a buffer of `path_cap` locations.
pub open spec fn traced_path(
    nodes: Seq<LocPixNode>,
    ways: Seq<Way>,
    w: nat,
    path_cap: nat,
) -> Result<Seq<LocPixEdgeDirected>, PathFindError> {
    match ways[w as int].from {
        None => if path_cap == 0 {
            Err(PathFindError::OutOfMemory)
        } else {
            Err(PathFindError::NoPathFound)
        },
        Some((p, e)) => {
            let to_pix = nodes[ways[p as int].loc as int].edges@[e as int].to_pix;
            let path = traced(nodes, ways, w, to_pix);
            if path.len() > path_cap {
                Err(PathFindError::OutOfMemory)
            } else {
                Ok(path)
            }
        },
    }
}

/// Whether the search stops in the state `s`, and with which result.
pub open spec fn stops_with(
    nodes: Seq<LocPixNode>,
    goal: u16,
    cap: nat,
    path_cap: nat,
    s: SearchState,
    result: Result<Seq<LocPixEdgeDirected>, PathFindError>,
) -> bool {
    match advance(nodes, goal, cap, s) {
        StepOutcome::Continue(_) => false,
        StepOutcome::Exhausted => result == Err::<Seq<LocPixEdgeDirected>, _>(
            PathFindError::NoPathFound,
        ),
        StepOutcome::OutOfMemory => result == Err::<Seq<LocPixEdgeDirected>, _>(
            PathFindError::OutOfMemory,
        ),
        StepOutcome::Reached(w) => result == traced_path(nodes, s.ways, w as nat, path_cap),
    }
}

/// Whether the search from `start` to `goal`, with an open list of `cap` nodes and a path buffer
/// of `path_cap` locations, ends with `result`.
pub open spec fn search_ends_with(
    nodes: Seq<LocPixNode>,
    start: u16,
    goal: u16,
    cap: nat,
    path_cap: nat,
    result: Result<Seq<LocPixEdgeDirected>, PathFindError>,
) -> bool {
    if cap == 0 {
        result == Err::<Seq<LocPixEdgeDirected>, _>(PathFindError::OutOfMemory)
    } else {
        exists|k: nat|
            {
                let s = #[trigger] after_steps(
                    nodes,
                    goal,
                    cap,
                    initial_state(nodes, start, goal),
                    k,
                );
                s is Some && stops_with(nodes, goal, cap, path_cap, s->0, result)
            }
    }
}

/// The result of a search.
pub open spec fn search_result(
    nodes: Seq<LocPixNode>,
    start: u16,
    goal: u16,
    cap: nat,
    path_cap: nat,
) -> Result<Seq<LocPixEdgeDirected>, PathFindError> {
    choose|r: Result<Seq<LocPixEdgeDirected>, PathFindError>|
        search_ends_with(nodes, start, goal, cap, path_cap, r)
}

// ---------------------------------------------------------------------------------------------
// One result
// ---------------------------------------------------------------------------------------------

/// A search has one result only.
pub proof fn lemma_search_is_deterministic(
    nodes: Seq<LocPixNode>,
    start: u16,
    goal: u16,
    cap: nat,
    path_cap: nat,
    a: Result<Seq<LocPixEdgeDirected>, PathFindError>,
    b: Result<Seq<LocPixEdgeDirected>, PathFindError>,
)
    requires
        search_ends_with(nodes, start, goal, cap, path_cap, a),
        search_ends_with(nodes, start, goal, cap, path_cap, b),
    ensures
        a == b,
{
    if cap > 0 {
        let init = initial_state(nodes, start, goal);
        let j = choose|k: nat|
            {
                let s = #[trigger] after_steps(nodes, goal, cap, init, k);
                s is Some && stops_with(nodes, goal, cap, path_cap, s->0, a)
            };
        let k = choose|k: nat|
            {
                let s = #[trigger] after_steps(nodes, goal, cap, init, k);
                s is Some && stops_with(nodes, goal, cap, path_cap, s->0, b)
            };
        if j < k {
            lemma_stopped_stays_stopped(nodes, goal, cap, init, j, k);
        }
        if k < j {
            lemma_stopped_stays_stopped(nodes, goal, cap, init, k, j);
        }
    }
}

/// Past a state from which the search does not go on there is none.
proof fn lemma_stopped_stays_stopped(
    nodes: Seq<LocPixNode>,
    goal: u16,
    cap: nat,
    s: SearchState,
    j: nat,
    k: nat,
)
    requires
        j < k,
        after_steps(nodes, goal, cap, s, j) matches Some(t) && !(advance(
            nodes,
            goal,
            cap,
            t,
        ) is Continue),
    ensures
        after_steps(nodes, goal, cap, s, k) is None,
    decreases k,
{
    if j < k - 1 {
        lemma_stopped_stays_stopped(nodes, goal, cap, s, j, (k - 1) as nat);
    }
}

// ---------------------------------------------------------------------------------------------
// What holds of every state
// ---------------------------------------------------------------------------------------------

/// The largest cost of one step.
pub open spec fn max_step() -> int {
    2int * 0xFFFF_FFFF
}

/// Whether way number `i` is a way: the one to the start, or one on from an earlier one.
pub open spec fn way_ok(
    nodes: Seq<LocPixNode>,
    start: u16,
    goal: u16,
    ways: Seq<Way>,
    i: int,
) -> bool {
    let way = ways[i];
    &&& way.loc < nodes.len()
    &&& 0 <= way.g <= i * max_step()
    &&& match way.from {
        None => i == 0 && way == start_way(nodes, start, goal),
        Some((p, e)) => {
            &&& p < i
            &&& way.dir != 0
            &&& exists|r: int|
                #![trigger goes_on(nodes, ways[p as int], e as int, r)]
                goes_on(nodes, ways[p as int], e as int, r) && way == onward(
                    nodes,
                    ways[p as int],
                    p,
                    e as int,
                    r,
                ) && way.g == ways[p as int].g + routes::step_cost(
                    nodes[ways[p as int].loc as int],
                    nodes[way.loc as int],
                )
        },
    }
}

/// Whether a node of the open list stands for a way, with its estimated cost.
pub open spec fn open_ok(
    nodes: Seq<LocPixNode>,
    goal: u16,
    ways: Seq<Way>,
    o: OpenLocNode,
) -> bool {
    &&& o.way < ways.len()
    &&& o.idx == ways[o.way as int].loc
    &&& o.f == ways[o.way as int].g + routes::step_cost(nodes[o.idx as int], nodes[goal as int])
}

/// What holds of every state of a search.
pub open spec fn sound(nodes: Seq<LocPixNode>, start: u16, goal: u16, s: SearchState) -> bool {
    &&& start < nodes.len()
    &&& goal < nodes.len()
    &&& 0 < s.ways.len() <= MAX_WAYS
    &&& s.ways[0] == start_way(nodes, start, goal)
    &&& forall|i: int| 0 <= i < s.ways.len() ==> #[trigger] way_ok(nodes, start, goal, s.ways, i)
    &&& open_heap::is_heap(s.open)
    &&& forall|i: int| 0 <= i < s.open.len() ==> open_ok(nodes, goal, s.ways, #[trigger] s.open[i])
}

/// Whether the search has still to go on from way number `i`.
spec fn is_open(open: Seq<OpenLocNode>, i: int) -> bool {
    exists|k: int| 0 <= k < open.len() && (#[trigger] open[k]).way == i
}

/// Whether the search has gone on from way number `i`: all ways on from there are known.
spec fn is_done(nodes: Seq<LocPixNode>, ways: Seq<Way>, i: int) -> bool {
    forall|e: int, r: int| #[trigger]
        goes_on(nodes, ways[i], e, r) ==> is_known(ways, onward(nodes, ways[i], i as usize, e, r))
}

/// Whether way number `i` is open, or the search has gone on from it.
spec fn open_or_done(nodes: Seq<LocPixNode>, goal: u16, s: SearchState, i: int) -> bool {
    is_open(s.open, i) || (s.ways[i].loc != goal && is_done(nodes, s.ways, i))
}

/// Whether the search has gone on from every way but the open ones.
spec fn all_done(nodes: Seq<LocPixNode>, goal: u16, s: SearchState) -> bool {
    forall|i: int| 0 <= i < s.ways.len() ==> #[trigger] open_or_done(nodes, goal, s, i)
}

/// Whether the first ways of `b` are those of `a`.
spec fn extends(b: Seq<Way>, a: Seq<Way>) -> bool {
    a.len() <= b.len() && forall|i: int| 0 <= i < a.len() ==> #[trigger] b[i] == a[i]
}

proof fn lemma_known_stays(a: Seq<Way>, b: Seq<Way>, way: Way)
    requires
        extends(b, a),
        is_known(a, way),
    ensures
        is_known(b, way),
{
    let i = choose|i: int| 0 <= i < a.len() && replaces(#[trigger] a[i], way);
    assert(b[i] == a[i]);
}

proof fn lemma_done_stays(nodes: Seq<LocPixNode>, a: Seq<Way>, b: Seq<Way>, i: int)
    requires
        extends(b, a),
        0 <= i < a.len(),
        is_done(nodes, a, i),
    ensures
        is_done(nodes, b, i),
{
    assert(b[i] == a[i]);
    assert forall|e: int, r: int| #[trigger] goes_on(nodes, b[i], e, r) implies is_known(
        b,
        onward(nodes, b[i], i as usize, e, r),
    ) by {
        assert(goes_on(nodes, a[i], e, r));
        lemma_known_stays(a, b, onward(nodes, a[i], i as usize, e, r));
    }
}

proof fn lemma_listed_by_edge(nodes: Seq<LocPixNode>, way: Way, w: usize, e: int, r: int, k: nat)
    requires
        0 <= r < k,
        goes_on(nodes, way, e, r),
    ensures
        onward_by_edge(nodes, way, w, e, k).contains(onward(nodes, way, w, e, r)),
    decreases k,
{
    let list = onward_by_edge(nodes, way, w, e, k);
    let before = onward_by_edge(nodes, way, w, e, (k - 1) as nat);
    let new = onward(nodes, way, w, e, r);
    if r == k - 1 {
        assert(list[list.len() - 1] == new);
    } else {
        lemma_listed_by_edge(nodes, way, w, e, r, (k - 1) as nat);
        let i = before.index_of(new);
        assert(list[i] == new);
    }
}

/// All ways on are listed.
proof fn lemma_listed(nodes: Seq<LocPixNode>, way: Way, w: usize, e: int, r: int, k: nat)
    requires
        0 <= e < k,
        goes_on(nodes, way, e, r),
    ensures
        onward_ways(nodes, way, w, k).contains(onward(nodes, way, w, e, r)),
    decreases k,
{
    let list = onward_ways(nodes, way, w, k);
    let before = onward_ways(nodes, way, w, (k - 1) as nat);
    let by_edge = onward_by_edge(nodes, way, w, k - 1, backs_of(nodes, way.loc as int, k - 1));
    let new = onward(nodes, way, w, e, r);
    if e == k - 1 {
        lemma_listed_by_edge(nodes, way, w, e, r, backs_of(nodes, way.loc as int, e));
        let i = by_edge.index_of(new);
        assert(list[before.len() + i] == new);
    } else {
        lemma_listed(nodes, way, w, e, r, (k - 1) as nat);
        let i = before.index_of(new);
        assert(list[i] == new);
    }
}

/// Whether `new` is a way on from way number `w`.
spec fn is_onward(nodes: Seq<LocPixNode>, way: Way, w: usize, new: Way) -> bool {
    exists|e: int, r: int| #[trigger] goes_on(nodes, way, e, r) && new == onward(nodes, way, w, e, r)
}

proof fn lemma_only_by_edge(nodes: Seq<LocPixNode>, way: Way, w: usize, e: int, k: nat)
    ensures
        forall|i: int|
            0 <= i < onward_by_edge(nodes, way, w, e, k).len() ==> is_onward(
                nodes,
                way,
                w,
                #[trigger] onward_by_edge(nodes, way, w, e, k)[i],
            ),
    decreases k,
{
    if k > 0 {
        lemma_only_by_edge(nodes, way, w, e, (k - 1) as nat);
        let before = onward_by_edge(nodes, way, w, e, (k - 1) as nat);
        let list = onward_by_edge(nodes, way, w, e, k);
        assert forall|i: int| 0 <= i < list.len() implies is_onward(
            nodes,
            way,
            w,
            #[trigger] list[i],
        ) by {
            if i < before.len() {
                assert(list[i] == before[i]);
            } else {
                assert(goes_on(nodes, way, e, k - 1));
            }
        }
    }
}

/// Nothing but ways on is listed.
proof fn lemma_only_listed(nodes: Seq<LocPixNode>, way: Way, w: usize, k: nat)
    ensures
        forall|i: int|
            0 <= i < onward_ways(nodes, way, w, k).len() ==> is_onward(
                nodes,
                way,
                w,
                #[trigger] onward_ways(nodes, way, w, k)[i],
            ),
    decreases k,
{
    if k > 0 {
        let before = onward_ways(nodes, way, w, (k - 1) as nat);
        let backs = backs_of(nodes, way.loc as int, k - 1);
        let by_edge = onward_by_edge(nodes, way, w, k - 1, backs);
        let list = onward_ways(nodes, way, w, k);
        lemma_only_listed(nodes, way, w, (k - 1) as nat);
        lemma_only_by_edge(nodes, way, w, k - 1, backs);
        assert forall|i: int| 0 <= i < list.len() implies is_onward(
            nodes,
            way,
            w,
            #[trigger] list[i],
        ) by {
            if i < before.len() {
                assert(list[i] == before[i]);
            } else {
                assert(list[i] == by_edge[i - before.len()]);
            }
        }
    }
}

/// The ways on from a way of a search are on the map, and their costs are counted exactly.
pub proof fn lemma_onward(
    nodes: Seq<LocPixNode>,
    start: u16,
    goal: u16,
    s: SearchState,
    w: usize,
    e: int,
    r: int,
)
    requires
        config::valid_map(nodes),
        sound(nodes, start, goal, s),
        w < s.ways.len(),
        goes_on(nodes, s.ways[w as int], e, r),
    ensures
        ({
            let way = s.ways[w as int];
            let new = onward(nodes, way, w, e, r);
            &&& nodes[way.loc as int].edges@[e].to_loc < nodes.len()
            &&& new.dir != 0
            &&& e as usize == e
            &&& new.g == way.g + routes::step_cost(
                nodes[way.loc as int],
                nodes[new.loc as int],
            )
            &&& 0 <= new.g <= (w + 1) * max_step()
            &&& new.g <= MAX_WAYS * max_step()
        }),
{
    let way = s.ways[w as int];
    assert(way_ok(nodes, start, goal, s.ways, w as int));
    let edges = nodes[way.loc as int].edges;
    let edge = edges@[e];
    let succ = nodes[edge.to_loc as int];
    assert(edges.len() == edges@.len());
    routes::lemma_step_cost(nodes[way.loc as int], succ, succ);
    assert(edge.to_loc < nodes.len());
    assert(succ.edges@[r].dir != 0);
    assert((w + 1) * max_step() == w * max_step() + max_step()) by (nonlinear_arith);
    assert((w + 1) * max_step() <= MAX_WAYS * max_step()) by (nonlinear_arith)
        requires
            w + 1 <= MAX_WAYS,
            max_step() == 2 * 0xFFFF_FFFF,
    ;
    assert(MAX_WAYS * max_step() < 0x7FFF_FFFF_0000_0000) by (nonlinear_arith)
        requires
            max_step() == 2 * 0xFFFF_FFFF,
            MAX_WAYS == 0x1000_0000,
    ;
}

proof fn lemma_found(
    nodes: Seq<LocPixNode>,
    start: u16,
    goal: u16,
    s: SearchState,
    w: usize,
    new: Way,
)
    requires
        config::valid_map(nodes),
        sound(nodes, start, goal, s),
        s.ways.len() < MAX_WAYS,
        w < s.ways.len(),
        is_onward(nodes, s.ways[w as int], w, new),
    ensures
        ({
            let t = found(nodes, goal, s, new);
            &&& sound(nodes, start, goal, t)
            &&& extends(t.ways, s.ways)
            &&& t.ways.len() == s.ways.len() + 1
            &&& is_known(t.ways, new)
            &&& is_open(t.open, s.ways.len() as int)
            &&& forall|i: int| #[trigger] is_open(s.open, i) ==> is_open(t.open, i)
        }),
{
    let t = found(nodes, goal, s, new);
    let way = s.ways[w as int];
    let n = s.ways.len() as int;
    let (e, r) = choose|e: int, r: int| #[trigger]
        goes_on(nodes, way, e, r) && new == onward(nodes, way, w, e, r);
    lemma_onward(nodes, start, goal, s, w, e, r);
    let node = OpenLocNode {
        idx: new.loc,
        way: s.ways.len() as usize,
        f: (new.g + routes::step_cost(nodes[new.loc as int], nodes[goal as int])) as i64,
    };
    routes::lemma_step_cost(nodes[new.loc as int], nodes[goal as int], nodes[goal as int]);
    assert(MAX_WAYS * max_step() < 0x7FFF_FFFF_0000_0000 - 2 * 0xFFFF_FFFF) by (nonlinear_arith)
        requires
            max_step() == 2 * 0xFFFF_FFFF,
            MAX_WAYS == 0x1000_0000,
    ;
    assert(t.ways[n] == new);
    assert(open_ok(nodes, goal, t.ways, node));
    assert forall|i: int| 0 <= i < t.ways.len() implies #[trigger] way_ok(
        nodes,
        start,
        goal,
        t.ways,
        i,
    ) by {
        if i < n {
            assert(t.ways[i] == s.ways[i]);
            assert(way_ok(nodes, start, goal, s.ways, i));
            if let Some((p, f)) = s.ways[i].from {
                assert(t.ways[p as int] == s.ways[p as int]);
                let q = choose|q: int|
                    #![trigger goes_on(nodes, s.ways[p as int], f as int, q)]
                    goes_on(nodes, s.ways[p as int], f as int, q) && s.ways[i] == onward(
                        nodes,
                        s.ways[p as int],
                        p,
                        f as int,
                        q,
                    );
                assert(goes_on(nodes, t.ways[p as int], f as int, q));
            }
        } else {
            assert(t.ways[w as int] == way);
            assert((w + 1) * max_step() <= n * max_step()) by (nonlinear_arith)
                requires
                    w + 1 <= n,
                    max_step() == 2 * 0xFFFF_FFFF,
            ;
            assert(goes_on(nodes, t.ways[w as int], e as usize as int, r));
        }
    }
    let p = |o: OpenLocNode| open_ok(nodes, goal, t.ways, o);
    assert forall|i: int| 0 <= i < s.open.len() implies p(#[trigger] s.open[i]) by {
        assert(open_ok(nodes, goal, s.ways, s.open[i]));
        assert(t.ways[s.open[i].way as int] == s.ways[s.open[i].way as int]);
    }
    open_heap::lemma_push_keeps_all(s.open, node, p);
    open_heap::lemma_push_keeps_heap(s.open, node);
    open_heap::lemma_push_keeps_nodes(s.open, node);
    assert forall|i: int| 0 <= i < t.open.len() implies open_ok(
        nodes,
        goal,
        t.ways,
        #[trigger] t.open[i],
    ) by {
        assert(p(t.open[i]));
    }
    let k = t.open.index_of(node);
    assert(t.open[k].way == n);
    assert forall|i: int| #[trigger] is_open(s.open, i) implies is_open(t.open, i) by {
        let j = choose|j: int| 0 <= j < s.open.len() && (#[trigger] s.open[j]).way == i;
        assert(s.open.contains(s.open[j]));
        let l = t.open.index_of(s.open[j]);
        assert(t.open[l].way == i);
    }
    assert(replaces(t.ways[n], new));
}

/// What holds after ways on from way number `w` were added.
spec fn news_added(
    nodes: Seq<LocPixNode>,
    start: u16,
    goal: u16,
    s: SearchState,
    t: SearchState,
    news: Seq<Way>,
    k: int,
) -> bool {
    &&& sound(nodes, start, goal, t)
    &&& extends(t.ways, s.ways)
    &&& forall|i: int| 0 <= i < k ==> is_known(t.ways, #[trigger] news[i])
    &&& forall|i: int| #[trigger] is_open(s.open, i) ==> is_open(t.open, i)
    &&& forall|i: int| s.ways.len() <= i < t.ways.len() ==> #[trigger] is_open(t.open, i)
}

proof fn lemma_after_news(
    nodes: Seq<LocPixNode>,
    start: u16,
    goal: u16,
    cap: nat,
    s: SearchState,
    w: usize,
    news: Seq<Way>,
    k: nat,
)
    requires
        config::valid_map(nodes),
        sound(nodes, start, goal, s),
        w < s.ways.len(),
        k <= news.len(),
        forall|i: int|
            0 <= i < news.len() ==> is_onward(nodes, s.ways[w as int], w, #[trigger] news[i]),
    ensures
        after_news(nodes, goal, cap, s, news, k) matches Some(t) ==> news_added(
            nodes,
            start,
            goal,
            s,
            t,
            news,
            k as int,
        ),
    decreases k,
{
    if k > 0 {
        lemma_after_news(nodes, start, goal, cap, s, w, news, (k - 1) as nat);
        if let Some(t) = after_news(nodes, goal, cap, s, news, (k - 1) as nat) {
            let new = news[k - 1];
            if !is_known(t.ways, new) && t.open.len() < cap && t.ways.len() < MAX_WAYS {
                assert(t.ways[w as int] == s.ways[w as int]);
                lemma_found(nodes, start, goal, t, w, new);
                let u = found(nodes, goal, t, new);
                assert forall|i: int| 0 <= i < k implies is_known(u.ways, #[trigger] news[i]) by {
                    if i < k - 1 {
                        lemma_known_stays(t.ways, u.ways, news[i]);
                    }
                }
                assert forall|i: int| s.ways.len() <= i < u.ways.len() implies #[trigger] is_open(
                    u.open,
                    i,
                ) by {
                    if i < t.ways.len() {
                        assert(is_open(t.open, i));
                    }
                }
                assert(extends(u.ways, s.ways)) by {
                    assert forall|i: int| 0 <= i < s.ways.len() implies #[trigger] u.ways[i]
                        == s.ways[i] by {
                        assert(t.ways[i] == s.ways[i]);
                    }
                }
                assert forall|i: int| #[trigger] is_open(s.open, i) implies is_open(u.open, i) by {
                    assert(is_open(t.open, i));
                }
            }
        }
    }
}

/// A search is sound while ways are added, and once a way was taken from the open list.
pub proof fn lemma_news_sound(
    nodes: Seq<LocPixNode>,
    start: u16,
    goal: u16,
    cap: nat,
    s: SearchState,
    w: usize,
    k: nat,
)
    requires
        config::valid_map(nodes),
        sound(nodes, start, goal, s),
        w < s.ways.len(),
    ensures
        ({
            let way = s.ways[w as int];
            let news = onward_ways(nodes, way, w, nodes[way.loc as int].edges@.len());
            k <= news.len() ==> (after_news(nodes, goal, cap, s, news, k) matches Some(t) ==> sound(
                nodes,
                start,
                goal,
                t,
            ) && t.ways.len() >= s.ways.len())
        }),
{
    let way = s.ways[w as int];
    let news = onward_ways(nodes, way, w, nodes[way.loc as int].edges@.len());
    lemma_only_listed(nodes, way, w, nodes[way.loc as int].edges@.len());
    if k <= news.len() {
        lemma_after_news(nodes, start, goal, cap, s, w, news, k);
    }
}

/// Taking the cheapest way from the open list keeps the search sound.
pub proof fn lemma_taken(nodes: Seq<LocPixNode>, start: u16, goal: u16, s: SearchState)
    requires
        sound(nodes, start, goal, s),
        s.open.len() > 0,
    ensures
        open_ok(nodes, goal, s.ways, s.open[0]),
        sound(nodes, start, goal, (SearchState { open: open_heap::popped(s.open), ..s })),
        open_heap::popped(s.open).len() == s.open.len() - 1,
{
    let p = |o: OpenLocNode| open_ok(nodes, goal, s.ways, o);
    assert forall|i: int| 0 <= i < s.open.len() implies p(#[trigger] s.open[i]) by {
        assert(open_ok(nodes, goal, s.ways, s.open[i]));
    }
    open_heap::lemma_pop_keeps_all(s.open, p);
    open_heap::lemma_pop_keeps_heap(s.open);
    let t = SearchState { open: open_heap::popped(s.open), ..s };
    assert forall|i: int| 0 <= i < t.open.len() implies open_ok(
        nodes,
        goal,
        t.ways,
        #[trigger] t.open[i],
    ) by {
        assert(p(t.open[i]));
    }
}

/// A search starts out sound.
pub proof fn lemma_initial_sound(nodes: Seq<LocPixNode>, start: u16, goal: u16)
    requires
        start < nodes.len(),
        goal < nodes.len(),
    ensures
        sound(nodes, start, goal, initial_state(nodes, start, goal)),
{
    lemma_initial(nodes, start, goal);
}

proof fn lemma_initial(nodes: Seq<LocPixNode>, start: u16, goal: u16)
    requires
        start < nodes.len(),
        goal < nodes.len(),
    ensures
        ({
            let s = initial_state(nodes, start, goal);
            &&& sound(nodes, start, goal, s)
            &&& all_done(nodes, goal, s)
            &&& s.open.len() == 1
            &&& s.open[0].idx == start
            &&& s.open[0].way == 0
        }),
{
    let s = initial_state(nodes, start, goal);
    routes::lemma_step_cost(nodes[start as int], nodes[goal as int], nodes[goal as int]);
    let node = OpenLocNode {
        idx: start,
        way: 0,
        f: routes::step_cost(nodes[start as int], nodes[goal as int]) as i64,
    };
    assert(s.open =~= seq![node]);
    assert(s.ways =~= seq![start_way(nodes, start, goal)]);
    assert(s.open[0].way == 0);
    assert(is_open(s.open, 0));
}

proof fn lemma_advance(nodes: Seq<LocPixNode>, start: u16, goal: u16, cap: nat, s: SearchState)
    requires
        config::valid_map(nodes),
        sound(nodes, start, goal, s),
        all_done(nodes, goal, s),
    ensures
        advance(nodes, goal, cap, s) matches StepOutcome::Continue(t) ==> sound(
            nodes,
            start,
            goal,
            t,
        ) && all_done(nodes, goal, t),
{
    if s.open.len() > 0 && s.open[0].idx != goal {
        let cur = s.open[0];
        let w = cur.way;
        let way = s.ways[w as int];
        let num_edges = nodes[way.loc as int].edges@.len();
        let news = onward_ways(nodes, way, w, num_edges);
        let taken = SearchState { open: open_heap::popped(s.open), ..s };
        lemma_taken(nodes, start, goal, s);
        open_heap::lemma_pop_keeps_nodes(s.open);
        lemma_only_listed(nodes, way, w, num_edges);
        lemma_after_news(nodes, start, goal, cap, taken, w, news, news.len());
        if let Some(t) = after_news(nodes, goal, cap, taken, news, news.len()) {
            assert(news_added(nodes, start, goal, taken, t, news, news.len() as int));
            assert forall|i: int| 0 <= i < t.ways.len() implies #[trigger] open_or_done(
                nodes,
                goal,
                t,
                i,
            ) by {
                if i < s.ways.len() {
                    assert(t.ways[i] == s.ways[i]);
                    assert(open_or_done(nodes, goal, s, i));
                    if i == w {
                        assert forall|e: int, r: int| #[trigger]
                            goes_on(nodes, t.ways[i], e, r) implies is_known(
                            t.ways,
                            onward(nodes, t.ways[i], i as usize, e, r),
                        ) by {
                            lemma_listed(nodes, way, w, e, r, num_edges);
                            let new = onward(nodes, way, w, e, r);
                            let j = news.index_of(new);
                            assert(is_known(t.ways, news[j]));
                        }
                    } else if is_open(s.open, i) {
                        let k = choose|k: int|
                            0 <= k < s.open.len() && (#[trigger] s.open[k]).way == i;
                        assert(s.open.contains(s.open[k]));
                        let l = taken.open.index_of(s.open[k]);
                        assert(taken.open[l].way == i);
                        assert(is_open(taken.open, i));
                    } else {
                        lemma_done_stays(nodes, s.ways, t.ways, i);
                    }
                } else {
                    assert(is_open(t.open, i));
                }
            }
        }
    }
}

proof fn lemma_steps(nodes: Seq<LocPixNode>, start: u16, goal: u16, cap: nat, k: nat)
    requires
        config::valid_map(nodes),
        start < nodes.len(),
        goal < nodes.len(),
    ensures
        after_steps(nodes, goal, cap, initial_state(nodes, start, goal), k) matches Some(s)
            ==> sound(nodes, start, goal, s) && all_done(nodes, goal, s),
    decreases k,
{
    if k == 0 {
        lemma_initial(nodes, start, goal);
    } else {
        lemma_steps(nodes, start, goal, cap, (k - 1) as nat);
        let init = initial_state(nodes, start, goal);
        if let Some(s) = after_steps(nodes, goal, cap, init, (k - 1) as nat) {
            lemma_advance(nodes, start, goal, cap, s);
        }
    }
}

/// Once there was no room for a way, no more are added.
pub proof fn lemma_full_stays_full(
    nodes: Seq<LocPixNode>,
    goal: u16,
    cap: nat,
    s: SearchState,
    news: Seq<Way>,
    j: nat,
    k: nat,
)
    requires
        after_news(nodes, goal, cap, s, news, j) is None,
        j <= k,
    ensures
        after_news(nodes, goal, cap, s, news, k) is None,
    decreases k,
{
    if j < k {
        lemma_full_stays_full(nodes, goal, cap, s, news, j, (k - 1) as nat);
    }
}

// ---------------------------------------------------------------------------------------------
// What is found
// ---------------------------------------------------------------------------------------------

/// Whether an edge leads on from location number `i` of a path.
spec fn leads_on(nodes: Seq<LocPixNode>, path: Seq<LocPixEdgeDirected>, i: int) -> bool {
    exists|e: int| routes::edge_leads_on(nodes, path, i, e)
}

/// What is known of the locations on way number `w`.
spec fn is_traced(
    nodes: Seq<LocPixNode>,
    start: u16,
    ways: Seq<Way>,
    w: nat,
    path: Seq<LocPixEdgeDirected>,
) -> bool {
    let locs = routes::path_locs(path);
    let way = ways[w as int];
    &&& path.len() > 0
    &&& path.last().from_loc == way.loc
    &&& routes::is_course(nodes, start, locs)
    &&& routes::route_cost(nodes, locs) == way.g
    &&& forall|i: int|
        0 <= i < locs.len() ==> nodes[(#[trigger] locs[i]) as int].modes & way.modes == way.modes
    &&& forall|i: int| 0 <= i < path.len() - 1 ==> #[trigger] leads_on(nodes, path, i)
    &&& match way.from {
        None => path.len() == 1,
        Some((p, e)) => {
            &&& path.len() >= 2
            &&& path[path.len() - 2].from_loc == ways[p as int].loc
            &&& routes::edge_leads_on(nodes, path, path.len() - 2, e as int)
        },
    }
}

proof fn lemma_leads_on_longer(
    nodes: Seq<LocPixNode>,
    path: Seq<LocPixEdgeDirected>,
    here: LocPixEdgeDirected,
    i: int,
)
    requires
        0 <= i < path.len() - 1,
        leads_on(nodes, path, i),
    ensures
        leads_on(nodes, path.push(here), i),
{
    let longer = path.push(here);
    let e = choose|e: int| routes::edge_leads_on(nodes, path, i, e);
    assert(path[i] == longer[i] && path[i + 1] == longer[i + 1]);
    assert(i > 0 ==> path[i - 1] == longer[i - 1]);
    assert(routes::edge_leads_on(nodes, longer, i, e));
}

proof fn lemma_leads_by_turn(nodes: Seq<LocPixNode>, path: Seq<LocPixEdgeDirected>, i: int)
    requires
        0 < i < path.len() - 1,
        leads_on(nodes, path, i),
    ensures
        routes::turn_allowed(nodes, routes::path_locs(path), i),
{
    let locs = routes::path_locs(path);
    let e = choose|e: int| routes::edge_leads_on(nodes, path, i, e);
    let (a, b, c) = (path[i - 1].from_loc, path[i].from_loc, path[i + 1].from_loc);
    assert(locs[i - 1] == a && locs[i] == b && locs[i + 1] == c);
    let r = choose|r: int|
        routes::edge_leads(nodes, b, r, a) && #[trigger] routes::turn_at(nodes, b, r, e);
    assert(routes::turn_at(nodes, b, r, e));
    assert(routes::may_turn(nodes, a, b, c));
}

/// The locations on a way follow each other as a train can go, and cost what the way costs.
proof fn lemma_traced(
    nodes: Seq<LocPixNode>,
    start: u16,
    goal: u16,
    s: SearchState,
    w: nat,
    pix: u16,
)
    requires
        config::valid_map(nodes),
        sound(nodes, start, goal, s),
        w < s.ways.len(),
    ensures
        is_traced(nodes, start, s.ways, w, traced(nodes, s.ways, w, pix)),
        traced(nodes, s.ways, w, pix).last().from_pix == pix,
    decreases w,
{
    let way = s.ways[w as int];
    let path = traced(nodes, s.ways, w, pix);
    let locs = routes::path_locs(path);
    let here = LocPixEdgeDirected { from_loc: way.loc, from_pix: pix };
    assert(way_ok(nodes, start, goal, s.ways, w as int));
    match way.from {
        None => {
            assert(path =~= seq![here]);
            let (a, b) = (nodes[start as int].modes, nodes[goal as int].modes);
            assert(a & (a & b) == (a & b)) by (bit_vector);
        },
        Some((p, e)) => {
            let prev = s.ways[p as int];
            let edge = nodes[prev.loc as int].edges@[e as int];
            let before = traced(nodes, s.ways, p as nat, edge.from_pix);
            let locs_before = routes::path_locs(before);
            lemma_traced(nodes, start, goal, s, p as nat, edge.from_pix);
            assert(path == before.push(here));
            assert(locs =~= locs_before.push(way.loc));
            assert(locs.drop_last() =~= locs_before);
            let n = before.len();
            assert(locs[n - 1] == prev.loc && locs[n as int] == way.loc);
            let r = choose|r: int|
                #![trigger goes_on(nodes, prev, e as int, r)]
                goes_on(nodes, prev, e as int, r) && way == onward(nodes, prev, p, e as int, r);
            assert(routes::edge_leads(nodes, prev.loc, e as int, way.loc));
            assert(routes::edge_leads(nodes, way.loc, r, prev.loc));
            assert(routes::are_joined(nodes, prev.loc, way.loc));
            assert(way_ok(nodes, start, goal, s.ways, p as int));
            assert(routes::edge_leads_on(nodes, path, n - 1, e as int)) by {
                if n - 1 > 0 {
                    let (pp, f) = prev.from->0;
                    let first = s.ways[pp as int];
                    let q = choose|q: int|
                        #![trigger goes_on(nodes, first, f as int, q)]
                        goes_on(nodes, first, f as int, q) && prev == onward(
                            nodes,
                            first,
                            pp,
                            f as int,
                            q,
                        );
                    assert(before[n - 2].from_loc == first.loc);
                    assert(path[n - 2] == before[n - 2]);
                    assert(routes::edge_leads(nodes, prev.loc, q, first.loc));
                    assert(routes::turn_at(nodes, prev.loc, q, e as int));
                }
            }
            assert forall|i: int| 0 <= i < path.len() - 1 implies #[trigger] leads_on(nodes, path, i) by {
                if i < n - 1 {
                    assert(leads_on(nodes, before, i));
                    lemma_leads_on_longer(nodes, before, here, i);
                }
            }
            assert forall|i: int| 0 <= i < locs.len() implies (#[trigger] locs[i]) < nodes.len() by {
                if i < n {
                    assert(locs_before[i] == locs[i]);
                }
            }
            assert forall|i: int| 0 <= i < locs.len() - 1 implies #[trigger] routes::next_joined(
                nodes,
                locs,
                i,
            ) by {
                if i < n - 1 {
                    assert(routes::next_joined(nodes, locs_before, i));
                    assert(locs_before[i] == locs[i] && locs_before[i + 1] == locs[i + 1]);
                }
            }
            assert forall|i: int| 0 < i < locs.len() - 1 implies #[trigger] routes::turn_allowed(
                nodes,
                locs,
                i,
            ) by {
                assert(leads_on(nodes, path, i));
                lemma_leads_by_turn(nodes, path, i);
            }
            let (a, b) = (prev.modes, nodes[way.loc as int].modes);
            assert forall|i: int| 0 <= i < locs.len() implies nodes[(
            #[trigger] locs[i]) as int].modes & way.modes == way.modes by {
                let c = nodes[locs[i] as int].modes;
                if i < n {
                    assert(locs_before[i] == locs[i]);
                    assert(c & a == a ==> c & (a & b) == a & b) by (bit_vector);
                } else {
                    assert(b & (a & b) == a & b) by (bit_vector);
                }
            }
        },
    }
}

/// No route that a train can take is cheaper than the cheapest open way promises to be. `w` is a
/// way to location number `j` of the route.
proof fn lemma_open_way(
    nodes: Seq<LocPixNode>,
    start: u16,
    goal: u16,
    s: SearchState,
    q: Seq<u16>,
    mode: u8,
    j: int,
    w: int,
)
    requires
        config::valid_map(nodes),
        sound(nodes, start, goal, s),
        all_done(nodes, goal, s),
        routes::is_course(nodes, start, q),
        q.last() == goal,
        routes::share_mode(nodes, q, mode),
        0 <= j < q.len(),
        0 <= w < s.ways.len(),
        s.ways[w].loc == q[j],
        s.ways[w].g <= routes::route_cost(nodes, q.take(j + 1)),
        s.ways[w].modes & mode == mode,
        s.ways[w].dir == 0 || (j < q.len() - 1 ==> exists|e: int| #[trigger]
            routes::edge_leads(nodes, q[j], e, q[j + 1]) && routes::may_leave(
                s.ways[w].dir,
                nodes[q[j] as int].edges@[e].dir,
            )),
    ensures
        exists|k: int|
            0 <= k < s.open.len() && (#[trigger] s.open[k]).f <= routes::route_cost(nodes, q),
    decreases q.len() - j,
{
    let way = s.ways[w];
    if is_open(s.open, w) {
        let k = choose|k: int| 0 <= k < s.open.len() && (#[trigger] s.open[k]).way == w;
        assert(open_ok(nodes, goal, s.ways, s.open[k]));
        routes::lemma_distance_is_least(nodes, q, j);
    } else {
        assert(open_or_done(nodes, goal, s, w));
        assert(j < q.len() - 1);
        let (a, b) = (q[j], q[j + 1]);
        assert(routes::next_joined(nodes, q, j));
        let e = if way.dir == 0 {
            choose|e: int| routes::edge_leads(nodes, a, e, b)
        } else {
            choose|e: int| #[trigger]
                routes::edge_leads(nodes, a, e, b) && routes::may_leave(
                    way.dir,
                    nodes[a as int].edges@[e].dir,
                )
        };
        let (r, f) = if j + 1 < q.len() - 1 {
            let c = q[j + 2];
            assert(routes::turn_allowed(nodes, q, j + 1));
            choose|r: int, f: int|
                routes::edge_leads(nodes, b, r, a) && routes::edge_leads(nodes, b, f, c)
                    && #[trigger] routes::turn_at(nodes, b, r, f)
        } else {
            (choose|r: int| routes::edge_leads(nodes, b, r, a), 0)
        };
        assert(routes::edge_leads(nodes, a, e, b) && routes::edge_leads(nodes, b, r, a));
        let (m, x) = (way.modes, nodes[b as int].modes);
        assert(m & mode == mode && x & mode == mode && mode != 0 ==> m & x != 0 && (m & x) & mode
            == mode) by (bit_vector);
        assert(x & mode == mode) by {
            assert(q[j + 1] == b);
        }
        assert(goes_on(nodes, way, e, r));
        lemma_onward(nodes, start, goal, s, w as usize, e, r);
        let new = onward(nodes, way, w as usize, e, r);
        assert(is_known(s.ways, new));
        let i = choose|i: int| 0 <= i < s.ways.len() && replaces(#[trigger] s.ways[i], new);
        let t = q.take(j + 2);
        assert(t.drop_last() =~= q.take(j + 1));
        assert(t[t.len() - 2] == a && t.last() == b);
        if j + 1 < q.len() - 1 {
            assert(routes::edge_leads(nodes, q[j + 1], f, q[j + 2]));
            assert(routes::may_leave(s.ways[i].dir, nodes[b as int].edges@[f].dir));
        }
        lemma_open_way(nodes, start, goal, s, q, mode, j + 1, i);
    }
}

/// As long as a train can get to the goal, there is an open way that promises to cost no more.
proof fn lemma_some_way_open(
    nodes: Seq<LocPixNode>,
    start: u16,
    goal: u16,
    s: SearchState,
    q: Seq<u16>,
)
    requires
        config::valid_map(nodes),
        sound(nodes, start, goal, s),
        all_done(nodes, goal, s),
        routes::is_allowed_route(nodes, start, goal, q),
    ensures
        exists|k: int|
            0 <= k < s.open.len() && (#[trigger] s.open[k]).f <= routes::route_cost(nodes, q),
{
    let mode = choose|mode: u8| routes::share_mode(nodes, q, mode);
    let (a, b) = (nodes[start as int].modes, nodes[goal as int].modes);
    assert(q[0] == start && q[q.len() - 1] == goal);
    assert(a & mode == mode && b & mode == mode ==> (a & b) & mode == mode) by (bit_vector);
    lemma_open_way(nodes, start, goal, s, q, mode, 0, 0);
}

/// What a search finds is a shortest path that a train can take.
pub proof fn lemma_found_is_shortest(
    nodes: Seq<LocPixNode>,
    start: u16,
    goal: u16,
    cap: nat,
    path_cap: nat,
    path: Seq<LocPixEdgeDirected>,
)
    requires
        config::valid_map(nodes),
        start < nodes.len(),
        goal < nodes.len(),
        search_ends_with(nodes, start, goal, cap, path_cap, Ok(path)),
    ensures
        routes::is_shortest_path(nodes, start, goal, path),
        path.len() <= path_cap,
{
    let init = initial_state(nodes, start, goal);
    let result = Ok::<_, PathFindError>(path);
    let k = choose|k: nat|
        {
            let s = #[trigger] after_steps(nodes, goal, cap, init, k);
            s is Some && stops_with(nodes, goal, cap, path_cap, s->0, result)
        };
    let s = after_steps(nodes, goal, cap, init, k)->0;
    lemma_steps(nodes, start, goal, cap, k);
    lemma_taken(nodes, start, goal, s);
    let w = s.open[0].way;
    let way = s.ways[w as int];
    assert(way_ok(nodes, start, goal, s.ways, w as int));
    let (p, e) = way.from->0;
    let to_pix = nodes[s.ways[p as int].loc as int].edges@[e as int].to_pix;
    lemma_traced(nodes, start, goal, s, w as nat, to_pix);
    let locs = routes::path_locs(path);
    assert(start != goal) by {
        if start == goal {
            lemma_start_is_goal(nodes, start, cap, k);
        }
    }
    assert(locs.last() == goal);
    assert(way.modes != 0);
    assert(routes::share_mode(nodes, locs, way.modes));
    assert(routes::is_path(nodes, path)) by {
        assert forall|i: int| 0 <= i < path.len() - 1 implies #[trigger] routes::step_shown(
            nodes,
            path,
            i,
        ) by {
            if i == path.len() - 2 {
                assert(routes::edge_leads_on(nodes, path, i, e as int));
            } else {
                assert(leads_on(nodes, path, i));
                let f = choose|f: int| routes::edge_leads_on(nodes, path, i, f);
                assert(routes::edge_leads_on(nodes, path, i, f));
            }
        }
    }
    routes::lemma_step_cost(nodes[goal as int], nodes[goal as int], nodes[goal as int]);
    assert forall|q: Seq<u16>| #[trigger] routes::is_allowed_route(nodes, start, goal, q) implies routes::route_cost(
        nodes,
        locs,
    ) <= routes::route_cost(nodes, q) by {
        lemma_some_way_open(nodes, start, goal, s, q);
        let j = choose|j: int|
            0 <= j < s.open.len() && (#[trigger] s.open[j]).f <= routes::route_cost(nodes, q);
        open_heap::lemma_root_is_cheapest(s.open, j);
    }
}

/// A search that starts at its goal ends there at once.
proof fn lemma_start_is_goal(nodes: Seq<LocPixNode>, loc: u16, cap: nat, k: nat)
    requires
        config::valid_map(nodes),
        loc < nodes.len(),
    ensures
        after_steps(nodes, loc, cap, initial_state(nodes, loc, loc), k) matches Some(s) ==> s
            == initial_state(nodes, loc, loc),
        initial_state(nodes, loc, loc).open.len() == 1,
        initial_state(nodes, loc, loc).open[0].idx == loc,
        initial_state(nodes, loc, loc).open[0].way == 0,
        initial_state(nodes, loc, loc).ways[0] == start_way(nodes, loc, loc),
    decreases k,
{
    lemma_initial(nodes, loc, loc);
    if k > 0 {
        lemma_start_is_goal(nodes, loc, cap, (k - 1) as nat);
    }
}

/// A search that finds no path has tried everything: there is no route that a train can take.
pub proof fn lemma_no_path_means_no_route(
    nodes: Seq<LocPixNode>,
    start: u16,
    goal: u16,
    cap: nat,
    path_cap: nat,
)
    requires
        config::valid_map(nodes),
        start < nodes.len(),
        goal < nodes.len(),
        search_ends_with(nodes, start, goal, cap, path_cap, Err(PathFindError::NoPathFound)),
    ensures
        routes::no_route(nodes, start, goal),
{
    let init = initial_state(nodes, start, goal);
    let result = Err::<Seq<LocPixEdgeDirected>, _>(PathFindError::NoPathFound);
    let k = choose|k: nat|
        {
            let s = #[trigger] after_steps(nodes, goal, cap, init, k);
            s is Some && stops_with(nodes, goal, cap, path_cap, s->0, result)
        };
    let s = after_steps(nodes, goal, cap, init, k)->0;
    lemma_steps(nodes, start, goal, cap, k);
    if s.open.len() > 0 {
        lemma_taken(nodes, start, goal, s);
        let w = s.open[0].way;
        assert(way_ok(nodes, start, goal, s.ways, w as int));
        assert(s.ways[w as int].from is None);
        assert(start == goal);
    }
    assert forall|q: Seq<u16>| !(#[trigger] routes::is_allowed_route(nodes, start, goal, q)) by {
        if routes::is_allowed_route(nodes, start, goal, q) {
            lemma_some_way_open(nodes, start, goal, s, q);
        }
    }
}

/// No path leads from a location to itself.
pub proof fn lemma_no_path_to_itself(nodes: Seq<LocPixNode>, loc: u16, cap: nat, path_cap: nat)
    requires
        config::valid_map(nodes),
        loc < nodes.len(),
        cap > 0,
        path_cap > 0,
    ensures
        search_ends_with(nodes, loc, loc, cap, path_cap, Err(PathFindError::NoPathFound)),
{
    let init = initial_state(nodes, loc, loc);
    lemma_start_is_goal(nodes, loc, cap, 0);
    assert(after_steps(nodes, loc, cap, init, 0) == Some(init));
    assert(stops_with(nodes, loc, cap, path_cap, init, Err(PathFindError::NoPathFound)));
}

proof fn lemma_more_room_for_news(
    nodes: Seq<LocPixNode>,
    goal: u16,
    cap: nat,
    more: nat,
    s: SearchState,
    news: Seq<Way>,
    k: nat,
)
    requires
        cap <= more,
    ensures
        after_news(nodes, goal, cap, s, news, k) matches Some(t) ==> after_news(
            nodes,
            goal,
            more,
            s,
            news,
            k,
        ) == Some(t),
    decreases k,
{
    if k > 0 {
        lemma_more_room_for_news(nodes, goal, cap, more, s, news, (k - 1) as nat);
    }
}

proof fn lemma_more_room_for_steps(
    nodes: Seq<LocPixNode>,
    goal: u16,
    cap: nat,
    more: nat,
    s: SearchState,
    k: nat,
)
    requires
        cap <= more,
    ensures
        after_steps(nodes, goal, cap, s, k) matches Some(t) ==> after_steps(nodes, goal, more, s, k)
            == Some(t),
    decreases k,
{
    if k > 0 {
        lemma_more_room_for_steps(nodes, goal, cap, more, s, (k - 1) as nat);
        if let Some(t) = after_steps(nodes, goal, cap, s, (k - 1) as nat) {
            if t.open.len() > 0 {
                let w = t.open[0].way;
                let way = t.ways[w as int];
                let news = onward_ways(nodes, way, w, nodes[way.loc as int].edges@.len());
                let taken = SearchState { open: open_heap::popped(t.open), ..t };
                lemma_more_room_for_news(nodes, goal, cap, more, taken, news, news.len());
            }
        }
    }
}

/// A search that ends with a path, or finds that there is none, ends so with more room, too.
pub proof fn lemma_more_room(
    nodes: Seq<LocPixNode>,
    start: u16,
    goal: u16,
    cap: nat,
    path_cap: nat,
    more: nat,
    more_path: nat,
    result: Result<Seq<LocPixEdgeDirected>, PathFindError>,
)
    requires
        cap <= more,
        path_cap <= more_path,
        search_ends_with(nodes, start, goal, cap, path_cap, result),
        result != Err::<Seq<LocPixEdgeDirected>, _>(PathFindError::OutOfMemory),
    ensures
        search_ends_with(nodes, start, goal, more, more_path, result),
{
    let init = initial_state(nodes, start, goal);
    let k = choose|k: nat|
        {
            let s = #[trigger] after_steps(nodes, goal, cap, init, k);
            s is Some && stops_with(nodes, goal, cap, path_cap, s->0, result)
        };
    let s = after_steps(nodes, goal, cap, init, k)->0;
    lemma_more_room_for_steps(nodes, goal, cap, more, init, k);
    assert(after_steps(nodes, goal, more, init, k) == Some(s));
    assert(stops_with(nodes, goal, more, more_path, s, result));
}

// ---------------------------------------------------------------------------------------------
// How much room a search needs
// ---------------------------------------------------------------------------------------------

/// The most edges that a location has.
pub open spec fn most_edges(nodes: Seq<LocPixNode>) -> nat
    decreases nodes.len(),
{
    if nodes.len() == 0 {
        0
    } else {
        let before = most_edges(nodes.drop_last());
        let here = nodes.last().edges@.len();
        if before < here {
            here
        } else {
            before
        }
    }
}

/// In how many manners a location can be reached: each location by the direction of one of its edges,
/// or none, and with any set of modes.
pub open spec fn most_manners(nodes: Seq<LocPixNode>) -> nat {
    nodes.len() * (most_edges(nodes) + 1) * 256
}

/// The most ways that a search finds: those on from a location are found once for each manner in
/// which it is reached, and each of them by an edge there and an edge back.
pub open spec fn most_ways(nodes: Seq<LocPixNode>) -> nat {
    1 + most_edges(nodes) * most_edges(nodes) * most_manners(nodes)
}

proof fn lemma_most_edges(nodes: Seq<LocPixNode>, i: int)
    requires
        0 <= i < nodes.len(),
    ensures
        nodes[i].edges@.len() <= most_edges(nodes),
    decreases nodes.len(),
{
    if i < nodes.len() - 1 {
        lemma_most_edges(nodes.drop_last(), i);
        assert(nodes.drop_last()[i] == nodes[i]);
    }
}

/// A search finds no more ways than a map with `m` edges at most at a location has.
pub proof fn lemma_most_ways(nodes: Seq<LocPixNode>, m: nat)
    requires
        forall|i: int| 0 <= i < nodes.len() ==> (#[trigger] nodes[i]).edges@.len() <= m,
    ensures
        most_edges(nodes) <= m,
        most_ways(nodes) <= 1 + m * m * (nodes.len() * (m + 1) * 256),
    decreases nodes.len(),
{
    if nodes.len() > 0 {
        let before = nodes.drop_last();
        assert forall|i: int| 0 <= i < before.len() implies (#[trigger] before[i]).edges@.len()
            <= m by {
            assert(before[i] == nodes[i]);
        }
        lemma_most_ways(before, m);
        assert(nodes.last() == nodes[nodes.len() - 1]);
    }
    let (x, n) = (most_edges(nodes), nodes.len());
    assert(x * x <= m * m && n * (x + 1) <= n * (m + 1)) by (nonlinear_arith)
        requires
            x <= m,
    ;
    let (a, b, c, d) = (x * x, m * m, n * (x + 1) * 256, n * (m + 1) * 256);
    assert(a * c <= b * d) by (nonlinear_arith)
        requires
            a <= b,
            c <= d,
    ;
}

spec fn edge_has_dir(nodes: Seq<LocPixNode>, loc: u16, e: int, dir: u16) -> bool {
    0 <= e < nodes[loc as int].edges@.len() && nodes[loc as int].edges@[e].dir == dir
}

/// Whether a way ends as one can: at a location, by the direction of one of its edges or none.
spec fn ends_well(nodes: Seq<LocPixNode>, way: Way) -> bool {
    way.loc < nodes.len() && (way.dir == 0 || exists|e: int| edge_has_dir(nodes, way.loc, e, way.dir))
}

/// A number for the direction by which a way ends.
spec fn slot_of(nodes: Seq<LocPixNode>, way: Way) -> int {
    if way.dir == 0 {
        0
    } else {
        1 + choose|e: int| edge_has_dir(nodes, way.loc, e, way.dir)
    }
}

/// A number for the manner in which a way ends.
spec fn manner_of(nodes: Seq<LocPixNode>, way: Way) -> int {
    (way.loc * (most_edges(nodes) + 1) + slot_of(nodes, way)) * 256 + way.modes
}

proof fn lemma_slot(nodes: Seq<LocPixNode>, way: Way)
    requires
        ends_well(nodes, way),
    ensures
        0 <= slot_of(nodes, way) < most_edges(nodes) + 1,
        0 <= manner_of(nodes, way) < most_manners(nodes),
        slot_of(nodes, way) == 0 ==> way.dir == 0,
        slot_of(nodes, way) > 0 ==> way.dir == nodes[way.loc as int].edges@[slot_of(nodes, way)
            - 1].dir,
{
    lemma_most_edges(nodes, way.loc as int);
    if way.dir != 0 {
        let e = choose|e: int| edge_has_dir(nodes, way.loc, e, way.dir);
        assert(edge_has_dir(nodes, way.loc, e, way.dir));
    }
    let (l, n, m, x) = (
        way.loc as int,
        nodes.len() as int,
        most_edges(nodes) + 1,
        slot_of(nodes, way),
    );
    assert(0 <= l * m + x < n * m) by (nonlinear_arith)
        requires
            0 <= l < n,
            0 <= x < m,
    ;
    assert((l * m + x) * 256 + way.modes < n * m * 256) by (nonlinear_arith)
        requires
            l * m + x < n * m,
            way.modes < 256,
    ;
}

/// Ways of the same number end in the same manner.
proof fn lemma_same_manner(nodes: Seq<LocPixNode>, a: Way, b: Way)
    requires
        ends_well(nodes, a),
        ends_well(nodes, b),
        manner_of(nodes, a) == manner_of(nodes, b),
    ensures
        a.loc == b.loc,
        a.dir == b.dir,
        a.modes == b.modes,
{
    lemma_slot(nodes, a);
    lemma_slot(nodes, b);
    let m = most_edges(nodes) + 1;
    let (i, j, x, y) = (a.loc as int, b.loc as int, slot_of(nodes, a), slot_of(nodes, b));
    assert(i * m + x == j * m + y);
    assert(i == j) by (nonlinear_arith)
        requires
            i * m + x == j * m + y,
            0 <= x < m,
            0 <= y < m,
    ;
}

/// What a path by way of `way` promises to cost.
spec fn promise_of(nodes: Seq<LocPixNode>, goal: u16, way: Way) -> int {
    way.g + routes::step_cost(nodes[way.loc as int], nodes[goal as int])
}

/// Whether no open way promises to cost less than `f`.
spec fn none_below(open: Seq<OpenLocNode>, f: int) -> bool {
    forall|k: int| 0 <= k < open.len() ==> f <= (#[trigger] open[k]).f
}

/// Whether the search has gone on from way number `i`, which ends in the manner number `c`, and no
/// open way promises to cost less.
spec fn is_counted(nodes: Seq<LocPixNode>, goal: u16, s: SearchState, i: int, c: int) -> bool {
    &&& 0 <= i < s.ways.len()
    &&& manner_of(nodes, s.ways[i]) == c
    &&& is_done(nodes, s.ways, i)
    &&& none_below(s.open, promise_of(nodes, goal, s.ways[i]))
}

/// Whether no more ways were found than go on from locations reached in the manners `done`.
spec fn all_counted(nodes: Seq<LocPixNode>, goal: u16, s: SearchState, done: Set<int>) -> bool {
    &&& done.finite()
    &&& forall|c: int| #[trigger] done.contains(c) ==> exists|i: int| is_counted(nodes, goal, s, i, c)
    &&& s.open.len() <= s.ways.len()
    &&& s.ways.len() <= 1 + most_edges(nodes) * most_edges(nodes) * done.len()
}

/// Whether no more ways were found than go on from locations reached in some manners.
spec fn is_bounded(nodes: Seq<LocPixNode>, goal: u16, s: SearchState) -> bool {
    exists|done: Set<int>| all_counted(nodes, goal, s, done)
}

proof fn lemma_ends_well(nodes: Seq<LocPixNode>, start: u16, goal: u16, s: SearchState, i: int)
    requires
        config::valid_map(nodes),
        sound(nodes, start, goal, s),
        0 <= i < s.ways.len(),
    ensures
        ends_well(nodes, s.ways[i]),
{
    assert(way_ok(nodes, start, goal, s.ways, i));
    if let Some((p, e)) = s.ways[i].from {
        let r = choose|r: int|
            #![trigger goes_on(nodes, s.ways[p as int], e as int, r)]
            goes_on(nodes, s.ways[p as int], e as int, r) && s.ways[i] == onward(
                nodes,
                s.ways[p as int],
                p,
                e as int,
                r,
            );
        assert(edge_has_dir(nodes, s.ways[i].loc, r, s.ways[i].dir));
    }
}

/// There are not more manners than there are.
proof fn lemma_manners_bound(
    nodes: Seq<LocPixNode>,
    start: u16,
    goal: u16,
    s: SearchState,
    done: Set<int>,
)
    requires
        config::valid_map(nodes),
        sound(nodes, start, goal, s),
        all_counted(nodes, goal, s, done),
    ensures
        forall|c: int| #[trigger] done.contains(c) ==> 0 <= c < most_manners(nodes),
{
    assert forall|c: int| #[trigger] done.contains(c) implies 0 <= c < most_manners(nodes) by {
        let i = choose|i: int| is_counted(nodes, goal, s, i, c);
        lemma_ends_well(nodes, start, goal, s, i);
        lemma_slot(nodes, s.ways[i]);
    }
}

proof fn lemma_bounded_len(done: Set<int>, n: int)
    requires
        done.finite(),
        0 <= n,
        forall|c: int| #[trigger] done.contains(c) ==> 0 <= c < n,
    ensures
        done.len() <= n,
{
    let all = vstd::set_lib::set_int_range(0, n);
    vstd::set_lib::lemma_int_range(0, n);
    assert(done.subset_of(all));
    vstd::set_lib::lemma_len_subset(done, all);
}

proof fn lemma_num_by_edge(nodes: Seq<LocPixNode>, way: Way, w: usize, e: int, k: nat)
    ensures
        onward_by_edge(nodes, way, w, e, k).len() <= k,
    decreases k,
{
    if k > 0 {
        lemma_num_by_edge(nodes, way, w, e, (k - 1) as nat);
    }
}

proof fn lemma_num_onward(nodes: Seq<LocPixNode>, way: Way, w: usize, k: nat)
    requires
        config::valid_map(nodes),
        way.loc < nodes.len(),
        k <= nodes[way.loc as int].edges@.len(),
    ensures
        onward_ways(nodes, way, w, k).len() <= k * most_edges(nodes),
    decreases k,
{
    let m = most_edges(nodes);
    if k > 0 {
        lemma_num_onward(nodes, way, w, (k - 1) as nat);
        lemma_num_by_edge(nodes, way, w, k - 1, backs_of(nodes, way.loc as int, k - 1));
        assert(nodes[way.loc as int].edges@[k - 1].to_loc < nodes.len());
        lemma_most_edges(nodes, nodes[way.loc as int].edges@[k - 1].to_loc as int);
        assert(k * m == (k - 1) * m + m) by (nonlinear_arith);
    }
}

/// Where all ways on are known, none is added.
proof fn lemma_nothing_new(
    nodes: Seq<LocPixNode>,
    goal: u16,
    cap: nat,
    s: SearchState,
    news: Seq<Way>,
    k: nat,
)
    requires
        k <= news.len(),
        forall|i: int| 0 <= i < news.len() ==> is_known(s.ways, #[trigger] news[i]),
    ensures
        after_news(nodes, goal, cap, s, news, k) == Some(s),
    decreases k,
{
    if k > 0 {
        lemma_nothing_new(nodes, goal, cap, s, news, (k - 1) as nat);
        assert(is_known(s.ways, news[k - 1]));
    }
}

/// How far the lists grow while ways on are added that promise to cost `f` at least.
proof fn lemma_news_grow(
    nodes: Seq<LocPixNode>,
    goal: u16,
    cap: nat,
    s: SearchState,
    news: Seq<Way>,
    k: nat,
    f: int,
)
    requires
        k <= news.len(),
        none_below(s.open, f),
        forall|i: int|
            0 <= i < news.len() ==> f <= promise_of(nodes, goal, #[trigger] news[i]) <= i64::MAX,
        0 <= f,
    ensures
        match after_news(nodes, goal, cap, s, news, k) {
            Some(t) => {
                &&& none_below(t.open, f)
                &&& s.ways.len() <= t.ways.len() <= s.ways.len() + k
                &&& t.open.len() - s.open.len() == t.ways.len() - s.ways.len()
            },
            None => cap < s.open.len() + k || MAX_WAYS < s.ways.len() + k,
        },
    decreases k,
{
    if k > 0 {
        lemma_news_grow(nodes, goal, cap, s, news, (k - 1) as nat, f);
        if let Some(t) = after_news(nodes, goal, cap, s, news, (k - 1) as nat) {
            let new = news[k - 1];
            if !is_known(t.ways, new) && t.open.len() < cap && t.ways.len() < MAX_WAYS {
                let u = found(nodes, goal, t, new);
                let node = OpenLocNode {
                    idx: new.loc,
                    way: t.ways.len() as usize,
                    f: promise_of(nodes, goal, new) as i64,
                };
                let p = |o: OpenLocNode| f <= o.f;
                assert forall|i: int| 0 <= i < t.open.len() implies p(#[trigger] t.open[i]) by {}
                assert(p(node));
                open_heap::lemma_push_keeps_all(t.open, node, p);
                open_heap::lemma_push_keeps_heap(t.open, node);
                assert forall|i: int| 0 <= i < u.open.len() implies f <= (#[trigger] u.open[i]).f by {
                    assert(p(u.open[i]));
                }
            }
        }
    }
}

/// What one step does to the count of ways.
proof fn lemma_advance_counted(
    nodes: Seq<LocPixNode>,
    start: u16,
    goal: u16,
    cap: nat,
    s: SearchState,
    done: Set<int>,
)
    requires
        config::valid_map(nodes),
        sound(nodes, start, goal, s),
        all_counted(nodes, goal, s, done),
    ensures
        match advance(nodes, goal, cap, s) {
            StepOutcome::Continue(t) => is_bounded(nodes, goal, t),
            StepOutcome::OutOfMemory => cap < most_ways(nodes) || MAX_WAYS < most_ways(nodes),
            _ => true,
        },
{
    if s.open.len() > 0 && s.open[0].idx != goal {
        let cur = s.open[0];
        let w = cur.way;
        let way = s.ways[w as int];
        let num_edges = nodes[way.loc as int].edges@.len();
        let news = onward_ways(nodes, way, w, num_edges);
        let taken = SearchState { open: open_heap::popped(s.open), ..s };
        let f = promise_of(nodes, goal, way);
        let c = manner_of(nodes, way);
        lemma_taken(nodes, start, goal, s);
        assert(way_ok(nodes, start, goal, s.ways, w as int));
        lemma_only_listed(nodes, way, w, num_edges);
        lemma_after_news(nodes, start, goal, cap, taken, w, news, news.len());
        lemma_ends_well(nodes, start, goal, s, w as int);
        lemma_slot(nodes, way);
        lemma_open_stays_above(nodes, start, goal, s);
        if done.contains(c) {
            let i = choose|i: int| is_counted(nodes, goal, s, i, c);
            lemma_ends_well(nodes, start, goal, s, i);
            lemma_same_manner(nodes, s.ways[i], way);
            assert(promise_of(nodes, goal, s.ways[i]) <= s.open[0].f);
            assert(s.ways[i].g <= way.g);
            assert forall|k: int| 0 <= k < news.len() implies is_known(s.ways, #[trigger] news[k]) by {
                assert(is_onward(nodes, way, w, news[k]));
                let (e, r) = choose|e: int, r: int| #[trigger]
                    goes_on(nodes, way, e, r) && news[k] == onward(nodes, way, w, e, r);
                lemma_onward(nodes, start, goal, s, w, e, r);
                assert(goes_on(nodes, s.ways[i], e, r));
                lemma_onward(nodes, start, goal, s, i as usize, e, r);
                let known = onward(nodes, s.ways[i], i as usize, e, r);
                assert(is_known(s.ways, known));
                let l = choose|l: int| 0 <= l < s.ways.len() && replaces(#[trigger] s.ways[l], known);
                assert(replaces(s.ways[l], news[k]));
            }
            lemma_nothing_new(nodes, goal, cap, taken, news, news.len());
            assert(all_counted(nodes, goal, taken, done)) by {
                assert forall|d: int| #[trigger] done.contains(d) implies exists|j: int|
                    is_counted(nodes, goal, taken, j, d) by {
                    let j = choose|j: int| is_counted(nodes, goal, s, j, d);
                    lemma_popped_stays_above(s.open, promise_of(nodes, goal, s.ways[j]));
                    assert(is_counted(nodes, goal, taken, j, d));
                }
            }
        } else {
            let more = done.insert(c);
            let m = most_edges(nodes);
            lemma_manners_bound(nodes, start, goal, s, done);
            lemma_bounded_len(more, most_manners(nodes) as int);
            lemma_num_onward(nodes, way, w, num_edges);
            lemma_most_edges(nodes, way.loc as int);
            assert(num_edges * m <= m * m) by (nonlinear_arith)
                requires
                    num_edges <= m,
            ;
            assert(m * m * more.len() == m * m * done.len() + m * m) by (nonlinear_arith)
                requires
                    more.len() == done.len() + 1,
            ;
            assert(m * m * more.len() <= m * m * most_manners(nodes)) by (nonlinear_arith)
                requires
                    more.len() <= most_manners(nodes),
            ;
            assert forall|k: int| 0 <= k < news.len() implies f <= promise_of(
                nodes,
                goal,
                #[trigger] news[k],
            ) <= i64::MAX by {
                assert(is_onward(nodes, way, w, news[k]));
                let (e, r) = choose|e: int, r: int| #[trigger]
                    goes_on(nodes, way, e, r) && news[k] == onward(nodes, way, w, e, r);
                lemma_onward(nodes, start, goal, s, w, e, r);
                routes::lemma_step_cost(
                    nodes[way.loc as int],
                    nodes[news[k].loc as int],
                    nodes[goal as int],
                );
                routes::lemma_step_cost(
                    nodes[news[k].loc as int],
                    nodes[goal as int],
                    nodes[goal as int],
                );
                assert(MAX_WAYS * max_step() < 0x7FFF_FFFF_0000_0000 - 2 * 0xFFFF_FFFF)
                    by (nonlinear_arith)
                    requires
                        max_step() == 2 * 0xFFFF_FFFF,
                        MAX_WAYS == 0x1000_0000,
                ;
            }
            routes::lemma_step_cost(nodes[way.loc as int], nodes[goal as int], nodes[goal as int]);
            lemma_news_grow(nodes, goal, cap, taken, news, news.len(), f);
            if let Some(t) = after_news(nodes, goal, cap, taken, news, news.len()) {
                lemma_gone_on(nodes, way, w, t.ways, news);
                assert(t.ways[w as int] == way);
                assert(is_counted(nodes, goal, t, w as int, c));
                assert forall|d: int| #[trigger] more.contains(d) implies exists|j: int|
                    is_counted(nodes, goal, t, j, d) by {
                    if d != c {
                        let j = choose|j: int| is_counted(nodes, goal, s, j, d);
                        lemma_done_stays(nodes, s.ways, t.ways, j);
                        assert(t.ways[j] == s.ways[j]);
                        assert(promise_of(nodes, goal, s.ways[j]) <= s.open[0].f);
                        assert(is_counted(nodes, goal, t, j, d));
                    }
                }
                assert(all_counted(nodes, goal, t, more));
            }
        }
    }
}

/// Once the ways on are known, the search has gone on.
proof fn lemma_gone_on(
    nodes: Seq<LocPixNode>,
    way: Way,
    w: usize,
    ways: Seq<Way>,
    news: Seq<Way>,
)
    requires
        w < ways.len(),
        ways[w as int] == way,
        news == onward_ways(nodes, way, w, nodes[way.loc as int].edges@.len()),
        forall|i: int| 0 <= i < news.len() ==> is_known(ways, #[trigger] news[i]),
    ensures
        is_done(nodes, ways, w as int),
{
    assert forall|e: int, r: int| #[trigger] goes_on(nodes, way, e, r) implies is_known(
        ways,
        onward(nodes, way, w, e, r),
    ) by {
        lemma_listed(nodes, way, w, e, r, nodes[way.loc as int].edges@.len());
        let i = news.index_of(onward(nodes, way, w, e, r));
        assert(is_known(ways, news[i]));
    }
}

proof fn lemma_popped_stays_above(open: Seq<OpenLocNode>, f: int)
    requires
        open.len() > 0,
        none_below(open, f),
    ensures
        none_below(open_heap::popped(open), f),
{
    let p = |o: OpenLocNode| f <= o.f;
    assert forall|i: int| 0 <= i < open.len() implies p(#[trigger] open[i]) by {}
    open_heap::lemma_pop_keeps_all(open, p);
    let rest = open_heap::popped(open);
    assert forall|i: int| 0 <= i < rest.len() implies f <= (#[trigger] rest[i]).f by {
        assert(p(rest[i]));
    }
}

/// No open way promises to cost less than the one that is taken.
proof fn lemma_open_stays_above(nodes: Seq<LocPixNode>, start: u16, goal: u16, s: SearchState)
    requires
        sound(nodes, start, goal, s),
        s.open.len() > 0,
    ensures
        s.open[0].f == promise_of(nodes, goal, s.ways[s.open[0].way as int]),
        none_below(open_heap::popped(s.open), s.open[0].f as int),
{
    assert(open_ok(nodes, goal, s.ways, s.open[0]));
    assert forall|k: int| 0 <= k < s.open.len() implies s.open[0].f <= (#[trigger] s.open[k]).f by {
        open_heap::lemma_root_is_cheapest(s.open, k);
    }
    lemma_popped_stays_above(s.open, s.open[0].f as int);
}

proof fn lemma_steps_counted(nodes: Seq<LocPixNode>, start: u16, goal: u16, cap: nat, k: nat)
    requires
        config::valid_map(nodes),
        start < nodes.len(),
        goal < nodes.len(),
    ensures
        after_steps(nodes, goal, cap, initial_state(nodes, start, goal), k) matches Some(s)
            ==> is_bounded(nodes, goal, s),
    decreases k,
{
    let init = initial_state(nodes, start, goal);
    if k == 0 {
        lemma_initial(nodes, start, goal);
        let none = Set::<int>::empty();
        assert(most_edges(nodes) * most_edges(nodes) * none.len() == 0) by (nonlinear_arith)
            requires
                none.len() == 0,
        ;
        assert(all_counted(nodes, goal, init, none));
    } else {
        lemma_steps_counted(nodes, start, goal, cap, (k - 1) as nat);
        lemma_steps(nodes, start, goal, cap, (k - 1) as nat);
        if let Some(s) = after_steps(nodes, goal, cap, init, (k - 1) as nat) {
            let d = choose|d: Set<int>| all_counted(nodes, goal, s, d);
            lemma_advance_counted(nodes, start, goal, cap, s, d);
        }
    }
}

/// Whether there is not enough room for a search: not for all ways that it may find, or not for a
/// shortest path.
pub open spec fn lacks_room(
    nodes: Seq<LocPixNode>,
    start: u16,
    goal: u16,
    cap: nat,
    path_cap: nat,
) -> bool {
    ||| cap < most_ways(nodes)
    ||| MAX_WAYS < most_ways(nodes)
    ||| start == goal && path_cap == 0
    ||| exists|path: Seq<LocPixEdgeDirected>| #[trigger]
        routes::is_shortest_path(nodes, start, goal, path) && path_cap < path.len()
}

/// A search runs out of room only where there is not enough of it.
pub proof fn lemma_enough_room(
    nodes: Seq<LocPixNode>,
    start: u16,
    goal: u16,
    cap: nat,
    path_cap: nat,
)
    requires
        config::valid_map(nodes),
        start < nodes.len(),
        goal < nodes.len(),
        search_ends_with(nodes, start, goal, cap, path_cap, Err(PathFindError::OutOfMemory)),
    ensures
        lacks_room(nodes, start, goal, cap, path_cap),
{
    if cap > 0 {
        let init = initial_state(nodes, start, goal);
        let result = Err::<Seq<LocPixEdgeDirected>, _>(PathFindError::OutOfMemory);
        let k = choose|k: nat|
            {
                let s = #[trigger] after_steps(nodes, goal, cap, init, k);
                s is Some && stops_with(nodes, goal, cap, path_cap, s->0, result)
            };
        let s = after_steps(nodes, goal, cap, init, k)->0;
        lemma_steps(nodes, start, goal, cap, k);
        lemma_steps_counted(nodes, start, goal, cap, k);
        let d = choose|d: Set<int>| all_counted(nodes, goal, s, d);
        lemma_advance_counted(nodes, start, goal, cap, s, d);
        if s.open.len() > 0 && s.open[0].idx == goal {
            lemma_taken(nodes, start, goal, s);
            let w = s.open[0].way;
            assert(way_ok(nodes, start, goal, s.ways, w as int));
            if let Some((p, e)) = s.ways[w as int].from {
                let to_pix = nodes[s.ways[p as int].loc as int].edges@[e as int].to_pix;
                let path = traced(nodes, s.ways, w as nat, to_pix);
                assert(stops_with(nodes, goal, cap, path.len(), s, Ok(path)));
                lemma_found_is_shortest(nodes, start, goal, cap, path.len(), path);
            }
        }
    }
}

// ---------------------------------------------------------------------------------------------
// Results
// ---------------------------------------------------------------------------------------------

/// What a search with an open list of `cap` nodes and a path buffer of `path_cap` locations may end
/// with: a shortest path, that there is no route, or that there is not enough room.
pub open spec fn is_outcome(
    nodes: Seq<LocPixNode>,
    start: u16,
    goal: u16,
    cap: nat,
    path_cap: nat,
    result: Result<Seq<LocPixEdgeDirected>, PathFindError>,
) -> bool {
    match result {
        Ok(path) => cap > 0 && path.len() <= path_cap && routes::is_shortest_path(
            nodes,
            start,
            goal,
            path,
        ),
        Err(PathFindError::NoPathFound) => cap > 0 && routes::no_route(nodes, start, goal),
        Err(PathFindError::OutOfMemory) => lacks_room(nodes, start, goal, cap, path_cap),
    }
}

/// What a search ends with is its result, and one that it may end with.
pub proof fn lemma_outcome(
    nodes: Seq<LocPixNode>,
    start: u16,
    goal: u16,
    cap: nat,
    path_cap: nat,
    result: Result<Seq<LocPixEdgeDirected>, PathFindError>,
)
    requires
        config::valid_map(nodes),
        start < nodes.len(),
        goal < nodes.len(),
        search_ends_with(nodes, start, goal, cap, path_cap, result),
    ensures
        is_outcome(nodes, start, goal, cap, path_cap, result),
        search_result(nodes, start, goal, cap, path_cap) == result,
{
    lemma_search_is_deterministic(
        nodes,
        start,
        goal,
        cap,
        path_cap,
        result,
        search_result(nodes, start, goal, cap, path_cap),
    );
    match result {
        Ok(path) => lemma_found_is_shortest(nodes, start, goal, cap, path_cap, path),
        Err(PathFindError::NoPathFound) => lemma_no_path_means_no_route(
            nodes,
            start,
            goal,
            cap,
            path_cap,
        ),
        Err(PathFindError::OutOfMemory) => lemma_enough_room(nodes, start, goal, cap, path_cap),
    }
}

proof fn lemma_news_len(
    nodes: Seq<LocPixNode>,
    goal: u16,
    cap: nat,
    s: SearchState,
    news: Seq<Way>,
    k: nat,
)
    ensures
        after_news(nodes, goal, cap, s, news, k) matches Some(t) ==> t.ways.len() >= s.ways.len()
            && t.open.len() - s.open.len() == t.ways.len() - s.ways.len(),
    decreases k,
{
    if k > 0 {
        lemma_news_len(nodes, goal, cap, s, news, (k - 1) as nat);
        if let Some(t) = after_news(nodes, goal, cap, s, news, (k - 1) as nat) {
            let new = news[k - 1];
            let node = OpenLocNode {
                idx: new.loc,
                way: t.ways.len() as usize,
                f: (new.g + routes::step_cost(nodes[new.loc as int], nodes[goal as int])) as i64,
            };
            open_heap::lemma_push_keeps_heap(t.open, node);
        }
    }
}

/// From every state that a search gets to, it ends.
proof fn lemma_ends_from(
    nodes: Seq<LocPixNode>,
    start: u16,
    goal: u16,
    cap: nat,
    path_cap: nat,
    k: nat,
    s: SearchState,
)
    requires
        config::valid_map(nodes),
        start < nodes.len(),
        goal < nodes.len(),
        cap > 0,
        after_steps(nodes, goal, cap, initial_state(nodes, start, goal), k) == Some(s),
    ensures
        exists|r: Result<Seq<LocPixEdgeDirected>, PathFindError>|
            search_ends_with(nodes, start, goal, cap, path_cap, r),
    decreases MAX_WAYS - s.ways.len(), s.open.len(),
{
    lemma_steps(nodes, start, goal, cap, k);
    let init = initial_state(nodes, start, goal);
    match advance(nodes, goal, cap, s) {
        StepOutcome::Continue(t) => {
            lemma_taken(nodes, start, goal, s);
            let w = s.open[0].way;
            let way = s.ways[w as int];
            let news = onward_ways(nodes, way, w, nodes[way.loc as int].edges@.len());
            let taken = SearchState { open: open_heap::popped(s.open), ..s };
            lemma_news_len(nodes, goal, cap, taken, news, news.len());
            assert(after_steps(nodes, goal, cap, init, k + 1) == Some(t));
            lemma_steps(nodes, start, goal, cap, k + 1);
            lemma_ends_from(nodes, start, goal, cap, path_cap, k + 1, t);
        },
        StepOutcome::Exhausted => {
            let r = Err::<Seq<LocPixEdgeDirected>, _>(PathFindError::NoPathFound);
            assert(stops_with(nodes, goal, cap, path_cap, s, r));
            assert(search_ends_with(nodes, start, goal, cap, path_cap, r));
        },
        StepOutcome::OutOfMemory => {
            let r = Err::<Seq<LocPixEdgeDirected>, _>(PathFindError::OutOfMemory);
            assert(stops_with(nodes, goal, cap, path_cap, s, r));
            assert(search_ends_with(nodes, start, goal, cap, path_cap, r));
        },
        StepOutcome::Reached(w) => {
            let r = traced_path(nodes, s.ways, w as nat, path_cap);
            assert(stops_with(nodes, goal, cap, path_cap, s, r));
            assert(search_ends_with(nodes, start, goal, cap, path_cap, r));
        },
    }
}

/// Every search ends, and with one of the outcomes that it may end with.
pub proof fn lemma_search_result(
    nodes: Seq<LocPixNode>,
    start: u16,
    goal: u16,
    cap: nat,
    path_cap: nat,
)
    requires
        config::valid_map(nodes),
        start < nodes.len(),
        goal < nodes.len(),
    ensures
        search_ends_with(
            nodes,
            start,
            goal,
            cap,
            path_cap,
            search_result(nodes, start, goal, cap, path_cap),
        ),
        is_outcome(
            nodes,
            start,
            goal,
            cap,
            path_cap,
            search_result(nodes, start, goal, cap, path_cap),
        ),
{
    if cap == 0 {
        let r = Err::<Seq<LocPixEdgeDirected>, _>(PathFindError::OutOfMemory);
        assert(search_ends_with(nodes, start, goal, cap, path_cap, r));
    } else {
        let init = initial_state(nodes, start, goal);
        assert(after_steps(nodes, goal, cap, init, 0) == Some(init));
        lemma_ends_from(nodes, start, goal, cap, path_cap, 0, init);
    }
    let r = search_result(nodes, start, goal, cap, path_cap);
    lemma_outcome(nodes, start, goal, cap, path_cap, r);
}

} // verus!
