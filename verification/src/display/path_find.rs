//! Routing over the locations of the map: best-first search between two locations, and random
//! steps from one.

use vstd::prelude::*;
use vstd::slice::slice_subrange;

use crate::config;
use crate::config::{LocPixEdge, LocPixNode};
use crate::display::open_heap;
use crate::display::open_heap::{heap_pop, heap_push, OpenLocNode};
use crate::display::routes;
use crate::display::ways;
use crate::display::ways::{SearchState, Way, MAX_WAYS};
use crate::outside::bounded;
use crate::outside::bounded::StepChoices;
use crate::util::NonMax;

verus! {

/// The track directions by which a location is reached.
#[derive(Copy, Clone)]
pub struct ClosedLocNode {
    pub dir: u16,
}

impl Default for ClosedLocNode {
    fn default() -> (n: Self)
        ensures
            n.dir == 0,
    {
        ClosedLocNode { dir: 0 }
    }
}

/// The last of the ways that were found to a location.
#[derive(Copy, Clone)]
pub struct CameFromLocNode {
    pub way: Option<usize>,
}

impl Default for CameFromLocNode {
    fn default() -> (n: Self)
        ensures
            n.way is None,
    {
        CameFromLocNode { way: None }
    }
}

/// A location on a path with the pixel that shows it.
#[derive(Debug, Copy, Clone, PartialEq, Eq, Structural)]
pub struct LocPixEdgeDirected {
    pub from_loc: u16,
    pub from_pix: u16,
}

impl Default for LocPixEdgeDirected {
    fn default() -> (n: Self)
        ensures
            n == (LocPixEdgeDirected { from_loc: 0, from_pix: 0 }),
    {
        LocPixEdgeDirected { from_loc: 0, from_pix: 0 }
    }
}

#[derive(Debug, Copy, Clone, PartialEq, Eq, Structural)]
pub enum PathFindError {
    /// The scratch space or the path buffer is too short.
    OutOfMemory,
    /// There is no path.
    NoPathFound,
}

impl PathFindError {
    pub fn as_str(&self) -> (s: &'static str)
        ensures
            s@ == (match self {
                PathFindError::OutOfMemory => "OutOfMemory"@,
                PathFindError::NoPathFound => "NoPathFound"@,
            }),
    {
        match self {
            PathFindError::OutOfMemory => "OutOfMemory",
            PathFindError::NoPathFound => "NoPathFound",
        }
    }
}

// ---------------------------------------------------------------------------------------------
// The search
// ---------------------------------------------------------------------------------------------

fn abs_difference(a: i32, b: i32) -> (d: i64)
    ensures
        d == vstd::math::abs(a - b),
{
    let d: i64 = a as i64 - b as i64;
    if d < 0 {
        -d
    } else {
        d
    }
}

fn distance(a: &LocPixNode, b: &LocPixNode) -> (d: i64)
    ensures
        d == routes::step_cost(*a, *b),
        0 <= d <= ways::max_step(),
{
    abs_difference(a.lat_e7, b.lat_e7) + abs_difference(a.lng_e7, b.lng_e7)
}

fn can_leave(dir: u16, edge_dir: u16) -> (b: bool)
    ensures
        b == routes::may_leave(dir, edge_dir),
{
    dir & edge_dir == 0 && dir.trailing_zeros() / 4 == edge_dir.trailing_zeros() / 4
}

/// Whether `last` is the last one of the first `end` ways that leads to `loc`.
spec fn is_last_to(ways: Seq<Way>, loc: u16, end: int, last: Option<usize>) -> bool {
    match last {
        Some(i) => i < end && ways[i as int].loc == loc && forall|k: int|
            i < k < end ==> (#[trigger] ways[k]).loc != loc,
        None => forall|k: int| 0 <= k < end ==> (#[trigger] ways[k]).loc != loc,
    }
}

/// What the scratch buffers hold for a map of `n` locations: for each location a cost that no way to
/// it is below, the directions by which it is reached, and its last way. From each way `earlier` leads
/// to the one before it to the same location.
spec fn is_index(
    ways: Seq<Way>,
    earlier: Seq<Option<usize>>,
    g: Seq<i64>,
    came: Seq<CameFromLocNode>,
    closed: Seq<ClosedLocNode>,
    n: nat,
) -> bool {
    &&& earlier.len() == ways.len()
    &&& g.len() >= n
    &&& came.len() >= n
    &&& closed.len() >= n
    &&& forall|i: int|
        #![trigger ways[i]]
        0 <= i < ways.len() ==> {
            &&& ways[i].loc < n
            &&& g[ways[i].loc as int] <= ways[i].g
            &&& closed[ways[i].loc as int].dir & ways[i].dir == ways[i].dir
        }
    &&& forall|loc: u16|
        loc < n ==> is_last_to(ways, loc, ways.len() as int, (#[trigger] came[loc as int]).way)
    &&& forall|i: int|
        0 <= i < ways.len() ==> is_last_to(ways, ways[i].loc, i, #[trigger] earlier[i])
}

/// Whether a way that was found already makes `new` superfluous.
fn knows_way(
    ways: &Vec<Way>,
    earlier: &Vec<Option<usize>>,
    g_score: &[i64],
    came_from: &[CameFromLocNode],
    closed_set: &[ClosedLocNode],
    new: &Way,
    Ghost(n): Ghost<nat>,
) -> (r: bool)
    requires
        is_index(ways@, earlier@, g_score@, came_from@, closed_set@, n),
        new.loc < n,
        new.dir != 0,
    ensures
        r == ways::is_known(ways@, *new),
{
    let loc: usize = new.loc as usize;
    if new.g < g_score[loc] || closed_set[loc].dir & new.dir == 0 {
        return false;
    }
    let mut last: Option<usize> = came_from[loc].way;
    let ghost mut end: int = ways@.len() as int;
    assert(is_last_to(ways@, new.loc, end, last));
    loop
        invariant
            is_index(ways@, earlier@, g_score@, came_from@, closed_set@, n),
            0 <= end <= ways@.len(),
            is_last_to(ways@, new.loc, end, last),
            forall|k: int| end <= k < ways@.len() ==> !ways::replaces(#[trigger] ways@[k], *new),
        ensures
            forall|k: int| 0 <= k < ways@.len() ==> !ways::replaces(#[trigger] ways@[k], *new),
        decreases end,
    {
        let i: usize = match last {
            Some(i) => i,
            None => {
                break ;
            },
        };
        let way = &ways[i];
        if way.dir == new.dir && way.modes == new.modes && way.g <= new.g {
            assert(ways::replaces(ways@[i as int], *new));
            return true;
        }
        last = earlier[i];
        proof {
            assert(is_last_to(ways@, ways@[i as int].loc, i as int, earlier@[i as int]));
            end = i as int;
        }
    }
    false
}

/// Adds a way that was found. `false` if there is no room for it.
fn add_way(
    loc_nodes: &[LocPixNode],
    goal_loc_idx: u16,
    new: Way,
    ways: &mut Vec<Way>,
    earlier: &mut Vec<Option<usize>>,
    open_heap: &mut [OpenLocNode],
    heap_len: &mut usize,
    g_score: &mut [i64],
    came_from: &mut [CameFromLocNode],
    closed_set: &mut [ClosedLocNode],
) -> (ok: bool)
    requires
        is_index(
            old(ways)@,
            old(earlier)@,
            old(g_score)@,
            old(came_from)@,
            old(closed_set)@,
            loc_nodes@.len(),
        ),
        new.loc < loc_nodes@.len(),
        goal_loc_idx < loc_nodes@.len(),
        0 <= new.g <= MAX_WAYS * ways::max_step(),
        *old(heap_len) <= old(open_heap)@.len(),
    ensures
        final(open_heap)@.len() == old(open_heap)@.len(),
        final(g_score)@.len() == old(g_score)@.len(),
        final(came_from)@.len() == old(came_from)@.len(),
        final(closed_set)@.len() == old(closed_set)@.len(),
        *final(heap_len) <= final(open_heap)@.len(),
        is_index(
            final(ways)@,
            final(earlier)@,
            final(g_score)@,
            final(came_from)@,
            final(closed_set)@,
            loc_nodes@.len(),
        ),
        ok == (*old(heap_len) < old(open_heap)@.len() && old(ways)@.len() < MAX_WAYS),
        ok ==> {
            &&& *final(heap_len) == *old(heap_len) + 1
            &&& final(ways)@.len() == old(ways)@.len() + 1
            &&& (SearchState {
                open: final(open_heap)@.take(*final(heap_len) as int),
                ways: final(ways)@,
            }) == ways::found(
                loc_nodes@,
                goal_loc_idx,
                SearchState {
                    open: old(open_heap)@.take(*old(heap_len) as int),
                    ways: old(ways)@,
                },
                new,
            )
        },
{
    if ways.len() >= MAX_WAYS {
        return false;
    }
    let loc: usize = new.loc as usize;
    proof {
        assert(MAX_WAYS * ways::max_step() < 0x7FFF_FFFF_0000_0000 - 2 * 0xFFFF_FFFF)
            by (nonlinear_arith)
            requires
                ways::max_step() == 2 * 0xFFFF_FFFF,
                MAX_WAYS == 0x1000_0000,
        ;
    }
    let h: i64 = distance(&loc_nodes[loc], &loc_nodes[goal_loc_idx as usize]);
    let node = OpenLocNode { idx: new.loc, way: ways.len(), f: new.g + h };
    if !heap_push(open_heap, heap_len, node) {
        return false;
    }
    let ghost n = loc_nodes@.len();
    let ghost before = ways@;
    let ghost (g, came, closed) = (g_score@, came_from@, closed_set@);
    let dirs: u16 = closed_set[loc].dir;
    let last: Option<usize> = came_from[loc].way;
    assert(is_last_to(before, new.loc, before.len() as int, came[loc as int].way));
    if new.g < g_score[loc] {
        g_score[loc] = new.g;
    }
    closed_set[loc] = ClosedLocNode { dir: dirs | new.dir };
    came_from[loc] = CameFromLocNode { way: Some(ways.len()) };
    earlier.push(last);
    ways.push(new);
    proof {
        let new_dir = new.dir;
        assert((dirs | new_dir) & new_dir == new_dir) by (bit_vector);
        assert forall|i: int| #![trigger ways@[i]] 0 <= i < ways@.len() implies {
            &&& ways@[i].loc < n
            &&& g_score@[ways@[i].loc as int] <= ways@[i].g
            &&& closed_set@[ways@[i].loc as int].dir & ways@[i].dir == ways@[i].dir
        } by {
            if i < before.len() {
                assert(ways@[i] == before[i]);
                let d = before[i].dir;
                assert(dirs & d == d ==> (dirs | new_dir) & d == d) by (bit_vector);
            }
        }
        assert forall|l: u16| l < n implies is_last_to(
            ways@,
            l,
            ways@.len() as int,
            (#[trigger] came_from@[l as int]).way,
        ) by {
            assert(is_last_to(before, l, before.len() as int, came[l as int].way));
            assert forall|k: int| 0 <= k < before.len() implies #[trigger] ways@[k] == before[k] by {}
        }
        assert forall|i: int| 0 <= i < ways@.len() implies is_last_to(
            ways@,
            ways@[i].loc,
            i,
            #[trigger] earlier@[i],
        ) by {
            assert forall|k: int| 0 <= k < before.len() implies #[trigger] ways@[k] == before[k] by {}
            if i < before.len() {
                assert(is_last_to(before, before[i].loc, i, old(earlier)@[i]));
            }
        }
    }
    true
}

/// The ways on from way number `w` of a search, which is `way`.
fn get_onward_ways(
    loc_nodes: &[LocPixNode],
    way: Way,
    w: usize,
    Ghost(start): Ghost<u16>,
    Ghost(goal): Ghost<u16>,
    Ghost(s): Ghost<SearchState>,
) -> (news: Vec<Way>)
    requires
        config::valid_map(loc_nodes@),
        ways::sound(loc_nodes@, start, goal, s),
        w < s.ways.len(),
        way == s.ways[w as int],
    ensures
        news@ == ways::onward_ways(
            loc_nodes@,
            way,
            w,
            loc_nodes@[way.loc as int].edges@.len(),
        ),
        forall|i: int|
            #![trigger news@[i]]
            0 <= i < news@.len() ==> news@[i].loc < loc_nodes@.len() && news@[i].dir != 0 && 0
                <= news@[i].g <= MAX_WAYS * ways::max_step(),
{
    let ghost nodes = loc_nodes@;
    assert(ways::way_ok(nodes, start, goal, s.ways, w as int));
    let cur_loc = &loc_nodes[way.loc as usize];
    let mut news: Vec<Way> = Vec::new();
    let mut e: usize = 0;
    while e < cur_loc.edges.len()
        invariant
            config::valid_map(nodes),
            nodes == loc_nodes@,
            ways::sound(nodes, start, goal, s),
            w < s.ways.len(),
            way == s.ways[w as int],
            way.loc < nodes.len(),
            *cur_loc == nodes[way.loc as int],
            e <= cur_loc.edges@.len(),
            news@ == ways::onward_ways(nodes, way, w, e as nat),
            forall|i: int|
                #![trigger news@[i]]
                0 <= i < news@.len() ==> news@[i].loc < nodes.len() && news@[i].dir != 0 && 0
                    <= news@[i].g <= MAX_WAYS * ways::max_step(),
        decreases cur_loc.edges@.len() - e,
    {
        let edge = &cur_loc.edges[e];
        let succ_loc = &loc_nodes[edge.to_loc as usize];
        let ghost before = news@;
        let mut r: usize = 0;
        assert(news@ =~= before + ways::onward_by_edge(nodes, way, w, e as int, 0));
        while r < succ_loc.edges.len()
            invariant
                config::valid_map(nodes),
                nodes == loc_nodes@,
                ways::sound(nodes, start, goal, s),
                w < s.ways.len(),
                way == s.ways[w as int],
                way.loc < nodes.len(),
                *cur_loc == nodes[way.loc as int],
                e < cur_loc.edges@.len(),
                *edge == cur_loc.edges@[e as int],
                edge.to_loc < nodes.len(),
                *succ_loc == nodes[edge.to_loc as int],
                r <= succ_loc.edges@.len(),
                before == ways::onward_ways(nodes, way, w, e as nat),
                news@ == before + ways::onward_by_edge(nodes, way, w, e as int, r as nat),
                forall|i: int|
                    #![trigger news@[i]]
                    0 <= i < news@.len() ==> news@[i].loc < nodes.len() && news@[i].dir != 0 && 0
                        <= news@[i].g <= MAX_WAYS * ways::max_step(),
            decreases succ_loc.edges@.len() - r,
        {
            let back = &succ_loc.edges[r];
            let modes: u8 = way.modes & succ_loc.modes;
            if back.to_loc == way.loc && modes != 0 && (way.dir == 0 || can_leave(
                way.dir,
                edge.dir,
            )) {
                proof {
                    assert(ways::goes_on(nodes, way, e as int, r as int));
                    ways::lemma_onward(nodes, start, goal, s, w, e as int, r as int);
                    let m = MAX_WAYS * ways::max_step();
                    assert(m < 0x7FFF_FFFF_0000_0000) by (nonlinear_arith)
                        requires
                            m == MAX_WAYS * ways::max_step(),
                            ways::max_step() == 2 * 0xFFFF_FFFF,
                            MAX_WAYS == 0x1000_0000,
                    ;
                }
                let new = Way {
                    loc: edge.to_loc,
                    dir: back.dir,
                    modes,
                    g: way.g + distance(cur_loc, succ_loc),
                    from: Some((w, e)),
                };
                assert(new == ways::onward(nodes, way, w, e as int, r as int));
                news.push(new);
                assert(news@ =~= before + ways::onward_by_edge(
                    nodes,
                    way,
                    w,
                    e as int,
                    (r + 1) as nat,
                ));
            }
            r = r + 1;
        }
        e = e + 1;
    }
    news
}

/// How many steps way number `w` has.
spec fn num_steps(ways: Seq<Way>, w: nat) -> nat
    decreases w,
{
    match ways[w as int].from {
        Some((p, _)) if p < w => num_steps(ways, p as nat) + 1,
        _ => 0,
    }
}

proof fn lemma_num_steps(nodes: Seq<LocPixNode>, ways: Seq<Way>, w: nat, pix: u16)
    ensures
        ways::traced(nodes, ways, w, pix).len() == num_steps(ways, w) + 1,
        num_steps(ways, w) <= w,
    decreases w,
{
    if let Some((p, e)) = ways[w as int].from {
        if p < w {
            let from_pix = nodes[ways[p as int].loc as int].edges@[e as int].from_pix;
            lemma_num_steps(nodes, ways, p as nat, from_pix);
        }
    }
}

/// Writes the path that way number `w` makes into `path_buf`, and returns its length.
fn trace_path(
    loc_nodes: &[LocPixNode],
    ways: &Vec<Way>,
    w: usize,
    path_buf: &mut [LocPixEdgeDirected],
    Ghost(start): Ghost<u16>,
    Ghost(goal): Ghost<u16>,
    Ghost(s): Ghost<SearchState>,
) -> (r: Result<usize, PathFindError>)
    requires
        config::valid_map(loc_nodes@),
        ways::sound(loc_nodes@, start, goal, s),
        ways@ == s.ways,
        w < s.ways.len(),
    ensures
        final(path_buf)@.len() == old(path_buf)@.len(),
        match r {
            Ok(len) => {
                &&& len <= final(path_buf)@.len()
                &&& ways::traced_path(loc_nodes@, s.ways, w as nat, old(path_buf)@.len()) == Ok::<
                    _,
                    PathFindError,
                >(final(path_buf)@.take(len as int))
            },
            Err(err) => ways::traced_path(loc_nodes@, s.ways, w as nat, old(path_buf)@.len())
                == Err::<Seq<LocPixEdgeDirected>, _>(err),
        },
{
    let ghost nodes = loc_nodes@;
    if path_buf.len() == 0 {
        proof {
            if let Some((p, e)) = s.ways[w as int].from {
                let pix = nodes[s.ways[p as int].loc as int].edges@[e as int].to_pix;
                lemma_num_steps(nodes, s.ways, w as nat, pix);
            }
        }
        return Err(PathFindError::OutOfMemory);
    }
    assert(ways::way_ok(nodes, start, goal, s.ways, w as int));
    let to_pix: u16 = match ways[w].from {
        None => {
            return Err(PathFindError::NoPathFound);
        },
        Some((p, e)) => loc_nodes[ways[p].loc as usize].edges[e].to_pix,
    };
    let ghost path = ways::traced(nodes, s.ways, w as nat, to_pix);
    proof {
        lemma_num_steps(nodes, s.ways, w as nat, to_pix);
    }
    let mut len: usize = 1;
    let mut cur: usize = w;
    loop
        invariant
            ways::sound(nodes, start, goal, s),
            ways@ == s.ways,
            w < s.ways.len(),
            cur <= w,
            len + num_steps(s.ways, cur as nat) == num_steps(s.ways, w as nat) + 1,
            num_steps(s.ways, w as nat) <= w,
        ensures
            len == num_steps(s.ways, w as nat) + 1,
        decreases cur,
    {
        assert(ways::way_ok(nodes, start, goal, s.ways, cur as int));
        match ways[cur].from {
            None => {
                break ;
            },
            Some((p, _)) => {
                cur = p;
                len = len + 1;
            },
        }
    }
    if len > path_buf.len() {
        return Err(PathFindError::OutOfMemory);
    }
    let mut i: usize = len;
    let mut pix: u16 = to_pix;
    cur = w;
    assert(path_buf@.subrange(len as int, len as int) =~= Seq::empty());
    assert(path =~= ways::traced(nodes, s.ways, cur as nat, pix) + path_buf@.subrange(
        i as int,
        len as int,
    ));
    loop
        invariant_except_break
            0 < i <= len,
            i == num_steps(s.ways, cur as nat) + 1,
            path == ways::traced(nodes, s.ways, cur as nat, pix) + path_buf@.subrange(
                i as int,
                len as int,
            ),
        invariant
            config::valid_map(nodes),
            nodes == loc_nodes@,
            ways::sound(nodes, start, goal, s),
            ways@ == s.ways,
            w < s.ways.len(),
            cur <= w,
            path_buf@.len() == old(path_buf)@.len(),
            len <= path_buf@.len(),
        ensures
            path_buf@.len() == old(path_buf)@.len(),
            len <= path_buf@.len(),
            path == path_buf@.take(len as int),
        decreases cur,
    {
        assert(ways::way_ok(nodes, start, goal, s.ways, cur as int));
        let ghost rest = path_buf@.subrange(i as int, len as int);
        let here = LocPixEdgeDirected { from_loc: ways[cur].loc, from_pix: pix };
        let ghost done = ways::traced(nodes, s.ways, cur as nat, pix);
        proof {
            lemma_num_steps(nodes, s.ways, cur as nat, pix);
        }
        i = i - 1;
        path_buf[i] = here;
        assert(path_buf@.subrange(i as int, len as int) =~= seq![here] + rest);
        match ways[cur].from {
            None => {
                assert(done =~= seq![here]);
                assert(path_buf@.take(len as int) =~= path_buf@.subrange(0, len as int));
                break ;
            },
            Some((p, e)) => {
                let from_pix: u16 = loc_nodes[ways[p].loc as usize].edges[e].from_pix;
                assert(done =~= ways::traced(nodes, s.ways, p as nat, from_pix).push(here));
                pix = from_pix;
                cur = p;
                assert(path =~= ways::traced(nodes, s.ways, cur as nat, pix) + path_buf@.subrange(
                    i as int,
                    len as int,
                ));
            },
        }
    }
    Ok(len)
}

/// Finds the shortest path between two locations of the map that a train can take.
///
/// The search goes from location to location along the edges. It stays on the tracks that a train
/// can take and on the transit modes that `start_loc_idx`, `goal_loc_idx` and every location in
/// between have in common, and it follows the way first that promises to be the cheapest.
/// `open_heap`, `g_score`, `came_from` and `closed_set` are scratch space; the path is written to
/// `path_buf`. Which of several shortest paths is found, and whether an open list that is not long
/// enough for all ways is used up, is settled by the order in which the search goes on.
pub fn find_shortest_path_between_pixel_locations<'a>(
    loc_nodes: &[LocPixNode],
    start_loc_idx: u16,
    goal_loc_idx: u16,
    open_heap: &mut [OpenLocNode],
    g_score: &mut [i64],
    came_from: &mut [CameFromLocNode],
    closed_set: &mut [ClosedLocNode],
    path_buf: &'a mut [LocPixEdgeDirected],
) -> (r: Result<&'a [LocPixEdgeDirected], PathFindError>)
    requires
        config::valid_map(loc_nodes@),
        start_loc_idx < loc_nodes@.len(),
        goal_loc_idx < loc_nodes@.len(),
        old(g_score)@.len() >= loc_nodes@.len(),
        old(came_from)@.len() >= loc_nodes@.len(),
        old(closed_set)@.len() >= loc_nodes@.len(),
    ensures
        final(open_heap)@.len() == old(open_heap)@.len(),
        final(g_score)@.len() == old(g_score)@.len(),
        final(came_from)@.len() == old(came_from)@.len(),
        final(closed_set)@.len() == old(closed_set)@.len(),
        final(path_buf)@.len() == old(path_buf)@.len(),
        ways::is_outcome(
            loc_nodes@,
            start_loc_idx,
            goal_loc_idx,
            old(open_heap)@.len(),
            old(path_buf)@.len(),
            match r {
                Ok(path) => Ok(path@),
                Err(err) => Err(err),
            },
        ),
        ways::search_result(
            loc_nodes@,
            start_loc_idx,
            goal_loc_idx,
            old(open_heap)@.len(),
            old(path_buf)@.len(),
        ) == (match r {
            Ok(path) => Ok(path@),
            Err(err) => Err(err),
        }),
{
    let ghost nodes = loc_nodes@;
    let ghost n = nodes.len();
    let ghost cap = open_heap@.len();
    let ghost path_cap = path_buf@.len();
    let num_locs: usize = loc_nodes.len();

    let mut i: usize = 0;
    while i < num_locs
        invariant
            i <= num_locs,
            num_locs == n,
            g_score@.len() == old(g_score)@.len(),
            came_from@.len() == old(came_from)@.len(),
            closed_set@.len() == old(closed_set)@.len(),
            g_score@.len() >= n,
            came_from@.len() >= n,
            closed_set@.len() >= n,
            forall|j: int| 0 <= j < i ==> (#[trigger] came_from@[j]).way is None,
        decreases num_locs - i,
    {
        g_score[i] = i64::MAX;
        came_from[i] = CameFromLocNode::default();
        closed_set[i] = ClosedLocNode::default();
        i = i + 1;
    }

    let mut heap_len: usize = 0;
    let mut ways: Vec<Way> = Vec::new();
    let mut earlier: Vec<Option<usize>> = Vec::new();
    let first = Way {
        loc: start_loc_idx,
        dir: 0,
        modes: loc_nodes[start_loc_idx as usize].modes & loc_nodes[goal_loc_idx as usize].modes,
        g: 0,
        from: None,
    };
    assert(0 <= MAX_WAYS * ways::max_step()) by (nonlinear_arith)
        requires
            ways::max_step() == 2 * 0xFFFF_FFFF,
    ;
    let ok = add_way(
        loc_nodes,
        goal_loc_idx,
        first,
        &mut ways,
        &mut earlier,
        open_heap,
        &mut heap_len,
        g_score,
        came_from,
        closed_set,
    );
    if !ok {
        proof {
            ways::lemma_outcome(
                nodes,
                start_loc_idx,
                goal_loc_idx,
                cap,
                path_cap,
                Err(PathFindError::OutOfMemory),
            );
        }
        return Err(PathFindError::OutOfMemory);
    }
    let ghost init = ways::initial_state(nodes, start_loc_idx, goal_loc_idx);
    let ghost mut steps: nat = 0;
    proof {
        ways::lemma_initial_sound(nodes, start_loc_idx, goal_loc_idx);
        assert(old(open_heap)@.take(0) =~= Seq::empty());
        assert((SearchState { open: open_heap@.take(heap_len as int), ways: ways@ }) == init);
    }

    while heap_len > 0
        invariant
            config::valid_map(nodes),
            nodes == loc_nodes@,
            n == nodes.len(),
            cap == open_heap@.len(),
            cap > 0,
            path_cap == path_buf@.len(),
            open_heap@.len() == old(open_heap)@.len(),
            g_score@.len() == old(g_score)@.len(),
            came_from@.len() == old(came_from)@.len(),
            closed_set@.len() == old(closed_set)@.len(),
            path_buf@.len() == old(path_buf)@.len(),
            start_loc_idx < n,
            goal_loc_idx < n,
            heap_len <= open_heap@.len(),
            init == ways::initial_state(nodes, start_loc_idx, goal_loc_idx),
            is_index(ways@, earlier@, g_score@, came_from@, closed_set@, n),
            ways::after_steps(nodes, goal_loc_idx, cap, init, steps) == Some(
                SearchState { open: open_heap@.take(heap_len as int), ways: ways@ },
            ),
            ways::sound(
                nodes,
                start_loc_idx,
                goal_loc_idx,
                (SearchState { open: open_heap@.take(heap_len as int), ways: ways@ }),
            ),
        decreases MAX_WAYS - ways@.len(), heap_len,
    {
        let ghost s = SearchState { open: open_heap@.take(heap_len as int), ways: ways@ };
        proof {
            ways::lemma_taken(nodes, start_loc_idx, goal_loc_idx, s);
        }
        let current = heap_pop(open_heap, &mut heap_len);
        assert(current == s.open[0]);
        let ghost taken = SearchState { open: open_heap::popped(s.open), ..s };
        assert((SearchState { open: open_heap@.take(heap_len as int), ways: ways@ }) == taken);

        if current.idx == goal_loc_idx {
            let traced = trace_path(
                loc_nodes,
                &ways,
                current.way,
                path_buf,
                Ghost(start_loc_idx),
                Ghost(goal_loc_idx),
                Ghost(s),
            );
            return match traced {
                Ok(len) => {
                    let path = slice_subrange(path_buf, 0, len);
                    proof {
                        assert(path@ =~= path_buf@.take(len as int));
                        ways::lemma_outcome(
                            nodes,
                            start_loc_idx,
                            goal_loc_idx,
                            cap,
                            path_cap,
                            Ok(path@),
                        );
                    }
                    Ok(path)
                },
                Err(err) => {
                    proof {
                        ways::lemma_outcome(
                            nodes,
                            start_loc_idx,
                            goal_loc_idx,
                            cap,
                            path_cap,
                            Err(err),
                        );
                    }
                    Err(err)
                },
            };
        }
        let news = get_onward_ways(
            loc_nodes,
            ways[current.way],
            current.way,
            Ghost(start_loc_idx),
            Ghost(goal_loc_idx),
            Ghost(s),
        );
        let mut k: usize = 0;
        while k < news.len()
            invariant
                config::valid_map(nodes),
                nodes == loc_nodes@,
                n == nodes.len(),
                cap == open_heap@.len(),
                path_cap == path_buf@.len(),
                open_heap@.len() == old(open_heap)@.len(),
                g_score@.len() == old(g_score)@.len(),
                came_from@.len() == old(came_from)@.len(),
                closed_set@.len() == old(closed_set)@.len(),
                path_buf@.len() == old(path_buf)@.len(),
                start_loc_idx < n,
                goal_loc_idx < n,
                heap_len <= open_heap@.len(),
                k <= news@.len(),
                is_index(ways@, earlier@, g_score@, came_from@, closed_set@, n),
                ways::after_steps(nodes, goal_loc_idx, cap, init, steps) == Some(s),
                init == ways::initial_state(nodes, start_loc_idx, goal_loc_idx),
                cap > 0,
                s.open.len() > 0,
                s.open[0] == current,
                current.idx != goal_loc_idx,
                taken == (SearchState { open: open_heap::popped(s.open), ..s }),
                news@ == ways::onward_ways(
                    nodes,
                    s.ways[current.way as int],
                    current.way,
                    nodes[s.ways[current.way as int].loc as int].edges@.len(),
                ),
                forall|i: int|
                    #![trigger news@[i]]
                    0 <= i < news@.len() ==> news@[i].loc < n && news@[i].dir != 0 && 0
                        <= news@[i].g <= MAX_WAYS * ways::max_step(),
                ways::after_news(nodes, goal_loc_idx, cap, taken, news@, k as nat) == Some(
                    SearchState { open: open_heap@.take(heap_len as int), ways: ways@ },
                ),
                ways@.len() >= taken.ways.len(),
                heap_len - taken.open.len() == ways@.len() - taken.ways.len(),
            decreases news@.len() - k,
        {
            let new = news[k];
            assert(new == news@[k as int]);
            if !knows_way(&ways, &earlier, g_score, came_from, closed_set, &new, Ghost(n)) {
                let ok = add_way(
                    loc_nodes,
                    goal_loc_idx,
                    new,
                    &mut ways,
                    &mut earlier,
                    open_heap,
                    &mut heap_len,
                    g_score,
                    came_from,
                    closed_set,
                );
                if !ok {
                    proof {
                        ways::lemma_full_stays_full(
                            nodes,
                            goal_loc_idx,
                            cap,
                            taken,
                            news@,
                            (k + 1) as nat,
                            news@.len(),
                        );
                        assert(ways::stops_with(
                            nodes,
                            goal_loc_idx,
                            cap,
                            path_cap,
                            s,
                            Err(PathFindError::OutOfMemory),
                        ));
                        ways::lemma_outcome(
                            nodes,
                            start_loc_idx,
                            goal_loc_idx,
                            cap,
                            path_cap,
                            Err(PathFindError::OutOfMemory),
                        );
                    }
                    return Err(PathFindError::OutOfMemory);
                }
            }
            k = k + 1;
        }
        proof {
            ways::lemma_news_sound(
                nodes,
                start_loc_idx,
                goal_loc_idx,
                cap,
                taken,
                current.way,
                news@.len(),
            );
            steps = steps + 1;
        }
    }
    proof {
        assert(open_heap@.take(0).len() == 0);
        ways::lemma_outcome(
            nodes,
            start_loc_idx,
            goal_loc_idx,
            cap,
            path_cap,
            Err(PathFindError::NoPathFound),
        );
    }
    Err(PathFindError::NoPathFound)
}

/// Finds the shortest path with scratch space of its own: an open list of `max_open_nodes` nodes, and
/// a path of at most `max_path_len` locations.
pub fn find_path(
    loc_nodes: &[LocPixNode],
    start_loc_idx: u16,
    goal_loc_idx: u16,
    max_open_nodes: usize,
    max_path_len: usize,
) -> (r: Result<Vec<LocPixEdgeDirected>, PathFindError>)
    requires
        config::valid_map(loc_nodes@),
        start_loc_idx < loc_nodes@.len(),
        goal_loc_idx < loc_nodes@.len(),
    ensures
        ways::is_outcome(
            loc_nodes@,
            start_loc_idx,
            goal_loc_idx,
            max_open_nodes as nat,
            max_path_len as nat,
            match r {
                Ok(path) => Ok(path@),
                Err(err) => Err(err),
            },
        ),
        ways::search_result(
            loc_nodes@,
            start_loc_idx,
            goal_loc_idx,
            max_open_nodes as nat,
            max_path_len as nat,
        ) == (match r {
            Ok(path) => Ok(path@),
            Err(err) => Err(err),
        }),
        r matches Ok(path) ==> path@.len() > 0 && forall|i: int|
            0 <= i < path@.len() ==> (#[trigger] path@[i]).from_loc < loc_nodes@.len(),
        forall|n: nat|
            #[trigger] config::valid_pixels(loc_nodes@, n) ==> (r matches Ok(path) ==> forall|
                i: int,
            |
                0 <= i < path@.len() ==> (#[trigger] path@[i]).from_pix < n),
{
    let no_node = OpenLocNode { idx: 0, way: 0, f: 0 };
    let n: usize = loc_nodes.len();
    let mut open_heap: Vec<OpenLocNode> = vec![no_node; max_open_nodes];
    let mut g_score: Vec<i64> = vec![0i64; n];
    let mut came_from: Vec<CameFromLocNode> = vec![CameFromLocNode::default(); n];
    let mut closed_set: Vec<ClosedLocNode> = vec![ClosedLocNode::default(); n];
    let mut path_buf: Vec<LocPixEdgeDirected> = vec![LocPixEdgeDirected::default(); max_path_len];
    let found = find_shortest_path_between_pixel_locations(
        loc_nodes,
        start_loc_idx,
        goal_loc_idx,
        open_heap.as_mut_slice(),
        g_score.as_mut_slice(),
        came_from.as_mut_slice(),
        closed_set.as_mut_slice(),
        path_buf.as_mut_slice(),
    );
    match found {
        Err(err) => Err(err),
        Ok(slice) => {
            let mut path: Vec<LocPixEdgeDirected> = Vec::new();
            let mut i: usize = 0;
            while i < slice.len()
                invariant
                    i <= slice@.len(),
                    path@ == slice@.take(i as int),
                decreases slice@.len() - i,
            {
                path.push(slice[i]);
                i = i + 1;
                assert(slice@.take(i as int) =~= slice@.take(i - 1).push(slice@[i - 1]));
            }
            proof {
                assert(slice@.take(i as int) =~= slice@);
                routes::lemma_path_on_map(loc_nodes@, start_loc_idx, goal_loc_idx, path@);
            }
            Ok(path)
        },
    }
}

// ---------------------------------------------------------------------------------------------
// Random steps
// ---------------------------------------------------------------------------------------------

/// The direction of the first edge, from number `k` on, that leads to `loc`.
pub open spec fn first_back(edges: Seq<LocPixEdge>, loc: u16, k: nat) -> Option<u16>
    decreases edges.len() - k,
{
    if k >= edges.len() {
        None
    } else if edges[k as int].to_loc == loc {
        Some(edges[k as int].dir)
    } else {
        first_back(edges, loc, k + 1)
    }
}

/// The step by `edge` from `loc` that a train of the given modes can make which entered by `dir`:
/// destination, first pixel, last pixel, and the direction by which it enters there.
pub open spec fn step_by(
    nodes: Seq<LocPixNode>,
    loc: u16,
    dir: Option<u16>,
    modes: u8,
    edge: LocPixEdge,
) -> Option<(u16, u16, u16, u16)> {
    let succ = nodes[edge.to_loc as int];
    if modes & succ.modes == 0 || (dir is Some && !routes::may_leave(dir->0, edge.dir)) {
        None
    } else {
        match first_back(succ.edges@, loc, 0) {
            None => None,
            Some(back) => Some((edge.to_loc, edge.from_pix, edge.to_pix, back)),
        }
    }
}

/// The steps by the first `k` edges of `loc`, in their order.
pub open spec fn steps_from(
    nodes: Seq<LocPixNode>,
    loc: u16,
    dir: Option<u16>,
    modes: u8,
    k: nat,
) -> Seq<(u16, u16, u16, u16)>
    decreases k,
{
    if k == 0 {
        Seq::empty()
    } else {
        let before = steps_from(nodes, loc, dir, modes, (k - 1) as nat);
        match step_by(nodes, loc, dir, modes, nodes[loc as int].edges@[k - 1]) {
            None => before,
            Some(step) => before.push(step),
        }
    }
}

/// All steps from `loc`.
pub open spec fn all_steps(
    nodes: Seq<LocPixNode>,
    loc: u16,
    dir: Option<u16>,
    modes: u8,
) -> Seq<(u16, u16, u16, u16)> {
    steps_from(nodes, loc, dir, modes, nodes[loc as int].edges@.len())
}

/// The step that the number `random` picks.
pub open spec fn picked_step(
    nodes: Seq<LocPixNode>,
    loc: u16,
    dir: Option<u16>,
    modes: u8,
    random: u32,
) -> Option<(u16, u16, u16, u16)> {
    let steps = all_steps(nodes, loc, dir, modes);
    if steps.len() == 0 {
        None
    } else {
        Some(steps[random as int % steps.len() as int])
    }
}

fn find_back(edges: &[LocPixEdge], loc: u16) -> (dir: Option<u16>)
    ensures
        dir == first_back(edges@, loc, 0),
{
    let mut r: usize = 0;
    while r < edges.len()
        invariant
            r <= edges@.len(),
            first_back(edges@, loc, 0) == first_back(edges@, loc, r as nat),
        decreases edges@.len() - r,
    {
        if edges[r].to_loc == loc {
            return Some(edges[r].dir);
        }
        r = r + 1;
    }
    None
}

proof fn lemma_steps_grow(
    nodes: Seq<LocPixNode>,
    loc: u16,
    dir: Option<u16>,
    modes: u8,
    j: nat,
    k: nat,
)
    requires
        j <= k,
    ensures
        steps_from(nodes, loc, dir, modes, j).len() <= steps_from(
            nodes,
            loc,
            dir,
            modes,
            k,
        ).len(),
    decreases k,
{
    if j < k {
        lemma_steps_grow(nodes, loc, dir, modes, j, (k - 1) as nat);
    }
}

/// Moves a train to a neighboring location that it can go to, chosen by the number `random`, and
/// returns the pixels at which the edge begins and ends. `None`, and nothing changes, if the train
/// can go nowhere.
pub fn do_random_step_from_pixel_location(
    loc_nodes: &[LocPixNode],
    cur_loc_idx: &mut u16,
    cur_dir_opt: &mut NonMax<u16>,
    modes: &mut u8,
    random: u32,
) -> (r: Option<(u16, u16)>)
    requires
        *old(cur_loc_idx) < loc_nodes@.len(),
        forall|e: int|
            0 <= e < loc_nodes@[*old(cur_loc_idx) as int].edges@.len() ==> (
            #[trigger] loc_nodes@[*old(cur_loc_idx) as int].edges@[e]).to_loc < loc_nodes@.len(),
        all_steps(loc_nodes@, *old(cur_loc_idx), old(cur_dir_opt)@, *old(modes)).len() <= 10,
        picked_step(
            loc_nodes@,
            *old(cur_loc_idx),
            old(cur_dir_opt)@,
            *old(modes),
            random,
        ) matches Some((_, _, _, dir)) ==> dir != u16::MAX,
    ensures
        match picked_step(
            loc_nodes@,
            *old(cur_loc_idx),
            old(cur_dir_opt)@,
            *old(modes),
            random,
        ) {
            None => {
                &&& r is None
                &&& *final(cur_loc_idx) == *old(cur_loc_idx)
                &&& final(cur_dir_opt)@ == old(cur_dir_opt)@
                &&& *final(modes) == *old(modes)
            },
            Some((to_loc, from_pix, to_pix, dir)) => {
                &&& r == Some((from_pix, to_pix))
                &&& *final(cur_loc_idx) == to_loc
                &&& final(cur_dir_opt)@ == Some(dir)
                &&& *final(modes) == *old(modes) & (loc_nodes@[to_loc as int].modes
                    & loc_nodes@[*old(cur_loc_idx) as int].modes)
            },
        },
{
    let loc: u16 = *cur_loc_idx;
    let dir_opt = cur_dir_opt.as_option();
    let cur_modes: u8 = *modes;
    let cur_loc = &loc_nodes[loc as usize];
    let ghost nodes = loc_nodes@;
    let mut choices = StepChoices::new();
    let mut e: usize = 0;
    while e < cur_loc.edges.len()
        invariant
            e <= cur_loc.edges@.len(),
            nodes == loc_nodes@,
            loc < nodes.len(),
            *cur_loc == nodes[loc as int],
            forall|e: int|
                0 <= e < nodes[loc as int].edges@.len() ==> (
                #[trigger] nodes[loc as int].edges@[e]).to_loc < nodes.len(),
            all_steps(nodes, loc, dir_opt, cur_modes).len() <= 10,
            bounded::choices_of(choices) == steps_from(nodes, loc, dir_opt, cur_modes, e as nat),
        decreases cur_loc.edges@.len() - e,
    {
        let edge = &cur_loc.edges[e];
        let succ_loc = &loc_nodes[edge.to_loc as usize];
        let leaves = match dir_opt {
            Some(dir) => can_leave(dir, edge.dir),
            None => true,
        };
        proof {
            lemma_steps_grow(
                nodes,
                loc,
                dir_opt,
                cur_modes,
                (e + 1) as nat,
                cur_loc.edges@.len(),
            );
        }
        if cur_modes & succ_loc.modes != 0 && leaves {
            if let Some(back) = find_back(succ_loc.edges, loc) {
                let _ = choices.push((edge.to_loc, edge.from_pix, edge.to_pix, back));
            }
        }
        e = e + 1;
    }
    let n: usize = choices.len();
    if n == 0 {
        None
    } else {
        let choice: usize = random as usize % n;
        let (to_loc, from_pix, to_pix, dir) = choices.at(choice);
        proof {
            lemma_steps_lead_into_map(nodes, loc, dir_opt, cur_modes, cur_loc.edges@.len());
        }
        *cur_dir_opt = NonMax::new_unchecked(dir);
        *cur_loc_idx = to_loc;
        *modes = cur_modes & (loc_nodes[to_loc as usize].modes & cur_loc.modes);
        Some((from_pix, to_pix))
    }
}

proof fn lemma_steps_lead_into_map(
    nodes: Seq<LocPixNode>,
    loc: u16,
    dir: Option<u16>,
    modes: u8,
    k: nat,
)
    requires
        loc < nodes.len(),
        k <= nodes[loc as int].edges@.len(),
        forall|e: int|
            0 <= e < nodes[loc as int].edges@.len() ==> (
            #[trigger] nodes[loc as int].edges@[e]).to_loc < nodes.len(),
    ensures
        forall|i: int|
            0 <= i < steps_from(nodes, loc, dir, modes, k).len() ==> ({
                let (to_loc, _, _, _) = #[trigger] steps_from(nodes, loc, dir, modes, k)[i];
                to_loc < nodes.len()
            }),
    decreases k,
{
    if k > 0 {
        lemma_steps_lead_into_map(nodes, loc, dir, modes, (k - 1) as nat);
        let before = steps_from(nodes, loc, dir, modes, (k - 1) as nat);
        let steps = steps_from(nodes, loc, dir, modes, k);
        assert forall|i: int| 0 <= i < steps.len() implies ({
            let (to_loc, _, _, _) = #[trigger] steps[i];
            to_loc < nodes.len()
        }) by {
            if i < before.len() {
                assert(steps[i] == before[i]);
            } else {
                assert(nodes[loc as int].edges@[k - 1].to_loc < nodes.len());
            }
        }
    }
}

/// On a map whose edges say so, every step leads to a location and between pixels of the map, and
/// there are no more steps than edges.
pub proof fn lemma_steps_are_edges(
    nodes: Seq<LocPixNode>,
    loc: u16,
    dir: Option<u16>,
    modes: u8,
    k: nat,
    n: nat,
)
    requires
        config::valid_map(nodes),
        config::valid_pixels(nodes, n),
        config::valid_walk(nodes),
        loc < nodes.len(),
        k <= nodes[loc as int].edges@.len(),
    ensures
        steps_from(nodes, loc, dir, modes, k).len() <= k,
        forall|i: int|
            0 <= i < steps_from(nodes, loc, dir, modes, k).len() ==> ({
                let (to_loc, from_pix, to_pix, d) = #[trigger] steps_from(
                    nodes,
                    loc,
                    dir,
                    modes,
                    k,
                )[i];
                to_loc < nodes.len() && from_pix < n && to_pix < n && d != u16::MAX
            }),
    decreases k,
{
    if k > 0 {
        lemma_steps_are_edges(nodes, loc, dir, modes, (k - 1) as nat, n);
        let before = steps_from(nodes, loc, dir, modes, (k - 1) as nat);
        let steps = steps_from(nodes, loc, dir, modes, k);
        let edge = nodes[loc as int].edges@[k - 1];
        assert(edge.to_loc < nodes.len() && edge.from_pix < n && edge.to_pix < n);
        lemma_back_dir(nodes, edge.to_loc as int, loc, 0);
        assert forall|i: int| 0 <= i < steps.len() implies ({
            let (to_loc, from_pix, to_pix, d) = #[trigger] steps[i];
            to_loc < nodes.len() && from_pix < n && to_pix < n && d != u16::MAX
        }) by {
            if i < before.len() {
                assert(steps[i] == before[i]);
            }
        }
    }
}

proof fn lemma_back_dir(nodes: Seq<LocPixNode>, at: int, loc: u16, k: nat)
    requires
        config::valid_walk(nodes),
        0 <= at < nodes.len(),
    ensures
        first_back(nodes[at].edges@, loc, k) matches Some(d) ==> d != u16::MAX,
    decreases nodes[at].edges@.len() - k,
{
    if k < nodes[at].edges@.len() {
        assert(nodes[at].edges@[k as int].dir != u16::MAX);
        lemma_back_dir(nodes, at, loc, k + 1);
    }
}

/// A train that moves at random stays on the map.
pub proof fn lemma_random_step_stays_on_map(
    nodes: Seq<LocPixNode>,
    loc: u16,
    dir: Option<u16>,
    modes: u8,
    random: u32,
)
    requires
        config::valid_map(nodes),
        loc < nodes.len(),
    ensures
        picked_step(nodes, loc, dir, modes, random) matches Some((to_loc, _, _, _)) ==> to_loc
            < nodes.len(),
{
    lemma_steps_lead_into_map(nodes, loc, dir, modes, nodes[loc as int].edges@.len());
}

/// Whether `step` is one that a train of the transit modes `modes` can make from `loc`, which it
/// entered by the track direction `dir`: by edge number `e`, to a location where it may stop, whose
/// edge number `r` is the first to lead back. It leaves by another direction than it entered by, of
/// the same four.
pub open spec fn is_free_step(
    nodes: Seq<LocPixNode>,
    loc: u16,
    dir: Option<u16>,
    modes: u8,
    e: int,
    r: int,
    step: (u16, u16, u16, u16),
) -> bool {
    let edge = nodes[loc as int].edges@[e];
    let there = nodes[edge.to_loc as int];
    let (to_loc, from_pix, to_pix, back) = step;
    &&& 0 <= e < nodes[loc as int].edges@.len()
    &&& 0 <= r < there.edges@.len()
    &&& modes & there.modes != 0
    &&& there.edges@[r].to_loc == loc
    &&& forall|j: int| 0 <= j < r ==> (#[trigger] there.edges@[j]).to_loc != loc
    &&& dir matches Some(d) ==> d & edge.dir == 0
        && vstd::std_specs::bits::u16_trailing_zeros(d) as int / 4
        == vstd::std_specs::bits::u16_trailing_zeros(edge.dir) as int / 4
    &&& to_loc == edge.to_loc
    &&& from_pix == edge.from_pix
    &&& to_pix == edge.to_pix
    &&& back == there.edges@[r].dir
}

proof fn lemma_first_back(edges: Seq<LocPixEdge>, loc: u16, k: nat)
    ensures
        match first_back(edges, loc, k) {
            None => forall|j: int| k <= j < edges.len() ==> (#[trigger] edges[j]).to_loc != loc,
            Some(dir) => exists|r: int|
                k <= r < edges.len() && (#[trigger] edges[r]).to_loc == loc && edges[r].dir == dir
                    && forall|j: int| k <= j < r ==> (#[trigger] edges[j]).to_loc != loc,
        },
    decreases edges.len() - k,
{
    if k < edges.len() {
        if edges[k as int].to_loc != loc {
            lemma_first_back(edges, loc, k + 1);
            if let Some(dir) = first_back(edges, loc, k + 1) {
                let r = choose|r: int|
                    k + 1 <= r < edges.len() && (#[trigger] edges[r]).to_loc == loc && edges[r].dir
                        == dir && forall|j: int|
                        k + 1 <= j < r ==> (#[trigger] edges[j]).to_loc != loc;
                assert(edges[r].to_loc == loc);
            }
        } else {
            assert(edges[k as int].to_loc == loc);
        }
    }
}

proof fn lemma_step_is_free(
    nodes: Seq<LocPixNode>,
    loc: u16,
    dir: Option<u16>,
    modes: u8,
    e: int,
)
    requires
        0 <= e < nodes[loc as int].edges@.len(),
    ensures
        step_by(nodes, loc, dir, modes, nodes[loc as int].edges@[e]) matches Some(step) ==> exists|
            r: int,
        |
            is_free_step(nodes, loc, dir, modes, e, r, step),
{
    let edge = nodes[loc as int].edges@[e];
    let there = nodes[edge.to_loc as int].edges@;
    lemma_first_back(there, loc, 0);
    if let Some(step) = step_by(nodes, loc, dir, modes, edge) {
        let back = first_back(there, loc, 0)->0;
        let r = choose|r: int|
            0 <= r < there.len() && (#[trigger] there[r]).to_loc == loc && there[r].dir == back
                && forall|j: int| 0 <= j < r ==> (#[trigger] there[j]).to_loc != loc;
        assert(is_free_step(nodes, loc, dir, modes, e, r, step));
    }
}

proof fn lemma_free_step_is_taken(
    nodes: Seq<LocPixNode>,
    loc: u16,
    dir: Option<u16>,
    modes: u8,
    e: int,
    r: int,
    step: (u16, u16, u16, u16),
)
    requires
        is_free_step(nodes, loc, dir, modes, e, r, step),
    ensures
        step_by(nodes, loc, dir, modes, nodes[loc as int].edges@[e]) == Some(step),
{
    let there = nodes[nodes[loc as int].edges@[e].to_loc as int].edges@;
    lemma_first_back(there, loc, 0);
    assert(there[r].to_loc == loc);
    let back = first_back(there, loc, 0)->0;
    let q = choose|q: int|
        0 <= q < there.len() && (#[trigger] there[q]).to_loc == loc && there[q].dir == back
            && forall|j: int| 0 <= j < q ==> (#[trigger] there[j]).to_loc != loc;
    assert(q < r ==> there[q].to_loc != loc);
    assert(r < q ==> there[r].to_loc != loc);
}

/// Whether one of the first `k` edges of `loc` makes `step` possible.
pub open spec fn some_edge_frees(
    nodes: Seq<LocPixNode>,
    loc: u16,
    dir: Option<u16>,
    modes: u8,
    k: nat,
    step: (u16, u16, u16, u16),
) -> bool {
    exists|e: int, r: int| e < k && #[trigger] is_free_step(nodes, loc, dir, modes, e, r, step)
}

proof fn lemma_steps_are_free(
    nodes: Seq<LocPixNode>,
    loc: u16,
    dir: Option<u16>,
    modes: u8,
    k: nat,
    step: (u16, u16, u16, u16),
)
    requires
        k <= nodes[loc as int].edges@.len(),
    ensures
        steps_from(nodes, loc, dir, modes, k).contains(step) <==> some_edge_frees(
            nodes,
            loc,
            dir,
            modes,
            k,
            step,
        ),
    decreases k,
{
    let steps = steps_from(nodes, loc, dir, modes, k);
    if k > 0 {
        let before = steps_from(nodes, loc, dir, modes, (k - 1) as nat);
        let edge = nodes[loc as int].edges@[k - 1];
        lemma_steps_are_free(nodes, loc, dir, modes, (k - 1) as nat, step);
        lemma_step_is_free(nodes, loc, dir, modes, k - 1);
        if steps.contains(step) {
            let i = steps.index_of(step);
            if i < before.len() {
                assert(before[i] == step);
                assert(before.contains(step));
                let (e, r) = choose|e: int, r: int|
                    e < k - 1 && #[trigger] is_free_step(nodes, loc, dir, modes, e, r, step);
                assert(is_free_step(nodes, loc, dir, modes, e, r, step));
            } else {
                let e = k - 1;
                let r = choose|r: int| is_free_step(nodes, loc, dir, modes, e, r, step);
                assert(is_free_step(nodes, loc, dir, modes, e, r, step));
            }
        }
        if some_edge_frees(nodes, loc, dir, modes, k, step) {
            let (e, r) = choose|e: int, r: int|
                e < k && #[trigger] is_free_step(nodes, loc, dir, modes, e, r, step);
            if e < k - 1 {
                assert(some_edge_frees(nodes, loc, dir, modes, (k - 1) as nat, step));
                let i = before.index_of(step);
                assert(steps[i] == step);
            } else {
                lemma_free_step_is_taken(nodes, loc, dir, modes, e, r, step);
                assert(steps[before.len() as int] == step);
            }
        }
    }
}

/// A random step is one that the train can make, every step that it can make is picked by some
/// number, and the train stays where it is only if it can make none.
pub proof fn lemma_random_step_is_free(
    nodes: Seq<LocPixNode>,
    loc: u16,
    dir: Option<u16>,
    modes: u8,
    random: u32,
    e: int,
    r: int,
    step: (u16, u16, u16, u16),
)
    requires
        nodes[loc as int].edges@.len() <= u32::MAX,
    ensures
        picked_step(nodes, loc, dir, modes, random) matches Some(s) ==> some_edge_frees(
            nodes,
            loc,
            dir,
            modes,
            nodes[loc as int].edges@.len(),
            s,
        ),
        is_free_step(nodes, loc, dir, modes, e, r, step) ==> {
            &&& picked_step(nodes, loc, dir, modes, random) is Some
            &&& exists|x: u32| #[trigger] picked_step(nodes, loc, dir, modes, x) == Some(step)
        },
{
    let n = nodes[loc as int].edges@.len();
    let steps = all_steps(nodes, loc, dir, modes);
    lemma_steps_no_more_than_edges(nodes, loc, dir, modes, n);
    if let Some(s) = picked_step(nodes, loc, dir, modes, random) {
        assert(0 <= random as int % steps.len() as int);
        assert((random as int % steps.len() as int) < steps.len());
        assert(steps.contains(s));
        lemma_steps_are_free(nodes, loc, dir, modes, n, s);
    }
    if is_free_step(nodes, loc, dir, modes, e, r, step) {
        assert(some_edge_frees(nodes, loc, dir, modes, n, step));
        lemma_steps_are_free(nodes, loc, dir, modes, n, step);
        let i = steps.index_of(step);
        vstd::arithmetic::div_mod::lemma_small_mod(i as nat, steps.len());
        assert(picked_step(nodes, loc, dir, modes, i as u32) == Some(step));
    }
}

proof fn lemma_steps_no_more_than_edges(
    nodes: Seq<LocPixNode>,
    loc: u16,
    dir: Option<u16>,
    modes: u8,
    k: nat,
)
    ensures
        steps_from(nodes, loc, dir, modes, k).len() <= k,
    decreases k,
{
    if k > 0 {
        lemma_steps_no_more_than_edges(nodes, loc, dir, modes, (k - 1) as nat);
    }
}

/// Random numbers pick the steps in turn: the first numbers one step each, and then over again.
pub proof fn lemma_random_steps_in_turn(
    nodes: Seq<LocPixNode>,
    loc: u16,
    dir: Option<u16>,
    modes: u8,
    random: u32,
)
    requires
        random + all_steps(nodes, loc, dir, modes).len() <= u32::MAX,
    ensures
        ({
            let steps = all_steps(nodes, loc, dir, modes);
            &&& random < steps.len() ==> picked_step(nodes, loc, dir, modes, random) == Some(
                steps[random as int],
            )
            &&& picked_step(nodes, loc, dir, modes, (random + steps.len()) as u32) == picked_step(
                nodes,
                loc,
                dir,
                modes,
                random,
            )
        }),
{
    let n = all_steps(nodes, loc, dir, modes).len();
    if n > 0 {
        vstd::arithmetic::div_mod::lemma_mod_add_multiples_vanish(random as int, n as int);
        if random < n {
            vstd::arithmetic::div_mod::lemma_small_mod(random as nat, n);
        }
    }
}

} // verus!
