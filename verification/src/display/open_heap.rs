//! The open list of the path search: a binary min-heap on a borrowed slice, ordered by the
//! estimated total cost of its nodes.

use vstd::prelude::*;

verus! {

/// A way to a location from which the path search may go on.
#[derive(Copy, Clone)]
pub struct OpenLocNode {
    /// Index of the location.
    pub idx: u16,
    /// Number of the way by which it is reached.
    pub way: usize,
    /// Estimated cost of a path that goes on from here.
    pub f: i64,
}

impl Default for OpenLocNode {
    fn default() -> (n: Self)
        ensures
            n == (OpenLocNode { idx: 0, way: 0, f: 0 }),
    {
        OpenLocNode { idx: 0, way: 0, f: 0 }
    }
}

/// `h` with the elements at `a` and `b` exchanged.
pub open spec fn exchanged(h: Seq<OpenLocNode>, a: int, b: int) -> Seq<OpenLocNode> {
    h.update(a, h[b]).update(b, h[a])
}

/// `h` after the element at `i` has climbed to where no parent costs more than it.
pub open spec fn sifted_up(h: Seq<OpenLocNode>, i: int) -> Seq<OpenLocNode>
    decreases i,
{
    if i <= 0 {
        h
    } else {
        let p = (i - 1) / 2;
        if h[p].f <= h[i].f {
            h
        } else {
            sifted_up(exchanged(h, p, i), p)
        }
    }
}

/// The cheaper child of `i`, the left one of two that cost the same. `i` has a left child.
pub open spec fn cheaper_child(h: Seq<OpenLocNode>, i: int) -> int {
    let l = 2 * i + 1;
    if l + 1 < h.len() && h[l + 1].f < h[l].f {
        l + 1
    } else {
        l
    }
}

/// `h` after the element at `i` has sunk to where no child costs less than it.
pub open spec fn sifted_down(h: Seq<OpenLocNode>, i: int) -> Seq<OpenLocNode>
    decreases h.len() - i,
    when 0 <= i
{
    if 2 * i + 1 >= h.len() {
        h
    } else {
        let c = cheaper_child(h, i);
        if h[i].f <= h[c].f {
            h
        } else {
            sifted_down(exchanged(h, i, c), c)
        }
    }
}

/// The heap `h` with `node` added.
pub open spec fn pushed(h: Seq<OpenLocNode>, node: OpenLocNode) -> Seq<OpenLocNode> {
    sifted_up(h.push(node), h.len() as int)
}

/// The heap `h` with its root taken out. `h` is not empty.
pub open spec fn popped(h: Seq<OpenLocNode>) -> Seq<OpenLocNode> {
    if h.len() <= 1 {
        Seq::empty()
    } else {
        sifted_down(h.drop_last().update(0, h.last()), 0)
    }
}

/// No element costs less than its parent.
pub open spec fn is_heap(h: Seq<OpenLocNode>) -> bool {
    forall|i: int| 0 < i < h.len() ==> h[(i - 1) / 2].f <= (#[trigger] h[i]).f
}

/// Adds `node` to the heap that fills the first `heap_len` elements of `heap`. Gives `false`, and
/// changes nothing, if there is no room for it.
pub fn heap_push(heap: &mut [OpenLocNode], heap_len: &mut usize, node: OpenLocNode) -> (ok: bool)
    requires
        *old(heap_len) <= old(heap)@.len(),
    ensures
        final(heap)@.len() == old(heap)@.len(),
        ok == (*old(heap_len) < old(heap)@.len()),
        ok ==> {
            &&& *final(heap_len) == *old(heap_len) + 1
            &&& final(heap)@.take(*final(heap_len) as int) == pushed(
                old(heap)@.take(*old(heap_len) as int),
                node,
            )
            &&& final(heap)@.skip(*final(heap_len) as int) == old(heap)@.skip(
                *final(heap_len) as int,
            )
        },
        !ok ==> *final(heap_len) == *old(heap_len) && final(heap)@ == old(heap)@,
{
    if *heap_len >= heap.len() {
        return false;
    }
    let ghost before = heap@.take(*heap_len as int);
    let ghost rest = heap@.skip(*heap_len + 1);
    let mut i: usize = *heap_len;
    heap[i] = node;
    *heap_len = *heap_len + 1;
    let n: usize = *heap_len;
    assert(heap@.take(n as int) =~= before.push(node));
    assert(heap@.skip(n as int) =~= rest);
    while i > 0
        invariant
            i < n <= heap@.len(),
            heap@.len() == old(heap)@.len(),
            sifted_up(heap@.take(n as int), i as int) == pushed(before, node),
            heap@.skip(n as int) == rest,
        ensures
            heap@.len() == old(heap)@.len(),
            heap@.take(n as int) == pushed(before, node),
            heap@.skip(n as int) == rest,
        decreases i,
    {
        let p: usize = (i - 1) / 2;
        let parent = heap[p];
        let child = heap[i];
        if parent.f <= child.f {
            break;
        }
        let ghost h = heap@;
        heap[p] = child;
        heap[i] = parent;
        assert(heap@.take(n as int) =~= exchanged(h.take(n as int), p as int, i as int));
        assert(heap@.skip(n as int) =~= h.skip(n as int));
        i = p;
    }
    true
}

/// Takes the root out of the heap that fills the first `heap_len` elements of `heap`.
pub fn heap_pop(heap: &mut [OpenLocNode], heap_len: &mut usize) -> (root: OpenLocNode)
    requires
        0 < *old(heap_len) <= old(heap)@.len(),
    ensures
        final(heap)@.len() == old(heap)@.len(),
        root == old(heap)@[0],
        *final(heap_len) == *old(heap_len) - 1,
        final(heap)@.take(*final(heap_len) as int) == popped(
            old(heap)@.take(*old(heap_len) as int),
        ),
        final(heap)@.skip(*final(heap_len) as int) == old(heap)@.skip(*final(heap_len) as int),
        final(heap)@.skip(*old(heap_len) as int) == old(heap)@.skip(*old(heap_len) as int),
{
    let ghost before = heap@.take(*heap_len as int);
    let root = heap[0];
    *heap_len = *heap_len - 1;
    let n: usize = *heap_len;
    let last = heap[n];
    let ghost rest = heap@.skip(n as int);
    heap[0] = last;
    assert(heap@.skip(n as int) =~= rest);
    let ghost start = heap@.take(n as int);
    assert(n > 0 ==> start =~= before.drop_last().update(0, before.last()));
    assert(n == 0 ==> start =~= Seq::<OpenLocNode>::empty());
    let mut i: usize = 0;
    loop
        invariant
            n < heap@.len(),
            heap@.len() == old(heap)@.len(),
            n > 0 ==> i < n,
            n == 0 ==> i == 0,
            sifted_down(heap@.take(n as int), i as int) == popped(before),
            heap@.skip(n as int) == rest,
        ensures
            heap@.len() == old(heap)@.len(),
            heap@.take(n as int) == popped(before),
            heap@.skip(n as int) == rest,
        decreases n - i,
    {
        if n == 0 || i > (n - 1) / 2 || i * 2 + 1 >= n {
            break;
        }
        let l: usize = i * 2 + 1;
        let r: usize = l + 1;
        let c: usize = if r < n && heap[r].f < heap[l].f {
            r
        } else {
            l
        };
        let parent = heap[i];
        let child = heap[c];
        if parent.f <= child.f {
            break;
        }
        let ghost h = heap@;
        heap[i] = child;
        heap[c] = parent;
        assert(heap@.take(n as int) =~= exchanged(h.take(n as int), i as int, c as int));
        assert(heap@.skip(n as int) =~= h.skip(n as int));
        i = c;
    }
    assert(heap@.skip(n + 1) =~= heap@.skip(n as int).skip(1));
    assert(old(heap)@.skip(n + 1) =~= rest.skip(1));
    root
}

/// `h` is a heap, but for the element at `i`, which may cost less than its parent.
spec fn is_heap_but_up(h: Seq<OpenLocNode>, i: int) -> bool {
    &&& forall|j: int| 0 < j < h.len() && j != i ==> h[(j - 1) / 2].f <= (#[trigger] h[j]).f
    &&& forall|j: int|
        0 < j < h.len() && 0 < i && (j - 1) / 2 == i ==> h[(i - 1) / 2].f <= (#[trigger] h[j]).f
}

/// `h` is a heap, but for the element at `i`, which may cost more than its children.
spec fn is_heap_but_down(h: Seq<OpenLocNode>, i: int) -> bool {
    &&& forall|j: int|
        0 < j < h.len() && (j - 1) / 2 != i ==> h[(j - 1) / 2].f <= (#[trigger] h[j]).f
    &&& forall|j: int|
        0 < j < h.len() && 0 < i && (j - 1) / 2 == i ==> h[(i - 1) / 2].f <= (#[trigger] h[j]).f
}

proof fn lemma_update_multiset(h: Seq<OpenLocNode>, i: int, node: OpenLocNode)
    requires
        0 <= i < h.len(),
    ensures
        h.update(i, node).to_multiset() == h.to_multiset().remove(h[i]).insert(node),
{
    broadcast use vstd::seq_lib::group_to_multiset_ensures;

    assert(h.update(i, node) =~= h.remove(i).insert(i, node));
}

proof fn lemma_exchanged_multiset(h: Seq<OpenLocNode>, a: int, b: int)
    requires
        0 <= a < h.len(),
        0 <= b < h.len(),
    ensures
        exchanged(h, a, b).to_multiset() == h.to_multiset(),
{
    broadcast use vstd::seq_lib::group_to_multiset_ensures;

    lemma_update_multiset(h, a, h[b]);
    lemma_update_multiset(h.update(a, h[b]), b, h[a]);
    assert(h.contains(h[a]) && h.contains(h[b]));
    assert(exchanged(h, a, b).to_multiset() =~= h.to_multiset());
}

proof fn lemma_sifted_up(h: Seq<OpenLocNode>, i: int)
    requires
        0 <= i < h.len(),
    ensures
        sifted_up(h, i).len() == h.len(),
        sifted_up(h, i).to_multiset() == h.to_multiset(),
        is_heap_but_up(h, i) ==> is_heap(sifted_up(h, i)),
    decreases i,
{
    if i > 0 {
        let p = (i - 1) / 2;
        if h[p].f > h[i].f {
            lemma_exchanged_multiset(h, p, i);
            lemma_sifted_up(exchanged(h, p, i), p);
        }
    }
}

proof fn lemma_sifted_down(h: Seq<OpenLocNode>, i: int)
    requires
        0 <= i,
    ensures
        sifted_down(h, i).len() == h.len(),
        sifted_down(h, i).to_multiset() == h.to_multiset(),
        is_heap_but_down(h, i) ==> is_heap(sifted_down(h, i)),
    decreases h.len() - i,
{
    if 2 * i + 1 < h.len() {
        let c = cheaper_child(h, i);
        if h[i].f > h[c].f {
            lemma_exchanged_multiset(h, i, c);
            lemma_sifted_down(exchanged(h, i, c), c);
        }
    }
}

/// Adding a node keeps the heap a heap, and adds exactly that node.
pub proof fn lemma_push_keeps_heap(h: Seq<OpenLocNode>, node: OpenLocNode)
    ensures
        pushed(h, node).len() == h.len() + 1,
        pushed(h, node).to_multiset() == h.to_multiset().insert(node),
        is_heap(h) ==> is_heap(pushed(h, node)),
{
    broadcast use vstd::seq_lib::group_to_multiset_ensures;

    let g = h.push(node);
    lemma_sifted_up(g, h.len() as int);
    if is_heap(h) {
        assert forall|j: int| 0 < j < g.len() && j != h.len() implies g[(j - 1) / 2].f <= (
        #[trigger] g[j]).f by {
            assert(g[j] == h[j]);
        }
    }
}

/// Taking the root out keeps the heap a heap, and takes out exactly that node.
pub proof fn lemma_pop_keeps_heap(h: Seq<OpenLocNode>)
    requires
        h.len() > 0,
    ensures
        popped(h).len() == h.len() - 1,
        popped(h).to_multiset() == h.to_multiset().remove(h[0]),
        is_heap(h) ==> is_heap(popped(h)),
{
    broadcast use vstd::seq_lib::group_to_multiset_ensures;

    let last = h.last();
    assert(h.drop_last() =~= h.remove(h.len() - 1));
    if h.len() == 1 {
        assert(popped(h) =~= h.remove(0));
    } else {
        let g = h.drop_last().update(0, last);
        lemma_update_multiset(h.drop_last(), 0, last);
        assert(h.contains(last) && h.drop_last().contains(h[0])) by {
            assert(h[h.len() - 1] == last);
            assert(h.drop_last()[0] == h[0]);
        }
        assert(g.to_multiset() =~= h.to_multiset().remove(h[0]));
        lemma_sifted_down(g, 0);
        if is_heap(h) {
            assert forall|j: int| 0 < j < g.len() && (j - 1) / 2 != 0 implies g[(j - 1) / 2].f <= (
            #[trigger] g[j]).f by {
                assert(g[j] == h[j]);
            }
        }
    }
}

/// The root of a heap costs no more than any of its nodes.
pub proof fn lemma_root_is_cheapest(h: Seq<OpenLocNode>, i: int)
    requires
        is_heap(h),
        0 <= i < h.len(),
    ensures
        h[0].f <= h[i].f,
    decreases i,
{
    if i > 0 {
        lemma_root_is_cheapest(h, (i - 1) / 2);
    }
}

/// A property that holds of all nodes and of a new one holds of all nodes after the push.
pub proof fn lemma_push_keeps_all(
    h: Seq<OpenLocNode>,
    node: OpenLocNode,
    p: spec_fn(OpenLocNode) -> bool,
)
    requires
        forall|i: int| 0 <= i < h.len() ==> p(#[trigger] h[i]),
        p(node),
    ensures
        forall|i: int| 0 <= i < pushed(h, node).len() ==> p(#[trigger] pushed(h, node)[i]),
{
    broadcast use vstd::seq_lib::group_to_multiset_ensures;

    lemma_push_keeps_heap(h, node);
    let g = pushed(h, node);
    assert forall|i: int| 0 <= i < g.len() implies p(#[trigger] g[i]) by {
        assert(g.contains(g[i]));
        assert(g.to_multiset().count(g[i]) > 0);
        assert(g[i] == node || h.contains(g[i]));
    }
}

/// A property that holds of all nodes still does once the root is taken out.
pub proof fn lemma_pop_keeps_all(h: Seq<OpenLocNode>, p: spec_fn(OpenLocNode) -> bool)
    requires
        h.len() > 0,
        forall|i: int| 0 <= i < h.len() ==> p(#[trigger] h[i]),
    ensures
        forall|i: int| 0 <= i < popped(h).len() ==> p(#[trigger] popped(h)[i]),
{
    broadcast use vstd::seq_lib::group_to_multiset_ensures;

    lemma_pop_keeps_heap(h);
    let g = popped(h);
    assert forall|i: int| 0 <= i < g.len() implies p(#[trigger] g[i]) by {
        assert(g.contains(g[i]));
        assert(g.to_multiset().count(g[i]) > 0);
        assert(h.contains(g[i]));
    }
}

/// A push loses no node.
pub proof fn lemma_push_keeps_nodes(h: Seq<OpenLocNode>, node: OpenLocNode)
    ensures
        pushed(h, node).contains(node),
        forall|x: OpenLocNode| #[trigger] h.contains(x) ==> pushed(h, node).contains(x),
{
    broadcast use vstd::seq_lib::group_to_multiset_ensures;

    lemma_push_keeps_heap(h, node);
    let g = pushed(h, node);
    assert(g.to_multiset().count(node) > 0);
    assert forall|x: OpenLocNode| #[trigger] h.contains(x) implies g.contains(x) by {
        assert(h.to_multiset().count(x) > 0);
        assert(g.to_multiset().count(x) > 0);
    }
}

/// Taking the root out loses no other node.
pub proof fn lemma_pop_keeps_nodes(h: Seq<OpenLocNode>)
    requires
        h.len() > 0,
    ensures
        forall|x: OpenLocNode| #[trigger] h.contains(x) && x != h[0] ==> popped(h).contains(x),
{
    broadcast use vstd::seq_lib::group_to_multiset_ensures;

    lemma_pop_keeps_heap(h);
    let g = popped(h);
    assert forall|x: OpenLocNode| #[trigger] h.contains(x) && x != h[0] implies g.contains(x) by {
        assert(h.to_multiset().count(x) > 0);
        assert(g.to_multiset().count(x) > 0);
    }
}

/// The heap that nodes make up once they have been added one after the other.
pub open spec fn all_pushed(nodes: Seq<OpenLocNode>) -> Seq<OpenLocNode>
    decreases nodes.len(),
{
    if nodes.len() == 0 {
        Seq::empty()
    } else {
        pushed(all_pushed(nodes.drop_last()), nodes.last())
    }
}

/// The first `n` nodes that are taken out of a heap, in that order.
pub open spec fn taken_out(h: Seq<OpenLocNode>, n: nat) -> Seq<OpenLocNode>
    decreases n,
{
    if n == 0 {
        Seq::empty()
    } else {
        seq![h[0]] + taken_out(popped(h), (n - 1) as nat)
    }
}

proof fn lemma_all_pushed(nodes: Seq<OpenLocNode>)
    ensures
        is_heap(all_pushed(nodes)),
        all_pushed(nodes).len() == nodes.len(),
        all_pushed(nodes).to_multiset() == nodes.to_multiset(),
    decreases nodes.len(),
{
    broadcast use vstd::seq_lib::group_to_multiset_ensures;

    if nodes.len() == 0 {
        assert(nodes =~= Seq::empty());
    } else {
        lemma_all_pushed(nodes.drop_last());
        lemma_push_keeps_heap(all_pushed(nodes.drop_last()), nodes.last());
        assert(nodes =~= nodes.drop_last().push(nodes.last()));
    }
}

proof fn lemma_taken_out(h: Seq<OpenLocNode>)
    requires
        is_heap(h),
    ensures
        taken_out(h, h.len()).len() == h.len(),
        taken_out(h, h.len()).to_multiset() == h.to_multiset(),
        forall|i: int, j: int|
            0 <= i <= j < h.len() ==> (#[trigger] taken_out(h, h.len())[i]).f <= (
            #[trigger] taken_out(h, h.len())[j]).f,
    decreases h.len(),
{
    broadcast use vstd::seq_lib::group_to_multiset_ensures;

    if h.len() == 0 {
        assert(h =~= Seq::empty());
    } else {
        lemma_pop_keeps_heap(h);
        let rest = popped(h);
        let tail = taken_out(rest, rest.len());
        let all = taken_out(h, h.len());
        lemma_taken_out(rest);
        assert(all == seq![h[0]] + tail);
        assert(all.drop_first() =~= tail);
        assert(h.to_multiset().count(h[0]) > 0) by {
            assert(h.contains(h[0]));
        }
        assert(all =~= tail.insert(0, h[0]));
        assert(all.to_multiset() =~= h.to_multiset());
        assert forall|i: int, j: int| 0 <= i <= j < h.len() implies (#[trigger] all[i]).f <= (
        #[trigger] all[j]).f by {
            if i > 0 {
                assert(all[i] == tail[i - 1] && all[j] == tail[j - 1]);
            } else if j > 0 {
                assert(all[j] == tail[j - 1]);
                assert(tail.contains(tail[j - 1]));
                assert(rest.to_multiset().count(tail[j - 1]) > 0);
                assert(h.to_multiset().count(tail[j - 1]) > 0);
                assert(h.contains(tail[j - 1]));
                let k = h.index_of(tail[j - 1]);
                lemma_root_is_cheapest(h, k);
            }
        }
    }
}

/// Nodes that are added one after the other and then taken out come out in the order of their costs,
/// each as often as it went in.
pub proof fn lemma_taken_out_in_order(nodes: Seq<OpenLocNode>)
    ensures
        ({
            let out = taken_out(all_pushed(nodes), nodes.len());
            &&& out.len() == nodes.len()
            &&& out.to_multiset() == nodes.to_multiset()
            &&& forall|i: int, j: int|
                0 <= i <= j < out.len() ==> (#[trigger] out[i]).f <= (#[trigger] out[j]).f
        }),
{
    lemma_all_pushed(nodes);
    lemma_taken_out(all_pushed(nodes));
}

} // verus!
