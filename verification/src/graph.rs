//! Connectivity of the tile graph whose edges are measured shared boundaries.

use vstd::prelude::*;

verus! {

/// One measured relationship between two tiles. Only links with a positive
/// weight join their tiles.
#[derive(Clone, Copy, Debug, PartialEq, Eq, Structural)]
pub struct TileLink {
    pub left_or_top: usize,
    pub right_or_bottom: usize,
    pub positive_weight: bool,
}

/// Tiles `a` and `b` share a positively weighted link (in either direction).
pub open spec fn joins(links: Seq<TileLink>, a: usize, b: usize) -> bool {
    exists|i: int|
        0 <= i < links.len() && #[trigger] links[i].positive_weight && ((links[i].left_or_top == a
            && links[i].right_or_bottom == b) || (links[i].left_or_top == b
            && links[i].right_or_bottom == a))
}

/// Consecutive tiles of `path` are joined.
pub open spec fn is_walk(links: Seq<TileLink>, path: Seq<usize>) -> bool {
    &&& path.len() >= 1
    &&& forall|i: int| 0 <= i < path.len() - 1 ==> joins(links, #[trigger] path[i], path[i + 1])
}

/// Tile `b` can be reached from tile `a` through joined tiles.
pub open spec fn reachable(links: Seq<TileLink>, a: usize, b: usize) -> bool {
    exists|path: Seq<usize>| #[trigger] is_walk(links, path) && path[0] == a && path.last() == b
}

/// Every link names tiles of a graph with `tile_count` tiles.
pub open spec fn links_in_range(links: Seq<TileLink>, tile_count: usize) -> bool {
    forall|i: int|
        0 <= i < links.len() ==> (#[trigger] links[i]).left_or_top < tile_count
            && links[i].right_or_bottom < tile_count
}

/// Every tile reachable from a marked tile is marked.
pub open spec fn closed(links: Seq<TileLink>, marked: spec_fn(usize) -> bool) -> bool {
    forall|a: usize, b: usize| marked(a) && #[trigger] joins(links, a, b) ==> marked(b)
}

/// No tile occurs twice in `s`.
pub open spec fn distinct_tiles(s: Seq<usize>) -> bool {
    forall|i: int, j: int| 0 <= i < j < s.len() ==> s[i] != s[j]
}

/// The tiles of `s` are listed in strictly ascending order.
pub open spec fn ascending(s: Seq<usize>) -> bool {
    forall|i: int, j: int| 0 <= i < j < s.len() ==> s[i] < s[j]
}

/// Some component lists tile `v`.
pub open spec fn in_some_component(components: Seq<Seq<usize>>, v: usize) -> bool {
    exists|k: int| 0 <= k < components.len() && #[trigger] components[k].contains(v)
}

/// The components of the graph in the order in which they are found: each
/// lists, in ascending order, exactly the tiles reachable from its first
/// tile, the first tiles ascend, and every tile lies in a component.
pub open spec fn are_components(
    links: Seq<TileLink>,
    tile_count: usize,
    components: Seq<Seq<usize>>,
) -> bool {
    &&& forall|v: usize| v < tile_count ==> #[trigger] in_some_component(components, v)
    &&& forall|k: int| 0 <= k < components.len() ==> #[trigger] components[k].len() > 0 && ascending(components[k])
    &&& forall|k: int, v: usize|
        0 <= k < components.len() ==> (#[trigger] components[k].contains(v) <==> (v < tile_count
            && reachable(links, components[k][0], v)))
    &&& forall|k: int, j: int| 0 <= k < j < components.len() ==> #[trigger] components[k][0] < #[trigger] components[j][0]
}

// ----------------------------------------------------------------------
// Reachability is an equivalence relation.
/// Every tile reaches itself.
pub proof fn lemma_reachable_reflexive(links: Seq<TileLink>, a: usize)
    ensures
        reachable(links, a, a),
{
    let path = seq![a];
    assert(is_walk(links, path));
}

/// A tile joined to a reachable tile is reachable.
pub proof fn lemma_reachable_extend(links: Seq<TileLink>, a: usize, u: usize, w: usize)
    requires
        reachable(links, a, u),
        joins(links, u, w),
    ensures
        reachable(links, a, w),
{
    let path = choose|path: Seq<usize>| #[trigger] is_walk(links, path) && path[0] == a && path.last() == u;
    let longer = path.push(w);
    assert forall|i: int| 0 <= i < longer.len() - 1 implies joins(links, #[trigger] longer[i], longer[i + 1]) by {
        if i < path.len() - 1 {
            assert(longer[i] == path[i] && longer[i + 1] == path[i + 1]);
        } else {
            assert(longer[i] == u);
        }
    }
    assert(is_walk(links, longer));
}

proof fn lemma_joins_symmetric(links: Seq<TileLink>, a: usize, b: usize)
    requires
        joins(links, a, b),
    ensures
        joins(links, b, a),
{
    let i = choose|i: int|
        0 <= i < links.len() && #[trigger] links[i].positive_weight && ((links[i].left_or_top == a
            && links[i].right_or_bottom == b) || (links[i].left_or_top == b
            && links[i].right_or_bottom == a));
    assert(links[i].positive_weight);
}

/// Links join in both directions, so reachability is symmetric.
pub proof fn lemma_reachable_symmetric(links: Seq<TileLink>, a: usize, b: usize)
    requires
        reachable(links, a, b),
    ensures
        reachable(links, b, a),
{
    let path = choose|path: Seq<usize>| #[trigger] is_walk(links, path) && path[0] == a && path.last() == b;
    let back = path.reverse();
    assert forall|i: int| 0 <= i < back.len() - 1 implies joins(links, #[trigger] back[i], back[i + 1]) by {
        let j = path.len() - 2 - i;
        assert(back[i] == path[j + 1]);
        assert(back[i + 1] == path[j]);
        assert(joins(links, path[j], path[j + 1]));
        lemma_joins_symmetric(links, path[j], path[j + 1]);
    }
    assert(is_walk(links, back));
    assert(back[0] == b);
    assert(back.last() == a);
}

/// Reachability composes.
pub proof fn lemma_reachable_transitive(links: Seq<TileLink>, a: usize, b: usize, c: usize)
    requires
        reachable(links, a, b),
        reachable(links, b, c),
    ensures
        reachable(links, a, c),
{
    let p = choose|path: Seq<usize>| #[trigger] is_walk(links, path) && path[0] == b && path.last() == c;
    lemma_reachable_along(links, a, p, 1);
}

/// Walking further along `p` (which starts where a reachable tile is) stays
/// reachable.
proof fn lemma_reachable_along(links: Seq<TileLink>, a: usize, p: Seq<usize>, k: int)
    requires
        is_walk(links, p),
        reachable(links, a, p[0]),
        1 <= k <= p.len(),
    ensures
        reachable(links, a, p.last()),
    decreases p.len() - k,
{
    if k < p.len() {
        lemma_reachable_prefix(links, a, p, k);
        lemma_reachable_along(links, a, p, k + 1);
    } else {
        lemma_reachable_prefix(links, a, p, k);
    }
}

proof fn lemma_reachable_prefix(links: Seq<TileLink>, a: usize, p: Seq<usize>, k: int)
    requires
        is_walk(links, p),
        reachable(links, a, p[0]),
        1 <= k <= p.len(),
    ensures
        reachable(links, a, p[k - 1]),
    decreases k,
{
    if k > 1 {
        lemma_reachable_prefix(links, a, p, k - 1);
        assert(joins(links, p[k - 2], p[k - 1]));
        lemma_reachable_extend(links, a, p[k - 2], p[k - 1]);
    }
}

/// A marked set that is closed under links holds everything reachable from
/// any of its tiles.
pub proof fn lemma_closed_holds_reachable(
    links: Seq<TileLink>,
    marked: spec_fn(usize) -> bool,
    a: usize,
    b: usize,
)
    requires
        closed(links, marked),
        marked(a),
        reachable(links, a, b),
    ensures
        marked(b),
{
    let p = choose|path: Seq<usize>| #[trigger] is_walk(links, path) && path[0] == a && path.last() == b;
    lemma_closed_walk(links, marked, p, p.len() as int);
}

proof fn lemma_closed_walk(links: Seq<TileLink>, marked: spec_fn(usize) -> bool, p: Seq<usize>, k: int)
    requires
        closed(links, marked),
        is_walk(links, p),
        marked(p[0]),
        1 <= k <= p.len(),
    ensures
        marked(p[k - 1]),
    decreases k,
{
    if k > 1 {
        lemma_closed_walk(links, marked, p, k - 1);
        assert(joins(links, p[k - 2], p[k - 1]));
    }
}

// ----------------------------------------------------------------------
// Executable search.

/// Number of unmarked tiles.
spec fn count_unseen(seen: Seq<bool>) -> nat
    decreases seen.len(),
{
    if seen.len() == 0 {
        0
    } else {
        (if seen.last() {
            0nat
        } else {
            1nat
        }) + count_unseen(seen.drop_last())
    }
}

proof fn lemma_count_unseen_mark(seen: Seq<bool>, i: int)
    requires
        0 <= i < seen.len(),
        !seen[i],
    ensures
        count_unseen(seen.update(i, true)) + 1 == count_unseen(seen),
    decreases seen.len(),
{
    let t = seen.update(i, true);
    if i == seen.len() - 1 {
        assert(t.drop_last() =~= seen.drop_last());
    } else {
        assert(t.drop_last() =~= seen.drop_last().update(i, true));
        lemma_count_unseen_mark(seen.drop_last(), i);
    }
}

/// Adjacency lists that list exactly the joined tiles of each tile.
spec fn adjacency_matches(adjacency: Seq<Vec<usize>>, links: Seq<TileLink>, tile_count: usize) -> bool {
    &&& adjacency.len() == tile_count
    &&& forall|a: int, b: usize| 0 <= a < tile_count ==> (#[trigger] adjacency[a]@.contains(b) <==> joins(links, a as usize, b))
    &&& forall|a: int, j: int| 0 <= a < tile_count && 0 <= j < adjacency[a]@.len() ==> #[trigger] adjacency[a]@[j] < tile_count
}

/// Links joining `a` and `b` among the first `count` links.
spec fn joins_prefix(links: Seq<TileLink>, count: int, a: usize, b: usize) -> bool {
    joins(links.take(count), a, b)
}

fn build_adjacency(tile_count: usize, links: &Vec<TileLink>) -> (adjacency: Vec<Vec<usize>>)
    requires
        links_in_range(links@, tile_count),
    ensures
        adjacency_matches(adjacency@, links@, tile_count),
{
    let mut adjacency: Vec<Vec<usize>> = Vec::new();
    let mut t: usize = 0;
    while t < tile_count
        invariant
            t <= tile_count,
            adjacency@.len() == t,
            forall|a: int| 0 <= a < t ==> #[trigger] adjacency@[a]@.len() == 0,
        decreases tile_count - t,
    {
        adjacency.push(Vec::new());
        t = t + 1;
    }
    let mut i: usize = 0;
    while i < links.len()
        invariant
            i <= links.len(),
            links_in_range(links@, tile_count),
            adjacency@.len() == tile_count,
            forall|a: int, b: usize| 0 <= a < tile_count ==> (#[trigger] adjacency@[a]@.contains(b) <==> joins(links@.take(i as int), a as usize, b)),
            forall|a: int, j: int| 0 <= a < tile_count && 0 <= j < adjacency@[a]@.len() ==> #[trigger] adjacency@[a]@[j] < tile_count,
        decreases links.len() - i,
    {
        let link = links[i];
        let ghost before = adjacency@;
        let ghost prefix = links@.take(i as int);
        let ghost next = links@.take(i + 1);
        assert(next =~= prefix.push(link));
        if link.positive_weight {
            let a = link.left_or_top;
            let b = link.right_or_bottom;
            adjacency[a].push(b);
            adjacency[b].push(a);
            assert forall|x: int, y: usize| 0 <= x < tile_count implies (#[trigger] adjacency@[x]@.contains(y) <==> joins(next, x as usize, y)) by {
                if joins(next, x as usize, y) && !joins(prefix, x as usize, y) {
                    let k = choose|k: int|
                        0 <= k < next.len() && #[trigger] next[k].positive_weight && ((next[k].left_or_top == x as usize
                            && next[k].right_or_bottom == y) || (next[k].left_or_top == y
                            && next[k].right_or_bottom == x as usize));
                    if k < i {
                        assert(prefix[k] == next[k]);
                        assert(prefix[k].positive_weight);
                    }
                    if x == a as int && y == b {
                        assert(adjacency@[x]@.last() == y);
                    } else {
                        assert(adjacency@[x]@.last() == y);
                    }
                }
                if joins(prefix, x as usize, y) {
                    let k = choose|k: int|
                        0 <= k < prefix.len() && #[trigger] prefix[k].positive_weight && ((prefix[k].left_or_top == x as usize
                            && prefix[k].right_or_bottom == y) || (prefix[k].left_or_top == y
                            && prefix[k].right_or_bottom == x as usize));
                    assert(next[k] == prefix[k]);
                    assert(next[k].positive_weight);
                    assert(before[x]@.contains(y));
                    let m = choose|m: int| 0 <= m < before[x]@.len() && before[x]@[m] == y;
                    assert(adjacency@[x]@[m] == y);
                }
                if adjacency@[x]@.contains(y) {
                    let m = choose|m: int| 0 <= m < adjacency@[x]@.len() && adjacency@[x]@[m] == y;
                    if m < before[x]@.len() {
                        assert(before[x]@[m] == y);
                        assert(before[x]@.contains(y));
                        assert(joins(prefix, x as usize, y));
                        let k = choose|k: int|
                            0 <= k < prefix.len() && #[trigger] prefix[k].positive_weight && ((prefix[k].left_or_top == x as usize
                                && prefix[k].right_or_bottom == y) || (prefix[k].left_or_top == y
                                && prefix[k].right_or_bottom == x as usize));
                        assert(next[k] == prefix[k]);
                        assert(next[k].positive_weight);
                    } else {
                        assert(next[i as int] == link);
                        assert(next[i as int].positive_weight);
                    }
                }
            }
        } else {
            assert forall|x: int, y: usize| 0 <= x < tile_count implies (#[trigger] adjacency@[x]@.contains(y) <==> joins(next, x as usize, y)) by {
                if joins(next, x as usize, y) {
                    let k = choose|k: int|
                        0 <= k < next.len() && #[trigger] next[k].positive_weight && ((next[k].left_or_top == x as usize
                            && next[k].right_or_bottom == y) || (next[k].left_or_top == y
                            && next[k].right_or_bottom == x as usize));
                    assert(k < i);
                    assert(prefix[k] == next[k]);
                    assert(prefix[k].positive_weight);
                }
                if joins(prefix, x as usize, y) {
                    let k = choose|k: int|
                        0 <= k < prefix.len() && #[trigger] prefix[k].positive_weight && ((prefix[k].left_or_top == x as usize
                            && prefix[k].right_or_bottom == y) || (prefix[k].left_or_top == y
                            && prefix[k].right_or_bottom == x as usize));
                    assert(next[k] == prefix[k]);
                    assert(next[k].positive_weight);
                }
            }
        }
        i = i + 1;
    }
    assert(links@.take(links@.len() as int) =~= links@);
    adjacency
}


/// The tiles of `tiles` in ascending order, each once.
fn ascending_tiles(tiles: &Vec<usize>) -> (sorted: Vec<usize>)
    ensures
        ascending(sorted@),
        forall|v: usize| sorted@.contains(v) <==> tiles@.contains(v),
{
    let mut sorted: Vec<usize> = Vec::new();
    let mut i: usize = 0;
    while i < tiles.len()
        invariant
            i <= tiles.len(),
            ascending(sorted@),
            forall|v: usize| sorted@.contains(v) <==> tiles@.take(i as int).contains(v),
        decreases tiles.len() - i,
    {
        let v = tiles[i];
        let mut p: usize = 0;
        while p < sorted.len() && sorted[p] < v
            invariant
                p <= sorted.len(),
                forall|k: int| 0 <= k < p ==> sorted@[k] < v,
            decreases sorted.len() - p,
        {
            p = p + 1;
        }
        let ghost before = sorted@;
        let ghost old_prefix = tiles@.take(i as int);
        let ghost new_prefix = tiles@.take(i + 1);
        assert(new_prefix =~= old_prefix.push(v));
        if p < sorted.len() && sorted[p] == v {
            assert forall|x: usize| sorted@.contains(x) <==> new_prefix.contains(x) by {
                if new_prefix.contains(x) && x != v {
                    let k = choose|k: int| 0 <= k < i + 1 && new_prefix[k] == x;
                    assert(old_prefix[k] == x);
                }
                if sorted@.contains(x) {
                    assert(old_prefix.contains(x));
                    let k = choose|k: int| 0 <= k < i && old_prefix[k] == x;
                    assert(new_prefix[k] == x);
                }
            }
        } else {
            sorted.insert(p, v);
            assert forall|a: int, b: int| 0 <= a < b < sorted@.len() implies sorted@[a]
                < sorted@[b] by {
                if a < p as int && b == p as int {
                } else if a == p as int {
                    assert(sorted@[b] == before[b - 1]);
                    if b - 1 > p as int {
                        assert(before[p as int] < before[b - 1]);
                    }
                } else if a < p as int && b < p as int {
                    assert(sorted@[a] == before[a] && sorted@[b] == before[b]);
                } else if a < p as int {
                    assert(sorted@[a] == before[a]);
                    assert(sorted@[b] == before[b - 1]);
                } else {
                    assert(sorted@[a] == before[a - 1]);
                    assert(sorted@[b] == before[b - 1]);
                }
            }
            assert forall|x: usize| sorted@.contains(x) <==> new_prefix.contains(x) by {
                if sorted@.contains(x) && x != v {
                    let k = choose|k: int| 0 <= k < sorted@.len() && sorted@[k] == x;
                    if k < p {
                        assert(before[k] == x);
                    } else {
                        assert(before[k - 1] == x);
                    }
                    assert(before.contains(x));
                    assert(old_prefix.contains(x));
                    let m = choose|m: int| 0 <= m < i && old_prefix[m] == x;
                    assert(new_prefix[m] == x);
                }
                if sorted@.contains(x) && x == v {
                    assert(new_prefix[i as int] == v);
                }
                if new_prefix.contains(x) {
                    if x == v {
                        assert(sorted@[p as int] == v);
                    } else {
                        let k = choose|k: int| 0 <= k < i + 1 && new_prefix[k] == x;
                        assert(old_prefix[k] == x);
                        assert(before.contains(x));
                        let m = choose|m: int| 0 <= m < before.len() && before[m] == x;
                        if m < p {
                            assert(sorted@[m] == x);
                        } else {
                            assert(sorted@[m + 1] == x);
                        }
                    }
                }
            }
        }
        i = i + 1;
    }
    assert(tiles@.take(tiles@.len() as int) =~= tiles@);
    sorted
}

/// The marked tiles of `seen`.
spec fn marked_set(seen: Seq<bool>, tile_count: usize) -> spec_fn(usize) -> bool {
    |v: usize| v < tile_count && seen[v as int]
}

proof fn lemma_joins_in_range(links: Seq<TileLink>, tile_count: usize, a: usize, b: usize)
    requires
        links_in_range(links, tile_count),
        joins(links, a, b),
    ensures
        a < tile_count,
        b < tile_count,
{
    let i = choose|i: int|
        0 <= i < links.len() && #[trigger] links[i].positive_weight && ((links[i].left_or_top == a
            && links[i].right_or_bottom == b) || (links[i].left_or_top == b
            && links[i].right_or_bottom == a));
    assert(links[i].left_or_top < tile_count);
}

/// Depth-first search from the unmarked tile `start`: marks and returns
/// every tile reachable from it.
fn explore(
    adjacency: &Vec<Vec<usize>>,
    seen: &mut Vec<bool>,
    start: usize,
    Ghost(links): Ghost<Seq<TileLink>>,
    Ghost(tile_count): Ghost<usize>,
) -> (component: Vec<usize>)
    requires
        adjacency_matches(adjacency@, links, tile_count),
        links_in_range(links, tile_count),
        old(seen)@.len() == tile_count,
        start < tile_count,
        !old(seen)@[start as int],
        closed(links, marked_set(old(seen)@, tile_count)),
    ensures
        final(seen)@.len() == tile_count,
        forall|v: usize|
            #![trigger final(seen)@[v as int]]
            #![trigger component@.contains(v)]
            v < tile_count ==> (final(seen)@[v as int] <==> (old(seen)@[v as int]
                || component@.contains(v))),
        forall|v: usize|
            #[trigger] component@.contains(v) <==> (v < tile_count && reachable(links, start, v)),
        closed(links, marked_set(final(seen)@, tile_count)),
{
    let ghost initial = seen@;
    let mut component: Vec<usize> = Vec::new();
    let mut stack: Vec<usize> = Vec::new();
    proof {
        lemma_count_unseen_mark(seen@, start as int);
        lemma_reachable_reflexive(links, start);
    }
    seen.set(start, true);
    stack.push(start);
    assert(stack@ =~= seq![start]);
    assert(stack@.contains(start)) by {
        assert(stack@[0] == start);
    }
    assert forall|v: usize| v < tile_count implies (seen@[v as int] <==> (initial[v as int]
        || component@.contains(v) || stack@.contains(v))) by {
        if stack@.contains(v) {
            let k = choose|k: int| 0 <= k < stack@.len() && stack@[k] == v;
            assert(v == start);
        }
    }
    assert forall|v: usize| (component@.contains(v) || stack@.contains(v)) implies (v < tile_count
        && !initial[v as int] && reachable(links, start, v)) by {
        if stack@.contains(v) {
            let k = choose|k: int| 0 <= k < stack@.len() && stack@[k] == v;
            assert(v == start);
        }
    }
    while stack.len() > 0
        invariant
            adjacency_matches(adjacency@, links, tile_count),
            links_in_range(links, tile_count),
            initial.len() == tile_count,
            seen@.len() == tile_count,
            closed(links, marked_set(initial, tile_count)),
            forall|v: usize|
                #![trigger seen@[v as int]]
                #![trigger component@.contains(v)]
                #![trigger stack@.contains(v)]
                v < tile_count ==> (seen@[v as int] <==> (initial[v as int] || component@.contains(v)
                    || stack@.contains(v))),
            forall|v: usize|
                #![trigger component@.contains(v)]
                #![trigger stack@.contains(v)]
                (component@.contains(v) || stack@.contains(v)) ==> (v < tile_count
                    && !initial[v as int] && reachable(links, start, v)),
            forall|v: usize| !(component@.contains(v) && stack@.contains(v)),
            distinct_tiles(stack@),
            forall|v: usize, w: usize|
                component@.contains(v) && #[trigger] joins(links, v, w) ==> w < tile_count
                    && seen@[w as int],
            component@.contains(start) || stack@.contains(start),
        decreases 2 * count_unseen(seen@) + stack@.len(),
    {
        let ghost measure = 2 * count_unseen(seen@) + stack@.len();
        let ghost old_stack = stack@;
        let tile = stack.pop().unwrap();
        assert(old_stack =~= stack@.push(tile));
        assert(old_stack.contains(tile)) by {
            assert(old_stack[old_stack.len() - 1] == tile);
        }
        assert(tile < tile_count && !initial[tile as int] && reachable(links, start, tile));
        assert(!component@.contains(tile));
        assert forall|v: usize| stack@.contains(v) implies v != tile && old_stack.contains(v) by {
            let k = choose|k: int| 0 <= k < stack@.len() && stack@[k] == v;
            assert(old_stack[k] == v);
            assert(old_stack[old_stack.len() - 1] == tile);
        }
        let ghost before_component = component@;
        component.push(tile);
        assert(component@.contains(tile)) by {
            assert(component@[component@.len() - 1] == tile);
        }
        assert forall|v: usize| #[trigger] component@.contains(v) implies v == tile
            || before_component.contains(v) by {
            let k = choose|k: int| 0 <= k < component@.len() && component@[k] == v;
            if k < before_component.len() {
                assert(before_component[k] == v);
            }
        }
        assert forall|v: usize| before_component.contains(v) implies #[trigger] component@.contains(v) by {
            let k = choose|k: int| 0 <= k < before_component.len() && before_component[k] == v;
            assert(component@[k] == v);
        }
        let neighbors = &adjacency[tile];
        let mut j: usize = 0;
        while j < neighbors.len()
            invariant
                adjacency_matches(adjacency@, links, tile_count),
                links_in_range(links, tile_count),
                tile < tile_count,
                neighbors@ == adjacency@[tile as int]@,
                j <= neighbors@.len(),
                initial.len() == tile_count,
                seen@.len() == tile_count,
                closed(links, marked_set(initial, tile_count)),
                component@.contains(tile),
                reachable(links, start, tile),
                forall|v: usize|
                    #![trigger seen@[v as int]]
                    #![trigger component@.contains(v)]
                    #![trigger stack@.contains(v)]
                    v < tile_count ==> (seen@[v as int] <==> (initial[v as int]
                        || component@.contains(v) || stack@.contains(v))),
                forall|v: usize|
                    #![trigger component@.contains(v)]
                    #![trigger stack@.contains(v)]
                    (component@.contains(v) || stack@.contains(v)) ==> (v < tile_count
                        && !initial[v as int] && reachable(links, start, v)),
                forall|v: usize| !(component@.contains(v) && stack@.contains(v)),
                distinct_tiles(stack@),
                forall|v: usize, w: usize|
                    component@.contains(v) && v != tile && #[trigger] joins(links, v, w) ==> w
                        < tile_count && seen@[w as int],
                forall|k: int| 0 <= k < j ==> seen@[#[trigger] neighbors@[k] as int],
                component@.contains(start) || stack@.contains(start),
                2 * count_unseen(seen@) + stack@.len() < measure,
            decreases neighbors@.len() - j,
        {
            let w = neighbors[j];
            assert(adjacency@[tile as int]@.contains(w));
            assert(joins(links, tile, w));
            assert(adjacency@[tile as int]@[j as int] < tile_count);
            assert(w < tile_count);
            if !seen[w] {
                assert(!initial[w as int]);
                assert(!stack@.contains(w));
                assert(!component@.contains(w));
                proof {
                    lemma_count_unseen_mark(seen@, w as int);
                    lemma_reachable_extend(links, start, tile, w);
                }
                let ghost before_stack = stack@;
                seen.set(w, true);
                stack.push(w);
                assert forall|v: usize| stack@.contains(v) implies v == w || before_stack.contains(v) by {
                    let k = choose|k: int| 0 <= k < stack@.len() && stack@[k] == v;
                    if k < before_stack.len() {
                        assert(before_stack[k] == v);
                    }
                }
                assert(stack@.contains(w)) by {
                    assert(stack@[stack@.len() - 1] == w);
                }
                assert forall|v: usize| before_stack.contains(v) implies stack@.contains(v) by {
                    let k = choose|k: int| 0 <= k < before_stack.len() && before_stack[k] == v;
                    assert(stack@[k] == v);
                }
                assert forall|a: int, b: int| 0 <= a < b < stack@.len() implies stack@[a] != stack@[b] by {
                    if b == stack@.len() - 1 {
                        assert(stack@[a] == before_stack[a]);
                        assert(before_stack.contains(stack@[a]));
                    } else {
                        assert(stack@[a] == before_stack[a]);
                        assert(stack@[b] == before_stack[b]);
                    }
                }
            }
            j = j + 1;
        }
        assert forall|v: usize, w: usize| component@.contains(v) && #[trigger] joins(links, v, w) implies w
            < tile_count && seen@[w as int] by {
            if v == tile {
                assert(adjacency@[tile as int]@.contains(w));
                let k = choose|k: int| 0 <= k < neighbors@.len() && neighbors@[k] == w;
                assert(seen@[neighbors@[k] as int]);
            }
        }
    }
    proof {
        let marked = marked_set(seen@, tile_count);
        assert forall|a: usize, b: usize| marked(a) && #[trigger] joins(links, a, b) implies marked(b) by {
            lemma_joins_in_range(links, tile_count, a, b);
            if initial[a as int] {
                assert(marked_set(initial, tile_count)(a));
            }
        }
        assert forall|v: usize| #[trigger] component@.contains(v) <==> (v < tile_count
            && reachable(links, start, v)) by {
            if v < tile_count && reachable(links, start, v) {
                lemma_closed_holds_reachable(links, marked, start, v);
                if initial[v as int] {
                    lemma_reachable_symmetric(links, start, v);
                    lemma_closed_holds_reachable(links, marked_set(initial, tile_count), v, start);
                }
            }
        }
    }
    component
}

pub open spec fn component_views(components: Seq<Vec<usize>>) -> Seq<Seq<usize>> {
    Seq::new(components.len(), |k: int| components[k]@)
}

/// The connected components of the tile graph, each in ascending order,
/// listed by their smallest tile.
pub fn connected_components(tile_count: usize, links: &Vec<TileLink>) -> (components: Vec<Vec<usize>>)
    requires
        links_in_range(links@, tile_count),
    ensures
        are_components(links@, tile_count, component_views(components@)),
{
    let adjacency = build_adjacency(tile_count, links);
    let mut seen: Vec<bool> = Vec::new();
    let mut t: usize = 0;
    while t < tile_count
        invariant
            t <= tile_count,
            seen@.len() == t,
            forall|v: int| 0 <= v < t ==> !seen@[v],
        decreases tile_count - t,
    {
        seen.push(false);
        t = t + 1;
    }
    let mut components: Vec<Vec<usize>> = Vec::new();
    let mut start: usize = 0;
    while start < tile_count
        invariant
            start <= tile_count,
            adjacency_matches(adjacency@, links@, tile_count),
            links_in_range(links@, tile_count),
            seen@.len() == tile_count,
            closed(links@, marked_set(seen@, tile_count)),
            forall|v: usize| v < start ==> seen@[v as int],
            forall|v: usize|
                v < tile_count ==> (seen@[v as int] <==> in_some_component(
                    component_views(components@),
                    v,
                )),
            forall|k: int, v: usize|
                0 <= k < components@.len() ==> (#[trigger] components@[k]@.contains(v) ==> v
                    < tile_count),
            forall|k: int|
                0 <= k < components@.len() ==> #[trigger] components@[k]@.len() > 0 && ascending(
                    components@[k]@,
                ) && components@[k]@[0] < start,
            forall|k: int, v: usize|
                0 <= k < components@.len() ==> (#[trigger] components@[k]@.contains(v) <==> (v
                    < tile_count && reachable(links@, components@[k]@[0], v))),
            forall|k: int, j: int|
                0 <= k < j < components@.len() ==> #[trigger] components@[k]@[0]
                    < #[trigger] components@[j]@[0],
        decreases tile_count - start,
    {
        if !seen[start] {
            let ghost old_seen = seen@;
            let ghost old_views = component_views(components@);
            let found = explore(&adjacency, &mut seen, start, Ghost(links@), Ghost(tile_count));
            let sorted = ascending_tiles(&found);
            proof {
                lemma_reachable_reflexive(links@, start);
                assert(found@.contains(start));
                assert(seen@[start as int]);
                assert(sorted@.contains(start));
                // Every tile of the new component is at least `start`.
                assert forall|v: usize| sorted@.contains(v) implies start <= v by {
                    if v < start {
                        assert(old_seen[v as int]);
                        assert(in_some_component(old_views, v));
                        let k = choose|k: int| 0 <= k < old_views.len() && #[trigger] old_views[k].contains(v);
                        assert(components@[k]@.contains(v));
                        let first = components@[k]@[0];
                        assert(reachable(links@, first, v));
                        assert(reachable(links@, start, v));
                        lemma_reachable_symmetric(links@, start, v);
                        lemma_reachable_transitive(links@, first, v, start);
                        assert(components@[k]@.contains(start));
                        assert(in_some_component(old_views, start));
                    }
                }
                let m = choose|m: int| 0 <= m < sorted@.len() && sorted@[m] == start;
                if m > 0 {
                    assert(sorted@[0] < sorted@[m]);
                    assert(sorted@.contains(sorted@[0]));
                }
                assert(sorted@[0] == start);
            }
            let ghost before = components@;
            components.push(sorted);
            proof {
                assert forall|k: int| 0 <= k < components@.len() implies #[trigger] components@[k]@.len()
                    > 0 && ascending(components@[k]@) && components@[k]@[0] < start + 1 by {
                    if k < before.len() {
                        assert(components@[k] == before[k]);
                    } else {
                        assert(components@[k]@ == sorted@);
                    }
                }
                assert forall|k: int, j: int| 0 <= k < j < components@.len() implies #[trigger] components@[k]@[0]
                    < #[trigger] components@[j]@[0] by {
                    assert(components@[k] == before[k]);
                    assert(before[k]@.len() > 0);
                    if j < before.len() {
                        assert(components@[j] == before[j]);
                    } else {
                        assert(components@[j]@ == sorted@);
                    }
                }
                let views = component_views(components@);
                assert forall|v: usize| v < tile_count implies (seen@[v as int] <==> in_some_component(views, v)) by {
                    if seen@[v as int] {
                        if old_seen[v as int] {
                            let k = choose|k: int| 0 <= k < old_views.len() && #[trigger] old_views[k].contains(v);
                            assert(views[k] == old_views[k]);
                        } else {
                            assert(found@.contains(v));
                            assert(sorted@.contains(v));
                            assert(views[views.len() - 1] == sorted@);
                            assert(views[views.len() - 1].contains(v));
                        }
                    }
                    if in_some_component(views, v) {
                        let k = choose|k: int| 0 <= k < views.len() && #[trigger] views[k].contains(v);
                        if k < before.len() {
                            assert(old_views[k] == views[k]);
                            assert(in_some_component(old_views, v));
                        } else {
                            assert(views[k] == sorted@);
                            assert(found@.contains(v));
                        }
                    }
                }
            }
        }
        start = start + 1;
    }
    proof {
        let views = component_views(components@);
        assert forall|v: usize| v < tile_count implies #[trigger] in_some_component(views, v) by {
            assert(seen@[v as int]);
        }
        assert forall|k: int| 0 <= k < views.len() implies #[trigger] views[k].len() > 0 && ascending(views[k]) by {
            assert(views[k] == components@[k]@);
        }
        assert forall|k: int, v: usize| 0 <= k < views.len() implies (#[trigger] views[k].contains(v) <==> (v
            < tile_count && reachable(links@, views[k][0], v))) by {
            assert(views[k] == components@[k]@);
        }
        assert forall|k: int, j: int| 0 <= k < j < views.len() implies #[trigger] views[k][0]
            < #[trigger] views[j][0] by {
            assert(views[k] == components@[k]@);
            assert(views[j] == components@[j]@);
        }
    }
    components
}

/// Every tile can be reached from tile zero.
pub open spec fn all_reachable_from_first(links: Seq<TileLink>, tile_count: usize) -> bool {
    forall|v: usize| v < tile_count ==> #[trigger] reachable(links, 0, v)
}

/// Whether every tile can be reached from tile zero through positively
/// weighted links. A graph of zero or one tile is connected.
pub fn constraint_graph_connected(tile_count: usize, links: &Vec<TileLink>) -> (connected: bool)
    requires
        tile_count <= 1 || links_in_range(links@, tile_count),
    ensures
        connected == (tile_count <= 1 || all_reachable_from_first(links@, tile_count)),
{
    if tile_count <= 1 {
        return true;
    }
    let adjacency = build_adjacency(tile_count, links);
    let mut seen: Vec<bool> = Vec::new();
    let mut t: usize = 0;
    while t < tile_count
        invariant
            t <= tile_count,
            seen@.len() == t,
            forall|v: int| 0 <= v < t ==> !seen@[v],
        decreases tile_count - t,
    {
        seen.push(false);
        t = t + 1;
    }
    let found = explore(&adjacency, &mut seen, 0, Ghost(links@), Ghost(tile_count));
    let mut v: usize = 0;
    while v < tile_count
        invariant
            v <= tile_count,
            seen@.len() == tile_count,
            forall|u: usize| u < tile_count ==> (seen@[u as int] <==> found@.contains(u)),
            forall|u: usize| #[trigger] found@.contains(u) <==> (u < tile_count && reachable(links@, 0, u)),
            forall|u: usize| u < v ==> reachable(links@, 0, u),
            tile_count > 1,
        decreases tile_count - v,
    {
        if !seen[v] {
            assert(!found@.contains(v));
            assert(!reachable(links@, 0, v));
            assert(!all_reachable_from_first(links@, tile_count));
            return false;
        }
        v = v + 1;
    }
    true
}

/// The tile graph is connected exactly when it has a single component, so
/// the global solve of one connected graph and the component-wise solve
/// agree on which graphs are connected.
pub proof fn lemma_connected_iff_single_component(
    links: Seq<TileLink>,
    tile_count: usize,
    components: Seq<Seq<usize>>,
)
    requires
        tile_count >= 1,
        are_components(links, tile_count, components),
    ensures
        (components.len() == 1) == all_reachable_from_first(links, tile_count),
{
    assert(in_some_component(components, 0));
    let k0 = choose|k: int| 0 <= k < components.len() && #[trigger] components[k].contains(0usize);
    assert(components[k0].len() > 0);
    let m = choose|m: int| 0 <= m < components[k0].len() && components[k0][m] == 0usize;
    if m > 0 {
        assert(components[k0][0] < components[k0][m]);
    }
    assert(components[k0][0] == 0);
    if k0 > 0 {
        assert(components[0][0] < components[k0][0]);
    }
    assert(k0 == 0);
    if components.len() == 1 {
        assert forall|v: usize| v < tile_count implies reachable(links, 0, v) by {
            assert(in_some_component(components, v));
            let k = choose|k: int| 0 <= k < components.len() && #[trigger] components[k].contains(v);
            assert(k == 0);
        }
    }
    if components.len() != 1 && all_reachable_from_first(links, tile_count) {
        assert(components.len() > 1);
        assert(components[1].len() > 0);
        let f = components[1][0];
        assert(components[1].contains(f));
        assert(f < tile_count);
        assert(reachable(links, 0, f));
        lemma_reachable_symmetric(links, 0, f);
        assert(components[1].contains(0usize));
        assert(components[0][0] < components[1][0]);
        let z = choose|z: int| 0 <= z < components[1].len() && components[1][z] == 0usize;
        if z > 0 {
            assert(components[1][0] < components[1][z]);
        }
    }
}

} // verus!
