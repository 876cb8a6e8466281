//! Reachability between cells over four-directionally adjacent passable tiles.
use vstd::prelude::*;
use crate::geometry::{Position, manhattan, is_cardinal_step, cardinal_neighbours, has_neighbours};
use crate::level::{Level, cell_index, lemma_cell_index_bounds, lemma_cells_fit, lemma_cell_index_injective};

verus! {

/// `p` is a walk: each cell after the first is passable and shares an edge
/// with the one before it. The first cell itself need not be passable.
pub open spec fn is_walk(level: &Level, p: Seq<Position>) -> bool {
    &&& p.len() >= 1
    &&& forall|i: int|
        1 <= i < p.len() ==> level.passable_at(#[trigger] p[i]) && is_cardinal_step(p[i - 1], p[i])
}

/// A walk leads from `a` to `b`.
pub open spec fn connected(level: &Level, a: Position, b: Position) -> bool {
    exists|p: Seq<Position>| is_walk(level, p) && p[0] == a && p.last() == b
}

/// Every cell is connected to itself.
pub proof fn lemma_connected_refl(level: &Level, a: Position)
    ensures
        connected(level, a, a),
{
    let p = seq![a];
    assert(is_walk(level, p));
    assert(p.last() == a);
}

/// A walk can be extended by one passable step.
pub proof fn lemma_connected_step(level: &Level, a: Position, b: Position, c: Position)
    requires
        connected(level, a, b),
        level.passable_at(c),
        is_cardinal_step(b, c),
    ensures
        connected(level, a, c),
{
    let p = choose|p: Seq<Position>| is_walk(level, p) && p[0] == a && p.last() == b;
    let q = p.push(c);
    assert forall|i: int| 1 <= i < q.len() implies level.passable_at(#[trigger] q[i])
        && is_cardinal_step(q[i - 1], q[i]) by {
        if i < p.len() {
            assert(q[i] == p[i] && q[i - 1] == p[i - 1]);
        } else {
            assert(q[i - 1] == p.last());
        }
    }
    assert(q[0] == a);
    assert(q.last() == c);
    assert(is_walk(level, q));
}

/// Two walks joined end to start make a walk.
pub proof fn lemma_connected_trans(level: &Level, a: Position, b: Position, c: Position)
    requires
        connected(level, a, b),
        connected(level, b, c),
    ensures
        connected(level, a, c),
{
    let p = choose|p: Seq<Position>| is_walk(level, p) && p[0] == a && p.last() == b;
    let q = choose|q: Seq<Position>| is_walk(level, q) && q[0] == b && q.last() == c;
    lemma_walk_suffix(level, a, b, c, p, q, 1);
}

/// The rest of a walk from `b` to `c`, from its `k`-th cell on, extends a
/// walk from `a` to that cell.
proof fn lemma_walk_suffix(
    level: &Level,
    a: Position,
    b: Position,
    c: Position,
    p: Seq<Position>,
    q: Seq<Position>,
    k: int,
)
    requires
        is_walk(level, p),
        p[0] == a,
        p.last() == b,
        is_walk(level, q),
        q[0] == b,
        q.last() == c,
        1 <= k <= q.len(),
        connected(level, a, q[k - 1]),
    ensures
        connected(level, a, c),
    decreases q.len() - k,
{
    if k < q.len() {
        assert(level.passable_at(q[k]) && is_cardinal_step(q[k - 1], q[k]));
        lemma_connected_step(level, a, q[k - 1], q[k]);
        lemma_walk_suffix(level, a, b, c, p, q, k + 1);
    } else {
        assert(q[k - 1] == c);
    }
}

/// A walk reversed is a walk, provided its first cell is passable.
pub proof fn lemma_connected_symm(level: &Level, a: Position, b: Position)
    requires
        connected(level, a, b),
        level.passable_at(a),
    ensures
        connected(level, b, a),
{
    let p = choose|p: Seq<Position>| is_walk(level, p) && p[0] == a && p.last() == b;
    let q = p.reverse();
    assert forall|i: int| 1 <= i < q.len() implies level.passable_at(#[trigger] q[i])
        && is_cardinal_step(q[i - 1], q[i]) by {
        let j = p.len() - 1 - i;
        assert(q[i] == p[j]);
        assert(q[i - 1] == p[j + 1]);
        assert(level.passable_at(p[j + 1]) && is_cardinal_step(p[j], p[j + 1]));
        if j >= 1 {
            assert(level.passable_at(p[j]));
        } else {
            assert(p[j] == a);
        }
    }
    assert(q[0] == b);
    assert(q.last() == a);
    assert(is_walk(level, q));
}

/// Walks survive any change of tiles that keeps passable cells passable.
pub proof fn lemma_connected_mono(l1: &Level, l2: &Level, a: Position, b: Position)
    requires
        connected(l1, a, b),
        forall|q: Position| l1.passable_at(q) ==> l2.passable_at(q),
    ensures
        connected(l2, a, b),
{
    let p = choose|p: Seq<Position>| is_walk(l1, p) && p[0] == a && p.last() == b;
    assert forall|i: int| 1 <= i < p.len() implies l2.passable_at(#[trigger] p[i])
        && is_cardinal_step(p[i - 1], p[i]) by {
        assert(l1.passable_at(p[i]));
    }
    assert(is_walk(l2, p));
}

/// A cell that shares an edge with `a` is one of its four cardinal neighbours.
pub proof fn lemma_step_is_neighbour(a: Position, b: Position)
    requires
        is_cardinal_step(a, b),
    ensures
        exists|j: int| 0 <= j < 4 && #[trigger] cardinal_neighbours(a)[j] == b,
{
    let n = cardinal_neighbours(a);
    if b.x == a.x && b.y == a.y - 1 {
        assert(n[0] == b);
    } else if b.x == a.x - 1 {
        assert(n[1] == b);
    } else if b.x == a.x + 1 {
        assert(n[2] == b);
    } else {
        assert(n[3] == b);
    }
}

/// Inside a rectangle whose cells are all passable, any two cells are
/// connected.
pub proof fn lemma_rect_connected(
    level: &Level,
    x0: int,
    x1: int,
    y0: int,
    y1: int,
    a: Position,
    b: Position,
)
    requires
        forall|p: Position| x0 <= p.x <= x1 && y0 <= p.y <= y1 ==> #[trigger] level.passable_at(p),
        x0 <= a.x <= x1 && y0 <= a.y <= y1,
        x0 <= b.x <= x1 && y0 <= b.y <= y1,
    ensures
        connected(level, a, b),
    decreases manhattan(a, b),
{
    if a == b {
        lemma_connected_refl(level, a);
    } else {
        let c = if b.x < a.x {
            Position { x: (b.x + 1) as i32, y: b.y }
        } else if b.x > a.x {
            Position { x: (b.x - 1) as i32, y: b.y }
        } else if b.y < a.y {
            Position { x: b.x, y: (b.y + 1) as i32 }
        } else {
            Position { x: b.x, y: (b.y - 1) as i32 }
        };
        lemma_rect_connected(level, x0, x1, y0, y1, a, c);
        assert(level.passable_at(b));
        lemma_connected_step(level, a, c, b);
    }
}

/// `q` has been reached by the search: it is the start or a marked cell.
pub open spec fn reached(level: &Level, seen: Seq<bool>, start: Position, q: Position) -> bool {
    q == start || (level.in_bounds(q) && seen[cell_index(level.width as int, q)])
}

/// Every cell reachable from a set closed under passable steps is in the set.
proof fn lemma_closed_contains_walk(
    level: &Level,
    seen: Seq<bool>,
    start: Position,
    p: Seq<Position>,
    k: int,
)
    requires
        is_walk(level, p),
        p[0] == start,
        0 <= k < p.len(),
        forall|q: Position, j: int|
            reached(level, seen, start, q) && 0 <= j < 4 && level.passable_at(
                #[trigger] cardinal_neighbours(q)[j],
            ) ==> reached(level, seen, start, cardinal_neighbours(q)[j]),
    ensures
        reached(level, seen, start, p[k]),
    decreases k,
{
    if k > 0 {
        lemma_closed_contains_walk(level, seen, start, p, k - 1);
        assert(level.passable_at(p[k]) && is_cardinal_step(p[k - 1], p[k]));
        lemma_step_is_neighbour(p[k - 1], p[k]);
        let j = choose|j: int| 0 <= j < 4 && #[trigger] cardinal_neighbours(p[k - 1])[j] == p[k];
        assert(level.passable_at(cardinal_neighbours(p[k - 1])[j]));
    }
}

/// What the search knows between two steps: every queued cell is reached by
/// a walk from `start`, every reached cell is queued, `goal` is not reached
/// yet, and `marked` counts the cells marked so far.
#[verifier::opaque]
pub open spec fn search_state(
    level: &Level,
    start: Position,
    goal: Position,
    seen: Seq<bool>,
    queue: Seq<Position>,
    marked: Set<int>,
) -> bool {
    let w = level.width as int;
    let n = level.tiles@.len();
    &&& level.wf()
    &&& has_neighbours(start)
    &&& seen.len() == n
    &&& queue.len() >= 1
    &&& queue[0] == start
    &&& forall|k: int|
        1 <= k < queue.len() ==> level.passable_at(#[trigger] queue[k]) && seen[cell_index(
            w,
            queue[k],
        )]
    &&& forall|k: int| 0 <= k < queue.len() ==> connected(level, start, #[trigger] queue[k])
    &&& forall|q: Position|
        reached(level, seen, start, q) ==> exists|k: int| 0 <= k < queue.len() && queue[k] == q
    &&& !reached(level, seen, start, goal)
    &&& marked.finite()
    &&& forall|i: int| marked.contains(i) <==> 0 <= i < n && seen[i]
    &&& queue.len() == marked.len() + if level.in_bounds(start) { 0int } else { 1int }
}

/// The neighbours of the first `head` queued cells, and the first `j`
/// neighbours of `cur`, are reached wherever they are passable.
pub open spec fn expanded(
    level: &Level,
    start: Position,
    seen: Seq<bool>,
    queue: Seq<Position>,
    head: int,
    cur: Position,
    j: int,
) -> bool {
    &&& forall|k: int, jj: int|
        0 <= k < head && 0 <= jj < 4 && level.passable_at(
            #[trigger] cardinal_neighbours(queue[k])[jj],
        ) ==> reached(level, seen, start, cardinal_neighbours(queue[k])[jj])
    &&& forall|jj: int|
        0 <= jj < j && level.passable_at(#[trigger] cardinal_neighbours(cur)[jj]) ==> reached(
            level,
            seen,
            start,
            cardinal_neighbours(cur)[jj],
        )
}

/// Facts the search state gives about the level, the queue and the goal.
proof fn lemma_search_facts(
    level: &Level,
    start: Position,
    goal: Position,
    seen: Seq<bool>,
    queue: Seq<Position>,
    marked: Set<int>,
    k: int,
)
    requires
        search_state(level, start, goal, seen, queue, marked),
        0 <= k < queue.len(),
    ensures
        level.wf(),
        seen.len() == level.tiles@.len(),
        queue[0] == start,
        connected(level, start, queue[k]),
        has_neighbours(queue[k]),
        queue.len() <= level.tiles@.len() + 1,
        !reached(level, seen, start, goal),
        start != goal,
{
    reveal(search_state);
    if k > 0 {
        assert(level.passable_at(queue[k]));
    }
    let n = level.tiles@.len() as int;
    assert(marked.subset_of(vstd::set_lib::set_int_range(0, n)));
    vstd::set_lib::lemma_int_range(0, n);
    vstd::set_lib::lemma_len_subset(marked, vstd::set_lib::set_int_range(0, n));
}

/// The search starts with only `start` queued and, when it lies in the
/// grid, marked.
proof fn lemma_search_init(
    level: &Level,
    start: Position,
    goal: Position,
    seen: Seq<bool>,
    marked: Set<int>,
)
    requires
        level.wf(),
        has_neighbours(start),
        start != goal,
        seen.len() == level.tiles@.len(),
        level.in_bounds(start) ==> {
            &&& marked == Set::empty().insert(cell_index(level.width as int, start))
            &&& forall|i: int|
                0 <= i < seen.len() ==> (seen[i] <==> i == cell_index(level.width as int, start))
        },
        !level.in_bounds(start) ==> {
            &&& marked == Set::<int>::empty()
            &&& forall|i: int| 0 <= i < seen.len() ==> !seen[i]
        },
    ensures
        search_state(level, start, goal, seen, seq![start], marked),
{
    reveal(search_state);
    let w = level.width as int;
    let queue = seq![start];
    lemma_connected_refl(level, start);
    if level.in_bounds(start) {
        lemma_cell_index_bounds(w, level.height as int, start.x as int, start.y as int);
    }
    assert forall|q: Position| reached(level, seen, start, q) implies exists|k: int|
        0 <= k < queue.len() && queue[k] == q by {
        if q != start {
            lemma_cell_index_bounds(w, level.height as int, q.x as int, q.y as int);
            lemma_cell_index_injective(w, q, start);
        }
        assert(queue[0] == q);
    }
    if level.in_bounds(goal) {
        lemma_cell_index_bounds(w, level.height as int, goal.x as int, goal.y as int);
        if level.in_bounds(start) && cell_index(w, goal) == cell_index(w, start) {
            lemma_cell_index_injective(w, goal, start);
        }
    }
    assert forall|i: int| marked.contains(i) <==> 0 <= i < level.tiles@.len() && seen[i] by {
        if level.in_bounds(start) && i == cell_index(w, start) {
        }
    }
}

/// Marking and queueing an unmarked passable neighbour of a reached cell
/// keeps the search state, and every reached cell stays reached.
proof fn lemma_search_push(
    level: &Level,
    start: Position,
    goal: Position,
    seen: Seq<bool>,
    queue: Seq<Position>,
    marked: Set<int>,
    cur: Position,
    nb: Position,
)
    requires
        search_state(level, start, goal, seen, queue, marked),
        connected(level, start, cur),
        level.passable_at(nb),
        is_cardinal_step(cur, nb),
        !seen[cell_index(level.width as int, nb)],
        nb != goal,
    ensures
        search_state(
            level,
            start,
            goal,
            seen.update(cell_index(level.width as int, nb), true),
            queue.push(nb),
            marked.insert(cell_index(level.width as int, nb)),
        ),
        forall|q: Position|
            reached(level, seen, start, q) ==> reached(
                level,
                seen.update(cell_index(level.width as int, nb), true),
                start,
                q,
            ),
        reached(level, seen.update(cell_index(level.width as int, nb), true), start, nb),
{
    reveal(search_state);
    let w = level.width as int;
    let i = cell_index(w, nb);
    let s2 = seen.update(i, true);
    let q2 = queue.push(nb);
    let m2 = marked.insert(i);
    lemma_cell_index_bounds(w, level.height as int, nb.x as int, nb.y as int);
    lemma_connected_step(level, start, cur, nb);
    assert forall|q: Position| reached(level, seen, start, q) implies reached(level, s2, start, q) by {
        if q != start {
            lemma_cell_index_bounds(w, level.height as int, q.x as int, q.y as int);
        }
    }
    assert forall|q: Position| reached(level, s2, start, q) implies exists|k: int|
        0 <= k < q2.len() && q2[k] == q by {
        if q == nb {
            assert(q2[q2.len() - 1] == q);
        } else {
            if q != start {
                lemma_cell_index_bounds(w, level.height as int, q.x as int, q.y as int);
                if cell_index(w, q) == i {
                    lemma_cell_index_injective(w, q, nb);
                }
            }
            assert(reached(level, seen, start, q));
            let k = choose|k: int| 0 <= k < queue.len() && queue[k] == q;
            assert(q2[k] == q);
        }
    }
    assert forall|k: int| 1 <= k < q2.len() implies level.passable_at(#[trigger] q2[k])
        && s2[cell_index(w, q2[k])] by {
        if k < queue.len() {
            assert(q2[k] == queue[k]);
            lemma_cell_index_bounds(w, level.height as int, queue[k].x as int, queue[k].y as int);
        }
    }
    assert forall|k: int| 0 <= k < q2.len() implies connected(level, start, #[trigger] q2[k]) by {
        if k < queue.len() {
            assert(q2[k] == queue[k]);
        }
    }
    if level.in_bounds(goal) {
        lemma_cell_index_bounds(w, level.height as int, goal.x as int, goal.y as int);
        if cell_index(w, goal) == i {
            lemma_cell_index_injective(w, goal, nb);
        }
    }
    assert(!marked.contains(i));
    assert forall|ii: int| m2.contains(ii) <==> 0 <= ii < level.tiles@.len() && s2[ii] by {}
}

/// Expanded cells stay expanded when more cells are reached.
proof fn lemma_expanded_mono(
    level: &Level,
    start: Position,
    s1: Seq<bool>,
    s2: Seq<bool>,
    q1: Seq<Position>,
    q2: Seq<Position>,
    head: int,
    cur: Position,
    j: int,
)
    requires
        expanded(level, start, s1, q1, head, cur, j),
        forall|q: Position| reached(level, s1, start, q) ==> reached(level, s2, start, q),
        q1.len() >= head,
        q2.len() >= head,
        forall|k: int| 0 <= k < head ==> q1[k] == q2[k],
    ensures
        expanded(level, start, s2, q2, head, cur, j),
{
    assert forall|k: int, jj: int|
        0 <= k < head && 0 <= jj < 4 && level.passable_at(
            #[trigger] cardinal_neighbours(q2[k])[jj],
        ) implies reached(level, s2, start, cardinal_neighbours(q2[k])[jj]) by {
        assert(q1[k] == q2[k]);
    }
}

/// When every queued cell is expanded and the goal was not reached, no
/// walk leads to the goal.
proof fn lemma_search_done(
    level: &Level,
    start: Position,
    goal: Position,
    seen: Seq<bool>,
    queue: Seq<Position>,
    marked: Set<int>,
    cur: Position,
)
    requires
        search_state(level, start, goal, seen, queue, marked),
        expanded(level, start, seen, queue, queue.len() as int, cur, 0),
    ensures
        !connected(level, start, goal),
{
    reveal(search_state);
    if connected(level, start, goal) {
        let p = choose|p: Seq<Position>| is_walk(level, p) && p[0] == start && p.last() == goal;
        assert forall|q: Position, jj: int|
            reached(level, seen, start, q) && 0 <= jj < 4 && level.passable_at(
                #[trigger] cardinal_neighbours(q)[jj],
            ) implies reached(level, seen, start, cardinal_neighbours(q)[jj]) by {
            let k = choose|k: int| 0 <= k < queue.len() && queue[k] == q;
            assert(cardinal_neighbours(queue[k])[jj] == cardinal_neighbours(q)[jj]);
        }
        lemma_closed_contains_walk(level, seen, start, p, p.len() - 1);
    }
}

/// Each queued cell after the first records the earlier queued cell it was
/// reached from, one step away.
pub open spec fn parents_ok(queue: Seq<Position>, parents: Seq<usize>) -> bool {
    &&& parents.len() == queue.len()
    &&& forall|k: int|
        1 <= k < queue.len() ==> (#[trigger] parents[k]) < k && is_cardinal_step(
            queue[parents[k] as int],
            queue[k],
        )
}

/// Follows the recorded steps back from queued cell `last` to the start.
fn walk_back(
    level: &Level,
    queue: &Vec<Position>,
    parents: &Vec<usize>,
    last: usize,
) -> (r: Vec<Position>)
    requires
        parents_ok(queue@, parents@),
        last < queue@.len(),
        forall|k: int| 1 <= k < queue@.len() ==> level.passable_at(#[trigger] queue@[k]),
    ensures
        is_walk(level, r@),
        r@[0] == queue@[0],
        r@.last() == queue@[last as int],
{
    let mut path: Vec<Position> = Vec::new();
    path.push(queue[last]);
    let mut k: usize = last;
    while k > 0
        invariant
            parents_ok(queue@, parents@),
            k < queue@.len(),
            last < queue@.len(),
            forall|i: int| 1 <= i < queue@.len() ==> level.passable_at(#[trigger] queue@[i]),
            is_walk(level, path@),
            path@[0] == queue@[k as int],
            path@.last() == queue@[last as int],
        decreases k,
    {
        let prev = parents[k];
        let ghost old_path = path@;
        path.insert(0, queue[prev]);
        proof {
            assert(path@ == seq![queue@[prev as int]] + old_path);
            assert(level.passable_at(queue@[k as int]));
            assert forall|i: int| 1 <= i < path@.len() implies level.passable_at(#[trigger] path@[i])
                && is_cardinal_step(path@[i - 1], path@[i]) by {
                if i >= 2 {
                    assert(path@[i] == old_path[i - 1] && path@[i - 1] == old_path[i - 2]);
                } else {
                    assert(path@[1] == old_path[0]);
                }
            }
            assert(path@.last() == old_path.last());
        }
        k = prev;
    }
    path
}

/// A walk from `start` to `goal` over passable cells, if there is one.
///
/// The search is best-first by the number of steps taken, so cells are
/// explored outwards from `start`; it stops as soon as `goal` is reached and
/// then follows the recorded steps back, which gives a shortest walk.
/// Nothing is remembered between calls.
pub fn find_path(level: &Level, start: Position, goal: Position) -> (r: Option<Vec<Position>>)
    requires
        level.wf(),
        has_neighbours(start),
    ensures
        r is Some <==> connected(level, start, goal),
        r matches Some(p) ==> is_walk(level, p@) && p@[0] == start && p@.last() == goal,
{
    if start == goal {
        proof {
            lemma_connected_refl(level, start);
        }
        let mut path: Vec<Position> = Vec::new();
        path.push(start);
        proof {
            assert(is_walk(level, path@));
        }
        return Some(path);
    }
    proof {
        lemma_cells_fit(level.width as int, level.height as int);
    }
    let n: usize = level.tiles.len();
    let mut seen: Vec<bool> = Vec::new();
    while seen.len() < n
        invariant
            seen@.len() <= n,
            forall|i: int| 0 <= i < seen@.len() ==> !(#[trigger] seen@[i]),
        decreases n - seen@.len(),
    {
        seen.push(false);
    }
    let ghost mut marked: Set<int> = Set::empty();
    let mut queue: Vec<Position> = Vec::new();
    let mut parents: Vec<usize> = Vec::new();
    queue.push(start);
    parents.push(0);
    if level.is_valid_position(start) {
        let i = level.index(start);
        seen.set(i, true);
        proof {
            marked = marked.insert(i as int);
        }
    }
    proof {
        assert(queue@ == seq![start]);
        lemma_search_init(level, start, goal, seen@, marked);
    }
    let mut head: usize = 0;
    while head < queue.len()
        invariant
            search_state(level, start, goal, seen@, queue@, marked),
            parents_ok(queue@, parents@),
            head <= queue@.len(),
            n == level.tiles@.len(),
            expanded(level, start, seen@, queue@, head as int, start, 0),
        decreases n + 1 - head,
    {
        let cur = queue[head];
        proof {
            lemma_search_facts(level, start, goal, seen@, queue@, marked, head as int);
        }
        let nbrs = cur.cardinal_adjacent_positions();
        let mut j: usize = 0;
        while j < 4
            invariant
                search_state(level, start, goal, seen@, queue@, marked),
                parents_ok(queue@, parents@),
                head < queue@.len(),
                n == level.tiles@.len(),
                cur == queue@[head as int],
                connected(level, start, cur),
                nbrs@ == cardinal_neighbours(cur),
                j <= 4,
                expanded(level, start, seen@, queue@, head as int, cur, j as int),
            decreases 4 - j,
        {
            let nb = nbrs[j];
            proof {
                lemma_search_facts(level, start, goal, seen@, queue@, marked, 0);
            }
            if level.is_passable_at(nb) {
                let i = level.index(nb);
                if !seen[i] {
                    if nb == goal {
                        proof {
                            lemma_connected_step(level, start, cur, nb);
                            lemma_search_passable(level, start, goal, seen@, queue@, marked);
                        }
                        let ghost q0 = queue@;
                        let ghost p0 = parents@;
                        queue.push(nb);
                        parents.push(head);
                        proof {
                            assert forall|k: int|
                                1 <= k < queue@.len() implies (#[trigger] parents@[k]) < k
                                && is_cardinal_step(queue@[parents@[k] as int], queue@[k]) by {
                                if k < q0.len() {
                                    assert(parents@[k] == p0[k] && queue@[k] == q0[k]);
                                    assert(queue@[p0[k] as int] == q0[p0[k] as int]);
                                } else {
                                    assert(queue@[head as int] == cur);
                                }
                            }
                            assert forall|k: int| 1 <= k < queue@.len() implies level.passable_at(
                                #[trigger] queue@[k],
                            ) by {
                                if k < q0.len() {
                                    assert(queue@[k] == q0[k]);
                                }
                            }
                        }
                        let path = walk_back(level, &queue, &parents, queue.len() - 1);
                        return Some(path);
                    }
                    let ghost s1 = seen@;
                    let ghost q1 = queue@;
                    let ghost p1 = parents@;
                    proof {
                        lemma_search_push(level, start, goal, seen@, queue@, marked, cur, nb);
                    }
                    seen.set(i, true);
                    queue.push(nb);
                    parents.push(head);
                    proof {
                        marked = marked.insert(i as int);
                        lemma_expanded_mono(level, start, s1, seen@, q1, queue@, head as int, cur, j as int);
                        assert forall|k: int|
                            1 <= k < queue@.len() implies (#[trigger] parents@[k]) < k
                            && is_cardinal_step(queue@[parents@[k] as int], queue@[k]) by {
                            if k < q1.len() {
                                assert(parents@[k] == p1[k] && queue@[k] == q1[k]);
                                assert(queue@[p1[k] as int] == q1[p1[k] as int]);
                            } else {
                                assert(queue@[head as int] == cur);
                            }
                        }
                    }
                }
            }
            j = j + 1;
        }
        proof {
            lemma_search_facts(level, start, goal, seen@, queue@, marked, head as int);
            assert(expanded(level, start, seen@, queue@, head + 1, start, 0)) by {
                assert forall|k: int, jj: int|
                    0 <= k < head + 1 && 0 <= jj < 4 && level.passable_at(
                        #[trigger] cardinal_neighbours(queue@[k])[jj],
                    ) implies reached(level, seen@, start, cardinal_neighbours(queue@[k])[jj]) by {
                    if k == head {
                        assert(queue@[k] == cur);
                    }
                }
            }
        }
        head = head + 1;
    }
    proof {
        lemma_search_done(level, start, goal, seen@, queue@, marked, start);
    }
    None
}

/// Whether a walk leads from `start` to `goal` on the level's passable cells.
pub fn has_path(level: &Level, start: Position, goal: Position) -> (r: bool)
    requires
        level.wf(),
        has_neighbours(start),
    ensures
        r == connected(level, start, goal),
{
    find_path(level, start, goal).is_some()
}

/// Every queued cell after the start can be walked on.
proof fn lemma_search_passable(
    level: &Level,
    start: Position,
    goal: Position,
    seen: Seq<bool>,
    queue: Seq<Position>,
    marked: Set<int>,
)
    requires
        search_state(level, start, goal, seen, queue, marked),
    ensures
        forall|k: int| 1 <= k < queue.len() ==> level.passable_at(#[trigger] queue[k]),
{
    reveal(search_state);
}

/// Once the search has expanded every queued cell, a cell is reached
/// exactly when a walk leads to it from the start.
proof fn lemma_search_complete(
    level: &Level,
    start: Position,
    goal: Position,
    seen: Seq<bool>,
    queue: Seq<Position>,
    marked: Set<int>,
    cur: Position,
)
    requires
        search_state(level, start, goal, seen, queue, marked),
        expanded(level, start, seen, queue, queue.len() as int, cur, 0),
    ensures
        forall|q: Position| #[trigger] reached(level, seen, start, q) <==> connected(level, start, q),
        forall|q: Position|
            (exists|k: int| 0 <= k < queue.len() && queue[k] == q) <==> #[trigger] reached(
                level,
                seen,
                start,
                q,
            ),
{
    reveal(search_state);
    assert forall|q: Position, jj: int|
        reached(level, seen, start, q) && 0 <= jj < 4 && level.passable_at(
            #[trigger] cardinal_neighbours(q)[jj],
        ) implies reached(level, seen, start, cardinal_neighbours(q)[jj]) by {
        let k = choose|k: int| 0 <= k < queue.len() && queue[k] == q;
        assert(cardinal_neighbours(queue[k])[jj] == cardinal_neighbours(q)[jj]);
    }
    assert forall|q: Position| #[trigger] reached(level, seen, start, q) <==> connected(level, start, q) by {
        if connected(level, start, q) {
            let p = choose|p: Seq<Position>| is_walk(level, p) && p[0] == start && p.last() == q;
            lemma_closed_contains_walk(level, seen, start, p, p.len() - 1);
        }
        if reached(level, seen, start, q) {
            let k = choose|k: int| 0 <= k < queue.len() && queue[k] == q;
            assert(connected(level, start, queue[k]));
        }
    }
    assert forall|q: Position|
        (exists|k: int| 0 <= k < queue.len() && queue[k] == q) implies #[trigger] reached(
        level,
        seen,
        start,
        q,
    ) by {
        let k = choose|k: int| 0 <= k < queue.len() && queue[k] == q;
        if k > 0 {
            assert(seen[cell_index(level.width as int, queue[k])]);
            assert(level.passable_at(queue[k]));
        }
    }
}

/// Every cell that a walk from `start` reaches: a mark per cell of the
/// grid, and the cells themselves in the order the search met them.
pub fn explore(level: &Level, start: Position) -> (r: (Vec<bool>, Vec<Position>))
    requires
        level.wf(),
        level.in_bounds(start),
    ensures
        r.0@.len() == level.tiles@.len(),
        forall|q: Position|
            level.in_bounds(q) ==> (r.0@[cell_index(level.width as int, q)] <==> #[trigger] connected(
                level,
                start,
                q,
            )),
        forall|q: Position| #[trigger] r.1@.contains(q) <==> connected(level, start, q),
{
    let ghost goal = Position { x: -1i32, y: -1i32 };
    proof {
        lemma_cells_fit(level.width as int, level.height as int);
    }
    let n: usize = level.tiles.len();
    let mut seen: Vec<bool> = Vec::new();
    while seen.len() < n
        invariant
            seen@.len() <= n,
            forall|i: int| 0 <= i < seen@.len() ==> !(#[trigger] seen@[i]),
        decreases n - seen@.len(),
    {
        seen.push(false);
    }
    let ghost mut marked: Set<int> = Set::empty();
    let mut queue: Vec<Position> = Vec::new();
    queue.push(start);
    let i = level.index(start);
    seen.set(i, true);
    proof {
        marked = marked.insert(i as int);
        assert(queue@ == seq![start]);
        lemma_search_init(level, start, goal, seen@, marked);
    }
    let mut head: usize = 0;
    while head < queue.len()
        invariant
            search_state(level, start, goal, seen@, queue@, marked),
            level.in_bounds(start),
            goal == (Position { x: -1i32, y: -1i32 }),
            queue@.len() >= 1,
            cell_index(level.width as int, start) < seen@.len(),
            seen@[cell_index(level.width as int, start)],
            head <= queue@.len(),
            n == level.tiles@.len(),
            expanded(level, start, seen@, queue@, head as int, start, 0),
        decreases n + 1 - head,
    {
        let cur = queue[head];
        proof {
            lemma_search_facts(level, start, goal, seen@, queue@, marked, head as int);
        }
        let nbrs = cur.cardinal_adjacent_positions();
        let mut j: usize = 0;
        while j < 4
            invariant
                search_state(level, start, goal, seen@, queue@, marked),
                head < queue@.len(),
                level.in_bounds(start),
                goal == (Position { x: -1i32, y: -1i32 }),
                cell_index(level.width as int, start) < seen@.len(),
                seen@[cell_index(level.width as int, start)],
                n == level.tiles@.len(),
                cur == queue@[head as int],
                connected(level, start, cur),
                nbrs@ == cardinal_neighbours(cur),
                j <= 4,
                expanded(level, start, seen@, queue@, head as int, cur, j as int),
            decreases 4 - j,
        {
            let nb = nbrs[j];
            proof {
                lemma_search_facts(level, start, goal, seen@, queue@, marked, 0);
            }
            if level.is_passable_at(nb) {
                let i = level.index(nb);
                if !seen[i] {
                    assert(nb != goal);
                    let ghost s1 = seen@;
                    let ghost q1 = queue@;
                    proof {
                        lemma_search_push(level, start, goal, seen@, queue@, marked, cur, nb);
                    }
                    seen.set(i, true);
                    queue.push(nb);
                    proof {
                        marked = marked.insert(i as int);
                        lemma_expanded_mono(level, start, s1, seen@, q1, queue@, head as int, cur, j as int);
                    }
                }
            }
            j = j + 1;
        }
        proof {
            lemma_search_facts(level, start, goal, seen@, queue@, marked, head as int);
            assert(expanded(level, start, seen@, queue@, head + 1, start, 0)) by {
                assert forall|k: int, jj: int|
                    0 <= k < head + 1 && 0 <= jj < 4 && level.passable_at(
                        #[trigger] cardinal_neighbours(queue@[k])[jj],
                    ) implies reached(level, seen@, start, cardinal_neighbours(queue@[k])[jj]) by {
                    if k == head {
                        assert(queue@[k] == cur);
                    }
                }
            }
        }
        head = head + 1;
    }
    proof {
        lemma_search_complete(level, start, goal, seen@, queue@, marked, start);
        lemma_search_facts(level, start, goal, seen@, queue@, marked, 0);
        assert forall|q: Position| level.in_bounds(q) implies (seen@[cell_index(
            level.width as int,
            q,
        )] <==> #[trigger] connected(level, start, q)) by {
            assert(reached(level, seen@, start, q) <==> connected(level, start, q));
            lemma_cell_index_bounds(level.width as int, level.height as int, q.x as int, q.y as int);
            lemma_cell_index_bounds(level.width as int, level.height as int, start.x as int, start.y as int);
            if q != start && seen@[cell_index(level.width as int, q)] {
                assert(reached(level, seen@, start, q));
            }
            if q == start {
                assert(reached(level, seen@, start, q));
            }
        }
        assert forall|q: Position| #[trigger] queue@.contains(q) <==> connected(level, start, q) by {
            assert(reached(level, seen@, start, q) <==> connected(level, start, q));
        }
    }
    (seen, queue)
}

} // verus!
