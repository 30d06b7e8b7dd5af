use vstd::prelude::*;
use vstd::laws_eq::obeys_concrete_eq;
use rand::rngs::StdRng;
use crate::collapse_rules::{CollapseRule, check_rule, holds};
use crate::frontier::{Frontier, frontier_entries, frontier_push, frontier_pop, frontier_peek, frontier_new, frontier_is_empty, random_below};
use crate::grid::{Grid, GridView, cell_eq, lemma_index_bijection};
use crate::measure::{lex_value, lemma_lex_less, lemma_distinct_below, queue_weight, lemma_weight_update};
use crate::pos::Pos;

verus! {

/// The candidates among the first `n` of `options` whose rules, `rules[k]`
/// for `options[k]`, hold at `(x, y)`, in their order.
pub open spec fn valid_options<T>(
    options: Seq<T>,
    rules: Seq<CollapseRule<T>>,
    n: int,
    g: GridView<T>,
    h: GridView<T>,
    x: int,
    y: int,
    unset: T,
    outer: T,
    depth: nat,
) -> Seq<T>
    decreases n,
{
    if n <= 0 {
        Seq::empty()
    } else {
        let prev = valid_options(options, rules, n - 1, g, h, x, y, unset, outer, depth);
        if holds(rules[n - 1], g, h, x, y, unset, outer, depth) {
            prev.push(options[n - 1])
        } else {
            prev
        }
    }
}

/// Some candidate's rule is the constant `True`, which holds everywhere
/// when any depth is allowed.
pub open spec fn some_rule_always_holds<T>(rules: Seq<CollapseRule<T>>, max_depth: nat) -> bool {
    max_depth >= 1 && exists|k: int| 0 <= k < rules.len() && (#[trigger] rules[k]) is True
}

/// No candidate's rule can ever hold.
pub open spec fn no_rule_can_hold<T>(rules: Seq<CollapseRule<T>>, max_depth: nat) -> bool {
    max_depth == 0 || forall|k: int| 0 <= k < rules.len() ==> (#[trigger] rules[k]) is False
}

/// The candidates whose rules hold at `pos`.
fn find_valid_options<T: Copy + PartialEq>(
    grid: &Grid<T>,
    history_grid: &Grid<T>,
    pos: &Pos,
    tile_options: &Vec<T>,
    tile_rules: &Vec<CollapseRule<T>>,
    unset: T,
    outer: T,
    max_depth: usize,
) -> (r: Vec<T>)
    requires
        grid@.wf(),
        history_grid@.wf(),
        obeys_concrete_eq::<T>(),
        tile_rules@.len() == tile_options@.len(),
    ensures
        r@ == valid_options(
            tile_options@,
            tile_rules@,
            tile_options@.len() as int,
            grid@,
            history_grid@,
            pos.x as int,
            pos.y as int,
            unset,
            outer,
            max_depth as nat,
        ),
        r@.len() <= tile_options@.len(),
        forall|j: int| 0 <= j < r@.len() ==> tile_options@.contains(#[trigger] r@[j]),
        some_rule_always_holds(tile_rules@, max_depth as nat) ==> r@.len() > 0,
        no_rule_can_hold(tile_rules@, max_depth as nat) ==> r@.len() == 0,
{
    let ghost (x, y) = (pos.x as int, pos.y as int);
    let mut r: Vec<T> = Vec::new();
    let mut k: usize = 0;
    while k < tile_options.len()
        invariant
            grid@.wf(),
            history_grid@.wf(),
            obeys_concrete_eq::<T>(),
            tile_rules@.len() == tile_options@.len(),
            x == pos.x,
            y == pos.y,
            k <= tile_options@.len(),
            r@ == valid_options(tile_options@, tile_rules@, k as int, grid@, history_grid@, x, y, unset, outer, max_depth as nat),
            r@.len() <= k,
            forall|j: int| 0 <= j < r@.len() ==> tile_options@.contains(#[trigger] r@[j]),
            max_depth >= 1 && (exists|j: int| 0 <= j < k && (#[trigger] tile_rules@[j]) is True) ==> r@.len() > 0,
            no_rule_can_hold(tile_rules@, max_depth as nat) ==> r@.len() == 0,
        decreases tile_options.len() - k,
    {
        if check_rule(grid, history_grid, pos, &tile_rules[k], unset, outer, max_depth) {
            r.push(tile_options[k]);
            proof {
                assert(tile_options@.contains(tile_options@[k as int]));
            }
        }
        proof {
            if max_depth >= 1 && tile_rules@[k as int] is True {
                assert(holds(tile_rules@[k as int], grid@, history_grid@, x, y, unset, outer, max_depth as nat));
            }
            if no_rule_can_hold(tile_rules@, max_depth as nat) {
                assert(!holds(tile_rules@[k as int], grid@, history_grid@, x, y, unset, outer, max_depth as nat));
            }
        }
        k = k + 1;
    }
    r
}

/// Cell `d` lies within distance `r` of cell `c` on both axes, and is not `c`.
pub open spec fn within_radius<T>(g: GridView<T>, c: int, d: int, r: int) -> bool {
    &&& c != d
    &&& -r <= g.x_of(d) - g.x_of(c) <= r
    &&& -r <= g.y_of(d) - g.y_of(c) <= r
}

/// `after` has the shape of `before`, and differs from it only where
/// `before` was unset, there holding one of `options`.
pub open spec fn fills_from<T>(before: GridView<T>, after: GridView<T>, options: Seq<T>, unset: T) -> bool {
    &&& after.width == before.width
    &&& after.height == before.height
    &&& after.cells.len() == before.cells.len()
    &&& forall|c: int|
        0 <= c < before.cells.len() ==> #[trigger] after.cells[c] == before.cells[c] || (before.cells[c] == unset
            && options.contains(after.cells[c]))
}

/// Around every cell filled between `before` and `after`, no cell within
/// radius `r` is left unset.
pub open spec fn filled_neighbourhoods<T>(before: GridView<T>, after: GridView<T>, r: int, unset: T) -> bool {
    forall|c: int, d: int|
        0 <= c < after.cells.len() && 0 <= d < after.cells.len() && before.cells[c] == unset && after.cells[c]
            != unset && #[trigger] within_radius(after, c, d, r) ==> after.cells[d] != unset
}

/// Some cell of `g` is set.
pub open spec fn some_cell_set<T>(g: GridView<T>, unset: T) -> bool {
    exists|c: int| 0 <= c < g.cells.len() && #[trigger] g.cells[c] != unset
}

/// The retry budgets of a placement stack.
pub open spec fn budgets(stack: Seq<(usize, usize)>) -> Seq<usize> {
    stack.map_values(|e: (usize, usize)| e.1)
}

/// The cell indices of a placement stack.
pub open spec fn placed_cells(stack: Seq<(usize, usize)>) -> Seq<usize> {
    stack.map_values(|e: (usize, usize)| e.0)
}

/// What holds of the solver's state between steps: the working grid `g`
/// differs from `input` only at placed cells, the placement stack records
/// distinct placed cells, and every unset cell near a filled cell, and every
/// unset seed, is still waiting in the frontier.
pub open spec fn solver_state<T>(
    input: GridView<T>,
    g: GridView<T>,
    stack: Seq<(usize, usize)>,
    entries: Map<usize, usize>,
    seeds: Seq<usize>,
    options: Seq<T>,
    radius: int,
    unset: T,
    outer: T,
    budget: nat,
) -> bool {
    let n = input.cells.len();
    &&& g.wf()
    &&& fills_from(input, g, options, unset)
    &&& forall|j: int|
        0 <= j < stack.len() ==> {
            &&& (#[trigger] stack[j]).0 < n
            &&& stack[j].1 <= budget
            &&& input.cells[stack[j].0 as int] == unset
            &&& g.cells[stack[j].0 as int] != unset
        }
    &&& forall|a: int, b: int| 0 <= a < b < stack.len() ==> (#[trigger] stack[a]).0 != (#[trigger] stack[b]).0
    &&& forall|k: usize| #[trigger] entries.contains_key(k) ==> k < n && entries[k] <= options.len()
    &&& unset == outer ==> stack.len() == 0 && g.cells == input.cells
    &&& unset != outer ==> forall|c: int, d: int|
        0 <= c < n && 0 <= d < n && input.cells[c] == unset && g.cells[c] != unset && #[trigger] within_radius(
            g,
            c,
            d,
            radius,
        ) && g.cells[d] == unset ==> entries.contains_key(d as usize)
    &&& unset != outer ==> forall|j: int|
        0 <= j < seeds.len() ==> g.cells[#[trigger] seeds[j] as int] != unset || entries.contains_key(seeds[j])
    &&& forall|j: int| 0 <= j < seeds.len() ==> #[trigger] seeds[j] < n
}

proof fn lemma_stack_fits<T>(input: GridView<T>, g: GridView<T>, stack: Seq<(usize, usize)>, extra: usize, unset: T)
    requires
        forall|j: int|
            0 <= j < stack.len() ==> (#[trigger] stack[j]).0 < input.cells.len() && g.cells[stack[j].0 as int] != unset,
        forall|a: int, b: int| 0 <= a < b < stack.len() ==> (#[trigger] stack[a]).0 != (#[trigger] stack[b]).0,
        extra < input.cells.len(),
        g.cells.len() == input.cells.len(),
        g.cells[extra as int] == unset,
    ensures
        stack.len() < input.cells.len(),
{
    let s = placed_cells(stack).push(extra);
    assert forall|a: int, b: int| 0 <= a < b < s.len() implies s[a] != s[b] by {
        if b < stack.len() {
            assert(stack[a].0 != stack[b].0);
        } else {
            assert(g.cells[stack[a].0 as int] != unset);
        }
    }
    assert forall|a: int| 0 <= a < s.len() implies s[a] < input.cells.len() by {
        if a < stack.len() {
            assert(stack[a].0 < input.cells.len());
        }
    }
    crate::measure::lemma_distinct_below(s, input.cells.len());
}

/// An unset cell at offset `(ex, ey)` from `(x, y)` on `g`, other than
/// `(x, y)` itself, is queued in `m`.
pub open spec fn offset_queued<T>(g: GridView<T>, m: Map<usize, usize>, x: int, y: int, ex: int, ey: int, unset: T) -> bool {
    !(ex == 0 && ey == 0) && g.in_bounds(x + ex, y + ey) && g.cells[g.index_of(x + ex, y + ey)] == unset
        ==> m.contains_key(g.index_of(x + ex, y + ey) as usize)
}

/// Queues every unset cell within `radius` of `pos`, `pos` excluded, with
/// its current count of valid candidates.
fn recheck_neighbours<T: Copy + PartialEq>(
    grid: &Grid<T>,
    history_grid: &Grid<T>,
    front: &mut Frontier,
    pos: &Pos,
    tile_options: &Vec<T>,
    tile_rules: &Vec<CollapseRule<T>>,
    radius: isize,
    unset: T,
    outer: T,
    max_depth: usize,
)
    requires
        grid@.wf(),
        history_grid@.wf(),
        obeys_concrete_eq::<T>(),
        tile_rules@.len() == tile_options@.len(),
        grid@.in_bounds(pos.x as int, pos.y as int),
        forall|k: usize| #[trigger]
            frontier_entries(*old(front)).contains_key(k) ==> k < grid@.cells.len() && frontier_entries(
                *old(front),
            )[k] <= tile_options@.len(),
    ensures
        forall|k: usize| #[trigger]
            frontier_entries(*old(front)).contains_key(k) ==> frontier_entries(*final(front)).contains_key(k),
        forall|k: usize| #[trigger]
            frontier_entries(*final(front)).contains_key(k) ==> k < grid@.cells.len() && frontier_entries(
                *final(front),
            )[k] <= tile_options@.len(),
        unset != outer ==> forall|d: int|
            0 <= d < grid@.cells.len() && #[trigger] within_radius(
                grid@,
                grid@.index_of(pos.x as int, pos.y as int),
                d,
                radius as int,
            ) && grid@.cells[d] == unset ==> frontier_entries(*final(front)).contains_key(d as usize),
{
    let ghost g = grid@;
    let ghost (x, y) = (pos.x as int, pos.y as int);
    let ghost n = g.cells.len();
    let ghost m0 = frontier_entries(*front);
    if radius >= 0 {
        let mut dx: isize = -radius;
        loop
            invariant
                grid@.wf(),
                history_grid@.wf(),
                obeys_concrete_eq::<T>(),
                tile_rules@.len() == tile_options@.len(),
                g == grid@,
                x == pos.x,
                y == pos.y,
                n == g.cells.len(),
                radius >= 0,
                -radius <= dx <= radius,
                forall|k: usize| #[trigger] m0.contains_key(k) ==> frontier_entries(*front).contains_key(k),
                forall|k: usize| #[trigger]
                    frontier_entries(*front).contains_key(k) ==> k < n && frontier_entries(*front)[k]
                        <= tile_options@.len(),
                unset != outer ==> forall|ex: int, ey: int|
                    -radius <= ex < dx && -radius <= ey <= radius ==> #[trigger] offset_queued(
                        g,
                        frontier_entries(*front),
                        x,
                        y,
                        ex,
                        ey,
                        unset,
                    ),
            ensures
                forall|k: usize| #[trigger] m0.contains_key(k) ==> frontier_entries(*front).contains_key(k),
                forall|k: usize| #[trigger]
                    frontier_entries(*front).contains_key(k) ==> k < n && frontier_entries(*front)[k]
                        <= tile_options@.len(),
                unset != outer ==> forall|ex: int, ey: int|
                    -radius <= ex <= radius && -radius <= ey <= radius ==> #[trigger] offset_queued(
                        g,
                        frontier_entries(*front),
                        x,
                        y,
                        ex,
                        ey,
                        unset,
                    ),
            decreases radius - dx,
        {
            let ghost m_row = frontier_entries(*front);
            let mut dy: isize = -radius;
            loop
                invariant
                    grid@.wf(),
                    history_grid@.wf(),
                    obeys_concrete_eq::<T>(),
                    tile_rules@.len() == tile_options@.len(),
                    g == grid@,
                    x == pos.x,
                    y == pos.y,
                    n == g.cells.len(),
                    radius >= 0,
                    -radius <= dx <= radius,
                    -radius <= dy <= radius,
                    forall|k: usize| #[trigger] m_row.contains_key(k) ==> frontier_entries(*front).contains_key(k),
                    forall|k: usize| #[trigger] m0.contains_key(k) ==> frontier_entries(*front).contains_key(k),
                    forall|k: usize| #[trigger]
                        frontier_entries(*front).contains_key(k) ==> k < n && frontier_entries(*front)[k]
                            <= tile_options@.len(),
                    unset != outer ==> forall|ex: int, ey: int|
                        -radius <= ex < dx && -radius <= ey <= radius ==> #[trigger] offset_queued(
                            g,
                            m_row,
                            x,
                            y,
                            ex,
                            ey,
                            unset,
                        ),
                    unset != outer ==> forall|ey: int|
                        -radius <= ey < dy ==> #[trigger] offset_queued(
                            g,
                            frontier_entries(*front),
                            x,
                            y,
                            dx as int,
                            ey,
                            unset,
                        ),
                ensures
                    forall|k: usize| #[trigger] m_row.contains_key(k) ==> frontier_entries(*front).contains_key(k),
                    forall|k: usize| #[trigger] m0.contains_key(k) ==> frontier_entries(*front).contains_key(k),
                    forall|k: usize| #[trigger]
                        frontier_entries(*front).contains_key(k) ==> k < n && frontier_entries(*front)[k]
                            <= tile_options@.len(),
                    unset != outer ==> forall|ey: int|
                        -radius <= ey <= radius ==> #[trigger] offset_queued(
                            g,
                            frontier_entries(*front),
                            x,
                            y,
                            dx as int,
                            ey,
                            unset,
                        ),
                decreases radius - dy,
            {
                let ghost m_before = frontier_entries(*front);
                if !(dx == 0 && dy == 0) {
                    match (pos.x.checked_add(dx), pos.y.checked_add(dy)) {
                        (Some(nx), Some(ny)) => {
                            let neighbour_pos = Pos::new(nx, ny);
                            if grid.is_valid(&neighbour_pos) {
                                let neighbour_tile = grid.get(&neighbour_pos, outer);
                                if cell_eq(&neighbour_tile, &unset) && !cell_eq(&neighbour_tile, &outer) {
                                    let options_here = find_valid_options(
                                        grid,
                                        history_grid,
                                        &neighbour_pos,
                                        tile_options,
                                        tile_rules,
                                        unset,
                                        outer,
                                        max_depth,
                                    );
                                    let ni = grid.pos_to_i(&neighbour_pos);
                                    frontier_push(front, ni, options_here.len());
                                }
                            }
                        },
                        _ => {
                            proof {
                                if g.in_bounds(x + dx, y + dy) {
                                    let (w, h) = (g.width as int, g.height as int);
                                    assert(w <= w * h && h <= w * h) by (nonlinear_arith)
                                        requires
                                            w > 0,
                                            h >= 1,
                                    ;
                                }
                            }
                            assert(!g.in_bounds(x + dx, y + dy));
                        },
                    }
                }
                proof {
                    let m = frontier_entries(*front);
                    assert forall|k: usize| #[trigger] m_before.contains_key(k) implies m.contains_key(k) by {}
                    if unset != outer {
                        assert(offset_queued(g, m, x, y, dx as int, dy as int, unset));
                        assert forall|ey: int| -radius <= ey <= dy implies #[trigger] offset_queued(
                            g,
                            m,
                            x,
                            y,
                            dx as int,
                            ey,
                            unset,
                        ) by {
                            if ey < dy {
                                assert(offset_queued(g, m_before, x, y, dx as int, ey, unset));
                            }
                        }
                    }
                }
                if dy == radius {
                    break;
                }
                dy = dy + 1;
            }
            proof {
                let m = frontier_entries(*front);
                if unset != outer {
                    assert forall|ex: int, ey: int|
                        -radius <= ex <= dx && -radius <= ey <= radius implies #[trigger] offset_queued(
                        g,
                        m,
                        x,
                        y,
                        ex,
                        ey,
                        unset,
                    ) by {
                        if ex < dx {
                            assert(offset_queued(g, m_row, x, y, ex, ey, unset));
                        }
                    }
                }
            }
            if dx == radius {
                break;
            }
            dx = dx + 1;
        }
    }
    proof {
        let m = frontier_entries(*front);
        let i = g.index_of(x, y);
        if unset != outer {
            assert forall|d: int|
                0 <= d < n && #[trigger] within_radius(g, i, d, radius as int) && g.cells[d] == unset implies m.contains_key(
                d as usize,
            ) by {
                lemma_index_bijection(g, d);
                crate::grid::lemma_index_in_range(g.width as int, g.height as int, x, y);
                assert(g.x_of(i) == x && g.y_of(i) == y) by {
                    vstd::arithmetic::div_mod::lemma_fundamental_div_mod_converse(i, g.width as int, y, x);
                }
                let ex = g.x_of(d) - x;
                let ey = g.y_of(d) - y;
                assert(offset_queued(g, m, x, y, ex, ey, unset));
                assert(x + ex == g.x_of(d) && y + ey == g.y_of(d));
            }
        }
    }
}

/// Clearing the cell of the last placement and queueing it keeps the
/// solver's state.
proof fn lemma_undo_last<T>(
    input: GridView<T>,
    g0: GridView<T>,
    g1: GridView<T>,
    st0: Seq<(usize, usize)>,
    m0: Map<usize, usize>,
    m1: Map<usize, usize>,
    seeds: Seq<usize>,
    options: Seq<T>,
    radius: int,
    unset: T,
    outer: T,
    budget: nat,
)
    requires
        solver_state(input, g0, st0, m0, seeds, options, radius, unset, outer, budget),
        unset != outer,
        st0.len() > 0,
        g1 == g0.set(g0.x_of(st0.last().0 as int), g0.y_of(st0.last().0 as int), unset),
        m1 == m0.insert(st0.last().0, 0),
    ensures
        solver_state(input, g1, st0.drop_last(), m1, seeds, options, radius, unset, outer, budget),
{
    let li = st0.last().0 as int;
    let n = input.cells.len();
    lemma_index_bijection(g0, li);
    assert(g1.cells == g0.cells.update(li, unset));
    let st1 = st0.drop_last();
    assert forall|j: int| 0 <= j < st1.len() implies (#[trigger] st1[j]).0 != li by {
        assert(st0[j].0 != st0[st0.len() - 1].0);
    }
    assert forall|c: int, d: int|
        0 <= c < n && 0 <= d < n && input.cells[c] == unset && g1.cells[c] != unset && #[trigger] within_radius(
            g1,
            c,
            d,
            radius,
        ) && g1.cells[d] == unset implies m1.contains_key(d as usize) by {
        if d != li {
            assert(within_radius(g0, c, d, radius));
        }
    }
    assert forall|j: int| 0 <= j < seeds.len() implies g1.cells[#[trigger] seeds[j] as int] != unset
        || m1.contains_key(seeds[j]) by {
        if seeds[j] as int != li {
            assert(g0.cells[seeds[j] as int] != unset || m0.contains_key(seeds[j]));
        }
    }
    assert forall|k: usize| #[trigger] m1.contains_key(k) implies k < n && m1[k] <= options.len() by {
        if k != li as usize {
            assert(m0.contains_key(k));
        }
    }
}

/// Undoes placements after a dead end: always the latest one, then each
/// earlier one whose retries are used up, until one with retries left loses
/// one. Undone cells go back to `unset` and into the frontier. Returns
/// `false` when the placements run out.
fn backtrack<T: Copy>(
    grid: &mut Grid<T>,
    front: &mut Frontier,
    placed_stack: &mut Vec<(usize, usize)>,
    unset: T,
    Ghost(input): Ghost<GridView<T>>,
    Ghost(seeds): Ghost<Seq<usize>>,
    Ghost(options): Ghost<Seq<T>>,
    Ghost(radius): Ghost<int>,
    Ghost(outer): Ghost<T>,
    Ghost(budget): Ghost<nat>,
) -> (r: bool)
    requires
        solver_state(input, old(grid)@, old(placed_stack)@, frontier_entries(*old(front)), seeds, options, radius, unset, outer, budget),
        unset != outer,
    ensures
        r ==> solver_state(input, final(grid)@, final(placed_stack)@, frontier_entries(*final(front)), seeds, options, radius, unset, outer, budget),
        r ==> lex_value(budgets(final(placed_stack)@), 0, input.cells.len() as int, budget + 1)
            < lex_value(budgets(old(placed_stack)@), 0, input.cells.len() as int, budget + 1),
        old(placed_stack)@.len() == 0 ==> !r,
{
    let ghost st0 = placed_stack@;
    let ghost n = input.cells.len() as int;
    proof {
        lemma_distinct_below(placed_cells(st0), n as nat);
    }
    let mut first_backtrack = true;
    loop
        invariant_except_break
            first_backtrack ==> placed_stack@ == st0,
            !first_backtrack ==> placed_stack@.len() < st0.len() && placed_stack@ == st0.subrange(0, placed_stack@.len() as int),
        invariant
            unset != outer,
            n == input.cells.len(),
            st0.len() <= n,
            solver_state(input, grid@, placed_stack@, frontier_entries(*front), seeds, options, radius, unset, outer, budget),
            forall|t: int| 0 <= t < st0.len() ==> (#[trigger] st0[t]).1 <= budget,
        ensures
            st0.len() > 0,
            lex_value(budgets(placed_stack@), 0, n, budget + 1) < lex_value(budgets(st0), 0, n, budget + 1),
        decreases placed_stack@.len(),
    {
        if placed_stack.len() == 0 {
            return false;
        }
        let last = placed_stack.len() - 1;
        let (last_i, last_budget) = placed_stack[last];
        if first_backtrack || last_budget == 0 {
            first_backtrack = false;
            let ghost g0 = grid@;
            let ghost m0 = frontier_entries(*front);
            let ghost s0 = placed_stack@;
            let last_pos = grid.i_to_pos(last_i);
            grid.set(&last_pos, unset);
            frontier_push(front, last_i, 0);
            placed_stack.pop();
            proof {
                lemma_undo_last(input, g0, grid@, s0, m0, frontier_entries(*front), seeds, options, radius, unset, outer, budget);
                assert(placed_stack@ =~= st0.subrange(0, placed_stack@.len() as int));
            }
        } else {
            let ghost s0 = placed_stack@;
            placed_stack.set(last, (last_i, last_budget - 1));
            proof {
                let b1 = budgets(placed_stack@);
                let b0 = budgets(st0);
                assert forall|t: int| 0 <= t < last implies #[trigger] crate::measure::digit(b1, t, budget + 1)
                    == crate::measure::digit(b0, t, budget + 1) by {
                    assert(placed_stack@[t] == st0[t]);
                }
                assert(s0[last as int] == st0[last as int]);
                assert forall|t: int| 0 <= t < b1.len() implies #[trigger] b1[t] <= budget + 1 by {
                    if t != last {
                        assert(placed_stack@[t] == s0[t]);
                    }
                }
                lemma_lex_less(b1, b0, last as int, 0, n, budget + 1);
                assert forall|a: int, b: int| 0 <= a < b < placed_stack@.len() implies
                    (#[trigger] placed_stack@[a]).0 != (#[trigger] placed_stack@[b]).0 by {
                    assert(s0[a].0 != s0[b].0);
                }
                assert forall|j: int| 0 <= j < placed_stack@.len() implies
                    (#[trigger] placed_stack@[j]).0 < n && placed_stack@[j].1 <= budget
                    && input.cells[placed_stack@[j].0 as int] == unset
                    && grid@.cells[placed_stack@[j].0 as int] != unset by {
                    assert(s0[j].0 == placed_stack@[j].0);
                    if j != last {
                        assert(placed_stack@[j] == s0[j]);
                    }
                }
            }
            break;
        }
    }
    true
}

/// Queueing a cell anew, or with a new count, keeps the solver's state.
proof fn lemma_requeue<T>(
    input: GridView<T>,
    g: GridView<T>,
    st: Seq<(usize, usize)>,
    m0: Map<usize, usize>,
    i: usize,
    v: usize,
    seeds: Seq<usize>,
    options: Seq<T>,
    radius: int,
    unset: T,
    outer: T,
    budget: nat,
)
    requires
        solver_state(input, g, st, m0, seeds, options, radius, unset, outer, budget),
        i < input.cells.len(),
        v <= options.len(),
    ensures
        solver_state(input, g, st, m0.insert(i, v), seeds, options, radius, unset, outer, budget),
{
    let m1 = m0.insert(i, v);
    assert forall|k: usize| #[trigger] m1.contains_key(k) implies k < input.cells.len() && m1[k] <= options.len() by {
        if k != i {
            assert(m0.contains_key(k));
        }
    }
}

/// Dropping the entry of a cell that needs no decision keeps the solver's
/// state.
proof fn lemma_settled<T>(
    input: GridView<T>,
    g: GridView<T>,
    st: Seq<(usize, usize)>,
    m0: Map<usize, usize>,
    i: usize,
    seeds: Seq<usize>,
    options: Seq<T>,
    radius: int,
    unset: T,
    outer: T,
    budget: nat,
)
    requires
        solver_state(input, g, st, m0, seeds, options, radius, unset, outer, budget),
        i < input.cells.len(),
        g.cells[i as int] != unset || unset == outer,
    ensures
        solver_state(input, g, st, m0.remove(i), seeds, options, radius, unset, outer, budget),
{
}

/// Committing a value at an unset cell, with its neighbourhood queued,
/// keeps the solver's state with the placement on the stack.
proof fn lemma_place<T>(
    input: GridView<T>,
    g0: GridView<T>,
    g1: GridView<T>,
    st0: Seq<(usize, usize)>,
    m0: Map<usize, usize>,
    m2: Map<usize, usize>,
    i: usize,
    v: T,
    seeds: Seq<usize>,
    options: Seq<T>,
    radius: int,
    unset: T,
    outer: T,
    budget: nat,
)
    requires
        solver_state(input, g0, st0, m0, seeds, options, radius, unset, outer, budget),
        unset != outer,
        i < input.cells.len(),
        g0.cells[i as int] == unset,
        g1 == (GridView { cells: g0.cells.update(i as int, v), ..g0 }),
        v != unset,
        options.contains(v),
        forall|k: usize| #[trigger] m0.contains_key(k) && k != i ==> m2.contains_key(k),
        forall|k: usize| #[trigger]
            m2.contains_key(k) ==> k < input.cells.len() && m2[k] <= options.len(),
        forall|d: int|
            0 <= d < g1.cells.len() && #[trigger] within_radius(g1, i as int, d, radius) && g1.cells[d] == unset
                ==> m2.contains_key(d as usize),
    ensures
        solver_state(input, g1, st0.push((i, budget as usize)), m2, seeds, options, radius, unset, outer, budget),
{
    let n = input.cells.len();
    let st1 = st0.push((i, budget as usize));
    assert forall|c: int| 0 <= c < n implies #[trigger] g1.cells[c] == input.cells[c] || (input.cells[c] == unset
        && options.contains(g1.cells[c])) by {
        if c != i {
            assert(g0.cells[c] == input.cells[c] || (input.cells[c] == unset && options.contains(g0.cells[c])));
        } else {
            assert(g0.cells[c] == input.cells[c] || (input.cells[c] == unset && options.contains(g0.cells[c])));
        }
    }
    assert forall|j: int| 0 <= j < st0.len() implies (#[trigger] st0[j]).0 != i by {
        assert(g0.cells[st0[j].0 as int] != unset);
    }
    assert forall|j: int| 0 <= j < st1.len() implies {
        &&& (#[trigger] st1[j]).0 < n
        &&& st1[j].1 <= budget
        &&& input.cells[st1[j].0 as int] == unset
        &&& g1.cells[st1[j].0 as int] != unset
    } by {
        if j < st0.len() {
            assert(st1[j] == st0[j]);
        } else {
            assert(g0.cells[i as int] == input.cells[i as int] || input.cells[i as int] == unset);
        }
    }
    assert forall|a: int, b: int| 0 <= a < b < st1.len() implies (#[trigger] st1[a]).0 != (#[trigger] st1[b]).0 by {
        assert(st1[a] == st0[a]);
        if b < st0.len() {
            assert(st1[b] == st0[b]);
        }
    }
    assert forall|c: int, d: int|
        0 <= c < n && 0 <= d < n && input.cells[c] == unset && g1.cells[c] != unset && #[trigger] within_radius(
            g1,
            c,
            d,
            radius,
        ) && g1.cells[d] == unset implies m2.contains_key(d as usize) by {
        if c != i {
            assert(within_radius(g0, c, d, radius));
            assert(d != i);
            assert(m0.contains_key(d as usize));
        }
    }
    assert forall|j: int| 0 <= j < seeds.len() implies g1.cells[#[trigger] seeds[j] as int] != unset
        || m2.contains_key(seeds[j]) by {
        if seeds[j] != i {
            assert(g0.cells[seeds[j] as int] != unset || m0.contains_key(seeds[j]));
        }
    }
}

/// Fills the unset cells of `grid` by randomized backtracking search.
///
/// The frontier starts with `seeds` cells drawn at random. Each step takes
/// the queued cell with the fewest valid candidates; a cell that is already
/// set (or reads as `outer`) is dropped, and one whose count went up since it
/// was queued is queued again with its current count. Otherwise a candidate
/// whose rule holds is drawn at random and placed with `retry_budget`
/// retries, and every unset cell within `re_check_radius` is queued with its
/// count. A cell with no valid candidate is queued again and placements are
/// undone (see `backtrack`); when none is left to retry the search fails
/// with `None`. The search succeeds when the frontier runs empty.
#[verifier::loop_isolation(false)]
pub fn collapse_rule<T: Copy + PartialEq>(
    grid: Grid<T>,
    history_grid: &Grid<T>,
    tile_options: &Vec<T>,
    tile_rules: &Vec<CollapseRule<T>>,
    re_check_radius: isize,
    unset: T,
    outer: T,
    max_depth: usize,
    seeds: usize,
    retry_budget: usize,
    rng: &mut StdRng,
) -> (r: Option<Grid<T>>)
    requires
        grid@.wf(),
        history_grid@.wf(),
        obeys_concrete_eq::<T>(),
        tile_rules@.len() == tile_options@.len(),
        forall|k: int| 0 <= k < tile_options@.len() ==> #[trigger] tile_options@[k] != unset,
        seeds > 0 ==> grid@.cells.len() > 0,
    ensures
        match r {
            Some(g) => {
                &&& g@.wf()
                &&& fills_from(grid@, g@, tile_options@, unset)
                &&& unset != outer ==> filled_neighbourhoods(grid@, g@, re_check_radius as int, unset)
                &&& unset != outer && seeds > 0 ==> some_cell_set(g@, unset)
            },
            None => true,
        },
        some_rule_always_holds(tile_rules@, max_depth as nat) ==> r is Some,
        seeds > 0 && unset != outer && no_rule_can_hold(tile_rules@, max_depth as nat) && (forall|c: int|
            0 <= c < grid@.cells.len() ==> #[trigger] grid@.cells[c] == unset) ==> r is None,
{
    let mut working = grid;
    let ghost input = working@;
    let ghost n = input.cells.len() as int;
    let ghost lcount = tile_options@.len();
    let ghost hopeless = seeds > 0 && unset != outer && no_rule_can_hold(tile_rules@, max_depth as nat)
        && (forall|c: int| 0 <= c < n ==> #[trigger] input.cells[c] == unset);
    let ghost radius = re_check_radius as int;
    let mut placed_stack: Vec<(usize, usize)> = Vec::new();
    let mut front = frontier_new();
    let ghost mut seed_list: Seq<usize> = Seq::empty();
    let mut s: usize = 0;
    while s < seeds
        invariant
            working@ == input,
            placed_stack@.len() == 0,
            s <= seeds,
            seed_list.len() == s,
            forall|j: int| 0 <= j < s ==> #[trigger] seed_list[j] < n && frontier_entries(front).contains_key(seed_list[j]),
            forall|k: usize| #[trigger] frontier_entries(front).contains_key(k) ==> k < n && frontier_entries(front)[k] == 0,
        decreases seeds - s,
    {
        let starting_point = random_below(rng, working.get_area());
        frontier_push(&mut front, starting_point, 0);
        proof {
            seed_list = seed_list.push(starting_point);
        }
        s = s + 1;
    }
    proof {
        if seeds > 0 {
            assert(frontier_entries(front).contains_key(seed_list[0]));
        }
    }
    while !frontier_is_empty(&front)
        invariant
            solver_state(input, working@, placed_stack@, frontier_entries(front), seed_list, tile_options@, radius, unset, outer, retry_budget as nat),
            seed_list.len() == seeds,
            hopeless ==> placed_stack@.len() == 0 && working@.cells == input.cells && frontier_entries(front).dom() != Set::<usize>::empty(),
        decreases
            lex_value(budgets(placed_stack@), 0, n, retry_budget as nat + 1),
            queue_weight(frontier_entries(front), 0, n, lcount),
    {
        let ghost m0 = frontier_entries(front);
        let ghost st0 = placed_stack@;
        let ghost g0 = working@;
        let (i, count) = match frontier_pop(&mut front) {
            Some(e) => e,
            None => {
                return None;
            },
        };
        let ghost m1 = frontier_entries(front);
        let pos = working.i_to_pos(i);
        proof {
            lemma_index_bijection(working@, i as int);
            lemma_weight_update(m0, m1, i as int, 0, n, lcount);
        }
        let current_tile = working.get(&pos, outer);
        if !cell_eq(&current_tile, &unset) || cell_eq(&current_tile, &outer) {
            proof {
                lemma_settled(input, g0, st0, m0, i, seed_list, tile_options@, radius, unset, outer, retry_budget as nat);
            }
            continue;
        }
        let valid_options = find_valid_options(&working, history_grid, &pos, tile_options, tile_rules, unset, outer, max_depth);
        let stale = match frontier_peek(&front) {
            Some((_, next)) => valid_options.len() > next,
            None => false,
        };
        if stale {
            frontier_push(&mut front, i, valid_options.len());
            proof {
                assert(frontier_entries(front) =~= m0.insert(i, valid_options@.len() as usize));
                lemma_requeue(input, g0, st0, m0, i, valid_options.len(), seed_list, tile_options@, radius, unset, outer, retry_budget as nat);
                lemma_weight_update(m0, frontier_entries(front), i as int, 0, n, lcount);
            }
            continue;
        }
        if valid_options.len() == 0 {
            frontier_push(&mut front, i, 0);
            proof {
                assert(frontier_entries(front) =~= m0.insert(i, 0));
                lemma_requeue(input, g0, st0, m0, i, 0, seed_list, tile_options@, radius, unset, outer, retry_budget as nat);
            }
            let retried = backtrack(
                &mut working,
                &mut front,
                &mut placed_stack,
                unset,
                Ghost(input),
                Ghost(seed_list),
                Ghost(tile_options@),
                Ghost(radius),
                Ghost(outer),
                Ghost(retry_budget as nat),
            );
            if !retried {
                return None;
            }
            continue;
        }
        let choice = random_below(rng, valid_options.len());
        let chosen_option = valid_options[choice];
        working.set(&pos, chosen_option);
        placed_stack.push((i, retry_budget));
        let ghost g1 = working@;
        recheck_neighbours(&working, history_grid, &mut front, &pos, tile_options, tile_rules, re_check_radius, unset, outer, max_depth);
        proof {
            assert(unset != outer);
            assert(working@.index_of(pos.x as int, pos.y as int) == i);
            assert forall|d: int|
                0 <= d < g1.cells.len() && #[trigger] within_radius(g1, i as int, d, radius) && g1.cells[d] == unset
                    implies frontier_entries(front).contains_key(d as usize) by {
                assert(within_radius(working@, working@.index_of(pos.x as int, pos.y as int), d, radius));
            }
            assert(tile_options@.contains(chosen_option));
            assert(g1 == (GridView { cells: g0.cells.update(i as int, chosen_option), ..g0 }));
            lemma_place(input, g0, g1, st0, m0, frontier_entries(front), i, chosen_option, seed_list, tile_options@, radius, unset, outer, retry_budget as nat);
            lemma_stack_fits(input, g0, st0, i, unset);
            let b1 = budgets(placed_stack@);
            let b0 = budgets(st0);
            assert forall|t: int| 0 <= t < st0.len() implies #[trigger] crate::measure::digit(b1, t, retry_budget as nat + 1)
                == crate::measure::digit(b0, t, retry_budget as nat + 1) by {
                assert(placed_stack@[t] == st0[t]);
            }
            lemma_lex_less(b1, b0, st0.len() as int, 0, n, retry_budget as nat + 1);
        }
    }
    proof {
        let g = working@;
        let m = frontier_entries(front);
        if unset != outer {
            assert forall|c: int, d: int|
                0 <= c < g.cells.len() && 0 <= d < g.cells.len() && input.cells[c] == unset && g.cells[c] != unset
                    && #[trigger] within_radius(g, c, d, radius) implies g.cells[d] != unset by {
                if g.cells[d] == unset {
                    assert(m.dom().contains(d as usize));
                }
            }
        }
        if seeds > 0 && unset != outer {
            let c0 = seed_list[0];
            assert(!m.dom().contains(c0));
            assert(g.cells[c0 as int] != unset);
        }
    }
    Some(working)
}

proof fn lemma_coords<T>(g: GridView<T>, x: int, y: int)
    requires
        g.wf(),
        g.in_bounds(x, y),
    ensures
        0 <= g.index_of(x, y) < g.cells.len(),
        g.x_of(g.index_of(x, y)) == x,
        g.y_of(g.index_of(x, y)) == y,
{
    crate::grid::lemma_index_in_range(g.width as int, g.height as int, x, y);
    vstd::arithmetic::div_mod::lemma_fundamental_div_mod_converse(g.index_of(x, y), g.width as int, y, x);
}

proof fn lemma_walk<T>(before: GridView<T>, after: GridView<T>, r: int, unset: T, cx: int, cy: int, tx: int, ty: int)
    requires
        after.wf(),
        after.cells.len() == before.cells.len(),
        r >= 1,
        forall|c: int| 0 <= c < before.cells.len() ==> #[trigger] before.cells[c] == unset,
        filled_neighbourhoods(before, after, r, unset),
        after.in_bounds(cx, cy),
        after.in_bounds(tx, ty),
        after.cells[after.index_of(cx, cy)] != unset,
    ensures
        after.cells[after.index_of(tx, ty)] != unset,
    decreases (if tx >= cx { tx - cx } else { cx - tx }) + (if ty >= cy { ty - cy } else { cy - ty }),
{
    if cx != tx || cy != ty {
        let (nx, ny) = if cx < tx {
            (cx + 1, cy)
        } else if cx > tx {
            (cx - 1, cy)
        } else if cy < ty {
            (cx, cy + 1)
        } else {
            (cx, cy - 1)
        };
        lemma_coords(after, cx, cy);
        lemma_coords(after, nx, ny);
        let c = after.index_of(cx, cy);
        let d = after.index_of(nx, ny);
        assert(within_radius(after, c, d, r));
        assert(after.cells[d] != unset);
        lemma_walk(before, after, r, unset, nx, ny, tx, ty);
    }
}

/// With a re-check radius of at least one, a search that starts from a grid
/// with every cell unset and ends with some cell set leaves no cell unset:
/// filling spreads from each filled cell to its neighbours.
pub proof fn lemma_fill_spreads<T>(before: GridView<T>, after: GridView<T>, r: int, unset: T)
    requires
        after.wf(),
        after.cells.len() == before.cells.len(),
        r >= 1,
        forall|c: int| 0 <= c < before.cells.len() ==> #[trigger] before.cells[c] == unset,
        filled_neighbourhoods(before, after, r, unset),
        some_cell_set(after, unset),
    ensures
        forall|c: int| 0 <= c < after.cells.len() ==> #[trigger] after.cells[c] != unset,
{
    let c0 = choose|c: int| 0 <= c < after.cells.len() && #[trigger] after.cells[c] != unset;
    lemma_index_bijection(after, c0);
    assert forall|c: int| 0 <= c < after.cells.len() implies #[trigger] after.cells[c] != unset by {
        lemma_index_bijection(after, c);
        lemma_walk(before, after, r, unset, after.x_of(c0), after.y_of(c0), after.x_of(c), after.y_of(c));
    }
}

} // verus!
