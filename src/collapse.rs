use vstd::prelude::*;
use vstd::laws_eq::obeys_concrete_eq;
use rand::rngs::StdRng;
use crate::grid::{Grid, GridView};
use crate::pos::Pos;
use crate::frontier::choose_pos;
use crate::measure::{power, lemma_power_pos};
use crate::grid::lemma_index_bijection;

verus! {

/// A grid of `out_width` by `out_height` cells, every one `unset`.
pub fn initialize<T: Copy>(out_width: usize, out_height: usize, unset: T) -> (r: Grid<T>)
    requires
        out_width > 0,
        out_width * out_height <= isize::MAX,
    ensures
        r@.wf(),
        r@.width == out_width,
        r@.height == out_height,
        forall|c: int| 0 <= c < r@.cells.len() ==> #[trigger] r@.cells[c] == unset,
{
    let area = out_width * out_height;
    let mut cells: Vec<T> = Vec::new();
    let mut k: usize = 0;
    while k < area
        invariant
            k <= area,
            cells@.len() == k,
            forall|c: int| 0 <= c < k ==> #[trigger] cells@[c] == unset,
        decreases area - k,
    {
        cells.push(unset);
        k = k + 1;
    }
    proof {
        vstd::arithmetic::div_mod::lemma_mod_multiples_basic(out_height as int, out_width as int);
        vstd::arithmetic::div_mod::lemma_div_multiples_vanish(out_height as int, out_width as int);
        assert(out_height * out_width == out_width * out_height) by (nonlinear_arith);
    }
    Grid::new(cells, out_width)
}

/// Attempts left on a stack of roll counts, level `j` of `n` weighing
/// `(rerolls + 2)^(n - 1 - j)`: one roll of the top level outweighs a whole
/// fresh level pushed above it.
pub open spec fn attempts_left(counts: Seq<usize>, n: nat, rerolls: nat) -> nat
    decreases counts.len(),
{
    if counts.len() == 0 {
        0
    } else {
        attempts_left(counts.drop_last(), n, rerolls) + ((rerolls + 1 - counts.last()) as nat) * power(
            rerolls + 2,
            (n - counts.len()) as nat,
        )
    }
}

/// Every cell outside `order` is as in `before`; a cell of `order` is
/// `unset` or a value of the pattern.
pub open spec fn overlap_fills<T>(before: GridView<T>, after: GridView<T>, order: Seq<usize>, pattern: Seq<T>, unset: T) -> bool {
    &&& after.width == before.width
    &&& after.height == before.height
    &&& after.cells.len() == before.cells.len()
    &&& forall|c: int|
        0 <= c < before.cells.len() ==> #[trigger] after.cells[c] == before.cells[c] || (order.contains(c as usize)
            && (after.cells[c] == unset || pattern.contains(after.cells[c])))
}

/// Fills `grid` in the order of the cell indices `evaluate_order` by
/// overlapping neighbourhoods of `pattern`: each cell takes the value at the
/// centre of a pattern neighbourhood of radius `radius` that agrees with the
/// grid around it (`Grid::compare`), drawn at random. A cell with no
/// agreeing neighbourhood is rolled again; after `reroll_attempts` rolls the
/// search climbs back `climb_amount_on_reroll` cells, and fails with `None`
/// when it climbs past the first. On success every cell of the order but the
/// last holds a pattern value.
#[verifier::loop_isolation(false)]
pub fn collapse<T: Copy + PartialEq>(
    grid: Grid<T>,
    evaluate_order: &Vec<usize>,
    pattern: &Grid<T>,
    radius: isize,
    reroll_attempts: usize,
    climb_amount_on_reroll: usize,
    unset: T,
    outer: T,
    rng: &mut StdRng,
) -> (r: Option<Grid<T>>)
    requires
        grid@.wf(),
        pattern@.wf(),
        obeys_concrete_eq::<T>(),
        forall|j: int| 0 <= j < evaluate_order@.len() ==> #[trigger] evaluate_order@[j] < grid@.cells.len(),
        forall|a: int, b: int| 0 <= a < b < evaluate_order@.len() ==> evaluate_order@[a] != evaluate_order@[b],
        climb_amount_on_reroll >= 1,
        reroll_attempts < usize::MAX,
        radius < isize::MAX,
        radius >= 0 ==> {
            &&& radius + grid@.width <= isize::MAX
            &&& radius + grid@.height <= isize::MAX
            &&& radius + pattern@.width <= isize::MAX
            &&& radius + pattern@.height <= isize::MAX
        },
    ensures
        match r {
            Some(g) => {
                &&& g@.wf()
                &&& overlap_fills(grid@, g@, evaluate_order@, pattern@.cells, unset)
                &&& forall|j: int|
                    0 <= j < evaluate_order@.len() - 1 ==> pattern@.cells.contains(
                        #[trigger] g@.cells[evaluate_order@[j] as int],
                    )
            },
            None => true,
        },
        evaluate_order@.len() <= 1 ==> (r matches Some(g) && g@ == grid@),
{
    let ghost input = grid@;
    let ghost n = evaluate_order@.len();
    let ghost order = evaluate_order@;
    let mut working = grid;
    let mut pattern_points: Vec<Pos> = Vec::new();
    let mut k: usize = 0;
    while k < pattern.get_area()
        invariant
            pattern@.wf(),
            k <= pattern@.cells.len(),
            pattern_points@.len() == k,
            forall|j: int| 0 <= j < k ==> pattern@.in_bounds(#[trigger] pattern_points@[j].x as int, pattern_points@[j].y as int),
        decreases pattern@.cells.len() - k,
    {
        pattern_points.push(pattern.i_to_pos(k));
        k = k + 1;
    }
    let mut roll_counts: Vec<usize> = Vec::new();
    roll_counts.push(0);
    let ghost top = reroll_attempts as nat;
    while roll_counts.len() < evaluate_order.len()
        invariant
            working@.wf(),
            working@.width == input.width,
            working@.height == input.height,
            overlap_fills(input, working@, order, pattern@.cells, unset),
            roll_counts@.len() <= n || roll_counts@.len() == 1,
            n <= 1 ==> roll_counts@.len() == 1 && working@ == input,
            forall|j: int| 0 <= j < roll_counts@.len() ==> #[trigger] roll_counts@[j] <= reroll_attempts,
            forall|j: int|
                0 <= j < roll_counts@.len() - 1 ==> pattern@.cells.contains(
                    #[trigger] working@.cells[order[j] as int],
                ),
        decreases attempts_left(roll_counts@, n, top),
    {
        if roll_counts.len() == 0 {
            return None;
        }
        let i = roll_counts.len() - 1;
        let ghost before = roll_counts@;
        let ghost weight = power(top + 2, (n - before.len()) as nat);
        roll_counts.set(i, roll_counts[i] + 1);
        let ghost rolled = roll_counts@;
        proof {
            lemma_power_pos(top + 2, (n - before.len()) as nat);
            assert(rolled.drop_last() =~= before.drop_last());
            let c = before[i as int] as int;
            assert((top + 1 - c) * weight == (top - c) * weight + weight) by (nonlinear_arith);
            assert(attempts_left(rolled, n, top) + weight == attempts_left(before, n, top));
        }
        if roll_counts[i] > reroll_attempts {
            let mut climbed: usize = 0;
            while climbed < climb_amount_on_reroll
                invariant
                    climbed <= climb_amount_on_reroll,
                    roll_counts@.len() <= i + 1,
                    climbed >= 1 ==> roll_counts@.len() <= i,
                    roll_counts@ =~= rolled.subrange(0, roll_counts@.len() as int),
                    attempts_left(roll_counts@, n, top) <= attempts_left(rolled, n, top),
                decreases climb_amount_on_reroll - climbed,
            {
                if roll_counts.len() > 0 {
                    let ghost prev = roll_counts@;
                    roll_counts.pop();
                    proof {
                        assert(roll_counts@ =~= prev.drop_last());
                        assert(roll_counts@ =~= rolled.subrange(0, roll_counts@.len() as int));
                    }
                }
                climbed = climbed + 1;
            }
            continue;
        }
        let order_i = evaluate_order[i];
        let eval_pos = working.i_to_pos(order_i);
        proof {
            lemma_index_bijection(working@, order_i as int);
        }
        working.set(&eval_pos, unset);
        let mut valid_pattern_pos_list: Vec<Pos> = Vec::new();
        let mut p: usize = 0;
        while p < pattern_points.len()
            invariant
                p <= pattern_points@.len(),
                forall|j: int|
                    0 <= j < valid_pattern_pos_list@.len() ==> pattern@.in_bounds(
                        #[trigger] valid_pattern_pos_list@[j].x as int,
                        valid_pattern_pos_list@[j].y as int,
                    ),
            decreases pattern_points@.len() - p,
        {
            let candidate = pattern_points[p];
            proof {
                assert(pattern@.in_bounds(pattern_points@[p as int].x as int, pattern_points@[p as int].y as int));
            }
            if Grid::compare(pattern, &candidate, &working, &eval_pos, radius, unset, outer) {
                valid_pattern_pos_list.push(candidate);
            }
            p = p + 1;
        }
        match choose_pos(rng, &valid_pattern_pos_list) {
            Some(selection_pos) => {
                let value = pattern.get(&selection_pos, outer);
                proof {
                    let j = choose|j: int| 0 <= j < valid_pattern_pos_list@.len() && valid_pattern_pos_list@[j] == selection_pos;
                    assert(pattern@.in_bounds(valid_pattern_pos_list@[j].x as int, valid_pattern_pos_list@[j].y as int));
                    crate::grid::lemma_index_in_range(
                        pattern@.width as int,
                        pattern@.height as int,
                        selection_pos.x as int,
                        selection_pos.y as int,
                    );
                    assert(pattern@.cells.contains(value));
                }
                working.set(&eval_pos, value);
                roll_counts.push(0);
                proof {
                    let q = power(top + 2, (n - before.len() - 1) as nat);
                    lemma_power_pos(top + 2, (n - before.len() - 1) as nat);
                    assert(weight == (top + 2) * q);
                    assert((top + 1) * q < (top + 2) * q) by (nonlinear_arith)
                        requires
                            q > 0,
                    ;
                    assert(roll_counts@.drop_last() =~= rolled);
                }
            },
            None => {},
        }
        proof {
            assert forall|j: int| 0 <= j < roll_counts@.len() - 1 implies pattern@.cells.contains(
                #[trigger] working@.cells[order[j] as int],
            ) by {
                if j < i {
                    assert(order[j] != order[i as int]);
                }
            }
        }
    }
    Some(working)
}

} // verus!
