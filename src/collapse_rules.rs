use vstd::prelude::*;
use vstd::laws_eq::obeys_concrete_eq;
use crate::grid::{Grid, GridView, cell_eq};
use crate::pos::Pos;
pub use crate::solver::collapse_rule;

verus! {

/// A spatial predicate over one kind of cell, evaluated relative to a cursor.
pub enum CollapseRule<T> {
    /// Every sub-rule holds.
    And(Vec<CollapseRule<T>>),
    /// Some sub-rule holds.
    Or(Vec<CollapseRule<T>>),
    Not(Box<CollapseRule<T>>),
    /// The cell equals the value, or is still unset.
    Is(T),
    /// The cell of the history grid equals the value, or is unset.
    Was(T),
    /// The sub-rule holds on every cell of the square of this radius around
    /// the cursor, the cursor itself excluded.
    Near(Box<CollapseRule<T>>, isize),
    /// The sub-rule holds on all four orthogonal neighbours.
    NextTo(Box<CollapseRule<T>>),
    /// The sub-rule holds on at least one of the four orthogonal neighbours.
    NextTo1(Box<CollapseRule<T>>),
    Left(Box<CollapseRule<T>>),
    Right(Box<CollapseRule<T>>),
    Up(Box<CollapseRule<T>>),
    Down(Box<CollapseRule<T>>),
    UpLeft(Box<CollapseRule<T>>),
    UpRight(Box<CollapseRule<T>>),
    DownLeft(Box<CollapseRule<T>>),
    DownRight(Box<CollapseRule<T>>),
    /// Transparent grouping.
    Parenthesis(Box<CollapseRule<T>>),
    True,
    False,
    /// The cursor lies on the grid.
    InBounds,
    /// The cell reads as the `outer` sentinel.
    Unset,
}

pub open spec fn fits_isize(v: int) -> bool {
    isize::MIN <= v <= isize::MAX
}

/// `rule` evaluated at `(x, y)` with `depth` levels of nesting left; a cursor
/// that leaves the range of `isize` makes the rule fail.
pub open spec fn holds_at<T>(
    rule: CollapseRule<T>,
    g: GridView<T>,
    h: GridView<T>,
    x: int,
    y: int,
    unset: T,
    outer: T,
    depth: nat,
) -> bool
    decreases depth, 1int, 0int,
{
    fits_isize(x) && fits_isize(y) && holds(rule, g, h, x, y, unset, outer, depth)
}

/// Whether a cell value matches `v`, an unset cell matching anything.
pub open spec fn matches_value<T>(cell: T, v: T, unset: T) -> bool {
    cell == unset || cell == v
}

/// Every rule of `subs` from index `i` on holds at `(x, y)`.
pub open spec fn holds_all<T>(
    subs: Seq<CollapseRule<T>>,
    i: int,
    g: GridView<T>,
    h: GridView<T>,
    x: int,
    y: int,
    unset: T,
    outer: T,
    depth: nat,
) -> bool
    decreases depth, 2int, subs.len() - i,
{
    if 0 <= i < subs.len() {
        holds(subs[i], g, h, x, y, unset, outer, depth) && holds_all(subs, i + 1, g, h, x, y, unset, outer, depth)
    } else {
        true
    }
}

/// Some rule of `subs` from index `i` on holds at `(x, y)`.
pub open spec fn holds_any<T>(
    subs: Seq<CollapseRule<T>>,
    i: int,
    g: GridView<T>,
    h: GridView<T>,
    x: int,
    y: int,
    unset: T,
    outer: T,
    depth: nat,
) -> bool
    decreases depth, 2int, subs.len() - i,
{
    if 0 <= i < subs.len() {
        holds(subs[i], g, h, x, y, unset, outer, depth) || holds_any(subs, i + 1, g, h, x, y, unset, outer, depth)
    } else {
        false
    }
}

/// `rule` holds at `(x + dx, y + dy)` for every `dy` from `dy` up to `r`,
/// the cursor itself `(dx, dy) == (0, 0)` excluded.
pub open spec fn near_column<T>(
    rule: CollapseRule<T>,
    g: GridView<T>,
    h: GridView<T>,
    x: int,
    y: int,
    r: int,
    dx: int,
    dy: int,
    unset: T,
    outer: T,
    depth: nat,
) -> bool
    decreases depth, 2int, r + 1 - dy,
{
    if -r <= dy <= r {
        &&& (dx == 0 && dy == 0) || holds_at(rule, g, h, x + dx, y + dy, unset, outer, depth)
        &&& near_column(rule, g, h, x, y, r, dx, dy + 1, unset, outer, depth)
    } else {
        true
    }
}

/// `rule` holds around `(x, y)` on every column from `dx` up to `r` of the
/// square of radius `r`, the cursor itself excluded.
pub open spec fn near_square<T>(
    rule: CollapseRule<T>,
    g: GridView<T>,
    h: GridView<T>,
    x: int,
    y: int,
    r: int,
    dx: int,
    unset: T,
    outer: T,
    depth: nat,
) -> bool
    decreases depth, 3int, r + 1 - dx,
{
    if -r <= dx <= r {
        &&& near_column(rule, g, h, x, y, r, dx, -r, unset, outer, depth)
        &&& near_square(rule, g, h, x, y, r, dx + 1, unset, outer, depth)
    } else {
        true
    }
}

/// The meaning of `rule` at the cursor `(x, y)` on grid `g` with history `h`.
/// Each level of nesting takes one unit of `depth`; with none left the rule
/// fails.
pub open spec fn holds<T>(
    rule: CollapseRule<T>,
    g: GridView<T>,
    h: GridView<T>,
    x: int,
    y: int,
    unset: T,
    outer: T,
    depth: nat,
) -> bool
    decreases depth, 0int, 0int,
{
    if depth == 0 {
        false
    } else {
        let d = (depth - 1) as nat;
        match rule {
            CollapseRule::And(subs) => holds_all(subs@, 0, g, h, x, y, unset, outer, d),
            CollapseRule::Or(subs) => holds_any(subs@, 0, g, h, x, y, unset, outer, d),
            CollapseRule::Not(s) => !holds(*s, g, h, x, y, unset, outer, d),
            CollapseRule::Is(v) => matches_value(g.get(x, y, outer), v, unset),
            CollapseRule::Was(v) => matches_value(h.get(x, y, outer), v, unset),
            CollapseRule::Near(s, r) => near_square(*s, g, h, x, y, r as int, -r, unset, outer, d),
            CollapseRule::NextTo(s) => {
                &&& holds_at(*s, g, h, x, y + 1, unset, outer, d)
                &&& holds_at(*s, g, h, x, y - 1, unset, outer, d)
                &&& holds_at(*s, g, h, x + 1, y, unset, outer, d)
                &&& holds_at(*s, g, h, x - 1, y, unset, outer, d)
            },
            CollapseRule::NextTo1(s) => {
                ||| holds_at(*s, g, h, x, y + 1, unset, outer, d)
                ||| holds_at(*s, g, h, x, y - 1, unset, outer, d)
                ||| holds_at(*s, g, h, x + 1, y, unset, outer, d)
                ||| holds_at(*s, g, h, x - 1, y, unset, outer, d)
            },
            CollapseRule::Left(s) => holds_at(*s, g, h, x - 1, y, unset, outer, d),
            CollapseRule::Right(s) => holds_at(*s, g, h, x + 1, y, unset, outer, d),
            CollapseRule::Up(s) => holds_at(*s, g, h, x, y + 1, unset, outer, d),
            CollapseRule::Down(s) => holds_at(*s, g, h, x, y - 1, unset, outer, d),
            CollapseRule::UpLeft(s) => holds_at(*s, g, h, x - 1, y + 1, unset, outer, d),
            CollapseRule::UpRight(s) => holds_at(*s, g, h, x + 1, y + 1, unset, outer, d),
            CollapseRule::DownLeft(s) => holds_at(*s, g, h, x - 1, y - 1, unset, outer, d),
            CollapseRule::DownRight(s) => holds_at(*s, g, h, x + 1, y - 1, unset, outer, d),
            CollapseRule::Parenthesis(s) => holds(*s, g, h, x, y, unset, outer, d),
            CollapseRule::True => true,
            CollapseRule::False => false,
            CollapseRule::InBounds => g.in_bounds(x, y),
            CollapseRule::Unset => g.get(x, y, outer) == outer,
        }
    }
}

/// `Is(v)` holds exactly where the cell equals `v` or is still `unset`, and
/// fails everywhere else.
pub proof fn lemma_is_wildcard<T>(v: T, g: GridView<T>, h: GridView<T>, x: int, y: int, unset: T, outer: T, depth: nat)
    requires
        depth >= 1,
    ensures
        g.get(x, y, outer) == v ==> holds(CollapseRule::Is(v), g, h, x, y, unset, outer, depth),
        g.get(x, y, outer) == unset ==> holds(CollapseRule::Is(v), g, h, x, y, unset, outer, depth),
        g.get(x, y, outer) != v && g.get(x, y, outer) != unset ==> !holds(
            CollapseRule::Is(v),
            g,
            h,
            x,
            y,
            unset,
            outer,
            depth,
        ),
{
}

/// `NextTo(Is(v))` holds exactly when all four orthogonal neighbours match
/// `v` (an unset cell matching, and `outer` read off the grid), and
/// `NextTo1(Is(v))` exactly when at least one does.
pub proof fn lemma_next_to_is<T>(
    sub: Box<CollapseRule<T>>,
    v: T,
    g: GridView<T>,
    h: GridView<T>,
    x: int,
    y: int,
    unset: T,
    outer: T,
    depth: nat,
)
    requires
        depth >= 2,
        *sub == CollapseRule::Is(v),
        fits_isize(x - 1) && fits_isize(x + 1),
        fits_isize(y - 1) && fits_isize(y + 1),
    ensures
        holds(CollapseRule::NextTo(sub), g, h, x, y, unset, outer, depth) == {
            &&& matches_value(g.get(x, y + 1, outer), v, unset)
            &&& matches_value(g.get(x, y - 1, outer), v, unset)
            &&& matches_value(g.get(x + 1, y, outer), v, unset)
            &&& matches_value(g.get(x - 1, y, outer), v, unset)
        },
        holds(CollapseRule::NextTo1(sub), g, h, x, y, unset, outer, depth) == {
            ||| matches_value(g.get(x, y + 1, outer), v, unset)
            ||| matches_value(g.get(x, y - 1, outer), v, unset)
            ||| matches_value(g.get(x + 1, y, outer), v, unset)
            ||| matches_value(g.get(x - 1, y, outer), v, unset)
        },
{
    let d = (depth - 1) as nat;
    assert(holds(*sub, g, h, x, y + 1, unset, outer, d) == matches_value(g.get(x, y + 1, outer), v, unset));
    assert(holds(*sub, g, h, x, y - 1, unset, outer, d) == matches_value(g.get(x, y - 1, outer), v, unset));
    assert(holds(*sub, g, h, x + 1, y, unset, outer, d) == matches_value(g.get(x + 1, y, outer), v, unset));
    assert(holds(*sub, g, h, x - 1, y, unset, outer, d) == matches_value(g.get(x - 1, y, outer), v, unset));
    assert(holds_at(*sub, g, h, x, y + 1, unset, outer, d) == holds(*sub, g, h, x, y + 1, unset, outer, d));
    assert(holds_at(*sub, g, h, x, y - 1, unset, outer, d) == holds(*sub, g, h, x, y - 1, unset, outer, d));
    assert(holds_at(*sub, g, h, x + 1, y, unset, outer, d) == holds(*sub, g, h, x + 1, y, unset, outer, d));
    assert(holds_at(*sub, g, h, x - 1, y, unset, outer, d) == holds(*sub, g, h, x - 1, y, unset, outer, d));
}

/// Every way of deciding `rule` nests more than `depth` levels deep, so that
/// with `depth` levels allowed it cannot hold. `Not` never qualifies, nor
/// does an `Or` with a branch of lesser depth, nor a `Near` of radius below
/// one (its square holds no cell to test).
pub open spec fn always_too_deep<T>(rule: CollapseRule<T>, depth: nat) -> bool
    decreases depth, 0int, 0int,
{
    if depth == 0 {
        true
    } else {
        let d = (depth - 1) as nat;
        match rule {
            CollapseRule::And(subs) => some_too_deep(subs@, 0, d),
            CollapseRule::Or(subs) => all_too_deep(subs@, 0, d),
            CollapseRule::Near(s, r) => r >= 1 && always_too_deep(*s, d),
            CollapseRule::NextTo(s) => always_too_deep(*s, d),
            CollapseRule::NextTo1(s) => always_too_deep(*s, d),
            CollapseRule::Left(s) => always_too_deep(*s, d),
            CollapseRule::Right(s) => always_too_deep(*s, d),
            CollapseRule::Up(s) => always_too_deep(*s, d),
            CollapseRule::Down(s) => always_too_deep(*s, d),
            CollapseRule::UpLeft(s) => always_too_deep(*s, d),
            CollapseRule::UpRight(s) => always_too_deep(*s, d),
            CollapseRule::DownLeft(s) => always_too_deep(*s, d),
            CollapseRule::DownRight(s) => always_too_deep(*s, d),
            CollapseRule::Parenthesis(s) => always_too_deep(*s, d),
            _ => false,
        }
    }
}

/// Some rule of `subs` from index `i` on is always too deep for `depth`.
pub open spec fn some_too_deep<T>(subs: Seq<CollapseRule<T>>, i: int, depth: nat) -> bool
    decreases depth, 1int, subs.len() - i,
{
    if 0 <= i < subs.len() {
        always_too_deep(subs[i], depth) || some_too_deep(subs, i + 1, depth)
    } else {
        false
    }
}

/// Every rule of `subs` from index `i` on is always too deep for `depth`.
pub open spec fn all_too_deep<T>(subs: Seq<CollapseRule<T>>, i: int, depth: nat) -> bool
    decreases depth, 1int, subs.len() - i,
{
    if 0 <= i < subs.len() {
        always_too_deep(subs[i], depth) && all_too_deep(subs, i + 1, depth)
    } else {
        true
    }
}

/// A rule nested more deeply than the depth limit, on every path that
/// decides it, evaluates to `false` wherever it is checked.
pub proof fn lemma_depth_fail_closed<T>(
    rule: CollapseRule<T>,
    g: GridView<T>,
    h: GridView<T>,
    x: int,
    y: int,
    unset: T,
    outer: T,
    depth: nat,
)
    requires
        always_too_deep(rule, depth),
    ensures
        !holds(rule, g, h, x, y, unset, outer, depth),
    decreases depth, 0int, 0int,
{
    if depth > 0 {
        let d = (depth - 1) as nat;
        match rule {
            CollapseRule::And(subs) => lemma_some_too_deep(subs@, 0, g, h, x, y, unset, outer, d),
            CollapseRule::Or(subs) => lemma_all_too_deep(subs@, 0, g, h, x, y, unset, outer, d),
            CollapseRule::Near(s, r) => {
                lemma_depth_fail_closed(*s, g, h, x - r, y - r, unset, outer, d);
                assert(!holds_at(*s, g, h, x + (-r), y + (-r), unset, outer, d));
                assert(!near_column(*s, g, h, x, y, r as int, -r, -r, unset, outer, d));
                assert(!near_square(*s, g, h, x, y, r as int, -r, unset, outer, d));
            },
            CollapseRule::NextTo(s) => {
                lemma_depth_fail_closed(*s, g, h, x, y + 1, unset, outer, d);
                assert(!holds_at(*s, g, h, x, y + 1, unset, outer, d));
            },
            CollapseRule::NextTo1(s) => {
                lemma_depth_fail_closed(*s, g, h, x, y + 1, unset, outer, d);
                assert(!holds_at(*s, g, h, x, y + 1, unset, outer, d));
                lemma_depth_fail_closed(*s, g, h, x, y - 1, unset, outer, d);
                assert(!holds_at(*s, g, h, x, y - 1, unset, outer, d));
                lemma_depth_fail_closed(*s, g, h, x + 1, y, unset, outer, d);
                assert(!holds_at(*s, g, h, x + 1, y, unset, outer, d));
                lemma_depth_fail_closed(*s, g, h, x - 1, y, unset, outer, d);
                assert(!holds_at(*s, g, h, x - 1, y, unset, outer, d));
            },
            CollapseRule::Left(s) => {
                lemma_depth_fail_closed(*s, g, h, x - 1, y, unset, outer, d);
                assert(!holds_at(*s, g, h, x - 1, y, unset, outer, d));
            },
            CollapseRule::Right(s) => {
                lemma_depth_fail_closed(*s, g, h, x + 1, y, unset, outer, d);
                assert(!holds_at(*s, g, h, x + 1, y, unset, outer, d));
            },
            CollapseRule::Up(s) => {
                lemma_depth_fail_closed(*s, g, h, x, y + 1, unset, outer, d);
                assert(!holds_at(*s, g, h, x, y + 1, unset, outer, d));
            },
            CollapseRule::Down(s) => {
                lemma_depth_fail_closed(*s, g, h, x, y - 1, unset, outer, d);
                assert(!holds_at(*s, g, h, x, y - 1, unset, outer, d));
            },
            CollapseRule::UpLeft(s) => {
                lemma_depth_fail_closed(*s, g, h, x - 1, y + 1, unset, outer, d);
                assert(!holds_at(*s, g, h, x - 1, y + 1, unset, outer, d));
            },
            CollapseRule::UpRight(s) => {
                lemma_depth_fail_closed(*s, g, h, x + 1, y + 1, unset, outer, d);
                assert(!holds_at(*s, g, h, x + 1, y + 1, unset, outer, d));
            },
            CollapseRule::DownLeft(s) => {
                lemma_depth_fail_closed(*s, g, h, x - 1, y - 1, unset, outer, d);
                assert(!holds_at(*s, g, h, x - 1, y - 1, unset, outer, d));
            },
            CollapseRule::DownRight(s) => {
                lemma_depth_fail_closed(*s, g, h, x + 1, y - 1, unset, outer, d);
                assert(!holds_at(*s, g, h, x + 1, y - 1, unset, outer, d));
            },
            CollapseRule::Parenthesis(s) => {
                lemma_depth_fail_closed(*s, g, h, x, y, unset, outer, d);
                assert(!holds_at(*s, g, h, x, y, unset, outer, d));
            },
            _ => {},
        }
    }
}

proof fn lemma_some_too_deep<T>(
    subs: Seq<CollapseRule<T>>,
    i: int,
    g: GridView<T>,
    h: GridView<T>,
    x: int,
    y: int,
    unset: T,
    outer: T,
    depth: nat,
)
    requires
        some_too_deep(subs, i, depth),
    ensures
        !holds_all(subs, i, g, h, x, y, unset, outer, depth),
    decreases depth, 1int, subs.len() - i,
{
    if 0 <= i < subs.len() {
        if always_too_deep(subs[i], depth) {
            lemma_depth_fail_closed(subs[i], g, h, x, y, unset, outer, depth);
        } else {
            lemma_some_too_deep(subs, i + 1, g, h, x, y, unset, outer, depth);
        }
    }
}

proof fn lemma_all_too_deep<T>(
    subs: Seq<CollapseRule<T>>,
    i: int,
    g: GridView<T>,
    h: GridView<T>,
    x: int,
    y: int,
    unset: T,
    outer: T,
    depth: nat,
)
    requires
        all_too_deep(subs, i, depth),
    ensures
        !holds_any(subs, i, g, h, x, y, unset, outer, depth),
    decreases depth, 1int, subs.len() - i,
{
    if 0 <= i < subs.len() {
        lemma_depth_fail_closed(subs[i], g, h, x, y, unset, outer, depth);
        lemma_all_too_deep(subs, i + 1, g, h, x, y, unset, outer, depth);
    }
}

/// Evaluates `rule` at `pos + (dx, dy)` with one level of nesting fewer than
/// `depth`.
fn check_shifted<T: Copy + PartialEq>(
    grid: &Grid<T>,
    history_grid: &Grid<T>,
    pos: &Pos,
    dx: isize,
    dy: isize,
    rule: &CollapseRule<T>,
    unset: T,
    outer: T,
    depth: usize,
) -> (r: bool)
    requires
        grid@.wf(),
        history_grid@.wf(),
        obeys_concrete_eq::<T>(),
        depth >= 1,
    ensures
        r == holds_at(
            *rule,
            grid@,
            history_grid@,
            pos.x + dx,
            pos.y + dy,
            unset,
            outer,
            (depth - 1) as nat,
        ),
    decreases depth, 0int,
{
    match (pos.x.checked_add(dx), pos.y.checked_add(dy)) {
        (Some(x), Some(y)) => check_rule(grid, history_grid, &Pos::new(x, y), rule, unset, outer, depth - 1),
        _ => false,
    }
}

/// Evaluates `rule` at `pos` on `grid`, with `history_grid` for `Was`.
/// Each level of nesting uses one unit of `max_depth`; when none is left the
/// answer is `false`.
#[verifier::loop_isolation(false)]
pub fn check_rule<T: Copy + PartialEq>(
    grid: &Grid<T>,
    history_grid: &Grid<T>,
    pos: &Pos,
    rule: &CollapseRule<T>,
    unset: T,
    outer: T,
    max_depth: usize,
) -> (r: bool)
    requires
        grid@.wf(),
        history_grid@.wf(),
        obeys_concrete_eq::<T>(),
    ensures
        r == holds(*rule, grid@, history_grid@, pos.x as int, pos.y as int, unset, outer, max_depth as nat),
    decreases max_depth, 2int,
{
    if max_depth == 0 {
        return false;
    }
    let d = max_depth - 1;
    match rule {
        CollapseRule::And(subs) => {
            let ghost (x, y) = (pos.x as int, pos.y as int);
            let mut k: usize = 0;
            while k < subs.len()
                invariant
                    k <= subs@.len(),
                    holds(*rule, grid@, history_grid@, x, y, unset, outer, max_depth as nat)
                        == holds_all(subs@, k as int, grid@, history_grid@, x, y, unset, outer, d as nat),
                decreases subs.len() - k,
            {
                if !check_rule(grid, history_grid, pos, &subs[k], unset, outer, d) {
                    return false;
                }
                k = k + 1;
            }
            true
        },
        CollapseRule::Or(subs) => {
            let ghost (x, y) = (pos.x as int, pos.y as int);
            let mut k: usize = 0;
            while k < subs.len()
                invariant
                    k <= subs@.len(),
                    holds(*rule, grid@, history_grid@, x, y, unset, outer, max_depth as nat)
                        == holds_any(subs@, k as int, grid@, history_grid@, x, y, unset, outer, d as nat),
                decreases subs.len() - k,
            {
                if check_rule(grid, history_grid, pos, &subs[k], unset, outer, d) {
                    return true;
                }
                k = k + 1;
            }
            false
        },
        CollapseRule::Not(s) => !check_rule(grid, history_grid, pos, s, unset, outer, d),
        CollapseRule::Is(v) => {
            let tile = grid.get(pos, outer);
            cell_eq(&tile, &unset) || cell_eq(&tile, v)
        },
        CollapseRule::Was(v) => {
            let tile = history_grid.get(pos, outer);
            cell_eq(&tile, &unset) || cell_eq(&tile, v)
        },
        CollapseRule::Left(s) => check_shifted(grid, history_grid, pos, -1, 0, s, unset, outer, max_depth),
        CollapseRule::Right(s) => check_shifted(grid, history_grid, pos, 1, 0, s, unset, outer, max_depth),
        CollapseRule::Up(s) => check_shifted(grid, history_grid, pos, 0, 1, s, unset, outer, max_depth),
        CollapseRule::Down(s) => check_shifted(grid, history_grid, pos, 0, -1, s, unset, outer, max_depth),
        CollapseRule::UpLeft(s) => check_shifted(grid, history_grid, pos, -1, 1, s, unset, outer, max_depth),
        CollapseRule::UpRight(s) => check_shifted(grid, history_grid, pos, 1, 1, s, unset, outer, max_depth),
        CollapseRule::DownLeft(s) => check_shifted(grid, history_grid, pos, -1, -1, s, unset, outer, max_depth),
        CollapseRule::DownRight(s) => check_shifted(grid, history_grid, pos, 1, -1, s, unset, outer, max_depth),
        CollapseRule::Near(s, radius) => check_near(grid, history_grid, pos, s, *radius, unset, outer, max_depth),
        CollapseRule::NextTo(s) => {
            check_shifted(grid, history_grid, pos, 0, 1, s, unset, outer, max_depth)
                && check_shifted(grid, history_grid, pos, 0, -1, s, unset, outer, max_depth)
                && check_shifted(grid, history_grid, pos, 1, 0, s, unset, outer, max_depth)
                && check_shifted(grid, history_grid, pos, -1, 0, s, unset, outer, max_depth)
        },
        CollapseRule::NextTo1(s) => {
            check_shifted(grid, history_grid, pos, 0, 1, s, unset, outer, max_depth)
                || check_shifted(grid, history_grid, pos, 0, -1, s, unset, outer, max_depth)
                || check_shifted(grid, history_grid, pos, 1, 0, s, unset, outer, max_depth)
                || check_shifted(grid, history_grid, pos, -1, 0, s, unset, outer, max_depth)
        },
        CollapseRule::Parenthesis(s) => check_rule(grid, history_grid, pos, s, unset, outer, d),
        CollapseRule::True => true,
        CollapseRule::False => false,
        CollapseRule::InBounds => grid.is_valid(pos),
        CollapseRule::Unset => {
            let tile = grid.get(pos, outer);
            cell_eq(&tile, &outer)
        },
    }
}

/// Evaluates `rule` on every cell of the square of radius `radius` around
/// `pos` but `pos` itself, stopping at the first failure.
#[verifier::loop_isolation(false)]
fn check_near<T: Copy + PartialEq>(
    grid: &Grid<T>,
    history_grid: &Grid<T>,
    pos: &Pos,
    rule: &CollapseRule<T>,
    radius: isize,
    unset: T,
    outer: T,
    depth: usize,
) -> (r: bool)
    requires
        grid@.wf(),
        history_grid@.wf(),
        obeys_concrete_eq::<T>(),
        depth >= 1,
    ensures
        r == near_square(
            *rule,
            grid@,
            history_grid@,
            pos.x as int,
            pos.y as int,
            radius as int,
            -radius,
            unset,
            outer,
            (depth - 1) as nat,
        ),
    decreases depth, 1int,
{
    let ghost (x, y, d) = (pos.x as int, pos.y as int, (depth - 1) as nat);
    if radius < 0 {
        return true;
    }
    let mut dx: isize = -radius;
    loop
        invariant
            -radius <= dx <= radius,
            near_square(*rule, grid@, history_grid@, x, y, radius as int, -radius, unset, outer, d)
                == near_square(*rule, grid@, history_grid@, x, y, radius as int, dx as int, unset, outer, d),
        decreases radius - dx,
    {
        let mut dy: isize = -radius;
        loop
            invariant
                -radius <= dx <= radius,
                -radius <= dy <= radius,
                near_square(*rule, grid@, history_grid@, x, y, radius as int, -radius, unset, outer, d)
                    == near_square(*rule, grid@, history_grid@, x, y, radius as int, dx as int, unset, outer, d),
                near_column(*rule, grid@, history_grid@, x, y, radius as int, dx as int, -radius, unset, outer, d)
                    == near_column(*rule, grid@, history_grid@, x, y, radius as int, dx as int, dy as int, unset, outer, d),
            decreases radius - dy,
        {
            if !(dx == 0 && dy == 0) {
                if !check_shifted(grid, history_grid, pos, dx, dy, rule, unset, outer, depth) {
                    assert(!near_column(*rule, grid@, history_grid@, x, y, radius as int, dx as int, dy as int, unset, outer, d));
                    assert(!near_square(*rule, grid@, history_grid@, x, y, radius as int, dx as int, unset, outer, d));
                    return false;
                }
            }
            if dy == radius {
                assert(near_column(*rule, grid@, history_grid@, x, y, radius as int, dx as int, dy + 1, unset, outer, d));
                break;
            }
            dy = dy + 1;
        }
        assert(near_column(*rule, grid@, history_grid@, x, y, radius as int, dx as int, -radius, unset, outer, d));
        if dx == radius {
            assert(near_square(*rule, grid@, history_grid@, x, y, radius as int, dx + 1, unset, outer, d));
            break;
        }
        dx = dx + 1;
    }
    true
}

} // verus!
