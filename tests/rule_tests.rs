use ffc::{check_rule, collapse_rule, initialize, CollapseRule, Grid, Pos};
use rand::rngs::StdRng;
use rand::SeedableRng;

const U: u8 = 0;
const O: u8 = 9;

fn bx(r: CollapseRule<u8>) -> Box<CollapseRule<u8>> {
    Box::new(r)
}

fn eval(g: &Grid<u8>, x: isize, y: isize, rule: &CollapseRule<u8>, depth: usize) -> bool {
    check_rule(g, g, &Pos::new(x, y), rule, U, O, depth)
}

#[test]
fn is_matches_value_or_unset() {
    let g = Grid::new(vec![1, 2, U, 1], 2);
    let rule = CollapseRule::Is(1);
    assert!(eval(&g, 0, 0, &rule, 4));
    assert!(!eval(&g, 1, 0, &rule, 4));
    assert!(eval(&g, 0, 1, &rule, 4));
    assert!(!eval(&g, 5, 5, &rule, 4));
}

#[test]
fn was_reads_history_grid() {
    let g = Grid::new(vec![1, 1], 2);
    let h = Grid::new(vec![2, U], 2);
    let rule = CollapseRule::Was(2);
    assert!(check_rule(&g, &h, &Pos::new(0, 0), &rule, U, O, 3));
    assert!(check_rule(&g, &h, &Pos::new(1, 0), &rule, U, O, 3));
    assert!(!check_rule(&g, &g, &Pos::new(0, 0), &rule, U, O, 3));
}

#[test]
fn depth_limit_fails_closed() {
    let g = Grid::new(vec![1, 1, 1, 1], 2);
    assert!(!eval(&g, 0, 0, &CollapseRule::True, 0));
    let deep = CollapseRule::Left(bx(CollapseRule::Right(bx(CollapseRule::True))));
    assert!(!eval(&g, 0, 0, &deep, 2));
    assert!(eval(&g, 0, 0, &deep, 3));
    let both = CollapseRule::And(vec![CollapseRule::True, CollapseRule::Parenthesis(bx(CollapseRule::True))]);
    assert!(!eval(&g, 0, 0, &both, 2));
    assert!(eval(&g, 0, 0, &both, 3));
}

#[test]
fn negation_above_the_depth_limit_can_hold() {
    let g = Grid::new(vec![1], 1);
    let rule = CollapseRule::Not(bx(CollapseRule::Not(bx(CollapseRule::Not(bx(CollapseRule::True))))));
    assert!(eval(&g, 0, 0, &rule, 3));
    assert!(!eval(&g, 0, 0, &rule, 4));
}

#[test]
fn next_to_needs_all_four_neighbours() {
    // 3x3 with X = 5 around the centre, one neighbour different
    let g = Grid::new(vec![1, 5, 1, 5, 1, 5, 1, 3, 1], 3);
    let all = CollapseRule::NextTo(bx(CollapseRule::Is(5)));
    let any = CollapseRule::NextTo1(bx(CollapseRule::Is(5)));
    assert!(!eval(&g, 1, 1, &all, 4));
    assert!(eval(&g, 1, 1, &any, 4));
    let g2 = Grid::new(vec![1, 5, 1, 5, 1, 5, 1, 5, 1], 3);
    assert!(eval(&g2, 1, 1, &all, 4));
    let none = CollapseRule::NextTo1(bx(CollapseRule::Is(7)));
    assert!(!eval(&g2, 1, 1, &none, 4));
}

#[test]
fn next_to_at_the_edge_reads_outer() {
    let g = Grid::new(vec![5, 5, 5, 5], 2);
    let all = CollapseRule::NextTo(bx(CollapseRule::Is(5)));
    assert!(!eval(&g, 0, 0, &all, 4));
    // with outer equal to the value, the edge matches
    assert!(check_rule(&g, &g, &Pos::new(0, 0), &all, U, 5, 4));
}

#[test]
fn directions_shift_the_cursor() {
    // row-major, y grows downward in storage; Up is y + 1
    let g = Grid::new(vec![1, 2, 3, 4, 5, 6, 7, 8, 9], 3);
    let at = |r: CollapseRule<u8>| eval(&g, 1, 1, &r, 4);
    assert!(at(CollapseRule::Left(bx(CollapseRule::Is(4)))));
    assert!(at(CollapseRule::Right(bx(CollapseRule::Is(6)))));
    assert!(at(CollapseRule::Up(bx(CollapseRule::Is(8)))));
    assert!(at(CollapseRule::Down(bx(CollapseRule::Is(2)))));
    assert!(at(CollapseRule::UpLeft(bx(CollapseRule::Is(7)))));
    assert!(at(CollapseRule::UpRight(bx(CollapseRule::Is(9)))));
    assert!(at(CollapseRule::DownLeft(bx(CollapseRule::Is(1)))));
    assert!(at(CollapseRule::DownRight(bx(CollapseRule::Is(3)))));
    assert!(!at(CollapseRule::Left(bx(CollapseRule::Is(6)))));
}

#[test]
fn near_checks_the_square_without_centre() {
    let g = Grid::new(vec![2, 2, 2, 2, 7, 2, 2, 2, 2], 3);
    let near = CollapseRule::Near(bx(CollapseRule::Is(2)), 1);
    assert!(eval(&g, 1, 1, &near, 4));
    assert!(!eval(&g, 0, 0, &near, 4));
    let empty = CollapseRule::Near(bx(CollapseRule::False), 0);
    assert!(eval(&g, 1, 1, &empty, 4));
}

#[test]
fn or_and_not_combine() {
    let g = Grid::new(vec![3], 1);
    let or = CollapseRule::Or(vec![CollapseRule::Is(1), CollapseRule::Is(3)]);
    assert!(eval(&g, 0, 0, &or, 3));
    let and = CollapseRule::And(vec![CollapseRule::Is(1), CollapseRule::Is(3)]);
    assert!(!eval(&g, 0, 0, &and, 3));
    assert!(eval(&g, 0, 0, &CollapseRule::Not(bx(and)), 3));
    assert!(!eval(&g, 0, 0, &CollapseRule::Or(vec![]), 3));
    assert!(eval(&g, 0, 0, &CollapseRule::And(vec![]), 3));
}

#[test]
fn in_bounds_and_unset_probe_outer() {
    let g = Grid::new(vec![U, 4], 2);
    assert!(eval(&g, 1, 0, &CollapseRule::InBounds, 1));
    assert!(!eval(&g, 2, 0, &CollapseRule::InBounds, 1));
    // the unset probe compares with the outer sentinel, not with unset
    assert!(!eval(&g, 0, 0, &CollapseRule::Unset, 1));
    assert!(eval(&g, -1, 0, &CollapseRule::Unset, 1));
    assert!(!eval(&g, 0, 0, &CollapseRule::False, 1));
}

fn cells(g: &Grid<u8>) -> Vec<u8> {
    g.get_cells().clone()
}

#[test]
fn trivial_grid_succeeds() {
    let grid = initialize(1, 1, U);
    let history = initialize(1, 1, U);
    let mut rng = StdRng::seed_from_u64(1);
    let r = collapse_rule(grid, &history, &vec![4u8], &vec![CollapseRule::True], 1, U, O, 8, 1, 15, &mut rng);
    let g = r.expect("a single always-true candidate must succeed");
    assert_eq!(g.get(&Pos::new(0, 0), O), 4);
}

#[test]
fn all_false_rules_fail() {
    for (w, h) in [(1usize, 1usize), (3, 2), (5, 5)] {
        let grid = initialize(w, h, U);
        let history = initialize(w, h, U);
        let mut rng = StdRng::seed_from_u64(7);
        let r = collapse_rule(
            grid,
            &history,
            &vec![1u8, 2],
            &vec![CollapseRule::False, CollapseRule::False],
            1,
            U,
            O,
            8,
            2,
            15,
            &mut rng,
        );
        assert!(r.is_none());
    }
}

#[test]
fn depth_zero_fails() {
    let grid = initialize(2, 2, U);
    let history = initialize(2, 2, U);
    let mut rng = StdRng::seed_from_u64(3);
    let r = collapse_rule(grid, &history, &vec![1u8], &vec![CollapseRule::True], 1, U, O, 0, 1, 15, &mut rng);
    assert!(r.is_none());
}

#[test]
fn zero_seeds_leave_grid_untouched() {
    let grid = initialize(2, 2, U);
    let history = initialize(2, 2, U);
    let mut rng = StdRng::seed_from_u64(3);
    let r = collapse_rule(grid, &history, &vec![1u8], &vec![CollapseRule::True], 1, U, O, 4, 0, 15, &mut rng);
    assert_eq!(cells(&r.unwrap()), vec![U; 4]);
}

// A row of three cells with a single solution `A B C`. The middle cell may
// first take `D`, which leaves the right cell without a candidate; the solver
// has to undo it and try again.
const A: u8 = 1;
const B: u8 = 2;
const C: u8 = 3;
const D: u8 = 4;
const E: u8 = 5;
const F: u8 = 6;
const G: u8 = 7;

fn row_rules() -> (Vec<u8>, Vec<CollapseRule<u8>>) {
    let left_edge = || CollapseRule::Left(bx(CollapseRule::Not(bx(CollapseRule::InBounds))));
    let right_edge = || CollapseRule::Right(bx(CollapseRule::Not(bx(CollapseRule::InBounds))));
    let middle = || {
        CollapseRule::And(vec![
            CollapseRule::Left(bx(CollapseRule::InBounds)),
            CollapseRule::Right(bx(CollapseRule::InBounds)),
        ])
    };
    let left_is = |v: u8| CollapseRule::Left(bx(CollapseRule::Is(v)));
    let options = vec![A, B, C, D, E, F, G];
    let rules = vec![
        left_edge(),
        CollapseRule::And(vec![middle(), left_is(A)]),
        CollapseRule::And(vec![right_edge(), left_is(B)]),
        CollapseRule::And(vec![middle(), left_is(A)]),
        CollapseRule::And(vec![middle(), left_is(E)]),
        CollapseRule::And(vec![right_edge(), left_is(E)]),
        CollapseRule::And(vec![right_edge(), left_is(E)]),
    ];
    (options, rules)
}

#[test]
fn backtracking_reaches_the_unique_solution() {
    let (options, rules) = row_rules();
    for seed in 0..6u64 {
        let grid = initialize(3, 1, U);
        let history = initialize(3, 1, U);
        let mut rng = StdRng::seed_from_u64(seed);
        let r = collapse_rule(grid, &history, &options, &rules, 1, U, O, 8, 64, 15, &mut rng);
        assert_eq!(cells(&r.expect("the row has a solution")), vec![A, B, C]);
    }
}

#[test]
fn end_to_end_two_candidates() {
    let a: u8 = 1;
    let b: u8 = 2;
    for seed in 0..4u64 {
        let rule_a = CollapseRule::Not(bx(CollapseRule::NextTo(bx(CollapseRule::Is(b)))));
        let grid = initialize(4, 4, U);
        let history = initialize(4, 4, U);
        let mut rng = StdRng::seed_from_u64(seed);
        let r = collapse_rule(grid, &history, &vec![a, b], &vec![rule_a, CollapseRule::True], 1, U, O, 8, 1, 15, &mut rng);
        let g = r.expect("B always fits");
        for i in 0..g.get_area() {
            let p = g.i_to_pos(i);
            let v = g.get(&p, O);
            assert!(v == a || v == b);
            if v == a {
                let ok = [(0, 1), (0, -1), (1, 0), (-1, 0)].iter().any(|&(dx, dy)| {
                    let n = g.get(&p.rel(dx, dy), O);
                    n == a || n == O
                });
                assert!(ok, "an A cell is boxed in by B cells");
            }
        }
    }
}
