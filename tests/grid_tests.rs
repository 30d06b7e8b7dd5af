use ffc::{collapse, initialize, Grid, Pos};
use rand::rngs::StdRng;
use rand::SeedableRng;

#[test]
fn test_compare() -> Result<(), String> {
    let a = Grid::new(
        vec![
            0, 0, 0, 0, //
            0, 1, 0, 0, //
            0, 0, 2, 0, //
            0, 0, 0, 0, //
        ],
        4,
    );

    let b = Grid::new(
        vec![
            0, 0, 0, 0, //
            0, 0, 0, 0, //
            0, 0, 1, 0, //
            0, 0, 0, 2, //
        ],
        4,
    );

    if Grid::compare(&a, &Pos::new(1, 1), &b, &Pos::new(2, 2), 1, 127, 128) {
        Ok(())
    } else {
        Err(String::from("Compare failed"))
    }
}

#[test]
fn compare_detects_mismatch_and_unset_wildcard() {
    let a = Grid::new(vec![1, 2, 3, 4], 2);
    let b = Grid::new(vec![1, 5, 3, 4], 2);
    assert!(!Grid::compare(&a, &Pos::new(0, 0), &b, &Pos::new(0, 0), 1, 0, 9));
    let c = Grid::new(vec![1, 0, 3, 4], 2);
    assert!(Grid::compare(&a, &Pos::new(0, 0), &c, &Pos::new(0, 0), 1, 0, 9));
    assert!(Grid::compare(&a, &Pos::new(0, 0), &b, &Pos::new(1, 0), -1, 0, 9));
}

#[test]
fn get_off_grid_returns_outer() {
    let g = Grid::new(vec![1, 2, 3, 4, 5, 6], 3);
    assert_eq!(g.get(&Pos::new(-1, 0), 99), 99);
    assert_eq!(g.get(&Pos::new(3, 0), 99), 99);
    assert_eq!(g.get(&Pos::new(0, 2), 99), 99);
    assert_eq!(g.get(&Pos::new(0, -1), 99), 99);
    assert_eq!(g.get(&Pos::new(isize::MAX, isize::MIN), 77), 77);
    assert_eq!(g.get(&Pos::new(2, 1), 99), 6);
}

#[test]
fn set_then_get_round_trip() {
    let mut g = Grid::new(vec![0; 12], 4);
    g.set(&Pos::new(3, 2), 7);
    assert_eq!(g.get(&Pos::new(3, 2), -1), 7);
    assert_eq!(g.get(&Pos::new(3, 2), 1234), 7);
    assert_eq!(g.get_cells()[11], 7);
}

#[test]
fn set_off_grid_is_ignored() {
    let mut g = Grid::new(vec![0; 4], 2);
    g.set(&Pos::new(2, 0), 5);
    g.set(&Pos::new(-1, 1), 5);
    assert_eq!(g.get_cells(), &vec![0, 0, 0, 0]);
}

#[test]
fn index_bijection() {
    let g = Grid::new(vec![0u8; 15], 5);
    for i in 0..g.get_area() {
        let p = g.i_to_pos(i);
        assert!(g.is_valid(&p));
        assert_eq!(g.pos_to_i(&p), i);
    }
    let p = g.i_to_pos(7);
    assert_eq!((p.x, p.y), (2, 1));
    assert_eq!(g.pos_to_i(&Pos::new(4, 2)), 14);
}

#[test]
fn dimensions_and_validity() {
    let g = Grid::new(vec![0u8; 6], 3);
    assert_eq!(g.get_width(), 3);
    assert_eq!(g.get_height(), 2);
    assert_eq!(g.get_area(), 6);
    assert!(g.is_valid(&Pos::new(2, 1)));
    assert!(!g.is_valid(&Pos::new(3, 1)));
    assert!(!g.is_valid(&Pos::new(0, 2)));
    assert!(!g.is_valid(&Pos::new(-1, 0)));
}

#[test]
fn initialize_fills_with_unset() {
    let g = initialize(4, 3, 9u8);
    assert_eq!(g.get_width(), 4);
    assert_eq!(g.get_height(), 3);
    assert_eq!(g.get_cells(), &vec![9u8; 12]);
}

#[test]
fn pos_rel_shifts() {
    let p = Pos::new(3, -2).rel(-5, 4);
    assert_eq!((p.x, p.y), (-2, 2));
}

#[test]
fn overlap_collapse_fills_all_but_the_last_cell() {
    let grid = initialize(2, 2, 0u8);
    let pattern = Grid::new(vec![1u8, 1, 1, 1], 2);
    let mut rng = StdRng::seed_from_u64(5);
    let r = collapse(grid, &vec![0, 1, 2, 3], &pattern, 1, 3, 1, 0, 9, &mut rng);
    assert_eq!(r.expect("a uniform pattern always fits").get_cells(), &vec![1u8, 1, 1, 0]);
}

#[test]
fn overlap_collapse_with_short_order_returns_grid() {
    let grid = Grid::new(vec![0u8, 3, 0, 0], 2);
    let pattern = Grid::new(vec![1u8], 1);
    let mut rng = StdRng::seed_from_u64(5);
    let r = collapse(grid, &vec![2], &pattern, 1, 3, 1, 0, 9, &mut rng);
    assert_eq!(r.unwrap().get_cells(), &vec![0u8, 3, 0, 0]);
}

#[test]
fn overlap_collapse_fails_on_conflict() {
    let grid = Grid::new(vec![0u8, 5], 2);
    let pattern = Grid::new(vec![1u8, 1], 2);
    let mut rng = StdRng::seed_from_u64(5);
    let r = collapse(grid, &vec![0, 1], &pattern, 1, 2, 1, 0, 9, &mut rng);
    assert!(r.is_none());
}
