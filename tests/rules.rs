use falling_sand::element_type::{
    step_gas, step_gas_with, step_immoveable_solid, step_liquid, step_liquid_toward, step_moveable_solid,
    step_moveable_solid_toward, step_pixel_generator,
};
use falling_sand::{Element, ElementType, Grid};

fn kind(grid: &Grid, x: usize, y: usize) -> ElementType {
    grid.get(x, y).element_type
}

fn put(grid: &mut Grid, x: usize, y: usize, t: ElementType) {
    grid.set(x, y, Element::of(t));
}

fn count(grid: &Grid, t: ElementType) -> usize {
    let mut n = 0;
    for y in 0..grid.height() {
        for x in 0..grid.width() {
            if kind(grid, x, y) == t {
                n += 1;
            }
        }
    }
    n
}

#[test]
fn catalog_entries() {
    let water = Element::of(ElementType::Liquid);
    assert_eq!(water.name, "Water");
    assert_eq!((water.color.r, water.color.g, water.color.b), (4, 59, 92));
    let sand = Element::of(ElementType::MoveableSolid);
    assert_eq!(sand.name, "Sand");
    assert_eq!((sand.color.r, sand.color.g, sand.color.b), (255, 215, 0));
    assert_eq!(Element::of(ElementType::Nothing).name, "Nothing");
    assert_eq!(Element::of(ElementType::Maze).element_type, ElementType::Maze);
}

#[test]
fn solid_falls_into_empty_cell() {
    let mut grid = Grid::new(3, 3);
    put(&mut grid, 1, 0, ElementType::MoveableSolid);
    step_moveable_solid(&mut grid, 1, 0);
    assert_eq!(kind(&grid, 1, 0), ElementType::Nothing);
    assert_eq!(kind(&grid, 1, 1), ElementType::MoveableSolid);
}

#[test]
fn solid_sinks_through_liquid() {
    let mut grid = Grid::new(3, 3);
    put(&mut grid, 1, 0, ElementType::MoveableSolid);
    put(&mut grid, 1, 1, ElementType::Liquid);
    step_moveable_solid(&mut grid, 1, 0);
    assert_eq!(kind(&grid, 1, 0), ElementType::Liquid);
    assert_eq!(kind(&grid, 1, 1), ElementType::MoveableSolid);
}

#[test]
fn solid_slides_to_chosen_diagonal() {
    let mut grid = Grid::new(3, 2);
    put(&mut grid, 1, 0, ElementType::MoveableSolid);
    put(&mut grid, 1, 1, ElementType::ImmovableSolid);
    step_moveable_solid_toward(&mut grid, 1, 0, true);
    assert_eq!(kind(&grid, 2, 1), ElementType::MoveableSolid);
    assert_eq!(kind(&grid, 1, 0), ElementType::Nothing);
    let mut grid = Grid::new(3, 2);
    put(&mut grid, 1, 0, ElementType::MoveableSolid);
    put(&mut grid, 1, 1, ElementType::ImmovableSolid);
    step_moveable_solid_toward(&mut grid, 1, 0, false);
    assert_eq!(kind(&grid, 0, 1), ElementType::MoveableSolid);
}

#[test]
fn solid_takes_the_only_free_diagonal() {
    let mut grid = Grid::new(3, 2);
    put(&mut grid, 1, 0, ElementType::MoveableSolid);
    put(&mut grid, 1, 1, ElementType::ImmovableSolid);
    put(&mut grid, 2, 1, ElementType::ImmovableSolid);
    step_moveable_solid_toward(&mut grid, 1, 0, true);
    assert_eq!(kind(&grid, 0, 1), ElementType::MoveableSolid);
}

#[test]
fn solid_rests_when_blocked() {
    let mut grid = Grid::new(3, 2);
    for x in 0..3 {
        put(&mut grid, x, 1, ElementType::ImmovableSolid);
    }
    put(&mut grid, 1, 0, ElementType::MoveableSolid);
    step_moveable_solid(&mut grid, 1, 0);
    assert_eq!(kind(&grid, 1, 0), ElementType::MoveableSolid);
}

#[test]
fn random_solid_slide_lands_on_a_diagonal() {
    let mut grid = Grid::with_seed(3, 2, 4);
    put(&mut grid, 1, 0, ElementType::MoveableSolid);
    put(&mut grid, 1, 1, ElementType::ImmovableSolid);
    step_moveable_solid(&mut grid, 1, 0);
    assert_eq!(kind(&grid, 1, 0), ElementType::Nothing);
    assert!(kind(&grid, 0, 1) == ElementType::MoveableSolid || kind(&grid, 2, 1) == ElementType::MoveableSolid);
    assert_eq!(count(&grid, ElementType::MoveableSolid), 1);
}

#[test]
fn stone_sinks_through_water() {
    let mut grid = Grid::new(2, 2);
    put(&mut grid, 0, 0, ElementType::ImmovableSolid);
    put(&mut grid, 0, 1, ElementType::Liquid);
    step_immoveable_solid(&mut grid, 0, 0);
    assert_eq!(kind(&grid, 0, 0), ElementType::Liquid);
    assert_eq!(kind(&grid, 0, 1), ElementType::ImmovableSolid);
}

#[test]
fn stone_stays_over_empty_cell() {
    let mut grid = Grid::new(2, 2);
    put(&mut grid, 0, 0, ElementType::ImmovableSolid);
    step_immoveable_solid(&mut grid, 0, 0);
    assert_eq!(kind(&grid, 0, 0), ElementType::ImmovableSolid);
    assert_eq!(kind(&grid, 0, 1), ElementType::Nothing);
}

#[test]
fn liquid_falls_straight_without_free_diagonal() {
    let mut grid = Grid::new(3, 3);
    put(&mut grid, 1, 0, ElementType::Liquid);
    put(&mut grid, 0, 1, ElementType::ImmovableSolid);
    put(&mut grid, 2, 1, ElementType::ImmovableSolid);
    step_liquid_toward(&mut grid, 1, 0, 6, true);
    assert_eq!(kind(&grid, 1, 1), ElementType::Liquid);
    assert_eq!(kind(&grid, 1, 0), ElementType::Nothing);
}

#[test]
fn liquid_prefers_free_diagonal_when_falling() {
    let mut grid = Grid::new(3, 3);
    put(&mut grid, 1, 0, ElementType::Liquid);
    step_liquid_toward(&mut grid, 1, 0, 6, false);
    assert_eq!(kind(&grid, 0, 1), ElementType::Liquid);
    let mut grid = Grid::new(3, 3);
    put(&mut grid, 1, 0, ElementType::Liquid);
    put(&mut grid, 0, 1, ElementType::ImmovableSolid);
    step_liquid_toward(&mut grid, 1, 0, 6, false);
    assert_eq!(kind(&grid, 2, 1), ElementType::Liquid);
}

#[test]
fn liquid_spreads_the_full_distance_when_unobstructed() {
    let mut grid = Grid::new(20, 2);
    put(&mut grid, 5, 1, ElementType::Liquid);
    step_liquid_toward(&mut grid, 5, 1, 6, true);
    assert_eq!(kind(&grid, 11, 1), ElementType::Liquid);
    assert_eq!(count(&grid, ElementType::Liquid), 1);
}

#[test]
fn liquid_spread_stops_at_edge_and_obstruction() {
    let mut grid = Grid::new(20, 2);
    put(&mut grid, 3, 1, ElementType::Liquid);
    step_liquid_toward(&mut grid, 3, 1, 6, false);
    assert_eq!(kind(&grid, 0, 1), ElementType::Liquid);
    let mut grid = Grid::new(20, 2);
    put(&mut grid, 5, 1, ElementType::Liquid);
    put(&mut grid, 8, 1, ElementType::ImmovableSolid);
    step_liquid_toward(&mut grid, 5, 1, 6, true);
    assert_eq!(kind(&grid, 7, 1), ElementType::Liquid);
    assert_eq!(kind(&grid, 8, 1), ElementType::ImmovableSolid);
}

#[test]
fn liquid_spread_is_bounded_by_the_rate() {
    for seed in 0..20u64 {
        let mut grid = Grid::with_seed(30, 2, seed);
        put(&mut grid, 15, 1, ElementType::Liquid);
        step_liquid(&mut grid, 15, 1, 6);
        assert_eq!(count(&grid, ElementType::Liquid), 1);
        let at = (0..30).find(|&x| kind(&grid, x, 1) == ElementType::Liquid).unwrap();
        assert!(at == 9 || at == 21);
    }
}

#[test]
fn liquid_blocked_on_both_sides_stays() {
    let mut grid = Grid::new(3, 1);
    put(&mut grid, 0, 0, ElementType::ImmovableSolid);
    put(&mut grid, 1, 0, ElementType::Liquid);
    put(&mut grid, 2, 0, ElementType::ImmovableSolid);
    step_liquid(&mut grid, 1, 0, 6);
    assert_eq!(kind(&grid, 1, 0), ElementType::Liquid);
}

#[test]
fn gas_rises_into_empty_cell() {
    let mut grid = Grid::new(3, 3);
    put(&mut grid, 1, 2, ElementType::Gas);
    step_gas_with(&mut grid, 1, 2, 4, true, &vec![]);
    assert_eq!(kind(&grid, 1, 1), ElementType::Gas);
    assert_eq!(kind(&grid, 1, 2), ElementType::Nothing);
}

#[test]
fn blocked_gas_moves_to_first_accepted_probe() {
    let mut grid = Grid::new(10, 2);
    for x in 0..10 {
        put(&mut grid, x, 0, ElementType::ImmovableSolid);
    }
    put(&mut grid, 1, 1, ElementType::Gas);
    step_gas_with(&mut grid, 1, 1, 4, true, &vec![false, true, true, true]);
    assert_eq!(kind(&grid, 3, 1), ElementType::Gas);
    assert_eq!(kind(&grid, 1, 1), ElementType::Nothing);
}

#[test]
fn blocked_gas_probes_to_the_left() {
    let mut grid = Grid::new(10, 2);
    for x in 0..10 {
        put(&mut grid, x, 0, ElementType::ImmovableSolid);
    }
    put(&mut grid, 6, 1, ElementType::Gas);
    put(&mut grid, 5, 1, ElementType::ImmovableSolid);
    step_gas_with(&mut grid, 6, 1, 4, false, &vec![true, true, true, true]);
    assert_eq!(kind(&grid, 4, 1), ElementType::Gas);
    assert_eq!(kind(&grid, 5, 1), ElementType::ImmovableSolid);
    assert_eq!(kind(&grid, 6, 1), ElementType::Nothing);
}

#[test]
fn gas_on_top_row_spreads_sideways() {
    let mut grid = Grid::new(6, 2);
    put(&mut grid, 2, 0, ElementType::Gas);
    step_gas_with(&mut grid, 2, 0, 4, true, &vec![true]);
    assert_eq!(kind(&grid, 3, 0), ElementType::Gas);
    assert_eq!(kind(&grid, 2, 0), ElementType::Nothing);
}

#[test]
fn gas_probes_stop_at_the_edge() {
    let mut grid = Grid::new(3, 1);
    put(&mut grid, 1, 0, ElementType::Gas);
    put(&mut grid, 2, 0, ElementType::ImmovableSolid);
    step_gas_with(&mut grid, 1, 0, 4, true, &vec![true, true, true, true]);
    assert_eq!(kind(&grid, 1, 0), ElementType::Gas);
}

#[test]
fn random_gas_stays_within_the_rate() {
    let mut moved = false;
    for seed in 0..40u64 {
        let mut grid = Grid::with_seed(30, 1, seed);
        put(&mut grid, 15, 0, ElementType::Gas);
        step_gas(&mut grid, 15, 0, 4);
        assert_eq!(count(&grid, ElementType::Gas), 1);
        let at = (0..30).find(|&x| kind(&grid, x, 0) == ElementType::Gas).unwrap();
        assert!(at >= 11 && at <= 19);
        if at != 15 {
            moved = true;
        }
    }
    assert!(moved);
}

#[test]
fn blocked_gas_without_accepted_probe_stays() {
    let mut grid = Grid::new(10, 2);
    for x in 0..10 {
        put(&mut grid, x, 0, ElementType::ImmovableSolid);
    }
    put(&mut grid, 1, 1, ElementType::Gas);
    step_gas_with(&mut grid, 1, 1, 4, true, &vec![false, false, false, false]);
    assert_eq!(kind(&grid, 1, 1), ElementType::Gas);
}

#[test]
fn generator_rule_fills_only_empty_cells() {
    let mut grid = Grid::new(2, 2);
    put(&mut grid, 0, 0, ElementType::PixelGenerator);
    step_pixel_generator(&mut grid, 0, 0);
    assert_eq!(grid.get(0, 1), Element::of(ElementType::Liquid));
    let mut grid = Grid::new(2, 2);
    put(&mut grid, 0, 0, ElementType::PixelGenerator);
    put(&mut grid, 0, 1, ElementType::Fire);
    step_pixel_generator(&mut grid, 0, 0);
    assert_eq!(kind(&grid, 0, 1), ElementType::Fire);
}

#[test]
fn magic_rises_through_water_and_swaps() {
    let mut grid = Grid::new(3, 3);
    put(&mut grid, 1, 1, ElementType::Magic);
    put(&mut grid, 1, 0, ElementType::Liquid);
    put(&mut grid, 2, 0, ElementType::ImmovableSolid);
    put(&mut grid, 0, 0, ElementType::ImmovableSolid);
    Element::step_magic_toward(&mut grid, 1, 1, true);
    assert_eq!(kind(&grid, 1, 0), ElementType::Magic);
    assert_eq!(kind(&grid, 1, 1), ElementType::Liquid);
}

#[test]
fn magic_moves_diagonally_up() {
    let mut grid = Grid::new(3, 3);
    put(&mut grid, 1, 1, ElementType::Magic);
    Element::step_magic_toward(&mut grid, 1, 1, false);
    assert_eq!(kind(&grid, 0, 0), ElementType::Magic);
    assert_eq!(count(&grid, ElementType::Magic), 1);
}

#[test]
fn boxed_magic_stays() {
    let mut grid = Grid::new(3, 3);
    for y in 0..3 {
        for x in 0..3 {
            put(&mut grid, x, y, ElementType::ImmovableSolid);
        }
    }
    put(&mut grid, 1, 1, ElementType::Magic);
    let mut magic = grid.get(1, 1);
    magic.step_magic(&mut grid, 1, 1);
    assert_eq!(kind(&grid, 1, 1), ElementType::Magic);
    assert_eq!(count(&grid, ElementType::ImmovableSolid), 8);
}

#[test]
fn fire_rises_when_drawn() {
    let mut grid = Grid::new(3, 3);
    put(&mut grid, 1, 1, ElementType::Fire);
    Element::step_fire_with(&mut grid, 1, 1, true, 0);
    assert_eq!(kind(&grid, 1, 0), ElementType::Fire);
    assert_eq!(kind(&grid, 1, 1), ElementType::Nothing);
}

#[test]
fn fire_drifts_sideways_or_dies() {
    let mut grid = Grid::new(3, 3);
    put(&mut grid, 1, 1, ElementType::Fire);
    Element::step_fire_with(&mut grid, 1, 1, false, 1);
    assert_eq!(kind(&grid, 2, 1), ElementType::Fire);
    let mut grid = Grid::new(3, 3);
    put(&mut grid, 1, 1, ElementType::Fire);
    Element::step_fire_with(&mut grid, 1, 1, false, 0);
    assert_eq!(grid.get(1, 1), Element::of(ElementType::Nothing));
    assert_eq!(count(&grid, ElementType::Fire), 0);
    let mut grid = Grid::new(3, 3);
    put(&mut grid, 0, 1, ElementType::Fire);
    Element::step_fire_with(&mut grid, 0, 1, false, -1);
    assert_eq!(count(&grid, ElementType::Fire), 0);
}

#[test]
fn smothered_fire_goes_out() {
    let mut grid = Grid::with_seed(3, 2, 8);
    put(&mut grid, 0, 1, ElementType::ImmovableSolid);
    put(&mut grid, 1, 0, ElementType::ImmovableSolid);
    put(&mut grid, 2, 1, ElementType::ImmovableSolid);
    put(&mut grid, 1, 1, ElementType::Fire);
    let mut fire = grid.get(1, 1);
    fire.step_fire(&mut grid, 1, 1);
    assert_eq!(kind(&grid, 1, 1), ElementType::Nothing);
    assert_eq!(count(&grid, ElementType::ImmovableSolid), 3);
}

#[test]
fn step_off_grid_does_nothing() {
    let mut grid = Grid::new(2, 2);
    put(&mut grid, 1, 1, ElementType::Liquid);
    let mut sand = Element::of(ElementType::MoveableSolid);
    sand.step(&mut grid, 5, 0);
    assert_eq!(count(&grid, ElementType::Liquid), 1);
    assert_eq!(count(&grid, ElementType::MoveableSolid), 0);
}

#[test]
fn painting_fills_empty_cells_along_the_stroke() {
    let mut grid = Grid::new(8, 8);
    grid.handle_input("[");
    grid.handle_input("[");
    grid.handle_input("q");
    grid.set(2, 0, Element::of(ElementType::ImmovableSolid));
    grid.set_mouse(0, 0);
    grid.draw_mouse(4, 0);
    for x in 0..5 {
        if x == 2 {
            assert_eq!(kind(&grid, x, 0), ElementType::ImmovableSolid);
        } else {
            assert_eq!(kind(&grid, x, 0), ElementType::MoveableSolid);
        }
    }
    assert_eq!(kind(&grid, 5, 0), ElementType::Nothing);
    assert_eq!(kind(&grid, 0, 1), ElementType::Nothing);
}

#[test]
fn eraser_clears_cells() {
    let mut grid = Grid::new(8, 8);
    grid.set(3, 3, Element::of(ElementType::ImmovableSolid));
    grid.set(4, 3, Element::of(ElementType::ImmovableSolid));
    grid.handle_input("t");
    grid.set_mouse(3, 3);
    grid.draw_mouse(3, 3);
    assert_eq!(kind(&grid, 3, 3), ElementType::Nothing);
    assert_eq!(kind(&grid, 4, 3), ElementType::Nothing);
}

#[test]
fn default_brush_paints_a_patch() {
    let mut grid = Grid::new(8, 8);
    grid.set_mouse(4, 4);
    grid.draw_mouse(4, 4);
    assert_eq!(count(&grid, ElementType::Liquid), 21);
    assert_eq!(kind(&grid, 6, 4), ElementType::Liquid);
    assert_eq!(kind(&grid, 6, 6), ElementType::Nothing);
}

#[test]
fn brush_of_size_two() {
    let mut grid = Grid::new(8, 8);
    grid.handle_input("[");
    grid.handle_input("e");
    grid.set_mouse(4, 4);
    grid.draw_mouse(4, 4);
    assert_eq!(count(&grid, ElementType::ImmovableSolid), 7);
}

#[test]
fn brush_painting_off_the_edge_is_dropped() {
    let mut grid = Grid::new(4, 4);
    grid.set_mouse(0, 0);
    grid.draw_mouse(0, 0);
    assert_eq!(count(&grid, ElementType::Liquid), 8);
}

#[test]
fn keys_choose_elements_and_brush() {
    let mut grid = Grid::new(4, 4);
    grid.handle_input("]");
    grid.handle_input("x");
    grid.set_mouse(1, 1);
    grid.draw_mouse(1, 1);
    assert_eq!(kind(&grid, 1, 1), ElementType::ImmovableSolid);
    grid.handle_input("z");
    assert_eq!(count(&grid, ElementType::ImmovableSolid), 0);
    grid.handle_input("y");
    grid.handle_input("[");
    grid.handle_input("[");
    grid.handle_input("[");
    grid.draw_mouse(2, 2);
    assert_eq!(count(&grid, ElementType::Fire), 2);
    grid.update_selected_element(Element::of(ElementType::Maze));
    grid.draw_mouse(3, 3);
    assert_eq!(kind(&grid, 3, 3), ElementType::Maze);
}

#[test]
fn random_direction_takes_both_sides() {
    let mut left = false;
    let mut right = false;
    for seed in 0..40u64 {
        let mut grid = Grid::with_seed(30, 1, seed);
        put(&mut grid, 15, 0, ElementType::Liquid);
        step_liquid(&mut grid, 15, 0, 6);
        if kind(&grid, 9, 0) == ElementType::Liquid {
            left = true;
        }
        if kind(&grid, 21, 0) == ElementType::Liquid {
            right = true;
        }
    }
    assert!(left && right);
}

#[test]
fn fire_sometimes_rises_and_sometimes_drifts() {
    let mut rose = 0;
    let mut stayed_low = 0;
    for seed in 0..60u64 {
        let mut grid = Grid::with_seed(5, 3, seed);
        put(&mut grid, 2, 2, ElementType::Fire);
        let mut fire = grid.get(2, 2);
        fire.step_fire(&mut grid, 2, 2);
        if kind(&grid, 2, 1) == ElementType::Fire {
            rose += 1;
        } else {
            stayed_low += 1;
            assert_eq!(kind(&grid, 2, 1), ElementType::Nothing);
        }
        assert!(count(&grid, ElementType::Fire) <= 1);
    }
    assert!(rose > 0 && stayed_low > 0);
    assert!(rose > stayed_low);
}

#[test]
fn fire_drift_takes_every_direction() {
    let mut seen = [false; 3];
    for seed in 0..60u64 {
        let mut grid = Grid::with_seed(5, 1, seed);
        put(&mut grid, 2, 0, ElementType::Fire);
        let mut fire = grid.get(2, 0);
        fire.step_fire(&mut grid, 2, 0);
        if kind(&grid, 1, 0) == ElementType::Fire {
            seen[0] = true;
        } else if kind(&grid, 3, 0) == ElementType::Fire {
            seen[2] = true;
        } else {
            assert_eq!(count(&grid, ElementType::Fire), 0);
            seen[1] = true;
        }
    }
    assert!(seen[0] && seen[1] && seen[2]);
}
