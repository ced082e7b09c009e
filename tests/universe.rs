use game_of_life::universe::Universe;

fn dead(n: usize) -> Vec<bool> {
    vec![false; n]
}

fn grid_with(width: u32, height: u32, alive: &[(u32, u32)]) -> Universe {
    let mut u = Universe::new(width, height, &dead((width * height) as usize));
    u.set_cells(alive);
    u
}

fn alive_positions(u: &Universe) -> Vec<(u32, u32)> {
    let cells = u.get_cells();
    let mut out = Vec::new();
    for row in 0..u.height() {
        for col in 0..u.width() {
            if cells[(row * u.width() + col) as usize] {
                out.push((row, col));
            }
        }
    }
    out
}

#[test]
fn new_reports_dimensions_and_storage() {
    let draws: Vec<bool> = (0..15).map(|i| i % 3 == 0).collect();
    let u = Universe::new(5, 3, &draws);
    assert_eq!(u.width(), 5);
    assert_eq!(u.height(), 3);
    assert_eq!(u.get_cells(), draws);
    assert_eq!(u.cells_size(), 2);
    let big = Universe::new(8, 8, &dead(64));
    assert_eq!(big.cells_size(), 8);
    let one = Universe::new(1, 1, &[true]);
    assert_eq!(one.cells_size(), 1);
}

#[test]
fn new_with_zero_area() {
    let mut u = Universe::new(0, 4, &[]);
    assert_eq!(u.width(), 0);
    assert_eq!(u.height(), 4);
    assert_eq!(u.cells_size(), 0);
    u.tick();
    assert_eq!(u.get_cells(), Vec::<bool>::new());
    assert_eq!(u.render(), "\n\n\n\n");
}

#[test]
fn new_64x64_has_default_size() {
    let u = Universe::new_64x64(&dead(64 * 64));
    assert_eq!(u.width(), 64);
    assert_eq!(u.height(), 64);
    assert_eq!(u.cells_size(), 512);
}

#[test]
fn raw_bytes_are_msb_first() {
    let mut draws = dead(10);
    draws[0] = true;
    draws[7] = true;
    draws[9] = true;
    let u = Universe::new(5, 2, &draws);
    let bytes = u.cells();
    assert_eq!(bytes.len(), 2);
    assert_eq!(bytes[0], 0b1000_0001);
    assert_eq!(bytes[1] & 0b1100_0000, 0b0100_0000);
}

#[test]
fn reset_dead_twice_matches_once() {
    let mut u = Universe::new(4, 3, &vec![true; 12]);
    u.reset_dead();
    let once = u.get_cells();
    assert_eq!(once, dead(12));
    u.reset_dead();
    assert_eq!(u.get_cells(), once);
    assert_eq!(u.width(), 4);
    assert_eq!(u.height(), 3);
}

#[test]
fn reset_random_takes_the_draws() {
    let mut u = Universe::new(3, 2, &dead(6));
    let draws = vec![true, false, true, true, false, false];
    u.reset_random(&draws);
    assert_eq!(u.get_cells(), draws);
}

#[test]
fn set_cell_alive_in_and_out_of_range() {
    let mut u = Universe::new(4, 3, &dead(12));
    u.set_cell_alive(1, 2);
    assert_eq!(alive_positions(&u), vec![(1, 2)]);
    let before = u.cells().to_vec();
    u.set_cell_alive(3, 0);
    u.set_cell_alive(0, 4);
    u.set_cell_alive(u32::MAX, u32::MAX);
    assert_eq!(u.cells().to_vec(), before);
    assert_eq!(alive_positions(&u), vec![(1, 2)]);
}

#[test]
fn toggle_twice_restores() {
    let draws = vec![true, false, false, true, true, false];
    let mut u = Universe::new(3, 2, &draws);
    u.toggle_cell(1, 1);
    let mut once = draws.clone();
    once[4] = false;
    assert_eq!(u.get_cells(), once);
    u.toggle_cell(1, 1);
    assert_eq!(u.get_cells(), draws);
}

#[test]
fn toggle_follows_the_buffer_index() {
    let mut u = Universe::new(3, 2, &dead(6));
    u.toggle_cell(0, 4);
    assert_eq!(alive_positions(&u), vec![(1, 1)]);
    u.toggle_cell(2, 0);
    u.toggle_cell(7, 7);
    assert_eq!(alive_positions(&u), vec![(1, 1)]);
}

#[test]
fn set_cells_marks_each_pair() {
    let u = grid_with(4, 4, &[(0, 0), (3, 3), (1, 2), (0, 0)]);
    assert_eq!(alive_positions(&u), vec![(0, 0), (1, 2), (3, 3)]);
}

#[test]
fn neighbor_count_wraps_around() {
    let u = grid_with(3, 3, &[(0, 0)]);
    assert_eq!(u.live_neighbor_count(2, 2), 1);
    assert_eq!(u.live_neighbor_count(1, 1), 1);
    let v = grid_with(4, 4, &[(0, 0)]);
    assert_eq!(v.live_neighbor_count(3, 3), 1);
    assert_eq!(v.live_neighbor_count(2, 2), 0);
    assert_eq!(v.live_neighbor_count(0, 0), 0);
}

#[test]
fn neighbor_count_on_full_grid() {
    let u = Universe::new(5, 5, &vec![true; 25]);
    assert_eq!(u.live_neighbor_count(0, 0), 8);
    assert_eq!(u.live_neighbor_count(2, 3), 8);
}

#[test]
fn block_is_a_still_life() {
    let block = [(1, 1), (1, 2), (2, 1), (2, 2)];
    let mut u = grid_with(6, 6, &block);
    u.tick();
    assert_eq!(alive_positions(&u), block.to_vec());
    u.tick();
    assert_eq!(alive_positions(&u), block.to_vec());
}

#[test]
fn blinker_oscillates() {
    let across = vec![(2, 1), (2, 2), (2, 3)];
    let down = vec![(1, 2), (2, 2), (3, 2)];
    let mut u = grid_with(5, 5, &across);
    u.tick();
    assert_eq!(alive_positions(&u), down);
    u.tick();
    assert_eq!(alive_positions(&u), across);
}

#[test]
fn tick_applies_each_rule() {
    // A lone cell dies, a crowded cell dies, and a dead cell with three
    // neighbours is born.
    let mut lone = grid_with(5, 5, &[(2, 2)]);
    lone.tick();
    assert_eq!(alive_positions(&lone), vec![]);
    let mut plus = grid_with(5, 5, &[(1, 2), (2, 1), (2, 2), (2, 3), (3, 2)]);
    plus.tick();
    assert_eq!(
        alive_positions(&plus),
        vec![(1, 1), (1, 2), (1, 3), (2, 1), (2, 3), (3, 1), (3, 2), (3, 3)]
    );
}

#[test]
fn set_width_and_height_clear_the_grid() {
    let mut u = Universe::new(4, 3, &vec![true; 12]);
    u.set_width(4);
    assert_eq!(u.width(), 4);
    assert_eq!(u.get_cells(), dead(12));
    u.set_cell_alive(0, 0);
    u.set_height(3);
    assert_eq!(u.height(), 3);
    assert_eq!(u.get_cells(), dead(12));
    u.set_width(6);
    assert_eq!(u.get_cells(), dead(18));
    u.set_height(2);
    assert_eq!(u.get_cells(), dead(12));
    assert_eq!(u.cells_size(), 2);
}

#[test]
fn render_lays_out_rows() {
    let u = grid_with(3, 2, &[(0, 0), (1, 2)]);
    let text = u.render();
    assert_eq!(text, "◼◻◻\n◻◻◼\n");
    let lines: Vec<&str> = text.lines().collect();
    assert_eq!(lines.len(), 2);
    assert!(lines.iter().all(|l| l.chars().count() == 3));
}
