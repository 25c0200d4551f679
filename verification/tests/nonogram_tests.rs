use nonogram::block::Block;
use nonogram::block::MouseButton;
use nonogram::coords::render_nonogram;
use nonogram::coords::translate_xy_to_rc;
use nonogram::coords::BLOCK_SIZE;
use nonogram::grid::Nonogram;
use nonogram::loader::load_nonogram;
use nonogram::loader::parse_line;
use nonogram::loader::NonogramError;
use nonogram::loader::BLOCK_CHAR;
use nonogram::state::MainState;

#[test]
fn load_example_pattern() {
    let g = load_nonogram("#.\n.#").unwrap();
    assert_eq!(g.height(), 2);
    assert_eq!(g.width(), 2);
    assert_eq!(g.get(0, 0), Block::Filled);
    assert_eq!(g.get(0, 1), Block::Empty);
    assert_eq!(g.get(1, 0), Block::Empty);
    assert_eq!(g.get(1, 1), Block::Filled);
}

#[test]
fn load_pads_ragged_lines_to_max_width() {
    let g = load_nonogram("##\n#\n####").unwrap();
    assert_eq!(g.height(), 3);
    assert_eq!(g.width(), 4);
    let expected = vec![
        vec![Block::Filled, Block::Filled, Block::Empty, Block::Empty],
        vec![Block::Filled, Block::Empty, Block::Empty, Block::Empty],
        vec![Block::Filled, Block::Filled, Block::Filled, Block::Filled],
    ];
    for r in 0..3 {
        for c in 0..4 {
            assert_eq!(g.get(r, c), expected[r][c]);
        }
    }
}

#[test]
fn load_keeps_trailing_blank_line_out() {
    let g = load_nonogram("#\n").unwrap();
    assert_eq!(g.height(), 1);
    assert_eq!(g.width(), 1);
    assert_eq!(g.get(0, 0), Block::Filled);
}

#[test]
fn load_splits_carriage_return_line_feed() {
    let g = load_nonogram("#\r\n.#").unwrap();
    assert_eq!(g.height(), 2);
    assert_eq!(g.width(), 2);
    assert_eq!(g.get(0, 0), Block::Filled);
    assert_eq!(g.get(0, 1), Block::Empty);
    assert_eq!(g.get(1, 0), Block::Empty);
    assert_eq!(g.get(1, 1), Block::Filled);
}

#[test]
fn load_rejects_empty_text() {
    assert_eq!(load_nonogram("").unwrap_err(), NonogramError::InvalidDimensions);
}

#[test]
fn load_rejects_only_empty_lines() {
    assert_eq!(load_nonogram("\n\n\n").unwrap_err(), NonogramError::InvalidDimensions);
    assert_eq!(load_nonogram("\r\n\r\n").unwrap_err(), NonogramError::InvalidDimensions);
}

#[test]
fn load_accepts_a_single_blank_cell() {
    let g = load_nonogram(" ").unwrap();
    assert_eq!(g.height(), 1);
    assert_eq!(g.width(), 1);
    assert_eq!(g.get(0, 0), Block::Empty);
}

#[test]
fn parse_line_marks_only_the_fill_marker() {
    assert_eq!(BLOCK_CHAR, '#');
    let row = parse_line("a# 1.", 6);
    assert_eq!(
        row,
        vec![
            Block::Empty,
            Block::Filled,
            Block::Empty,
            Block::Empty,
            Block::Empty,
            Block::Empty,
        ]
    );
}

#[test]
fn parse_line_pads_with_empty() {
    let row = parse_line("#", 3);
    assert_eq!(row, vec![Block::Filled, Block::Empty, Block::Empty]);
}

#[test]
fn toggle_each_button_fills_and_clears() {
    assert_eq!(Block::Empty.from_mouse_button(MouseButton::Left), Block::Filled);
    assert_eq!(Block::Filled.from_mouse_button(MouseButton::Left), Block::Empty);
    assert_eq!(Block::Empty.from_mouse_button(MouseButton::Right), Block::Crossed);
    assert_eq!(Block::Crossed.from_mouse_button(MouseButton::Right), Block::Empty);
    assert_eq!(Block::Empty.from_mouse_button(MouseButton::Middle), Block::Marked);
    assert_eq!(Block::Marked.from_mouse_button(MouseButton::Middle), Block::Empty);
    assert_eq!(Block::Empty.from_mouse_button(MouseButton::Other), Block::Filled);
    assert_eq!(Block::Filled.from_mouse_button(MouseButton::Other), Block::Empty);
}

#[test]
fn toggle_overwrites_a_different_state() {
    assert_eq!(Block::Crossed.from_mouse_button(MouseButton::Left), Block::Filled);
    assert_eq!(Block::Marked.from_mouse_button(MouseButton::Right), Block::Crossed);
    assert_eq!(Block::Filled.from_mouse_button(MouseButton::Middle), Block::Marked);
}

#[test]
fn toggle_twice_returns_to_start_from_empty() {
    for button in [
        MouseButton::Left,
        MouseButton::Right,
        MouseButton::Middle,
        MouseButton::Other,
    ] {
        let once = Block::Empty.from_mouse_button(button);
        assert_eq!(once.from_mouse_button(button), Block::Empty);
    }
}

#[test]
fn translate_maps_the_origin_to_the_first_cell() {
    // A 2x2 grid in a 640x480 viewport: footprint 70x70, origin (285, 205).
    assert_eq!(BLOCK_SIZE, 35);
    let g = load_nonogram("#.\n.#").unwrap();
    assert_eq!(translate_xy_to_rc(&g, 285, 205, 640, 480), Some((0, 0)));
}

#[test]
fn translate_maps_one_unit_inside_the_far_corner_to_the_last_cell() {
    let g = load_nonogram("#.\n.#").unwrap();
    assert_eq!(translate_xy_to_rc(&g, 320, 240, 640, 480), Some((1, 1)));
}

#[test]
fn translate_maps_cell_centers() {
    let g = load_nonogram("#.\n.#").unwrap();
    assert_eq!(translate_xy_to_rc(&g, 302, 222, 640, 480), Some((0, 0)));
    assert_eq!(translate_xy_to_rc(&g, 337, 222, 640, 480), Some((0, 1)));
    assert_eq!(translate_xy_to_rc(&g, 302, 257, 640, 480), Some((1, 0)));
    assert_eq!(translate_xy_to_rc(&g, 337, 257, 640, 480), Some((1, 1)));
}

#[test]
fn translate_rejects_pixels_outside_the_rectangle() {
    let g = load_nonogram("#.\n.#").unwrap();
    assert_eq!(translate_xy_to_rc(&g, 284, 205, 640, 480), None);
    assert_eq!(translate_xy_to_rc(&g, 285, 204, 640, 480), None);
    assert_eq!(translate_xy_to_rc(&g, 356, 240, 640, 480), None);
    assert_eq!(translate_xy_to_rc(&g, 320, 276, 640, 480), None);
}

#[test]
fn translate_rejects_the_far_edges_that_belong_to_no_cell() {
    // The bounding rectangle's rightmost and bottommost pixel rows lie past
    // the last cell, so they resolve to no cell.
    let g = load_nonogram("#.\n.#").unwrap();
    assert_eq!(translate_xy_to_rc(&g, 355, 240, 640, 480), None);
    assert_eq!(translate_xy_to_rc(&g, 320, 275, 640, 480), None);
}

#[test]
fn translate_handles_a_grid_wider_than_the_viewport() {
    // 20 columns: footprint 700 pixels wide in a 640-pixel viewport, so the
    // horizontal origin is negative (-30) and the vertical one 223.
    let g = load_nonogram("####################").unwrap();
    assert_eq!(translate_xy_to_rc(&g, 0, 0, 640, 480), None);
    assert_eq!(translate_xy_to_rc(&g, 0, 223, 640, 480), Some((0, 0)));
    assert_eq!(translate_xy_to_rc(&g, 639, 223, 640, 480), Some((0, 19)));
}

#[test]
fn render_centers_the_grid_and_places_cells_row_major() {
    let g = load_nonogram("#.\n.#").unwrap();
    let plan = render_nonogram(&g, 640, 480);
    assert_eq!(plan.origin_x, 285);
    assert_eq!(plan.origin_y, 205);
    assert_eq!(plan.width_px, 70);
    assert_eq!(plan.height_px, 70);
    assert_eq!(plan.cells.len(), 4);
    let expected = vec![
        (Block::Filled, 285, 205),
        (Block::Empty, 320, 205),
        (Block::Empty, 285, 240),
        (Block::Filled, 320, 240),
    ];
    for (cell, (block, x, y)) in plan.cells.iter().zip(expected) {
        assert_eq!(cell.block, block);
        assert_eq!(cell.x, x);
        assert_eq!(cell.y, y);
    }
}

#[test]
fn all_empty_builds_a_blank_grid() {
    let g = Nonogram::all_empty(3, 2);
    assert_eq!(g.height(), 3);
    assert_eq!(g.width(), 2);
    for r in 0..3 {
        for c in 0..2 {
            assert_eq!(g.get(r, c), Block::Empty);
        }
    }
}

#[test]
fn set_replaces_one_cell_only() {
    let mut g = Nonogram::all_empty(2, 2);
    g.set(1, 0, Block::Crossed);
    assert_eq!(g.get(0, 0), Block::Empty);
    assert_eq!(g.get(0, 1), Block::Empty);
    assert_eq!(g.get(1, 0), Block::Crossed);
    assert_eq!(g.get(1, 1), Block::Empty);
}

#[test]
fn session_starts_with_a_blank_working_grid() {
    let s = MainState::new("#.\n.#").unwrap();
    assert_eq!(s.solved.height(), 2);
    assert_eq!(s.solved.width(), 2);
    assert_eq!(s.current.height(), 2);
    assert_eq!(s.current.width(), 2);
    for r in 0..2 {
        for c in 0..2 {
            assert_eq!(s.current.get(r, c), Block::Empty);
        }
    }
}

#[test]
fn session_construction_fails_on_a_degenerate_pattern() {
    assert_eq!(MainState::new("").unwrap_err(), NonogramError::InvalidDimensions);
    assert_eq!(MainState::new("\n").unwrap_err(), NonogramError::InvalidDimensions);
}

#[test]
fn click_toggles_the_clicked_cell_and_back() {
    let mut s = MainState::new("#.\n.#").unwrap();
    // Center of cell (0, 1), which loaded as Empty: fill it, then clear it.
    s.handle_click(MouseButton::Left, 337, 222, 640, 480);
    assert_eq!(s.solved.get(0, 1), Block::Filled);
    s.handle_click(MouseButton::Left, 337, 222, 640, 480);
    assert_eq!(s.solved.get(0, 1), Block::Empty);
    // Center of cell (0, 0), which loaded as Filled: clear it, then refill it.
    s.handle_click(MouseButton::Left, 302, 222, 640, 480);
    assert_eq!(s.solved.get(0, 0), Block::Empty);
    s.handle_click(MouseButton::Left, 302, 222, 640, 480);
    assert_eq!(s.solved.get(0, 0), Block::Filled);
}

#[test]
fn click_outside_the_grid_changes_nothing() {
    let mut s = MainState::new("#.\n.#").unwrap();
    s.handle_click(MouseButton::Left, 10, 10, 640, 480);
    s.handle_click(MouseButton::Right, 0, 0, 640, 480);
    assert_eq!(s.solved.get(0, 0), Block::Filled);
    assert_eq!(s.solved.get(0, 1), Block::Empty);
    assert_eq!(s.solved.get(1, 0), Block::Empty);
    assert_eq!(s.solved.get(1, 1), Block::Filled);
}

#[test]
fn click_leaves_the_working_grid_alone() {
    let mut s = MainState::new("#.\n.#").unwrap();
    s.handle_click(MouseButton::Right, 302, 222, 640, 480);
    assert_eq!(s.solved.get(0, 0), Block::Crossed);
    for r in 0..2 {
        for c in 0..2 {
            assert_eq!(s.current.get(r, c), Block::Empty);
        }
    }
}

#[test]
fn error_variants_carry_their_context() {
    let e = NonogramError::ResourceUnavailable("file not found".to_string());
    assert!(matches!(e, NonogramError::ResourceUnavailable(ref msg) if msg == "file not found"));
    assert!(matches!(NonogramError::InvalidDimensions, NonogramError::InvalidDimensions));
}
