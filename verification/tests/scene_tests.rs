use raycaster::framebuffer::Framebuffer;
use raycaster::scene::{
    dibujar_celdas, draw_floor, draw_maze, draw_wall_slice, render2d_cells, render_minimap_cells,
    sort_vertices_by_y, wall_color,
};

const BLUE: u32 = 0x87CEFA;
const GREEN: u32 = 0x00FF00;

fn grid(fb: &Framebuffer) -> Vec<Vec<u32>> {
    (0..fb.height)
        .map(|y| fb.buffer[y * fb.width..(y + 1) * fb.width].to_vec())
        .collect()
}

#[test]
fn empty_cell_changes_nothing() {
    let mut fb = Framebuffer::new(5, 5);
    fb.set_current_color(0x42);
    dibujar_celdas(&mut fb, 0, 0, 3, ' ');
    assert_eq!(fb.buffer, vec![0u32; 25]);
    assert_eq!(fb.current_color(), 0x42);
}

#[test]
fn exit_cell_is_green_square() {
    let mut fb = Framebuffer::new(5, 5);
    dibujar_celdas(&mut fb, 1, 1, 2, 'E');
    assert_eq!(fb.current_color(), GREEN);
    for y in 0..5 {
        for x in 0..5 {
            let inside = (1..3).contains(&x) && (1..3).contains(&y);
            assert_eq!(fb.buffer[y * 5 + x], if inside { GREEN } else { 0 });
        }
    }
}

#[test]
fn wall_cells_are_light_blue_and_clipped() {
    let mut fb = Framebuffer::new(5, 5);
    dibujar_celdas(&mut fb, 3, 4, 10, '|');
    assert_eq!(fb.current_color(), BLUE);
    assert_eq!(fb.buffer.iter().filter(|&&p| p == BLUE).count(), 2);
    assert_eq!(fb.buffer[4 * 5 + 3], BLUE);
    assert_eq!(fb.buffer[4 * 5 + 4], BLUE);
}

#[test]
fn maze_cells_land_in_their_squares() {
    let maze = vec![vec!['+', ' '], vec!['E']];
    let mut fb = Framebuffer::new(6, 4);
    draw_maze(&mut fb, &maze, 1, 0, 2);
    assert_eq!(
        grid(&fb),
        vec![
            vec![0, BLUE, BLUE, 0, 0, 0],
            vec![0, BLUE, BLUE, 0, 0, 0],
            vec![0, GREEN, GREEN, 0, 0, 0],
            vec![0, GREEN, GREEN, 0, 0, 0],
        ]
    );
    assert_eq!(fb.current_color(), GREEN);
}

#[test]
fn maze_of_empty_cells_keeps_pen() {
    let maze = vec![vec![' ', ' '], vec![]];
    let mut fb = Framebuffer::new(4, 4);
    fb.set_current_color(0x99);
    draw_maze(&mut fb, &maze, 0, 0, 2);
    assert_eq!(fb.buffer, vec![0u32; 16]);
    assert_eq!(fb.current_color(), 0x99);
}

#[test]
fn render2d_block_is_width_over_columns() {
    let maze = vec![vec!['-', ' ', '-']];
    let mut fb = Framebuffer::new(7, 3);
    let block = render2d_cells(&mut fb, &maze);
    assert_eq!(block, 2);
    assert_eq!(grid(&fb)[0], vec![BLUE, BLUE, 0, 0, BLUE, BLUE, 0]);
    assert_eq!(grid(&fb)[2], vec![0; 7]);
}

#[test]
fn minimap_sits_twenty_pixels_from_the_top_right() {
    let maze = vec![vec!['+', '+', '+']];
    let mut fb = Framebuffer::new(50, 30);
    let origin = render_minimap_cells(&mut fb, &maze, 4);
    assert_eq!(origin, (18, 20));
    assert_eq!(fb.buffer[20 * 50 + 18], BLUE);
    assert_eq!(fb.buffer[20 * 50 + 29], BLUE);
    assert_eq!(fb.buffer[20 * 50 + 30], 0);
    assert_eq!(fb.buffer[19 * 50 + 18], 0);
    assert_eq!(fb.buffer.iter().filter(|&&p| p == BLUE).count(), 12 * 4);
}

#[test]
fn floor_fills_lower_rows() {
    let mut fb = Framebuffer::new(3, 4);
    draw_floor(&mut fb, 2);
    assert_eq!(fb.current_color(), 0xD3D3D3);
    assert_eq!(
        fb.buffer,
        vec![0, 0, 0, 0, 0, 0, 0xD3D3D3, 0xD3D3D3, 0xD3D3D3, 0xD3D3D3, 0xD3D3D3, 0xD3D3D3]
    );
}

#[test]
fn wall_colors() {
    assert_eq!(wall_color('+'), 0xFF6F61);
    assert_eq!(wall_color('-'), 0x6B8E23);
    assert_eq!(wall_color('|'), 0x4682B4);
    assert_eq!(wall_color('E'), 0xFFD700);
    assert_eq!(wall_color(' '), 0xFFFFFF);
    assert_eq!(wall_color('x'), 0xFFFFFF);
}

#[test]
fn wall_slice_is_clamped_to_the_screen() {
    let mut fb = Framebuffer::new(3, 4);
    draw_wall_slice(&mut fb, 1, -5, 100, '+');
    assert_eq!(fb.current_color(), 0xFF6F61);
    for y in 0..4 {
        assert_eq!(grid(&fb)[y], vec![0, 0xFF6F61, 0]);
    }
}

#[test]
fn wall_slice_between_rows() {
    let mut fb = Framebuffer::new(3, 4);
    draw_wall_slice(&mut fb, 2, 1, 3, 'E');
    assert_eq!(grid(&fb), vec![vec![0, 0, 0], vec![0, 0, 0xFFD700], vec![0, 0, 0xFFD700], vec![0, 0, 0]]);
}

#[test]
fn wall_slice_inverted_draws_nothing_but_sets_color() {
    let mut fb = Framebuffer::new(3, 4);
    draw_wall_slice(&mut fb, 0, 3, 1, '-');
    assert_eq!(fb.buffer, vec![0u32; 12]);
    assert_eq!(fb.current_color(), 0x6B8E23);
}

#[test]
fn vertices_sorted_top_first() {
    assert_eq!(sort_vertices_by_y((0, 5), (1, 2), (2, 9)), ((1, 2), (0, 5), (2, 9)));
    assert_eq!(sort_vertices_by_y((0, 9), (1, 5), (2, 2)), ((2, 2), (1, 5), (0, 9)));
    assert_eq!(sort_vertices_by_y((0, -1), (1, 0), (2, 1)), ((0, -1), (1, 0), (2, 1)));
}

#[test]
fn vertices_with_equal_heights_follow_the_swaps() {
    assert_eq!(sort_vertices_by_y((0, 1), (1, 1), (2, 0)), ((2, 0), (1, 1), (0, 1)));
}

#[test]
fn empty_cell_leaves_any_framebuffer_alone() {
    let mut fb = Framebuffer::new(3, 3);
    fb.buffer.clear();
    dibujar_celdas(&mut fb, 0, 0, 2, ' ');
    assert!(fb.buffer.is_empty());
}
