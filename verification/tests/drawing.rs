use raycaster::canvas::draw_disc;
use raycaster::canvas::draw_layers;
use raycaster::canvas::draw_line;
use raycaster::canvas::Layer;
use raycaster::caster::Direction;
use raycaster::color::Color;
use raycaster::fixed::Fixed;
use raycaster::fixed::ONE;
use raycaster::framebuffer::Framebuffer;
use raycaster::game_state::GameManager;
use raycaster::maze::Maze;
use raycaster::overview::calculate_adaptive_block_size;
use raycaster::tiles::draw_cell;
use raycaster::tiles::draw_map;
use raycaster::minimap::draw_minimap;
use raycaster::overview::draw_scaled_ray;
use raycaster::overview::render_maze;
use raycaster::tiles::MapStyle;
use raycaster::player::Player;
use raycaster::player::Point;
use raycaster::screens::draw_victory_screen;
use raycaster::screens::draw_welcome_screen;
use raycaster::screens::render_victory_screen;
use raycaster::text::dot;
use raycaster::text::glyph;

fn fx(v: f64) -> Fixed {
    (v * 65536.0).round() as i64
}

fn grid(rows: &[&str]) -> Maze {
    rows.iter().map(|row| row.chars().collect()).collect()
}

fn rgb(r: u8, g: u8, b: u8) -> Color {
    Color { r, g, b, a: 255 }
}

fn black() -> Color {
    rgb(0, 0, 0)
}

fn white() -> Color {
    rgb(255, 255, 255)
}

fn at(x: f64, y: f64) -> Player {
    Player { pos: Point { x: fx(x), y: fx(y) }, a: 0, fov: fx(std::f64::consts::PI / 3.0) }
}

fn east() -> Direction {
    Direction { cos: ONE, sin: 0 }
}

fn count_of(fb: &Framebuffer, color: Color) -> usize {
    fb.color_buffer.iter().filter(|c| **c == color).count()
}

fn rows_of(fb: &Framebuffer, color: Color) -> Vec<String> {
    (0..fb.height)
        .map(|y| {
            (0..fb.width)
                .map(|x| if fb.get_pixel(x, y) == Some(color) { '#' } else { '.' })
                .collect()
        })
        .collect()
}

#[test]
fn glyph_of_a_letter_has_its_dots() {
    let a = glyph('A');
    let picture: Vec<String> = (0..7)
        .map(|row| (0..5).map(|col| if dot(a, row, col) { '#' } else { '.' }).collect())
        .collect();
    assert_eq!(picture, vec![".###.", "#...#", "#...#", "#####", "#...#", "#...#", "#...#"]);
    assert!(!dot(a, 7, 0));
    assert!(!dot(a, 0, 5));
    assert_eq!(glyph(' '), 0);
    // A character without a glyph of its own is a full block.
    assert_eq!(glyph('>'), (1 << 35) - 1);
    assert_eq!(glyph('Z'), (1 << 35) - 1);
    assert_ne!(glyph('a'), glyph('A'));
}

#[test]
fn character_is_drawn_dot_by_dot() {
    let mut fb = Framebuffer::new(7, 9);
    fb.set_current_color(white());
    fb.draw_char('1', 1, 1, 5, 7);
    assert_eq!(
        rows_of(&fb, white()),
        vec![
            ".......", "...#...", "..##...", "...#...", "...#...", "...#...", "...#...", "..###..",
            "......."
        ]
    );
}

#[test]
fn character_dots_grow_with_the_size() {
    // Eleven wide and fifteen tall: dots two pixels each way; the rest of
    // the size is left over.
    let mut fb = Framebuffer::new(12, 16);
    fb.set_current_color(white());
    fb.draw_char('.', 0, 0, 11, 15);
    assert_eq!(count_of(&fb, white()), 2 * 4);
    assert_eq!(fb.get_pixel(2, 12), Some(white()));
    assert_eq!(fb.get_pixel(5, 13), Some(white()));
    assert_eq!(fb.get_pixel(6, 13), Some(black()));
    assert_eq!(fb.get_pixel(2, 14), Some(black()));
    // Too small for a dot, nothing is drawn.
    let mut tiny = Framebuffer::new(12, 16);
    tiny.draw_char('8', 0, 0, 4, 14);
    tiny.draw_char('8', 0, 0, 10, 6);
    assert_eq!(count_of(&tiny, black()), 12 * 16);
}

#[test]
fn text_is_drawn_character_by_character() {
    // Characters seven pixels in size have dots of one pixel and start
    // seven pixels apart.
    let mut fb = Framebuffer::new(20, 7);
    fb.draw_text("1 :", 0, 0, 7, rgb(9, 8, 7));
    assert_eq!(fb.current_color, rgb(9, 8, 7));
    assert_eq!(
        rows_of(&fb, rgb(9, 8, 7)),
        vec![
            "..#.................",
            ".##............##...",
            "..#............##...",
            "..#.................",
            "..#............##...",
            "..#............##...",
            ".###................",
        ]
    );
    // Characters five pixels in size are too small for a dot.
    let mut tiny = Framebuffer::new(20, 7);
    tiny.draw_text("1 :", 0, 0, 5, rgb(9, 8, 7));
    assert_eq!(count_of(&tiny, rgb(9, 8, 7)), 0);
    // Text that runs off the surface is cut.
    let mut narrow = Framebuffer::new(3, 7);
    narrow.draw_text("8888", 1, 2, 7, white());
    assert_eq!(rows_of(&narrow, white()), vec!["...", "...", "..#", ".#.", ".#.", "..#", ".#."]);
    narrow.draw_text("8", u32::MAX, u32::MAX, u32::MAX, white());
}

#[test]
fn disc_holds_the_pixels_within_its_radius() {
    let mut fb = Framebuffer::new(7, 7);
    fb.set_current_color(white());
    draw_disc(&mut fb, 3, 3, 2);
    assert_eq!(
        rows_of(&fb, white()),
        vec![".......", "...#...", "..###..", ".#####.", "..###..", "...#...", "......."]
    );
    let mut corner = Framebuffer::new(3, 3);
    corner.set_current_color(white());
    draw_disc(&mut corner, -1, -1, 2);
    assert_eq!(rows_of(&corner, white()), vec!["#..", "...", "..."]);
    draw_disc(&mut corner, 1, 1, -1);
    assert_eq!(count_of(&corner, white()), 1);
    draw_disc(&mut corner, 1, 1, 0);
    assert_eq!(count_of(&corner, white()), 2);
}

#[test]
fn line_runs_from_end_to_end() {
    let mut fb = Framebuffer::new(6, 4);
    fb.set_current_color(white());
    draw_line(&mut fb, 0, 0, 5, 2);
    assert_eq!(rows_of(&fb, white()), vec!["###...", "...##.", ".....#", "......"]);
    let mut back = Framebuffer::new(4, 4);
    back.set_current_color(white());
    draw_line(&mut back, 3, 3, 0, 0);
    assert_eq!(rows_of(&back, white()), vec!["#...", ".#..", "..#.", "...#"]);
    let mut point = Framebuffer::new(2, 2);
    point.set_current_color(white());
    draw_line(&mut point, 1, 1, 1, 1);
    assert_eq!(rows_of(&point, white()), vec!["..", ".#"]);
    draw_line(&mut point, -5, 0, 7, 0);
    assert_eq!(rows_of(&point, white()), vec!["##", ".#"]);
}

#[test]
fn layers_lie_one_over_the_other() {
    let mut fb = Framebuffer::new(4, 3);
    let layers = vec![
        Layer::Rect { left: 0, top: 0, width: 3, height: 2, color: rgb(1, 1, 1) },
        Layer::Rect { left: 2, top: 1, width: 5, height: 5, color: rgb(2, 2, 2) },
        Layer::Disc { cx: 0, cy: 0, radius: 0, color: rgb(3, 3, 3) },
    ];
    draw_layers(&mut fb, &layers);
    assert_eq!(rows_of(&fb, rgb(1, 1, 1)), vec![".##.", "##..", "...."]);
    assert_eq!(rows_of(&fb, rgb(2, 2, 2)), vec!["....", "..##", "..##"]);
    assert_eq!(fb.get_pixel(0, 0), Some(rgb(3, 3, 3)));
    assert_eq!(fb.current_color, rgb(3, 3, 3));
    let mut untouched = Framebuffer::new(2, 2);
    draw_layers(&mut untouched, &Vec::new());
    assert_eq!(untouched.current_color, white());
}

#[test]
fn victory_screen_has_its_box_and_its_words() {
    let mut fb = Framebuffer::new(1300, 900);
    fb.set_background_color(rgb(50, 50, 100));
    fb.clear();
    draw_victory_screen(&mut fb);
    let shade = Color { r: 0, g: 0, b: 0, a: 180 };
    // The box is 600 by 200 around the middle of the screen.
    assert_eq!(fb.get_pixel(349, 450), Some(rgb(50, 50, 100)));
    assert_eq!(fb.get_pixel(350, 350), Some(shade));
    assert_eq!(fb.get_pixel(949, 549), Some(shade));
    assert_eq!(fb.get_pixel(950, 549), Some(rgb(50, 50, 100)));
    assert_eq!(fb.get_pixel(650, 349), Some(rgb(50, 50, 100)));
    // "SUCCESS!" is 256 wide and starts at 522; its dots are six wide and
    // four tall; the top row of an S leaves the first dot out.
    assert_eq!(fb.get_pixel(522, 390), Some(shade));
    assert_eq!(fb.get_pixel(528, 390), Some(white()));
    assert_eq!(fb.get_pixel(551, 393), Some(white()));
    // The outline shows where the word itself does not cover it.
    assert_eq!(fb.get_pixel(552, 393), Some(black()));
    // The last line is sky blue.
    assert!(count_of(&fb, rgb(135, 206, 235)) > 0);
    assert!(count_of(&fb, rgb(255, 255, 0)) > 0);
    assert_eq!(fb.current_color, rgb(135, 206, 235));
}

#[test]
fn victory_screen_lies_over_its_picture() {
    let mut fb = Framebuffer::new(1300, 900);
    let picture = Some(vec![rgb(7, 7, 7); 1300 * 900]);
    render_victory_screen(&mut fb, &picture);
    assert_eq!(fb.get_pixel(0, 0), Some(rgb(7, 7, 7)));
    assert_eq!(fb.get_pixel(1299, 899), Some(rgb(7, 7, 7)));
    assert_eq!(fb.get_pixel(350, 350), Some(Color { r: 0, g: 0, b: 0, a: 180 }));
    let mut plain = Framebuffer::new(1300, 900);
    render_victory_screen(&mut plain, &None);
    assert_eq!(plain.get_pixel(1299, 899), Some(black()));
    // On a screen smaller than the box, the box covers everything.
    let mut small = Framebuffer::new(40, 30);
    render_victory_screen(&mut small, &Some(vec![rgb(7, 7, 7); 40 * 30]));
    assert_eq!(count_of(&small, rgb(7, 7, 7)), 0);
    // A picture that is too short covers the first pixels only.
    let mut short = Framebuffer::new(800, 600);
    render_victory_screen(&mut short, &Some(vec![rgb(7, 7, 7); 10]));
    assert_eq!(short.get_pixel(9, 0), Some(rgb(7, 7, 7)));
    assert_eq!(short.get_pixel(10, 0), Some(black()));
}

#[test]
fn welcome_screen_marks_the_selected_difficulty() {
    let mut game = GameManager::new();
    game.selected_option = 1;
    let mut fb = Framebuffer::new(1300, 900);
    fb.set_background_color(rgb(50, 50, 100));
    fb.clear();
    draw_welcome_screen(&mut fb, &game, &None);
    let shade = Color { r: 0, g: 0, b: 0, a: 200 };
    // The box is 500 by 400, a sixth of the width from the left.
    assert_eq!(fb.get_pixel(215, 450), Some(rgb(50, 50, 100)));
    assert_eq!(fb.get_pixel(216, 250), Some(shade));
    assert_eq!(fb.get_pixel(715, 649), Some(shade));
    assert_eq!(fb.get_pixel(716, 649), Some(rgb(50, 50, 100)));
    // "MEDIUM" is 144 wide: it starts at 216 + 178 = 394, forty below the
    // first line, at 460.  The mark before it is a full block forty to its
    // left, twenty wide and twenty-one tall.
    assert_eq!(fb.get_pixel(354, 460), Some(rgb(255, 255, 0)));
    assert_eq!(fb.get_pixel(373, 480), Some(rgb(255, 255, 0)));
    assert_eq!(fb.get_pixel(374, 460), Some(shade));
    assert_eq!(fb.get_pixel(353, 460), Some(shade));
    // An M starts with a set dot: yellow for the selected line.
    assert_eq!(fb.get_pixel(394, 460), Some(rgb(255, 255, 0)));
    // "EASY" starts at 216 + 202 = 418, at 420, in white.
    assert_eq!(fb.get_pixel(418, 420), Some(white()));
    // Orange is the outline of the selected line only.
    assert!(count_of(&fb, rgb(255, 165, 0)) > 0);
    assert!(count_of(&fb, rgb(255, 215, 0)) > 0);
    let mut other = Framebuffer::new(1300, 900);
    game.selected_option = 0;
    draw_welcome_screen(&mut other, &game, &None);
    assert_eq!(other.get_pixel(418, 420), Some(rgb(255, 255, 0)));
    assert_eq!(other.get_pixel(394, 460), Some(white()));
    assert_eq!(other.get_pixel(354, 460), Some(shade));
    assert_eq!(other.get_pixel(378, 420), Some(rgb(255, 255, 0)));
}

#[test]
fn full_map_block_size_fits_the_maze_to_the_screen() {
    let maze = grid(&["+++++", "+   +", "+++++"]);
    // (1300 - 100) / 5 = 240 and (900 - 100) / 3 = 266.
    assert_eq!(calculate_adaptive_block_size(&maze, &Framebuffer::new(1300, 900)), 240);
    assert_eq!(calculate_adaptive_block_size(&maze, &Framebuffer::new(1300, 400)), 100);
    assert_eq!(calculate_adaptive_block_size(&maze, &Framebuffer::new(150, 400)), 20);
    assert_eq!(calculate_adaptive_block_size(&maze, &Framebuffer::new(50, 50)), 20);
    assert_eq!(calculate_adaptive_block_size(&Vec::new(), &Framebuffer::new(50, 50)), 100);
    assert_eq!(calculate_adaptive_block_size(&vec![Vec::new()], &Framebuffer::new(50, 50)), 100);
}

#[test]
fn cell_is_a_square_in_the_colour_of_its_kind() {
    let mut fb = Framebuffer::new(5, 5);
    draw_cell(&mut fb, 1, 2, 2, 'g');
    assert_eq!(rows_of(&fb, rgb(0, 128, 0)), vec![".....", ".....", ".##..", ".##..", "....."]);
    assert_eq!(fb.current_color, rgb(0, 128, 0));
    draw_cell(&mut fb, 4, 4, 9, '+');
    assert_eq!(count_of(&fb, rgb(0, 0, 255)), 1);
    draw_cell(&mut fb, usize::MAX, 0, usize::MAX, '+');
    assert_eq!(count_of(&fb, rgb(0, 0, 255)), 1);
}

#[test]
fn map_is_drawn_cell_by_cell() {
    let maze = grid(&["+-", " g", "x"]);
    let mut fb = Framebuffer::new(6, 7);
    fb.set_background_color(rgb(9, 9, 9));
    fb.clear();
    draw_map(&mut fb, &maze, MapStyle::Full, 1, 0, 2);
    assert_eq!(
        rows_of(&fb, rgb(0, 0, 255)),
        vec![".####.", ".####.", "......", "......", "......", "......", "......"]
    );
    assert_eq!(
        rows_of(&fb, black()),
        vec!["......", "......", ".##...", ".##...", "......", "......", "......"]
    );
    assert_eq!(
        rows_of(&fb, rgb(0, 128, 0)),
        vec!["......", "......", "...##.", "...##.", "......", "......", "......"]
    );
    assert_eq!(
        rows_of(&fb, white()),
        vec!["......", "......", "......", "......", ".##...", ".##...", "......"]
    );
    let mut small = Framebuffer::new(6, 7);
    small.set_background_color(rgb(9, 9, 9));
    small.clear();
    draw_map(&mut small, &maze, MapStyle::Small, 1, 0, 2);
    assert_eq!(count_of(&small, white()), 8);
    assert_eq!(count_of(&small, rgb(0, 128, 0)), 4);
    assert_eq!(count_of(&small, rgb(128, 128, 128)), 4);
    assert_eq!(count_of(&small, black()), 0);
    draw_map(&mut small, &maze, MapStyle::Full, 0, 0, 0);
    assert_eq!(count_of(&small, black()), 0);
}

#[test]
fn small_map_sits_in_the_top_right_corner() {
    // Five by three cells: 250 / 5 = 50 and 200 / 3 = 66, so cells are 50
    // pixels; the map is 250 by 150 and starts at 400 - 250 - 10 = 140.
    let maze = grid(&["+++++", "+  g+", "+++++"]);
    let mut fb = Framebuffer::new(400, 300);
    fb.set_background_color(rgb(9, 9, 9));
    fb.clear();
    draw_minimap(&mut fb, &maze, &at(150.0, 150.0), 100, east());
    let veil = Color { r: 0, g: 0, b: 0, a: 150 };
    assert_eq!(fb.get_pixel(139, 80), Some(rgb(9, 9, 9)));
    assert_eq!(fb.get_pixel(390, 80), Some(rgb(9, 9, 9)));
    assert_eq!(fb.get_pixel(200, 9), Some(rgb(9, 9, 9)));
    assert_eq!(fb.get_pixel(200, 160), Some(rgb(9, 9, 9)));
    // The border and the walls are white, the goal is green, and the empty
    // cells show the veil.
    assert_eq!(fb.get_pixel(140, 10), Some(white()));
    assert_eq!(fb.get_pixel(389, 159), Some(white()));
    assert_eq!(fb.get_pixel(150, 30), Some(white()));
    assert_eq!(fb.get_pixel(300, 80), Some(rgb(0, 128, 0)));
    assert_eq!(fb.get_pixel(260, 80), Some(veil));
    // The player is in cell (1, 1): a red disc of radius 16 around
    // (140 + 50 + 25, 10 + 50 + 25), with a yellow line fifteen pixels east.
    assert_eq!(fb.get_pixel(215, 85), Some(rgb(255, 255, 0)));
    assert_eq!(fb.get_pixel(230, 85), Some(rgb(255, 255, 0)));
    assert_eq!(fb.get_pixel(231, 85), Some(rgb(255, 0, 0)));
    assert_eq!(fb.get_pixel(214, 85), Some(rgb(255, 0, 0)));
    assert_eq!(fb.get_pixel(215, 101), Some(rgb(255, 0, 0)));
    assert_eq!(fb.get_pixel(215, 102), Some(veil));
    assert_eq!(fb.get_pixel(199, 85), Some(rgb(255, 0, 0)));
    assert_eq!(fb.get_pixel(198, 85), Some(veil));
    assert_eq!(fb.get_pixel(189, 85), Some(white()));
    let mut none = Framebuffer::new(40, 30);
    draw_minimap(&mut none, &Vec::new(), &at(150.0, 150.0), 100, east());
    draw_minimap(&mut none, &vec![Vec::new()], &at(150.0, 150.0), 100, east());
    assert_eq!(count_of(&none, black()), 40 * 30);
}

#[test]
fn scaled_ray_marks_the_way_to_the_wall() {
    // Cells of 100 units drawn ten pixels wide from (3, 2): the ray starts
    // at 150 and reaches 200 units, to 350, so it covers the pixels 18 to 38.
    let maze = grid(&["+++++", "+   +", "+++++"]);
    let mut fb = Framebuffer::new(60, 40);
    fb.set_current_color(white());
    draw_scaled_ray(&mut fb, &maze, &at(150.0, 150.0), east(), 100, 10, 3, 2);
    assert_eq!(count_of(&fb, white()), 21);
    assert_eq!(fb.get_pixel(17, 17), Some(black()));
    assert_eq!(fb.get_pixel(18, 17), Some(white()));
    assert_eq!(fb.get_pixel(38, 17), Some(white()));
    assert_eq!(fb.get_pixel(39, 17), Some(black()));
    // A wall nearer than its reach stops the ray before the wall.
    let mut near = Framebuffer::new(60, 40);
    near.set_current_color(white());
    draw_scaled_ray(&mut near, &maze, &at(250.0, 150.0), east(), 100, 10, 3, 2);
    assert_eq!(count_of(&near, white()), 15);
    assert_eq!(near.get_pixel(28, 17), Some(white()));
    assert_eq!(near.get_pixel(42, 17), Some(white()));
    assert_eq!(near.get_pixel(43, 17), Some(black()));
    // A ray that starts in a wall marks nothing.
    let mut blind = Framebuffer::new(60, 40);
    blind.set_current_color(white());
    draw_scaled_ray(&mut blind, &maze, &at(50.0, 150.0), east(), 100, 10, 3, 2);
    assert_eq!(count_of(&blind, white()), 0);
}

#[test]
fn full_map_shows_cells_player_heading_and_rays() {
    // On a screen of 700 by 500 the cells are min(600 / 5, 400 / 3) = 120
    // pixels; the map is 600 by 360 and starts at (50, 70).
    let maze = grid(&["+++++", "+  g+", "+++++"]);
    let mut fb = Framebuffer::new(700, 500);
    fb.set_background_color(rgb(9, 9, 9));
    fb.clear();
    let player = at(150.0, 150.0);
    render_maze(&mut fb, &maze, 100, &player, east(), &vec![east()]);
    assert_eq!(fb.get_pixel(49, 100), Some(rgb(9, 9, 9)));
    assert_eq!(fb.get_pixel(50, 70), Some(rgb(0, 0, 255)));
    assert_eq!(fb.get_pixel(649, 429), Some(rgb(0, 0, 255)));
    assert_eq!(fb.get_pixel(650, 429), Some(rgb(9, 9, 9)));
    assert_eq!(fb.get_pixel(300, 200), Some(black()));
    assert_eq!(fb.get_pixel(450, 200), Some(rgb(0, 128, 0)));
    // The player is at (50 + 150 * 1.2, 70 + 150 * 1.2) = (230, 250): a
    // red disc of radius 8 * 1.2 = 9, under the ray that runs east from the
    // player to the goal at 50 + 300 * 1.2 = 410; its last sample, at 299
    // units, falls on pixel 408.
    assert_eq!(fb.get_pixel(230, 250), Some(rgb(245, 245, 245)));
    assert_eq!(fb.get_pixel(408, 250), Some(rgb(245, 245, 245)));
    assert_eq!(fb.get_pixel(409, 250), Some(black()));
    assert_eq!(fb.get_pixel(410, 250), Some(rgb(0, 128, 0)));
    assert_eq!(fb.get_pixel(230, 241), Some(rgb(255, 0, 0)));
    assert_eq!(fb.get_pixel(230, 240), Some(black()));
    assert_eq!(fb.get_pixel(221, 250), Some(rgb(255, 0, 0)));
    // Without rays the heading shows: thirty units, thirty-six pixels, and
    // scaled once more as a point of the world: 43 pixels.
    let mut plain = Framebuffer::new(700, 500);
    render_maze(&mut plain, &maze, 100, &player, east(), &Vec::new());
    assert_eq!(plain.get_pixel(230, 250), Some(rgb(255, 255, 0)));
    assert_eq!(plain.get_pixel(273, 250), Some(rgb(255, 255, 0)));
    assert_eq!(plain.get_pixel(274, 250), Some(black()));
    let mut none = Framebuffer::new(40, 30);
    render_maze(&mut none, &Vec::new(), 100, &player, east(), &vec![east()]);
    assert_eq!(count_of(&none, black()), 40 * 30);
}
