use raycaster::color::Color;
use raycaster::fixed::ONE;
use raycaster::framebuffer::Framebuffer;
use raycaster::maze::Maze;
use raycaster::player::Player;
use raycaster::player::Point;
use raycaster::sprites::AnimatedSprite;
use raycaster::sprites::SpriteManager;
use raycaster::sprites::SpritePixelData;
use raycaster::sprites::SpriteType;
use raycaster::sprites::FRAME_DURATION;

fn fx(v: f64) -> i64 {
    (v * 65536.0).round() as i64
}

fn grid(rows: &[&str]) -> Maze {
    rows.iter().map(|row| row.chars().collect()).collect()
}

fn rgb(r: u8, g: u8, b: u8) -> Color {
    Color { r, g, b, a: 255 }
}

fn orange() -> Color {
    rgb(255, 165, 0)
}

fn at(x: f64, y: f64) -> Player {
    Player { pos: Point { x: fx(x), y: fx(y) }, a: 0, fov: fx(std::f64::consts::PI / 3.0) }
}

fn sprite_at(x: f64, y: f64) -> AnimatedSprite {
    AnimatedSprite {
        position: Point { x: fx(x), y: fx(y) },
        sprite_type: SpriteType::Naruto,
        current_frame: 0,
        frame_timer: 0,
        scale: ONE,
        visible: true,
    }
}

fn hall() -> Maze {
    grid(&["+++++++", "+     +", "+++++++"])
}

fn blocked_hall() -> Maze {
    grid(&["+++++++", "+ |   +", "+++++++"])
}

fn bearing(player: &Player, sprite: &AnimatedSprite) -> i64 {
    let dx = (sprite.position.x - player.pos.x) as f64;
    let dy = (sprite.position.y - player.pos.y) as f64;
    fx(dy.atan2(dx))
}

fn count_of(fb: &Framebuffer, color: Color) -> usize {
    fb.color_buffer.iter().filter(|c| **c == color).count()
}

fn one_sprite(x: f64, y: f64) -> SpriteManager {
    let mut manager = SpriteManager::new();
    manager.sprites.push(sprite_at(x, y));
    manager
}

#[test]
fn sprite_without_frames_is_an_orange_square() {
    // Two hundred units away on a screen a hundred pixels tall the sprite
    // is 100 / 200 * 50 = 25 pixels in size, centred on the screen: columns
    // and rows 37 to 61.
    let manager = one_sprite(350.0, 150.0);
    let player = at(150.0, 150.0);
    let mut fb = Framebuffer::new(100, 100);
    let bearings = vec![bearing(&player, &manager.sprites[0])];
    manager.render_sprites_3d(&mut fb, &player, &hall(), 100, &bearings);
    assert_eq!(count_of(&fb, orange()), 25 * 25);
    assert_eq!(fb.get_pixel(37, 37), Some(orange()));
    assert_eq!(fb.get_pixel(61, 61), Some(orange()));
    assert_eq!(fb.get_pixel(36, 50), Some(rgb(0, 0, 0)));
    assert_eq!(fb.get_pixel(62, 50), Some(rgb(0, 0, 0)));
    assert_eq!(fb.get_pixel(50, 36), Some(rgb(0, 0, 0)));
    assert_eq!(fb.get_pixel(50, 62), Some(rgb(0, 0, 0)));
}

#[test]
fn wall_between_player_and_sprite_hides_the_sprite() {
    let manager = one_sprite(350.0, 150.0);
    let player = at(150.0, 150.0);
    let bearings = vec![bearing(&player, &manager.sprites[0])];
    let mut hidden = Framebuffer::new(100, 100);
    manager.render_sprites_3d(&mut hidden, &player, &blocked_hall(), 100, &bearings);
    assert_eq!(count_of(&hidden, orange()), 0);
    assert!(hidden.color_buffer.iter().all(|c| *c == rgb(0, 0, 0)));
    // Taking the wall away brings the sprite back.
    let mut shown = Framebuffer::new(100, 100);
    manager.render_sprites_3d(&mut shown, &player, &hall(), 100, &bearings);
    assert_eq!(count_of(&shown, orange()), 25 * 25);
}

#[test]
fn line_of_sight_is_cut_by_a_cell_that_is_not_empty() {
    let manager = SpriteManager::new();
    let from = Point { x: fx(150.0), y: fx(150.0) };
    let to = Point { x: fx(350.0), y: fx(150.0) };
    assert!(!manager.has_wall_between(from, to, &hall(), 100));
    assert!(manager.has_wall_between(from, to, &blocked_hall(), 100));
    assert!(manager.has_wall_between(to, from, &blocked_hall(), 100));
    // The ends themselves are not looked at, and nothing lies between a
    // point and itself.
    assert!(!manager.has_wall_between(from, from, &blocked_hall(), 100));
    // From 150 to 204 the line is cut in eleven; the last cut looked at is
    // at 199.1, still in the empty cell, though the end lies in the wall.
    let in_wall = Point { x: fx(204.0), y: fx(150.0) };
    assert!(!manager.has_wall_between(from, in_wall, &blocked_hall(), 100));
    let deeper = Point { x: fx(206.0), y: fx(150.0) };
    assert!(manager.has_wall_between(from, deeper, &blocked_hall(), 100));
    // A goal cell is not empty either.
    let goal = grid(&["+++++++", "+  g  +", "+++++++"]);
    let far = Point { x: fx(550.0), y: fx(150.0) };
    assert!(manager.has_wall_between(from, far, &goal, 100));
}

#[test]
fn sprite_outside_the_field_of_view_is_not_drawn() {
    let manager = one_sprite(350.0, 150.0);
    let mut player = at(150.0, 150.0);
    // The sprite is straight east; the player looks forty degrees off.
    player.a = fx(40.0_f64.to_radians());
    let bearings = vec![0];
    let mut fb = Framebuffer::new(100, 100);
    manager.render_sprites_3d(&mut fb, &player, &hall(), 100, &bearings);
    assert_eq!(count_of(&fb, orange()), 0);
    // At twenty degrees off it is drawn left of the middle:
    // (-20 / 60 + 0.5) * 100 = 16.7.
    player.a = fx(20.0_f64.to_radians());
    manager.render_sprites_3d(&mut fb, &player, &hall(), 100, &bearings);
    assert_eq!(fb.get_pixel(16, 50), Some(orange()));
    assert_eq!(fb.get_pixel(4, 50), Some(orange()));
    assert_eq!(fb.get_pixel(3, 50), Some(rgb(0, 0, 0)));
    assert_eq!(fb.get_pixel(28, 50), Some(orange()));
    assert_eq!(fb.get_pixel(29, 50), Some(rgb(0, 0, 0)));
}

#[test]
fn heading_wraps_around_whole_turns() {
    let manager = one_sprite(350.0, 150.0);
    let mut player = at(150.0, 150.0);
    player.a = fx(4.0 * std::f64::consts::PI);
    let mut fb = Framebuffer::new(100, 100);
    manager.render_sprites_3d(&mut fb, &player, &hall(), 100, &vec![0]);
    assert_eq!(count_of(&fb, orange()), 25 * 25);
}

#[test]
fn sprite_beyond_the_view_radius_is_not_drawn() {
    let long_hall = grid(&["++++++++", "+      +", "++++++++"]);
    let player = at(150.0, 150.0);
    let mut fb = Framebuffer::new(100, 100);
    let far = one_sprite(451.0, 150.0);
    far.render_sprites_3d(&mut fb, &player, &long_hall, 100, &vec![0]);
    assert_eq!(count_of(&fb, orange()), 0);
    let reachable = one_sprite(450.0, 150.0);
    reachable.render_sprites_3d(&mut fb, &player, &long_hall, 100, &vec![0]);
    // 100 / 300 * 50 = 16.7 pixels: columns 41 to 57.
    assert_eq!(count_of(&fb, orange()), 17 * 17);
}

#[test]
fn invisible_sprite_and_sprite_without_bearing_are_not_drawn() {
    let mut manager = one_sprite(350.0, 150.0);
    let player = at(150.0, 150.0);
    let mut fb = Framebuffer::new(100, 100);
    manager.render_sprites_3d(&mut fb, &player, &hall(), 100, &Vec::new());
    assert_eq!(count_of(&fb, orange()), 0);
    manager.sprites[0].visible = false;
    manager.render_sprites_3d(&mut fb, &player, &hall(), 100, &vec![0]);
    assert_eq!(count_of(&fb, orange()), 0);
}

#[test]
fn sprite_frame_is_stretched_and_transparent_pixels_are_skipped() {
    let mut manager = one_sprite(350.0, 150.0);
    let clear = Color { r: 7, g: 7, b: 7, a: 128 };
    let frame = SpritePixelData {
        width: 2,
        height: 2,
        pixels: vec![rgb(1, 0, 0), rgb(2, 0, 0), clear, rgb(4, 0, 0)],
    };
    manager.set_frames(SpriteType::Naruto, vec![frame]);
    let player = at(150.0, 150.0);
    let mut fb = Framebuffer::new(100, 100);
    manager.render_sprites_3d(&mut fb, &player, &hall(), 100, &vec![0]);
    // The rectangle is 25 by 25 from (37, 37); source column (x - 37) * 2 / 25
    // is 0 up to x = 49 and 1 from x = 50.
    assert_eq!(fb.get_pixel(37, 37), Some(rgb(1, 0, 0)));
    assert_eq!(fb.get_pixel(49, 49), Some(rgb(1, 0, 0)));
    assert_eq!(fb.get_pixel(50, 49), Some(rgb(2, 0, 0)));
    assert_eq!(fb.get_pixel(61, 37), Some(rgb(2, 0, 0)));
    assert_eq!(fb.get_pixel(50, 50), Some(rgb(4, 0, 0)));
    assert_eq!(fb.get_pixel(61, 61), Some(rgb(4, 0, 0)));
    // An alpha of 128 is not above the threshold: the pixel is left out.
    assert_eq!(fb.get_pixel(37, 50), Some(rgb(0, 0, 0)));
    assert_eq!(fb.get_pixel(49, 61), Some(rgb(0, 0, 0)));
    assert_eq!(count_of(&fb, orange()), 0);
}

#[test]
fn frame_index_past_the_end_shows_the_last_frame() {
    let mut manager = one_sprite(350.0, 150.0);
    manager.sprites[0].current_frame = 9;
    let first = SpritePixelData { width: 1, height: 1, pixels: vec![rgb(1, 1, 1)] };
    let last = SpritePixelData { width: 1, height: 1, pixels: vec![rgb(2, 2, 2)] };
    manager.set_frames(SpriteType::Naruto, vec![first, last]);
    let mut fb = Framebuffer::new(100, 100);
    manager.render_sprites_3d(&mut fb, &at(150.0, 150.0), &hall(), 100, &vec![0]);
    assert_eq!(count_of(&fb, rgb(2, 2, 2)), 25 * 25);
}

#[test]
fn later_sprites_are_drawn_over_earlier_ones() {
    let mut manager = SpriteManager::new();
    manager.sprites.push(sprite_at(350.0, 150.0));
    manager.sprites.push(sprite_at(250.0, 150.0));
    manager.sprites[1].scale = ONE / 4;
    let mut fb = Framebuffer::new(100, 100);
    let frame = SpritePixelData { width: 1, height: 1, pixels: vec![rgb(3, 3, 3)] };
    let player = at(150.0, 150.0);
    manager.render_sprites_3d(&mut fb, &player, &hall(), 100, &vec![0, 0]);
    // The second sprite is 100 / 100 * 50 / 4 = 12.5 pixels in size, from
    // 43.75 to 56.25: thirteen columns and rows, inside the first; both are orange.
    assert_eq!(count_of(&fb, orange()), 25 * 25);
    let mut again = SpriteManager::new();
    again.sprites.push(sprite_at(250.0, 150.0));
    again.set_frames(SpriteType::Naruto, vec![frame]);
    again.sprites[0].scale = ONE / 4;
    again.render_sprites_3d(&mut fb, &player, &hall(), 100, &vec![0]);
    assert_eq!(count_of(&fb, rgb(3, 3, 3)), 13 * 13);
    assert_eq!(count_of(&fb, orange()), 25 * 25 - 13 * 13);
}

#[test]
fn sprite_on_top_of_the_player_fills_the_screen() {
    let manager = one_sprite(150.0, 150.0);
    let mut fb = Framebuffer::new(20, 10);
    manager.render_sprites_3d(&mut fb, &at(150.0, 150.0), &hall(), 100, &vec![0]);
    assert_eq!(count_of(&fb, orange()), 200);
}

#[test]
fn animation_advances_one_frame_for_each_frame_duration() {
    let mut manager = one_sprite(350.0, 150.0);
    let frame = SpritePixelData { width: 1, height: 1, pixels: vec![rgb(1, 1, 1)] };
    manager.set_frames(SpriteType::Naruto, vec![frame.clone(), frame.clone(), frame]);
    assert_eq!(manager.frame_count(SpriteType::Naruto), 3);
    manager.sprites[0].current_frame = 1;
    for k in 1..=10 {
        manager.update(FRAME_DURATION);
        assert_eq!(manager.sprites[0].current_frame, (1 + k) % 3);
        assert_eq!(manager.sprites[0].frame_timer, 0);
    }
}

#[test]
fn animation_timer_runs_up_to_the_frame_duration() {
    let mut manager = one_sprite(350.0, 150.0);
    let frame = SpritePixelData { width: 1, height: 1, pixels: vec![rgb(1, 1, 1)] };
    manager.set_frames(SpriteType::Naruto, vec![frame.clone(), frame]);
    manager.set_frame_duration(1000);
    assert_eq!(manager.frame_duration(), 1000);
    manager.update(400);
    assert_eq!((manager.sprites[0].current_frame, manager.sprites[0].frame_timer), (0, 400));
    manager.update(400);
    assert_eq!((manager.sprites[0].current_frame, manager.sprites[0].frame_timer), (0, 800));
    manager.update(200);
    assert_eq!((manager.sprites[0].current_frame, manager.sprites[0].frame_timer), (1, 0));
    manager.update(5000);
    assert_eq!((manager.sprites[0].current_frame, manager.sprites[0].frame_timer), (0, 0));
}

#[test]
fn animation_without_frames_stays_on_frame_zero() {
    let mut manager = one_sprite(350.0, 150.0);
    manager.sprites[0].current_frame = 3;
    manager.update(FRAME_DURATION);
    assert_eq!(manager.sprites[0].current_frame, 0);
    manager.update(FRAME_DURATION);
    assert_eq!(manager.sprites[0].current_frame, 0);
}

#[test]
fn animation_timer_does_not_overflow() {
    let mut manager = one_sprite(350.0, 150.0);
    manager.set_frame_duration(i64::MAX);
    manager.sprites[0].frame_timer = i64::MAX - 1;
    manager.update(i64::MAX);
    assert_eq!(manager.sprites[0].frame_timer, 0);
    assert_eq!(manager.sprites[0].current_frame, 0);
    manager.sprites[0].frame_timer = i64::MIN + 1;
    manager.update(i64::MIN);
    assert_eq!(manager.sprites[0].frame_timer, i64::MIN);
}

#[test]
fn new_manager_is_empty() {
    let manager = SpriteManager::new();
    assert!(manager.sprites.is_empty());
    assert_eq!(manager.frame_count(SpriteType::Naruto), 0);
    assert_eq!(manager.frame_duration(), FRAME_DURATION);
    // Eight hundredths of a second.
    assert_eq!(FRAME_DURATION, (0.08_f64 * 65536.0) as i64);
}
