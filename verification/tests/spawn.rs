use raycaster::fixed::ONE;
use raycaster::maze::is_rectangular;
use raycaster::maze::Maze;
use raycaster::sprites::AnimatedSprite;
use raycaster::sprites::SpriteManager;
use raycaster::sprites::SpriteType;
use raycaster::sprites::FRAME_DURATION;

fn grid(rows: &[&str]) -> Maze {
    rows.iter().map(|row| row.chars().collect()).collect()
}

fn open_room(width: usize, height: usize) -> Maze {
    let mut rows: Vec<Vec<char>> = Vec::new();
    for y in 0..height {
        let mut row = Vec::new();
        for x in 0..width {
            let rim = y == 0 || y == height - 1 || x == 0 || x == width - 1;
            row.push(if rim { '+' } else { ' ' });
        }
        rows.push(row);
    }
    rows
}

fn cell_of(sprite: &AnimatedSprite, block_size: i64) -> (i64, i64) {
    let half = block_size * ONE / 2;
    assert_eq!((sprite.position.x - half) % (block_size * ONE), 0);
    assert_eq!((sprite.position.y - half) % (block_size * ONE), 0);
    ((sprite.position.x - half) / (block_size * ONE), (sprite.position.y - half) / (block_size * ONE))
}

fn squared_cells_apart(a: &AnimatedSprite, b: &AnimatedSprite, block_size: i64) -> i64 {
    let (ax, ay) = cell_of(a, block_size);
    let (bx, by) = cell_of(b, block_size);
    (ax - bx) * (ax - bx) + (ay - by) * (ay - by)
}

#[test]
fn large_room_gets_eight_sprites_three_cells_apart() {
    for _ in 0..20 {
        let maze = open_room(30, 30);
        let mut manager = SpriteManager::new();
        manager.spawn_sprites_in_maze(&maze, 100);
        assert_eq!(manager.sprites.len(), 8);
        for (i, a) in manager.sprites.iter().enumerate() {
            let (x, y) = cell_of(a, 100);
            assert!(1 <= x && x < 29 && 1 <= y && y < 29);
            assert_eq!(maze[y as usize][x as usize], ' ');
            assert_eq!(a.sprite_type, SpriteType::Naruto);
            assert!(a.visible);
            assert_eq!(a.scale, ONE);
            assert!(a.current_frame < 4);
            assert!(0 <= a.frame_timer && a.frame_timer < FRAME_DURATION);
            for b in manager.sprites.iter().skip(i + 1) {
                assert!(squared_cells_apart(a, b, 100) >= 9);
            }
        }
    }
}

#[test]
fn small_room_is_filled_at_the_narrow_spacing() {
    for _ in 0..20 {
        // A room of five by five open cells: at three cells apart at most
        // four sprites fit, so the second pass has to help.
        let maze = open_room(7, 7);
        let mut manager = SpriteManager::new();
        manager.spawn_sprites_in_maze(&maze, 50);
        let sprites = &manager.sprites;
        assert!(!sprites.is_empty() && sprites.len() <= 8);
        for (i, a) in sprites.iter().enumerate() {
            for b in sprites.iter().skip(i + 1) {
                assert!(squared_cells_apart(a, b, 50) >= 4);
            }
        }
        if sprites.len() < 8 {
            // No room is left: every cell a sprite may be put in (every open
            // cell but the four in the corners, which have two open
            // neighbours only) is less than two cells from a sprite.
            for y in 1..6 {
                for x in 1..6 {
                    if (x == 1 || x == 5) && (y == 1 || y == 5) {
                        continue;
                    }
                    let near = sprites.iter().any(|s| {
                        let (sx, sy) = cell_of(s, 50);
                        (sx - x) * (sx - x) + (sy - y) * (sy - y) < 4
                    });
                    assert!(near);
                }
            }
        }
    }
}

#[test]
fn sprites_keep_away_from_corridors_and_from_the_goal() {
    // Every open cell of the corridor has two open neighbours only; the
    // open cells of the room are all next to the goal but one.
    let maze = grid(&[
        "+++++++++",
        "+       +",
        "+++++++ +",
        "+     + +",
        "+  g  + +",
        "+     + +",
        "+       +",
        "+++++++++",
    ]);
    for _ in 0..10 {
        let mut manager = SpriteManager::new();
        manager.spawn_sprites_in_maze(&maze, 100);
        for sprite in manager.sprites.iter() {
            let (x, y) = cell_of(sprite, 100);
            assert!(
                (x, y) == (1, 3)
                    || (x, y) == (5, 3)
                    || (x, y) == (1, 4)
                    || (x, y) == (5, 4)
                    || (x, y) == (1, 5)
                    || (x, y) == (5, 5)
                    || (y == 6 && 1 <= x && x <= 6)
            );
            let goal_next = (x - 3).abs() <= 1 && (y - 4).abs() <= 1;
            assert!(!goal_next);
        }
        assert!(!manager.sprites.is_empty());
    }
}

#[test]
fn maze_that_is_no_rectangle_gets_no_sprite() {
    let mut manager = SpriteManager::new();
    manager.spawn_sprites_in_maze(&open_room(30, 30), 100);
    assert_eq!(manager.sprites.len(), 8);
    let ragged = grid(&["+++++", "+   +", "+  +", "+++++"]);
    assert!(!is_rectangular(&ragged));
    manager.spawn_sprites_in_maze(&ragged, 100);
    assert!(manager.sprites.is_empty());
    manager.spawn_sprites_in_maze(&open_room(30, 30), 100);
    manager.spawn_sprites_in_maze(&Vec::new(), 100);
    assert!(manager.sprites.is_empty());
    manager.spawn_sprites_in_maze(&vec![Vec::new(), Vec::new()], 100);
    assert!(manager.sprites.is_empty());
}

#[test]
fn maze_without_room_gets_no_sprite() {
    let mut manager = SpriteManager::new();
    manager.spawn_sprites_in_maze(&grid(&["+++", "+ +", "+++"]), 100);
    assert!(manager.sprites.is_empty());
    manager.spawn_sprites_in_maze(&grid(&["++++++", "+    +", "++++++"]), 100);
    assert!(manager.sprites.is_empty());
    manager.spawn_sprites_in_maze(&grid(&["  ", "  "]), 100);
    assert!(manager.sprites.is_empty());
}

#[test]
fn maze_too_large_for_fixed_point_gets_no_sprite() {
    let mut manager = SpriteManager::new();
    manager.spawn_sprites_in_maze(&open_room(5, 5), usize::MAX);
    assert!(manager.sprites.is_empty());
    manager.spawn_sprites_in_maze(&open_room(5, 5), 1 << 45);
    assert!(manager.sprites.is_empty());
    manager.spawn_sprites_in_maze(&open_room(5, 5), 1 << 44);
    assert!(!manager.sprites.is_empty());
}

#[test]
fn spawning_keeps_frames_and_frame_duration() {
    let mut manager = SpriteManager::new();
    manager.set_frame_duration(77);
    manager.spawn_sprites_in_maze(&open_room(12, 12), 100);
    assert_eq!(manager.frame_duration(), 77);
    assert!(manager.sprites.iter().all(|s| 0 <= s.frame_timer && s.frame_timer < 77));
    manager.set_frame_duration(0);
    manager.spawn_sprites_in_maze(&open_room(12, 12), 100);
    assert!(manager.sprites.iter().all(|s| s.frame_timer == 0));
}

#[test]
fn spawning_places_sprites_in_a_random_order() {
    // With the cells shuffled, the first sprite does not always land in
    // the first cell of the scan.
    let maze = open_room(30, 30);
    let mut firsts = Vec::new();
    for _ in 0..30 {
        let mut manager = SpriteManager::new();
        manager.spawn_sprites_in_maze(&maze, 100);
        firsts.push(cell_of(&manager.sprites[0], 100));
    }
    assert!(firsts.iter().any(|c| *c != firsts[0]));
}
