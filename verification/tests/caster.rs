use raycaster::caster::cast_ray;
use raycaster::caster::Direction;
use raycaster::fixed::ONE;
use raycaster::maze::Maze;
use raycaster::player::Player;
use raycaster::player::Point;

fn fx(v: f64) -> i64 {
    (v * 65536.0).round() as i64
}

fn heading(angle: f64) -> Direction {
    Direction { cos: fx(angle.cos()), sin: fx(angle.sin()) }
}

fn grid(rows: &[&str]) -> Maze {
    rows.iter().map(|row| row.chars().collect()).collect()
}

fn at(x: f64, y: f64) -> Player {
    Player { pos: Point { x: fx(x), y: fx(y) }, a: 0, fov: fx(std::f64::consts::PI / 3.0) }
}

#[test]
fn ray_hits_the_wall_at_the_end_of_a_corridor() {
    let maze = grid(&["+++++", "+++++", "+   |", "+++++", "+++++"]);
    let hit = cast_ray(&maze, &at(110.0, 250.0), heading(0.0), 100, fx(1000.0), ONE);
    assert_eq!(hit.distance, fx(290.0));
    assert_eq!(hit.impact, '|');
    // The hit lands at (400, 250): 6.5 cells in sum, so half a cell along.
    assert_eq!(hit.tx, fx(0.5));
}

#[test]
fn ray_leaving_an_empty_grid_reports_the_default_wall() {
    let maze = grid(&["   ", "   ", "   "]);
    let hit = cast_ray(&maze, &at(150.0, 150.0), heading(0.0), 100, fx(1000.0), ONE);
    assert_eq!(hit.distance, fx(150.0));
    assert_eq!(hit.impact, '+');
    assert_eq!(hit.tx, 0);
}

#[test]
fn ray_running_out_of_range_is_capped() {
    let maze = grid(&["   ", "   ", "   "]);
    let hit = cast_ray(&maze, &at(150.0, 150.0), heading(0.0), 100, fx(20.5), ONE);
    assert_eq!(hit.distance, fx(20.5));
    assert_eq!(hit.impact, '+');
    assert_eq!(hit.tx, 0);
}

#[test]
fn ray_starting_outside_the_grid_stops_at_once() {
    let maze = grid(&["   ", "   ", "   "]);
    let hit = cast_ray(&maze, &at(-5.0, 150.0), heading(0.0), 100, fx(1000.0), ONE);
    assert_eq!(hit.distance, 0);
    assert_eq!(hit.impact, '+');
    assert_eq!(hit.tx, 0);
}
