use raycaster::color::Color;
use raycaster::fixed::ONE;
use raycaster::framebuffer::make_texture;
use raycaster::framebuffer::Framebuffer;

fn fx(v: f64) -> i64 {
    (v * 65536.0).round() as i64
}

fn rgb(r: u8, g: u8, b: u8) -> Color {
    Color { r, g, b, a: 255 }
}

#[test]
fn new_surface_is_black_with_white_active() {
    let fb = Framebuffer::new(4, 3);
    assert_eq!(fb.width, 4);
    assert_eq!(fb.height, 3);
    assert_eq!(fb.color_buffer.len(), 12);
    assert!(fb.color_buffer.iter().all(|c| *c == rgb(0, 0, 0)));
    assert_eq!(fb.current_color, rgb(255, 255, 255));
    assert!(fb.wall_texture_cache.is_none());
    assert!(fb.floor_texture_cache.is_none());
}

#[test]
fn set_pixel_paints_one_pixel_in_the_active_colour() {
    let mut fb = Framebuffer::new(4, 3);
    fb.set_current_color(rgb(10, 20, 30));
    fb.set_pixel(2, 1);
    assert_eq!(fb.get_pixel(2, 1), Some(rgb(10, 20, 30)));
    assert_eq!(fb.color_buffer[1 * 4 + 2], rgb(10, 20, 30));
    let painted = fb.color_buffer.iter().filter(|c| **c == rgb(10, 20, 30)).count();
    assert_eq!(painted, 1);
}

#[test]
fn set_pixel_outside_the_surface_does_nothing() {
    let mut fb = Framebuffer::new(4, 3);
    fb.set_current_color(rgb(10, 20, 30));
    fb.set_pixel(4, 0);
    fb.set_pixel(0, 3);
    fb.set_pixel(u32::MAX, u32::MAX);
    assert!(fb.color_buffer.iter().all(|c| *c == rgb(0, 0, 0)));
    assert_eq!(fb.get_pixel(4, 0), None);
}

#[test]
fn clear_paints_the_background_everywhere() {
    let mut fb = Framebuffer::new(3, 2);
    fb.set_pixel(1, 1);
    fb.set_background_color(rgb(50, 50, 100));
    fb.clear();
    assert_eq!(fb.color_buffer.len(), 6);
    assert!(fb.color_buffer.iter().all(|c| *c == rgb(50, 50, 100)));
}

#[test]
fn wall_fallback_is_a_gradient_with_a_floor() {
    let fb = Framebuffer::new(1, 1);
    // 0.5 * 255 = 127.5, (0.5 + 0.25) * 127.5 = 95.6
    assert_eq!(fb.get_texture_pixel(fx(0.5), fx(0.25)), rgb(127, 80, 95));
    assert_eq!(fb.get_texture_pixel(0, 0), rgb(100, 80, 60));
    assert_eq!(fb.get_texture_pixel(ONE, ONE), rgb(255, 255, 255));
    assert_eq!(fb.get_texture_pixel(-ONE, 5 * ONE), rgb(100, 255, 255));
}

#[test]
fn floor_fallback_is_a_solid_colour() {
    let fb = Framebuffer::new(1, 1);
    assert_eq!(fb.get_floor_texture_pixel(fx(0.3), fx(0.9)), rgb(80, 60, 40));
}

#[test]
fn loaded_wall_texture_is_sampled_by_nearest_texel() {
    let mut fb = Framebuffer::new(1, 1);
    let texels = vec![rgb(1, 0, 0), rgb(2, 0, 0), rgb(3, 0, 0), rgb(4, 0, 0), rgb(5, 0, 0), rgb(6, 0, 0)];
    fb.load_texture_cache(3, 2, texels);
    assert_eq!(fb.get_texture_pixel(0, 0), rgb(1, 0, 0));
    assert_eq!(fb.get_texture_pixel(fx(0.34), 0), rgb(2, 0, 0));
    assert_eq!(fb.get_texture_pixel(fx(0.99), fx(0.49)), rgb(3, 0, 0));
    assert_eq!(fb.get_texture_pixel(fx(0.5), fx(0.5)), rgb(5, 0, 0));
    // The coordinate one itself falls on the last texel; so does anything beyond.
    assert_eq!(fb.get_texture_pixel(ONE, ONE), rgb(6, 0, 0));
    assert_eq!(fb.get_texture_pixel(7 * ONE, 7 * ONE), rgb(6, 0, 0));
    assert_eq!(fb.get_texture_pixel(-ONE, -ONE), rgb(1, 0, 0));
}

#[test]
fn loaded_floor_texture_is_sampled() {
    let mut fb = Framebuffer::new(1, 1);
    fb.load_floor_texture_cache(2, 1, vec![rgb(9, 9, 9), rgb(8, 8, 8)]);
    assert_eq!(fb.get_floor_texture_pixel(fx(0.75), 0), rgb(8, 8, 8));
}

#[test]
fn texture_whose_parts_do_not_fit_is_not_loaded() {
    let mut fb = Framebuffer::new(1, 1);
    fb.load_texture_cache(2, 2, vec![rgb(1, 1, 1)]);
    assert!(fb.wall_texture_cache.is_none());
    fb.load_texture_cache(0, 0, Vec::new());
    assert!(fb.wall_texture_cache.is_none());
    assert!(make_texture(2, 1, vec![rgb(1, 1, 1), rgb(2, 2, 2)]).is_some());
    assert_eq!(fb.get_texture_pixel(0, 0), rgb(100, 80, 60));
}
