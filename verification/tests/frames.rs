use raycaster::color::Color;
use raycaster::frames::GifFrame;
use raycaster::frames::MAX_FRAMES;
use raycaster::sprites::SpriteManager;
use raycaster::sprites::SpriteType;

fn rgba(r: u8, g: u8, b: u8, a: u8) -> Color {
    Color { r, g, b, a }
}

fn frame(width: u16, height: u16, buffer: &[u8]) -> GifFrame {
    GifFrame { width, height, buffer: buffer.to_vec(), palette: None, transparent: None }
}

#[test]
fn frame_is_coloured_from_the_global_palette() {
    let manager = SpriteManager::new();
    let palette = Some(vec![10, 11, 12, 20, 21, 22, 30, 31, 32]);
    let data = manager.convert_gif_frame_with_palette(&frame(2, 2, &[0, 1, 2, 1]), &palette);
    assert_eq!((data.width, data.height), (2, 2));
    assert_eq!(
        data.pixels,
        vec![
            rgba(10, 11, 12, 255),
            rgba(20, 21, 22, 255),
            rgba(30, 31, 32, 255),
            rgba(20, 21, 22, 255)
        ]
    );
}

#[test]
fn frame_palette_takes_the_place_of_the_global_one() {
    let manager = SpriteManager::new();
    let mut own = frame(1, 1, &[0]);
    own.palette = Some(vec![1, 2, 3]);
    let data = manager.convert_gif_frame_with_palette(&own, &Some(vec![9, 9, 9]));
    assert_eq!(data.pixels, vec![rgba(1, 2, 3, 255)]);
}

#[test]
fn transparent_index_becomes_a_clear_pixel() {
    let manager = SpriteManager::new();
    let mut with_hole = frame(2, 1, &[1, 0]);
    with_hole.transparent = Some(1);
    let data = manager.convert_gif_frame_with_palette(&with_hole, &Some(vec![5, 6, 7, 8, 9, 10]));
    assert_eq!(data.pixels, vec![rgba(0, 0, 0, 0), rgba(5, 6, 7, 255)]);
}

#[test]
fn index_beyond_the_palette_becomes_magenta() {
    let manager = SpriteManager::new();
    let palette = Some(vec![1, 2, 3, 4, 5]);
    let data = manager.convert_gif_frame_with_palette(&frame(3, 1, &[0, 1, 200]), &palette);
    assert_eq!(
        data.pixels,
        vec![rgba(1, 2, 3, 255), rgba(255, 0, 255, 255), rgba(255, 0, 255, 255)]
    );
}

#[test]
fn frame_without_any_palette_is_grey() {
    let manager = SpriteManager::new();
    let mut plain = frame(2, 1, &[0, 200]);
    plain.transparent = Some(0);
    let data = manager.convert_gif_frame_with_palette(&plain, &None);
    assert_eq!(data.pixels, vec![rgba(0, 0, 0, 255), rgba(200, 200, 200, 255)]);
}

#[test]
fn short_buffer_is_padded_and_long_buffer_is_cut() {
    let manager = SpriteManager::new();
    let short = manager.convert_gif_frame_with_palette(&frame(2, 2, &[7]), &None);
    assert_eq!(
        short.pixels,
        vec![rgba(7, 7, 7, 255), rgba(0, 0, 0, 0), rgba(0, 0, 0, 0), rgba(0, 0, 0, 0)]
    );
    let long = manager.convert_gif_frame_with_palette(&frame(1, 1, &[7, 8, 9]), &None);
    assert_eq!(long.pixels, vec![rgba(7, 7, 7, 255)]);
    let empty = manager.convert_gif_frame_with_palette(&frame(0, 5, &[7, 8, 9]), &None);
    assert!(empty.pixels.is_empty());
}

#[test]
fn at_most_eight_frames_are_loaded() {
    let mut manager = SpriteManager::new();
    let frames: Vec<GifFrame> = (0..11).map(|i| frame(1, 1, &[i])).collect();
    manager.load_gif_frames(SpriteType::Naruto, &frames, &None);
    assert_eq!(MAX_FRAMES, 8);
    assert_eq!(manager.frame_count(SpriteType::Naruto), 8);
    let mut few = SpriteManager::new();
    let three: Vec<GifFrame> = (0..3).map(|i| frame(1, 1, &[i])).collect();
    few.load_sprite_textures(&three, &None);
    assert_eq!(few.frame_count(SpriteType::Naruto), 3);
}

#[test]
fn animation_without_frames_leaves_the_loaded_ones() {
    let mut manager = SpriteManager::new();
    manager.load_gif_frames(SpriteType::Naruto, &vec![frame(1, 1, &[1]), frame(1, 1, &[2])], &None);
    manager.load_gif_frames(SpriteType::Naruto, &Vec::new(), &None);
    assert_eq!(manager.frame_count(SpriteType::Naruto), 2);
    manager.load_gif_frames(SpriteType::Naruto, &vec![frame(1, 1, &[1])], &None);
    assert_eq!(manager.frame_count(SpriteType::Naruto), 1);
}
