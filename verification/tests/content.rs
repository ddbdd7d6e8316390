//! The placeholder texture.

use narvo_app::content::{BOTTOM_LEFT, BOTTOM_RIGHT, SIZE, TOP_LEFT, TOP_RIGHT, demo_texture};

fn texel(x: u32, y: u32) -> [u8; 4] {
    let image = demo_texture();
    let at = ((y * image.width + x) * 4) as usize;
    [image.rgba[at], image.rgba[at + 1], image.rgba[at + 2], image.rgba[at + 3]]
}

#[test]
fn the_buffer_matches_its_dimensions() {
    let image = demo_texture();
    assert_eq!((image.width, image.height), (SIZE, SIZE));
    assert_eq!(image.rgba.len(), (SIZE * SIZE * 4) as usize);
}

#[test]
fn red_belongs_at_the_top_left() {
    assert_eq!(texel(0, 0), [255, 0, 0, 255]);
    assert_eq!(texel(0, 0), TOP_LEFT);
    assert_eq!(texel(3, 3), TOP_LEFT);
    assert_eq!(texel(4, 0), TOP_RIGHT);
    assert_eq!(texel(7, 3), TOP_RIGHT);
    assert_eq!(texel(0, 4), BOTTOM_LEFT);
    assert_eq!(texel(3, 7), BOTTOM_LEFT);
    assert_eq!(texel(4, 4), BOTTOM_RIGHT);
    assert_eq!(texel(7, 7), [128, 64, 32, 255]);
}
