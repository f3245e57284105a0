use pixel_compute::frame_store::{FrameStore, Pixel};

fn px(r: u8, g: u8, b: u8, a: u8) -> Pixel {
    Pixel { r, g, b, a }
}

#[test]
fn new_store_is_filled_uniformly() {
    let s = FrameStore::new(4, 3, px(1, 2, 3, 4));
    assert_eq!(s.width(), 4);
    assert_eq!(s.height(), 3);
    assert_eq!(s.get(0, 0), px(1, 2, 3, 4));
    assert_eq!(s.get(3, 2), px(1, 2, 3, 4));
}

#[test]
fn set_changes_exactly_one_pixel() {
    let mut s = FrameStore::new(4, 4, px(0, 0, 0, 255));
    s.set(2, 1, px(9, 8, 7, 6));
    assert_eq!(s.get(2, 1), px(9, 8, 7, 6));
    assert_eq!(s.get(1, 2), px(0, 0, 0, 255));
    assert_eq!(s.get(0, 0), px(0, 0, 0, 255));
}

#[test]
fn for_each_replaces_every_pixel() {
    let mut s = FrameStore::new(3, 2, px(10, 20, 30, 40));
    s.for_each(|_x, _y, p| Pixel { r: 255 - p.r, g: 255 - p.g, b: 255 - p.b, a: p.a });
    assert_eq!(s.get(0, 0), px(245, 235, 225, 40));
    assert_eq!(s.get(2, 1), px(245, 235, 225, 40));
}

#[test]
fn for_each_passes_row_major_coordinates() {
    let mut s = FrameStore::new(5, 4, px(0, 0, 0, 0));
    s.for_each(|x, y, p| Pixel { r: x as u8, g: y as u8, ..p });
    assert_eq!(s.get(3, 2), px(3, 2, 0, 0));
    assert_eq!(s.get(0, 0), px(0, 0, 0, 0));
    assert_eq!(s.get(4, 3), px(4, 3, 0, 0));
}
