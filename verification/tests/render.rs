use punkos::framebuffer::color::{BUILD_ACID, HALIFAX_COBALT, HARDCORE_BLACK, NOVA_WHITE};
use punkos::framebuffer::{clear, write_pixel, FrameBufferInfo, PixelFormat};
use punkos::render::{animation_step, band, blend, draw, layout, stagger, Canvas, Layout};

fn info(w: usize, h: usize, stride: usize, bpp: usize, fmt: PixelFormat) -> FrameBufferInfo {
    FrameBufferInfo { byte_len: h * stride * bpp, width: w, height: h, pixel_format: fmt, bytes_per_pixel: bpp, stride }
}

#[test]
fn palette() {
    assert_eq!(HARDCORE_BLACK, (0x0E, 0x0E, 0x10));
    assert_eq!(NOVA_WHITE, (0xF5, 0xF1, 0xEA));
    assert_eq!(BUILD_ACID, (0xD6, 0xFF, 0x3F));
    assert_eq!(HALIFAX_COBALT, (0x3A, 0x6B, 0xFF));
}

#[test]
fn pixel_byte_orders() {
    let mut px = [9u8; 4];
    write_pixel(&mut px, PixelFormat::Rgb, (1, 2, 3));
    assert_eq!(px, [1, 2, 3, 9]);
    write_pixel(&mut px, PixelFormat::Bgr, (1, 2, 3));
    assert_eq!(px, [3, 2, 1, 9]);
    let unknown = PixelFormat::Unknown { red_position: 0, green_position: 1, blue_position: 2 };
    write_pixel(&mut px, unknown, (4, 5, 6));
    assert_eq!(px, [6, 5, 4, 9]);
}

#[test]
fn grayscale_luminance() {
    let mut px = [0u8; 1];
    write_pixel(&mut px, PixelFormat::U8, (255, 255, 255));
    assert_eq!(px, [255]);
    write_pixel(&mut px, PixelFormat::U8, BUILD_ACID);
    assert_eq!(px, [232]);
    write_pixel(&mut px, PixelFormat::U8, (0, 0, 0));
    assert_eq!(px, [0]);
}

#[test]
fn clear_fills_whole_pixels_only() {
    let mut buf = vec![0xAAu8; 10];
    clear(&mut buf, &info(2, 1, 2, 4, PixelFormat::Bgr), HARDCORE_BLACK);
    assert_eq!(buf, vec![0x10, 0x0E, 0x0E, 0xAA, 0x10, 0x0E, 0x0E, 0xAA, 0xAA, 0xAA]);
}

#[test]
fn blend_endpoints_and_brand_steps() {
    assert_eq!(blend(BUILD_ACID, HARDCORE_BLACK, 255), BUILD_ACID);
    assert_eq!(blend(BUILD_ACID, HARDCORE_BLACK, 0), HARDCORE_BLACK);
    assert_eq!(blend(BUILD_ACID, HARDCORE_BLACK, 153), (134, 158, 44));
    assert_eq!(blend(BUILD_ACID, HARDCORE_BLACK, 76), (73, 85, 30));
    assert_eq!((stagger(0), stagger(1), stagger(2)), (255, 153, 76));
}

fn small_canvas() -> Canvas {
    Canvas::new(&info(8, 6, 10, 3, PixelFormat::Rgb))
}

fn pixel(c: &Canvas, x: usize, y: usize) -> (u8, u8, u8) {
    let o = (y * c.stride + x) * c.bpp;
    (c.buf[o], c.buf[o + 1], c.buf[o + 2])
}

#[test]
fn canvas_starts_zeroed_and_clears() {
    let mut c = small_canvas();
    assert_eq!(c.buf.len(), 180);
    assert!(c.buf.iter().all(|&b| b == 0));
    c.clear(HARDCORE_BLACK);
    assert_eq!(pixel(&c, 9, 5), HARDCORE_BLACK);
}

#[test]
fn fill_circle_paints_the_disc() {
    let mut c = small_canvas();
    c.fill_circle(3, 2, 2, (1, 2, 3));
    let mut painted = Vec::new();
    for y in 0..6 {
        for x in 0..10 {
            if pixel(&c, x, y) == (1, 2, 3) {
                painted.push((x, y));
            }
        }
    }
    let mut expected = Vec::new();
    for y in 0..6isize {
        for x in 0..8isize {
            if (x - 3) * (x - 3) + (y - 2) * (y - 2) <= 4 {
                expected.push((x as usize, y as usize));
            }
        }
    }
    assert_eq!(painted, expected);
    assert_eq!(painted.len(), 13);
}

#[test]
fn fill_circle_clips_to_the_visible_area() {
    let mut c = small_canvas();
    c.fill_circle(7, 5, 3, (9, 9, 9));
    // the padding columns 8 and 9 of each row stay untouched
    for y in 0..6 {
        assert_eq!(pixel(&c, 8, y), (0, 0, 0));
        assert_eq!(pixel(&c, 9, y), (0, 0, 0));
    }
    assert_eq!(pixel(&c, 7, 5), (9, 9, 9));
    assert_eq!(pixel(&c, 4, 5), (9, 9, 9));
    assert_eq!(pixel(&c, 4, 4), (0, 0, 0));
    let mut d = small_canvas();
    d.fill_circle(-5, -5, 2, (9, 9, 9));
    assert!(d.buf.iter().all(|&b| b == 0));
    d.fill_circle(2, 2, -1, (9, 9, 9));
    assert!(d.buf.iter().all(|&b| b == 0));
    d.fill_circle(2, 2, 0, (9, 9, 9));
    assert_eq!(d.buf.iter().filter(|&&b| b == 9).count(), 3);
}

#[test]
fn layout_centres_the_mark() {
    let l = layout(&info(1280, 800, 1280, 4, PixelFormat::Bgr));
    assert_eq!(l.r, 66);
    assert_eq!(l.cy, 400);
    assert_eq!(l.centers, [469, 640, 811]);
}

#[test]
fn draw_staggers_opacity_behind_the_leader() {
    let mut c = Canvas::new(&info(30, 10, 30, 3, PixelFormat::Rgb));
    let l = Layout { centers: [5, 15, 25], cy: 5, r: 2 };
    draw(&mut c, &l, 1);
    assert_eq!(pixel(&c, 15, 5), BUILD_ACID);
    assert_eq!(pixel(&c, 25, 5), blend(BUILD_ACID, HARDCORE_BLACK, 153));
    assert_eq!(pixel(&c, 5, 5), blend(BUILD_ACID, HARDCORE_BLACK, 76));
    assert_eq!(pixel(&c, 10, 5), (0, 0, 0));
    draw(&mut c, &l, 2);
    assert_eq!(pixel(&c, 25, 5), BUILD_ACID);
    assert_eq!(pixel(&c, 5, 5), blend(BUILD_ACID, HARDCORE_BLACK, 153));
}

#[test]
fn present_copies_only_the_band() {
    let mut c = small_canvas();
    c.clear((7, 7, 7));
    let mut fb = vec![0u8; 180];
    c.present_rows(&mut fb, 2, 3);
    assert!(fb[..60].iter().all(|&b| b == 0));
    assert!(fb[60..120].iter().all(|&b| b == 7));
    assert!(fb[120..].iter().all(|&b| b == 0));
}

#[test]
fn band_of_the_mark() {
    let l = Layout { centers: [0, 10, 20], cy: 400, r: 66 };
    assert_eq!(band(&l, 800), (334, 466));
    let top = Layout { centers: [0, 10, 20], cy: 3, r: 10 };
    assert_eq!(band(&top, 8), (0, 7));
}

#[test]
fn animation_steps_every_twelve_ticks() {
    assert_eq!(animation_step(0, u64::MAX), Some((0, 0)));
    assert_eq!(animation_step(11, 0), None);
    assert_eq!(animation_step(12, 0), Some((1, 1)));
    assert_eq!(animation_step(24, 1), Some((2, 2)));
    assert_eq!(animation_step(36, 2), Some((3, 0)));
    assert_eq!(animation_step(47, 3), None);
}
