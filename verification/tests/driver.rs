use tri_raster::FP;
use tri_raster::frame::FrameDriver;
use tri_raster::raster::RasterError;

const COLOR: [u8; 4] = [255, 128, 51, 255];

fn pixel(buf: &[u8], width: usize, row: usize, col: usize) -> [u8; 4] {
    let k = row * width * 4 + col * 4;
    [buf[k], buf[k + 1], buf[k + 2], buf[k + 3]]
}

#[test]
fn new_driver_has_zeroed_buffer_and_no_timestamp() {
    let d = FrameDriver::new(100, 100);
    assert_eq!(d.width, 100);
    assert_eq!(d.height, 100);
    assert_eq!(d.prev_timestamp, None);
    assert_eq!(d.buffer.len(), 100 * 100 * 4);
    assert!(d.buffer.iter().all(|&b| b == 0));
}

#[test]
fn first_frame_has_zero_delta_then_gaps() {
    let mut d = FrameDriver::new(8, 8);
    assert_eq!(d.begin_frame(1000), 0);
    assert_eq!(d.prev_timestamp, Some(1000));
    assert_eq!(d.begin_frame(1016), 16);
    assert_eq!(d.begin_frame(1016), 0);
    assert_eq!(d.begin_frame(1050), 34);
    assert_eq!(d.prev_timestamp, Some(1050));
}

#[test]
fn clear_zeroes_the_whole_buffer() {
    let mut d = FrameDriver::new(100, 100);
    assert_eq!(d.render_frame(0, FP), Ok(()));
    assert!(d.buffer.iter().any(|&b| b != 0));
    d.clear();
    assert_eq!(d.buffer.len(), 100 * 100 * 4);
    assert!(d.buffer.iter().all(|&b| b == 0));
}

#[test]
fn render_frame_draws_the_base_triangle() {
    let mut d = FrameDriver::new(100, 100);
    let dt = d.begin_frame(0);
    assert_eq!(dt, 0);
    assert_eq!(d.render_frame(0, FP), Ok(()));
    assert_eq!(pixel(&d.buffer, 100, 74, 50), COLOR);
    assert_eq!(pixel(&d.buffer, 100, 74, 25), COLOR);
    assert_eq!(pixel(&d.buffer, 100, 74, 74), COLOR);
    assert_eq!(pixel(&d.buffer, 100, 26, 50), COLOR);
    assert_eq!(pixel(&d.buffer, 100, 25, 50), [0, 0, 0, 0]);
    assert_eq!(pixel(&d.buffer, 100, 75, 50), [0, 0, 0, 0]);
    assert_eq!(pixel(&d.buffer, 100, 74, 24), [0, 0, 0, 0]);
    assert_eq!(pixel(&d.buffer, 100, 74, 75), [0, 0, 0, 0]);
}

#[test]
fn render_frame_is_deterministic_across_drivers() {
    let mut d1 = FrameDriver::new(64, 48);
    let mut d2 = FrameDriver::new(64, 48);
    assert_eq!(d1.render_frame(9000, 64000), d2.render_frame(9000, 64000));
    assert_eq!(d1.buffer, d2.buffer);
}

#[test]
fn tall_surface_scales_triangle_out_of_range() {
    let mut d = FrameDriver::new(10, 160);
    let res = d.render_frame(0, FP);
    assert_eq!(res, Err(RasterError::OutOfRange));
    assert_eq!(d.buffer.len(), 10 * 160 * 4);
    assert!(d.buffer.iter().all(|&b| b == 0));
}

#[test]
fn one_pixel_surface_renders_empty() {
    let mut d = FrameDriver::new(1, 1);
    assert_eq!(d.render_frame(0, FP), Ok(()));
    assert_eq!(d.buffer.len(), 4);
    assert!(d.buffer.iter().all(|&b| b == 0));
}

#[test]
fn wide_surface_shrinks_triangle() {
    let mut d = FrameDriver::new(200, 100);
    assert_eq!(d.render_frame(0, FP), Ok(()));
    assert_eq!(pixel(&d.buffer, 200, 74, 100), COLOR);
    assert_eq!(pixel(&d.buffer, 200, 74, 80), COLOR);
    assert_eq!(pixel(&d.buffer, 200, 74, 74), [0, 0, 0, 0]);
    assert_eq!(pixel(&d.buffer, 200, 25, 100), [0, 0, 0, 0]);
}
