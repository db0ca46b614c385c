use rust_fractal::Canvas;

fn sample(c: &Canvas, row: u32, col: u32) -> [u8; 4] {
    c.pixel(row, col)
}

#[test]
fn new_canvas_is_zeroed() {
    let c = Canvas::new(4, 3);
    assert_eq!(c.width(), 4);
    assert_eq!(c.height(), 3);
    let bytes = c.into_rgba_bytes();
    assert_eq!(bytes.len(), 48);
    assert!(bytes.iter().all(|b| *b == 0));
}

#[test]
fn plot_raises_the_three_visit_channels() {
    let mut c = Canvas::new(4, 3);
    c.plot(1, 2);
    assert_eq!(sample(&c, 1, 2), [1, 1, 1, 0]);
    c.plot(1, 2);
    assert_eq!(sample(&c, 1, 2), [2, 2, 2, 0]);
    let bytes = c.into_rgba_bytes();
    let start = (1 * 4 + 2) * 4;
    assert_eq!(&bytes[start..start + 4], &[2, 2, 2, 0]);
    let others: u32 = bytes.iter().enumerate().filter(|(k, _)| *k < start || *k >= start + 4).map(|(_, b)| *b as u32).sum();
    assert_eq!(others, 0);
}

#[test]
fn plot_row_is_height_axis_and_col_is_width_axis() {
    let mut c = Canvas::new(5, 2);
    c.plot(1, 4);
    let bytes = c.into_rgba_bytes();
    assert_eq!(&bytes[(1 * 5 + 4) * 4..(1 * 5 + 4) * 4 + 4], &[1, 1, 1, 0]);
}

#[test]
fn plot_off_canvas_is_dropped() {
    let mut c = Canvas::new(4, 3);
    c.plot(-1, 0);
    c.plot(0, -1);
    c.plot(3, 0);
    c.plot(0, 4);
    c.plot(i64::MAX, i64::MIN);
    let bytes = c.into_rgba_bytes();
    assert!(bytes.iter().all(|b| *b == 0));
}

#[test]
fn plot_edges_land_inside() {
    let mut c = Canvas::new(4, 3);
    c.plot(0, 0);
    c.plot(2, 3);
    assert_eq!(sample(&c, 0, 0), [1, 1, 1, 0]);
    assert_eq!(sample(&c, 2, 3), [1, 1, 1, 0]);
}

#[test]
fn visit_channels_saturate_at_255() {
    let mut c = Canvas::new(2, 2);
    for _ in 0..300 {
        c.plot(1, 1);
    }
    assert_eq!(sample(&c, 1, 1), [255, 255, 255, 0]);
    assert_eq!(sample(&c, 0, 0), [0, 0, 0, 0]);
}

#[test]
fn finalize_makes_every_pixel_opaque() {
    let mut c = Canvas::new(3, 2);
    c.plot(0, 1);
    c.plot(0, 1);
    c.finalize();
    assert_eq!(sample(&c, 0, 1), [2, 2, 2, 255]);
    assert_eq!(sample(&c, 1, 2), [0, 0, 0, 255]);
    let bytes = c.into_rgba_bytes();
    for (k, b) in bytes.iter().enumerate() {
        if k % 4 == 3 {
            assert_eq!(*b, 255);
        }
    }
}

#[test]
fn finalize_keeps_saturated_visits() {
    let mut c = Canvas::new(1, 1);
    for _ in 0..260 {
        c.plot(0, 0);
    }
    c.finalize();
    c.finalize();
    assert_eq!(sample(&c, 0, 0), [255, 255, 255, 255]);
}

#[test]
fn clear_zeroes_everything() {
    let mut c = Canvas::new(3, 3);
    c.plot(2, 2);
    c.finalize();
    c.clear();
    assert_eq!(c.width(), 3);
    assert_eq!(c.height(), 3);
    let bytes = c.into_rgba_bytes();
    assert_eq!(bytes.len(), 36);
    assert!(bytes.iter().all(|b| *b == 0));
}

#[test]
fn empty_canvas_finalizes() {
    let mut c = Canvas::new(0, 7);
    c.finalize();
    assert_eq!(c.into_rgba_bytes().len(), 0);
}

#[test]
fn rgba_bytes_copies_the_samples() {
    let mut c = Canvas::new(2, 1);
    c.plot(0, 1);
    c.finalize();
    assert_eq!(c.rgba_bytes(), vec![0, 0, 0, 255, 1, 1, 1, 255]);
    assert_eq!(c.into_rgba_bytes(), vec![0, 0, 0, 255, 1, 1, 1, 255]);
}
