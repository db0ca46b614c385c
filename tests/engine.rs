use std::cell::{Cell, RefCell};
use std::f32::consts::PI;

use rust_fractal::decisions::{decision_bit, draw_decision_words, word_count};
use rust_fractal::{fractalize, render_words, Canvas, FractalMethod};

#[derive(Clone, Copy)]
struct Setup {
    rot: f32,
    theta_offset: f32,
    method: FractalMethod,
}

fn transform(s: Setup, p: (f32, f32), rotate: bool) -> (f32, f32) {
    let (x, y) = p;
    if rotate {
        let (sin, cos) = s.rot.sin_cos();
        (x * cos + y * sin, y * cos - x * sin)
    } else {
        let rad = x * 0.5 + 0.5;
        let theta = match s.method {
            FractalMethod::Default => y * PI + s.theta_offset,
            FractalMethod::MultiplyTheta => y * PI * s.theta_offset,
        };
        (rad * theta.cos(), rad * theta.sin())
    }
}

fn locate(p: (f32, f32), rows: u32, cols: u32) -> (i64, i64) {
    let r = (p.1 * 0.5 + 0.5) * rows as f32;
    let c = (p.0 * 0.5 + 0.5) * cols as f32;
    (r as i64, c as i64)
}

fn visits(bytes: &[u8]) -> u32 {
    bytes.chunks(4).map(|px| px[0] as u32).sum()
}

fn lit_cells(bytes: &[u8]) -> usize {
    bytes.chunks(4).filter(|px| px[0] != 0).count()
}

#[test]
fn decision_bits_are_least_significant_first() {
    assert!(decision_bit(0b101, 0));
    assert!(!decision_bit(0b101, 1));
    assert!(decision_bit(0b101, 2));
    assert!(decision_bit(1u64 << 63, 63));
    assert!(!decision_bit(1u64 << 63, 62));
    assert!(!decision_bit(0, 17));
}

#[test]
fn word_count_is_one_per_64_decisions() {
    assert_eq!(word_count(0), 0);
    assert_eq!(word_count(63), 0);
    assert_eq!(word_count(64), 1);
    assert_eq!(word_count(100), 1);
    assert_eq!(word_count(640), 10);
    assert_eq!(word_count(u32::MAX), (u32::MAX / 64) as usize);
}

#[test]
fn drawn_words_match_the_budget() {
    assert_eq!(draw_decision_words(640).len(), 10);
    assert_eq!(draw_decision_words(63).len(), 0);
    assert!(draw_decision_words(64 * 50).iter().all(|w| *w < u64::MAX));
}

#[test]
fn each_bit_plots_the_ghost_then_the_kept_point() {
    let calls: RefCell<Vec<(u64, bool, u64)>> = RefCell::new(Vec::new());
    let step = |p: u64, rotate: bool| {
        let r = p.wrapping_mul(3).wrapping_add(1 + rotate as u64);
        calls.borrow_mut().push((p, rotate, r));
        r
    };
    let cells: RefCell<Vec<u64>> = RefCell::new(Vec::new());
    let locate_calls = |p: u64, _rows: u32, _cols: u32| {
        cells.borrow_mut().push(p);
        (0i64, 0i64)
    };
    let words: Vec<u64> = vec![0x0123_4567_89ab_cdef, 0xfedc_ba98_7654_3210];
    let mut canvas = Canvas::new(1, 1);
    let last = render_words(&mut canvas, 7u64, &words, step, locate_calls);
    let calls = calls.into_inner();
    let cells = cells.into_inner();
    assert_eq!(calls.len(), 256);
    assert_eq!(cells.len(), 256);
    let mut x = 7u64;
    for j in 0..128 {
        let bit = words[j / 64] & (1u64 << (j % 64)) != 0;
        let (ga, ra, ghost) = calls[2 * j];
        let (gb, rb, next) = calls[2 * j + 1];
        assert_eq!(ga, x);
        assert_eq!(gb, x);
        assert_eq!(ra, !bit);
        assert_eq!(rb, bit);
        assert_eq!(cells[2 * j], ghost);
        assert_eq!(cells[2 * j + 1], next);
        x = next;
    }
    assert_eq!(last, x);
    assert_eq!(canvas.pixel(0, 0), [255, 255, 255, 0]);
}

#[test]
fn budget_gives_two_plots_per_decision() {
    let plots = Cell::new(0u32);
    let count = |p: (f32, f32), rows: u32, cols: u32| {
        plots.set(plots.get() + 1);
        locate(p, rows, cols)
    };
    let setup = Setup { rot: 1.724643921305295, theta_offset: 3.0466792337230033, method: FractalMethod::Default };
    let mut canvas = Canvas::new(64, 64);
    fractalize(&mut canvas, (0.0, 0.5), 640, |p, r| transform(setup, p, r), count);
    assert_eq!(plots.get(), 1280);
    let plots = Cell::new(0u32);
    let count = |p: (f32, f32), rows: u32, cols: u32| {
        plots.set(plots.get() + 1);
        locate(p, rows, cols)
    };
    fractalize(&mut canvas, (0.0, 0.5), 100, |p, r| transform(setup, p, r), count);
    assert_eq!(plots.get(), 128);
}

#[test]
fn degenerate_setup_with_all_bits_set() {
    let setup = Setup { rot: 0.0, theta_offset: 0.0, method: FractalMethod::Default };
    let mut canvas = Canvas::new(16, 16);
    let last = render_words(&mut canvas, (0.0f32, 0.0f32), &vec![u64::MAX], |p, r| transform(setup, p, r), locate);
    assert_eq!(last, (0.0, 0.0));
    let bytes = canvas.into_rgba_bytes();
    assert_eq!(visits(&bytes), 128);
    assert_eq!(lit_cells(&bytes), 2);
}

#[test]
fn degenerate_setup_ending_on_the_polar_branch() {
    let setup = Setup { rot: 0.0, theta_offset: 0.0, method: FractalMethod::Default };
    let mut canvas = Canvas::new(16, 16);
    let last = render_words(&mut canvas, (0.0f32, 0.0f32), &vec![u64::MAX >> 1], |p, r| transform(setup, p, r), locate);
    assert_eq!(last, (0.5, 0.0));
    let bytes = canvas.into_rgba_bytes();
    assert_eq!(visits(&bytes), 128);
    assert_eq!(lit_cells(&bytes), 2);
}

#[test]
fn degenerate_setup_with_random_draws_plots_128_points() {
    let setup = Setup { rot: 0.0, theta_offset: 0.0, method: FractalMethod::Default };
    let plots = Cell::new(0u32);
    let count = |p: (f32, f32), rows: u32, cols: u32| {
        plots.set(plots.get() + 1);
        locate(p, rows, cols)
    };
    let mut canvas = Canvas::new(16, 16);
    let last = fractalize(&mut canvas, (0.0f32, 0.0f32), 64, |p, r| transform(setup, p, r), count);
    assert_eq!(plots.get(), 128);
    assert_eq!(last.1, 0.0);
    assert!(last.0 >= 0.0 && last.0 <= 1.0);
    assert!(visits(&canvas.into_rgba_bytes()) <= 128);
}

#[test]
fn same_decisions_give_identical_canvases() {
    let setup = Setup { rot: 1.724643921305295, theta_offset: 3.0466792337230033, method: FractalMethod::MultiplyTheta };
    let words = draw_decision_words(64 * 40);
    let mut a = Canvas::new(64, 64);
    let mut b = Canvas::new(64, 64);
    let la = render_words(&mut a, (0.0f32, 0.5f32), &words, |p, r| transform(setup, p, r), locate);
    let lb = render_words(&mut b, (0.0f32, 0.5f32), &words, |p, r| transform(setup, p, r), locate);
    assert_eq!(la, lb);
    let (a, b) = (a.into_rgba_bytes(), b.into_rgba_bytes());
    assert_eq!(a, b);
    assert!(visits(&a) > 0);
}

#[test]
fn no_words_leave_the_canvas_untouched() {
    let setup = Setup { rot: 0.5, theta_offset: 0.5, method: FractalMethod::Default };
    let mut canvas = Canvas::new(8, 8);
    let last = render_words(&mut canvas, (0.25f32, -0.5f32), &Vec::new(), |p, r| transform(setup, p, r), locate);
    assert_eq!(last, (0.25, -0.5));
    assert!(canvas.into_rgba_bytes().iter().all(|b| *b == 0));
}

#[test]
fn method_defaults_to_adding_the_offset() {
    assert_eq!(FractalMethod::default(), FractalMethod::Default);
    assert_ne!(FractalMethod::Default, FractalMethod::MultiplyTheta);
}
