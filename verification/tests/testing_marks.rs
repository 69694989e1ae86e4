use keyboard_configurator::application::key::{Key, Rect};
use keyboard_configurator::color::Rgb;
use keyboard_configurator::matrix::Matrix;
use keyboard_configurator::testing::{
    apply_nelson, bench_port_names, mark_pressed, Nelson, NelsonOutcome, NelsonRun, TestingColors,
};

fn key(electrical: (u8, u8), pressed: bool) -> Key {
    Key {
        logical: (0, 0),
        logical_name: String::new(),
        physical: Rect::new(0, 0, 1000, 1000),
        physical_name: String::new(),
        electrical,
        electrical_name: String::new(),
        leds: Vec::new(),
        led_name: String::new(),
        pressed,
        scancodes: Vec::new(),
        background_color: Rgb::new(0, 0, 0),
        foreground_color: Rgb::new(0, 0, 0),
    }
}

#[test]
fn testing_colors_map() {
    let mut c = TestingColors::new();
    assert_eq!(c.len(), 0);
    c.insert((1, 2), Rgb::new(1, 1, 1));
    c.insert((2, 1), Rgb::new(2, 2, 2));
    c.insert((1, 2), Rgb::new(3, 3, 3));
    assert_eq!(c.len(), 2);
    assert_eq!(c.get((1, 2)), Some(Rgb::new(3, 3, 3)));
    assert_eq!(c.get((2, 1)), Some(Rgb::new(2, 2, 2)));
    assert_eq!(c.get((0, 0)), None);
    c.remove((1, 2));
    c.remove((7, 7));
    assert_eq!(c.len(), 1);
    assert_eq!(c.get((1, 2)), None);
    c.clear();
    assert_eq!(c.len(), 0);
}

#[test]
fn matrix_reads_row_by_row() {
    let m = Matrix::new(2, 3, vec![true, false, false, false, false, true]).unwrap();
    assert_eq!(m.rows(), 2);
    assert_eq!(m.cols(), 3);
    assert_eq!(m.get(0, 0), Some(true));
    assert_eq!(m.get(1, 2), Some(true));
    assert_eq!(m.get(1, 0), Some(false));
    assert_eq!(m.get(2, 0), None);
    assert_eq!(m.get(0, 3), None);
    assert!(Matrix::new(2, 3, vec![true]).is_none());
    assert!(Matrix::new(usize::MAX, 2, vec![]).is_none());
}

#[test]
fn nelson_marks_failed_switches() {
    let missing = Matrix::new(2, 2, vec![true, false, false, false]).unwrap();
    let sticking = Matrix::new(2, 2, vec![true, true, false, false]).unwrap();
    let bouncing = Matrix::new(1, 1, vec![false]).unwrap();
    let nelson = Nelson { missing, sticking, bouncing };
    let mut c = TestingColors::new();
    c.insert((1, 1), Rgb::new(9, 9, 9));
    c.insert((5, 5), Rgb::new(8, 8, 8));
    apply_nelson(&mut c, &nelson, 2, 2);
    assert_eq!(c.get((0, 0)), Some(Rgb::new(255, 255, 0)));
    assert_eq!(c.get((0, 1)), Some(Rgb::new(0, 255, 0)));
    assert_eq!(c.get((1, 0)), None);
    assert_eq!(c.get((1, 1)), None);
    assert_eq!(c.get((5, 5)), Some(Rgb::new(8, 8, 8)));
    assert_eq!(c.len(), 3);
}

#[test]
fn pressed_keys_are_marked_red() {
    let keys = vec![key((0, 1), true), key((2, 3), false), key((4, 5), true)];
    let mut c = TestingColors::new();
    c.insert((2, 3), Rgb::new(0, 0, 255));
    mark_pressed(&mut c, &keys);
    assert_eq!(c.get((0, 1)), Some(Rgb::new(255, 0, 0)));
    assert_eq!(c.get((4, 5)), Some(Rgb::new(255, 0, 0)));
    assert_eq!(c.get((2, 3)), Some(Rgb::new(0, 0, 255)));
    assert_eq!(c.len(), 3);
}

#[test]
fn benchmark_ports() {
    let p = bench_port_names();
    assert_eq!(p.len(), 8);
    assert_eq!(p[0], "USB 2.0: USB-A Left");
    assert_eq!(p[7], "USB 3.2 Gen 2: USB-C Right");
}

#[test]
fn nelson_applied_twice_marks_as_once() {
    let nelson = || Nelson {
        missing: Matrix::new(1, 2, vec![false, true]).unwrap(),
        sticking: Matrix::new(1, 2, vec![false, false]).unwrap(),
        bouncing: Matrix::new(1, 2, vec![true, true]).unwrap(),
    };
    let mut once = TestingColors::new();
    once.insert((0, 0), Rgb::new(1, 2, 3));
    apply_nelson(&mut once, &nelson(), 1, 2);
    let mut twice = TestingColors::new();
    twice.insert((0, 0), Rgb::new(1, 2, 3));
    apply_nelson(&mut twice, &nelson(), 1, 2);
    apply_nelson(&mut twice, &nelson(), 1, 2);
    for cell in [(0, 0), (0, 1), (1, 0)] {
        assert_eq!(once.get(cell), twice.get(cell));
    }
    assert_eq!(once.get((0, 0)), Some(Rgb::new(0, 0, 255)));
    assert_eq!(once.get((0, 1)), Some(Rgb::new(255, 0, 255)));
    assert_eq!(once.len(), twice.len());
}

#[test]
fn nelson_series_stops_at_the_first_failure() {
    assert!(NelsonRun::start(0).is_none());
    let r = NelsonRun::start(3).unwrap();
    assert_eq!(r.running_message(), "Test 1/3 running");
    let (m, next) = r.finish(NelsonOutcome::Ran(true));
    assert_eq!(m, "Test 1/3 successful");
    let r = next.unwrap();
    assert_eq!((r.run, r.runs), (2, 3));
    let (m, next) = r.finish(NelsonOutcome::Ran(false));
    assert_eq!(m, "Test 2/3 failed");
    assert!(next.is_none());
    let (m, next) = NelsonRun { run: 3, runs: 3 }.finish(NelsonOutcome::Ran(true));
    assert_eq!(m, "Test 3/3 successful");
    assert!(next.is_none());
    let (m, next) = NelsonRun { run: 1, runs: 12 }.finish(NelsonOutcome::NotRun("no board".to_string()));
    assert_eq!(m, "Test 1/12 failed to run: no board");
    assert!(next.is_none());
}
