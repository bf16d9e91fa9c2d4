use im::window::{StateWindow, WINDOW_SIZE};

/// Records `(connect_num, message_bytes)` samples and keeps their running
/// total the way the endpoint's window task does.
struct Totals {
    window: StateWindow<(f64, f64)>,
    sum: (f64, f64),
}

impl Totals {
    fn new() -> Self {
        Totals { window: StateWindow::new(), sum: (0.0, 0.0) }
    }

    fn add(&mut self, stat: (f64, f64)) {
        if let Some(a) = self.window.outgoing() {
            self.sum.0 -= a.0;
            self.sum.1 -= a.1;
        }
        self.sum.0 += stat.0;
        self.sum.1 += stat.1;
        self.window.record(stat);
    }

    fn average(&self) -> (f64, f64) {
        (self.sum.0 / WINDOW_SIZE as f64, self.sum.1 / WINDOW_SIZE as f64)
    }
}

#[test]
fn window_test_basic() {
    let mut w = Totals::new();
    w.add((10.0, 100.0));
    w.add((20.0, 200.0));
    w.add((30.0, 300.0));
    w.add((40.0, 400.0));
    w.add((50.0, 500.0));
    let avg = w.average();
    assert!((avg.0 - 30.0).abs() < 1e-9);
    assert!((avg.1 - 300.0).abs() < 1e-9);

    w.add((60.0, 600.0));
    let avg = w.average();
    assert!((avg.0 - 40.0).abs() < 1e-9);
    assert!((avg.1 - 400.0).abs() < 1e-9);
}

#[test]
fn window_starts_empty() {
    let w: StateWindow<u32> = StateWindow::new();
    assert_eq!(w.count(), 0);
    assert!(w.outgoing().is_none());
}

#[test]
fn nothing_leaves_before_five_samples() {
    let mut w = StateWindow::new();
    for s in 1..=4u32 {
        w.record(s);
        assert!(w.outgoing().is_none());
    }
    w.record(5);
    assert_eq!(w.count(), 5);
    assert_eq!(w.outgoing(), Some(&1));
}

#[test]
fn sixth_sample_pushes_out_the_first() {
    let mut w = StateWindow::new();
    for s in 1..=5u32 {
        w.record(s);
    }
    // The sixth sample is inserted in front; the one leaving next is the
    // first sample again, which sits at the second slot now.
    w.record(6);
    assert_eq!(w.count(), 6);
    assert_eq!(w.outgoing(), Some(&1));
}

#[test]
fn leaving_sample_is_first_of_newest_full_block() {
    let mut w = StateWindow::new();
    for s in 1..=5u32 {
        w.record(s);
    }
    // From the fifth to the ninth record the first sample is the one to
    // leave; from the tenth on, the sixth; and so on.
    for s in 6..=9u32 {
        w.record(s);
        assert_eq!(w.outgoing(), Some(&1));
    }
    w.record(10);
    assert_eq!(w.count(), 10);
    assert_eq!(w.outgoing(), Some(&6));
    for s in 11..=14u32 {
        w.record(s);
        assert_eq!(w.outgoing(), Some(&6));
    }
    w.record(15);
    assert_eq!(w.outgoing(), Some(&11));
}

#[test]
fn running_total_from_the_seventh_sample_on() {
    // The sixth record pushes the first sample out of the total; the
    // seventh takes the first sample's weight away once more.
    let mut w = Totals::new();
    for s in 1..=7 {
        w.add((s as f64, 0.0));
    }
    assert!((w.sum.0 - 26.0).abs() < 1e-9);
}
