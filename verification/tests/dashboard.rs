use crabformer::dashboard::{batches_in_epoch, elapsed_hms, loss_chart_points, CrabAnimation};

#[test]
fn crab_bounds() {
    let c = CrabAnimation::new();
    assert!(!c.is_oob(120));
    assert!(c.is_oob(100));
    assert_eq!(c.padding(), 64);
}

#[test]
fn crab_walks_and_turns() {
    let mut c = CrabAnimation::new();
    c.step(200);
    assert_eq!(c.padding(), 66);
    // 68 + 50 > 117: it turns around and walks back
    c.step(117);
    assert_eq!(c.padding(), 68);
    c.step(117);
    assert_eq!(c.padding(), 66);
}

#[test]
fn elapsed_time_splits() {
    assert_eq!(elapsed_hms(3725), (1, 2, 5));
    assert_eq!(elapsed_hms(59), (0, 0, 59));
}

#[test]
fn epoch_batches() {
    assert_eq!(batches_in_epoch(7, 3), 1);
    assert_eq!(batches_in_epoch(7, 0), 0);
}

#[test]
fn chart_points_are_clamped() {
    assert_eq!(loss_chart_points(0), 50);
    assert_eq!(loss_chart_points(104), 50);
    assert_eq!(loss_chart_points(304), 150);
    assert_eq!(loss_chart_points(1000), 200);
}
