use crabformer::metrics::{TimeSpan, TrainingDuration};

#[test]
fn new_span_carries_nanoseconds() {
    let s = TimeSpan::new(1, 1_500_000_000);
    assert_eq!(s.as_secs(), 2);
    assert_eq!(s.subsec_nanos(), 500_000_000);
}

#[test]
fn spans_add() {
    let s = TimeSpan::new(1, 700_000_000).add(&TimeSpan::new(2, 400_000_000));
    assert_eq!((s.as_secs(), s.subsec_nanos()), (4, 100_000_000));
}

#[test]
fn averages_divide_totals_by_counts() {
    let mut d = TrainingDuration::default();
    let z = d.avg_forward_duration();
    assert_eq!((z.as_secs(), z.subsec_nanos()), (0, 0));
    d.add_forward(TimeSpan::new(10, 0));
    d.add_forward(TimeSpan::new(0, 0));
    d.add_forward(TimeSpan::new(5, 0));
    assert_eq!(d.forward_count, 3);
    let a = d.avg_forward_duration();
    assert_eq!((a.as_secs(), a.subsec_nanos()), (5, 0));
    d.add_backward(TimeSpan::new(1, 0));
    d.add_backward(TimeSpan::new(2, 0));
    let b = d.avg_backward_duration();
    assert_eq!((b.as_secs(), b.subsec_nanos()), (1, 500_000_000));
    assert_eq!(d.backward_count, 2);
    assert_eq!(d.forward_count, 3);
}

#[test]
fn equal_passes_average_to_their_length() {
    let mut d = TrainingDuration::default();
    for _ in 0..3 {
        d.add_backward(TimeSpan::new(1, 500_000_000));
    }
    let a = d.avg_backward_duration();
    assert_eq!((a.as_secs(), a.subsec_nanos()), (1, 500_000_000));
}
