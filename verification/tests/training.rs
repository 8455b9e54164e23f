use crabformer::training::{checkpoint_name, TrainingProgress};

#[test]
fn checkpoint_names() {
    assert_eq!(checkpoint_name(3, 120), "checkpoint_epoch_3_120.ron");
    assert_eq!(checkpoint_name(0, 0), "checkpoint_epoch_0_0.ron");
    assert_eq!(
        checkpoint_name(18446744073709551615, 10),
        "checkpoint_epoch_18446744073709551615_10.ron"
    );
}

#[test]
fn checkpoints_every_n_steps() {
    let mut p = TrainingProgress::new(2);
    p.start_epoch(0);
    assert_eq!(p.record_step(), None);
    assert_eq!(p.record_step(), Some("checkpoint_epoch_0_2.ron".to_string()));
    p.start_epoch(1);
    assert_eq!(p.record_step(), None);
    assert_eq!(p.step(), 1);
    assert_eq!(p.record_step(), Some("checkpoint_epoch_1_2.ron".to_string()));
    assert_eq!(p.total_steps(), 4);
}
