use congo_ps::batch::SampleBatcher;
use congo_ps::batch::BATCH_LEN;
use congo_ps::mppt::Direction;
use congo_ps::mppt::Perturbation;
use congo_ps::mppt::MAX_DUTY_COUNT;
use congo_ps::mppt::PERTURBATION_STEP;

#[test]
fn batch_leaves_after_sixteen_samples() {
    let mut b = SampleBatcher::new([0.0f32; 4]);
    assert_eq!(BATCH_LEN, 16);
    for i in 0..15 {
        assert_eq!(b.len(), i);
        assert!(b.record([i as f32, 1.0, 2.0, 3.0]).is_none());
    }
    let batch = b.record([15.0, 1.0, 2.0, 3.0]).expect("sixteenth sample completes a batch");
    for (i, s) in batch.iter().enumerate() {
        assert_eq!(*s, [i as f32, 1.0, 2.0, 3.0]);
    }
    assert_eq!(b.len(), 0);
}

#[test]
fn batches_keep_every_sample_in_order() {
    let mut b = SampleBatcher::new(0u32);
    let mut out = Vec::new();
    for i in 0..100u32 {
        if let Some(batch) = b.record(i) {
            out.extend_from_slice(&batch);
        }
    }
    assert_eq!(out.len(), 96);
    assert_eq!(out, (0..96u32).collect::<Vec<_>>());
    assert_eq!(b.len(), 4);
    let batch = (0..12).fold(None, |_, i| b.record(100 + i)).expect("full");
    assert_eq!(batch.to_vec(), (96..112u32).collect::<Vec<_>>());
}

#[test]
fn tracker_starts_upwards_at_rest() {
    let p = Perturbation::new(0.0f32);
    assert_eq!(p.direction, Direction::Positive);
    assert_eq!(p.magnitude, 0);
    assert_eq!(p.initial_power, 0.0);
}

#[test]
fn tracker_keeps_direction_while_power_rises() {
    let mut p = Perturbation::new(0.0f32);
    p.observe(1.5, true);
    assert_eq!(p.direction, Direction::Positive);
    assert_eq!(p.magnitude, PERTURBATION_STEP);
    assert_eq!(p.magnitude, 2);
    assert_eq!(p.initial_power, 1.5);
}

#[test]
fn tracker_turns_round_when_power_falls() {
    let mut p = Perturbation::new(2.0f32);
    p.observe(1.0, false);
    assert_eq!(p.direction, Direction::Negative);
    p.observe(0.5, false);
    assert_eq!(p.direction, Direction::Positive);
    p.observe(0.5, false);
    p.observe(0.7, true);
    assert_eq!(p.direction, Direction::Negative);
    assert_eq!(p.initial_power, 0.7);
}

#[test]
fn tracker_only_observes_when_on_and_below_target() {
    let mut p = Perturbation::new(3.0f32);
    assert!(!p.step(false, true, 1.0, false));
    assert!(!p.step(true, false, 1.0, false));
    assert!(!p.step(false, false, 1.0, false));
    assert_eq!(p.direction, Direction::Positive);
    assert_eq!(p.magnitude, 0);
    assert_eq!(p.initial_power, 3.0);
    assert!(p.step(true, true, 1.0, false));
    assert_eq!(p.direction, Direction::Negative);
    assert_eq!(p.magnitude, 2);
    assert_eq!(p.initial_power, 1.0);
}

#[test]
fn reversing_twice() {
    assert_eq!(Direction::Positive.reverse(), Direction::Negative);
    assert_eq!(Direction::Negative.reverse().reverse(), Direction::Negative);
}

#[test]
fn duty_moves_by_the_perturbation() {
    let mut p = Perturbation::new(0.0f32);
    assert_eq!(p.perturb_duty(100), 100);
    p.observe(1.0, true);
    assert_eq!(p.perturb_duty(100), 102);
    assert_eq!(p.perturb_duty(189), MAX_DUTY_COUNT);
    assert_eq!(p.perturb_duty(190), 190);
    assert_eq!(p.perturb_duty(500), 190);
    p.observe(0.5, false);
    assert_eq!(p.direction, Direction::Negative);
    assert_eq!(p.perturb_duty(100), 98);
    assert_eq!(p.perturb_duty(1), 0);
    assert_eq!(p.perturb_duty(0), 0);
}
