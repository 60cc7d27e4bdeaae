use podbench::sampler::{Sample, Sampler, SAMPLE_CADENCE_NANOS};

const MS: u64 = 1_000_000;

#[test]
fn sample_at_the_one_second_boundary() {
    // Deliveries at 0.2 s, 0.5 s, 1.1 s and 2.0 s after the sampler's making.
    let mut sampler = Sampler::new(0, SAMPLE_CADENCE_NANOS);
    assert_eq!(sampler.deliver(200 * MS), None);
    assert_eq!(sampler.deliver(500 * MS), None);
    let sample = sampler.deliver(1100 * MS);
    assert_eq!(
        sample,
        Some(Sample { elapsed: 900 * MS, total: 3, fresh: 3, interval: 1100 * MS })
    );
    let sample = sample.unwrap();
    let instant = sample.fresh as f64 / (sample.interval as f64 / 1e9);
    let average = sample.total as f64 / (sample.elapsed as f64 / 1e9);
    assert!((instant - 3.0 / 1.1).abs() < 1e-9);
    assert!((average - 3.0 / 0.9).abs() < 1e-9);
    // 0.9 s after the sample: not due yet.
    assert_eq!(sampler.deliver(2000 * MS), None);
    assert_eq!(sampler.total(), 4);
}

#[test]
fn instantaneous_rate_counts_only_since_the_prior_sample() {
    let mut sampler = Sampler::new(0, SAMPLE_CADENCE_NANOS);
    assert_eq!(sampler.deliver(200 * MS), None);
    assert_eq!(sampler.deliver(500 * MS), None);
    assert!(sampler.deliver(1100 * MS).is_some());
    assert_eq!(sampler.deliver(2000 * MS), None);
    assert_eq!(sampler.deliver(2050 * MS), None);
    assert_eq!(
        sampler.deliver(2200 * MS),
        Some(Sample { elapsed: 2000 * MS, total: 6, fresh: 3, interval: 1100 * MS })
    );
}

#[test]
fn cadence_must_be_exceeded() {
    let mut sampler = Sampler::new(100, 50);
    // Exactly the cadence: not due.
    assert_eq!(sampler.deliver(150), None);
    // One tick more: due.
    assert_eq!(sampler.deliver(151), Some(Sample { elapsed: 1, total: 2, fresh: 2, interval: 51 }));
}

#[test]
fn idle_time_before_the_first_delivery_is_left_out_of_the_average() {
    let mut sampler = Sampler::new(0, SAMPLE_CADENCE_NANOS);
    // Nothing arrives for five seconds; the first delivery is due a sample.
    assert_eq!(
        sampler.deliver(5000 * MS),
        Some(Sample { elapsed: 0, total: 1, fresh: 1, interval: 5000 * MS })
    );
    assert_eq!(sampler.deliver(5500 * MS), None);
    assert_eq!(
        sampler.deliver(6500 * MS),
        Some(Sample { elapsed: 1500 * MS, total: 3, fresh: 2, interval: 1500 * MS })
    );
}

#[test]
fn every_delivery_is_counted() {
    let mut sampler = Sampler::new(0, 10);
    let mut samples = 0u64;
    for now in 1..=1000u64 {
        if sampler.deliver(now).is_some() {
            samples += 1;
        }
    }
    assert_eq!(sampler.total(), 1000);
    // One sample per eleven ticks.
    assert_eq!(samples, 90);
}

#[test]
fn samples_drift_with_the_deliveries() {
    // The cadence is measured from the previous sample, not from a fixed grid.
    let mut sampler = Sampler::new(0, 100);
    assert_eq!(sampler.deliver(150), Some(Sample { elapsed: 0, total: 1, fresh: 1, interval: 150 }));
    // 200 would be past the second grid line, but only 50 since the sample.
    assert_eq!(sampler.deliver(200), None);
    assert_eq!(sampler.deliver(250), None);
    assert_eq!(
        sampler.deliver(251),
        Some(Sample { elapsed: 101, total: 4, fresh: 3, interval: 101 })
    );
}

#[test]
fn clock_that_stands_still_or_steps_back_counts_as_no_time() {
    let mut sampler = Sampler::new(1000, 10);
    assert_eq!(sampler.deliver(900), None);
    assert_eq!(sampler.deliver(1000), None);
    assert_eq!(sampler.total(), 2);
    // The start was set at 900 by the first delivery.
    assert_eq!(
        sampler.deliver(1011),
        Some(Sample { elapsed: 111, total: 3, fresh: 3, interval: 11 })
    );
    // A sample whose clock reads less than the start has no time elapsed.
    let mut late = Sampler::new(0, 10);
    assert_eq!(late.deliver(500), Some(Sample { elapsed: 0, total: 1, fresh: 1, interval: 500 }));
    assert_eq!(late.deliver(400), None);
}

#[test]
fn cadence_of_zero_samples_whenever_time_has_passed() {
    let mut sampler = Sampler::new(0, 0);
    assert_eq!(sampler.deliver(0), None);
    assert_eq!(sampler.deliver(1), Some(Sample { elapsed: 1, total: 2, fresh: 2, interval: 1 }));
    assert_eq!(sampler.deliver(1), None);
    assert_eq!(sampler.deliver(3), Some(Sample { elapsed: 3, total: 4, fresh: 2, interval: 2 }));
}
