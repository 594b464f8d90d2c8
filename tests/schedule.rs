use anim_raster::image::Image;
use anim_raster::schedule::{clamp_threads, may_hand_off, thread_count, Dispatcher, SchedulerFault};

/// Drives a batch to the end, completing in-flight frames newest first (or,
/// in sequential mode, the one whose turn it is) and returns the hand-off order.
fn run(workers: usize, total: usize, sequential: bool) -> Vec<usize> {
    let mut d = Dispatcher::new(workers, total, sequential);
    let mut in_flight: Vec<(usize, usize)> = Vec::new();
    let mut handed = Vec::new();
    while !d.is_finished() {
        while let Some(job) = d.assign() {
            in_flight.push(job);
        }
        let pos = in_flight
            .iter()
            .rposition(|&(_, f)| may_hand_off(sequential, d.current_index(), f))
            .unwrap();
        let (w, f) = in_flight.remove(pos);
        d.complete(w, f).unwrap();
        handed.push(f);
    }
    assert_eq!(d.progress(), (total, total));
    handed
}

#[test]
fn sequential_mode_hands_off_in_order() {
    for workers in [1, 4, 16] {
        assert_eq!(run(workers, 10, true), (1..=10).collect::<Vec<_>>());
    }
}

#[test]
fn unordered_mode_hands_off_each_frame_once() {
    for workers in [1, 4, 16] {
        let mut got = run(workers, 10, false);
        assert_eq!(got.len(), 10);
        got.sort();
        assert_eq!(got, (1..=10).collect::<Vec<_>>());
    }
    assert_ne!(run(4, 10, false), (1..=10).collect::<Vec<_>>());
}

#[test]
fn empty_batch_is_finished() {
    assert!(Dispatcher::new(3, 0, true).is_finished());
}

#[test]
fn dispatcher_faults() {
    let mut d = Dispatcher::new(2, 3, true);
    assert_eq!(d.complete(0, 1), Err(SchedulerFault::IdleWorker));
    assert_eq!(d.complete(5, 1), Err(SchedulerFault::IdleWorker));
    assert_eq!(d.assign(), Some((0, 1)));
    assert_eq!(d.assign(), Some((1, 2)));
    assert_eq!(d.assign(), None);
    assert_eq!(d.complete(0, 2), Err(SchedulerFault::TaskMismatch));
    assert_eq!(d.complete(1, 2), Err(SchedulerFault::OutOfOrder));
    assert_eq!(d.complete(0, 1), Ok(()));
    assert_eq!(d.current_index(), 2);
    assert_eq!(d.assign(), Some((0, 3)));
}

#[test]
fn thread_counts_are_clamped() {
    assert_eq!(clamp_threads(Some(0), 8), 1);
    assert_eq!(clamp_threads(Some(100), 8), 64);
    assert_eq!(clamp_threads(None, 8), 8);
    assert_eq!(clamp_threads(None, 128), 64);
    assert_eq!(thread_count(Some(3)), 3);
    let n = thread_count(None);
    assert!((1..=64).contains(&n));
}

fn transform_batch(workers: usize) -> Vec<Vec<u8>> {
    let total = 6;
    let sources: Vec<Image> = (0..total)
        .map(|k| {
            let bytes: Vec<u8> = (0..16).map(|v| (v * 7 + k * 13) as u8).collect();
            Image::from_rgba(bytes, 2, 2).unwrap()
        })
        .collect();
    let points = vec![(1i64, 1i64), (0, 1), (1, 0), (0, 0)];
    let mut results: Vec<Option<Vec<u8>>> = vec![None; total];
    let mut d = Dispatcher::new(workers, total, false);
    let mut in_flight = Vec::new();
    while !d.is_finished() {
        while let Some(job) = d.assign() {
            in_flight.push(job);
        }
        let (w, f) = in_flight.remove(in_flight.len() / 2);
        let out = sources[f - 1].sample_nearest(2, 2, &points).unwrap();
        d.complete(w, f).unwrap();
        results[f - 1] = Some(out.as_bytes().to_vec());
    }
    results.into_iter().map(|r| r.unwrap()).collect()
}

#[test]
fn unordered_transform_is_deterministic() {
    assert_eq!(transform_batch(1), transform_batch(8));
}
