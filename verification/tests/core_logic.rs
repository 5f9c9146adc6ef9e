use pathtracer_core::materials::{AttenuationRule, MaterialType};
use pathtracer_core::sampling::{
    jitter_pattern, pixel_line_col, progress_increment, shuffled_jitter_pattern,
};
use pathtracer_core::stats::Stats;
use pathtracer_core::worklist::{build_work_list, process_pixel_sample, ThreadPixels};

fn active_slice(tp: &ThreadPixels) -> &[usize] {
    &tp.list[..tp.len]
}

#[test]
fn stats_reports_done_after_threshold() {
    let mut s = Stats::new();
    // First sample: quantized mean differs from the initial black.
    assert!(!s.add((10, 20, 30), 1));
    assert_eq!(s.n, 1);
    assert_eq!(s.bad_avgs, 0);
    // Five consecutive identical quantized means reach the threshold.
    assert!(!s.add((10, 20, 30), 1));
    assert_eq!(s.bad_avgs, 1);
    assert!(!s.add((10, 20, 30), 1));
    assert!(!s.add((10, 20, 30), 1));
    assert!(!s.add((10, 20, 30), 1));
    assert_eq!(s.bad_avgs, 4);
    let done = s.add((10, 20, 30), 1);
    assert_eq!(s.bad_avgs, 5);
    assert!(done);
    assert_eq!(s.n, 6);
}

#[test]
fn stats_counter_resets_on_color_change() {
    let mut s = Stats::new();
    s.add((5, 5, 5), 0);
    s.add((5, 5, 5), 0);
    s.add((5, 5, 5), 0);
    assert_eq!(s.bad_avgs, 2);
    assert!(!s.add((5, 5, 6), 0));
    assert_eq!(s.bad_avgs, 0);
    assert!(!s.add((5, 5, 6), 0));
    assert_eq!(s.bad_avgs, 1);
}

#[test]
fn stats_fingerprint_accumulates() {
    let mut s = Stats::new();
    assert_eq!(s.fingerprint, 0);
    s.add((1, 2, 3), 3);
    assert_eq!(s.fingerprint, 1 << 3);
    // An id is recorded modulo the word width, and old bits stay set.
    s.add((1, 2, 3), 64);
    assert_eq!(s.fingerprint, (1 << 3) | 1);
    s.add((1, 2, 3), 3);
    assert_eq!(s.fingerprint, (1 << 3) | 1);
}

#[test]
fn work_list_holds_the_workers_pixels_in_order() {
    let assigned: Vec<u32> = vec![0, 1, 0, 1, 1, 0];
    let t0 = build_work_list(&assigned, 0);
    let t1 = build_work_list(&assigned, 1);
    assert_eq!(active_slice(&t0), &[0, 2, 5]);
    assert_eq!(active_slice(&t1), &[1, 3, 4]);
    assert_eq!(t0.backbuff_len, 0);
    // No pixel of one worker's list appears in the other's.
    for p in active_slice(&t0) {
        assert!(!active_slice(&t1).contains(p));
    }
}

#[test]
fn work_list_of_unassigned_worker_is_empty() {
    let assigned: Vec<u32> = vec![0, 1, 0];
    let t9 = build_work_list(&assigned, 9);
    assert_eq!(t9.len, 0);
    let empty = build_work_list(&Vec::new(), 0);
    assert_eq!(empty.len, 0);
}

#[test]
fn pass_swap_cycles_preserve_the_assignment() {
    let assigned: Vec<u32> = vec![1, 0, 1, 1, 0, 1];
    let mut tp = build_work_list(&assigned, 1);
    let original: Vec<usize> = active_slice(&tp).to_vec();
    // Three pass/swap cycles in which nothing converges.
    for _pass in 0..3 {
        for i in 0..tp.len {
            tp.add_run(i, false);
        }
        tp.swap_buffers();
        assert_eq!(active_slice(&tp), &original[..]);
        assert_eq!(tp.backbuff_len, 0);
    }
}

#[test]
fn converged_pixel_is_never_requeued() {
    let assigned: Vec<u32> = vec![1, 1, 1, 1];
    let mut tp = build_work_list(&assigned, 1);
    assert_eq!(active_slice(&tp), &[0, 1, 2, 3]);
    // Pixel 2 converges during the first pass.
    for i in 0..tp.len {
        tp.add_run(i, tp.list[i] == 2);
    }
    tp.swap_buffers();
    assert_eq!(active_slice(&tp), &[0, 1, 3]);
    // The union of what is retired and what is still queued is the original
    // assignment; later passes never see pixel 2 again.
    for _pass in 0..2 {
        for i in 0..tp.len {
            tp.add_run(i, false);
        }
        tp.swap_buffers();
        assert_eq!(active_slice(&tp), &[0, 1, 3]);
        assert!(!active_slice(&tp).contains(&2));
    }
}

#[test]
fn push_appends_to_the_current_pass() {
    let mut tp = ThreadPixels::new(4);
    tp.push(7);
    tp.push(9);
    assert_eq!(active_slice(&tp), &[7, 9]);
    assert_eq!(tp.backbuff_len, 0);
    let mut shrunk = tp;
    shrunk.shrink_to_fit();
    assert_eq!(active_slice(&shrunk), &[7, 9]);
}

#[test]
fn jitter_pattern_repeats_the_four_strata() {
    let v = jitter_pattern(10);
    assert_eq!(v.len(), 10);
    assert_eq!(
        &v[..8],
        &[(0, 0), (0, 1), (1, 0), (1, 1), (0, 0), (0, 1), (1, 0), (1, 1)]
    );
    assert_eq!(v[8], (0, 0));
    assert_eq!(v[9], (0, 1));
    assert!(jitter_pattern(0).is_empty());
}

#[test]
fn shuffled_jitter_is_a_permutation_of_the_pattern() {
    let mut shuffled = shuffled_jitter_pattern(64);
    let mut plain = jitter_pattern(64);
    assert_eq!(shuffled.len(), 64);
    shuffled.sort();
    plain.sort();
    assert_eq!(shuffled, plain);
}

#[test]
fn pixel_index_splits_into_line_and_column() {
    assert_eq!(pixel_line_col(0, 5), (0, 0));
    assert_eq!(pixel_line_col(4, 5), (0, 4));
    assert_eq!(pixel_line_col(5, 5), (1, 0));
    assert_eq!(pixel_line_col(17, 5), (3, 2));
    assert_eq!(pixel_line_col(17, 1), (17, 0));
}

#[test]
fn progress_counts_remaining_samples_on_convergence() {
    // A pixel that converged at its 40th of 100 samples reports the 61
    // outstanding pixel-samples at once (the 40th itself included).
    assert_eq!(progress_increment(true, 100, 40), 61);
    assert_eq!(progress_increment(false, 100, 40), 1);
    assert_eq!(progress_increment(true, 100, 100), 1);
    assert_eq!(progress_increment(false, 100, 100), 1);
}

#[test]
fn pixel_sample_step_retires_requeues_and_reports() {
    let assigned: Vec<u32> = vec![0, 0, 0];
    let mut tp = build_work_list(&assigned, 0);
    let mut stats: Vec<Stats> = (0..3).map(|_| Stats::new()).collect();
    // Pre-drive pixel 1 to the brink of convergence.
    for _ in 0..5 {
        stats[1].add((7, 7, 7), 0);
    }
    assert_eq!(stats[1].bad_avgs, 4);
    let spp = 100;
    let mut logs = Vec::new();
    for i in 0..tp.len {
        let p = tp.list[i];
        let log = process_pixel_sample(&mut tp, &mut stats[p], i, (7, 7, 7), 5, spp);
        logs.push(log);
    }
    tp.swap_buffers();
    // Pixel 1 converged at its sixth sample: it reports its 95 outstanding
    // samples at once and leaves the work list; the others report one step.
    assert_eq!(logs, vec![1, 95, 1]);
    assert_eq!(active_slice(&tp), &[0, 2]);
    assert_eq!(stats[1].bad_avgs, 5);
    assert!(stats[0].fingerprint & (1 << 5) != 0);
}

#[test]
fn dielectric_attenuates_by_opaque_white() {
    assert!(matches!(
        MaterialType::DIELECTRIC.attenuation_rule(),
        AttenuationRule::OpaqueWhite
    ));
    assert!(matches!(
        MaterialType::LAMBERTIAN.attenuation_rule(),
        AttenuationRule::Albedo
    ));
    assert!(matches!(
        MaterialType::METAL.attenuation_rule(),
        AttenuationRule::Albedo
    ));
}
