use moonshot::time::{update_simulation_time, NetworkSimulationTime, DEFAULT_FRAME_NANOS};

#[test]
fn default_state() {
    let t = NetworkSimulationTime::default();
    assert_eq!(t.frame_number(), 0);
    assert_eq!(t.elapsed_duration(), 0);
    assert_eq!(t.per_frame_duration(), DEFAULT_FRAME_NANOS);
    assert_eq!(t.frame_lag(), 1);
    assert_eq!(t.sim_frames_to_run(), 0..=0);
}

#[test]
fn deltas_sequence_at_thirty_fps() {
    let mut t = NetworkSimulationTime::default();
    update_simulation_time(&mut t, 40_000_000);
    assert_eq!(t.frame_number(), 1);
    assert_eq!(t.frame_lag(), 1);
    assert_eq!(t.elapsed_duration(), 6_666_667);
    assert!(t.elapsed_duration() < t.per_frame_duration());
    assert_eq!(t.sim_frames_to_run(), 1..=1);

    update_simulation_time(&mut t, 0);
    assert_eq!(t.frame_number(), 1);
    assert_eq!(t.frame_lag(), 0);
    assert!(t.elapsed_duration() < t.per_frame_duration());

    update_simulation_time(&mut t, 20_000_000);
    assert_eq!(t.frame_number(), 1);
    assert!(t.frame_lag() <= 1);
    assert_eq!(t.elapsed_duration(), 26_666_667);
    assert!(t.elapsed_duration() < t.per_frame_duration());
}

#[test]
fn long_delta_catches_up_several_frames() {
    let mut t = NetworkSimulationTime::with_frame_duration(10);
    update_simulation_time(&mut t, 35);
    assert_eq!(t.frame_number(), 3);
    assert_eq!(t.frame_lag(), 3);
    assert_eq!(t.elapsed_duration(), 5);
    assert_eq!(t.sim_frames_to_run(), 1..=3);
}

#[test]
fn exact_multiple_keeps_one_frame_elapsed() {
    let mut t = NetworkSimulationTime::with_frame_duration(10);
    update_simulation_time(&mut t, 30);
    assert_eq!(t.frame_number(), 2);
    assert_eq!(t.elapsed_duration(), 10);
}

#[test]
fn increment_and_reset() {
    let mut t = NetworkSimulationTime::with_frame_duration(10);
    t.update_elapsed(25);
    t.reset_frame_lag();
    t.increment_frame_number();
    assert_eq!(t.frame_number(), 1);
    assert_eq!(t.elapsed_duration(), 15);
    assert_eq!(t.frame_lag(), 1);
    t.reset_frame_lag();
    assert_eq!(t.frame_lag(), 0);
}

#[test]
fn set_frame_number_aligns() {
    let mut t = NetworkSimulationTime::default();
    t.set_frame_number(100);
    assert_eq!(t.frame_number(), 100);
    assert_eq!(t.sim_frames_to_run(), 100..=100);
}
