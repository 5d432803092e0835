use wavehacker::effects::amplify::channel_gains;
use wavehacker::effects::compressor::{copy_frame, DelayLine, OutputGate, PeakDetector, WarmUp};
use wavehacker::error::Error;

#[test]
fn gains_per_channel() {
    assert_eq!(channel_gains(&vec![1.5f32, -3.0], 2), Ok(vec![1.5, -3.0]));
}

#[test]
fn single_gain_is_broadcast() {
    assert_eq!(channel_gains(&vec![-6.0f32], 3), Ok(vec![-6.0, -6.0, -6.0]));
}

#[test]
fn mismatched_gains_are_rejected() {
    assert!(matches!(channel_gains(&vec![1.0f32, 2.0], 3), Err(Error::InvalidArgument(_))));
    assert!(matches!(channel_gains(&Vec::<f32>::new(), 2), Err(Error::InvalidArgument(_))));
}

#[test]
fn delay_line_delays_by_latency() {
    let mut delay = DelayLine::new(2, &vec![0.0f32, 0.0]);
    assert_eq!(delay.latency(), 2);
    assert_eq!(delay.push(vec![1.0, 2.0]), vec![0.0, 0.0]);
    assert_eq!(delay.push(vec![3.0, 4.0]), vec![0.0, 0.0]);
    assert_eq!(delay.push(vec![5.0, 6.0]), vec![1.0, 2.0]);
    assert_eq!(delay.push(vec![7.0, 8.0]), vec![3.0, 4.0]);
}

#[test]
fn delay_line_without_latency_passes_through() {
    let mut delay = DelayLine::new(0, &vec![0i32]);
    assert_eq!(delay.push(vec![9]), vec![9]);
    assert_eq!(delay.push(vec![-9]), vec![-9]);
}

#[test]
fn output_gate_drops_latency_frames() {
    let mut gate = OutputGate::new(3);
    let passed: Vec<bool> = (0..5).map(|_| gate.pass()).collect();
    assert_eq!(passed, vec![false, false, false, true, true]);
    assert_eq!(gate.drain_len(), 3);
    assert_eq!(OutputGate::new(0).drain_len(), 0);
}

#[test]
fn compressor_framing_keeps_frame_length() {
    // Five stereo frames through a look-ahead of two frames, drained by two
    // silent frames: the first two outputs are dropped, and exactly the five
    // input frames come out, in order, each with one sample per channel.
    let input: Vec<Vec<f32>> = (0..5).map(|i| vec![i as f32, -(i as f32)]).collect();
    let silence = vec![0.0f32; 2];
    let mut delay = DelayLine::new(2, &silence);
    let mut gate = OutputGate::new(2);
    let mut out = vec![];
    for frame in &input {
        let f = delay.push(copy_frame(frame));
        if gate.pass() {
            out.push(f);
        }
    }
    for _ in 0..gate.drain_len() {
        let f = delay.push(silence.clone());
        if gate.pass() {
            out.push(f);
        }
    }
    assert_eq!(out.len(), 5);
    assert!(out.iter().all(|f| f.len() == 2));
    assert_eq!(out, input);
}

#[test]
fn detector_kinds_differ() {
    assert_ne!(PeakDetector::Peak, PeakDetector::Rms);
}

#[test]
fn warm_up_feeds_settling_len_plus_one_frames() {
    let mut warm_up = WarmUp::new(3);
    let fed: Vec<bool> = (0..6).map(|_| warm_up.feed()).collect();
    assert_eq!(fed, vec![true, true, true, true, false, false]);
    let mut none = WarmUp::new(0);
    assert!(none.feed());
    assert!(!none.feed());
}
