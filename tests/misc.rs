use wavehacker::error::{check_frame, Error};
use wavehacker::operations::normalize::Mode;
use wavehacker::progress::Progress;

#[test]
fn progress_reports_every_hundredth() {
    let mut p = Progress::new(250, "Analyzing sample");
    let reports: Vec<usize> = (0..10).filter_map(|_| if p.next() { Some(p.count()) } else { None }).collect();
    assert_eq!(reports, vec![2, 4, 6, 8, 10]);
    assert_eq!(p.total_count(), 250);
    assert_eq!(p.message(), "Analyzing sample");
}

#[test]
fn progress_on_short_streams_reports_every_item() {
    let mut p = Progress::new(7, String::from("Processing sample"));
    assert!(p.next());
    assert!(p.next());
    assert_eq!(p.count(), 2);
}

#[test]
fn frame_length_check() {
    assert_eq!(check_frame(2, 2), Ok(()));
    assert_eq!(check_frame(1, 2), Err(Error::InvalidFrame));
}

#[test]
fn error_messages() {
    assert_eq!(Error::InvalidArgument("ratio".to_string()).message(), "ratio");
    assert!(Error::Denormalized.message().contains("full-scale"));
    assert!(Error::InvalidFrame.message().contains("Frame"));
}

#[test]
fn normalize_modes() {
    assert_ne!(Mode::TruePeak, Mode::Lufs);
    assert_eq!(Mode::Rms, Mode::Rms);
}
