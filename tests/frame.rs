use wavehacker::frame::{ChannelMap, FrameIterator};

#[test]
fn frames_group_interleaved_samples() {
    let samples: Vec<Result<i32, String>> = vec![Ok(1), Ok(2), Ok(3), Ok(4), Ok(5), Ok(6), Ok(7)];
    let mut frames = FrameIterator::new(samples.into_iter(), 2);
    assert_eq!(frames.next(), Some(Ok(&vec![1, 2])));
    assert_eq!(frames.next(), Some(Ok(&vec![3, 4])));
    assert_eq!(frames.next(), Some(Ok(&vec![5, 6])));
    // A trailing incomplete frame ends the stream.
    assert_eq!(frames.next(), None);
    assert_eq!(frames.next(), None);
}

#[test]
fn frames_pass_decode_errors_through() {
    let samples: Vec<Result<f32, String>> =
        vec![Ok(0.5), Err("bad sample".to_string()), Ok(0.25), Ok(0.75), Ok(1.0)];
    let mut frames = FrameIterator::new(samples.into_iter(), 2);
    assert_eq!(frames.next(), Some(Err("bad sample".to_string())));
    assert_eq!(frames.next(), Some(Ok(&vec![0.25, 0.75])));
    assert_eq!(frames.next(), None);
}

#[test]
fn frames_of_empty_stream() {
    let samples: Vec<Result<i16, ()>> = vec![];
    let mut frames = FrameIterator::new(samples.into_iter(), 1);
    assert_eq!(frames.next(), None);
}

#[test]
fn channel_positions_and_weights() {
    assert_eq!(ChannelMap::from_index(0), Some(ChannelMap::Left));
    assert_eq!(ChannelMap::from_index(3), Some(ChannelMap::Lfe));
    assert_eq!(ChannelMap::from_index(7), Some(ChannelMap::SideRight));
    assert_eq!(ChannelMap::from_index(8), None);
    assert_eq!(ChannelMap::Left.weight_hundredths(), 100);
    assert_eq!(ChannelMap::Center.weight_hundredths(), 100);
    assert_eq!(ChannelMap::Lfe.weight_hundredths(), 0);
    assert_eq!(ChannelMap::RearLeft.weight_hundredths(), 141);
    assert_eq!(ChannelMap::SideLeft.weight_hundredths(), 141);
}
