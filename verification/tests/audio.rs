use airwire::audio::{collect_mono, frame_samples, is_overfull, mix_i16, mix_u16};

#[test]
fn frames_hold_a_fiftieth_of_a_second() {
    assert_eq!(frame_samples(48_000), 960);
    assert_eq!(frame_samples(44_100), 882);
    assert_eq!(frame_samples(49), 1);
    assert_eq!(frame_samples(0), 1);
}

#[test]
fn channels_are_mixed() {
    assert_eq!(mix_i16(&[100, 200, -3, 0], 2), vec![150, -1]);
    assert_eq!(mix_i16(&[1, 2, 3], 1), vec![1, 2, 3]);
    assert_eq!(mix_i16(&[10, 20, 30], 2), vec![15, 15]);
    assert_eq!(mix_i16(&[], 2), Vec::<i16>::new());
    assert_eq!(mix_i16(&[i16::MIN, i16::MIN], 2), vec![i16::MIN]);
    assert_eq!(mix_u16(&[0, 65_535, 32_768, 32_768], 2), vec![-1, 0]);
    assert_eq!(mix_u16(&[0], 1), vec![-32_768]);
    assert_eq!(mix_u16(&[65_535], 1), vec![32_767]);
}

#[test]
fn samples_are_cut_into_frames() {
    let mut pending = vec![1, 2];
    let frames = collect_mono(vec![3, 4, 5, 6, 7, 8], &mut pending, 3);
    assert_eq!(frames, vec![vec![1, 2, 3], vec![4, 5, 6]]);
    assert_eq!(pending, vec![7, 8]);
    assert!(collect_mono(vec![], &mut pending, 3).is_empty());
    assert_eq!(collect_mono(vec![9], &mut pending, 3), vec![vec![7, 8, 9]]);
    assert!(pending.is_empty());
}

#[test]
fn the_playback_queue_is_bounded() {
    assert!(!is_overfull(96_000, 48_000));
    assert!(is_overfull(96_001, 48_000));
}
