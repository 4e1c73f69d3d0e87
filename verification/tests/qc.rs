use gpw_uploader::qc::{
    estimates_vocals, full_scale, plan_stems, Layout, StemHead, Tally, INFINITY_BITS, SILENCE_BITS,
};

fn layout(channels: u16, rate: u32) -> Layout {
    Layout::of_header(channels, rate).unwrap()
}

#[test]
fn constants_are_the_bits_of_the_levels() {
    assert_eq!(SILENCE_BITS, 0.001f32.to_bits());
    assert_eq!(INFINITY_BITS, f32::INFINITY.to_bits());
}

#[test]
fn headers_without_channels_or_rate_are_refused() {
    assert_eq!(Layout::of_header(0, 44100).unwrap_err(), "Invalid WAV header");
    assert_eq!(Layout::of_header(2, 0).unwrap_err(), "Invalid WAV header");
    assert_eq!(layout(2, 44100), Layout { channels: 2, rate: 44100 });
}

#[test]
fn blocks_are_a_tenth_of_a_second() {
    assert_eq!(layout(2, 44100).hop_len(), 8820);
    assert_eq!(layout(1, 44105).hop_len(), 4410);
    assert_eq!(layout(2, 9).hop_len(), 2);
    assert_eq!(layout(65535, u32::MAX).hop_len(), 429_496_729 * 65_535);
}

#[test]
fn full_scale_values() {
    assert_eq!(full_scale(8), 128);
    assert_eq!(full_scale(16), 32_768);
    assert_eq!(full_scale(24), 8_388_608);
    assert_eq!(full_scale(32), 2_147_483_648);
}

#[test]
fn vocals_are_estimated_of_instrumentals() {
    assert!(estimates_vocals("extended_instrumental"));
    assert!(estimates_vocals("radio_instrumental_mixdown"));
    assert!(!estimates_vocals("extended_mix"));
}

#[test]
fn tally_finds_peak_and_last_loud_frame() {
    let mut t = Tally::new(layout(2, 44100));
    for s in [0.0f32, 0.5, -0.75, 0.25, 0.0005, -0.0009, 0.0, 0.0] {
        t.push(s.to_bits());
    }
    assert_eq!(t.count(), 8);
    let r = t.finish();
    assert_eq!(f32::from_bits(r.peak), 0.75);
    assert_eq!(r.last_loud_frame, Some(1));
    assert!(!r.is_silent);
    assert_eq!((r.samples, r.frames, r.has_rest), (8, 4, true));
}

#[test]
fn silence_has_no_loud_frame() {
    let mut t = Tally::new(layout(1, 44100));
    for s in [0.0f32, -0.0, 0.0009999, f32::NAN, -f32::NAN] {
        t.push(s.to_bits());
    }
    let r = t.finish();
    assert!(r.is_silent);
    assert_eq!(r.last_loud_frame, None);
    assert_eq!(f32::from_bits(r.peak), 0.0009999);
    // The level of silence itself is loud.
    let mut t = Tally::new(layout(1, 44100));
    t.push((-0.001f32).to_bits());
    t.push(f32::NAN.to_bits());
    let r = t.finish();
    assert!(!r.is_silent);
    assert_eq!(r.last_loud_frame, Some(0));
}

#[test]
fn infinity_is_the_highest_peak() {
    let mut t = Tally::new(layout(1, 44100));
    t.push(f32::NEG_INFINITY.to_bits());
    t.push(1.0f32.to_bits());
    assert_eq!(t.finish().peak, INFINITY_BITS);
}

#[test]
fn blocks_complete_in_step() {
    let mut t = Tally::new(layout(2, 20));
    let mut done = Vec::new();
    for i in 0..11u32 {
        assert_eq!(t.channel(), (i % 2) as usize);
        if t.push(0) {
            done.push((t.count(), t.frames()));
        }
    }
    assert_eq!(done, vec![(4, 2), (8, 4)]);
    assert_eq!(t.frames(), 4);
    let r = t.finish();
    assert_eq!((r.samples, r.frames, r.has_rest), (11, 5, true));
    let mut t = Tally::new(layout(2, 20));
    for _ in 0..4 {
        t.push(0);
    }
    let r = t.finish();
    assert_eq!((r.frames, r.has_rest), (2, false));
}

#[test]
fn empty_stream_is_silent() {
    let r = Tally::new(layout(2, 44100)).finish();
    assert!(r.is_silent && !r.has_rest);
    assert_eq!((r.peak, r.samples, r.frames, r.last_loud_frame), (0, 0, 0, None));
}

#[test]
fn stems_take_the_first_layout_and_the_longest_length() {
    let heads = vec![
        StemHead { channels: 0, rate: 44100, frames: 900 },
        StemHead { channels: 2, rate: 48000, frames: 100 },
        StemHead { channels: 1, rate: 44100, frames: 300 },
        StemHead { channels: 2, rate: 0, frames: 900 },
        StemHead { channels: 2, rate: 48000, frames: 200 },
    ];
    let plan = plan_stems(&heads).unwrap();
    assert_eq!(plan.layout, layout(2, 48000));
    assert_eq!((plan.frames, plan.count), (300, 3));
    assert!(!heads[0].readable() && heads[1].readable());
}

#[test]
fn stems_that_cannot_be_summed() {
    assert_eq!(plan_stems(&Vec::new()).unwrap_err(), "no stems");
    let heads = vec![StemHead { channels: 0, rate: 0, frames: 0 }];
    assert_eq!(plan_stems(&heads).unwrap_err(), "no readable stems");
}
