use aviutl2_omt_live_output::media::{
    audio_interval_ticks, format_bytes, downscale_bgra_to_rgba, estimate_bake_bytes, planar_f32_le,
    playhead_frame, rgba_to_tight_bgra, samples_per_frame, video_interval_ticks, MediaError,
    ticks_from_nanos, Playhead, SessionClock, TICKS_PER_SECOND,
};

fn bits(samples: &[f32]) -> Vec<u32> {
    samples.iter().map(|s| s.to_bits()).collect()
}

#[test]
fn padded_pitch_rgba_to_bgra_keeps_alpha() {
    let width = 16u32;
    let height = 16u32;
    let pitch = width * 4 + 8;
    let mut src = vec![0u8; (pitch * height) as usize];
    for y in 0..height as usize {
        for x in 0..width as usize {
            let i = y * pitch as usize + x * 4;
            src[i] = 10;
            src[i + 1] = 20;
            src[i + 2] = 30;
            src[i + 3] = if x == 0 && y == 0 { 128 } else { 255 };
        }
    }

    let converted = rgba_to_tight_bgra(width, height, pitch, &src).expect("convert");
    assert_eq!(converted.width, 16);
    assert_eq!(converted.height, 16);
    assert_eq!(converted.stride, 16 * 4);
    assert!(converted.has_alpha);
    assert_eq!(&converted.bgra[0..4], &[30, 20, 10, 128]);
    assert_eq!(&converted.bgra[4..8], &[30, 20, 10, 255]);
}

#[test]
fn opaque_rgba_does_not_set_alpha() {
    let width = 16u32;
    let height = 16u32;
    let pitch = width * 4;
    let src = vec![255u8; (pitch * height) as usize];
    let converted = rgba_to_tight_bgra(width, height, pitch, &src).expect("convert");
    assert!(!converted.has_alpha);
}

#[test]
fn rejects_video_smaller_than_16() {
    let src = vec![0u8; 8 * 8 * 4];
    assert!(rgba_to_tight_bgra(8, 8, 32, &src).is_err());
}

#[test]
fn planar_f32_little_endian_stereo() {
    let left = bits(&[1.0f32, -1.0]);
    let right = bits(&[0.5f32, 0.25]);
    let bytes = planar_f32_le(&[&left, &right]).expect("audio");
    assert_eq!(bytes.len(), 16);
    assert_eq!(&bytes[0..4], &1.0f32.to_le_bytes());
    assert_eq!(&bytes[4..8], &(-1.0f32).to_le_bytes());
    assert_eq!(&bytes[8..12], &0.5f32.to_le_bytes());
    assert_eq!(&bytes[12..16], &0.25f32.to_le_bytes());
}

#[test]
fn timestamps_are_100ns_and_monotonic_across_loop_and_seek() {
    let mut clock = SessionClock::new();
    let first = clock.next_monotonic();
    assert!(first >= 0);
    let second = clock.next_monotonic();
    assert!(second > first);

    let mut samples = vec![first, second];
    for _ in 0..8 {
        samples.push(clock.next_monotonic());
    }
    for pair in samples.windows(2) {
        assert!(pair[1] > pair[0], "timestamp went backwards: {pair:?}");
    }

    assert_eq!(video_interval_ticks(60, 1), TICKS_PER_SECOND / 60);
    assert_eq!(audio_interval_ticks(480, 48_000), TICKS_PER_SECOND / 100);
}

#[test]
fn playhead_jumps_instead_of_catching_up() {
    // Elapsed time is given in nanoseconds: 0 s, 1 s and 10 s.
    assert_eq!(playhead_frame(0, 30, 1, 99), Playhead::Frame(0));
    assert_eq!(playhead_frame(1_000_000_000, 30, 1, 99), Playhead::Frame(30));
    assert_eq!(playhead_frame(10_000_000_000, 30, 1, 99), Playhead::PastEnd);
}

#[test]
fn rgba_errors_name_the_problem() {
    let src = vec![0u8; 64 * 16];
    assert_eq!(
        rgba_to_tight_bgra(8, 16, 64, &src),
        Err(MediaError::TooSmall { width: 8, height: 16 })
    );
    assert_eq!(
        rgba_to_tight_bgra(16, 16, 60, &src),
        Err(MediaError::InvalidPitch { pitch: 60, width: 16 })
    );
    assert_eq!(
        rgba_to_tight_bgra(16, 16, 64, &src[..100]),
        Err(MediaError::BufferTooSmall { needed: 1024, actual: 100 })
    );
}

#[test]
fn rgba_swaps_red_and_blue_in_every_pixel() {
    let (w, h, pitch) = (16u32, 17u32, 70u32);
    let mut src = vec![0u8; (pitch * h) as usize];
    for (i, b) in src.iter_mut().enumerate() {
        *b = (i % 251) as u8;
    }
    let v = rgba_to_tight_bgra(w, h, pitch, &src).expect("convert");
    assert_eq!(v.bgra.len(), (w * h * 4) as usize);
    for y in 0..h as usize {
        for x in 0..w as usize {
            let s = y * pitch as usize + 4 * x;
            let d = y * (w as usize) * 4 + 4 * x;
            assert_eq!(v.bgra[d], src[s + 2]);
            assert_eq!(v.bgra[d + 1], src[s + 1]);
            assert_eq!(v.bgra[d + 2], src[s]);
            assert_eq!(v.bgra[d + 3], src[s + 3]);
        }
    }
}

#[test]
fn planar_errors_and_silent_channels() {
    let empty: Vec<u32> = Vec::new();
    assert_eq!(planar_f32_le(&[]), Err(MediaError::EmptyAudio));
    assert_eq!(planar_f32_le(&[&empty, &empty]), Err(MediaError::EmptyAudio));
    let one = bits(&[1.0]);
    let two = bits(&[1.0, 2.0]);
    assert_eq!(planar_f32_le(&[&one, &two]), Err(MediaError::ChannelLengthMismatch));
    let bytes = planar_f32_le(&[&empty, &two]).expect("audio");
    assert_eq!(bytes.len(), 16);
    assert_eq!(&bytes[0..8], &[0u8; 8]);
    assert_eq!(&bytes[8..12], &1.0f32.to_le_bytes());
    assert_eq!(&bytes[12..16], &2.0f32.to_le_bytes());
}

#[test]
fn interval_and_rate_arithmetic() {
    assert_eq!(video_interval_ticks(30000, 1001), 333_666);
    assert_eq!(video_interval_ticks(0, 0), TICKS_PER_SECOND);
    assert_eq!(audio_interval_ticks(-5, 48_000), 208);
    assert_eq!(samples_per_frame(48_000, 30000, 1001), 1601);
    assert_eq!(samples_per_frame(0, 0, 0), 1);
    assert_eq!(estimate_bake_bytes(1920, 1080, 10, 48_000, 30, 1), 10 * 1920 * 1080 * 4 + 10 * 1600 * 8);
    assert_eq!(estimate_bake_bytes(16, 16, 0, 48_000, 30, 1), 16 * 16 * 4 + 1600 * 8);
}

#[test]
fn playhead_follows_frame_rate_and_saturates() {
    assert_eq!(playhead_frame(1_001_000_000, 30000, 1001, 1000), Playhead::Frame(30));
    assert_eq!(playhead_frame(999_999_999, 1, 1, 5), Playhead::Frame(0));
    assert_eq!(playhead_frame(u64::MAX, 1000, 1, u32::MAX), Playhead::Frame(u32::MAX));
    assert_eq!(playhead_frame(5_000_000_000, -3, 0, 4), Playhead::PastEnd);
}

#[test]
fn clock_steps_past_stale_readings() {
    let mut clock = SessionClock::new();
    assert_eq!(clock.last(), -1);
    assert_eq!(clock.next_monotonic_at(5), 5);
    assert_eq!(clock.next_monotonic_at(3), 6);
    assert_eq!(clock.next_monotonic_at(6), 7);
    assert_eq!(clock.next_monotonic_at(100), 100);
    assert_eq!(clock.last(), 100);
}

#[test]
fn downscale_picks_nearest_pixels_as_rgba() {
    let (w, h) = (32u32, 16u32);
    let mut bgra = vec![0u8; (w * h * 4) as usize];
    for y in 0..h as usize {
        for x in 0..w as usize {
            let i = (y * w as usize + x) * 4;
            bgra[i] = x as u8;
            bgra[i + 1] = y as u8;
            bgra[i + 2] = 200;
            bgra[i + 3] = 255;
        }
    }
    let (dw, dh, rgba) = downscale_bgra_to_rgba(w, h, &bgra, 16).expect("preview");
    assert_eq!((dw, dh), (16, 8));
    assert_eq!(rgba.len(), 16 * 8 * 4);
    let px = |x: usize, y: usize| &rgba[(y * 16 + x) * 4..(y * 16 + x) * 4 + 4];
    assert_eq!(px(0, 0), &[200, 0, 0, 255]);
    assert_eq!(px(3, 5), &[200, 10, 6, 255]);
    assert_eq!(downscale_bgra_to_rgba(w, h, &bgra, 320).map(|p| (p.0, p.1)), Some((32, 16)));
    assert!(downscale_bgra_to_rgba(w, h, &bgra[..10], 16).is_none());
    assert!(downscale_bgra_to_rgba(8, 16, &bgra, 16).is_none());
    assert!(downscale_bgra_to_rgba(w, h, &bgra, 0).is_none());
}

#[test]
fn playhead_never_moves_backwards() {
    let mut previous = 0u32;
    for step in 0..40u64 {
        match playhead_frame(step * 37_000_000, 30000, 1001, 29) {
            Playhead::Frame(f) => {
                assert!(f >= previous);
                previous = f;
            }
            Playhead::PastEnd => {
                assert_eq!(playhead_frame((step + 1) * 37_000_000, 30000, 1001, 29), Playhead::PastEnd);
            }
        }
    }
}

fn format_bytes_by_float(bytes: u64) -> String {
    const KIB: f64 = 1024.0;
    const MIB: f64 = KIB * 1024.0;
    const GIB: f64 = MIB * 1024.0;
    let value = bytes as f64;
    if value >= GIB {
        format!("{:.2} GiB", value / GIB)
    } else if value >= MIB {
        format!("{:.1} MiB", value / MIB)
    } else if value >= KIB {
        format!("{:.0} KiB", value / KIB)
    } else {
        format!("{bytes} B")
    }
}

#[test]
fn format_bytes_examples() {
    assert_eq!(format_bytes(0), "0 B");
    assert_eq!(format_bytes(1023), "1023 B");
    assert_eq!(format_bytes(1024), "1 KiB");
    assert_eq!(format_bytes(1536), "2 KiB");
    assert_eq!(format_bytes(2560), "2 KiB");
    assert_eq!(format_bytes(3 * 1024 * 1024 / 2), "1.5 MiB");
    assert_eq!(format_bytes(5 << 18), "1.2 MiB");
    assert_eq!(format_bytes(7 << 18), "1.8 MiB");
    assert_eq!(format_bytes(9 << 27), "1.12 GiB");
    assert_eq!(format_bytes(11 << 27), "1.38 GiB");
    assert_eq!(format_bytes(1920 * 1080 * 4 * 600), "4.63 GiB");
    assert_eq!(format_bytes(u64::MAX), "17179869184.00 GiB");
}

#[test]
fn format_bytes_matches_float_formatting() {
    let mut values: Vec<u64> = Vec::new();
    for base in [1u64 << 10, 1 << 20, 1 << 30, 1 << 40, 1 << 53, 1 << 60, 1 << 63] {
        for k in 0..2000u64 {
            values.push(base.wrapping_mul(k) / 8 + k);
            values.push(base / 2 + base / 200 * k);
            values.push((base / 1000).wrapping_mul(k * 5 + 1) / 2);
        }
    }
    let mut x: u64 = 0x9E37_79B9_7F4A_7C15;
    for _ in 0..20000 {
        x ^= x << 13;
        x ^= x >> 7;
        x ^= x << 17;
        values.push(x >> (x % 60));
        values.push(x);
    }
    for shift in 53..64 {
        let base = 1u64 << shift;
        for d in 0..8u64 {
            values.push(base + (d << (shift - 53)) / 2);
            values.push(base.wrapping_sub(d));
        }
    }
    for odd in [9u64, 11, 13, 15, 25, 1001] {
        values.push(odd << 27);
        values.push(odd << 17);
        values.push(odd << 9);
    }
    values.push(u64::MAX);
    for v in values {
        assert_eq!(format_bytes(v), format_bytes_by_float(v), "bytes = {v}");
    }
}

#[test]
fn ticks_are_whole_hundreds_of_nanoseconds() {
    assert_eq!(ticks_from_nanos(0), 0);
    assert_eq!(ticks_from_nanos(99), 0);
    assert_eq!(ticks_from_nanos(12_345), 123);
    assert_eq!(ticks_from_nanos(1_000_000_000), TICKS_PER_SECOND);
    // Truncated to i64 as a cast does.
    assert_eq!(ticks_from_nanos((1u128 << 64) * 100 + 500), 5);
    let clock = SessionClock::new();
    assert!(clock.elapsed_ticks() >= 0);
}

#[test]
fn media_error_messages() {
    assert_eq!(
        MediaError::TooSmall { width: 8, height: 720 }.message(),
        "video 8x720 is smaller than the OMT minimum 16x16"
    );
    assert_eq!(
        MediaError::InvalidPitch { pitch: 100, width: 64 }.message(),
        "pitch 100 is smaller than width 64 * 4"
    );
    assert_eq!(
        MediaError::BufferTooSmall { needed: 4096, actual: 10 }.message(),
        "buffer has 10 bytes, need at least 4096"
    );
    assert_eq!(MediaError::EmptyAudio.message(), "audio buffer is empty");
    assert_eq!(
        MediaError::ChannelLengthMismatch.message(),
        "planar audio channels have different lengths"
    );
}

#[test]
fn preview_at_full_size_gives_back_the_rgba_frame() {
    let (w, h) = (16u32, 16u32);
    let src: Vec<u8> = (0..(w * h * 4)).map(|i| (i * 7 % 251) as u8).collect();
    let converted = rgba_to_tight_bgra(w, h, w * 4, &src).expect("convert");
    let (dw, dh, rgba) = downscale_bgra_to_rgba(w, h, &converted.bgra, w).expect("preview");
    assert_eq!((dw, dh), (w, h));
    assert_eq!(rgba, src);
    let (dw, dh, rgba) = downscale_bgra_to_rgba(w, h, &converted.bgra, 640).expect("preview");
    assert_eq!((dw, dh), (w, h));
    assert_eq!(rgba, src);
}
