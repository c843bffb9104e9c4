use aviutl2_omt_live_output::bake::BakedScene;
use aviutl2_omt_live_output::config::{ColorSpaceSetting, PluginConfig};
use aviutl2_omt_live_output::media::{MediaError, SessionClock};
use aviutl2_omt_live_output::playback::{
    check_bake_start, check_not_baking, fits_output, frame_period, push_output, BakeStartError,
};
use aviutl2_omt_live_output::player::{SceneSummary, Transport};
use aviutl2_omt_live_output::sender::{drop_channel, LatestSlot};

fn baked() -> BakedScene {
    BakedScene {
        name: "s".into(),
        width: 16,
        height: 16,
        fps_n: 30,
        fps_d: 1,
        sample_rate: 48000,
        has_alpha: true,
        video: vec![vec![1u8; 4], vec![2u8; 4]],
        audio: vec![(vec![1.0f32.to_bits(), 2.0f32.to_bits()], vec![]), (vec![], vec![])],
    }
}

#[test]
fn push_output_hands_video_and_audio_to_the_sender() {
    let mut config = PluginConfig::default();
    config.color_space = ColorSpaceSetting::Bt601;
    let mut clock = SessionClock::new();
    let mut slot = LatestSlot::new();
    let mut audio = Some(drop_channel(4));
    assert_eq!(push_output(&config, &baked(), 0, true, &mut clock, &mut slot, &mut audio), Ok(()));
    let video = slot.take().expect("video");
    assert_eq!(video.bgra, vec![1u8; 4]);
    assert_eq!((video.width, video.stride, video.fps_n), (16, 64, 30));
    assert!(video.has_alpha);
    assert_eq!(video.color_space, ColorSpaceSetting::Bt601);
    assert_eq!(video.timestamp, clock.last());
    let job = audio.as_mut().unwrap().try_recv().expect("audio");
    assert_eq!(job.samples_per_channel, 2);
    assert_eq!(job.channels, 2);
    assert_eq!(job.timestamp, video.timestamp);
    let mut expected = Vec::new();
    for s in [1.0f32, 2.0, 0.0, 0.0] {
        expected.extend_from_slice(&s.to_le_bytes());
    }
    assert_eq!(job.data, expected);

    // Held frames send silence of the expected length.
    assert_eq!(push_output(&config, &baked(), 1, false, &mut clock, &mut slot, &mut audio), Ok(()));
    assert_eq!(slot.take().expect("video").bgra, vec![2u8; 4]);
    let job = audio.as_mut().unwrap().try_recv().expect("audio");
    assert_eq!(job.data, vec![0u8; 16]);

    // Past the end nothing is sent and no timestamp is taken.
    let last = clock.last();
    assert_eq!(push_output(&config, &baked(), 2, true, &mut clock, &mut slot, &mut audio), Ok(()));
    assert_eq!(clock.last(), last);
    assert!(slot.take().is_none());
}

#[test]
fn push_output_reports_unencodable_audio() {
    let mut config = PluginConfig::default();
    config.send_video = false;
    let mut scene = baked();
    scene.audio[0] = (vec![1, 2, 3], vec![4]);
    let mut clock = SessionClock::new();
    let mut slot = LatestSlot::new();
    let mut audio = Some(drop_channel(4));
    assert_eq!(
        push_output(&config, &scene, 0, true, &mut clock, &mut slot, &mut audio),
        Err(MediaError::ChannelLengthMismatch)
    );
    assert!(slot.take().is_none());
    assert!(audio.as_mut().unwrap().try_recv().is_none());
}

#[test]
fn frame_period_and_bake_start() {
    assert_eq!(frame_period(60, 1), 16_666_666);
    assert_eq!(frame_period(0, 0), 1_000_000_000);
    let mut scene = SceneSummary::default();
    assert_eq!(check_bake_start(&scene, true), Err(BakeStartError::InvalidScene));
    scene.width = 16;
    scene.height = 16;
    scene.frame_count = 1;
    assert_eq!(check_bake_start(&scene, false), Err(BakeStartError::EditHandleNotReady));
    assert_eq!(check_bake_start(&scene, true), Ok(()));
}

#[test]
fn output_fits_within_vector_limits() {
    let scene = baked();
    assert!(fits_output(&scene, 0, true));
    let mut huge = baked();
    huge.audio.clear();
    huge.sample_rate = i32::MAX;
    huge.fps_n = 1;
    huge.fps_d = i32::MAX;
    // i32::MAX * i32::MAX samples per frame cannot be allocated.
    assert!(!fits_output(&huge, 0, false));
}

#[test]
fn push_output_past_the_end_needs_no_audio_room() {
    let config = PluginConfig::default();
    let scene = baked();
    // No frame 5: nothing is allocated or sent, whatever the audio holds.
    let mut clock = SessionClock::new();
    let mut slot = LatestSlot::new();
    let mut audio = Some(drop_channel(4));
    let last = clock.last();
    assert_eq!(push_output(&config, &scene, 5, true, &mut clock, &mut slot, &mut audio), Ok(()));
    assert_eq!(clock.last(), last);
    assert!(slot.take().is_none());
    assert!(audio.as_mut().unwrap().try_recv().is_none());
    // With audio off only the video goes out.
    let mut config = PluginConfig::default();
    config.send_audio = false;
    assert_eq!(push_output(&config, &scene, 0, true, &mut clock, &mut slot, &mut audio), Ok(()));
    assert_eq!(slot.take().expect("video").bgra, vec![1u8; 4]);
    assert!(audio.as_mut().unwrap().try_recv().is_none());
}

#[test]
fn a_second_bake_request_is_refused_while_baking() {
    assert_eq!(check_not_baking(Transport::Baking), Err(BakeStartError::AlreadyBaking));
    for t in [Transport::Idle, Transport::HoldFirst, Transport::Playing, Transport::HoldLast] {
        assert_eq!(check_not_baking(t), Ok(()));
    }
}

#[test]
fn push_output_after_the_sender_stopped_counts_the_audio_as_dropped() {
    let config = PluginConfig::default();
    let mut clock = SessionClock::new();
    let mut slot = LatestSlot::new();
    let mut tx = drop_channel(4);
    tx.close();
    let mut audio = Some(tx);
    assert_eq!(push_output(&config, &baked(), 0, true, &mut clock, &mut slot, &mut audio), Ok(()));
    assert_eq!(audio.as_ref().unwrap().drops(), 1);
    assert!(audio.as_mut().unwrap().try_recv().is_none());
    assert!(slot.take().is_some());
}
