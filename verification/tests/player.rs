use aviutl2_omt_live_output::bake::{BakeError, BakedScene};
use aviutl2_omt_live_output::player::{CuePlayer, SceneSummary, Transport};

fn scene(frames: usize) -> BakedScene {
    BakedScene {
        name: "t".into(),
        width: 16,
        height: 16,
        fps_n: 1000,
        fps_d: 1,
        sample_rate: 48000,
        has_alpha: false,
        video: vec![vec![0u8; 16]; frames],
        audio: vec![(vec![0.0f32.to_bits()], vec![0.0f32.to_bits()]); frames],
    }
}

#[test]
fn play_index_holds_first_then_jumps_to_last() {
    let mut player = CuePlayer::new();
    player.finish_bake(scene(10));
    assert_eq!(player.output_frame(), Some((0, false)));
    assert_eq!(player.transport(), Transport::HoldFirst);
    player.cue();
    // 20 ms after the cue.
    assert_eq!(player.output_frame_at(20_000_000), Some((9, false)));
    assert_eq!(player.transport(), Transport::HoldLast);
    player.cue();
    assert_eq!(player.output_frame(), Some((0, true)));
}

#[test]
fn playing_follows_the_clock_and_holds_the_end() {
    let mut player = CuePlayer::new();
    assert_eq!(player.output_frame_at(0), None);
    player.begin_bake(10);
    assert_eq!(player.transport(), Transport::Baking);
    assert_eq!(player.bake_progress(), (0, 10));
    assert_eq!(player.output_frame(), None);
    player.cue();
    assert_eq!(player.transport(), Transport::Baking);
    player.finish_bake(scene(10));
    assert!(player.cue_enabled());
    assert!(player.sending());
    player.cue();
    assert_eq!(player.output_frame_at(3_500_000), Some((3, true)));
    assert_eq!(player.output_frame_at(9_999_999), Some((9, true)));
    assert_eq!(player.transport(), Transport::Playing);
    assert_eq!(player.current_index(), 0);
    assert_eq!(player.output_frame_at(10_000_000), Some((9, false)));
    assert_eq!(player.output_frame_at(0), Some((9, false)));
    assert_eq!(player.current_index(), 9);
    player.clear();
    assert_eq!(player.transport(), Transport::Idle);
    assert!(player.cancel_requested());
    assert!(!player.cue_enabled());
    assert_eq!(player.bake_progress(), (0, 0));
}

#[test]
fn empty_scene_cannot_be_cued() {
    let mut player = CuePlayer::new();
    player.finish_bake(scene(0));
    player.cue();
    assert_eq!(player.transport(), Transport::HoldFirst);
    assert_eq!(player.output_frame(), Some((0, false)));
}

#[test]
fn bake_results_decide_the_stage() {
    let mut player = CuePlayer::new();
    player.begin_bake(3);
    assert_eq!(player.on_bake_done(Ok(scene(0))), Err(BakeError::Empty));
    assert_eq!(player.transport(), Transport::Idle);
    player.begin_bake(3);
    assert_eq!(player.on_bake_done(Err(BakeError::FrameCountMismatch)), Err(BakeError::FrameCountMismatch));
    player.begin_bake(3);
    assert_eq!(player.on_bake_done(Ok(scene(3))), Ok(()));
    assert_eq!(player.transport(), Transport::HoldFirst);
    assert_eq!(player.baked().map(|s| s.frame_count()), Some(3));
    player.begin_bake(3);
    player.request_cancel();
    assert_eq!(player.on_bake_done(Ok(scene(3))), Err(BakeError::Cancelled));
    assert_eq!(player.transport(), Transport::Idle);
    assert!(player.baked().is_none());
}

#[test]
fn preview_generations_count_up() {
    let mut player = CuePlayer::new();
    assert!(player.preview_snapshot().is_none());
    player.set_preview(2, 1, vec![1, 2, 3, 4, 5, 6, 7, 8]);
    player.set_preview(1, 1, vec![9, 9, 9, 9]);
    let p = player.preview_snapshot().expect("preview");
    assert_eq!((p.width, p.height, p.generation), (1, 1, 2));
    assert_eq!(p.rgba, vec![9, 9, 9, 9]);

    let mut frames = scene(2);
    frames.width = 32;
    frames.video = vec![vec![7u8; 32 * 16 * 4], vec![1u8, 2, 3, 4].repeat(32 * 16)];
    player.finish_bake(frames);
    player.update_preview(1);
    let p = player.preview_snapshot().expect("preview");
    assert_eq!((p.width, p.height, p.generation), (32, 16, 3));
    assert_eq!(&p.rgba[0..4], &[3, 2, 1, 4]);
    player.update_preview(5);
    assert_eq!(player.preview_snapshot().expect("preview").generation, 3);
}

#[test]
fn scene_summary_arithmetic() {
    let mut player = CuePlayer::new();
    let s = player.scene_snapshot();
    assert_eq!(s.name, "—");
    assert_eq!((s.width, s.fps_n, s.fps_d, s.sample_rate), (0, 30, 1, 48000));
    assert_eq!(s.last_frame(), 0);
    let s = s.with_edit_info(1920, 1080, 60000, 0, 299, 48000);
    assert_eq!((s.width, s.height, s.fps_n, s.fps_d, s.frame_count), (1920, 1080, 60000, 1, 300));
    assert_eq!(s.last_frame(), 299);
    assert_eq!(s.estimated_bytes(), 300 * 1920 * 1080 * 4 + 300 * 0 * 8);
    player.set_scene(s);
    player.set_scene_name("main".to_string());
    let s = player.scene_snapshot();
    assert_eq!(s.name, "main");
    assert_eq!(s.frame_count, 300);
    let d = SceneSummary::default();
    assert_eq!(d.estimated_bytes(), 1600 * 8);
    assert_eq!(Transport::HoldLast.as_label(), "最終ホールド");
    assert_eq!(Transport::Idle.as_label(), "待機");
}

fn fps_label_by_float(fps_n: i32, fps_d: i32) -> String {
    if fps_d <= 1 {
        format!("{}", fps_n.max(1))
    } else {
        format!("{:.3}", fps_n as f64 / fps_d.max(1) as f64)
    }
}

fn summary(fps_n: i32, fps_d: i32) -> SceneSummary {
    let mut s = SceneSummary::default();
    s.fps_n = fps_n;
    s.fps_d = fps_d;
    s
}

#[test]
fn fps_label_examples() {
    assert_eq!(summary(30, 1).fps_label(), "30");
    assert_eq!(summary(0, 0).fps_label(), "1");
    assert_eq!(summary(60000, 1001).fps_label(), "59.940");
    assert_eq!(summary(30000, 1001).fps_label(), "29.970");
    assert_eq!(summary(24000, 1001).fps_label(), "23.976");
    assert_eq!(summary(1, 2000).fps_label(), "0.001");
    assert_eq!(summary(-1, 3).fps_label(), "-0.333");
    assert_eq!(summary(0, 7).fps_label(), "0.000");
}

#[test]
fn fps_label_matches_float_formatting() {
    let mut cases: Vec<(i32, i32)> = Vec::new();
    for n in [0, 1, 2, 3, 5, 7, 24, 25, 30, 50, 60, 120, 1000, 24000, 30000, 48000, 60000, 120000] {
        for d in 0..=2100 {
            cases.push((n, d));
            cases.push((-n, d));
        }
    }
    for d in [2, 3, 7, 8, 16, 125, 1001, 2000, 4000, 1 << 20, i32::MAX] {
        for n in -3000..3000 {
            cases.push((n * 37, d));
        }
        cases.push((i32::MAX, d));
        cases.push((i32::MIN, d));
    }
    let mut x: u64 = 0x2545_F491_4F6C_DD1D;
    for _ in 0..50000 {
        x ^= x << 13;
        x ^= x >> 7;
        x ^= x << 17;
        let n = (x as i32) >> (x % 31);
        let d = ((x >> 32) as i32) >> ((x >> 8) % 31);
        cases.push((n, d));
    }
    for (n, d) in cases {
        assert_eq!(summary(n, d).fps_label(), fps_label_by_float(n, d), "fps {n}/{d}");
    }
}

#[test]
fn cue_again_restarts_from_the_first_frame() {
    let mut player = CuePlayer::new();
    player.finish_bake(scene(10));
    player.cue();
    assert_eq!(player.output_frame_at(5_500_000), Some((5, true)));
    // A second cue while playing restarts from the top.
    player.cue_at(std::time::Instant::now());
    assert_eq!(player.transport(), Transport::Playing);
    assert_eq!(player.output_frame(), Some((0, true)));
    assert_eq!(player.output_frame_at(999_999), Some((0, true)));
    // Nothing to restart without a scene.
    let mut idle = CuePlayer::new();
    idle.cue_at(std::time::Instant::now());
    assert_eq!(idle.transport(), Transport::Idle);
}
