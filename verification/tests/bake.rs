use aviutl2_omt_live_output::bake::{BakeError, BakeJob, BakeOutcome, BakeStep};
use aviutl2_omt_live_output::media::MediaError;

fn frame(value: u8) -> Vec<u8> {
    let mut rgba = vec![value; 16 * 16 * 4];
    rgba[2] = 9;
    rgba
}

fn next(outcome: BakeOutcome) -> BakeJob {
    match outcome {
        BakeOutcome::Continue(job) => job,
        other => panic!("bake stopped: {other:?}"),
    }
}

#[test]
fn bake_walks_video_then_audio_for_each_frame() {
    let job = BakeJob::new("scene".into(), 0, 0, 30, 1, 48000, 1);
    assert_eq!(job.step(), BakeStep::Video(0));
    let job = next(job.resume(false));
    let job = next(job.on_video(false, 16, 16, 64, &frame(255)));
    assert_eq!(job.step(), BakeStep::Audio(0));
    let job = next(job.on_audio(false, &[1, 2], &[]));
    assert_eq!(job.step(), BakeStep::Video(1));
    let mut alpha = frame(255);
    alpha[3] = 0;
    let job = next(job.on_video(false, 16, 16, 64, &alpha));
    match job.on_audio(false, &[], &[5]) {
        BakeOutcome::Finished(scene) => {
            assert_eq!(scene.name, "scene");
            assert_eq!((scene.width, scene.height), (16, 16));
            assert!(scene.has_alpha);
            assert_eq!(scene.video.len(), 2);
            assert_eq!(&scene.video[0][0..4], &[9, 255, 255, 255]);
            assert_eq!(scene.audio, vec![(vec![1, 2], vec![1, 2]), (vec![5], vec![5])]);
            assert_eq!(scene.last_frame(), 1);
            assert_eq!(scene.frame_count(), 2);
        }
        other => panic!("bake did not finish: {other:?}"),
    }
}

#[test]
fn bake_stops_on_cancel_and_bad_frames() {
    let job = BakeJob::new("s".into(), 16, 16, 30, 1, 48000, 0);
    assert!(matches!(job.resume(true), BakeOutcome::Failed(BakeError::Cancelled)));
    let job = BakeJob::new("s".into(), 16, 16, 30, 1, 48000, 0);
    assert!(matches!(
        job.on_video(false, 8, 8, 32, &[0u8; 256]),
        BakeOutcome::Failed(BakeError::Media(MediaError::TooSmall { width: 8, height: 8 }))
    ));
    let job = BakeJob::new("s".into(), 16, 16, 30, 1, 48000, 0);
    assert!(matches!(
        job.on_video(true, 16, 16, 64, &frame(1)),
        BakeOutcome::Failed(BakeError::Cancelled)
    ));
    let job = BakeJob::new("s".into(), 16, 16, 30, 1, 48000, 0);
    let job = next(job.on_video(false, 16, 16, 64, &frame(1)));
    assert!(matches!(job.on_audio(true, &[], &[]), BakeOutcome::Failed(BakeError::Cancelled)));
}
