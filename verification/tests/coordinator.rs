use aviutl2_omt_live_output::sender::{drain_audio_priority, drop_channel, LatestSlot};

#[test]
fn video_latest_wins_and_audio_priority_on_overflow() {
    let mut video = LatestSlot::new();
    video.push(1u32);
    video.push(2u32);
    video.push(3u32);
    assert_eq!(video.drops(), 2);
    assert_eq!(video.take(), Some(3));

    let mut audio = drop_channel::<&'static str>(1);
    assert!(audio.try_send("a1"));
    assert!(!audio.try_send("a2"));
    assert_eq!(audio.drops(), 1);

    let mut order = Vec::new();
    let (blocks, frame) = drain_audio_priority(&mut audio, &mut video);
    for block in blocks {
        order.push(format!("audio:{block}"));
    }
    if let Some(frame) = frame {
        order.push(format!("video:{frame}"));
    }
    assert_eq!(order, ["audio:a1"]);
    assert_eq!(audio.drops(), 1);
}

#[test]
fn audio_queue_is_fifo_and_bounded() {
    let mut audio = drop_channel::<u32>(0);
    assert!(audio.try_send(7));
    assert!(!audio.try_send(8));
    assert_eq!(audio.try_recv(), Some(7));
    assert_eq!(audio.try_recv(), None);
    let mut audio = drop_channel::<u32>(3);
    assert!(audio.try_send(1));
    assert!(audio.try_send(2));
    assert!(audio.try_send(3));
    assert!(!audio.try_send(4));
    assert_eq!(audio.try_recv(), Some(1));
    assert!(audio.try_send(5));
    let mut video = LatestSlot::new();
    video.push("frame");
    let (blocks, frame) = drain_audio_priority(&mut audio, &mut video);
    assert_eq!(blocks, vec![2, 3, 5]);
    assert_eq!(frame, Some("frame"));
    assert_eq!(audio.try_recv(), None);
    assert_eq!(video.take(), None);
    assert_eq!(audio.drops(), 1);
    video.push("a");
    video.clear();
    assert_eq!(video.take(), None);
    assert_eq!(video.drops(), 0);
}

#[test]
fn every_pushed_frame_is_taken_dropped_or_waiting() {
    let mut slot = LatestSlot::new();
    let mut pushes = 0u64;
    let mut taken = 0u64;
    let mut waiting = 0u64;
    for round in 0..30u32 {
        slot.push(round);
        pushes += 1;
        waiting = 1;
        if round % 3 == 0 {
            slot.push(round + 100);
            pushes += 1;
        }
        if round % 4 == 0 {
            assert!(slot.take().is_some());
            taken += 1;
            waiting = 0;
        }
        if round % 7 == 2 {
            slot.clear();
            taken += waiting;
            waiting = 0;
        }
        assert_eq!(pushes, taken + slot.drops() + waiting);
    }
    assert_eq!(slot.take().is_some(), waiting == 1);
}

#[test]
fn closed_audio_queue_refuses_and_counts() {
    let mut tx = drop_channel::<u32>(4);
    assert!(tx.try_send(1));
    assert_eq!(tx.drops(), 0);
    tx.close();
    // With the receiving side gone, nothing is queued even though there is room.
    assert!(!tx.try_send(2));
    assert!(!tx.try_send(3));
    assert_eq!(tx.drops(), 2);
    assert!(tx.try_recv().is_none());
}
