use aviutl2_omt_live_output::config::{ColorSpaceSetting, PluginConfig, QualitySetting};

fn config(name: &str, depth: usize, video: bool, audio: bool) -> PluginConfig {
    PluginConfig {
        source_name: name.to_string(),
        send_video: video,
        send_audio: audio,
        quality: QualitySetting::High,
        color_space: ColorSpaceSetting::Bt601,
        send_queue_depth: depth,
    }
}

#[test]
fn defaults() {
    let c = PluginConfig::default();
    assert_eq!(c.source_name, "AviUtl2");
    assert!(c.send_video && c.send_audio);
    assert_eq!(c.quality, QualitySetting::Default);
    assert_eq!(c.color_space, ColorSpaceSetting::Bt709);
    assert_eq!(c.send_queue_depth, 4);
    assert_eq!(QualitySetting::default(), QualitySetting::Default);
    assert_eq!(ColorSpaceSetting::default(), ColorSpaceSetting::Bt709);
}

#[test]
fn clamped_bounds_every_field() {
    let c = config("  \t ", 0, false, false).clamped();
    assert_eq!(c.source_name, "AviUtl2");
    assert_eq!(c.send_queue_depth, 1);
    assert!(c.send_video);
    assert!(!c.send_audio);
    assert_eq!(c.quality, QualitySetting::High);
    assert_eq!(c.color_space, ColorSpaceSetting::Bt601);

    let c = config("名前", 99, false, true).clamped();
    assert_eq!(c.source_name, "名前");
    assert_eq!(c.send_queue_depth, 16);
    assert!(!c.send_video && c.send_audio);

    let long: String = "あ".repeat(70);
    let c = config(&long, 8, true, false).clamped();
    assert_eq!(c.source_name.chars().count(), 63);
    assert_eq!(c.source_name, "あ".repeat(63));
    assert_eq!(c.send_queue_depth, 8);

    let c = config("\u{3000}\u{2003}", 4, true, true).clamped();
    assert_eq!(c.source_name, "AviUtl2");
}

#[test]
fn clamping_twice_is_clamping_once() {
    let once = config(" cam ", 20, false, false).clamped();
    let twice = once.clone().clamped();
    assert_eq!(once, twice);
}

#[test]
fn clamping_a_name_that_only_ends_in_text_can_blank_it() {
    let name = format!("{}x", " ".repeat(63));
    let once = config(&name, 4, true, true).clamped();
    assert_eq!(once.source_name, " ".repeat(63));
    assert_eq!(once.clone().clamped().source_name, "AviUtl2");
}

#[test]
fn labels_and_frame_types() {
    assert_eq!(QualitySetting::Medium.as_label(), "Medium");
    assert_eq!(ColorSpaceSetting::Bt601.as_label(), "BT.601");
    assert_eq!(QualitySetting::ALL.len(), 4);
    assert_eq!(ColorSpaceSetting::ALL, [ColorSpaceSetting::Bt601, ColorSpaceSetting::Bt709]);
    assert_eq!(config("a", 4, true, true).frame_types(), 7);
    assert_eq!(config("a", 4, true, false).frame_types(), 3);
    assert_eq!(config("a", 4, false, true).frame_types(), 5);
    assert_eq!(config("a", 4, false, false).frame_types(), 1);
}
