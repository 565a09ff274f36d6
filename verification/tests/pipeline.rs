//! The capture pipeline: sizes, descriptions, restarts.

use phantom_screen_server::config::{Config, EncoderType};
use phantom_screen_server::display::DisplayError;
use phantom_screen_server::pipeline::{
    build_pipeline_string, build_window_pipeline_string, clamp_to_display, pack_display_size,
    round_to_even, unpack_display_size, EncodedFrame, PipelineController, PipelineManager,
    PipelineStep, RestartStage, Watchdog,
};

fn default_config() -> Config {
    Config {
        display: ":99".into(),
        resolution: "1920x1080".into(),
        listen: "0.0.0.0:4443".parse().unwrap(),
        fps: 60,
        bitrate: 6000,
        keyframe_interval: 60,
        cert: None,
        key: None,
        client_dir: "../client/dist/standalone".into(),
        no_xvfb: false,
        wm: "openbox".into(),
        jwt_secret: None,
        post_start_command: None,
        stream_resolution: None,
        launch_apps: "xterm,firefox,chromium --no-sandbox --disable-gpu,l3afpad".into(),
        window_bitrate: 2000,
        max_window_pipelines: 8,
    }
}

#[test]
fn pipeline_string_no_scale_when_resolutions_match() {
    let config = default_config();
    let result = build_pipeline_string(&config, EncoderType::X264);
    assert!(!result.contains("videoscale"));
    assert!(result.contains("ximagesrc display-name=:99"));
    assert!(result.contains("framerate=60/1"));
    assert!(result.contains("x264enc name=encoder"));
    assert!(result.contains("bitrate=6000"));
    assert!(result.contains("key-int-max=60"));
    assert!(result.contains("appsink name=sink"));
}

#[test]
fn pipeline_string_includes_scale_when_stream_resolution_differs() {
    let mut config = default_config();
    config.stream_resolution = Some("1280x720".into());
    let result = build_pipeline_string(&config, EncoderType::X264);
    assert!(result.contains("videoscale"));
    assert!(result.contains("width=1280"));
    assert!(result.contains("height=720"));
}

#[test]
fn pipeline_string_no_scale_when_stream_resolution_matches_desktop() {
    let mut config = default_config();
    config.stream_resolution = Some("1920x1080".into());
    let result = build_pipeline_string(&config, EncoderType::X264);
    assert!(!result.contains("videoscale"));
}

#[test]
fn pipeline_string_nvenc_encoder() {
    let config = default_config();
    let result = build_pipeline_string(&config, EncoderType::Nvenc);
    assert!(result.contains("nvh264enc name=encoder"));
    assert!(result.contains("preset=low-latency-hq"));
    assert!(result.contains("rc-mode=cbr"));
    assert!(result.contains("zerolatency=true"));
    assert!(result.contains("gop-size=60"));
    assert!(!result.contains("x264enc"));
    assert!(!result.contains("vaapih264enc"));
}

#[test]
fn pipeline_string_vaapi_encoder() {
    let config = default_config();
    let result = build_pipeline_string(&config, EncoderType::Vaapi);
    assert!(result.contains("vaapih264enc name=encoder"));
    assert!(result.contains("rate-control=cbr"));
    assert!(result.contains("keyframe-period=60"));
    assert!(!result.contains("x264enc"));
    assert!(!result.contains("nvh264enc"));
}

#[test]
fn pipeline_string_x264_includes_videoconvert() {
    let config = default_config();
    let result = build_pipeline_string(&config, EncoderType::X264);
    assert!(result.contains("videoconvert"));
    assert!(result.contains("video/x-raw,format=I420"));
}

#[test]
fn pipeline_string_custom_display_and_fps() {
    let mut config = default_config();
    config.display = ":42".into();
    config.fps = 30;
    config.bitrate = 3000;
    config.keyframe_interval = 120;
    let result = build_pipeline_string(&config, EncoderType::X264);
    assert!(result.contains("display-name=:42"));
    assert!(result.contains("framerate=30/1"));
    assert!(result.contains("bitrate=3000"));
    assert!(result.contains("key-int-max=120"));
}

#[test]
fn pipeline_string_stream_resolution_with_nvenc() {
    let mut config = default_config();
    config.stream_resolution = Some("640x480".into());
    let result = build_pipeline_string(&config, EncoderType::Nvenc);
    assert!(result.contains("videoscale"));
    assert!(result.contains("width=640"));
    assert!(result.contains("height=480"));
    assert!(result.contains("nvh264enc name=encoder"));
}

#[test]
fn pipeline_string_always_has_byte_stream_format() {
    for encoder in [EncoderType::X264, EncoderType::Nvenc, EncoderType::Vaapi] {
        let result = build_pipeline_string(&default_config(), encoder);
        assert!(
            result.contains("stream-format=byte-stream"),
            "Missing byte-stream for {encoder:?}"
        );
        assert!(
            result.contains("alignment=au"),
            "Missing alignment=au for {encoder:?}"
        );
    }
}

// --- Even-dimension rounding tests ---

#[test]
fn round_to_even_odd_values() {
    assert_eq!(round_to_even(1), 2);
    assert_eq!(round_to_even(3), 4);
    assert_eq!(round_to_even(99), 100);
    assert_eq!(round_to_even(1079), 1080);
    assert_eq!(round_to_even(1919), 1920);
}

#[test]
fn round_to_even_even_values() {
    assert_eq!(round_to_even(2), 2);
    assert_eq!(round_to_even(4), 4);
    assert_eq!(round_to_even(100), 100);
    assert_eq!(round_to_even(1080), 1080);
    assert_eq!(round_to_even(1920), 1920);
}

#[test]
fn round_to_even_zero_returns_minimum() {
    // Zero dimensions would cause X11/GStreamer errors; must clamp to 2
    assert_eq!(round_to_even(0), 2);
}

#[test]
fn round_to_even_one_returns_two() {
    assert_eq!(round_to_even(1), 2);
}

#[test]
fn round_to_even_u16_max_no_overflow() {
    // u16::MAX = 65535 (odd). Without saturating_add, (65535 + 1) overflows
    // to 0, then & !1 = 0, producing a zero-dimension window.
    // With the fix, saturating_add(1) = 65535, & !1 = 65534.
    assert_eq!(round_to_even(u16::MAX), 65534);
}

#[test]
fn round_to_even_u16_max_minus_one() {
    // 65534 is already even
    assert_eq!(round_to_even(u16::MAX - 1), 65534);
}

// --- Display size packing/unpacking tests ---

#[test]
fn pack_unpack_display_size_round_trip() {
    let cases = [(1920, 1080), (1280, 720), (3840, 2160), (1, 1), (0, 0)];
    for (w, h) in cases {
        let packed = pack_display_size(w, h);
        let (uw, uh) = unpack_display_size(packed);
        assert_eq!((uw, uh), (w, h), "Round-trip failed for {}x{}", w, h);
    }
}

#[test]
fn pack_unpack_max_dimensions() {
    let packed = pack_display_size(u16::MAX, u16::MAX);
    let (w, h) = unpack_display_size(packed);
    assert_eq!(w, u16::MAX);
    assert_eq!(h, u16::MAX);
}

#[test]
fn pack_display_size_independent_fields() {
    // Verify width and height don't bleed into each other
    let packed = pack_display_size(0xFF00, 0x00FF);
    let (w, h) = unpack_display_size(packed);
    assert_eq!(w, 0xFF00);
    assert_eq!(h, 0x00FF);
}

// --- Display bounds clamping tests ---

#[test]
fn clamp_to_display_within_bounds() {
    let (w, h) = clamp_to_display(800, 600, 1920, 1080);
    assert_eq!((w, h), (800, 600));
}

#[test]
fn clamp_to_display_exceeds_width() {
    let (w, h) = clamp_to_display(2000, 600, 1920, 1080);
    assert_eq!((w, h), (1920, 600));
}

#[test]
fn clamp_to_display_exceeds_height() {
    let (w, h) = clamp_to_display(800, 1200, 1920, 1080);
    assert_eq!((w, h), (800, 1080));
}

#[test]
fn clamp_to_display_exceeds_both() {
    let (w, h) = clamp_to_display(2000, 1200, 1920, 1080);
    assert_eq!((w, h), (1920, 1080));
}

#[test]
fn clamp_to_display_exact_match() {
    let (w, h) = clamp_to_display(1920, 1080, 1920, 1080);
    assert_eq!((w, h), (1920, 1080));
}

#[test]
fn clamp_to_display_zero_display_passthrough() {
    // Zero display dimensions (uninitialized) should not clamp
    let (w, h) = clamp_to_display(2000, 1200, 0, 0);
    assert_eq!((w, h), (2000, 1200));
}

#[test]
fn clamp_to_display_zero_width_only_passthrough() {
    // Only one dimension zero — still passthrough (both must be > 0)
    let (w, h) = clamp_to_display(2000, 1200, 0, 1080);
    assert_eq!((w, h), (2000, 1200));
}

// --- Display size atomic update in PipelineManager ---

#[test]
fn pipeline_manager_set_display_size() {
    let mut pm = PipelineManager::new_for_test(true);
    pm.set_display_size(0);

    // Verify it was stored
    let stored = pm.display_size();
    assert!(stored.is_some());
    assert_eq!(stored.unwrap(), 0);
}

#[test]
fn window_pipeline_string_contains_xid() {
    let s = build_window_pipeline_string(":99", 12345, 30, 2000, 60, EncoderType::X264);
    assert!(s.contains("xid=12345"));
    assert!(s.contains("display-name=:99"));
    assert!(s.contains("framerate=30/1"));
    assert!(s.contains("bitrate=2000"));
}

#[test]
fn window_pipeline_string_nvenc() {
    let s = build_window_pipeline_string(":0", 999, 60, 3000, 30, EncoderType::Nvenc);
    assert!(s.contains("xid=999"));
    assert!(s.contains("nvh264enc"));
    assert!(s.contains("bitrate=3000"));
}

#[test]
fn window_pipeline_string_vaapi() {
    let s = build_window_pipeline_string(":1", 42, 24, 1500, 48, EncoderType::Vaapi);
    assert!(s.contains("xid=42"));
    assert!(s.contains("vaapih264enc"));
    assert!(s.contains("bitrate=1500"));
}

#[test]
fn pipeline_controller_running_state() {
    let pc = PipelineController::new_for_test(true);
    assert!(pc.is_running());

    let pc2 = PipelineController::new_for_test(false);
    assert!(!pc2.is_running());
}

#[test]
fn pipeline_controller_stop_changes_state() {
    let mut pc = PipelineController::new_for_test(true);
    assert!(pc.is_running());
    pc.stop();
    assert!(!pc.is_running());
}

#[test]
fn controller_keeps_the_bitrate_it_was_told() {
    let mut pc = PipelineController::new(6000);
    pc.set_bitrate(2500);
    assert_eq!(pc.bitrate(), 2500);
    assert!(pc.is_running());
}

#[test]
fn pipeline_string_word_for_word() {
    let mut config = default_config();
    config.stream_resolution = Some("1280x720".into());
    assert_eq!(
        build_pipeline_string(&config, EncoderType::X264),
        "ximagesrc display-name=:99 use-damage=0 show-pointer=true \
         ! video/x-raw,framerate=60/1 \
         ! videoscale ! video/x-raw,width=1280,height=720 \
         ! videoconvert ! video/x-raw,format=I420 ! \
         x264enc name=encoder tune=zerolatency speed-preset=ultrafast \
         bitrate=6000 key-int-max=60 bframes=0 \
         ! video/x-h264,stream-format=byte-stream,alignment=au \
         ! appsink name=sink emit-signals=true sync=false"
    );
    assert_eq!(
        build_pipeline_string(&default_config(), EncoderType::Nvenc),
        "ximagesrc display-name=:99 use-damage=0 show-pointer=true \
         ! video/x-raw,framerate=60/1 \
         ! nvh264enc name=encoder preset=low-latency-hq rc-mode=cbr \
         bitrate=6000 gop-size=60 bframes=0 zerolatency=true \
         ! video/x-h264,stream-format=byte-stream,alignment=au \
         ! appsink name=sink emit-signals=true sync=false"
    );
    assert_eq!(
        build_window_pipeline_string(":1", 42, 24, 1500, 48, EncoderType::Vaapi),
        "ximagesrc display-name=:1 xid=42 use-damage=0 show-pointer=true \
         ! video/x-raw,framerate=24/1 \
         ! vaapih264enc name=encoder rate-control=cbr bitrate=1500 keyframe-period=48 \
         ! video/x-h264,stream-format=byte-stream,alignment=au \
         ! appsink name=sink emit-signals=true sync=false"
    );
}

#[test]
fn sample_without_time_stamp_counts_as_first() {
    let frame = EncodedFrame::from_sample(vec![1, 2], None, true);
    assert_eq!((frame.data, frame.pts, frame.is_keyframe), (vec![1, 2], 0, false));
    let frame = EncodedFrame::from_sample(vec![], Some(7), false);
    assert_eq!((frame.pts, frame.is_keyframe), (7, true));
}

#[test]
fn resize_takes_its_steps_in_order() {
    let mut config = default_config();
    config.post_start_command = Some("xterm".into());
    config.stream_resolution = Some("640x480".into());
    let mut pm = PipelineManager::new(config, EncoderType::X264, true);
    pm.set_display_size(0);
    pm.set_bitrate(1234);
    let mut restart = pm.resize(1279, 719);
    assert!(pm.is_running());
    let steps = pm.advance(&mut restart);
    assert_eq!(steps.len(), 4);
    assert!(matches!(steps[0], PipelineStep::StopPipeline));
    assert!(matches!(steps[1], PipelineStep::RunPreResizeHooks));
    assert!(matches!(steps[2], PipelineStep::Pause { millis: 100 }));
    assert!(matches!(
        &steps[3],
        PipelineStep::RestartDisplay { display, width: 1280, height: 720 } if display == ":99"
    ));
    assert!(!steps[3].is_optional());
    assert!(steps[0].is_optional());
    assert!(!pm.is_running());
    assert_eq!(pm.current_resolution(), (1920, 1080));

    let steps = pm.advance(&mut restart);
    assert_eq!(pm.current_resolution(), (1280, 720));
    assert_eq!(pm.display_size(), Some((1280 << 16) | 720));
    assert_eq!(steps.len(), 4);
    assert!(matches!(steps[0], PipelineStep::Pause { millis: 50 }));
    assert!(matches!(steps[1], PipelineStep::ReconnectInput));
    assert!(matches!(
        &steps[2],
        PipelineStep::RunPostStartCommand { display, command }
            if display == ":99" && command == "xterm"
    ));
    assert!(matches!(
        &steps[3],
        PipelineStep::StartPipeline { description } if !description.contains("videoscale")
    ));
    assert!(!steps[3].is_optional());

    let steps = pm.advance(&mut restart);
    assert!(matches!(steps[0], PipelineStep::PublishFrames));
    assert!(matches!(steps[1], PipelineStep::RunPostResizeHooks));
    assert_eq!(steps.len(), 2);
    assert!(pm.is_running());
    assert_eq!(pm.controller().bitrate(), 6000);
    assert!(pm.advance(&mut restart).is_empty());
    assert_eq!(pm.resize(1280, 720).stage, RestartStage::Done);
    let mut again = pm.resize(1279, 719);
    assert!(pm.advance(&mut again).is_empty());
    assert!(pm.is_running());
}

#[test]
fn recovery_restarts_at_the_same_size() {
    let mut pm = PipelineManager::new_for_test(true);
    let mut restart = pm.recover();
    let steps = pm.advance(&mut restart);
    assert!(matches!(
        steps[3],
        PipelineStep::RestartDisplay { width: 1920, height: 1080, .. }
    ));
    assert!(!pm.is_running());
    let steps = pm.advance(&mut restart);
    assert_eq!(steps.len(), 2);
    assert!(matches!(steps[1], PipelineStep::StartPipeline { .. }));
    assert_eq!(pm.advance(&mut restart).len(), 2);
    assert!(pm.is_running());
    assert_eq!(pm.display_size(), None);
}

#[test]
fn external_changes_are_noticed() {
    let mut pm = PipelineManager::new_for_test(true);
    pm.set_display_size(5);
    assert_eq!(pm.external_change(Ok((1920, 1080))), None);
    assert_eq!(pm.external_change(Err(DisplayError::NotFound)), None);
    assert_eq!(pm.external_change(Ok((1280, 720))), Some((1280, 720)));
    let mut restart = pm.restart_pipeline(1280, 720);
    let steps = pm.advance(&mut restart);
    assert_eq!(steps.len(), 3);
    assert!(matches!(steps[0], PipelineStep::StopPipeline));
    assert!(matches!(steps[1], PipelineStep::Pause { millis: 50 }));
    assert!(matches!(steps[2], PipelineStep::StartPipeline { .. }));
    assert!(!pm.is_running());
    assert_eq!(pm.advance(&mut restart).len(), 1);
    assert!(pm.is_running());
    assert_eq!(pm.display_size(), Some(5));
    assert!(pm.advance(&mut restart).is_empty());
    assert_eq!(pm.external_change(Ok((1280, 720))), None);
}

#[test]
fn external_change_to_an_odd_size_does_not_settle() {
    let mut pm = PipelineManager::new_for_test(true);
    let mut restart = pm.restart_pipeline(1365, 767);
    pm.advance(&mut restart);
    assert_eq!(pm.current_resolution(), (1366, 768));
    assert_eq!(pm.external_change(Ok((1365, 767))), Some((1365, 767)));
}

#[test]
fn dimensions_beyond_sixteen_bits_are_cut() {
    let mut config = default_config();
    config.resolution = "65537x65536".into();
    let pm = PipelineManager::new(config, EncoderType::X264, false);
    assert_eq!(pm.current_resolution(), (1, 0));
}

#[test]
fn watchdog_recovers_after_failures_in_a_row() {
    let mut dog = Watchdog::new(3);
    let seen: Vec<bool> = [false, false, true, false, false, false, false]
        .iter()
        .map(|alive| dog.observe(*alive))
        .collect();
    assert_eq!(seen, [false, false, false, false, false, true, false]);
    let mut eager = Watchdog::new(0);
    assert!(eager.observe(false));
    assert!(eager.observe(false));
    assert!(!eager.observe(true));
}

#[test]
fn a_resize_that_was_done_meanwhile_is_not_done_again() {
    let mut pm = PipelineManager::new_for_test(true);
    let first = pm.resize(1281, 720);
    let second = pm.resize(1282, 719);
    let mut restart = pm.plan_again(first);
    assert_eq!(restart, first);
    while !pm.advance(&mut restart).is_empty() {}
    assert_eq!(pm.current_resolution(), (1282, 720));
    let mut restart = pm.plan_again(second);
    assert!(pm.advance(&mut restart).is_empty());
}
