//! The configuration.

use phantom_screen_server::config::{detect_encoder, http_port};
use phantom_screen_server::{Config, EncoderType};

#[test]
fn test_resolution_parsing() {
    let config = Config {
        display: ":99".into(),
        resolution: "1920x1080".into(),
        listen: "0.0.0.0:4443".parse().unwrap(),
        fps: 60,
        bitrate: 6000,
        keyframe_interval: 60,
        cert: None,
        key: None,
        client_dir: "../client/dist/standalone".into(),
        no_xvfb: false,
        wm: "openbox".into(),
        jwt_secret: None,
        ..Config::default()
    };

    assert_eq!(config.resolution_width(), 1920);
    assert_eq!(config.resolution_height(), 1080);
}

#[test]
fn test_resolution_parsing_custom() {
    let config = Config {
        display: ":1".into(),
        resolution: "2560x1440".into(),
        listen: "127.0.0.1:9000".parse().unwrap(),
        fps: 30,
        bitrate: 4000,
        keyframe_interval: 30,
        cert: Some("/path/to/cert.pem".into()),
        key: Some("/path/to/key.pem".into()),
        client_dir: "/var/www".into(),
        no_xvfb: true,
        wm: "fluxbox".into(),
        jwt_secret: Some("secret".into()),
        ..Config::default()
    };

    assert_eq!(config.resolution_width(), 2560);
    assert_eq!(config.resolution_height(), 1440);
    assert_eq!(config.display_num(), 1);
}

#[test]
fn test_resolution_parsing_invalid_fallback() {
    let config = Config {
        display: ":abc".into(),
        resolution: "invalid".into(),
        listen: "0.0.0.0:4443".parse().unwrap(),
        fps: 60,
        bitrate: 6000,
        keyframe_interval: 60,
        cert: None,
        key: None,
        client_dir: "../client/dist/standalone".into(),
        no_xvfb: false,
        wm: "openbox".into(),
        jwt_secret: None,
        ..Config::default()
    };

    assert_eq!(config.resolution_width(), 1920); // fallback
    assert_eq!(config.resolution_height(), 1080); // fallback
    assert_eq!(config.display_num(), 99); // fallback
}

#[test]
fn test_display_num() {
    let config = Config {
        display: ":42".into(),
        resolution: "1920x1080".into(),
        listen: "0.0.0.0:4443".parse().unwrap(),
        fps: 60,
        bitrate: 6000,
        keyframe_interval: 60,
        cert: None,
        key: None,
        client_dir: "../client/dist/standalone".into(),
        no_xvfb: false,
        wm: "openbox".into(),
        jwt_secret: None,
        ..Config::default()
    };
    assert_eq!(config.display_num(), 42);
}

#[test]
fn defaults_are_the_documented_ones() {
    let config = Config::default();
    assert_eq!(config.display, ":99");
    assert_eq!(config.resolution, "1920x1080");
    assert_eq!(config.listen, "0.0.0.0:4443");
    assert_eq!((config.fps, config.bitrate, config.keyframe_interval), (60, 6000, 60));
    assert_eq!(config.client_dir, "../client/dist/standalone");
    assert!(!config.no_xvfb);
    assert_eq!(config.wm, "openbox");
    assert!(config.cert.is_none() && config.key.is_none() && config.jwt_secret.is_none());
    assert_eq!(config.display_num(), 99);
}

#[test]
fn resolutions_in_odd_shapes() {
    let with = |resolution: &str| Config { resolution: resolution.into(), ..Config::default() };
    assert_eq!(with("640").resolution_width(), 640);
    assert_eq!(with("640").resolution_height(), 1080);
    assert_eq!(with("x480").resolution_width(), 1920);
    assert_eq!(with("x480").resolution_height(), 480);
    assert_eq!(with("+640x480x3").resolution_width(), 640);
    assert_eq!(with("4294967295x4294967296").resolution_width(), 4294967295);
    assert_eq!(with("4294967295x4294967296").resolution_height(), 1080);
    assert_eq!(with("-1x 2").resolution_width(), 1920);
    assert_eq!(with("").resolution_height(), 1080);
}

#[test]
fn stream_resolution_falls_back_to_the_display() {
    let mut config = Config::default();
    assert_eq!(config.stream_resolution_width(), 1920);
    config.stream_resolution = Some("1280x".into());
    assert_eq!(config.stream_resolution_width(), 1280);
    assert_eq!(config.stream_resolution_height(), 1080);
}

#[test]
fn display_numbers() {
    let with = |display: &str| Config { display: display.into(), ..Config::default() };
    assert_eq!(with("::7").display_num(), 7);
    assert_eq!(with("8").display_num(), 8);
    assert_eq!(with(":0.0").display_num(), 99);
}

#[test]
fn launch_apps_are_separated_by_commas() {
    let mut config = Config::default();
    assert_eq!(
        config.launch_app_list(),
        ["xterm", "firefox", "chromium --no-sandbox --disable-gpu", "l3afpad"]
    );
    config.launch_apps = " a b ,, c,".into();
    assert_eq!(config.launch_app_list(), ["a b", "c"]);
}

#[test]
fn encoders_by_preference() {
    assert_eq!(detect_encoder(true, true), EncoderType::Nvenc);
    assert_eq!(detect_encoder(false, true), EncoderType::Vaapi);
    assert_eq!(detect_encoder(false, false), EncoderType::X264);
}

#[test]
fn http_listens_on_the_next_port() {
    assert_eq!(http_port(4443), 4444);
}
