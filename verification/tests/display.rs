//! The virtual display.

use phantom_screen_server::display::{
    display_lock_file, display_processes, parse_display_resolution, query_display_resolution,
    resize_display, stale_lock_file, start_xvfb, DisplayError, DisplayStep,
};
use phantom_screen_server::Config;

#[test]
fn resolution_is_found_in_the_output() {
    let text = "name of display:    :99\n  dimensions:    1920x1080 pixels (508x285 millimeters)\n";
    assert_eq!(parse_display_resolution(text), Ok((1920, 1080)));
    assert_eq!(query_display_resolution(text.as_bytes()), Ok((1920, 1080)));
    assert_eq!(query_display_resolution(b"\xFF\n\tdimensions: 3x4\r\n"), Ok((3, 4)));
}

#[test]
fn resolution_errors() {
    assert_eq!(parse_display_resolution(""), Err(DisplayError::NotFound));
    assert_eq!(parse_display_resolution("dimensions:"), Err(DisplayError::NotFound));
    assert_eq!(parse_display_resolution("dimensions: 12"), Err(DisplayError::NotFound));
    assert_eq!(parse_display_resolution("my dimensions: 1x2"), Err(DisplayError::NotFound));
    assert_eq!(parse_display_resolution("dimensions: ax2"), Err(DisplayError::InvalidWidth));
    assert_eq!(parse_display_resolution("dimensions: 65536x2"), Err(DisplayError::InvalidWidth));
    assert_eq!(parse_display_resolution("dimensions: 1x"), Err(DisplayError::InvalidHeight));
    assert_eq!(
        parse_display_resolution("dimensions: 12\ndimensions: 5x6"),
        Ok((5, 6)),
        "a line without a size is passed over"
    );
    assert_eq!(DisplayError::InvalidWidth.message(), "Invalid width from xdpyinfo");
    assert_eq!(DisplayError::InvalidHeight.message(), "Invalid height from xdpyinfo");
    assert_eq!(
        DisplayError::NotFound.message(),
        "Could not parse display resolution from xdpyinfo output"
    );
}

#[test]
fn processes_of_a_display() {
    let out = b"12 Xvfb :99 -screen 0\n13 Xvfb :98\nabc Xvfb :99\n  -7 x:99x\n\n";
    assert_eq!(display_processes(out, ":99"), ["12", "-7"]);
    assert!(display_processes(b"", ":99").is_empty());
}

#[test]
fn lock_files() {
    assert_eq!(stale_lock_file(12345), "/tmp/.X12345-lock");
    assert_eq!(display_lock_file(":99"), "/tmp/.X99-lock");
    assert_eq!(display_lock_file("::a"), "/tmp/.Xa-lock");
}

#[test]
fn displays_are_restarted_step_by_step() {
    let steps = resize_display(":99", 1280, 720, vec!["12".to_string()]);
    assert_eq!(steps.len(), 7);
    assert!(matches!(&steps[0], DisplayStep::Terminate { pid } if pid == "12"));
    assert!(matches!(steps[1], DisplayStep::Pause { millis: 200 }));
    assert!(matches!(&steps[2], DisplayStep::RemoveFile { path } if path == "/tmp/.X99-lock"));
    match &steps[3] {
        DisplayStep::StartXvfb { args } => assert_eq!(
            args[..],
            [
                ":99",
                "-screen",
                "0",
                "1280x720x24",
                "-ac",
                "+bs",
                "+extension",
                "RANDR",
                "+extension",
                "Composite"
            ]
        ),
        _ => panic!("Expected StartXvfb"),
    }
    assert!(matches!(steps[4], DisplayStep::Pause { millis: 300 }));
    assert!(matches!(
        &steps[5],
        DisplayStep::Shell { command } if command == "DISPLAY=:99 openbox &"
    ));
    assert!(matches!(steps[6], DisplayStep::Pause { millis: 100 }));
}

#[test]
fn displays_are_started_step_by_step() {
    let steps = start_xvfb(&Config { display: ":42".into(), ..Config::default() });
    assert!(matches!(&steps[0], DisplayStep::RemoveFile { path } if path == "/tmp/.X42-lock"));
    assert!(matches!(
        &steps[1],
        DisplayStep::StartXvfb { args } if args[0] == ":42" && args[3] == "1920x1080x24"
    ));
    assert!(matches!(steps[2], DisplayStep::Pause { millis: 300 }));
    assert_eq!(steps.len(), 3);
}
