use mandlebrot::screen::{str_equals, ScreenDimensions, ScreenshotResolution};
use mandlebrot::video::{frame_image_name, parse_video_header, progress_counts, total_frames, video_header};

#[test]
fn named_dimensions() {
    assert_eq!(ScreenDimensions::new(1920, 1080).to_string(), "1080p");
    assert_eq!(ScreenDimensions::new(3840, 2160).to_string(), "4k");
    assert_eq!(ScreenDimensions::new(7680, 4320).to_string(), "8k");
    assert_eq!(ScreenDimensions::new(800, 600).to_string(), "800x600");
    assert_eq!(ScreenDimensions::from_tuple(ScreenDimensions::tuple_4k()).to_string(), "4k");
    assert_eq!(ScreenDimensions::tuple_8k(), (7680, 4320));
    assert_eq!(ScreenDimensions::tuple_1080p(), (1920, 1080));
}

#[test]
fn reading_dimensions() {
    let d = ScreenDimensions::from_str("1080p").unwrap();
    assert_eq!((d.width(), d.height()), (1920, 1080));
    let d = ScreenDimensions::from_str("800x600").unwrap();
    assert_eq!((d.width(), d.height()), (800, 600));
    assert_eq!(ScreenDimensions::from_str("800").unwrap_err(), "incorrect number of dimensions");
    assert_eq!(ScreenDimensions::from_str("1x2x3").unwrap_err(), "incorrect number of dimensions");
    assert_eq!(ScreenDimensions::from_str("ax600").unwrap_err(), "unable to parse width");
    assert_eq!(ScreenDimensions::from_str("800x").unwrap_err(), "unable to parse height");
}

#[test]
fn dimensions_read_back() {
    for (x, y) in [(1920, 1080), (3840, 2160), (7680, 4320), (800, 600), (0, 0), (1, 12345)] {
        let d = ScreenDimensions::new(x, y);
        let back = ScreenDimensions::from_str(&d.to_string()).unwrap();
        assert_eq!(back, d);
    }
}

#[test]
fn pixel_count() {
    assert_eq!(ScreenDimensions::new(800, 600).numpixels(), 480000);
}

#[test]
fn text_equality() {
    assert!(str_equals("abc", "abc"));
    assert!(!str_equals("abc", "abd"));
    assert!(!str_equals("ab", "abc"));
}

#[test]
fn frame_names_are_padded() {
    assert_eq!(frame_image_name(100, 7), "007");
    assert_eq!(frame_image_name(9, 3), "3");
    assert_eq!(frame_image_name(1000, 42), "0042");
    assert_eq!(frame_image_name(10, 10), "10");
    assert_eq!(frame_image_name(10, 0), "00");
}

#[test]
fn frame_counts() {
    assert_eq!(total_frames(10, 30), 300);
    assert_eq!(progress_counts(100, 2, 50, 10), (250, 1000));
}

#[test]
fn video_header_line() {
    assert_eq!(video_header(&ScreenDimensions::new(800, 600), 300), "800x600,300\n");
    assert_eq!(video_header(&ScreenDimensions::new(1920, 1080), 5), "1080p,5\n");
}

#[test]
fn reading_video_headers() {
    let (d, f) = parse_video_header("800x600,300").unwrap();
    assert_eq!((d.width(), d.height(), f), (800, 600, 300));
    let (d, f) = parse_video_header("1080p,5").unwrap();
    assert_eq!((d.width(), d.height(), f), (1920, 1080, 5));
    assert!(parse_video_header("800x600").is_none());
    assert!(parse_video_header("800x600,x").is_none());
    assert!(parse_video_header("a,b,c").is_none());
    assert!(parse_video_header("800,5").is_none());
}

#[test]
fn video_header_reads_back() {
    for (x, y, f) in [(800, 600, 300), (3840, 2160, 1), (7, 9, 0)] {
        let line = video_header(&ScreenDimensions::new(x, y), f);
        let (d, frames) = parse_video_header(line.trim_end_matches('\n')).unwrap();
        assert_eq!((d.width(), d.height(), frames), (x, y, f));
    }
}

#[test]
fn screenshot_resolutions() {
    let d = ScreenshotResolution::R4k.to_screen_dimensions(10, 20);
    assert_eq!((d.width(), d.height()), (3840, 2160));
    let c = ScreenshotResolution::Custom.to_screen_dimensions(10, 20);
    assert_eq!((c.width(), c.height()), (10, 20));
    assert_eq!(ScreenshotResolution::get_variants().len(), 4);
    assert_eq!(ScreenshotResolution::Custom.get_string(), "Custom");
    for r in [ScreenshotResolution::R1080p, ScreenshotResolution::R4k, ScreenshotResolution::R8k] {
        assert_eq!(r.to_screen_dimensions(1, 1).to_string(), r.get_string());
    }
}
