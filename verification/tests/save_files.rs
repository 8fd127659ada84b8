use mandlebrot::names::{contains_text, fill_name_template, get_unique_image_name, get_unique_video_name, replace_text};
use mandlebrot::saves::{
    read_param_value, read_video_save, save_video_text, Fractal, JuliaSeed, SaveRead, VideoTimestamp,
    VisualiserParams,
};
use mandlebrot::screen::ScreenDimensions;

fn julia(re: &str, im: &str) -> Fractal {
    Fractal::Julia(JuliaSeed::new(re.to_string(), im.to_string()))
}

fn same_fractal(a: &Fractal, b: &Fractal) -> bool {
    match (a, b) {
        (Fractal::Mandelbrot, Fractal::Mandelbrot) => true,
        (Fractal::Julia(x), Fractal::Julia(y)) => x.re == y.re && x.im == y.im,
        _ => false,
    }
}

fn params(fractal: Fractal, layers: &[&str]) -> VisualiserParams {
    VisualiserParams {
        fractal,
        center_re: "-0.5".to_string(),
        center_im: "0".to_string(),
        magnification: "1".to_string(),
        max_iterations: "250".to_string(),
        bailout2: "4".to_string(),
        layers: layers.iter().map(|l| l.to_string()).collect(),
    }
}

fn same_params(a: &VisualiserParams, b: &VisualiserParams) -> bool {
    same_fractal(&a.fractal, &b.fractal)
        && a.center_re == b.center_re
        && a.center_im == b.center_im
        && a.magnification == b.magnification
        && a.max_iterations == b.max_iterations
        && a.bailout2 == b.bailout2
        && a.layers == b.layers
}

#[test]
fn fractal_lines() {
    assert_eq!(Fractal::Mandelbrot.get_export_string(), "Mandelbrot");
    assert_eq!(julia("0.285", "0.01").get_export_string(), "Julia(0.285,0.01)");
    assert!(Fractal::Mandelbrot.is_mandelbrot());
    assert!(julia("1", "2").is_julia());
    assert!(!julia("1", "2").is_mandelbrot());
}

#[test]
fn reading_fractal_lines() {
    assert!(same_fractal(&Fractal::import_from_str("Mandelbrot").unwrap(), &Fractal::Mandelbrot));
    assert!(same_fractal(&Fractal::import_from_str("Julia(-0.8,0.156)").unwrap(), &julia("-0.8", "0.156")));
    assert!(same_fractal(&Fractal::import_from_str("Julia(1,2,3)").unwrap(), &julia("1", "2")));
    assert!(Fractal::import_from_str("Juli").is_none());
    assert!(Fractal::import_from_str("Newton").is_none());
    assert!(Fractal::import_from_str("Julia(1)").is_none());
    assert!(Fractal::import_from_str("Julia").is_none());
    let seed = JuliaSeed::import_from_str("1,2").unwrap();
    assert_eq!((seed.re.as_str(), seed.im.as_str()), ("1", "2"));
    assert_eq!(seed.get_export_string(), "1,2");
    assert!(JuliaSeed::import_from_str("12").is_none());
}

#[test]
fn fractal_line_reads_back() {
    for f in [Fractal::Mandelbrot, julia("-0.4", "0.6"), julia("", "")] {
        assert!(same_fractal(&Fractal::import_from_str(&f.get_export_string()).unwrap(), &f));
    }
}

#[test]
fn parameter_text() {
    let p = params(Fractal::Mandelbrot, &["layer a", "layer b"]);
    assert_eq!(
        p.format_params(),
        "Mandelbrot\ncenter (re): -0.5\ncenter (im): 0\nmagnification: 1\nmax iterations: 250\nbailout2: 4\n\nlayer a\nlayer b\n"
    );
    let q = params(julia("1", "2"), &[]);
    assert_eq!(
        q.format_params(),
        "Julia(1,2)\ncenter (re): -0.5\ncenter (im): 0\nmagnification: 1\nmax iterations: 250\nbailout2: 4\n\n"
    );
}

#[test]
fn reading_parameter_text() {
    let p = params(Fractal::Mandelbrot, &["layer a", "layer b"]);
    let back = VisualiserParams::import_from_str(&p.format_params()).unwrap();
    // the final line break leaves an empty last line among the layer lines
    assert_eq!(back.layers, vec!["layer a", "layer b", ""]);
    assert_eq!(back.center_re, "-0.5");
    assert_eq!(back.bailout2, "4");
    assert!(VisualiserParams::import_from_str("Mandelbrot\na: 1").is_none());
    assert!(VisualiserParams::import_from_str("Spiral\n1\n2\n3\n4\n5\n\n").is_none());
    let loose = VisualiserParams::import_from_str("Mandelbrot\n1\n2\n3\n4\n5\n").unwrap();
    assert_eq!(loose.center_re, "1");
    assert!(loose.layers.is_empty());
}

#[test]
fn labelled_values() {
    assert_eq!(read_param_value("center (re): -0.5"), "-0.5");
    assert_eq!(read_param_value("a: b: c"), "c");
    assert_eq!(read_param_value("none"), "none");
    assert_eq!(read_param_value("x: "), "");
}

#[test]
fn view_save_file() {
    let p = params(Fractal::Mandelbrot, &["layer a", "layer b"]);
    let saved = p.save_params_text();
    assert_eq!(saved, format!("{}19", p.format_params()));
}

#[test]
fn view_save_file_reads_back() {
    for p in [
        params(Fractal::Mandelbrot, &["layer a", "layer b"]),
        params(julia("-0.8", "0.156"), &[]),
        params(Fractal::Mandelbrot, &[""]),
    ] {
        match VisualiserParams::read_params_save(&p.save_params_text()) {
            SaveRead::Read(q) => assert!(same_params(&q, &p)),
            _ => panic!("the save file should read back"),
        }
    }
}

#[test]
fn broken_view_save_files() {
    let p = params(Fractal::Mandelbrot, &["layer a"]);
    let mut saved = p.save_params_text();
    saved.push('1');
    assert!(matches!(VisualiserParams::read_params_save(&saved), SaveRead::Ignored));
    assert!(matches!(VisualiserParams::read_params_save(""), SaveRead::Ignored));
    assert!(matches!(VisualiserParams::read_params_save("Nope\n0"), SaveRead::Malformed));
}

#[test]
fn timestamp_text_reads_back() {
    let t = VideoTimestamp { params: params(julia("0", "1"), &["l"]), percent: "0.5".to_string() };
    let text = t.get_save();
    assert_eq!(text, format!("{}0.5\n", t.params.format_params()));
    let back = VideoTimestamp::import_from_str(&text).unwrap();
    assert!(same_params(&back.params, &t.params));
    assert_eq!(back.percent, "0.5");
    let behind = VideoTimestamp::import_from_str(&format!("\n{}", text)).unwrap();
    assert!(same_params(&behind.params, &t.params));
    assert_eq!(behind.percent, "0.5");
}

#[test]
fn broken_timestamp_text() {
    assert!(VideoTimestamp::import_from_str("").is_none());
    assert!(VideoTimestamp::import_from_str("\n").is_none());
    assert!(VideoTimestamp::import_from_str("0.5\n").is_none());
}

#[test]
fn video_save_file() {
    let stamps = vec![
        VideoTimestamp { params: params(Fractal::Mandelbrot, &["a"]), percent: "0".to_string() },
        VideoTimestamp { params: params(julia("-0.8", "0.156"), &[]), percent: "1".to_string() },
    ];
    let dims = ScreenDimensions::new(800, 600);
    let text = save_video_text(&dims, 300, &stamps);
    assert!(text.starts_with("800x600,300\n"));
    let body = format!("800x600,300\n{}ts\n{}ts\n", stamps[0].get_save(), stamps[1].get_save());
    assert!(text.starts_with(&body));
    match read_video_save(&text) {
        SaveRead::Read(v) => {
            assert_eq!(v.dimensions, dims);
            assert_eq!(v.frames, 300);
            assert_eq!(v.timestamps.len(), 2);
            for (a, b) in v.timestamps.iter().zip(stamps.iter()) {
                assert!(same_params(&a.params, &b.params));
                assert_eq!(a.percent, b.percent);
            }
        },
        _ => panic!("the video save file should read back"),
    }
}

#[test]
fn empty_video_save_file() {
    let text = save_video_text(&ScreenDimensions::new(1920, 1080), 0, &vec![]);
    assert_eq!(text, "1080p,0\n9");
    match read_video_save(&text) {
        SaveRead::Read(v) => {
            assert_eq!(v.frames, 0);
            assert!(v.timestamps.is_empty());
        },
        _ => panic!("the video save file should read back"),
    }
}

#[test]
fn broken_video_save_files() {
    assert!(matches!(read_video_save("1x1,1\n4"), SaveRead::Ignored));
    assert!(matches!(read_video_save("bad\n0"), SaveRead::Ignored));
    assert!(matches!(read_video_save("1x1,1\njunkts\n3"), SaveRead::Malformed));
}

#[test]
fn replacing_like_std() {
    for (text, pattern, with) in [("a-[date]-[date]", "[date]", "X"), ("none", "[date]", "X"), ("aaa", "aa", "b"), ("", "x", "y")] {
        assert_eq!(replace_text(text, pattern, with), text.replace(pattern, with));
    }
}

#[test]
fn name_templates() {
    assert_eq!(fill_name_template("img-[date]-[time]", "20240101", "10_00_00"), "img-20240101-10_00_00");
    assert_eq!(fill_name_template("[time][time]", "d", "t"), "tt");
    assert_eq!(fill_name_template("plain", "d", "t"), "plain");
}

#[test]
fn unique_image_names() {
    let dims = ScreenDimensions::new(800, 600);
    let existing: Vec<String> = vec!["a_800x600.png".into(), "a(1)_800x600.png".into(), "b_800x600.png".into()];
    assert_eq!(get_unique_image_name("a", &dims, &existing), "a(1)(1)");
    assert_eq!(get_unique_image_name("c", &dims, &existing), "c");
    assert_eq!(get_unique_image_name("a", &dims, &vec![]), "a");
    let hd = ScreenDimensions::new(1920, 1080);
    assert_eq!(get_unique_image_name("a", &hd, &vec!["a_1080p.png".into()]), "a(1)");
}

#[test]
fn unique_video_names() {
    let existing: Vec<String> = vec!["v".into(), "v(1)".into()];
    assert_eq!(get_unique_video_name("v", &existing), "v(1)(1)");
    assert_eq!(get_unique_video_name("w", &existing), "w");
    assert!(contains_text(&existing, "v(1)"));
    assert!(!contains_text(&existing, "v(2)"));
}
