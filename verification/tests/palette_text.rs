use mandlebrot::palettes::{import_colour_map_from_str, ColourPointText, MappingType, PaletteText};

fn point(r: &str, g: &str, b: &str, a: &str, percent: &str) -> ColourPointText {
    ColourPointText {
        r: r.to_string(),
        g: g.to_string(),
        b: b.to_string(),
        a: a.to_string(),
        percent: percent.to_string(),
    }
}

fn fields(p: &ColourPointText) -> [&str; 5] {
    [p.r.as_str(), p.g.as_str(), p.b.as_str(), p.a.as_str(), p.percent.as_str()]
}

fn same_palette(x: &PaletteText, y: &PaletteText) -> bool {
    x.mapping_type == y.mapping_type
        && x.palette_length == y.palette_length
        && x.offset == y.offset
        && x.colour_map.len() == y.colour_map.len()
        && x.colour_map.iter().zip(y.colour_map.iter()).all(|(a, b)| fields(a) == fields(b))
}

fn two_point_palette() -> PaletteText {
    PaletteText {
        colour_map: vec![point("1", "0", "0", "1", "0"), point("0", "0", "1", "1", "0.5")],
        mapping_type: MappingType::Repeated,
        palette_length: "0.25".to_string(),
        offset: "0".to_string(),
    }
}

#[test]
fn palette_text_layout() {
    assert_eq!(two_point_palette().get_export_string(), "#([1][0][0][1],0)([0][0][1][1],0.5)#1[0.25][0]");
}

#[test]
fn palette_text_reads_back() {
    for p in [
        two_point_palette(),
        PaletteText {
            colour_map: vec![point("0.1", "0.2", "0.3", "1", "0.75")],
            mapping_type: MappingType::Constant,
            palette_length: "1".to_string(),
            offset: "0.5".to_string(),
        },
    ] {
        let back = PaletteText::import_from_str(&p.get_export_string()).unwrap();
        assert!(same_palette(&back, &p));
    }
}

#[test]
fn reading_palette_text() {
    let p = PaletteText::import_from_str("#([1],0.5)#0[1][0]").unwrap();
    assert_eq!(p.colour_map.len(), 1);
    assert_eq!(fields(&p.colour_map[0]), ["1", "0", "0", "0", "0.5"]);
    assert_eq!(p.mapping_type, MappingType::Constant);
    assert!(PaletteText::import_from_str("").is_none());
    assert!(PaletteText::import_from_str("x").is_none());
    assert!(PaletteText::import_from_str("é#([1],0)#0[1][0]").is_none());
    assert!(PaletteText::import_from_str("#([1][2][3][4],5)#2[1][0]").is_none());
    assert!(PaletteText::import_from_str("#([1][2][3][4][5],0)#0[1][0]").is_none());
    assert!(PaletteText::import_from_str("#([1],0)#0").is_none());
}

#[test]
fn reading_colour_maps() {
    let m = import_colour_map_from_str("([1][2][3][4],5)([6][7][8][9],10)").unwrap();
    assert_eq!(m.len(), 2);
    assert_eq!(fields(&m[0]), ["1", "2", "3", "4", "5"]);
    assert_eq!(fields(&m[1]), ["6", "7", "8", "9", "10"]);
    let point = ColourPointText::import_from_str("([0.5][1][1][1],0.25)").unwrap();
    assert_eq!(fields(&point), ["0.5", "1", "1", "1", "0.25"]);
}
