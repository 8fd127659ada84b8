use mandlebrot::menu::{carousel_step, move_by_swaps, release_destination, MenuAction, MenuSignal, MenuState};
use mandlebrot::orbit_trap::{OrbitTrapAnalysis, OrbitTrapShape, OrbitTrapType};
use mandlebrot::palettes::MappingType;

#[test]
fn analysis_codes() {
    assert_eq!(OrbitTrapAnalysis::Distance.export_num(), "0");
    assert_eq!(OrbitTrapAnalysis::Angle.export_num(), "3");
    assert_eq!(OrbitTrapAnalysis::import_from_num('2'), OrbitTrapAnalysis::Imaginary);
    for a in OrbitTrapAnalysis::get_variants() {
        let code = a.export_num().chars().next().unwrap();
        assert_eq!(OrbitTrapAnalysis::import_from_num(code), a);
    }
    assert_eq!(OrbitTrapAnalysis::Real.get_string(), "Real");
}

#[test]
fn shape_codes() {
    assert_eq!(OrbitTrapShape::Cross.export_num(), "1");
    assert_eq!(OrbitTrapShape::import_from_num('2'), OrbitTrapShape::Circle);
    for s in OrbitTrapShape::get_variants() {
        let code = s.export_num().chars().next().unwrap();
        assert_eq!(OrbitTrapShape::import_from_num(code), s);
    }
    assert_eq!(OrbitTrapShape::get_variants(), vec![OrbitTrapShape::Point, OrbitTrapShape::Circle, OrbitTrapShape::Cross]);
    assert_eq!(OrbitTrapShape::Circle.get_string(), "Circle");
}

#[test]
fn mapping_codes() {
    assert_eq!(MappingType::Constant.export_num(), "0");
    assert_eq!(MappingType::import_from_num('1'), MappingType::Repeated);
    for m in MappingType::get_variants() {
        let code = m.export_num().chars().next().unwrap();
        assert_eq!(MappingType::import_from_num(code), m);
    }
    assert_eq!(MappingType::Repeated.get_string(), "Repeated");
}

fn trap(shape: OrbitTrapShape, re: &str, im: &str, analysis: OrbitTrapAnalysis, size: &str) -> OrbitTrapType {
    OrbitTrapType {
        shape,
        center_re: re.to_string(),
        center_im: im.to_string(),
        analysis,
        size: size.to_string(),
    }
}

fn same_trap(a: &OrbitTrapType, b: &OrbitTrapType) -> bool {
    a.shape == b.shape && a.center_re == b.center_re && a.center_im == b.center_im && a.analysis == b.analysis && a.size == b.size
}

#[test]
fn trap_text() {
    let cross = trap(OrbitTrapShape::Cross, "0.5", "-1", OrbitTrapAnalysis::Real, "0.25");
    assert_eq!(cross.get_export_str(), "1(0.5,-1)1[0.25]");
    let point = trap(OrbitTrapShape::Point, "0", "0", OrbitTrapAnalysis::Distance, "");
    assert_eq!(point.get_export_str(), "0(0,0)0[]");
}

#[test]
fn trap_text_reads_back() {
    for t in [
        trap(OrbitTrapShape::Cross, "0.5", "-1", OrbitTrapAnalysis::Real, "0.25"),
        trap(OrbitTrapShape::Circle, "-0.75", "0.1", OrbitTrapAnalysis::Angle, "2"),
        trap(OrbitTrapShape::Point, "1e-5", "3", OrbitTrapAnalysis::Imaginary, ""),
    ] {
        let back = OrbitTrapType::import_from_str(&t.get_export_str()).unwrap();
        assert!(same_trap(&back, &t));
    }
}

#[test]
fn reading_trap_text() {
    let t = OrbitTrapType::import_from_str("2(1,2)3[4.5]").unwrap();
    assert!(same_trap(&t, &trap(OrbitTrapShape::Circle, "1", "2", OrbitTrapAnalysis::Angle, "4.5")));
    // a point keeps no size
    let t = OrbitTrapType::import_from_str("0(1,2)0[9]").unwrap();
    assert_eq!(t.size, "");
    assert!(OrbitTrapType::import_from_str("").is_none());
    assert!(OrbitTrapType::import_from_str("1(1)0[1]").is_none());
    assert!(OrbitTrapType::import_from_str("1(1,2").is_none());
    assert!(OrbitTrapType::import_from_str("1(1,2)").is_none());
    assert!(OrbitTrapType::import_from_str("1(1,2)7[1]").is_none());
    assert!(OrbitTrapType::import_from_str("5(1,2)0[1]").is_none());
}

#[test]
fn trap_analysis_changes_alone() {
    let mut t = trap(OrbitTrapShape::Cross, "0.5", "-1", OrbitTrapAnalysis::Real, "0.25");
    t.set_analysis(OrbitTrapAnalysis::Angle);
    assert_eq!(t.get_analysis(), OrbitTrapAnalysis::Angle);
    assert_eq!(t.get_export_str(), "1(0.5,-1)3[0.25]");
}

#[test]
fn menu_pages() {
    assert_eq!(MenuState::map_button_states(0), MenuState::General);
    assert_eq!(MenuState::map_button_states(3), MenuState::Screenshot);
    assert_eq!(MenuState::map_button_states(-1), MenuState::General);
    assert_eq!(MenuState::map_button_states(9), MenuState::General);
    assert_eq!(MenuState::Video.map_state_indexes(), 4);
    assert_eq!(MenuState::Closed.map_state_indexes(), 7);
    assert_eq!(MenuState::UpdateGradient(2).map_state_indexes(), 8);
    assert!(MenuState::PaletteEditor.no_navbar());
    assert!(MenuState::VideoRecorder.no_navbar());
    assert!(!MenuState::Layers.no_navbar());
    assert_eq!(MenuState::LayerEditor.get_string(), "LAYER EDITOR");
    assert_eq!(MenuState::Closed.get_string(), "");
}

#[test]
fn menu_signals() {
    let mut s = MenuState::Layers;
    assert_eq!(s.process_signal(MenuSignal::Idle), MenuAction::Nothing);
    assert_eq!(s, MenuState::Layers);
    assert_eq!(s.process_signal(MenuSignal::OpenEditor(3)), MenuAction::OpenLayerIn { menu: 2, layer: 3 });
    assert_eq!(s, MenuState::LayerEditor);
    assert_eq!(s.process_signal(MenuSignal::OpenPalette(1)), MenuAction::OpenLayerIn { menu: 5, layer: 1 });
    assert_eq!(s, MenuState::PaletteEditor);
    assert_eq!(s.process_signal(MenuSignal::RefreshGradients), MenuAction::RefreshGradients);
    assert_eq!(s, MenuState::UpdateGradient(0));
    let mut v = MenuState::Video;
    assert_eq!(v.process_signal(MenuSignal::Import), MenuAction::RecreateAndRefresh(1));
    assert_eq!(v, MenuState::UpdateGradient(4));
    let mut g = MenuState::General;
    assert_eq!(g.process_signal(MenuSignal::RecordVideo), MenuAction::OpenLayerIn { menu: 6, layer: 0 });
    assert_eq!(g, MenuState::VideoRecorder);
}

#[test]
fn refresh_returns_to_the_page() {
    for page in [MenuState::General, MenuState::Layers, MenuState::LayerEditor, MenuState::Screenshot, MenuState::Video] {
        let mut s = page;
        s.refresh_gradients();
        assert_eq!(s.after_update(), page);
    }
    for page in [MenuState::PaletteEditor, MenuState::VideoRecorder] {
        let mut s = page;
        s.refresh_gradients();
        assert_eq!(s.after_update(), MenuState::General);
    }
    assert_eq!(MenuState::Layers.after_update(), MenuState::Layers);
}

#[test]
fn carousel_moves() {
    assert_eq!(carousel_step(1, 3, true, false, true), Some(0));
    assert_eq!(carousel_step(1, 3, false, true, true), Some(2));
    assert_eq!(carousel_step(0, 3, true, false, true), None);
    assert_eq!(carousel_step(2, 3, false, true, true), None);
    assert_eq!(carousel_step(1, 3, true, false, false), None);
    assert_eq!(carousel_step(0, 1, true, true, true), None);
}

#[test]
fn card_release() {
    assert_eq!(release_destination(2, 2, true), None);
    assert_eq!(release_destination(2, 4, false), None);
    assert_eq!(release_destination(1, 4, true), Some(3));
    assert_eq!(release_destination(4, 1, true), Some(1));
}

#[test]
fn moving_cards_by_swaps() {
    let mut v = vec!['a', 'b', 'c', 'd', 'e'];
    move_by_swaps(&mut v, 1, 3);
    assert_eq!(v, vec!['a', 'c', 'd', 'b', 'e']);
    let mut w = vec!['a', 'b', 'c', 'd', 'e'];
    move_by_swaps(&mut w, 4, 0);
    assert_eq!(w, vec!['e', 'a', 'b', 'c', 'd']);
    let mut u = vec![1, 2, 3];
    move_by_swaps(&mut u, 1, 1);
    assert_eq!(u, vec![1, 2, 3]);
}

#[test]
fn moving_cards_matches_remove_insert() {
    let base: Vec<u32> = (0..7).collect();
    for r in 0..7 {
        for d in 0..7 {
            let mut v = base.clone();
            move_by_swaps(&mut v, r, d);
            let mut w = base.clone();
            let x = w.remove(r);
            w.insert(d, x);
            assert_eq!(v, w);
        }
    }
}

#[test]
fn trap_variants_and_names() {
    let v = OrbitTrapType::get_variants();
    assert_eq!(v.len(), 3);
    assert_eq!(v[0].get_export_str(), "0(0,0)0[]");
    assert_eq!(v[1].get_export_str(), "2(0,0)0[1]");
    assert_eq!(v[2].get_export_str(), "1(0,0)0[1]");
    assert_eq!(v[1].get_string(), "Circle");
    assert!(v[0].eq(&trap(OrbitTrapShape::Point, "5", "5", OrbitTrapAnalysis::Angle, "")));
    assert!(!v[0].eq(&v[1]));
}

#[test]
fn unreadable_trap_size_reads_as_zero() {
    let t = OrbitTrapType::import_from_str("1(0.5,-1)1[x]").unwrap();
    assert_eq!(t.size, "0");
    assert_eq!(t.get_export_str(), "1(0.5,-1)1[0]");
    let t = OrbitTrapType::import_from_str("2(0,0)0[]").unwrap();
    assert_eq!(t.size, "0");
    let t = OrbitTrapType::import_from_str("2(0,0)0[1.50]").unwrap();
    assert_eq!(t.size, "1.50");
    let t = OrbitTrapType::import_from_str("1(0,0)0[-2.5e3]").unwrap();
    assert_eq!(t.size, "-2.5e3");
}
