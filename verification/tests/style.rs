use ui::style::{face_for_text, scan_nearest_weight, weight_from_value, weight_value, FaceInfo, FontStretch, FontStyle, Weight};

const ALL: [Weight; 9] = [
    Weight::Thin,
    Weight::ExtraLight,
    Weight::Light,
    Weight::Normal,
    Weight::Medium,
    Weight::Semibold,
    Weight::Bold,
    Weight::ExtraBold,
    Weight::Black,
];

#[test]
fn weight_numbers() {
    assert_eq!(weight_value(Weight::Thin), 100);
    assert_eq!(weight_value(Weight::Normal), 400);
    assert_eq!(weight_value(Weight::Bold), 700);
    assert_eq!(weight_value(Weight::Black), 900);
}

#[test]
fn weight_from_value_round_trips() {
    for w in ALL {
        assert_eq!(weight_from_value(weight_value(w)), w);
    }
}

#[test]
fn weight_from_value_picks_nearest_lighter_on_ties() {
    assert_eq!(weight_from_value(0), Weight::Thin);
    assert_eq!(weight_from_value(149), Weight::Thin);
    assert_eq!(weight_from_value(150), Weight::Thin);
    assert_eq!(weight_from_value(151), Weight::ExtraLight);
    assert_eq!(weight_from_value(350), Weight::Light);
    assert_eq!(weight_from_value(450), Weight::Normal);
    assert_eq!(weight_from_value(500), Weight::Medium);
    assert_eq!(weight_from_value(960), Weight::Black);
    assert_eq!(weight_from_value(u16::MAX), Weight::Black);
}

fn face(style: FontStyle, families: &[&str], weight: u16) -> FaceInfo {
    FaceInfo {
        style,
        stretch: FontStretch::Normal,
        families: families.iter().map(|f| f.to_string()).collect(),
        weight,
    }
}

#[test]
fn scan_finds_the_nearest_available_face() {
    let faces = vec![
        face(FontStyle::Normal, &["Minecraft"], 500),
        face(FontStyle::Normal, &["Other"], 400),
        face(FontStyle::Italic, &["Minecraft"], 400),
    ];
    let got = scan_nearest_weight(&faces, "Minecraft", Weight::Normal, FontStyle::Normal, FontStretch::Normal);
    assert_eq!(got, Some(Weight::Medium));
    let none = scan_nearest_weight(&faces, "Missing", Weight::Normal, FontStyle::Normal, FontStretch::Normal);
    assert_eq!(none, None);
    let cond = scan_nearest_weight(&faces, "Minecraft", Weight::Normal, FontStyle::Normal, FontStretch::Condensed);
    assert_eq!(cond, None);
}

#[test]
fn scan_keeps_the_first_of_equally_near_faces() {
    let faces = vec![
        face(FontStyle::Normal, &["Fam"], 300),
        face(FontStyle::Normal, &["Fam"], 500),
        face(FontStyle::Normal, &["Alias", "Fam"], 700),
    ];
    let got = scan_nearest_weight(&faces, "Fam", Weight::Normal, FontStyle::Normal, FontStretch::Normal);
    assert_eq!(got, Some(Weight::Light));
    let bold = scan_nearest_weight(&faces, "Fam", Weight::Bold, FontStyle::Normal, FontStretch::Normal);
    assert_eq!(bold, Some(Weight::Bold));
}

#[test]
fn cjk_text_drops_bold_and_italic() {
    assert_eq!(face_for_text(true, true, "Hello"), (FontStyle::Italic, Weight::Bold));
    assert_eq!(face_for_text(false, false, "Hello"), (FontStyle::Normal, Weight::Normal));
    assert_eq!(face_for_text(true, true, "안녕"), (FontStyle::Normal, Weight::Normal));
    assert_eq!(face_for_text(true, false, "Hi 你好"), (FontStyle::Normal, Weight::Normal));
}
