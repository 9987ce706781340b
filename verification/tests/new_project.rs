use ui::new_project::SeriesOption;

#[test]
fn series_option_label() {
    assert_eq!(SeriesOption { name: None }.label(), "No series");
    assert_eq!(SeriesOption { name: Some("Solo Leveling".to_string()) }.label(), "Solo Leveling");
}
