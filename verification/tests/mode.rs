use ui::mode::manual_banner_text;

#[test]
fn banner_names_the_mode() {
    let b = manual_banner_text(true, 0, false);
    assert_eq!(b.title, "Manual Inpaint Mode");
    assert_eq!(
        b.description,
        "Drag on the image to select areas to inpaint • Multiple selections"
    );
    let b = manual_banner_text(false, 0, false);
    assert_eq!(b.title, "Manual OCR Mode");
    assert_eq!(
        b.description,
        "Drag on the image to select text areas to OCR • Multiple selections"
    );
}

#[test]
fn banner_counts_selections() {
    assert_eq!(manual_banner_text(true, 0, false).count_label, "No selections");
    assert_eq!(manual_banner_text(true, 1, false).count_label, "1 selection");
    assert_eq!(manual_banner_text(true, 2, false).count_label, "2 selections");
    assert_eq!(manual_banner_text(false, 12345, false).count_label, "12345 selections");
    assert_eq!(manual_banner_text(true, 7, false).start_label, "Start Inpaint (7)");
    assert_eq!(manual_banner_text(false, 0, false).start_label, "Start OCR (0)");
    assert_eq!(manual_banner_text(false, 40, false).start_label, "Start OCR (40)");
    let n = usize::MAX;
    assert_eq!(manual_banner_text(false, n, false).start_label, format!("Start OCR ({n})"));
}

#[test]
fn banner_buttons_need_selections_and_an_idle_editor() {
    let b = manual_banner_text(true, 3, false);
    assert!(b.can_start && b.can_reset);
    let b = manual_banner_text(true, 3, true);
    assert!(!b.can_start && b.can_reset);
    let b = manual_banner_text(false, 0, false);
    assert!(!b.can_start && !b.can_reset);
}
