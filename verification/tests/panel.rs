use ui::panel::{checker_pixels, file_name, InpaintBackend, PanelBackend, CHECKER_SIDE};

#[test]
fn file_name_takes_the_last_component() {
    assert_eq!(file_name("C:\\pages\\01.png"), "01.png");
    assert_eq!(file_name("/home/me/chapter/02.jpg"), "02.jpg");
    assert_eq!(file_name("mixed/dir\\03.webp"), "03.webp");
    assert_eq!(file_name("plain.png"), "plain.png");
    assert_eq!(file_name(""), "");
    assert_eq!(file_name("dir/"), "");
}

#[test]
fn file_name_agrees_with_rsplit() {
    for path in ["a/b/c", "\\x", "/", "a\\", "ü/ä.png", "no-separator"] {
        assert_eq!(file_name(path), path.rsplit(['\\', '/']).next().unwrap_or(path));
    }
}

#[test]
fn checkerboard_alternates_eight_pixel_squares() {
    let light = [230, 230, 230, 128];
    let dark = [200, 200, 200, 128];
    let pixels = checker_pixels(light, dark);
    assert_eq!(pixels.len(), CHECKER_SIDE * CHECKER_SIDE * 4);
    let at = |x: usize, y: usize| -> [u8; 4] {
        let i = (y * CHECKER_SIDE + x) * 4;
        [pixels[i], pixels[i + 1], pixels[i + 2], pixels[i + 3]]
    };
    assert_eq!(at(0, 0), light);
    assert_eq!(at(7, 7), light);
    assert_eq!(at(8, 0), dark);
    assert_eq!(at(0, 8), dark);
    assert_eq!(at(8, 8), light);
    assert_eq!(at(63, 63), light);
    assert_eq!(at(63, 0), dark);
}

#[test]
fn backend_button_face() {
    assert_eq!(PanelBackend(InpaintBackend::Lama).label(), "Inpaint Background (LaMa)");
    assert_eq!(PanelBackend(InpaintBackend::Aot).label(), "Inpaint Background (AOT-GAN)");
    assert_eq!(PanelBackend(InpaintBackend::Harmonic).label(), "Inpaint Background (Harmonic)");
    assert_eq!(PanelBackend(InpaintBackend::Telea).label(), "Inpaint Background (Telea)");
    assert_eq!(PanelBackend(InpaintBackend::ShiftMap).label(), "Inpaint Background (ShiftMap)");
}
