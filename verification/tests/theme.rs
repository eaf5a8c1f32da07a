use rficus::theme::{icon, pick, rgb, theme, Palette, WinButton, THEME_COUNT};

#[test]
fn themes_are_found_by_name_in_any_case() {
    assert_eq!(Palette::get("dark").name, "Dark");
    assert_eq!(Palette::get(" light ").name, "Light");
    assert_eq!(Palette::get("MIDNIGHT").name, "Midnight");
    assert!(!Palette::get("light").dark);
    assert!(Palette::get("Graphite").dark);
    // anything unknown gets the first
    assert_eq!(Palette::get("neon").name, "Dark");
    assert_eq!(Palette::get("").name, "Dark");
    assert_eq!(Palette::get("dark").accent, rgb(88, 132, 255));
}

#[test]
fn every_theme_is_listed_once() {
    let names: Vec<&str> = (0..THEME_COUNT).map(|i| theme(i).name).collect();
    assert_eq!(
        names,
        vec!["Dark", "Midnight", "Graphite", "Light", "Paper", "Mist", "Solar", "Rose", "Sage", "Linen"]
    );
    for i in 0..THEME_COUNT {
        assert_eq!(Palette::get(theme(i).name).name, theme(i).name);
        assert_eq!(theme(i).dark, i < 3);
    }
}

#[test]
fn picking_the_current_theme_changes_nothing() {
    let current = Palette::get("Paper");
    assert_eq!(pick(&current, 4), None);
    assert_eq!(pick(&current, 0), Some("Dark"));
}

#[test]
fn window_controls() {
    assert_eq!(WinButton::resize_for(true), WinButton::Restore);
    assert_eq!(WinButton::resize_for(false), WinButton::Maximize);
    assert_eq!(WinButton::Close.hover_text(), "Close");
    assert_eq!(WinButton::Minimize.hover_text(), "Minimize");
    let p = Palette::get("Light");
    assert_eq!(WinButton::Close.colors(true, &p), (rgb(255, 255, 255), Some(rgb(232, 17, 35))));
    assert_eq!(WinButton::Minimize.colors(true, &p), (p.text, Some(p.card_hover)));
    assert_eq!(WinButton::Close.colors(false, &p), (p.text, None));
}

#[test]
fn an_icon_decodes_to_rgba() {
    let mut png = Vec::new();
    let pixels = image::RgbaImage::from_raw(2, 1, vec![255, 0, 0, 255, 0, 0, 255, 128]).unwrap();
    pixels.write_to(&mut std::io::Cursor::new(&mut png), image::ImageFormat::Png).unwrap();
    let i = icon(&png).expect("a png decodes");
    assert_eq!((i.width, i.height), (2, 1));
    assert_eq!(i.rgba, vec![255, 0, 0, 255, 0, 0, 255, 128]);
    assert!(icon(b"not an image").is_none());
}
