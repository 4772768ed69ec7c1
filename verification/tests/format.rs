use steven::format::Color;

#[test]
fn test_color_from() {
    let test = Color::from_string(&"#FF0000".to_owned());
    match test {
        Color::RGB(r, g, b) => assert!(r == 255 && g == 0 && b == 0),
        _ => panic!("Wrong type"),
    }
    let test = Color::from_string(&"#123456".to_owned());
    match test {
        Color::RGB(r, g, b) => assert!(r == 0x12 && g == 0x34 && b == 0x56),
        _ => panic!("Wrong type"),
    }
    let test = Color::from_string(&"red".to_owned());
    match test {
        Color::Red => {}
        _ => panic!("Wrong type"),
    }
    let test = Color::from_string(&"dark_blue".to_owned());
    match test {
        Color::DarkBlue => {}
        _ => panic!("Wrong type"),
    }
}

#[test]
fn color_from_string_fallbacks() {
    assert_eq!(Color::from_string("white"), Color::White);
    assert_eq!(Color::from_string("nonsense"), Color::White);
    assert_eq!(Color::from_string("#12345G"), Color::White);
    assert_eq!(Color::from_string("#+F+F+F"), Color::RGB(15, 15, 15));
    assert_eq!(Color::from_string("#abcdef"), Color::RGB(0xab, 0xcd, 0xef));
    assert_eq!(Color::from_string("#éab12"), Color::White);
    assert_eq!(Color::from_string("light_purple"), Color::LightPurple);
}

#[test]
fn color_to_string_and_back() {
    assert_eq!(Color::RGB(0xab, 0x01, 0xff).to_string(), "#AB01FF");
    assert_eq!(Color::DarkAqua.to_string(), "dark_aqua");
    let all = [
        Color::Black, Color::DarkBlue, Color::DarkGreen, Color::DarkAqua, Color::DarkRed,
        Color::DarkPurple, Color::Gold, Color::Gray, Color::DarkGray, Color::Blue, Color::Green,
        Color::Aqua, Color::Red, Color::LightPurple, Color::Yellow, Color::White,
        Color::RGB(1, 2, 3),
    ];
    for c in all.iter() {
        assert_eq!(Color::from_string(&c.to_string()), *c);
    }
}

#[test]
fn color_to_rgb_values() {
    assert_eq!(Color::Gold.to_rgb(), (255, 170, 0));
    assert_eq!(Color::DarkGray.to_rgb(), (85, 85, 85));
    assert_eq!(Color::RGB(1, 2, 3).to_rgb(), (1, 2, 3));
}
