use sexy_claude::converter::UiColor;
use sexy_claude::theme::{is_hex_sliceable, parse_hex, HexError, ThemeColors, ThemeFile};

#[test]
fn test_parse_hex() {
    assert_eq!(parse_hex("#ff0000").unwrap(), UiColor::Rgb(255, 0, 0));
    assert_eq!(parse_hex("#00ff00").unwrap(), UiColor::Rgb(0, 255, 0));
    assert_eq!(parse_hex("#0000ff").unwrap(), UiColor::Rgb(0, 0, 255));
    assert_eq!(parse_hex("1e1e2e").unwrap(), UiColor::Rgb(30, 30, 46));
}

#[test]
fn test_parse_hex_invalid() {
    assert!(parse_hex("#xyz").is_err());
    assert!(parse_hex("#12345").is_err());
}

#[test]
fn hex_errors_name_the_component() {
    assert_eq!(parse_hex("#12345"), Err(HexError::Length));
    assert_eq!(parse_hex("#zz0000"), Err(HexError::Red));
    assert_eq!(parse_hex("#00zz00"), Err(HexError::Green));
    assert_eq!(parse_hex("#0000zz"), Err(HexError::Blue));
    assert_eq!(parse_hex("##AbCdEf"), Ok(UiColor::Rgb(0xab, 0xcd, 0xef)));
    assert_eq!(parse_hex("+f+f+f"), Ok(UiColor::Rgb(15, 15, 15)));
    assert_eq!(parse_hex("#1234567"), Err(HexError::Length));
    assert_eq!(parse_hex("é0000"), Err(HexError::Red));
    assert_eq!(HexError::Red.message("#zz0000"), "Invalid red component in #zz0000");
    assert_eq!(HexError::Length.message("##12"), "Invalid hex color: #12");
}

#[test]
fn hex_sliceability() {
    assert!(is_hex_sliceable("#1e1e2e"));
    assert!(is_hex_sliceable("#é"));
    assert!(is_hex_sliceable("é0000"));
    assert!(!is_hex_sliceable("aébcd"));
}

fn colors(bg: &str) -> ThemeColors {
    let c = |s: &str| s.to_string();
    ThemeColors {
        background: c(bg),
        foreground: c("#cdd6f4"),
        surface: c("#313244"),
        overlay: c("#6c7086"),
        primary: c("#cba6f7"),
        secondary: c("#89b4fa"),
        accent: c("#f5c2e7"),
        success: c("#a6e3a1"),
        warning: c("#f9e2af"),
        error: c("#f38ba8"),
        info: c("#89dceb"),
        border: c("#45475a"),
        border_focused: c("#cba6f7"),
        status_bg: c("#181825"),
        status_fg: c("#bac2de"),
        input_bg: c("#1e1e2e"),
        input_fg: c("#cdd6f4"),
        input_cursor: c("#f5e0dc"),
        input_placeholder: c("#6c7086"),
    }
}

#[test]
fn theme_from_file() {
    let file = ThemeFile { name: "Test Theme".to_string(), colors: colors("#000000") };
    let theme = file.to_theme().unwrap();
    assert_eq!(theme.name, "Test Theme");
    assert_eq!(theme.background, UiColor::Rgb(0, 0, 0));
    assert_eq!(theme.foreground, UiColor::Rgb(0xcd, 0xd6, 0xf4));
    assert_eq!(theme.input_placeholder, UiColor::Rgb(0x6c, 0x70, 0x86));
}

#[test]
fn theme_first_bad_color_reported() {
    let mut c = colors("#000000");
    c.accent = "#12".to_string();
    c.error = "#zz0000".to_string();
    let file = ThemeFile { name: "Broken".to_string(), colors: c };
    assert_eq!(file.to_theme().unwrap_err(), (6, HexError::Length));
}

#[test]
fn hex_pairs_read_as_from_str_radix_reads_them() {
    assert_eq!(parse_hex("+fff00"), Ok(UiColor::Rgb(15, 255, 0)));
    assert_eq!(parse_hex("+ffff+"), Err(HexError::Blue));
    assert_eq!(parse_hex("0+0000"), Err(HexError::Red));
    assert_eq!(parse_hex("#00+f+0"), Ok(UiColor::Rgb(0, 15, 0)));
    assert_eq!(parse_hex("00++00"), Err(HexError::Green));
    assert_eq!(parse_hex("0A0b0C"), Ok(UiColor::Rgb(10, 11, 12)));
}
