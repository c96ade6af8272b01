use paletteer::{
    accent_colors, built_in_colors, hex_color, neutral_colors, output_quality,
    parse_custom_palette, select_palette, OutputFormat, Theme,
};

const THEMES: [Theme; 7] = [
    Theme::EverforestDarkMedium,
    Theme::CatppuccinMocha,
    Theme::TokyoNight,
    Theme::GruvboxDarkMedium,
    Theme::Nord,
    Theme::Dracula,
    Theme::RosePineMoon,
];

#[test]
fn all_colors_are_used_by_default() {
    assert_eq!(
        built_in_colors(Theme::EverforestDarkMedium, false).len(),
        neutral_colors(Theme::EverforestDarkMedium).len()
            + accent_colors(Theme::EverforestDarkMedium).len()
    );
    assert_eq!(
        built_in_colors(Theme::EverforestDarkMedium, true).len(),
        neutral_colors(Theme::EverforestDarkMedium).len()
    );
}

#[test]
fn every_theme_has_neutral_colors() {
    for theme in THEMES {
        assert!(!built_in_colors(theme, false).is_empty());
    }
}

#[test]
fn neutral_colors_lead_the_full_list() {
    for theme in THEMES {
        let all = built_in_colors(theme, false);
        let neutral = built_in_colors(theme, true);
        assert_eq!(&all[..neutral.len()], &neutral[..]);
        assert_eq!(&all[neutral.len()..], &accent_colors(theme)[..]);
    }
    assert_eq!(built_in_colors(Theme::Dracula, true), [0x282A36, 0x44475A, 0x6272A4, 0xF8F8F2]);
}

#[test]
fn theme_names() {
    let names: Vec<&str> = THEMES.iter().map(|t| t.name()).collect();
    assert_eq!(
        names,
        [
            "everforest-dark-medium",
            "catppuccin-mocha",
            "tokyo-night",
            "gruvbox-dark-medium",
            "nord",
            "dracula",
            "rose-pine-moon",
        ]
    );
    assert_eq!(OutputFormat::Png.extension(), "png");
    assert_eq!(OutputFormat::Webp.extension(), "webp");
    assert_eq!(OutputFormat::Jpg.extension(), "jpg");
}

#[test]
fn quality_rules() {
    assert_eq!(output_quality(OutputFormat::Png, None), Ok(80));
    assert_eq!(output_quality(OutputFormat::Webp, Some(85)), Ok(85));
    assert_eq!(output_quality(OutputFormat::Jpg, None), Ok(80));
    assert_eq!(
        output_quality(OutputFormat::Png, Some(90)).unwrap_err(),
        "--quality is only valid with --format webp or jpg"
    );
    assert!(!OutputFormat::Png.supports_quality());
    assert!(OutputFormat::Jpg.supports_quality());
}

fn chars(s: &str) -> Vec<char> {
    s.chars().collect()
}

#[test]
fn hex_colors() {
    assert_eq!(hex_color(&chars("#112233")), Some(0x112233));
    assert_eq!(hex_color(&chars("#AaBbCc")), Some(0xAABBCC));
    assert_eq!(hex_color(&chars("#+12345")), None);
    assert_eq!(hex_color(&chars("#+1234f")), None);
    assert_eq!(hex_color(&chars("#12345")), None);
    assert_eq!(hex_color(&chars("#1234567")), None);
    assert_eq!(hex_color(&chars("112233")), None);
    assert_eq!(hex_color(&chars("#12345g")), None);
    assert_eq!(hex_color(&chars("#-12345")), None);
}

#[test]
fn custom_palette_parsing() {
    let palette = parse_custom_palette(
        r##"
name = "forest-dusk"
colors = ["#112233", "#AABBCC"]
accents = ["#ff8800"]
"##,
    )
    .unwrap();
    assert_eq!(palette.name, "forest-dusk");
    assert_eq!(palette.colors, [0x112233, 0xAABBCC]);
    assert_eq!(palette.accents, [0xFF8800]);

    for invalid in [
        "name = 'Bad Name'\ncolors = ['#112233']",
        "name = 'empty'\ncolors = []",
        "name = 'bad-color'\ncolors = ['#12345']",
        "name = 'typo'\ncolours = ['#112233']",
    ] {
        assert!(parse_custom_palette(invalid).is_err());
    }
}

#[test]
fn custom_palette_errors() {
    let error = |text: &str| parse_custom_palette(text).err().unwrap();
    assert_eq!(error("name = 'typo'\ncolours = ['#112233']"), "unknown palette field 'colours'");
    assert_eq!(error("colors = ['#112233']"), "missing required string 'name'");
    assert_eq!(error("name = 3\ncolors = ['#112233']"), "missing required string 'name'");
    assert_eq!(
        error("name = 'Bad Name'\ncolors = ['#112233']"),
        "'name' must contain only a-z, 0-9, and single hyphens"
    );
    assert_eq!(error("name = 'x'"), "missing required 'colors' array");
    assert_eq!(error("name = 'x'\ncolors = '#112233'"), "'colors' must be an array of hex color strings");
    assert_eq!(error("name = 'x'\ncolors = []"), "'colors' must contain at least one color");
    assert_eq!(error("name = 'x'\ncolors = ['#112233', 7]"), "'colors[1]' must be a hex color string");
    assert_eq!(
        error("name = 'x'\ncolors = ['#112233']\naccents = ['#12345']"),
        "invalid color '#12345' in 'accents[0]': expected #RRGGBB"
    );
    assert_eq!(
        error("name = 'x'\ncolors = ['#+12345']"),
        "invalid color '#+12345' in 'colors[0]': expected #RRGGBB"
    );
    assert!(error("name = ").len() > 0);
    let palette = parse_custom_palette("name = 'x'\ncolors = ['#112233']\naccents = []").unwrap();
    assert!(palette.accents.is_empty());
}

#[test]
fn palette_selection() {
    let text = "name = 'forest-dusk'\ncolors = ['#112233']\naccents = ['#ff8800']";
    let all = select_palette(None, Some(text), false).unwrap();
    assert_eq!(all.name, "forest-dusk");
    assert_eq!(all.colors, [0x112233, 0xFF8800]);
    let neutral = select_palette(Some(Theme::Nord), Some(text), true).unwrap();
    assert_eq!(neutral.colors, [0x112233]);
    let built_in = select_palette(Some(Theme::Nord), None, true).unwrap();
    assert_eq!(built_in.name, "nord");
    assert_eq!(built_in.colors, neutral_colors(Theme::Nord));
    assert!(select_palette(None, Some("name = 'Bad'"), false).is_err());
}
