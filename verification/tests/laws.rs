use paletteer::{
    already_recolored, jobs, normalized, output_file_name, parse_custom_palette, Candidate,
    JobError, NamingOptions, OutputFormat, Theme,
};

const ALL_THEMES: [Theme; 7] = [
    Theme::EverforestDarkMedium,
    Theme::CatppuccinMocha,
    Theme::TokyoNight,
    Theme::GruvboxDarkMedium,
    Theme::Nord,
    Theme::Dracula,
    Theme::RosePineMoon,
];

#[test]
fn theme_names_are_distinct_and_normalized() {
    for (i, a) in ALL_THEMES.iter().enumerate() {
        assert_eq!(normalized(a.name()).unwrap(), a.name());
        for b in &ALL_THEMES[i + 1..] {
            assert_ne!(a.name(), b.name());
        }
    }
}

#[test]
fn accepted_palettes_hold_valid_colors() {
    let palette = parse_custom_palette("name = 'deep-sea'\ncolors = ['#FFFFFF', '#000000']").unwrap();
    assert_eq!(palette.name, "deep-sea");
    assert_eq!(palette.colors, [0xFFFFFF, 0x000000]);
    assert!(palette.colors.iter().all(|&c| c <= 0xFFFFFF));
    assert!(palette.accents.is_empty());
    assert_eq!(
        parse_custom_palette("extra = 1\nname = 'x'\ncolors = ['#FFFFFF']").err().unwrap(),
        "unknown palette field 'extra'"
    );
}

#[test]
fn outputs_with_odd_stems_are_skipped_on_rerun() {
    for normalize in [false, true] {
        for stem in ["Summer TRIP", "a.b", "x--y"] {
            let input = format!("photos/{stem}.jpg");
            let output = output_file_name(
                &input,
                normalize,
                OutputFormat::Png,
                "deep-sea",
                true,
                Some("0.3333333"),
                Some("0.75"),
                false,
            )
            .unwrap();
            assert!(already_recolored(&output, "deep-sea"), "{output}");
            assert!(already_recolored(&format!("photos/{output}"), "deep-sea"), "{output}");
        }
    }
}

#[test]
fn skipped_inputs_never_refuse_a_batch() {
    let options = NamingOptions {
        normalize_name: false,
        format: OutputFormat::Png,
        palette_name: "nord".to_string(),
        neutral_only: false,
        lambda: None,
        mix: None,
        palette_name_only: false,
    };
    let candidate = |stem: &str, extension: &str, is_file: bool| Candidate {
        stem: Some(stem.to_string()),
        extension: Some(extension.to_string()),
        directory: 0,
        is_file,
        output_exists: false,
    };
    let candidates = vec![candidate("old-nord", "gif", false), candidate("new", "png", true)];
    let planned = jobs(&candidates, &options, false).ok().unwrap();
    assert_eq!(planned.len(), 1);
    assert_eq!(planned[0].input, 1);
    let refused = vec![candidate("new", "png", true), candidate("other", "gif", true)];
    assert!(matches!(jobs(&refused, &options, false), Err(JobError::Unsupported(1))));
}

#[test]
fn glob_characters_make_a_pattern() {
    assert!(paletteer::has_glob_characters("photos/*.png"));
    assert!(paletteer::has_glob_characters("img?.jpg"));
    assert!(paletteer::has_glob_characters("shot[12].webp"));
    assert!(!paletteer::has_glob_characters("photos/plain.png"));
    assert!(!paletteer::has_glob_characters(""));
}
