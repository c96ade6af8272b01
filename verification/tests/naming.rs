use paletteer::{already_recolored, normalized, output_file_name, supported, OutputFormat};

const DEFAULT_LAMBDA: f32 = 0.25;

/// How the command line writes a lambda or mix value into output names:
/// nothing for the default, the value's display text otherwise.
fn value_text(value: f32, default: f32) -> Option<String> {
    if value == default {
        None
    } else {
        Some(format!("{value}"))
    }
}

#[allow(clippy::too_many_arguments)]
fn output_path(
    input: &str,
    normalize_name: bool,
    format: OutputFormat,
    palette_name: &str,
    neutral_only: bool,
    lambda: f32,
    mix: f32,
    palette_name_only: bool,
) -> Result<String, String> {
    let lambda = value_text(lambda, DEFAULT_LAMBDA);
    let mix = value_text(mix, 1.0);
    output_file_name(
        input,
        normalize_name,
        format,
        palette_name,
        neutral_only,
        lambda.as_deref(),
        mix.as_deref(),
        palette_name_only,
    )
}

#[test]
fn normalization_table() {
    assert_eq!(
        normalized("Misty Forest (Final)").unwrap(),
        "misty-forest-final"
    );
    assert_eq!(normalized("foo...BAR___baz").unwrap(), "foo-bar-baz");
    assert_eq!(
        normalized("é").unwrap_err(),
        "normalized output stem is empty: é"
    );
}

#[test]
fn normalization_edges() {
    assert_eq!(normalized("--Already-Fine--").unwrap(), "already-fine");
    assert_eq!(normalized("a").unwrap(), "a");
    assert_eq!(normalized("ÀB-ç9").unwrap(), "b-9");
    assert_eq!(normalized("").unwrap_err(), "normalized output stem is empty: ");
    assert_eq!(normalized("...").unwrap_err(), "normalized output stem is empty: ...");
}

#[test]
fn normalization_is_idempotent_on_examples() {
    for stem in ["Misty Forest (Final)", "foo...BAR___baz", "x", "a--b", "2024 Trip!"] {
        let once = normalized(stem).unwrap();
        assert_eq!(normalized(&once).unwrap(), once);
    }
}

#[test]
fn supports_input_formats() {
    for extension in ["png", "jpg", "jpeg", "webp", "WEBP"] {
        assert!(supported(&format!("image.{extension}")));
    }
    assert!(!supported("image.gif"));
}

#[test]
fn supported_needs_a_real_extension() {
    assert!(!supported(".png"));
    assert!(!supported("png"));
    assert!(supported("archive.tar.PnG"));
    assert!(!supported("image.png."));
    assert!(!supported(".."));
}

#[test]
fn output_names() {
    assert_eq!(
        output_path(
            "Misty Forest (Final).jpg",
            false,
            OutputFormat::Png,
            "everforest-dark-medium",
            false,
            DEFAULT_LAMBDA,
            1.0,
            false,
        )
        .unwrap(),
        "Misty Forest (Final)-everforest-dark-medium.png"
    );
    assert_eq!(
        output_path(
            "foo.bar.png",
            true,
            OutputFormat::Webp,
            "everforest-dark-medium",
            false,
            DEFAULT_LAMBDA,
            1.0,
            false,
        )
        .unwrap(),
        "foo-bar-everforest-dark-medium.webp"
    );
    assert_eq!(
        output_path(
            "foo.jpg",
            false,
            OutputFormat::Jpg,
            "everforest-dark-medium",
            true,
            DEFAULT_LAMBDA,
            1.0,
            false,
        )
        .unwrap(),
        "foo-everforest-dark-medium-neutral.jpg"
    );
    assert_eq!(
        output_path(
            "foo.jpg",
            false,
            OutputFormat::Jpg,
            "everforest-dark-medium",
            false,
            DEFAULT_LAMBDA,
            0.5,
            false,
        )
        .unwrap(),
        "foo-everforest-dark-medium-mix-0.5.jpg"
    );
    assert_eq!(
        output_path(
            "foo.jpg",
            true,
            OutputFormat::Jpg,
            "everforest-dark-medium",
            true,
            DEFAULT_LAMBDA,
            0.5,
            false,
        )
        .unwrap(),
        "foo-everforest-dark-medium-neutral-mix-0-5.jpg"
    );
    assert_eq!(
        output_path(
            "foo.jpg",
            false,
            OutputFormat::Jpg,
            "everforest-dark-medium",
            false,
            1.0,
            1.0,
            false,
        )
        .unwrap(),
        "foo-everforest-dark-medium-lambda-1.jpg"
    );
    assert_eq!(
        output_path(
            "foo.jpg",
            false,
            OutputFormat::Jpg,
            "everforest-dark-medium",
            true,
            1.0,
            0.5,
            true,
        )
        .unwrap(),
        "foo-everforest-dark-medium.jpg"
    );
}

#[test]
fn output_name_normalization_error() {
    assert_eq!(
        output_file_name("é.png", true, OutputFormat::Png, "", false, None, None, false)
            .unwrap_err(),
        "normalized output stem is empty: é-"
    );
}

#[test]
fn prior_outputs_are_recognized() {
    assert!(already_recolored(
        "mountain-everforest-dark-medium-mix-0-5.jpg",
        "everforest-dark-medium"
    ));
    assert!(already_recolored("a-nord.png", "forest-dusk"));
    assert!(already_recolored("a-dracula-accent.png", "forest-dusk"));
    assert!(already_recolored("a-forest-dusk-neutral-lambda-1.png", "forest-dusk"));
    assert!(!already_recolored("mountain.jpg", "everforest-dark-medium"));
    assert!(!already_recolored("nord.png", "everforest-dark-medium"));
    assert!(already_recolored("a-nord-mix-0.5-b.png", "x"));
    assert!(!already_recolored("a-nord-y.png", "x"));
}

#[test]
fn outputs_are_recognized_on_rerun() {
    for (input, neutral_only, lambda, mix) in [
        ("photo.jpg", false, None, None),
        ("photo.jpg", true, Some("1"), Some("0.5")),
        ("Trip 2024.png", false, Some("0"), None),
    ] {
        let output = output_file_name(
            input,
            false,
            OutputFormat::Webp,
            "forest-dusk",
            neutral_only,
            lambda,
            mix,
            false,
        )
        .unwrap();
        assert!(already_recolored(&output, "forest-dusk"));
    }
}

#[test]
fn normalized_outputs_are_recognized_on_rerun() {
    let output = output_file_name(
        "Trip 2024.png",
        true,
        OutputFormat::Webp,
        "forest-dusk",
        true,
        Some("0.5"),
        Some("1"),
        false,
    )
    .unwrap();
    assert_eq!(output, "trip-2024-forest-dusk-neutral-lambda-0-5-mix-1.webp");
    assert!(already_recolored(&output, "forest-dusk"));
}

#[test]
fn normalization_keeps_exactly_well_formed_names() {
    for name in ["forest-dusk", "a", "x1-2b"] {
        assert_eq!(normalized(name).unwrap(), name);
    }
    for name in ["Forest", "-a", "a-", "a--b", "a b", "é"] {
        assert_ne!(normalized(name).ok().as_deref(), Some(name));
    }
    for stem in ["Misty Forest (Final)", "__X__Y__", "ünïcode 7"] {
        let out = normalized(stem).unwrap();
        assert!(out.chars().all(|c| c.is_ascii_lowercase() || c.is_ascii_digit() || c == '-'));
        assert!(!out.starts_with('-') && !out.ends_with('-') && !out.contains("--"));
    }
}

#[test]
fn paths_are_read_by_their_file_name() {
    assert!(!supported("photos/.png"));
    assert!(supported("photos/a.png"));
    assert!(supported("photos/a.png/"));
    assert!(supported("photos/a.png/."));
    assert!(!supported("photos/a.png/.."));
    assert!(!supported("/"));
    assert!(!supported(""));
    assert!(!already_recolored("a-nord.d/photo", "x"));
    assert!(already_recolored("dir/a-nord.png", "x"));
    assert!(!already_recolored(".", "nord"));
    assert_eq!(
        output_file_name("dir.d/foo.jpg", false, OutputFormat::Png, "nord", false, None, None, false),
        Ok("foo-nord.png".to_string())
    );
    assert_eq!(
        output_file_name("dir/..", false, OutputFormat::Png, "nord", false, None, None, false),
        Err("invalid input name: dir/..".to_string())
    );
    assert_eq!(
        output_file_name("/", false, OutputFormat::Png, "nord", false, None, None, false),
        Err("invalid input name: /".to_string())
    );
}

#[test]
fn temporary_names() {
    assert_eq!(paletteer::temp_file_name("foo-nord.png", 4321), ".foo-nord.png.4321.tmp");
    assert_eq!(paletteer::temp_file_name("x.webp", 0), ".x.webp.0.tmp");
}
