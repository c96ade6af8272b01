use paletteer::{
    image_extension, jobs, output_name_for_stem, recolored_stem, skipped_inputs, Candidate,
    JobError, NamingOptions, OutputFormat,
};

fn options(format: OutputFormat) -> NamingOptions {
    NamingOptions {
        normalize_name: false,
        format,
        palette_name: "everforest-dark-medium".to_string(),
        neutral_only: false,
        lambda: None,
        mix: None,
        palette_name_only: false,
    }
}

fn file(name: &str, directory: usize) -> Candidate {
    let path = std::path::Path::new(name);
    Candidate {
        stem: path.file_stem().and_then(|s| s.to_str()).map(|s| s.to_string()),
        extension: path.extension().and_then(|s| s.to_str()).map(|s| s.to_string()),
        directory,
        is_file: true,
        output_exists: false,
    }
}

#[test]
fn duplicate_outputs_are_rejected() {
    let candidates = vec![file("same.jpg", 0), file("same.png", 0)];
    assert!(jobs(&candidates, &options(OutputFormat::Png), false).is_err());
    match jobs(&candidates, &options(OutputFormat::Png), false) {
        Err(JobError::DuplicateOutput(1)) => {}
        _ => panic!("expected a duplicate output"),
    }
    let apart = vec![file("same.jpg", 0), file("same.png", 1)];
    let planned = jobs(&apart, &options(OutputFormat::Png), false).ok().unwrap();
    assert_eq!(planned.len(), 2);
}

#[test]
fn overwrite_allows_an_existing_output() {
    let mut candidate = file("image.jpg", 0);
    candidate.output_exists = true;
    let candidates = vec![candidate];
    assert!(jobs(&candidates, &options(OutputFormat::Png), false).is_err());
    assert!(jobs(&candidates, &options(OutputFormat::Png), true).is_ok());
    assert!(matches!(
        jobs(&candidates, &options(OutputFormat::Png), false),
        Err(JobError::OutputExists(0))
    ));
    let planned = jobs(&candidates, &options(OutputFormat::Png), true).ok().unwrap();
    assert_eq!(planned[0].output_name, "image-everforest-dark-medium.png");
}

#[test]
fn prior_outputs_are_skipped() {
    let candidates = vec![
        file("mountain.jpg", 0),
        file("mountain-everforest-dark-medium-mix-0-5.jpg", 0),
    ];
    let opts = options(OutputFormat::Webp);
    assert_eq!(skipped_inputs(&candidates, &opts), [1]);
    let planned = jobs(&candidates, &opts, false).ok().unwrap();
    assert_eq!(planned.len(), 1);
    assert_eq!(planned[0].input, 0);
    assert_eq!(planned[0].output_name, "mountain-everforest-dark-medium.webp");
}

#[test]
fn first_failing_input_decides() {
    let mut directory = file("folder", 0);
    directory.is_file = false;
    let candidates = vec![file("a.gif", 0), directory];
    assert!(matches!(
        jobs(&candidates, &options(OutputFormat::Png), false),
        Err(JobError::Unsupported(0))
    ));
    let mut nameless = file("x", 0);
    nameless.stem = None;
    assert!(matches!(
        jobs(&vec![nameless], &options(OutputFormat::Png), false),
        Err(JobError::Unsupported(0))
    ));
    assert!(matches!(
        jobs(&vec![file("png", 0)], &options(OutputFormat::Png), false),
        Err(JobError::Unsupported(0))
    ));
    let mut normalize = options(OutputFormat::Png);
    normalize.normalize_name = true;
    normalize.palette_name = "---".to_string();
    match jobs(&vec![file("é.png", 0)], &normalize, false) {
        Err(JobError::Naming(message)) => {
            assert_eq!(message, "normalized output stem is empty: é----")
        }
        _ => panic!("expected a naming error"),
    }
    let candidates = vec![file("b.png", 3), {
        let mut c = file("c.png", 3);
        c.is_file = false;
        c
    }];
    assert!(matches!(
        jobs(&candidates, &options(OutputFormat::Png), false),
        Err(JobError::NotAFile(1))
    ));
}

#[test]
fn a_stem_that_is_not_utf8_cannot_be_named() {
    // A file whose stem is not valid UTF-8 but whose extension is: it is an
    // image, but no output name can be formed for it.
    let mut odd = file("odd.png", 0);
    odd.stem = None;
    let candidates = vec![file("a.png", 0), odd];
    assert!(matches!(
        jobs(&candidates, &options(OutputFormat::Png), false),
        Err(JobError::InvalidName(1))
    ));
    assert!(skipped_inputs(&candidates, &options(OutputFormat::Png)).is_empty());
    let mut odd_extension = file("odd.png", 0);
    odd_extension.extension = None;
    assert!(matches!(
        jobs(&vec![odd_extension], &options(OutputFormat::Png), false),
        Err(JobError::Unsupported(0))
    ));
}

#[test]
fn stems_and_extensions_decide() {
    assert!(image_extension("PNG"));
    assert!(image_extension("jpeg"));
    assert!(!image_extension("gif"));
    assert!(!image_extension(""));
    assert!(recolored_stem("photo-nord", "x"));
    assert!(recolored_stem("photo-forest-dusk-neutral-mix-0.5", "forest-dusk"));
    assert!(!recolored_stem("photo", "forest-dusk"));
    assert_eq!(
        output_name_for_stem("My Photo", true, OutputFormat::Webp, "nord", true, Some("0.5"), None, false),
        Ok("my-photo-nord-neutral-lambda-0-5.webp".to_string())
    );
    assert_eq!(
        output_name_for_stem("a.b", false, OutputFormat::Jpg, "nord", false, None, Some("2"), true),
        Ok("a.b-nord.jpg".to_string())
    );
}
