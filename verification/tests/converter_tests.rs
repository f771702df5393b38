use fig2img::{has_png_ext, plan_conversions, ImageConverter, TargetFormat};

#[test]
fn only_webp_and_avif_parse() {
    assert_eq!(TargetFormat::parse("webp"), Some(TargetFormat::Webp));
    assert_eq!(TargetFormat::parse("avif"), Some(TargetFormat::Avif));
    assert_eq!(TargetFormat::parse("gif"), None);
    assert_eq!(TargetFormat::parse("WEBP"), None);
    assert_eq!(TargetFormat::parse(""), None);
}

#[test]
fn encoder_command_lines_are_fixed() {
    assert_eq!(ImageConverter::encoder_program(TargetFormat::Webp), "cwebp");
    assert_eq!(ImageConverter::encoder_program(TargetFormat::Avif), "avifenc");
    assert_eq!(ImageConverter::probe_arg(TargetFormat::Webp), "-version");
    assert_eq!(ImageConverter::probe_arg(TargetFormat::Avif), "--version");

    assert_eq!(
        ImageConverter::cwebp_args("in.png", "out.webp"),
        vec!["-quiet", "in.png", "-o", "out.webp"]
    );
    assert_eq!(
        ImageConverter::avifenc_args("in.png", "out.avif"),
        vec!["-q", "0..51", "--speed", "8", "--yuv", "444", "in.png", "out.avif"]
    );
}

#[test]
fn missing_encoder_degrades_softly() {
    // Not installed: a successful-but-false result, not an error.
    assert_eq!(ImageConverter::external_outcome(false, None), Ok(false));
    assert_eq!(ImageConverter::external_outcome(false, Some(true)), Ok(false));
    // Installed: the exit status decides.
    assert_eq!(ImageConverter::external_outcome(true, Some(true)), Ok(true));
    assert_eq!(ImageConverter::external_outcome(true, Some(false)), Ok(false));
}

#[test]
fn install_guides_name_the_missing_tool() {
    let webp = ImageConverter::install_guide(TargetFormat::Webp);
    assert_eq!(webp[0], "cwebp is not installed. Please install it:");
    assert_eq!(webp.len(), 3);
    let avif = ImageConverter::install_guide(TargetFormat::Avif);
    assert_eq!(avif[0], "avifenc is not installed. Please install it:");
    assert_eq!(avif.len(), 3);
}

#[test]
fn png_extension_is_recognized_exactly() {
    assert!(has_png_ext("a.png"));
    assert!(has_png_ext("nested.name.png"));
    assert!(!has_png_ext("a.PNG"));
    assert!(!has_png_ext("a.jpg"));
    assert!(!has_png_ext("png"));
    assert!(!has_png_ext(""));
}

#[test]
fn plan_converts_each_png_and_nothing_else() {
    let names = vec![
        "a.png".to_string(),
        "notes.txt".to_string(),
        "b.png".to_string(),
    ];

    let tasks = plan_conversions(&names, "in", "out", TargetFormat::Webp);
    assert_eq!(tasks.len(), 2);
    assert_eq!(tasks[0].input, "in/a.png");
    assert_eq!(tasks[0].output, "out/a.webp");
    assert_eq!(tasks[1].input, "in/b.png");
    assert_eq!(tasks[1].output, "out/b.webp");

    let avif_tasks = plan_conversions(&names, "in", "out", TargetFormat::Avif);
    assert_eq!(avif_tasks[0].output, "out/a.avif");
}

#[test]
fn avif_signature_is_ftyp_at_offset_four() {
    // The box header an AVIF stream starts with: size, then `ftyp`.
    let avif_start = vec![0u8, 0, 0, 28, b'f', b't', b'y', b'p', b'a', b'v', b'i', b'f'];
    assert!(ImageConverter::has_avif_signature(&avif_start));

    let png_start = vec![137u8, 80, 78, 71, 13, 10, 26, 10, 0, 0, 0, 13];
    assert!(!ImageConverter::has_avif_signature(&png_start));

    let short = vec![0u8, 0, 0, 28, b'f', b't', b'y'];
    assert!(!ImageConverter::has_avif_signature(&short));
}
