use fig2img::sanitize;

#[test]
fn test_sanitize() {
    assert_eq!(sanitize("hello/world"), "hello_world");
    assert_eq!(sanitize("test:file*"), "test_file_");
    assert_eq!(sanitize("normal.png"), "normal.png");
}

#[test]
fn sanitize_replaces_every_forbidden_character() {
    assert_eq!(sanitize("a/b\\c:d*e?f\"g<h>i|j"), "a_b_c_d_e_f_g_h_i_j");
}

#[test]
fn sanitize_keeps_ordinary_names() {
    assert_eq!(sanitize(""), "");
    assert_eq!(sanitize("already_clean-name.png"), "already_clean-name.png");
}

#[test]
fn sanitize_is_idempotent_on_samples() {
    let samples = ["hello/world", "test:file*", "normal.png", "", "a|b<c>d", "___"];
    for s in samples {
        let once = sanitize(s);
        let twice = sanitize(&once);
        assert_eq!(twice, once);
    }
}
