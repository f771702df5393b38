use fig2img::{ApiError, FigmaConfig, FigmaImageExtractor};

fn refs(pairs: &[(&str, &str)]) -> Vec<(String, String)> {
    pairs
        .iter()
        .map(|(id, name)| (id.to_string(), name.to_string()))
        .collect()
}

#[test]
fn ids_join_into_one_comma_separated_list() {
    let extractor = FigmaImageExtractor::new(FigmaConfig::new(
        "test-token".to_string(),
        "test-key".to_string(),
    ));

    let req = extractor.build_render_request(&refs(&[("1:1", "a"), ("1:2", "b"), ("1:3", "c")]));
    assert_eq!(req.ids, "1:1,1:2,1:3");
    assert_eq!(req.url, "https://api.figma.com/v1/images/test-key");
    assert_eq!(req.token, "test-token");
    assert_eq!(req.format, "png");
}

#[test]
fn one_request_is_built_whatever_the_node_count() {
    let extractor = FigmaImageExtractor::new(FigmaConfig::new(
        "test-token".to_string(),
        "test-key".to_string(),
    ));

    for n in [1usize, 2, 10, 100] {
        let nodes: Vec<(String, String)> =
            (0..n).map(|i| (format!("0:{}", i), format!("img{}", i))).collect();
        let req = extractor.build_render_request(&nodes);
        // One request value carries every id of the batch.
        for (id, _) in &nodes {
            assert!(req.ids.contains(id.as_str()));
        }
        assert_eq!(req.ids.matches(',').count(), n - 1);
    }
}

#[test]
fn single_id_joins_without_a_comma() {
    let extractor = FigmaImageExtractor::new(FigmaConfig::new(
        "t".to_string(),
        "k".to_string(),
    ));
    let req = extractor.build_render_request(&refs(&[("1:1", "solo")]));
    assert_eq!(req.ids, "1:1");
    let empty = extractor.build_render_request(&refs(&[]));
    assert_eq!(empty.ids, "");
}

#[test]
fn join_maps_response_urls_back_onto_names() {
    let nodes = refs(&[("1:1", "test_image")]);
    let images = vec![(
        "1:1".to_string(),
        Some("https://example.com/test_image.png".to_string()),
    )];

    let result = fig2img::resolve_render_urls(200, Some(&images), &nodes).unwrap();
    assert_eq!(result.len(), 1);
    assert_eq!(result[0].id, "1:1");
    assert_eq!(
        result[0].url.as_deref(),
        Some("https://example.com/test_image.png")
    );
    assert_eq!(result[0].name, "test_image");
}

#[test]
fn join_is_lenient_on_both_sides() {
    let nodes = refs(&[("1:1", "kept"), ("1:2", "unanswered")]);
    let images = vec![
        ("1:1".to_string(), Some("https://example.com/a.png".to_string())),
        ("9:9".to_string(), Some("https://example.com/stranger.png".to_string())),
    ];

    let result = fig2img::resolve_render_urls(204, Some(&images), &nodes).unwrap();
    // The response id no record claims is dropped; the record the response
    // passed over is dropped too; neither is a failure.
    assert_eq!(result.len(), 1);
    assert_eq!(result[0].id, "1:1");
    assert_eq!(result[0].name, "kept");
}

#[test]
fn join_keeps_null_urls_as_absent() {
    let nodes = refs(&[("1:1", "nulled")]);
    let images = vec![("1:1".to_string(), None)];

    let result = fig2img::resolve_render_urls(200, Some(&images), &nodes).unwrap();
    assert_eq!(result.len(), 1);
    assert!(result[0].url.is_none());
}

#[test]
fn join_takes_the_first_record_with_a_duplicated_id() {
    let nodes = refs(&[("1:1", "first"), ("1:1", "second")]);
    let images = vec![("1:1".to_string(), Some("u".to_string()))];

    let result = fig2img::resolve_render_urls(200, Some(&images), &nodes).unwrap();
    assert_eq!(result.len(), 1);
    assert_eq!(result[0].name, "first");
}

#[test]
fn non_success_status_fails_the_whole_cycle() {
    let nodes = refs(&[("1:1", "a")]);
    let images: Vec<(String, Option<String>)> = vec![];

    let err = fig2img::resolve_render_urls(500, Some(&images), &nodes).unwrap_err();
    assert_eq!(err, ApiError::Status(500));
    let err = fig2img::resolve_render_urls(404, None, &nodes).unwrap_err();
    assert_eq!(err, ApiError::Status(404));
}

#[test]
fn missing_images_map_is_malformed() {
    let nodes = refs(&[("1:1", "a")]);
    let err = fig2img::resolve_render_urls(200, None, &nodes).unwrap_err();
    assert_eq!(err, ApiError::MalformedResponse);
}
