use fig2img::{DocumentNode, Fill, FillType, FigmaConfig, FigmaImageExtractor, NodeType};

fn node(id: &str, name: Option<&str>, node_type: NodeType) -> DocumentNode {
    DocumentNode {
        id: Some(id.to_string()),
        name: name.map(|n| n.to_string()),
        node_type,
        fills: None,
        children: None,
    }
}

#[test]
fn test_is_image_node() {
    let image_node = node("1:1", None, NodeType::Image);
    assert!(FigmaImageExtractor::is_image_node(&image_node));

    let mut fill_image_node = node("1:2", None, NodeType::Rectangle);
    fill_image_node.fills = Some(vec![Fill { fill_type: FillType::Image }]);
    assert!(FigmaImageExtractor::is_image_node(&fill_image_node));

    let mut non_image_node = node("1:3", None, NodeType::Rectangle);
    non_image_node.fills = Some(vec![Fill { fill_type: FillType::Solid }]);
    assert!(!FigmaImageExtractor::is_image_node(&non_image_node));
}

#[test]
fn classifier_ignores_missing_fill_list() {
    let plain = node("2:1", Some("rect"), NodeType::Rectangle);
    assert!(!FigmaImageExtractor::is_image_node(&plain));
}

#[test]
fn test_new() {
    let config = FigmaConfig::new("test-token".to_string(), "test-key".to_string());
    let extractor = FigmaImageExtractor::new(config);

    assert_eq!(extractor.api_url, "https://api.figma.com/v1");
    assert_eq!(extractor.config.figma_access_token, "test-token");
    assert_eq!(extractor.config.figma_file_key, "test-key");
}

#[test]
fn test_build_url() {
    let config = FigmaConfig::new("test-token".to_string(), "test-key".to_string());
    let extractor = FigmaImageExtractor::new(config);

    assert_eq!(
        extractor.build_url("files"),
        "https://api.figma.com/v1/files/test-key"
    );
    assert_eq!(
        extractor.build_url("images"),
        "https://api.figma.com/v1/images/test-key"
    );
}

#[test]
fn test_extract_image_nodes() {
    let inner_image = node("1:3", Some("test_image2"), NodeType::Image);
    let mut frame = node("1:2", Some("frame"), NodeType::Frame);
    frame.children = Some(vec![inner_image]);
    let top_image = node("1:1", Some("test_image1"), NodeType::Image);
    let mut document = node("0:0", None, NodeType::Other);
    document.children = Some(vec![top_image, frame]);

    let nodes = FigmaImageExtractor::extract_image_nodes(document);
    assert_eq!(nodes.len(), 2);
    assert_eq!(nodes[0], ("1:3".to_string(), "test_image2".to_string()));
    assert_eq!(nodes[1], ("1:1".to_string(), "test_image1".to_string()));
}

#[test]
fn extractor_skips_image_nodes_without_id_or_name() {
    let unnamed = node("3:1", None, NodeType::Image);
    let mut anonymous = node("ignored", Some("kept-name"), NodeType::Image);
    anonymous.id = None;
    let named = node("3:2", Some("kept"), NodeType::Image);
    let mut document = node("0:0", None, NodeType::Other);
    document.children = Some(vec![unnamed, anonymous, named]);

    let nodes = FigmaImageExtractor::extract_image_nodes(document);
    assert_eq!(nodes, vec![("3:2".to_string(), "kept".to_string())]);
}

#[test]
fn an_empty_root_yields_no_records() {
    // An absent document decodes to a node with no fields: no error, no
    // records.
    let empty = DocumentNode {
        id: None,
        name: None,
        node_type: NodeType::Other,
        fills: None,
        children: None,
    };
    assert!(FigmaImageExtractor::extract_image_nodes(empty).is_empty());
}

#[test]
fn extractor_handles_deep_nesting_with_a_flat_call_stack() {
    let mut current = node("leaf", Some("deep_image"), NodeType::Image);
    for depth in 0..2000 {
        let mut wrapper = node(&format!("w:{}", depth), None, NodeType::Frame);
        wrapper.children = Some(vec![current]);
        current = wrapper;
    }

    let nodes = FigmaImageExtractor::extract_image_nodes(current);
    assert_eq!(nodes, vec![("leaf".to_string(), "deep_image".to_string())]);
}

#[test]
fn extractor_finds_every_image_node_exactly_once() {
    let mut document = node("0:0", None, NodeType::Other);
    let mut left = node("l", Some("left_frame"), NodeType::Frame);
    left.children = Some(vec![
        node("l:1", Some("a"), NodeType::Image),
        node("l:2", Some("b"), NodeType::Rectangle),
    ]);
    let mut right = node("r", Some("right_rect"), NodeType::Rectangle);
    right.fills = Some(vec![Fill { fill_type: FillType::Image }]);
    right.children = Some(vec![node("r:1", Some("c"), NodeType::Image)]);
    document.children = Some(vec![left, right]);

    let mut ids: Vec<String> = FigmaImageExtractor::extract_image_nodes(document)
        .into_iter()
        .map(|(id, _)| id)
        .collect();
    ids.sort();
    assert_eq!(ids, vec!["l:1".to_string(), "r".to_string(), "r:1".to_string()]);
}
