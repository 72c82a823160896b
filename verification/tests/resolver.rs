use cymbiont::reference_resolver::resolve_block_references;

fn map(entries: &[(&str, &str)]) -> Vec<(String, String)> {
    entries.iter().map(|(k, v)| (k.to_string(), v.to_string())).collect()
}

#[test]
fn reference_resolver_test_resolve_simple_block_reference() {
    let block_map = map(&[("block-123", "This is the referenced content")]);
    let mut visited = Vec::new();
    let result = resolve_block_references("See ((block-123)) for details", &block_map, &mut visited, None);
    assert_eq!(result, "See This is the referenced content for details");
}

#[test]
fn reference_resolver_test_resolve_multiple_block_references() {
    let block_map = map(&[("block-1", "first block"), ("block-2", "second block")]);
    let mut visited = Vec::new();
    let result = resolve_block_references(
        "Both ((block-1)) and ((block-2)) are important",
        &block_map,
        &mut visited,
        None,
    );
    assert_eq!(result, "Both first block and second block are important");
}

#[test]
fn reference_resolver_test_resolve_nested_block_references() {
    let block_map = map(&[
        ("block-a", "Block A references ((block-b))"),
        ("block-b", "Block B references ((block-c))"),
        ("block-c", "Block C content"),
    ]);
    let mut visited = Vec::new();
    let result = resolve_block_references("Start with ((block-a))", &block_map, &mut visited, None);
    assert_eq!(result, "Start with Block A references Block B references Block C content");
}

#[test]
fn reference_resolver_test_resolve_circular_references() {
    let block_map = map(&[
        ("block-a", "A references ((block-b))"),
        ("block-b", "B references ((block-a))"),
    ]);
    let mut visited = Vec::new();
    let result = resolve_block_references("Start: ((block-a))", &block_map, &mut visited, None);
    assert_eq!(result, "Start: A references B references ((block-a))");
}

#[test]
fn reference_resolver_test_resolve_self_reference() {
    let block_map = map(&[("self-ref", "This block references itself: ((self-ref))")]);
    let mut visited = Vec::new();
    let result = resolve_block_references("((self-ref))", &block_map, &mut visited, Some("self-ref"));
    assert_eq!(result, "((self-ref))");
}

#[test]
fn reference_resolver_test_resolve_missing_block_reference() {
    let block_map: Vec<(String, String)> = Vec::new();
    let mut visited = Vec::new();
    let result = resolve_block_references(
        "Reference to ((missing-block)) should remain",
        &block_map,
        &mut visited,
        None,
    );
    assert_eq!(result, "Reference to ((missing-block)) should remain");
}

#[test]
fn logseq_test_resolve_simple_block_reference() {
    let block_map = map(&[("block-123", "This is the referenced content")]);
    let mut visited = Vec::new();
    let result = resolve_block_references("See ((block-123)) for details", &block_map, &mut visited, None);
    assert_eq!(result, "See This is the referenced content for details");
}

#[test]
fn logseq_test_resolve_multiple_block_references() {
    let block_map = map(&[("block-1", "first block"), ("block-2", "second block")]);
    let mut visited = Vec::new();
    let result = resolve_block_references(
        "Both ((block-1)) and ((block-2)) are important",
        &block_map,
        &mut visited,
        None,
    );
    assert_eq!(result, "Both first block and second block are important");
}

#[test]
fn logseq_test_resolve_nested_block_references() {
    let block_map = map(&[
        ("block-a", "Block A references ((block-b))"),
        ("block-b", "Block B references ((block-c))"),
        ("block-c", "Block C content"),
    ]);
    let mut visited = Vec::new();
    let result = resolve_block_references("Start with ((block-a))", &block_map, &mut visited, None);
    assert_eq!(result, "Start with Block A references Block B references Block C content");
}

#[test]
fn logseq_test_resolve_circular_references() {
    let block_map = map(&[
        ("block-a", "A references ((block-b))"),
        ("block-b", "B references ((block-a))"),
    ]);
    let mut visited = Vec::new();
    let result = resolve_block_references("Start: ((block-a))", &block_map, &mut visited, None);
    assert_eq!(result, "Start: A references B references ((block-a))");

    let mut visited2 = Vec::new();
    let result2 = resolve_block_references("((block-a))", &block_map, &mut visited2, Some("block-a"));
    assert_eq!(result2, "((block-a))");
}

#[test]
fn logseq_test_resolve_missing_block_reference() {
    let block_map: Vec<(String, String)> = Vec::new();
    let mut visited = Vec::new();
    let result = resolve_block_references(
        "Reference to ((missing-block)) should remain",
        &block_map,
        &mut visited,
        None,
    );
    assert_eq!(result, "Reference to ((missing-block)) should remain");
}

#[test]
fn logseq_test_resolve_self_reference() {
    let block_map = map(&[("self-ref", "This block references itself: ((self-ref))")]);
    let mut visited = Vec::new();
    let result = resolve_block_references("((self-ref))", &block_map, &mut visited, Some("self-ref"));
    assert_eq!(result, "((self-ref))");
}

#[test]
fn test_resolve_empty_block_reference() {
    let block_map = map(&[("empty-block", "")]);
    let mut visited = Vec::new();
    let result = resolve_block_references("Empty: ((empty-block)) here", &block_map, &mut visited, None);
    assert_eq!(result, "Empty:  here");
}

#[test]
fn test_resolve_complex_content() {
    let block_map = map(&[("block-1", "**bold text**"), ("block-2", "[[Page Link]]")]);
    let mut visited = Vec::new();
    let result = resolve_block_references(
        "Mix of ((block-1)) and ((block-2)) with #tag",
        &block_map,
        &mut visited,
        None,
    );
    assert_eq!(result, "Mix of **bold text** and [[Page Link]] with #tag");
}

#[test]
fn test_resolve_empty_block_reference_syntax() {
    let block_map: Vec<(String, String)> = Vec::new();
    let mut visited = Vec::new();
    let result = resolve_block_references("Empty ref: (()) should remain", &block_map, &mut visited, None);
    assert_eq!(result, "Empty ref: (()) should remain");
}

#[test]
fn test_resolve_block_ref_at_boundaries() {
    let block_map = map(&[("start", "START"), ("end", "END")]);

    let mut visited = Vec::new();
    let result = resolve_block_references("((start)) of line", &block_map, &mut visited, None);
    assert_eq!(result, "START of line");

    let mut visited2 = Vec::new();
    let result2 = resolve_block_references("End of line ((end))", &block_map, &mut visited2, None);
    assert_eq!(result2, "End of line END");

    let mut visited3 = Vec::new();
    let result3 = resolve_block_references("((start))", &block_map, &mut visited3, None);
    assert_eq!(result3, "START");
}

#[test]
fn test_resolve_multiple_refs_same_block() {
    let block_map = map(&[("repeat", "REPEAT")]);
    let mut visited = Vec::new();
    let result = resolve_block_references("((repeat)) and ((repeat)) again", &block_map, &mut visited, None);
    assert_eq!(result, "REPEAT and REPEAT again");
}

#[test]
fn test_resolve_whitespace_in_ref() {
    let block_map: Vec<(String, String)> = Vec::new();
    let mut visited = Vec::new();
    let result = resolve_block_references("(( block-123 ))", &block_map, &mut visited, None);
    assert_eq!(result, "(( block-123 ))");
}

#[test]
fn test_resolve_deeply_nested() {
    let block_map = map(&[
        ("level1", "L1->((level2))"),
        ("level2", "L2->((level3))"),
        ("level3", "L3->((level4))"),
        ("level4", "L4->((level5))"),
        ("level5", "L5-END"),
    ]);
    let mut visited = Vec::new();
    let result = resolve_block_references("Start: ((level1))", &block_map, &mut visited, None);
    assert_eq!(result, "Start: L1->L2->L3->L4->L5-END");
}

#[test]
fn test_resolve_mixed_circular_noncircular() {
    let block_map = map(&[
        ("normal", "Normal content"),
        ("circ-a", "A->((circ-b))"),
        ("circ-b", "B->((circ-a))"),
        ("mixed", "Has ((normal)) and ((circ-a))"),
    ]);
    let mut visited = Vec::new();
    let result = resolve_block_references("((mixed))", &block_map, &mut visited, None);
    assert_eq!(result, "Has Normal content and A->B->((circ-a))");
}
