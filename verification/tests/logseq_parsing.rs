use cymbiont::logseq::{
    convert_blocks_to_pkm, extract_references, get_indent_level, normalize_name, parse_logseq_file,
    parse_property, LogseqBlock,
};
use cymbiont::pkm_data::PKMBlockData;

fn prop<'a>(v: &'a Vec<(String, String)>, k: &str) -> Option<&'a String> {
    for (key, val) in v.iter() {
        if key == k {
            return Some(val);
        }
    }
    None
}

#[test]
fn test_parse_property() {
    assert_eq!(
        parse_property("id:: 12345"),
        Some(("id".to_string(), "12345".to_string()))
    );
    assert_eq!(
        parse_property("cymbiont-updated-ms:: 1752719785318"),
        Some(("cymbiont-updated-ms".to_string(), "1752719785318".to_string()))
    );
    assert_eq!(parse_property("not a property"), None);
}

#[test]
fn test_get_indent_level() {
    assert_eq!(get_indent_level("- Block"), Some(0));
    assert_eq!(get_indent_level("\t- Block"), Some(1));
    assert_eq!(get_indent_level("\t\t- Block"), Some(2));
    assert_eq!(get_indent_level("  - Block"), Some(1));
    assert_eq!(get_indent_level("    - Block"), Some(2));
    assert_eq!(get_indent_level("Not a block"), None);
}

#[test]
fn test_extract_references() {
    let content = "This is a [[page reference]] and a ((12345)) block ref with #tag";
    let refs = extract_references(content);

    assert_eq!(refs.len(), 3);
    assert_eq!(refs[0].ref_type, "page");
    assert_eq!(refs[0].name, "page reference");
    assert_eq!(refs[1].ref_type, "block");
    assert_eq!(refs[1].id, "12345");
    assert_eq!(refs[2].ref_type, "tag");
    assert_eq!(refs[2].name, "tag");
}

#[test]
fn test_parse_simple_block() {
    let content = "- This is a simple block";
    let blocks = parse_logseq_file(content).unwrap();

    assert_eq!(blocks.len(), 1);
    assert_eq!(blocks[0].content, "This is a simple block");
    assert_eq!(blocks[0].indent_level, 0);
    assert!(blocks[0].id.is_none());
    assert!(blocks[0].children.is_empty());
}

#[test]
fn test_parse_block_with_id() {
    let content = "- This is a block\n  id:: 12345-67890";
    let blocks = parse_logseq_file(content).unwrap();

    assert_eq!(blocks.len(), 1);
    assert_eq!(blocks[0].content, "This is a block");
    assert_eq!(blocks[0].id, Some("12345-67890".to_string()));
    assert_eq!(prop(&blocks[0].properties, "id"), Some(&"12345-67890".to_string()));
}

#[test]
fn test_parse_nested_blocks() {
    let content = "- Parent block\n\t- Child block 1\n\t- Child block 2\n\t\t- Grandchild block";
    let blocks = parse_logseq_file(content).unwrap();

    assert_eq!(blocks.len(), 1);
    assert_eq!(blocks[0].content, "Parent block");
    assert_eq!(blocks[0].children.len(), 2);

    assert_eq!(blocks[0].children[0].content, "Child block 1");
    assert_eq!(blocks[0].children[1].content, "Child block 2");
    assert_eq!(blocks[0].children[1].children.len(), 1);
    assert_eq!(blocks[0].children[1].children[0].content, "Grandchild block");
}

#[test]
fn test_parse_block_with_multiple_properties() {
    let content = "- Block with properties\n  id:: test-id\n  created:: 2024-01-01\n  tags:: #rust #testing";
    let blocks = parse_logseq_file(content).unwrap();

    assert_eq!(blocks.len(), 1);
    assert_eq!(blocks[0].properties.len(), 3);
    assert_eq!(prop(&blocks[0].properties, "id"), Some(&"test-id".to_string()));
    assert_eq!(prop(&blocks[0].properties, "created"), Some(&"2024-01-01".to_string()));
    assert_eq!(prop(&blocks[0].properties, "tags"), Some(&"#rust #testing".to_string()));
}

#[test]
fn test_parse_multiline_block() {
    let content = "- First line of block\n  This is the second line\n  And a third line";
    let blocks = parse_logseq_file(content).unwrap();

    assert_eq!(blocks.len(), 1);
    assert_eq!(
        blocks[0].content,
        "First line of block\nThis is the second line\nAnd a third line"
    );
}

#[test]
fn test_parse_empty_blocks_filtered() {
    let content = "- Non-empty block\n- \n\t- Child of empty";
    let blocks = parse_logseq_file(content).unwrap();

    assert_eq!(blocks.len(), 2);
    assert_eq!(blocks[0].content, "Non-empty block");
    assert_eq!(blocks[1].content, "");
    assert_eq!(blocks[1].children.len(), 1);
    assert_eq!(blocks[1].children[0].content, "Child of empty");
}

#[test]
fn test_convert_blocks_filters_empty() {
    let logseq_blocks = vec![
        LogseqBlock {
            id: None,
            content: "Good block".to_string(),
            properties: Vec::new(),
            children: vec![],
            indent_level: 0,
        },
        LogseqBlock {
            id: None,
            content: "  ".to_string(),
            properties: Vec::new(),
            children: vec![],
            indent_level: 0,
        },
    ];

    let mut all_blocks: Vec<PKMBlockData> = Vec::new();
    let block_ids = convert_blocks_to_pkm(&logseq_blocks, "test-page", &mut all_blocks, None).unwrap();

    assert_eq!(block_ids.len(), 1);
    assert_eq!(all_blocks.len(), 1);
    assert_eq!(all_blocks[0].content, "Good block");
}

#[test]
fn test_normalize_name() {
    assert_eq!(normalize_name("Test Page"), "test_page");
    assert_eq!(normalize_name("UPPERCASE"), "uppercase");
    assert_eq!(normalize_name("Multiple  Spaces"), "multiple__spaces");
}

#[test]
fn test_parse_page_properties() {
    let content = "title:: My Page\ncreated:: 2024-01-01\n\n- First block";
    let blocks = parse_logseq_file(content).unwrap();

    assert_eq!(blocks.len(), 1);
    assert_eq!(blocks[0].content, "First block");
}
