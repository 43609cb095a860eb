use vault_ingest::frontmatter::{extract_frontmatter, process_markdown, FrontmatterError};
use vault_ingest::models::Doc;

fn parse(bytes: &[u8]) -> Result<Doc, FrontmatterError> {
    let mut doc = Doc::default();
    process_markdown(bytes, &mut doc)?;
    Ok(doc)
}

#[test]
fn frontmatter_round_trip() {
    let doc = parse(b"---\ntitle: Hello\nslug: hello\n---\nBody text").unwrap();
    assert_eq!(doc.title, "Hello");
    assert_eq!(doc.slug, "hello");
    assert_eq!(doc.content, "Body text");
}

#[test]
fn extract_splits_metadata_and_body() {
    let (meta, body) = extract_frontmatter("---\ntitle: Hello\nslug: hello\n---\nBody text")
        .unwrap();
    assert_eq!(meta, "title: Hello\nslug: hello");
    assert_eq!(body, "Body text");
}

#[test]
fn missing_closing_delimiter() {
    let r = parse(b"---\ntitle: Hello\nBody text");
    assert_eq!(r.unwrap_err(), FrontmatterError::MissingClosingDelimiter);
}

#[test]
fn missing_opening_delimiter() {
    assert_eq!(
        parse(b"title: Hello\n---\n").unwrap_err(),
        FrontmatterError::MissingOpeningDelimiter
    );
    assert_eq!(parse(b"").unwrap_err(), FrontmatterError::MissingOpeningDelimiter);
}

#[test]
fn blank_lines_before_opening_delimiter_are_skipped() {
    let doc = parse(b"\n   \n---\ntitle: T\n---\nB").unwrap();
    assert_eq!(doc.title, "T");
    assert_eq!(doc.content, "B");
}

#[test]
fn invalid_encoding() {
    assert_eq!(
        parse(&[0xff, 0xfe, 0x2d]).unwrap_err(),
        FrontmatterError::InvalidEncoding
    );
}

#[test]
fn invalid_metadata_line() {
    assert_eq!(
        parse(b"---\nno colon here\n---\nbody").unwrap_err(),
        FrontmatterError::InvalidMetadata
    );
}

#[test]
fn stray_list_item_is_invalid() {
    assert_eq!(
        parse(b"---\n- stray\n---\nbody").unwrap_err(),
        FrontmatterError::InvalidMetadata
    );
}

#[test]
fn reference_lists_are_decoded_in_order() {
    let doc = parse(b"---\ntags:\n  - rust\n  - formal\nposts:\n  - other\n---\n").unwrap();
    assert_eq!(doc.tags, vec!["rust".to_string(), "formal".to_string()]);
    assert_eq!(doc.posts, vec!["other".to_string()]);
    assert!(doc.projects.is_empty());
}

#[test]
fn coordinates_accept_decimals_only() {
    let doc = parse(b"---\nx: 1.5\ny: -2\nz: oops\n---\n").unwrap();
    assert_eq!(doc.x, "1.5");
    assert_eq!(doc.y, "-2");
    assert_eq!(doc.z, "0");
}

#[test]
fn unknown_keys_are_ignored() {
    let doc = parse(b"---\nauthor: someone\ntitle: T\n---\n").unwrap();
    assert_eq!(doc.title, "T");
}

#[test]
fn later_binding_of_a_key_wins() {
    let doc = parse(b"---\ntitle: First\ntitle: Second\n---\n").unwrap();
    assert_eq!(doc.title, "Second");
}

#[test]
fn empty_value_then_items_builds_a_list() {
    let doc = parse(b"---\ntags:\n- a\n- b\n---\n").unwrap();
    assert_eq!(doc.tags, vec!["a".to_string(), "b".to_string()]);
}

#[test]
fn scalar_for_a_list_key_leaves_the_default() {
    let doc = parse(b"---\ntags: not-a-list\n---\n").unwrap();
    assert!(doc.tags.is_empty());
}

#[test]
fn body_preserves_inner_delimiter_free_lines() {
    let doc = parse(b"---\ntitle: T\n---\nline one\nline two\n").unwrap();
    assert_eq!(doc.content, "line one\nline two\n");
}

#[test]
fn everything_after_closing_delimiter_is_body() {
    let (_, body) = extract_frontmatter("---\na: b\n---\nx\n---\ny").unwrap();
    assert_eq!(body, "x\n---\ny");
}
