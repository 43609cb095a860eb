use vault_ingest::digest::hash;
use vault_ingest::frontmatter::FrontmatterError;
use vault_ingest::ingest::{asset_commit, asset_decision, process_document, DocError, DocOutcome};
use vault_ingest::store::Store;

#[test]
fn digest_is_the_md5_hex_of_the_bytes() {
    assert_eq!(hash(b"abc"), "900150983cd24fb0d6963f7d28e17f72");
    assert_eq!(hash(b""), "d41d8cd98f00b204e9800998ecf8427e");
}

#[test]
fn unchanged_file_is_skipped_on_the_second_run() {
    let mut store = Store::new();
    let bytes = b"---\ntitle: Hello\nslug: hello\n---\nBody";
    let first = process_document(&mut store, "posts/hello.md", bytes, 1).unwrap();
    assert!(matches!(first, DocOutcome::Persisted(_)));
    let second = process_document(&mut store, "posts/hello.md", bytes, 2).unwrap();
    assert_eq!(second, DocOutcome::Skipped);
    assert_eq!(store.count_entities("posts").unwrap(), 1);
    assert_eq!(store.count_cache_entries(), 1);
}

#[test]
fn changed_bytes_force_exactly_one_rewrite() {
    let mut store = Store::new();
    let v1 = b"---\ntitle: One\nslug: hello\n---\n";
    let v2 = b"---\ntitle: Two\nslug: hello\n---\n";
    let first = process_document(&mut store, "posts/hello.md", v1, 1).unwrap();
    let second = process_document(&mut store, "posts/hello.md", v2, 2).unwrap();
    assert!(matches!(second, DocOutcome::Persisted(_)));
    assert_eq!(first, second);
    assert_eq!(store.count_entities("posts").unwrap(), 1);
    assert_eq!(store.find_post_by_slug("hello").unwrap().title, "Two");
    let third = process_document(&mut store, "posts/hello.md", v2, 3).unwrap();
    assert_eq!(third, DocOutcome::Skipped);
}

#[test]
fn reference_to_a_later_entity_is_dropped() {
    let mut store = Store::new();
    let post = b"---\nslug: a\ntags:\n  - t\n---\n";
    process_document(&mut store, "posts/a.md", post, 1).unwrap();
    assert!(store.post_to_tags().is_empty());
    let tag = b"---\nslug: t\n---\n";
    process_document(&mut store, "tags/t.md", tag, 2).unwrap();
    // The tag arrived too late: the edge stays missing.
    assert!(store.post_to_tags().is_empty());
}

#[test]
fn reference_to_an_existing_entity_creates_the_edge() {
    let mut store = Store::new();
    let tag = b"---\nslug: t\n---\n";
    process_document(&mut store, "tags/t.md", tag, 1).unwrap();
    let tag_id = store.find_tag_by_slug("t").unwrap().id.unwrap();
    let post = b"---\nslug: a\ntags:\n  - t\n---\n";
    process_document(&mut store, "posts/a.md", post, 2).unwrap();
    let post_id = store.find_post_by_slug("a").unwrap().id.unwrap();
    assert_eq!(store.post_to_tags().as_slice(), &[(post_id, tag_id)]);
}

#[test]
fn cross_kind_references_use_the_right_tables() {
    let mut store = Store::new();
    process_document(&mut store, "posts/p.md", b"---\nslug: p\n---\n", 1).unwrap();
    process_document(&mut store, "projects/j.md", b"---\nslug: j\n---\n", 2).unwrap();
    let doc = b"---\nslug: t\nposts:\n  - p\nprojects:\n  - j\n---\n";
    process_document(&mut store, "tags/t.md", doc, 3).unwrap();
    let tag_id = store.find_tag_by_slug("t").unwrap().id.unwrap();
    let post_id = store.find_post_by_slug("p").unwrap().id.unwrap();
    let project_id = store.find_project_by_slug("j").unwrap().id.unwrap();
    assert_eq!(store.post_to_tags().as_slice(), &[(post_id, tag_id)]);
    assert_eq!(store.project_to_tags().as_slice(), &[(project_id, tag_id)]);
}

#[test]
fn document_outside_the_vault_layout_is_an_invalid_path() {
    let mut store = Store::new();
    let r = process_document(&mut store, "stray.md", b"---\nslug: s\n---\n", 1);
    assert_eq!(r.unwrap_err(), DocError::InvalidPath);
    assert_eq!(store.count_cache_entries(), 0);
}

#[test]
fn parse_failures_are_reported_and_write_nothing() {
    let mut store = Store::new();
    let r = process_document(&mut store, "posts/bad.md", b"no frontmatter here", 1);
    assert_eq!(
        r.unwrap_err(),
        DocError::Parse(FrontmatterError::MissingOpeningDelimiter)
    );
    assert_eq!(store.count_entities("posts").unwrap(), 0);
    assert_eq!(store.count_cache_entries(), 0);
}

#[test]
fn entity_fields_come_from_the_frontmatter() {
    let mut store = Store::new();
    let bytes = b"---\ntitle: My Tag\nslug: skill\nicon: star\nx: 3.5\n---\nAbout";
    process_document(&mut store, "tags/skill.md", bytes, 42).unwrap();
    let tag = store.find_tag_by_slug("skill").unwrap();
    assert_eq!(tag.title, "My Tag");
    assert_eq!(tag.icon, "star");
    assert_eq!(tag.content, "About");
    assert_eq!(tag.created_at, 42);
    assert_eq!(tag.x, "3.5");
    let cache = store.get_cache("tags/skill.md").unwrap();
    assert_eq!(cache.hash, hash(bytes));
    assert_eq!(cache.x, "3.5");
}

#[test]
fn asset_flow_uploads_once_per_content() {
    let mut store = Store::new();
    let bytes = b"\x89PNG fake bytes";
    let decision = asset_decision(&store, "assets/logo.png", bytes);
    let h = decision.expect("a new asset is dirty");
    assert_eq!(h, hash(bytes));
    asset_commit(&mut store, "assets/logo.png", &h);
    assert_eq!(asset_decision(&store, "assets/logo.png", bytes), None);
    let changed = b"\x89PNG other bytes";
    assert!(asset_decision(&store, "assets/logo.png", changed).is_some());
}

#[test]
fn failed_upload_leaves_the_asset_dirty() {
    let mut store = Store::new();
    let bytes = b"data";
    let h = asset_decision(&store, "assets/a.bin", bytes).unwrap();
    // The collaborator failed, so the cache entry is never written.
    let _ = h;
    assert!(asset_decision(&store, "assets/a.bin", bytes).is_some());
}
