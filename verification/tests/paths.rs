use vault_ingest::paths::{
    classify, doc_kind, get_content_type, is_allowed_asset, is_allowed_document_type,
    is_allowed_media_type, pathify, slugify, DocKind, FileClass, PathError,
};

#[test]
fn slugify_post_path() {
    assert_eq!(slugify("posts/hello-world.md").unwrap(), "hello-world");
}

#[test]
fn slugify_asset_path_keeps_subdirectories() {
    assert_eq!(slugify("assets/img/logo.png").unwrap(), "img/logo.png");
}

#[test]
fn slugify_unrecognized_prefix_is_invalid() {
    assert_eq!(slugify("random/file.md"), Err(PathError::InvalidPath));
    assert_eq!(slugify(""), Err(PathError::InvalidPath));
}

#[test]
fn slugify_drops_trailing_separators_and_extension() {
    assert_eq!(slugify("tags/rust/").unwrap(), "rust");
    assert_eq!(slugify("projects/site.tar.gz").unwrap(), "site");
    assert_eq!(slugify("posts/nested/piece.md").unwrap(), "nested/piece");
}

#[test]
fn pathify_strips_known_prefixes() {
    assert_eq!(pathify("posts/a.md").unwrap(), "a.md");
    assert_eq!(pathify("projects/p.md").unwrap(), "p.md");
    assert_eq!(pathify("tags/t.md").unwrap(), "t.md");
    assert_eq!(pathify("assets/x.png").unwrap(), "x.png");
    assert_eq!(pathify("elsewhere/x.png"), Err(PathError::InvalidPath));
}

#[test]
fn media_types_follow_the_allow_list() {
    assert!(is_allowed_media_type("assets/photo.jpg"));
    assert!(is_allowed_media_type("assets/photo.jpeg"));
    assert!(is_allowed_media_type("a.png"));
    assert!(is_allowed_media_type("a.gif"));
    assert!(is_allowed_media_type("a.webp"));
    assert!(is_allowed_media_type("a.avif"));
    assert!(is_allowed_media_type("a.tiff"));
    assert!(is_allowed_media_type("a.svg"));
    assert!(is_allowed_media_type("doc.pdf"));
    assert!(!is_allowed_media_type("a.PNG"));
    assert!(!is_allowed_media_type("a.txt"));
    assert!(!is_allowed_media_type(".hidden"));
    assert!(!is_allowed_media_type("noextension"));
    assert!(!is_allowed_media_type("dir.d/file"));
}

#[test]
fn document_types_are_markdown() {
    assert!(is_allowed_document_type("posts/a.md"));
    assert!(!is_allowed_document_type("posts/a.mdx"));
    assert!(!is_allowed_document_type("md"));
}

#[test]
fn assets_are_media_or_documents() {
    assert!(is_allowed_asset("a.png"));
    assert!(is_allowed_asset("a.md"));
    assert!(!is_allowed_asset("a.txt"));
}

#[test]
fn classify_media_then_document_then_ignored() {
    assert_eq!(classify("assets/a.png"), FileClass::MediaAsset);
    assert_eq!(classify("posts/a.md"), FileClass::Document);
    assert_eq!(classify("notes.txt"), FileClass::Ignored);
}

#[test]
fn content_type_is_guessed_from_the_extension() {
    assert_eq!(get_content_type("assets/logo.png"), "image/png");
    assert_eq!(get_content_type("doc.pdf"), "application/pdf");
    assert_eq!(get_content_type("mystery.zzz"), "application/octet-stream");
}

#[test]
fn doc_kind_follows_the_container_directory() {
    assert_eq!(doc_kind("posts/a.md"), Some(DocKind::Post));
    assert_eq!(doc_kind("projects/a.md"), Some(DocKind::Project));
    assert_eq!(doc_kind("tags/a.md"), Some(DocKind::Tag));
    assert_eq!(doc_kind("assets/a.md"), None);
    assert_eq!(doc_kind("a.md"), None);
}
