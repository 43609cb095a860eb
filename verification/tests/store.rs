use vault_ingest::models::{Cache, Post, PostToTag, Project, Tag};
use vault_ingest::store::{Store, StoreError};

fn sample_post(slug: &str, title: &str) -> Post {
    Post {
        id: None,
        title: title.to_string(),
        slug: slug.to_string(),
        description: String::new(),
        content: String::new(),
        banner_path: String::new(),
        created_at: 10,
        tags: Vec::new(),
        posts: Vec::new(),
        projects: Vec::new(),
        x: "0".to_string(),
        y: "0".to_string(),
        z: "0".to_string(),
    }
}

fn sample_project(slug: &str) -> Project {
    Project {
        id: None,
        title: String::new(),
        slug: slug.to_string(),
        description: String::new(),
        content: String::new(),
        banner_path: String::new(),
        created_at: 10,
        tags: Vec::new(),
        posts: Vec::new(),
        projects: Vec::new(),
        x: "0".to_string(),
        y: "0".to_string(),
        z: "0".to_string(),
    }
}

fn sample_tag(slug: &str) -> Tag {
    Tag {
        id: None,
        title: String::new(),
        slug: slug.to_string(),
        description: String::new(),
        content: String::new(),
        banner_path: String::new(),
        icon: String::new(),
        created_at: 10,
        tags: Vec::new(),
        posts: Vec::new(),
        projects: Vec::new(),
        x: "0".to_string(),
        y: "0".to_string(),
        z: "0".to_string(),
    }
}

#[test]
fn upsert_same_slug_twice_keeps_one_row_and_the_id() {
    let mut store = Store::new();
    let first = store.save_post(&sample_post("hello", "First title"));
    let second = store.save_post(&sample_post("hello", "Second title"));
    assert_eq!(first, second);
    assert_eq!(store.count_entities("posts").unwrap(), 1);
    let row = store.find_post_by_slug("hello").unwrap();
    assert_eq!(row.id, Some(first));
    assert_eq!(row.title, "Second title");
}

#[test]
fn distinct_slugs_get_distinct_ids() {
    let mut store = Store::new();
    let a = store.save_post(&sample_post("a", "A"));
    let b = store.save_post(&sample_post("b", "B"));
    assert_ne!(a, b);
    assert_eq!(store.count_entities("posts").unwrap(), 2);
}

#[test]
fn upsert_works_per_table() {
    let mut store = Store::new();
    let pid = store.save_project(&sample_project("p"));
    let pid2 = store.save_project(&sample_project("p"));
    assert_eq!(pid, pid2);
    let tid = store.save_tag(&sample_tag("t"));
    let tid2 = store.save_tag(&sample_tag("t"));
    assert_eq!(tid, tid2);
    assert_eq!(store.count_entities("projects").unwrap(), 1);
    assert_eq!(store.count_entities("tags").unwrap(), 1);
}

#[test]
fn find_by_slug_misses_are_none() {
    let store = Store::new();
    assert!(store.find_post_by_slug("nope").is_none());
    assert!(store.find_project_by_slug("nope").is_none());
    assert!(store.find_tag_by_slug("nope").is_none());
}

#[test]
fn edge_insert_is_idempotent() {
    let mut store = Store::new();
    let rel = PostToTag { post_id: 1, tag_id: 2 };
    store.save_post_to_tag(&rel);
    store.save_post_to_tag(&rel);
    assert_eq!(store.post_to_tags().len(), 1);
    assert_eq!(store.post_to_tags()[0], (1, 2));
    store.save_post_to_tag(&PostToTag { post_id: 1, tag_id: 3 });
    assert_eq!(store.post_to_tags().len(), 2);
}

#[test]
fn count_entities_refuses_unknown_tables() {
    let store = Store::new();
    assert_eq!(store.count_entities("caches"), Err(StoreError::InvalidTable));
    assert_eq!(store.count_entities(""), Err(StoreError::InvalidTable));
}

#[test]
fn cache_upsert_by_path_keeps_one_entry_and_its_id() {
    let mut store = Store::new();
    let entry = Cache {
        id: None,
        path: "posts/a.md".to_string(),
        hash: "h1".to_string(),
        x: "0".to_string(),
        y: "0".to_string(),
        z: "0".to_string(),
    };
    store.update_cache(&entry);
    let first = store.get_cache("posts/a.md").unwrap();
    let mut changed = entry.clone();
    changed.hash = "h2".to_string();
    store.update_cache(&changed);
    assert_eq!(store.count_cache_entries(), 1);
    let second = store.get_cache("posts/a.md").unwrap();
    assert_eq!(second.id, first.id);
    assert_eq!(second.hash, "h2");
}

#[test]
fn stored_rows_drop_the_reference_lists() {
    let mut store = Store::new();
    let mut post = sample_post("a", "A");
    post.tags = vec!["t".to_string()];
    post.posts = vec!["b".to_string()];
    post.projects = vec!["j".to_string()];
    store.save_post(&post);
    let row = store.find_post_by_slug("a").unwrap();
    assert!(row.tags.is_empty());
    assert!(row.posts.is_empty());
    assert!(row.projects.is_empty());
    let mut tag = sample_tag("t");
    tag.tags = vec!["u".to_string()];
    store.save_tag(&tag);
    assert!(store.find_tag_by_slug("t").unwrap().tags.is_empty());
    let mut project = sample_project("j");
    project.posts = vec!["a".to_string()];
    store.save_project(&project);
    assert!(store.find_project_by_slug("j").unwrap().posts.is_empty());
}

#[test]
fn seeded_rows_are_found_and_later_ids_follow() {
    let mut store = Store::new();
    let mut seeded = sample_post("old", "Old");
    seeded.id = Some(7);
    store.seed_post(&seeded);
    assert_eq!(store.find_post_by_slug("old").unwrap().id, Some(7));
    let fresh = store.save_post(&sample_post("new", "New"));
    assert_eq!(fresh, 8);
}
