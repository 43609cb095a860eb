//! The per-task protocol a worker runs: hash the file's bytes, consult the
//! change-detection cache, and — only when the content changed — parse the
//! frontmatter, upsert the entity, resolve its slug references into edges,
//! and rewrite the cache entry. A reference whose target is not yet
//! persisted is silently dropped: scan order is not guaranteed, so an edge
//! to an entity processed later in the same run is lost. That ordering
//! dependency is deliberate and documented.

use vstd::prelude::*;
use vstd::string::*;

use crate::digest::{hash, md5_hex_of};
use crate::frontmatter::{process_markdown, process_markdown_model, FrontmatterError};
use crate::models::{
    default_doc, post_of_doc, project_of_doc, tag_of_doc, Cache, CacheV, Doc, DocV, PostToPost,
    PostToProject, PostToTag, PostV, ProjectToProject, ProjectToTag, ProjectV, TagToTag, TagV,
};
use crate::paths::{doc_kind, doc_kind_model, DocKind};
use crate::store::{
    cache_path_is, edge_insert, lemma_edge_insert_idempotent, post_slug_is, project_slug_is,
    store_wf, tag_slug_is, upsert_cache_model, upsert_post_model, upsert_project_model,
    upsert_tag_model, Store, StoreV,
};
use crate::text::{find_first, lemma_find_first_bounds, str_eq};

verus! {

/// Why a document task failed; every failure is task-local.
#[derive(Debug, Clone, Copy, PartialEq, Eq, Structural)]
pub enum DocError {
    InvalidPath,
    Parse(FrontmatterError),
}

/// What a document task did.
#[derive(Debug, Clone, Copy, PartialEq, Eq, Structural)]
pub enum DocOutcome {
    Skipped,
    Persisted(i64),
}

/// A file is dirty when no cache entry exists for its path or the stored
/// hash differs from its content's hash.
pub open spec fn is_dirty(s: StoreV, path: Seq<char>, content: Seq<u8>) -> bool {
    let j = find_first(s.caches, cache_path_is(path));
    j < 0 || s.caches[j].hash != md5_hex_of(content)
}

// ------------------------------------------------------------------
// Reference resolution: look each referenced slug up and record the edge
// when the target exists; drop the reference otherwise.
// ------------------------------------------------------------------

pub open spec fn lookup_post_id(posts: Seq<PostV>, slug: Seq<char>) -> Option<i64> {
    let j = find_first(posts, post_slug_is(slug));
    if j >= 0 {
        posts[j].id
    } else {
        None
    }
}

pub open spec fn lookup_project_id(projects: Seq<ProjectV>, slug: Seq<char>) -> Option<i64> {
    let j = find_first(projects, project_slug_is(slug));
    if j >= 0 {
        projects[j].id
    } else {
        None
    }
}

pub open spec fn lookup_tag_id(tags: Seq<TagV>, slug: Seq<char>) -> Option<i64> {
    let j = find_first(tags, tag_slug_is(slug));
    if j >= 0 {
        tags[j].id
    } else {
        None
    }
}

/// Folds one reference list into an edge table: each slug the resolver
/// finds contributes one idempotent insertion, the others are dropped.
pub open spec fn add_ref_edges(
    es: Seq<(i64, i64)>,
    refs: Seq<Seq<char>>,
    resolve: spec_fn(Seq<char>) -> Option<(i64, i64)>,
) -> Seq<(i64, i64)>
    decreases refs.len(),
{
    if refs.len() == 0 {
        es
    } else {
        let es1 = match resolve(refs[0]) {
            Option::Some(p) => edge_insert(es, p.0, p.1),
            Option::None => es,
        };
        add_ref_edges(es1, refs.drop_first(), resolve)
    }
}

/// A post's tag references become (post, tag) rows.
pub open spec fn post_tag_resolver(tags: Seq<TagV>, sid: i64) -> spec_fn(Seq<char>) -> Option<
    (i64, i64),
> {
    |slug: Seq<char>|
        match lookup_tag_id(tags, slug) {
            Option::Some(tid) => Option::Some((sid, tid)),
            Option::None => Option::None,
        }
}

/// A post's post references become (source, target) rows.
pub open spec fn post_post_resolver(posts: Seq<PostV>, sid: i64) -> spec_fn(Seq<char>) -> Option<
    (i64, i64),
> {
    |slug: Seq<char>|
        match lookup_post_id(posts, slug) {
            Option::Some(pid) => Option::Some((sid, pid)),
            Option::None => Option::None,
        }
}

/// A post's project references become (post, project) rows.
pub open spec fn post_project_resolver(projects: Seq<ProjectV>, sid: i64) -> spec_fn(
    Seq<char>,
) -> Option<(i64, i64)> {
    |slug: Seq<char>|
        match lookup_project_id(projects, slug) {
            Option::Some(prid) => Option::Some((sid, prid)),
            Option::None => Option::None,
        }
}

/// A project's tag references become (project, tag) rows.
pub open spec fn project_tag_resolver(tags: Seq<TagV>, sid: i64) -> spec_fn(Seq<char>) -> Option<
    (i64, i64),
> {
    |slug: Seq<char>|
        match lookup_tag_id(tags, slug) {
            Option::Some(tid) => Option::Some((sid, tid)),
            Option::None => Option::None,
        }
}

/// A project's post references become (post, project) rows, the found post
/// first.
pub open spec fn project_post_resolver(posts: Seq<PostV>, sid: i64) -> spec_fn(
    Seq<char>,
) -> Option<(i64, i64)> {
    |slug: Seq<char>|
        match lookup_post_id(posts, slug) {
            Option::Some(pid) => Option::Some((pid, sid)),
            Option::None => Option::None,
        }
}

/// A project's project references become (source, target) rows.
pub open spec fn project_project_resolver(projects: Seq<ProjectV>, sid: i64) -> spec_fn(
    Seq<char>,
) -> Option<(i64, i64)> {
    |slug: Seq<char>|
        match lookup_project_id(projects, slug) {
            Option::Some(prid) => Option::Some((sid, prid)),
            Option::None => Option::None,
        }
}

/// A tag's tag references become (source, target) rows.
pub open spec fn tag_tag_resolver(tags: Seq<TagV>, sid: i64) -> spec_fn(Seq<char>) -> Option<
    (i64, i64),
> {
    |slug: Seq<char>|
        match lookup_tag_id(tags, slug) {
            Option::Some(tid) => Option::Some((sid, tid)),
            Option::None => Option::None,
        }
}

/// A tag's post references become (post, tag) rows, the found post first.
pub open spec fn tag_post_resolver(posts: Seq<PostV>, sid: i64) -> spec_fn(Seq<char>) -> Option<
    (i64, i64),
> {
    |slug: Seq<char>|
        match lookup_post_id(posts, slug) {
            Option::Some(pid) => Option::Some((pid, sid)),
            Option::None => Option::None,
        }
}

/// A tag's project references become (project, tag) rows, the found
/// project first.
pub open spec fn tag_project_resolver(projects: Seq<ProjectV>, sid: i64) -> spec_fn(
    Seq<char>,
) -> Option<(i64, i64)> {
    |slug: Seq<char>|
        match lookup_project_id(projects, slug) {
            Option::Some(prid) => Option::Some((prid, sid)),
            Option::None => Option::None,
        }
}

/// Resolves a persisted post's reference lists against the store's current
/// tables and records one edge per reference whose target exists.
fn resolve_post_refs(
    store: &mut Store,
    sid: i64,
    tag_refs: &Vec<String>,
    post_refs: &Vec<String>,
    project_refs: &Vec<String>,
)
    requires
        old(store).wf(),
    ensures
        final(store).wf(),
        (final(store)@ == StoreV {
            post_to_tags: add_ref_edges(
                old(store)@.post_to_tags,
                tag_refs.deep_view(),
                post_tag_resolver(old(store)@.tags, sid),
            ),
            post_to_posts: add_ref_edges(
                old(store)@.post_to_posts,
                post_refs.deep_view(),
                post_post_resolver(old(store)@.posts, sid),
            ),
            post_to_projects: add_ref_edges(
                old(store)@.post_to_projects,
                project_refs.deep_view(),
                post_project_resolver(old(store)@.projects, sid),
            ),
            ..old(store)@
        }),
{
    let ghost s0 = store@;
    let ghost res_t = post_tag_resolver(s0.tags, sid);
    let ghost refs_t = tag_refs.deep_view();
    let mut i: usize = 0;
    proof {
        assert(refs_t.skip(0) =~= refs_t);
    }
    while i < tag_refs.len()
        invariant
            i <= tag_refs@.len(),
            refs_t == tag_refs.deep_view(),
            refs_t.len() == tag_refs@.len(),
            res_t == post_tag_resolver(s0.tags, sid),
            store_wf(s0),
            crate::store::edges_wf(store@.post_to_tags),
            store@ == (StoreV { post_to_tags: store@.post_to_tags, ..s0 }),
            add_ref_edges(s0.post_to_tags, refs_t, res_t) == add_ref_edges(
                store@.post_to_tags,
                refs_t.skip(i as int),
                res_t,
            ),
        decreases tag_refs@.len() - i,
    {
        let ghost pre = store@.post_to_tags;
        let ghost cur_ref = refs_t[i as int];
        proof {
            assert(cur_ref == tag_refs@[i as int]@);
            assert(refs_t.skip(i as int)[0] == cur_ref);
            assert(refs_t.skip(i as int).drop_first() =~= refs_t.skip(i as int + 1));
        }
        match store.find_tag_by_slug(tag_refs[i].as_str()) {
            Some(t) => {
                proof {
                    lemma_find_first_bounds(s0.tags, tag_slug_is(cur_ref));
                }
                match t.id {
                    Some(tid) => {
                        let rel = PostToTag { post_id: sid, tag_id: tid };
                        store.save_post_to_tag(&rel);
                        proof {
                            lemma_edge_insert_idempotent(pre, sid, tid);
                            assert(lookup_tag_id(s0.tags, cur_ref) == Some(tid));
                            assert(res_t(cur_ref) == Some((sid, tid)));
                        }
                    },
                    None => {
                        proof {
                            assert(false);
                        }
                    },
                }
            },
            None => {
                proof {
                    assert(lookup_tag_id(s0.tags, cur_ref) is None);
                    assert(res_t(cur_ref) is None);
                }
            },
        }
        i = i + 1;
    }
    proof {
        assert(refs_t.skip(refs_t.len() as int) =~= Seq::<Seq<char>>::empty());
    }
    let ghost s1 = store@;
    let ghost res_p = post_post_resolver(s0.posts, sid);
    let ghost refs_p = post_refs.deep_view();
    let mut k: usize = 0;
    proof {
        assert(refs_p.skip(0) =~= refs_p);
    }
    while k < post_refs.len()
        invariant
            k <= post_refs@.len(),
            refs_p == post_refs.deep_view(),
            refs_p.len() == post_refs@.len(),
            res_p == post_post_resolver(s0.posts, sid),
            store_wf(s0),
            s1.posts == s0.posts,
            crate::store::edges_wf(store@.post_to_posts),
            store@ == (StoreV { post_to_posts: store@.post_to_posts, ..s1 }),
            add_ref_edges(s1.post_to_posts, refs_p, res_p) == add_ref_edges(
                store@.post_to_posts,
                refs_p.skip(k as int),
                res_p,
            ),
        decreases post_refs@.len() - k,
    {
        let ghost pre = store@.post_to_posts;
        let ghost cur_ref = refs_p[k as int];
        proof {
            assert(cur_ref == post_refs@[k as int]@);
            assert(refs_p.skip(k as int)[0] == cur_ref);
            assert(refs_p.skip(k as int).drop_first() =~= refs_p.skip(k as int + 1));
        }
        match store.find_post_by_slug(post_refs[k].as_str()) {
            Some(p) => {
                proof {
                    lemma_find_first_bounds(s0.posts, post_slug_is(cur_ref));
                }
                match p.id {
                    Some(pid) => {
                        let rel = PostToPost { source_post_id: sid, target_post_id: pid };
                        store.save_post_to_post(&rel);
                        proof {
                            lemma_edge_insert_idempotent(pre, sid, pid);
                            assert(lookup_post_id(s0.posts, cur_ref) == Some(pid));
                            assert(res_p(cur_ref) == Some((sid, pid)));
                        }
                    },
                    None => {
                        proof {
                            assert(false);
                        }
                    },
                }
            },
            None => {
                proof {
                    assert(lookup_post_id(s0.posts, cur_ref) is None);
                    assert(res_p(cur_ref) is None);
                }
            },
        }
        k = k + 1;
    }
    proof {
        assert(refs_p.skip(refs_p.len() as int) =~= Seq::<Seq<char>>::empty());
    }
    let ghost s2 = store@;
    let ghost res_r = post_project_resolver(s0.projects, sid);
    let ghost refs_r = project_refs.deep_view();
    let mut m: usize = 0;
    proof {
        assert(refs_r.skip(0) =~= refs_r);
    }
    while m < project_refs.len()
        invariant
            m <= project_refs@.len(),
            refs_r == project_refs.deep_view(),
            refs_r.len() == project_refs@.len(),
            res_r == post_project_resolver(s0.projects, sid),
            store_wf(s0),
            s2.projects == s0.projects,
            crate::store::edges_wf(store@.post_to_projects),
            store@ == (StoreV { post_to_projects: store@.post_to_projects, ..s2 }),
            add_ref_edges(s2.post_to_projects, refs_r, res_r) == add_ref_edges(
                store@.post_to_projects,
                refs_r.skip(m as int),
                res_r,
            ),
        decreases project_refs@.len() - m,
    {
        let ghost pre = store@.post_to_projects;
        let ghost cur_ref = refs_r[m as int];
        proof {
            assert(cur_ref == project_refs@[m as int]@);
            assert(refs_r.skip(m as int)[0] == cur_ref);
            assert(refs_r.skip(m as int).drop_first() =~= refs_r.skip(m as int + 1));
        }
        match store.find_project_by_slug(project_refs[m].as_str()) {
            Some(p) => {
                proof {
                    lemma_find_first_bounds(s0.projects, project_slug_is(cur_ref));
                }
                match p.id {
                    Some(prid) => {
                        let rel = PostToProject { post_id: sid, project_id: prid };
                        store.save_post_to_project(&rel);
                        proof {
                            lemma_edge_insert_idempotent(pre, sid, prid);
                            assert(lookup_project_id(s0.projects, cur_ref) == Some(prid));
                            assert(res_r(cur_ref) == Some((sid, prid)));
                        }
                    },
                    None => {
                        proof {
                            assert(false);
                        }
                    },
                }
            },
            None => {
                proof {
                    assert(lookup_project_id(s0.projects, cur_ref) is None);
                    assert(res_r(cur_ref) is None);
                }
            },
        }
        m = m + 1;
    }
    proof {
        assert(refs_r.skip(refs_r.len() as int) =~= Seq::<Seq<char>>::empty());
    }
}

/// Resolves a persisted project's reference lists and records the found
/// edges.
fn resolve_project_refs(
    store: &mut Store,
    sid: i64,
    tag_refs: &Vec<String>,
    post_refs: &Vec<String>,
    project_refs: &Vec<String>,
)
    requires
        old(store).wf(),
    ensures
        final(store).wf(),
        (final(store)@ == StoreV {
            project_to_tags: add_ref_edges(
                old(store)@.project_to_tags,
                tag_refs.deep_view(),
                project_tag_resolver(old(store)@.tags, sid),
            ),
            post_to_projects: add_ref_edges(
                old(store)@.post_to_projects,
                post_refs.deep_view(),
                project_post_resolver(old(store)@.posts, sid),
            ),
            project_to_projects: add_ref_edges(
                old(store)@.project_to_projects,
                project_refs.deep_view(),
                project_project_resolver(old(store)@.projects, sid),
            ),
            ..old(store)@
        }),
{
    let ghost s0 = store@;
    let ghost res_t = project_tag_resolver(s0.tags, sid);
    let ghost refs_i = tag_refs.deep_view();
    let mut i: usize = 0;
    proof {
        assert(refs_i.skip(0) =~= refs_i);
    }
    while i < tag_refs.len()
        invariant
            i <= tag_refs@.len(),
            refs_i == tag_refs.deep_view(),
            refs_i.len() == tag_refs@.len(),
            res_t == project_tag_resolver(s0.tags, sid),
            store_wf(s0),
            crate::store::edges_wf(store@.project_to_tags),
            store@ == (StoreV { project_to_tags: store@.project_to_tags, ..s0 }),
            add_ref_edges(s0.project_to_tags, refs_i, res_t) == add_ref_edges(
                store@.project_to_tags,
                refs_i.skip(i as int),
                res_t,
            ),
        decreases tag_refs@.len() - i,
    {
        let ghost pre = store@.project_to_tags;
        let ghost cur_ref = refs_i[i as int];
        proof {
            assert(cur_ref == tag_refs@[i as int]@);
            assert(refs_i.skip(i as int)[0] == cur_ref);
            assert(refs_i.skip(i as int).drop_first() =~= refs_i.skip(i as int + 1));
        }
        match store.find_tag_by_slug(tag_refs[i].as_str()) {
            Some(t) => {
                proof {
                    lemma_find_first_bounds(s0.tags, tag_slug_is(cur_ref));
                }
                match t.id {
                    Some(tid) => {
                        let rel = ProjectToTag { project_id: sid, tag_id: tid };
                        store.save_project_to_tag(&rel);
                        proof {
                            lemma_edge_insert_idempotent(pre, sid, tid);
                            assert(lookup_tag_id(s0.tags, cur_ref) == Some(tid));
                            assert(res_t(cur_ref) == Some((sid, tid)));
                        }
                    },
                    None => {
                        proof {
                            assert(false);
                        }
                    },
                }
            },
            None => {
                proof {
                    assert(lookup_tag_id(s0.tags, cur_ref) is None);
                    assert(res_t(cur_ref) is None);
                }
            },
        }
        i = i + 1;
    }
    proof {
        assert(refs_i.skip(refs_i.len() as int) =~= Seq::<Seq<char>>::empty());
    }
    let ghost s1 = store@;
    let ghost res_p = project_post_resolver(s0.posts, sid);
    let ghost refs_k = post_refs.deep_view();
    let mut k: usize = 0;
    proof {
        assert(refs_k.skip(0) =~= refs_k);
    }
    while k < post_refs.len()
        invariant
            k <= post_refs@.len(),
            refs_k == post_refs.deep_view(),
            refs_k.len() == post_refs@.len(),
            res_p == project_post_resolver(s0.posts, sid),
            store_wf(s0),
            s1.posts == s0.posts,
            crate::store::edges_wf(store@.post_to_projects),
            store@ == (StoreV { post_to_projects: store@.post_to_projects, ..s1 }),
            add_ref_edges(s1.post_to_projects, refs_k, res_p) == add_ref_edges(
                store@.post_to_projects,
                refs_k.skip(k as int),
                res_p,
            ),
        decreases post_refs@.len() - k,
    {
        let ghost pre = store@.post_to_projects;
        let ghost cur_ref = refs_k[k as int];
        proof {
            assert(cur_ref == post_refs@[k as int]@);
            assert(refs_k.skip(k as int)[0] == cur_ref);
            assert(refs_k.skip(k as int).drop_first() =~= refs_k.skip(k as int + 1));
        }
        match store.find_post_by_slug(post_refs[k].as_str()) {
            Some(t) => {
                proof {
                    lemma_find_first_bounds(s0.posts, post_slug_is(cur_ref));
                }
                match t.id {
                    Some(pid) => {
                        let rel = PostToProject { post_id: pid, project_id: sid };
                        store.save_post_to_project(&rel);
                        proof {
                            lemma_edge_insert_idempotent(pre, pid, sid);
                            assert(lookup_post_id(s0.posts, cur_ref) == Some(pid));
                            assert(res_p(cur_ref) == Some((pid, sid)));
                        }
                    },
                    None => {
                        proof {
                            assert(false);
                        }
                    },
                }
            },
            None => {
                proof {
                    assert(lookup_post_id(s0.posts, cur_ref) is None);
                    assert(res_p(cur_ref) is None);
                }
            },
        }
        k = k + 1;
    }
    proof {
        assert(refs_k.skip(refs_k.len() as int) =~= Seq::<Seq<char>>::empty());
    }
    let ghost s2 = store@;
    let ghost res_r = project_project_resolver(s0.projects, sid);
    let ghost refs_m = project_refs.deep_view();
    let mut m: usize = 0;
    proof {
        assert(refs_m.skip(0) =~= refs_m);
    }
    while m < project_refs.len()
        invariant
            m <= project_refs@.len(),
            refs_m == project_refs.deep_view(),
            refs_m.len() == project_refs@.len(),
            res_r == project_project_resolver(s0.projects, sid),
            store_wf(s0),
            s2.projects == s0.projects,
            crate::store::edges_wf(store@.project_to_projects),
            store@ == (StoreV { project_to_projects: store@.project_to_projects, ..s2 }),
            add_ref_edges(s2.project_to_projects, refs_m, res_r) == add_ref_edges(
                store@.project_to_projects,
                refs_m.skip(m as int),
                res_r,
            ),
        decreases project_refs@.len() - m,
    {
        let ghost pre = store@.project_to_projects;
        let ghost cur_ref = refs_m[m as int];
        proof {
            assert(cur_ref == project_refs@[m as int]@);
            assert(refs_m.skip(m as int)[0] == cur_ref);
            assert(refs_m.skip(m as int).drop_first() =~= refs_m.skip(m as int + 1));
        }
        match store.find_project_by_slug(project_refs[m].as_str()) {
            Some(t) => {
                proof {
                    lemma_find_first_bounds(s0.projects, project_slug_is(cur_ref));
                }
                match t.id {
                    Some(prid) => {
                        let rel = ProjectToProject { source_project_id: sid, target_project_id: prid };
                        store.save_project_to_project(&rel);
                        proof {
                            lemma_edge_insert_idempotent(pre, sid, prid);
                            assert(lookup_project_id(s0.projects, cur_ref) == Some(prid));
                            assert(res_r(cur_ref) == Some((sid, prid)));
                        }
                    },
                    None => {
                        proof {
                            assert(false);
                        }
                    },
                }
            },
            None => {
                proof {
                    assert(lookup_project_id(s0.projects, cur_ref) is None);
                    assert(res_r(cur_ref) is None);
                }
            },
        }
        m = m + 1;
    }
    proof {
        assert(refs_m.skip(refs_m.len() as int) =~= Seq::<Seq<char>>::empty());
    }
}

/// Resolves a persisted tag's reference lists and records the found
/// edges.
fn resolve_tag_refs(
    store: &mut Store,
    sid: i64,
    tag_refs: &Vec<String>,
    post_refs: &Vec<String>,
    project_refs: &Vec<String>,
)
    requires
        old(store).wf(),
    ensures
        final(store).wf(),
        (final(store)@ == StoreV {
            tag_to_tags: add_ref_edges(
                old(store)@.tag_to_tags,
                tag_refs.deep_view(),
                tag_tag_resolver(old(store)@.tags, sid),
            ),
            post_to_tags: add_ref_edges(
                old(store)@.post_to_tags,
                post_refs.deep_view(),
                tag_post_resolver(old(store)@.posts, sid),
            ),
            project_to_tags: add_ref_edges(
                old(store)@.project_to_tags,
                project_refs.deep_view(),
                tag_project_resolver(old(store)@.projects, sid),
            ),
            ..old(store)@
        }),
{
    let ghost s0 = store@;
    let ghost res_t = tag_tag_resolver(s0.tags, sid);
    let ghost refs_i = tag_refs.deep_view();
    let mut i: usize = 0;
    proof {
        assert(refs_i.skip(0) =~= refs_i);
    }
    while i < tag_refs.len()
        invariant
            i <= tag_refs@.len(),
            refs_i == tag_refs.deep_view(),
            refs_i.len() == tag_refs@.len(),
            res_t == tag_tag_resolver(s0.tags, sid),
            store_wf(s0),
            crate::store::edges_wf(store@.tag_to_tags),
            store@ == (StoreV { tag_to_tags: store@.tag_to_tags, ..s0 }),
            add_ref_edges(s0.tag_to_tags, refs_i, res_t) == add_ref_edges(
                store@.tag_to_tags,
                refs_i.skip(i as int),
                res_t,
            ),
        decreases tag_refs@.len() - i,
    {
        let ghost pre = store@.tag_to_tags;
        let ghost cur_ref = refs_i[i as int];
        proof {
            assert(cur_ref == tag_refs@[i as int]@);
            assert(refs_i.skip(i as int)[0] == cur_ref);
            assert(refs_i.skip(i as int).drop_first() =~= refs_i.skip(i as int + 1));
        }
        match store.find_tag_by_slug(tag_refs[i].as_str()) {
            Some(t) => {
                proof {
                    lemma_find_first_bounds(s0.tags, tag_slug_is(cur_ref));
                }
                match t.id {
                    Some(tid) => {
                        let rel = TagToTag { source_tag_id: sid, target_tag_id: tid };
                        store.save_tag_to_tag(&rel);
                        proof {
                            lemma_edge_insert_idempotent(pre, sid, tid);
                            assert(lookup_tag_id(s0.tags, cur_ref) == Some(tid));
                            assert(res_t(cur_ref) == Some((sid, tid)));
                        }
                    },
                    None => {
                        proof {
                            assert(false);
                        }
                    },
                }
            },
            None => {
                proof {
                    assert(lookup_tag_id(s0.tags, cur_ref) is None);
                    assert(res_t(cur_ref) is None);
                }
            },
        }
        i = i + 1;
    }
    proof {
        assert(refs_i.skip(refs_i.len() as int) =~= Seq::<Seq<char>>::empty());
    }
    let ghost s1 = store@;
    let ghost res_p = tag_post_resolver(s0.posts, sid);
    let ghost refs_k = post_refs.deep_view();
    let mut k: usize = 0;
    proof {
        assert(refs_k.skip(0) =~= refs_k);
    }
    while k < post_refs.len()
        invariant
            k <= post_refs@.len(),
            refs_k == post_refs.deep_view(),
            refs_k.len() == post_refs@.len(),
            res_p == tag_post_resolver(s0.posts, sid),
            store_wf(s0),
            s1.posts == s0.posts,
            crate::store::edges_wf(store@.post_to_tags),
            store@ == (StoreV { post_to_tags: store@.post_to_tags, ..s1 }),
            add_ref_edges(s1.post_to_tags, refs_k, res_p) == add_ref_edges(
                store@.post_to_tags,
                refs_k.skip(k as int),
                res_p,
            ),
        decreases post_refs@.len() - k,
    {
        let ghost pre = store@.post_to_tags;
        let ghost cur_ref = refs_k[k as int];
        proof {
            assert(cur_ref == post_refs@[k as int]@);
            assert(refs_k.skip(k as int)[0] == cur_ref);
            assert(refs_k.skip(k as int).drop_first() =~= refs_k.skip(k as int + 1));
        }
        match store.find_post_by_slug(post_refs[k].as_str()) {
            Some(t) => {
                proof {
                    lemma_find_first_bounds(s0.posts, post_slug_is(cur_ref));
                }
                match t.id {
                    Some(pid) => {
                        let rel = PostToTag { post_id: pid, tag_id: sid };
                        store.save_post_to_tag(&rel);
                        proof {
                            lemma_edge_insert_idempotent(pre, pid, sid);
                            assert(lookup_post_id(s0.posts, cur_ref) == Some(pid));
                            assert(res_p(cur_ref) == Some((pid, sid)));
                        }
                    },
                    None => {
                        proof {
                            assert(false);
                        }
                    },
                }
            },
            None => {
                proof {
                    assert(lookup_post_id(s0.posts, cur_ref) is None);
                    assert(res_p(cur_ref) is None);
                }
            },
        }
        k = k + 1;
    }
    proof {
        assert(refs_k.skip(refs_k.len() as int) =~= Seq::<Seq<char>>::empty());
    }
    let ghost s2 = store@;
    let ghost res_r = tag_project_resolver(s0.projects, sid);
    let ghost refs_m = project_refs.deep_view();
    let mut m: usize = 0;
    proof {
        assert(refs_m.skip(0) =~= refs_m);
    }
    while m < project_refs.len()
        invariant
            m <= project_refs@.len(),
            refs_m == project_refs.deep_view(),
            refs_m.len() == project_refs@.len(),
            res_r == tag_project_resolver(s0.projects, sid),
            store_wf(s0),
            s2.projects == s0.projects,
            crate::store::edges_wf(store@.project_to_tags),
            store@ == (StoreV { project_to_tags: store@.project_to_tags, ..s2 }),
            add_ref_edges(s2.project_to_tags, refs_m, res_r) == add_ref_edges(
                store@.project_to_tags,
                refs_m.skip(m as int),
                res_r,
            ),
        decreases project_refs@.len() - m,
    {
        let ghost pre = store@.project_to_tags;
        let ghost cur_ref = refs_m[m as int];
        proof {
            assert(cur_ref == project_refs@[m as int]@);
            assert(refs_m.skip(m as int)[0] == cur_ref);
            assert(refs_m.skip(m as int).drop_first() =~= refs_m.skip(m as int + 1));
        }
        match store.find_project_by_slug(project_refs[m].as_str()) {
            Some(t) => {
                proof {
                    lemma_find_first_bounds(s0.projects, project_slug_is(cur_ref));
                }
                match t.id {
                    Some(prid) => {
                        let rel = ProjectToTag { project_id: prid, tag_id: sid };
                        store.save_project_to_tag(&rel);
                        proof {
                            lemma_edge_insert_idempotent(pre, prid, sid);
                            assert(lookup_project_id(s0.projects, cur_ref) == Some(prid));
                            assert(res_r(cur_ref) == Some((prid, sid)));
                        }
                    },
                    None => {
                        proof {
                            assert(false);
                        }
                    },
                }
            },
            None => {
                proof {
                    assert(lookup_project_id(s0.projects, cur_ref) is None);
                    assert(res_r(cur_ref) is None);
                }
            },
        }
        m = m + 1;
    }
    proof {
        assert(refs_m.skip(refs_m.len() as int) =~= Seq::<Seq<char>>::empty());
    }
}

// ------------------------------------------------------------------
// The document protocol.
// ------------------------------------------------------------------

/// The record a worker starts from: empty fields, the file's path and
/// content hash, and the current time as both timestamps.
pub open spec fn doc_seed(path: Seq<char>, now: i64, h: Seq<char>) -> DocV {
    DocV { path: path, created_at: now, updated_at: now, hash: h, ..default_doc() }
}

/// The cache entry a processed document leaves behind.
pub open spec fn cache_of(path: Seq<char>, h: Seq<char>, dv: DocV) -> CacheV {
    CacheV { id: None, path: path, hash: h, x: dv.x, y: dv.y, z: dv.z }
}

/// Upserting the parsed record into its table and resolving its references.
pub open spec fn persist_doc_model(s: StoreV, kind: DocKind, dv: DocV) -> (StoreV, i64) {
    match kind {
        DocKind::Post => {
            let (nposts, nnext, id) = upsert_post_model(s.posts, s.next_post_id, post_of_doc(dv));
            let s1 = StoreV { posts: nposts, next_post_id: nnext, ..s };
            let s2 = StoreV {
                post_to_tags: add_ref_edges(
                    s1.post_to_tags,
                    dv.tags,
                    post_tag_resolver(s1.tags, id),
                ),
                post_to_posts: add_ref_edges(
                    s1.post_to_posts,
                    dv.posts,
                    post_post_resolver(s1.posts, id),
                ),
                post_to_projects: add_ref_edges(
                    s1.post_to_projects,
                    dv.projects,
                    post_project_resolver(s1.projects, id),
                ),
                ..s1
            };
            (s2, id)
        },
        DocKind::Project => {
            let (nprojects, nnext, id) = upsert_project_model(
                s.projects,
                s.next_project_id,
                project_of_doc(dv),
            );
            let s1 = StoreV { projects: nprojects, next_project_id: nnext, ..s };
            let s2 = StoreV {
                project_to_tags: add_ref_edges(
                    s1.project_to_tags,
                    dv.tags,
                    project_tag_resolver(s1.tags, id),
                ),
                post_to_projects: add_ref_edges(
                    s1.post_to_projects,
                    dv.posts,
                    project_post_resolver(s1.posts, id),
                ),
                project_to_projects: add_ref_edges(
                    s1.project_to_projects,
                    dv.projects,
                    project_project_resolver(s1.projects, id),
                ),
                ..s1
            };
            (s2, id)
        },
        DocKind::Tag => {
            let (ntags, nnext, id) = upsert_tag_model(s.tags, s.next_tag_id, tag_of_doc(dv));
            let s1 = StoreV { tags: ntags, next_tag_id: nnext, ..s };
            let s2 = StoreV {
                tag_to_tags: add_ref_edges(
                    s1.tag_to_tags,
                    dv.tags,
                    tag_tag_resolver(s1.tags, id),
                ),
                post_to_tags: add_ref_edges(
                    s1.post_to_tags,
                    dv.posts,
                    tag_post_resolver(s1.posts, id),
                ),
                project_to_tags: add_ref_edges(
                    s1.project_to_tags,
                    dv.projects,
                    tag_project_resolver(s1.projects, id),
                ),
                ..s1
            };
            (s2, id)
        },
    }
}

/// What one document task does to the store. A clean file is skipped with
/// no write at all; a dirty one must carry a recognized container prefix,
/// parse, and is then upserted, resolved and recorded in the cache.
pub open spec fn process_document_model(
    s: StoreV,
    path: Seq<char>,
    content: Seq<u8>,
    now: i64,
) -> (StoreV, Result<DocOutcome, DocError>) {
    if !is_dirty(s, path, content) {
        (s, Ok(DocOutcome::Skipped))
    } else {
        match doc_kind_model(path) {
            Option::None => (s, Err(DocError::InvalidPath)),
            Option::Some(kind) => {
                let h = md5_hex_of(content);
                match process_markdown_model(doc_seed(path, now, h), content) {
                    Err(e) => (s, Err(DocError::Parse(e))),
                    Ok(dv) => {
                        let (s2, id) = persist_doc_model(s, kind, dv);
                        let (ncaches, nnext) = upsert_cache_model(
                            s2.caches,
                            s2.next_cache_id,
                            cache_of(path, h, dv),
                        );
                        (
                            StoreV { caches: ncaches, next_cache_id: nnext, ..s2 },
                            Ok(DocOutcome::Persisted(id)),
                        )
                    },
                }
            },
        }
    }
}

/// Runs one document task: hash, change detection, parse, upsert, resolve,
/// cache write. Every failure is task-local and leaves the store untouched.
pub fn process_document(store: &mut Store, path: &str, content: &[u8], now: i64) -> (r: Result<
    DocOutcome,
    DocError,
>)
    requires
        old(store).wf(),
        old(store)@.next_post_id < i64::MAX,
        old(store)@.next_project_id < i64::MAX,
        old(store)@.next_tag_id < i64::MAX,
        old(store)@.next_cache_id < i64::MAX,
    ensures
        final(store).wf(),
        ((final(store)@, r) == process_document_model(old(store)@, path@, content@, now)),
{
    let ghost s0 = store@;
    let h = hash(content);
    if let Some(c) = store.get_cache(path) {
        proof {
            lemma_find_first_bounds(s0.caches, cache_path_is(path@));
        }
        if str_eq(c.hash.as_str(), h.as_str()) {
            proof {
                assert(!is_dirty(s0, path@, content@));
            }
            return Ok(DocOutcome::Skipped);
        }
    }
    proof {
        assert(is_dirty(s0, path@, content@));
    }
    let kind = match doc_kind(path) {
        Some(k) => k,
        None => {
            return Err(DocError::InvalidPath);
        },
    };
    let mut doc = Doc::default();
    doc.path = String::from_str(path);
    doc.created_at = now;
    doc.updated_at = now;
    doc.hash = h.clone();
    proof {
        assert(doc@ == doc_seed(path@, now, md5_hex_of(content@)));
    }
    match process_markdown(content, &mut doc) {
        Err(e) => {
            return Err(DocError::Parse(e));
        },
        Ok(()) => {},
    }
    let ghost dv = doc@;
    let id = match kind {
        DocKind::Post => {
            let entity = crate::models::Post::from(doc.clone());
            proof {
                assert(entity@ == post_of_doc(dv));
            }
            let id = store.save_post(&entity);
            resolve_post_refs(store, id, &doc.tags, &doc.posts, &doc.projects);
            id
        },
        DocKind::Project => {
            let entity = crate::models::Project::from(doc.clone());
            proof {
                assert(entity@ == project_of_doc(dv));
            }
            let id = store.save_project(&entity);
            resolve_project_refs(store, id, &doc.tags, &doc.posts, &doc.projects);
            id
        },
        DocKind::Tag => {
            let entity = crate::models::Tag::from(doc.clone());
            proof {
                assert(entity@ == tag_of_doc(dv));
            }
            let id = store.save_tag(&entity);
            resolve_tag_refs(store, id, &doc.tags, &doc.posts, &doc.projects);
            id
        },
    };
    proof {
        assert((store@, id) == persist_doc_model(s0, kind, dv));
    }
    let entry = Cache {
        id: None,
        path: String::from_str(path),
        hash: h,
        x: doc.x.clone(),
        y: doc.y.clone(),
        z: doc.z.clone(),
    };
    proof {
        assert(entry@ == cache_of(path@, md5_hex_of(content@), dv));
    }
    store.update_cache(&entry);
    Ok(DocOutcome::Persisted(id))
}

// ------------------------------------------------------------------
// The asset protocol: the upload itself is the caller's collaborator; the
// decision and the cache write are verified here.
// ------------------------------------------------------------------

/// Decides whether an asset needs uploading: its content hash when the file
/// is dirty, nothing when the cache already holds that hash.
pub fn asset_decision(store: &Store, path: &str, content: &[u8]) -> (r: Option<String>)
    ensures
        r is Some <==> is_dirty(store@, path@, content@),
        r matches Some(h) ==> h@ == md5_hex_of(content@),
{
    let h = hash(content);
    proof {
        lemma_find_first_bounds(store@.caches, cache_path_is(path@));
    }
    match store.get_cache(path) {
        Some(c) => {
            if str_eq(c.hash.as_str(), h.as_str()) {
                None
            } else {
                Some(h)
            }
        },
        None => Some(h),
    }
}

/// Records a successful upload: the cache entry is rewritten so the asset
/// is clean for the next run. On upload failure the caller simply does not
/// call this, leaving the file dirty.
pub fn asset_commit(store: &mut Store, path: &str, hash_value: &str)
    requires
        old(store).wf(),
        old(store)@.next_cache_id < i64::MAX,
    ensures
        final(store).wf(),
        ({
            let entry = CacheV {
                id: None,
                path: path@,
                hash: hash_value@,
                x: "0"@,
                y: "0"@,
                z: "0"@,
            };
            let (ncaches, nnext) = upsert_cache_model(
                old(store)@.caches,
                old(store)@.next_cache_id,
                entry,
            );
            final(store)@ == StoreV { caches: ncaches, next_cache_id: nnext, ..old(store)@ }
        }),
{
    let entry = Cache {
        id: None,
        path: String::from_str(path),
        hash: String::from_str(hash_value),
        x: String::from_str("0"),
        y: String::from_str("0"),
        z: String::from_str("0"),
    };
    store.update_cache(&entry);
}

/// Law: change detection. A run that succeeds leaves the cache holding the
/// content's hash, so processing the same path and bytes again is a
/// successful no-op; and a run that fails leaves the store unchanged, so it
/// repeats identically.
pub proof fn lemma_change_detection(
    s: StoreV,
    path: Seq<char>,
    content: Seq<u8>,
    now: i64,
    now2: i64,
)
    ensures
        ({
            let (s1, r1) = process_document_model(s, path, content, now);
            &&& (r1 is Ok ==> process_document_model(s1, path, content, now2) == (
                s1,
                Ok::<DocOutcome, DocError>(DocOutcome::Skipped),
            ))
            &&& (r1 matches Err(e) ==> s1 == s && process_document_model(s1, path, content, now2)
                == (s, Err::<DocOutcome, DocError>(e)))
        }),
{
    let (s1, r1) = process_document_model(s, path, content, now);
    let h = md5_hex_of(content);
    if is_dirty(s, path, content) && doc_kind_model(path) is Some && process_markdown_model(
        doc_seed(path, now, h),
        content,
    ) is Ok {
        let dv = process_markdown_model(doc_seed(path, now, h), content)->Ok_0;
        let kind = doc_kind_model(path)->Some_0;
        let (s2, id) = persist_doc_model(s, kind, dv);
        let c = cache_of(path, h, dv);
        let j = find_first(s2.caches, cache_path_is(c.path));
        lemma_find_first_bounds(s2.caches, cache_path_is(c.path));
        if j >= 0 {
            let nc = s2.caches.update(j, CacheV { id: s2.caches[j].id, ..c });
            assert(nc[j].path == path && nc[j].hash == h);
            assert(forall|i: int| 0 <= i < j ==> !(cache_path_is(c.path)(nc[i])));
            crate::text::lemma_find_first_is(nc, cache_path_is(path), j);
            assert(!is_dirty(s1, path, content));
        } else {
            let nc = s2.caches.push(CacheV { id: Some(s2.next_cache_id), ..c });
            assert(nc[s2.caches.len() as int].path == path);
            assert(forall|i: int| 0 <= i < s2.caches.len() ==> !(cache_path_is(c.path)(nc[i])));
            crate::text::lemma_find_first_is(nc, cache_path_is(path), s2.caches.len() as int);
            assert(!is_dirty(s1, path, content));
        }
    }
}

} // verus!
