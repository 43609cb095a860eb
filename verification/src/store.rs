//! The persistence contract, verified: upsert-by-slug that preserves the
//! existing identity on conflict, idempotent edge insertion, and the
//! change-detection cache, all over an in-memory row store owned by a single
//! writer. A mirror of these rows in an external relational store is the
//! caller's concern; every rule about what the rows look like is proved
//! here.

use vstd::prelude::*;
use vstd::string::*;

use crate::models::{
    Cache, CacheV, Post, PostToPost, PostToProject, PostToTag, PostV, Project, ProjectToProject,
    ProjectToTag, ProjectV, Tag, TagToTag, TagV,
};
use crate::text::{find_first, lemma_find_first_bounds, lemma_find_first_is, str_eq};

verus! {

/// A request the store cannot serve.
#[derive(Debug, Clone, Copy, PartialEq, Eq, Structural)]
pub enum StoreError {
    InvalidTable,
}

/// Mathematical image of the store: one sequence of rows per table.
pub struct StoreV {
    pub posts: Seq<PostV>,
    pub projects: Seq<ProjectV>,
    pub tags: Seq<TagV>,
    pub post_to_tags: Seq<(i64, i64)>,
    pub post_to_posts: Seq<(i64, i64)>,
    pub post_to_projects: Seq<(i64, i64)>,
    pub project_to_tags: Seq<(i64, i64)>,
    pub project_to_projects: Seq<(i64, i64)>,
    pub tag_to_tags: Seq<(i64, i64)>,
    pub caches: Seq<CacheV>,
    pub next_post_id: i64,
    pub next_project_id: i64,
    pub next_tag_id: i64,
    pub next_cache_id: i64,
}

/// The single-writer row store.
pub struct Store {
    posts: Vec<Post>,
    projects: Vec<Project>,
    tags: Vec<Tag>,
    post_to_tags: Vec<(i64, i64)>,
    post_to_posts: Vec<(i64, i64)>,
    post_to_projects: Vec<(i64, i64)>,
    project_to_tags: Vec<(i64, i64)>,
    project_to_projects: Vec<(i64, i64)>,
    tag_to_tags: Vec<(i64, i64)>,
    caches: Vec<Cache>,
    next_post_id: i64,
    next_project_id: i64,
    next_tag_id: i64,
    next_cache_id: i64,
}

impl View for Store {
    type V = StoreV;

    closed spec fn view(&self) -> StoreV {
        StoreV {
            posts: self.posts.deep_view(),
            projects: self.projects.deep_view(),
            tags: self.tags.deep_view(),
            post_to_tags: self.post_to_tags@,
            post_to_posts: self.post_to_posts@,
            post_to_projects: self.post_to_projects@,
            project_to_tags: self.project_to_tags@,
            project_to_projects: self.project_to_projects@,
            tag_to_tags: self.tag_to_tags@,
            caches: self.caches.deep_view(),
            next_post_id: self.next_post_id,
            next_project_id: self.next_project_id,
            next_tag_id: self.next_tag_id,
            next_cache_id: self.next_cache_id,
        }
    }
}

// ------------------------------------------------------------------
// Slug and path predicates.
// ------------------------------------------------------------------

pub open spec fn post_slug_is(slug: Seq<char>) -> spec_fn(PostV) -> bool {
    |p: PostV| p.slug == slug
}

pub open spec fn project_slug_is(slug: Seq<char>) -> spec_fn(ProjectV) -> bool {
    |p: ProjectV| p.slug == slug
}

pub open spec fn tag_slug_is(slug: Seq<char>) -> spec_fn(TagV) -> bool {
    |t: TagV| t.slug == slug
}

pub open spec fn cache_path_is(path: Seq<char>) -> spec_fn(CacheV) -> bool {
    |c: CacheV| c.path == path
}

// ------------------------------------------------------------------
// Well-formedness: unique slugs and paths, assigned distinct ids below
// the table's next id, and no duplicate edge rows.
// ------------------------------------------------------------------

pub open spec fn posts_wf(posts: Seq<PostV>, next: i64) -> bool {
    &&& 0 < next
    &&& forall|i: int, j: int|
        0 <= i < j < posts.len() ==> (#[trigger] posts[i]).slug != (#[trigger] posts[j]).slug
    &&& forall|i: int|
        0 <= i < posts.len() ==> (#[trigger] posts[i]).id is Some && 0 < posts[i].id->Some_0
            < next
    &&& forall|i: int, j: int|
        0 <= i < j < posts.len() ==> (#[trigger] posts[i]).id != (#[trigger] posts[j]).id
}

pub open spec fn projects_wf(projects: Seq<ProjectV>, next: i64) -> bool {
    &&& 0 < next
    &&& forall|i: int, j: int|
        0 <= i < j < projects.len() ==> (#[trigger] projects[i]).slug != (
        #[trigger] projects[j]).slug
    &&& forall|i: int|
        0 <= i < projects.len() ==> (#[trigger] projects[i]).id is Some && 0 < projects[i].id
            ->Some_0 < next
    &&& forall|i: int, j: int|
        0 <= i < j < projects.len() ==> (#[trigger] projects[i]).id != (#[trigger] projects[j]).id
}

pub open spec fn tags_wf(tags: Seq<TagV>, next: i64) -> bool {
    &&& 0 < next
    &&& forall|i: int, j: int|
        0 <= i < j < tags.len() ==> (#[trigger] tags[i]).slug != (#[trigger] tags[j]).slug
    &&& forall|i: int|
        0 <= i < tags.len() ==> (#[trigger] tags[i]).id is Some && 0 < tags[i].id->Some_0 < next
    &&& forall|i: int, j: int|
        0 <= i < j < tags.len() ==> (#[trigger] tags[i]).id != (#[trigger] tags[j]).id
}

pub open spec fn caches_wf(caches: Seq<CacheV>, next: i64) -> bool {
    &&& 0 < next
    &&& forall|i: int, j: int|
        0 <= i < j < caches.len() ==> (#[trigger] caches[i]).path != (#[trigger] caches[j]).path
    &&& forall|i: int|
        0 <= i < caches.len() ==> (#[trigger] caches[i]).id is Some && 0 < caches[i].id->Some_0
            < next
}

pub open spec fn edges_wf(es: Seq<(i64, i64)>) -> bool {
    forall|i: int, j: int| 0 <= i < j < es.len() ==> es[i] != es[j]
}

pub open spec fn store_wf(s: StoreV) -> bool {
    &&& posts_wf(s.posts, s.next_post_id)
    &&& projects_wf(s.projects, s.next_project_id)
    &&& tags_wf(s.tags, s.next_tag_id)
    &&& caches_wf(s.caches, s.next_cache_id)
    &&& edges_wf(s.post_to_tags)
    &&& edges_wf(s.post_to_posts)
    &&& edges_wf(s.post_to_projects)
    &&& edges_wf(s.project_to_tags)
    &&& edges_wf(s.project_to_projects)
    &&& edges_wf(s.tag_to_tags)
}

// ------------------------------------------------------------------
// The upsert and edge-insert models.
// ------------------------------------------------------------------

/// The row a post is actually stored as: the given id, and the transient
/// reference lists cleared — relations live only in the edge tables.
pub open spec fn stored_post(p: PostV, id: Option<i64>) -> PostV {
    PostV { id, tags: Seq::empty(), posts: Seq::empty(), projects: Seq::empty(), ..p }
}

/// The row a project is actually stored as; see `stored_post`.
pub open spec fn stored_project(p: ProjectV, id: Option<i64>) -> ProjectV {
    ProjectV { id, tags: Seq::empty(), posts: Seq::empty(), projects: Seq::empty(), ..p }
}

/// The row a tag is actually stored as; see `stored_post`.
pub open spec fn stored_tag(t: TagV, id: Option<i64>) -> TagV {
    TagV { id, tags: Seq::empty(), posts: Seq::empty(), projects: Seq::empty(), ..t }
}

/// Insert-or-overwrite by slug: on conflict every stored field is replaced
/// but the existing id is kept; otherwise the row is appended under the next
/// id. Reference lists are never part of the row. Yields the new table, the
/// next id, and the id the row ended up with.
pub open spec fn upsert_post_model(posts: Seq<PostV>, next: i64, p: PostV) -> (
    Seq<PostV>,
    i64,
    i64,
) {
    let j = find_first(posts, post_slug_is(p.slug));
    if j >= 0 {
        (posts.update(j, stored_post(p, posts[j].id)), next, posts[j].id->Some_0)
    } else {
        (posts.push(stored_post(p, Some(next))), (next + 1) as i64, next)
    }
}

pub open spec fn upsert_project_model(projects: Seq<ProjectV>, next: i64, p: ProjectV) -> (
    Seq<ProjectV>,
    i64,
    i64,
) {
    let j = find_first(projects, project_slug_is(p.slug));
    if j >= 0 {
        (projects.update(j, stored_project(p, projects[j].id)), next, projects[j].id->Some_0)
    } else {
        (projects.push(stored_project(p, Some(next))), (next + 1) as i64, next)
    }
}

pub open spec fn upsert_tag_model(tags: Seq<TagV>, next: i64, t: TagV) -> (Seq<TagV>, i64, i64) {
    let j = find_first(tags, tag_slug_is(t.slug));
    if j >= 0 {
        (tags.update(j, stored_tag(t, tags[j].id)), next, tags[j].id->Some_0)
    } else {
        (tags.push(stored_tag(t, Some(next))), (next + 1) as i64, next)
    }
}

/// Upsert by path for cache entries: hash and coordinates are replaced, the
/// id of an existing entry is kept.
pub open spec fn upsert_cache_model(caches: Seq<CacheV>, next: i64, c: CacheV) -> (
    Seq<CacheV>,
    i64,
) {
    let j = find_first(caches, cache_path_is(c.path));
    if j >= 0 {
        (caches.update(j, CacheV { id: caches[j].id, ..c }), next)
    } else {
        (caches.push(CacheV { id: Some(next), ..c }), (next + 1) as i64)
    }
}

/// Idempotent edge insertion: inserting an existing pair changes nothing.
pub open spec fn edge_insert(es: Seq<(i64, i64)>, a: i64, b: i64) -> Seq<(i64, i64)> {
    if es.contains((a, b)) {
        es
    } else {
        es.push((a, b))
    }
}

// ------------------------------------------------------------------
// Index search helpers.
// ------------------------------------------------------------------

fn find_post_idx(posts: &Vec<Post>, slug: &str) -> (r: Option<usize>)
    ensures
        r matches Some(i) ==> i < posts@.len() && find_first(
            posts.deep_view(),
            post_slug_is(slug@),
        ) == i,
        r is None ==> find_first(posts.deep_view(), post_slug_is(slug@)) < 0,
{
    let ghost d = posts.deep_view();
    let mut i: usize = 0;
    while i < posts.len()
        invariant
            i <= posts@.len(),
            d == posts.deep_view(),
            d.len() == posts@.len(),
            forall|j: int| 0 <= j < i ==> d[j].slug != slug@,
        decreases posts@.len() - i,
    {
        if str_eq(posts[i].slug.as_str(), slug) {
            proof {
                lemma_find_first_is(d, post_slug_is(slug@), i as int);
            }
            return Some(i);
        }
        i = i + 1;
    }
    proof {
        crate::text::lemma_find_first_none(d, post_slug_is(slug@));
    }
    None
}

fn find_project_idx(projects: &Vec<Project>, slug: &str) -> (r: Option<usize>)
    ensures
        r matches Some(i) ==> i < projects@.len() && find_first(
            projects.deep_view(),
            project_slug_is(slug@),
        ) == i,
        r is None ==> find_first(projects.deep_view(), project_slug_is(slug@)) < 0,
{
    let ghost d = projects.deep_view();
    let mut i: usize = 0;
    while i < projects.len()
        invariant
            i <= projects@.len(),
            d == projects.deep_view(),
            d.len() == projects@.len(),
            forall|j: int| 0 <= j < i ==> d[j].slug != slug@,
        decreases projects@.len() - i,
    {
        if str_eq(projects[i].slug.as_str(), slug) {
            proof {
                lemma_find_first_is(d, project_slug_is(slug@), i as int);
            }
            return Some(i);
        }
        i = i + 1;
    }
    proof {
        crate::text::lemma_find_first_none(d, project_slug_is(slug@));
    }
    None
}

fn find_tag_idx(tags: &Vec<Tag>, slug: &str) -> (r: Option<usize>)
    ensures
        r matches Some(i) ==> i < tags@.len() && find_first(
            tags.deep_view(),
            tag_slug_is(slug@),
        ) == i,
        r is None ==> find_first(tags.deep_view(), tag_slug_is(slug@)) < 0,
{
    let ghost d = tags.deep_view();
    let mut i: usize = 0;
    while i < tags.len()
        invariant
            i <= tags@.len(),
            d == tags.deep_view(),
            d.len() == tags@.len(),
            forall|j: int| 0 <= j < i ==> d[j].slug != slug@,
        decreases tags@.len() - i,
    {
        if str_eq(tags[i].slug.as_str(), slug) {
            proof {
                lemma_find_first_is(d, tag_slug_is(slug@), i as int);
            }
            return Some(i);
        }
        i = i + 1;
    }
    proof {
        crate::text::lemma_find_first_none(d, tag_slug_is(slug@));
    }
    None
}

fn find_cache_idx(caches: &Vec<Cache>, path: &str) -> (r: Option<usize>)
    ensures
        r matches Some(i) ==> i < caches@.len() && find_first(
            caches.deep_view(),
            cache_path_is(path@),
        ) == i,
        r is None ==> find_first(caches.deep_view(), cache_path_is(path@)) < 0,
{
    let ghost d = caches.deep_view();
    let mut i: usize = 0;
    while i < caches.len()
        invariant
            i <= caches@.len(),
            d == caches.deep_view(),
            d.len() == caches@.len(),
            forall|j: int| 0 <= j < i ==> d[j].path != path@,
        decreases caches@.len() - i,
    {
        if str_eq(caches[i].path.as_str(), path) {
            proof {
                lemma_find_first_is(d, cache_path_is(path@), i as int);
            }
            return Some(i);
        }
        i = i + 1;
    }
    proof {
        crate::text::lemma_find_first_none(d, cache_path_is(path@));
    }
    None
}

/// Appends the pair unless it is already present.
fn insert_pair(es: &mut Vec<(i64, i64)>, a: i64, b: i64)
    ensures
        final(es)@ == edge_insert(old(es)@, a, b),
{
    let mut i: usize = 0;
    while i < es.len()
        invariant
            i <= es@.len(),
            es@ == old(es)@,
            forall|j: int| 0 <= j < i ==> es@[j] != (a, b),
        decreases es@.len() - i,
    {
        if es[i].0 == a && es[i].1 == b {
            proof {
                assert(es@[i as int] == (a, b));
                assert(es@.contains((a, b)));
            }
            return;
        }
        i = i + 1;
    }
    proof {
        assert(forall|j: int| 0 <= j < es@.len() ==> es@[j] != (a, b));
        assert(!es@.contains((a, b)));
    }
    es.push((a, b));
}


// ------------------------------------------------------------------
// Well-formedness is preserved by in-place overwrite and by appending a
// fresh row under a fresh id.
// ------------------------------------------------------------------

proof fn lemma_posts_wf_update(d: Seq<PostV>, next: i64, i: int, npv: PostV)
    requires
        posts_wf(d, next),
        0 <= i < d.len(),
        npv.slug == d[i].slug,
        npv.id == d[i].id,
    ensures
        posts_wf(d.update(i, npv), next),
{
    let nd = d.update(i, npv);
    assert forall|a: int, b: int|
        0 <= a < b < nd.len() implies (#[trigger] nd[a]).slug != (#[trigger] nd[b]).slug by {
        assert(d[a].slug != d[b].slug);
    }
    assert forall|a: int|
        0 <= a < nd.len() implies (#[trigger] nd[a]).id is Some && 0 < nd[a].id->Some_0
            < next by {
        assert(d[a].id is Some && 0 < d[a].id->Some_0 < next);
    }
    assert forall|a: int, b: int|
        0 <= a < b < nd.len() implies (#[trigger] nd[a]).id != (#[trigger] nd[b]).id by {
        assert(d[a].id != d[b].id);
    }
}

proof fn lemma_posts_wf_push(d: Seq<PostV>, next: i64, npv: PostV)
    requires
        posts_wf(d, next),
        npv.id is Some,
        next <= npv.id->Some_0 < i64::MAX,
        forall|i: int| 0 <= i < d.len() ==> (#[trigger] d[i]).slug != npv.slug,
    ensures
        posts_wf(d.push(npv), (npv.id->Some_0 + 1) as i64),
{
    let nd = d.push(npv);
    let nn = (npv.id->Some_0 + 1) as i64;
    assert forall|a: int, b: int|
        0 <= a < b < nd.len() implies (#[trigger] nd[a]).slug != (#[trigger] nd[b]).slug by {
        if b < d.len() {
            assert(d[a].slug != d[b].slug);
        } else {
            assert(d[a].slug != npv.slug);
        }
    }
    assert forall|a: int|
        0 <= a < nd.len() implies (#[trigger] nd[a]).id is Some && 0 < nd[a].id->Some_0 < nn by {
        if a < d.len() {
            assert(d[a].id is Some && 0 < d[a].id->Some_0 < next);
        }
    }
    assert forall|a: int, b: int|
        0 <= a < b < nd.len() implies (#[trigger] nd[a]).id != (#[trigger] nd[b]).id by {
        if b < d.len() {
            assert(d[a].id != d[b].id);
        } else {
            assert(d[a].id is Some && 0 < d[a].id->Some_0 < next);
        }
    }
}

proof fn lemma_projects_wf_update(d: Seq<ProjectV>, next: i64, i: int, npv: ProjectV)
    requires
        projects_wf(d, next),
        0 <= i < d.len(),
        npv.slug == d[i].slug,
        npv.id == d[i].id,
    ensures
        projects_wf(d.update(i, npv), next),
{
    let nd = d.update(i, npv);
    assert forall|a: int, b: int|
        0 <= a < b < nd.len() implies (#[trigger] nd[a]).slug != (#[trigger] nd[b]).slug by {
        assert(d[a].slug != d[b].slug);
    }
    assert forall|a: int|
        0 <= a < nd.len() implies (#[trigger] nd[a]).id is Some && 0 < nd[a].id->Some_0
            < next by {
        assert(d[a].id is Some && 0 < d[a].id->Some_0 < next);
    }
    assert forall|a: int, b: int|
        0 <= a < b < nd.len() implies (#[trigger] nd[a]).id != (#[trigger] nd[b]).id by {
        assert(d[a].id != d[b].id);
    }
}

proof fn lemma_projects_wf_push(d: Seq<ProjectV>, next: i64, npv: ProjectV)
    requires
        projects_wf(d, next),
        npv.id is Some,
        next <= npv.id->Some_0 < i64::MAX,
        forall|i: int| 0 <= i < d.len() ==> (#[trigger] d[i]).slug != npv.slug,
    ensures
        projects_wf(d.push(npv), (npv.id->Some_0 + 1) as i64),
{
    let nd = d.push(npv);
    let nn = (npv.id->Some_0 + 1) as i64;
    assert forall|a: int, b: int|
        0 <= a < b < nd.len() implies (#[trigger] nd[a]).slug != (#[trigger] nd[b]).slug by {
        if b < d.len() {
            assert(d[a].slug != d[b].slug);
        } else {
            assert(d[a].slug != npv.slug);
        }
    }
    assert forall|a: int|
        0 <= a < nd.len() implies (#[trigger] nd[a]).id is Some && 0 < nd[a].id->Some_0 < nn by {
        if a < d.len() {
            assert(d[a].id is Some && 0 < d[a].id->Some_0 < next);
        }
    }
    assert forall|a: int, b: int|
        0 <= a < b < nd.len() implies (#[trigger] nd[a]).id != (#[trigger] nd[b]).id by {
        if b < d.len() {
            assert(d[a].id != d[b].id);
        } else {
            assert(d[a].id is Some && 0 < d[a].id->Some_0 < next);
        }
    }
}

proof fn lemma_tags_wf_update(d: Seq<TagV>, next: i64, i: int, ntv: TagV)
    requires
        tags_wf(d, next),
        0 <= i < d.len(),
        ntv.slug == d[i].slug,
        ntv.id == d[i].id,
    ensures
        tags_wf(d.update(i, ntv), next),
{
    let nd = d.update(i, ntv);
    assert forall|a: int, b: int|
        0 <= a < b < nd.len() implies (#[trigger] nd[a]).slug != (#[trigger] nd[b]).slug by {
        assert(d[a].slug != d[b].slug);
    }
    assert forall|a: int|
        0 <= a < nd.len() implies (#[trigger] nd[a]).id is Some && 0 < nd[a].id->Some_0
            < next by {
        assert(d[a].id is Some && 0 < d[a].id->Some_0 < next);
    }
    assert forall|a: int, b: int|
        0 <= a < b < nd.len() implies (#[trigger] nd[a]).id != (#[trigger] nd[b]).id by {
        assert(d[a].id != d[b].id);
    }
}

proof fn lemma_tags_wf_push(d: Seq<TagV>, next: i64, ntv: TagV)
    requires
        tags_wf(d, next),
        ntv.id is Some,
        next <= ntv.id->Some_0 < i64::MAX,
        forall|i: int| 0 <= i < d.len() ==> (#[trigger] d[i]).slug != ntv.slug,
    ensures
        tags_wf(d.push(ntv), (ntv.id->Some_0 + 1) as i64),
{
    let nd = d.push(ntv);
    let nn = (ntv.id->Some_0 + 1) as i64;
    assert forall|a: int, b: int|
        0 <= a < b < nd.len() implies (#[trigger] nd[a]).slug != (#[trigger] nd[b]).slug by {
        if b < d.len() {
            assert(d[a].slug != d[b].slug);
        } else {
            assert(d[a].slug != ntv.slug);
        }
    }
    assert forall|a: int|
        0 <= a < nd.len() implies (#[trigger] nd[a]).id is Some && 0 < nd[a].id->Some_0 < nn by {
        if a < d.len() {
            assert(d[a].id is Some && 0 < d[a].id->Some_0 < next);
        }
    }
    assert forall|a: int, b: int|
        0 <= a < b < nd.len() implies (#[trigger] nd[a]).id != (#[trigger] nd[b]).id by {
        if b < d.len() {
            assert(d[a].id != d[b].id);
        } else {
            assert(d[a].id is Some && 0 < d[a].id->Some_0 < next);
        }
    }
}

proof fn lemma_caches_wf_update(d: Seq<CacheV>, next: i64, i: int, ncv: CacheV)
    requires
        caches_wf(d, next),
        0 <= i < d.len(),
        ncv.path == d[i].path,
        ncv.id == d[i].id,
    ensures
        caches_wf(d.update(i, ncv), next),
{
    let nd = d.update(i, ncv);
    assert forall|a: int, b: int|
        0 <= a < b < nd.len() implies (#[trigger] nd[a]).path != (#[trigger] nd[b]).path by {
        assert(d[a].path != d[b].path);
    }
    assert forall|a: int|
        0 <= a < nd.len() implies (#[trigger] nd[a]).id is Some && 0 < nd[a].id->Some_0
            < next by {
        assert(d[a].id is Some && 0 < d[a].id->Some_0 < next);
    }
}

proof fn lemma_caches_wf_push(d: Seq<CacheV>, next: i64, ncv: CacheV)
    requires
        caches_wf(d, next),
        ncv.id == Some(next),
        next < i64::MAX,
        forall|i: int| 0 <= i < d.len() ==> (#[trigger] d[i]).path != ncv.path,
    ensures
        caches_wf(d.push(ncv), (next + 1) as i64),
{
    let nd = d.push(ncv);
    assert forall|a: int, b: int|
        0 <= a < b < nd.len() implies (#[trigger] nd[a]).path != (#[trigger] nd[b]).path by {
        if b < d.len() {
            assert(d[a].path != d[b].path);
        } else {
            assert(d[a].path != ncv.path);
        }
    }
    assert forall|a: int|
        0 <= a < nd.len() implies (#[trigger] nd[a]).id is Some && 0 < nd[a].id->Some_0 < next
            + 1 by {
        if a < d.len() {
            assert(d[a].id is Some && 0 < d[a].id->Some_0 < next);
        }
    }
}

impl Store {
    /// An empty store; ids are assigned from 1 up, per table.
    pub fn new() -> (s: Store)
        ensures
            s.wf(),
            s@.posts.len() == 0,
            s@.projects.len() == 0,
            s@.tags.len() == 0,
            s@.caches.len() == 0,
            s@.post_to_tags.len() == 0,
            s@.post_to_posts.len() == 0,
            s@.post_to_projects.len() == 0,
            s@.project_to_tags.len() == 0,
            s@.project_to_projects.len() == 0,
            s@.tag_to_tags.len() == 0,
            s@.next_post_id == 1 && s@.next_project_id == 1 && s@.next_tag_id == 1
                && s@.next_cache_id == 1,
    {
        Store {
            posts: Vec::new(),
            projects: Vec::new(),
            tags: Vec::new(),
            post_to_tags: Vec::new(),
            post_to_posts: Vec::new(),
            post_to_projects: Vec::new(),
            project_to_tags: Vec::new(),
            project_to_projects: Vec::new(),
            tag_to_tags: Vec::new(),
            caches: Vec::new(),
            next_post_id: 1,
            next_project_id: 1,
            next_tag_id: 1,
            next_cache_id: 1,
        }
    }

    pub open spec fn wf(self) -> bool {
        store_wf(self@)
    }

    /// Looks a post up by its slug.
    pub fn find_post_by_slug(&self, slug: &str) -> (r: Option<Post>)
        ensures
            ({
                let j = find_first(self@.posts, post_slug_is(slug@));
                &&& (r is Some <==> j >= 0)
                &&& (r matches Some(p) ==> j >= 0 && p@ == self@.posts[j])
            }),
    {
        match find_post_idx(&self.posts, slug) {
            Some(i) => Some(self.posts[i].clone()),
            None => None,
        }
    }

    /// Looks a project up by its slug.
    pub fn find_project_by_slug(&self, slug: &str) -> (r: Option<Project>)
        ensures
            ({
                let j = find_first(self@.projects, project_slug_is(slug@));
                &&& (r is Some <==> j >= 0)
                &&& (r matches Some(p) ==> j >= 0 && p@ == self@.projects[j])
            }),
    {
        match find_project_idx(&self.projects, slug) {
            Some(i) => Some(self.projects[i].clone()),
            None => None,
        }
    }

    /// Looks a tag up by its slug.
    pub fn find_tag_by_slug(&self, slug: &str) -> (r: Option<Tag>)
        ensures
            ({
                let j = find_first(self@.tags, tag_slug_is(slug@));
                &&& (r is Some <==> j >= 0)
                &&& (r matches Some(t) ==> j >= 0 && t@ == self@.tags[j])
            }),
    {
        match find_tag_idx(&self.tags, slug) {
            Some(i) => Some(self.tags[i].clone()),
            None => None,
        }
    }

    /// Upserts a post by slug and returns the id it ended up with. The
    /// record's reference lists are not stored on the row; they are resolved
    /// into edge tables separately.
    pub fn save_post(&mut self, post: &Post) -> (id: i64)
        requires
            old(self).wf(),
            old(self)@.next_post_id < i64::MAX,
        ensures
            final(self).wf(),
            ({
                let (nposts, nnext, nid) = upsert_post_model(
                    old(self)@.posts,
                    old(self)@.next_post_id,
                    post@,
                );
                final(self)@ == StoreV { posts: nposts, next_post_id: nnext, ..old(self)@ } && id
                    == nid
            }),
    {
        let ghost d = self@.posts;
        match find_post_idx(&self.posts, post.slug.as_str()) {
            Some(i) => {
                proof {
                    lemma_find_first_bounds(d, post_slug_is(post@.slug));
                }
                let old_id = self.posts[i].id;
                let mut np = post.clone();
                np.id = old_id;
                np.tags = Vec::new();
                np.posts = Vec::new();
                np.projects = Vec::new();
                proof {
                    assert(np.tags.deep_view() =~= Seq::<Seq<char>>::empty());
                    assert(np.posts.deep_view() =~= Seq::<Seq<char>>::empty());
                    assert(np.projects.deep_view() =~= Seq::<Seq<char>>::empty());
                }
                let ghost npv = np.deep_view();
                self.posts.remove(i);
                self.posts.insert(i, np);
                proof {
                    assert(npv == stored_post(post@, d[i as int].id));
                    assert forall|k: int| 0 <= k < self@.posts.len() implies self@.posts[k]
                        == d.update(i as int, npv)[k] by {}
                    assert(self@.posts =~= d.update(i as int, npv));
                    lemma_posts_wf_update(d, old(self)@.next_post_id, i as int, npv);
                }
                match old_id {
                    Some(v) => v,
                    None => {
                        proof {
                            assert(false);
                        }
                        0
                    },
                }
            },
            None => {
                proof {
                    lemma_find_first_bounds(d, post_slug_is(post@.slug));
                }
                let mut np = post.clone();
                let id = self.next_post_id;
                np.id = Some(id);
                np.tags = Vec::new();
                np.posts = Vec::new();
                np.projects = Vec::new();
                proof {
                    assert(np.tags.deep_view() =~= Seq::<Seq<char>>::empty());
                    assert(np.posts.deep_view() =~= Seq::<Seq<char>>::empty());
                    assert(np.projects.deep_view() =~= Seq::<Seq<char>>::empty());
                }
                let ghost npv = np.deep_view();
                self.posts.push(np);
                self.next_post_id = id + 1;
                proof {
                    assert(npv == stored_post(post@, Some(id)));
                    assert(self@.posts =~= d.push(npv));
                    lemma_posts_wf_push(d, old(self)@.next_post_id, npv);
                }
                id
            },
        }
    }

    /// Upserts a project by slug and returns the id it ended up with.
    pub fn save_project(&mut self, project: &Project) -> (id: i64)
        requires
            old(self).wf(),
            old(self)@.next_project_id < i64::MAX,
        ensures
            final(self).wf(),
            ({
                let (nprojects, nnext, nid) = upsert_project_model(
                    old(self)@.projects,
                    old(self)@.next_project_id,
                    project@,
                );
                final(self)@ == StoreV {
                    projects: nprojects,
                    next_project_id: nnext,
                    ..old(self)@
                } && id == nid
            }),
    {
        let ghost d = self@.projects;
        match find_project_idx(&self.projects, project.slug.as_str()) {
            Some(i) => {
                proof {
                    lemma_find_first_bounds(d, project_slug_is(project@.slug));
                }
                let old_id = self.projects[i].id;
                let mut np = project.clone();
                np.id = old_id;
                np.tags = Vec::new();
                np.posts = Vec::new();
                np.projects = Vec::new();
                proof {
                    assert(np.tags.deep_view() =~= Seq::<Seq<char>>::empty());
                    assert(np.posts.deep_view() =~= Seq::<Seq<char>>::empty());
                    assert(np.projects.deep_view() =~= Seq::<Seq<char>>::empty());
                }
                let ghost npv = np.deep_view();
                self.projects.remove(i);
                self.projects.insert(i, np);
                proof {
                    assert(npv == stored_project(project@, d[i as int].id));
                    assert forall|k: int| 0 <= k < self@.projects.len() implies self@.projects[k]
                        == d.update(i as int, npv)[k] by {}
                    assert(self@.projects =~= d.update(i as int, npv));
                    lemma_projects_wf_update(d, old(self)@.next_project_id, i as int, npv);
                }
                match old_id {
                    Some(v) => v,
                    None => {
                        proof {
                            assert(false);
                        }
                        0
                    },
                }
            },
            None => {
                proof {
                    lemma_find_first_bounds(d, project_slug_is(project@.slug));
                }
                let mut np = project.clone();
                let id = self.next_project_id;
                np.id = Some(id);
                np.tags = Vec::new();
                np.posts = Vec::new();
                np.projects = Vec::new();
                proof {
                    assert(np.tags.deep_view() =~= Seq::<Seq<char>>::empty());
                    assert(np.posts.deep_view() =~= Seq::<Seq<char>>::empty());
                    assert(np.projects.deep_view() =~= Seq::<Seq<char>>::empty());
                }
                let ghost npv = np.deep_view();
                self.projects.push(np);
                self.next_project_id = id + 1;
                proof {
                    assert(npv == stored_project(project@, Some(id)));
                    assert(self@.projects =~= d.push(npv));
                    lemma_projects_wf_push(d, old(self)@.next_project_id, npv);
                }
                id
            },
        }
    }

    /// Upserts a tag by slug and returns the id it ended up with.
    pub fn save_tag(&mut self, tag: &Tag) -> (id: i64)
        requires
            old(self).wf(),
            old(self)@.next_tag_id < i64::MAX,
        ensures
            final(self).wf(),
            ({
                let (ntags, nnext, nid) = upsert_tag_model(
                    old(self)@.tags,
                    old(self)@.next_tag_id,
                    tag@,
                );
                final(self)@ == StoreV { tags: ntags, next_tag_id: nnext, ..old(self)@ } && id
                    == nid
            }),
    {
        let ghost d = self@.tags;
        match find_tag_idx(&self.tags, tag.slug.as_str()) {
            Some(i) => {
                proof {
                    lemma_find_first_bounds(d, tag_slug_is(tag@.slug));
                }
                let old_id = self.tags[i].id;
                let mut nt = tag.clone();
                nt.id = old_id;
                nt.tags = Vec::new();
                nt.posts = Vec::new();
                nt.projects = Vec::new();
                proof {
                    assert(nt.tags.deep_view() =~= Seq::<Seq<char>>::empty());
                    assert(nt.posts.deep_view() =~= Seq::<Seq<char>>::empty());
                    assert(nt.projects.deep_view() =~= Seq::<Seq<char>>::empty());
                }
                let ghost ntv = nt.deep_view();
                self.tags.remove(i);
                self.tags.insert(i, nt);
                proof {
                    assert(ntv == stored_tag(tag@, d[i as int].id));
                    assert forall|k: int| 0 <= k < self@.tags.len() implies self@.tags[k]
                        == d.update(i as int, ntv)[k] by {}
                    assert(self@.tags =~= d.update(i as int, ntv));
                    lemma_tags_wf_update(d, old(self)@.next_tag_id, i as int, ntv);
                }
                match old_id {
                    Some(v) => v,
                    None => {
                        proof {
                            assert(false);
                        }
                        0
                    },
                }
            },
            None => {
                proof {
                    lemma_find_first_bounds(d, tag_slug_is(tag@.slug));
                }
                let mut nt = tag.clone();
                let id = self.next_tag_id;
                nt.id = Some(id);
                nt.tags = Vec::new();
                nt.posts = Vec::new();
                nt.projects = Vec::new();
                proof {
                    assert(nt.tags.deep_view() =~= Seq::<Seq<char>>::empty());
                    assert(nt.posts.deep_view() =~= Seq::<Seq<char>>::empty());
                    assert(nt.projects.deep_view() =~= Seq::<Seq<char>>::empty());
                }
                let ghost ntv = nt.deep_view();
                self.tags.push(nt);
                self.next_tag_id = id + 1;
                proof {
                    assert(ntv == stored_tag(tag@, Some(id)));
                    assert(self@.tags =~= d.push(ntv));
                    lemma_tags_wf_push(d, old(self)@.next_tag_id, ntv);
                }
                id
            },
        }
    }

    /// Reads the cache entry for a path, if one exists.
    pub fn get_cache(&self, path: &str) -> (r: Option<Cache>)
        ensures
            ({
                let j = find_first(self@.caches, cache_path_is(path@));
                &&& (r is Some <==> j >= 0)
                &&& (r matches Some(c) ==> j >= 0 && c@ == self@.caches[j])
            }),
    {
        match find_cache_idx(&self.caches, path) {
            Some(i) => Some(self.caches[i].clone()),
            None => None,
        }
    }

    /// Upserts the cache entry for a path.
    pub fn update_cache(&mut self, cache: &Cache)
        requires
            old(self).wf(),
            old(self)@.next_cache_id < i64::MAX,
        ensures
            final(self).wf(),
            ({
                let (ncaches, nnext) = upsert_cache_model(
                    old(self)@.caches,
                    old(self)@.next_cache_id,
                    cache@,
                );
                final(self)@ == StoreV { caches: ncaches, next_cache_id: nnext, ..old(self)@ }
            }),
    {
        let ghost d = self@.caches;
        match find_cache_idx(&self.caches, cache.path.as_str()) {
            Some(i) => {
                proof {
                    lemma_find_first_bounds(d, cache_path_is(cache@.path));
                }
                let old_id = self.caches[i].id;
                let mut nc = cache.clone();
                nc.id = old_id;
                let ghost ncv = nc.deep_view();
                self.caches.remove(i);
                self.caches.insert(i, nc);
                proof {
                    assert(ncv == CacheV { id: d[i as int].id, ..cache@ });
                    assert forall|k: int| 0 <= k < self@.caches.len() implies self@.caches[k]
                        == d.update(i as int, ncv)[k] by {}
                    assert(self@.caches =~= d.update(i as int, ncv));
                    lemma_caches_wf_update(d, old(self)@.next_cache_id, i as int, ncv);
                }
            },
            None => {
                proof {
                    lemma_find_first_bounds(d, cache_path_is(cache@.path));
                }
                let mut nc = cache.clone();
                let id = self.next_cache_id;
                nc.id = Some(id);
                let ghost ncv = nc.deep_view();
                self.caches.push(nc);
                self.next_cache_id = id + 1;
                proof {
                    assert(ncv == CacheV { id: Some(id), ..cache@ });
                    assert(self@.caches =~= d.push(ncv));
                    lemma_caches_wf_push(d, old(self)@.next_cache_id, ncv);
                }
            },
        }
    }

    /// Idempotently records a post-tag relationship.
    pub fn save_post_to_tag(&mut self, rel: &PostToTag)
        ensures
            (final(self)@ == StoreV {
                post_to_tags: edge_insert(old(self)@.post_to_tags, rel.post_id, rel.tag_id),
                ..old(self)@
            }),
    {
        insert_pair(&mut self.post_to_tags, rel.post_id, rel.tag_id);
    }

    /// Idempotently records a post-post relationship.
    pub fn save_post_to_post(&mut self, rel: &PostToPost)
        ensures
            (final(self)@ == StoreV {
                post_to_posts: edge_insert(
                    old(self)@.post_to_posts,
                    rel.source_post_id,
                    rel.target_post_id,
                ),
                ..old(self)@
            }),
    {
        insert_pair(&mut self.post_to_posts, rel.source_post_id, rel.target_post_id);
    }

    /// Idempotently records a post-project relationship.
    pub fn save_post_to_project(&mut self, rel: &PostToProject)
        ensures
            (final(self)@ == StoreV {
                post_to_projects: edge_insert(
                    old(self)@.post_to_projects,
                    rel.post_id,
                    rel.project_id,
                ),
                ..old(self)@
            }),
    {
        insert_pair(&mut self.post_to_projects, rel.post_id, rel.project_id);
    }

    /// Idempotently records a project-tag relationship.
    pub fn save_project_to_tag(&mut self, rel: &ProjectToTag)
        ensures
            (final(self)@ == StoreV {
                project_to_tags: edge_insert(
                    old(self)@.project_to_tags,
                    rel.project_id,
                    rel.tag_id,
                ),
                ..old(self)@
            }),
    {
        insert_pair(&mut self.project_to_tags, rel.project_id, rel.tag_id);
    }

    /// Idempotently records a project-project relationship.
    pub fn save_project_to_project(&mut self, rel: &ProjectToProject)
        ensures
            (final(self)@ == StoreV {
                project_to_projects: edge_insert(
                    old(self)@.project_to_projects,
                    rel.source_project_id,
                    rel.target_project_id,
                ),
                ..old(self)@
            }),
    {
        insert_pair(&mut self.project_to_projects, rel.source_project_id, rel.target_project_id);
    }

    /// Idempotently records a tag-tag relationship.
    pub fn save_tag_to_tag(&mut self, rel: &TagToTag)
        ensures
            (final(self)@ == StoreV {
                tag_to_tags: edge_insert(
                    old(self)@.tag_to_tags,
                    rel.source_tag_id,
                    rel.target_tag_id,
                ),
                ..old(self)@
            }),
    {
        insert_pair(&mut self.tag_to_tags, rel.source_tag_id, rel.target_tag_id);
    }

    /// The number of cache entries.
    pub fn count_cache_entries(&self) -> (r: usize)
        ensures
            r == self@.caches.len(),
    {
        self.caches.len()
    }

    /// The number of entities in one of the three entity tables; any other
    /// table name is refused.
    pub fn count_entities(&self, table_name: &str) -> (r: Result<usize, StoreError>)
        ensures
            table_name@ == "posts"@ ==> (r matches Ok(n) && n == self@.posts.len()),
            table_name@ == "projects"@ ==> (r matches Ok(n) && n == self@.projects.len()),
            table_name@ == "tags"@ ==> (r matches Ok(n) && n == self@.tags.len()),
            table_name@ != "posts"@ && table_name@ != "projects"@ && table_name@ != "tags"@
                ==> r is Err,
    {
        proof {
            reveal_strlit("posts");
            reveal_strlit("projects");
            reveal_strlit("tags");
            assert("posts"@.len() == 5 && "projects"@.len() == 8 && "tags"@.len() == 4);
        }
        if str_eq(table_name, "posts") {
            Ok(self.posts.len())
        } else if str_eq(table_name, "projects") {
            Ok(self.projects.len())
        } else if str_eq(table_name, "tags") {
            Ok(self.tags.len())
        } else {
            Err(StoreError::InvalidTable)
        }
    }

    /// Loads a post row that already has an id, for replaying previously
    /// persisted rows in ascending id order; a stored row carries no
    /// reference lists.
    pub fn seed_post(&mut self, post: &Post)
        requires
            old(self).wf(),
            post@.id is Some,
            post@.tags.len() == 0 && post@.posts.len() == 0 && post@.projects.len() == 0,
            old(self)@.next_post_id <= post@.id->Some_0 < i64::MAX,
            forall|i: int|
                0 <= i < old(self)@.posts.len() ==> (#[trigger] old(self)@.posts[i]).slug
                    != post@.slug,
        ensures
            final(self).wf(),
            (final(self)@ == StoreV {
                posts: old(self)@.posts.push(post@),
                next_post_id: (post@.id->Some_0 + 1) as i64,
                ..old(self)@
            }),
    {
        let ghost d = self@.posts;
        let np = post.clone();
        let id = match np.id {
            Some(v) => v,
            None => {
                proof {
                    assert(false);
                }
                0
            },
        };
        self.posts.push(np);
        self.next_post_id = id + 1;
        proof {
            assert(self@.posts =~= d.push(post@));
            lemma_posts_wf_push(d, old(self)@.next_post_id, post@);
        }
    }

    /// Loads a project row that already has an id.
    pub fn seed_project(&mut self, project: &Project)
        requires
            old(self).wf(),
            project@.id is Some,
            project@.tags.len() == 0 && project@.posts.len() == 0 && project@.projects.len() == 0,
            old(self)@.next_project_id <= project@.id->Some_0 < i64::MAX,
            forall|i: int|
                0 <= i < old(self)@.projects.len() ==> (#[trigger] old(self)@.projects[i]).slug
                    != project@.slug,
        ensures
            final(self).wf(),
            (final(self)@ == StoreV {
                projects: old(self)@.projects.push(project@),
                next_project_id: (project@.id->Some_0 + 1) as i64,
                ..old(self)@
            }),
    {
        let ghost d = self@.projects;
        let np = project.clone();
        let id = match np.id {
            Some(v) => v,
            None => {
                proof {
                    assert(false);
                }
                0
            },
        };
        self.projects.push(np);
        self.next_project_id = id + 1;
        proof {
            assert(self@.projects =~= d.push(project@));
            lemma_projects_wf_push(d, old(self)@.next_project_id, project@);
        }
    }

    /// Loads a tag row that already has an id.
    pub fn seed_tag(&mut self, tag: &Tag)
        requires
            old(self).wf(),
            tag@.id is Some,
            tag@.tags.len() == 0 && tag@.posts.len() == 0 && tag@.projects.len() == 0,
            old(self)@.next_tag_id <= tag@.id->Some_0 < i64::MAX,
            forall|i: int|
                0 <= i < old(self)@.tags.len() ==> (#[trigger] old(self)@.tags[i]).slug
                    != tag@.slug,
        ensures
            final(self).wf(),
            (final(self)@ == StoreV {
                tags: old(self)@.tags.push(tag@),
                next_tag_id: (tag@.id->Some_0 + 1) as i64,
                ..old(self)@
            }),
    {
        let ghost d = self@.tags;
        let nt = tag.clone();
        let id = match nt.id {
            Some(v) => v,
            None => {
                proof {
                    assert(false);
                }
                0
            },
        };
        self.tags.push(nt);
        self.next_tag_id = id + 1;
        proof {
            assert(self@.tags =~= d.push(tag@));
            lemma_tags_wf_push(d, old(self)@.next_tag_id, tag@);
        }
    }

    /// Whether every id counter still has room, so a caller at an
    /// unverified boundary can test the saves' bounds before calling.
    pub fn has_id_capacity(&self) -> (r: bool)
        ensures
            r == (self@.next_post_id < i64::MAX && self@.next_project_id < i64::MAX
                && self@.next_tag_id < i64::MAX && self@.next_cache_id < i64::MAX),
    {
        self.next_post_id < i64::MAX && self.next_project_id < i64::MAX && self.next_tag_id
            < i64::MAX && self.next_cache_id < i64::MAX
    }

    /// The post rows, for mirroring.
    pub fn posts(&self) -> (r: &Vec<Post>)
        ensures
            r.deep_view() == self@.posts,
    {
        &self.posts
    }

    /// The project rows, for mirroring.
    pub fn projects(&self) -> (r: &Vec<Project>)
        ensures
            r.deep_view() == self@.projects,
    {
        &self.projects
    }

    /// The tag rows, for mirroring.
    pub fn tags(&self) -> (r: &Vec<Tag>)
        ensures
            r.deep_view() == self@.tags,
    {
        &self.tags
    }

    /// The cache rows, for mirroring.
    pub fn caches(&self) -> (r: &Vec<Cache>)
        ensures
            r.deep_view() == self@.caches,
    {
        &self.caches
    }

    /// The post-tag edge rows, for mirroring.
    pub fn post_to_tags(&self) -> (r: &Vec<(i64, i64)>)
        ensures
            r@ == self@.post_to_tags,
    {
        &self.post_to_tags
    }

    /// The post-post edge rows, for mirroring.
    pub fn post_to_posts(&self) -> (r: &Vec<(i64, i64)>)
        ensures
            r@ == self@.post_to_posts,
    {
        &self.post_to_posts
    }

    /// The post-project edge rows, for mirroring.
    pub fn post_to_projects(&self) -> (r: &Vec<(i64, i64)>)
        ensures
            r@ == self@.post_to_projects,
    {
        &self.post_to_projects
    }

    /// The project-tag edge rows, for mirroring.
    pub fn project_to_tags(&self) -> (r: &Vec<(i64, i64)>)
        ensures
            r@ == self@.project_to_tags,
    {
        &self.project_to_tags
    }

    /// The project-project edge rows, for mirroring.
    pub fn project_to_projects(&self) -> (r: &Vec<(i64, i64)>)
        ensures
            r@ == self@.project_to_projects,
    {
        &self.project_to_projects
    }

    /// The tag-tag edge rows, for mirroring.
    pub fn tag_to_tags(&self) -> (r: &Vec<(i64, i64)>)
        ensures
            r@ == self@.tag_to_tags,
    {
        &self.tag_to_tags
    }
}


// ------------------------------------------------------------------
// Laws.
// ------------------------------------------------------------------

/// Law: persisting the same slug twice, with possibly different field
/// values, leaves exactly one row under that slug, holding the latest
/// values, and the id assigned by the first persist is unchanged.
pub proof fn lemma_upsert_post_idempotent(posts: Seq<PostV>, next: i64, p1: PostV, p2: PostV)
    requires
        posts_wf(posts, next),
        next < i64::MAX,
        p1.slug == p2.slug,
    ensures
        ({
            let (posts1, next1, id1) = upsert_post_model(posts, next, p1);
            let (posts2, next2, id2) = upsert_post_model(posts1, next1, p2);
            &&& id2 == id1
            &&& next2 == next1
            &&& posts2.len() == posts1.len()
            &&& exists|j: int| 0 <= j < posts2.len() && posts2[j] == stored_post(p2, Some(id1))
            &&& forall|j: int|
                0 <= j < posts2.len() && (#[trigger] posts2[j]).slug == p2.slug ==> posts2[j]
                    == stored_post(p2, Some(id1))
        }),
{
    lemma_find_first_bounds(posts, post_slug_is(p1.slug));
    let j1 = find_first(posts, post_slug_is(p1.slug));
    let (posts1, next1, id1) = upsert_post_model(posts, next, p1);
    let jj: int = if j1 >= 0 {
        j1
    } else {
        posts.len() as int
    };
    if j1 >= 0 {
        lemma_posts_wf_update(posts, next, j1, stored_post(p1, posts[j1].id));
        assert forall|i: int| 0 <= i < jj implies !(post_slug_is(p2.slug)(posts1[i])) by {
            assert(posts[i].slug != posts[j1].slug);
        }
    } else {
        lemma_posts_wf_push(posts, next, stored_post(p1, Some(next)));
        assert forall|i: int| 0 <= i < jj implies !(post_slug_is(p2.slug)(posts1[i])) by {
            assert(!(post_slug_is(p1.slug)(posts[i])));
        }
    }
    assert(posts1[jj].slug == p2.slug);
    assert(posts1[jj].id == Some(id1));
    lemma_find_first_is(posts1, post_slug_is(p2.slug), jj);
    let (posts2, next2, id2) = upsert_post_model(posts1, next1, p2);
    assert(posts2[jj] == stored_post(p2, Some(id1)));
    lemma_posts_wf_update(posts1, next1, jj, stored_post(p2, posts1[jj].id));
    assert forall|j: int|
        0 <= j < posts2.len() && (#[trigger] posts2[j]).slug == p2.slug implies posts2[j]
            == stored_post(p2, Some(id1)) by {
        if j != jj {
            if j < jj {
                assert(posts2[j].slug != posts2[jj].slug);
            } else {
                assert(posts2[jj].slug != posts2[j].slug);
            }
        }
    }
}

/// Law: persisting the same slug twice, with possibly different field
/// values, leaves exactly one row under that slug, holding the latest
/// values, and the id assigned by the first persist is unchanged.
pub proof fn lemma_upsert_project_idempotent(projects: Seq<ProjectV>, next: i64, p1: ProjectV, p2: ProjectV)
    requires
        projects_wf(projects, next),
        next < i64::MAX,
        p1.slug == p2.slug,
    ensures
        ({
            let (projects1, next1, id1) = upsert_project_model(projects, next, p1);
            let (projects2, next2, id2) = upsert_project_model(projects1, next1, p2);
            &&& id2 == id1
            &&& next2 == next1
            &&& projects2.len() == projects1.len()
            &&& exists|j: int| 0 <= j < projects2.len() && projects2[j] == stored_project(p2, Some(id1))
            &&& forall|j: int|
                0 <= j < projects2.len() && (#[trigger] projects2[j]).slug == p2.slug ==> projects2[j]
                    == stored_project(p2, Some(id1))
        }),
{
    lemma_find_first_bounds(projects, project_slug_is(p1.slug));
    let j1 = find_first(projects, project_slug_is(p1.slug));
    let (projects1, next1, id1) = upsert_project_model(projects, next, p1);
    let jj: int = if j1 >= 0 {
        j1
    } else {
        projects.len() as int
    };
    if j1 >= 0 {
        lemma_projects_wf_update(projects, next, j1, stored_project(p1, projects[j1].id));
        assert forall|i: int| 0 <= i < jj implies !(project_slug_is(p2.slug)(projects1[i])) by {
            assert(projects[i].slug != projects[j1].slug);
        }
    } else {
        lemma_projects_wf_push(projects, next, stored_project(p1, Some(next)));
        assert forall|i: int| 0 <= i < jj implies !(project_slug_is(p2.slug)(projects1[i])) by {
            assert(!(project_slug_is(p1.slug)(projects[i])));
        }
    }
    assert(projects1[jj].slug == p2.slug);
    assert(projects1[jj].id == Some(id1));
    lemma_find_first_is(projects1, project_slug_is(p2.slug), jj);
    let (projects2, next2, id2) = upsert_project_model(projects1, next1, p2);
    assert(projects2[jj] == stored_project(p2, Some(id1)));
    lemma_projects_wf_update(projects1, next1, jj, stored_project(p2, projects1[jj].id));
    assert forall|j: int|
        0 <= j < projects2.len() && (#[trigger] projects2[j]).slug == p2.slug implies projects2[j]
            == stored_project(p2, Some(id1)) by {
        if j != jj {
            if j < jj {
                assert(projects2[j].slug != projects2[jj].slug);
            } else {
                assert(projects2[jj].slug != projects2[j].slug);
            }
        }
    }
}

/// Law: persisting the same slug twice, with possibly different field
/// values, leaves exactly one row under that slug, holding the latest
/// values, and the id assigned by the first persist is unchanged.
pub proof fn lemma_upsert_tag_idempotent(tags: Seq<TagV>, next: i64, p1: TagV, p2: TagV)
    requires
        tags_wf(tags, next),
        next < i64::MAX,
        p1.slug == p2.slug,
    ensures
        ({
            let (tags1, next1, id1) = upsert_tag_model(tags, next, p1);
            let (tags2, next2, id2) = upsert_tag_model(tags1, next1, p2);
            &&& id2 == id1
            &&& next2 == next1
            &&& tags2.len() == tags1.len()
            &&& exists|j: int| 0 <= j < tags2.len() && tags2[j] == stored_tag(p2, Some(id1))
            &&& forall|j: int|
                0 <= j < tags2.len() && (#[trigger] tags2[j]).slug == p2.slug ==> tags2[j]
                    == stored_tag(p2, Some(id1))
        }),
{
    lemma_find_first_bounds(tags, tag_slug_is(p1.slug));
    let j1 = find_first(tags, tag_slug_is(p1.slug));
    let (tags1, next1, id1) = upsert_tag_model(tags, next, p1);
    let jj: int = if j1 >= 0 {
        j1
    } else {
        tags.len() as int
    };
    if j1 >= 0 {
        lemma_tags_wf_update(tags, next, j1, stored_tag(p1, tags[j1].id));
        assert forall|i: int| 0 <= i < jj implies !(tag_slug_is(p2.slug)(tags1[i])) by {
            assert(tags[i].slug != tags[j1].slug);
        }
    } else {
        lemma_tags_wf_push(tags, next, stored_tag(p1, Some(next)));
        assert forall|i: int| 0 <= i < jj implies !(tag_slug_is(p2.slug)(tags1[i])) by {
            assert(!(tag_slug_is(p1.slug)(tags[i])));
        }
    }
    assert(tags1[jj].slug == p2.slug);
    assert(tags1[jj].id == Some(id1));
    lemma_find_first_is(tags1, tag_slug_is(p2.slug), jj);
    let (tags2, next2, id2) = upsert_tag_model(tags1, next1, p2);
    assert(tags2[jj] == stored_tag(p2, Some(id1)));
    lemma_tags_wf_update(tags1, next1, jj, stored_tag(p2, tags1[jj].id));
    assert forall|j: int|
        0 <= j < tags2.len() && (#[trigger] tags2[j]).slug == p2.slug implies tags2[j]
            == stored_tag(p2, Some(id1)) by {
        if j != jj {
            if j < jj {
                assert(tags2[j].slug != tags2[jj].slug);
            } else {
                assert(tags2[jj].slug != tags2[j].slug);
            }
        }
    }
}

/// Law: inserting the same pair twice leaves exactly one row for it: the
/// second insert changes nothing, the pair is present, and no index other
/// than its first occurrence holds it.
pub proof fn lemma_edge_insert_idempotent(es: Seq<(i64, i64)>, a: i64, b: i64)
    requires
        edges_wf(es),
    ensures
        ({
            let es1 = edge_insert(es, a, b);
            &&& edge_insert(es1, a, b) == es1
            &&& es1.contains((a, b))
            &&& edges_wf(es1)
            &&& forall|i: int, j: int|
                0 <= i < j < es1.len() && es1[i] == (a, b) ==> es1[j] != (a, b)
        }),
{
    let es1 = edge_insert(es, a, b);
    if !es.contains((a, b)) {
        assert(es1[es.len() as int] == (a, b));
        assert(es1.contains((a, b)));
        assert forall|i: int, j: int| 0 <= i < j < es1.len() implies es1[i] != es1[j] by {
            if j < es.len() {
                assert(es[i] != es[j]);
            } else {
                if es1[i] == (a, b) {
                    assert(es[i] == (a, b));
                    assert(es.contains((a, b)));
                }
            }
        }
    }
}

} // verus!

