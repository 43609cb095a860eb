//! Entity and record types: the transient document record produced by the
//! frontmatter parser, the persisted entities (posts, projects, tags), the
//! change-detection cache entry and the relationship edge rows.
//!
//! Layout coordinates are opaque spatial metadata that the core never
//! interprets; they are carried as decimal strings.

use vstd::prelude::*;
use vstd::string::*;

use crate::text::copy_strings;

verus! {

/// Base document containing common fields for all document types.
#[derive(Debug)]
pub struct Doc {
    pub title: String,
    pub path: String,
    pub slug: String,
    pub description: String,
    pub content: String,
    pub banner_path: String,
    pub icon: String,
    pub created_at: i64,
    pub updated_at: i64,
    pub tags: Vec<String>,
    pub posts: Vec<String>,
    pub projects: Vec<String>,
    pub hash: String,
    pub x: String,
    pub y: String,
    pub z: String,
}

/// Mathematical image of a `Doc`.
pub struct DocV {
    pub title: Seq<char>,
    pub path: Seq<char>,
    pub slug: Seq<char>,
    pub description: Seq<char>,
    pub content: Seq<char>,
    pub banner_path: Seq<char>,
    pub icon: Seq<char>,
    pub created_at: i64,
    pub updated_at: i64,
    pub tags: Seq<Seq<char>>,
    pub posts: Seq<Seq<char>>,
    pub projects: Seq<Seq<char>>,
    pub hash: Seq<char>,
    pub x: Seq<char>,
    pub y: Seq<char>,
    pub z: Seq<char>,
}

impl View for Doc {
    type V = DocV;

    open spec fn view(&self) -> DocV {
        DocV {
            title: self.title@,
            path: self.path@,
            slug: self.slug@,
            description: self.description@,
            content: self.content@,
            banner_path: self.banner_path@,
            icon: self.icon@,
            created_at: self.created_at,
            updated_at: self.updated_at,
            tags: self.tags.deep_view(),
            posts: self.posts.deep_view(),
            projects: self.projects.deep_view(),
            hash: self.hash@,
            x: self.x@,
            y: self.y@,
            z: self.z@,
        }
    }
}

/// The all-empty document record: empty text fields, zero timestamps and
/// zero coordinates.
pub open spec fn default_doc() -> DocV {
    DocV {
        title: Seq::empty(),
        path: Seq::empty(),
        slug: Seq::empty(),
        description: Seq::empty(),
        content: Seq::empty(),
        banner_path: Seq::empty(),
        icon: Seq::empty(),
        created_at: 0,
        updated_at: 0,
        tags: Seq::empty(),
        posts: Seq::empty(),
        projects: Seq::empty(),
        hash: Seq::empty(),
        x: "0"@,
        y: "0"@,
        z: "0"@,
    }
}

impl Default for Doc {
    fn default() -> (d: Doc)
        ensures
            d@ == default_doc(),
    {
        let d = Doc {
            title: String::new(),
            path: String::new(),
            slug: String::new(),
            description: String::new(),
            content: String::new(),
            banner_path: String::new(),
            icon: String::new(),
            created_at: 0,
            updated_at: 0,
            tags: Vec::new(),
            posts: Vec::new(),
            projects: Vec::new(),
            hash: String::new(),
            x: String::from_str("0"),
            y: String::from_str("0"),
            z: String::from_str("0"),
        };
        proof {
            assert(d.tags.deep_view() =~= Seq::<Seq<char>>::empty());
            assert(d.posts.deep_view() =~= Seq::<Seq<char>>::empty());
            assert(d.projects.deep_view() =~= Seq::<Seq<char>>::empty());
        }
        d
    }
}

/// Cache represents an asset or document hash for change detection.
#[derive(Debug)]
pub struct Cache {
    pub id: Option<i64>,
    pub path: String,
    pub hash: String,
    pub x: String,
    pub y: String,
    pub z: String,
}

pub struct CacheV {
    pub id: Option<i64>,
    pub path: Seq<char>,
    pub hash: Seq<char>,
    pub x: Seq<char>,
    pub y: Seq<char>,
    pub z: Seq<char>,
}

impl View for Cache {
    type V = CacheV;

    open spec fn view(&self) -> CacheV {
        CacheV {
            id: self.id,
            path: self.path@,
            hash: self.hash@,
            x: self.x@,
            y: self.y@,
            z: self.z@,
        }
    }
}

/// Post represents a blog post.
#[derive(Debug)]
pub struct Post {
    pub id: Option<i64>,
    pub title: String,
    pub slug: String,
    pub description: String,
    pub content: String,
    pub banner_path: String,
    pub created_at: i64,
    pub tags: Vec<String>,
    pub posts: Vec<String>,
    pub projects: Vec<String>,
    pub x: String,
    pub y: String,
    pub z: String,
}

pub struct PostV {
    pub id: Option<i64>,
    pub title: Seq<char>,
    pub slug: Seq<char>,
    pub description: Seq<char>,
    pub content: Seq<char>,
    pub banner_path: Seq<char>,
    pub created_at: i64,
    pub tags: Seq<Seq<char>>,
    pub posts: Seq<Seq<char>>,
    pub projects: Seq<Seq<char>>,
    pub x: Seq<char>,
    pub y: Seq<char>,
    pub z: Seq<char>,
}

impl View for Post {
    type V = PostV;

    open spec fn view(&self) -> PostV {
        PostV {
            id: self.id,
            title: self.title@,
            slug: self.slug@,
            description: self.description@,
            content: self.content@,
            banner_path: self.banner_path@,
            created_at: self.created_at,
            tags: self.tags.deep_view(),
            posts: self.posts.deep_view(),
            projects: self.projects.deep_view(),
            x: self.x@,
            y: self.y@,
            z: self.z@,
        }
    }
}

/// Project represents a portfolio project.
#[derive(Debug)]
pub struct Project {
    pub id: Option<i64>,
    pub title: String,
    pub slug: String,
    pub description: String,
    pub content: String,
    pub banner_path: String,
    pub created_at: i64,
    pub tags: Vec<String>,
    pub posts: Vec<String>,
    pub projects: Vec<String>,
    pub x: String,
    pub y: String,
    pub z: String,
}

pub struct ProjectV {
    pub id: Option<i64>,
    pub title: Seq<char>,
    pub slug: Seq<char>,
    pub description: Seq<char>,
    pub content: Seq<char>,
    pub banner_path: Seq<char>,
    pub created_at: i64,
    pub tags: Seq<Seq<char>>,
    pub posts: Seq<Seq<char>>,
    pub projects: Seq<Seq<char>>,
    pub x: Seq<char>,
    pub y: Seq<char>,
    pub z: Seq<char>,
}

impl View for Project {
    type V = ProjectV;

    open spec fn view(&self) -> ProjectV {
        ProjectV {
            id: self.id,
            title: self.title@,
            slug: self.slug@,
            description: self.description@,
            content: self.content@,
            banner_path: self.banner_path@,
            created_at: self.created_at,
            tags: self.tags.deep_view(),
            posts: self.posts.deep_view(),
            projects: self.projects.deep_view(),
            x: self.x@,
            y: self.y@,
            z: self.z@,
        }
    }
}

/// Tag represents a category or skill.
#[derive(Debug)]
pub struct Tag {
    pub id: Option<i64>,
    pub title: String,
    pub slug: String,
    pub description: String,
    pub content: String,
    pub banner_path: String,
    pub icon: String,
    pub created_at: i64,
    pub tags: Vec<String>,
    pub posts: Vec<String>,
    pub projects: Vec<String>,
    pub x: String,
    pub y: String,
    pub z: String,
}

pub struct TagV {
    pub id: Option<i64>,
    pub title: Seq<char>,
    pub slug: Seq<char>,
    pub description: Seq<char>,
    pub content: Seq<char>,
    pub banner_path: Seq<char>,
    pub icon: Seq<char>,
    pub created_at: i64,
    pub tags: Seq<Seq<char>>,
    pub posts: Seq<Seq<char>>,
    pub projects: Seq<Seq<char>>,
    pub x: Seq<char>,
    pub y: Seq<char>,
    pub z: Seq<char>,
}

impl View for Tag {
    type V = TagV;

    open spec fn view(&self) -> TagV {
        TagV {
            id: self.id,
            title: self.title@,
            slug: self.slug@,
            description: self.description@,
            content: self.content@,
            banner_path: self.banner_path@,
            icon: self.icon@,
            created_at: self.created_at,
            tags: self.tags.deep_view(),
            posts: self.posts.deep_view(),
            projects: self.projects.deep_view(),
            x: self.x@,
            y: self.y@,
            z: self.z@,
        }
    }
}

/// Many-to-many relationship rows, one struct per unordered kind pair.
#[derive(Debug, Clone, Copy, PartialEq, Eq, Structural)]
pub struct PostToTag {
    pub post_id: i64,
    pub tag_id: i64,
}

#[derive(Debug, Clone, Copy, PartialEq, Eq, Structural)]
pub struct PostToPost {
    pub source_post_id: i64,
    pub target_post_id: i64,
}

#[derive(Debug, Clone, Copy, PartialEq, Eq, Structural)]
pub struct PostToProject {
    pub post_id: i64,
    pub project_id: i64,
}

#[derive(Debug, Clone, Copy, PartialEq, Eq, Structural)]
pub struct ProjectToTag {
    pub project_id: i64,
    pub tag_id: i64,
}

#[derive(Debug, Clone, Copy, PartialEq, Eq, Structural)]
pub struct ProjectToProject {
    pub source_project_id: i64,
    pub target_project_id: i64,
}

#[derive(Debug, Clone, Copy, PartialEq, Eq, Structural)]
pub struct TagToTag {
    pub source_tag_id: i64,
    pub target_tag_id: i64,
}

/// The post an unpersisted document record stands for.
pub open spec fn post_of_doc(d: DocV) -> PostV {
    PostV {
        id: None,
        title: d.title,
        slug: d.slug,
        description: d.description,
        content: d.content,
        banner_path: d.banner_path,
        created_at: d.created_at,
        tags: d.tags,
        posts: d.posts,
        projects: d.projects,
        x: d.x,
        y: d.y,
        z: d.z,
    }
}

/// The project an unpersisted document record stands for.
pub open spec fn project_of_doc(d: DocV) -> ProjectV {
    ProjectV {
        id: None,
        title: d.title,
        slug: d.slug,
        description: d.description,
        content: d.content,
        banner_path: d.banner_path,
        created_at: d.created_at,
        tags: d.tags,
        posts: d.posts,
        projects: d.projects,
        x: d.x,
        y: d.y,
        z: d.z,
    }
}

/// The tag an unpersisted document record stands for.
pub open spec fn tag_of_doc(d: DocV) -> TagV {
    TagV {
        id: None,
        title: d.title,
        slug: d.slug,
        description: d.description,
        content: d.content,
        banner_path: d.banner_path,
        icon: d.icon,
        created_at: d.created_at,
        tags: d.tags,
        posts: d.posts,
        projects: d.projects,
        x: d.x,
        y: d.y,
        z: d.z,
    }
}

impl From<Doc> for Post {
    fn from(doc: Doc) -> (r: Post) {
        Post {
            id: None,
            title: doc.title,
            slug: doc.slug,
            description: doc.description,
            content: doc.content,
            banner_path: doc.banner_path,
            created_at: doc.created_at,
            tags: doc.tags,
            posts: doc.posts,
            projects: doc.projects,
            x: doc.x,
            y: doc.y,
            z: doc.z,
        }
    }
}

impl vstd::std_specs::convert::FromSpecImpl<Doc> for Post {
    open spec fn obeys_from_spec() -> bool {
        true
    }

    open spec fn from_spec(doc: Doc) -> Post {
        Post {
            id: None,
            title: doc.title,
            slug: doc.slug,
            description: doc.description,
            content: doc.content,
            banner_path: doc.banner_path,
            created_at: doc.created_at,
            tags: doc.tags,
            posts: doc.posts,
            projects: doc.projects,
            x: doc.x,
            y: doc.y,
            z: doc.z,
        }
    }
}

impl From<Doc> for Project {
    fn from(doc: Doc) -> (r: Project) {
        Project {
            id: None,
            title: doc.title,
            slug: doc.slug,
            description: doc.description,
            content: doc.content,
            banner_path: doc.banner_path,
            created_at: doc.created_at,
            tags: doc.tags,
            posts: doc.posts,
            projects: doc.projects,
            x: doc.x,
            y: doc.y,
            z: doc.z,
        }
    }
}

impl vstd::std_specs::convert::FromSpecImpl<Doc> for Project {
    open spec fn obeys_from_spec() -> bool {
        true
    }

    open spec fn from_spec(doc: Doc) -> Project {
        Project {
            id: None,
            title: doc.title,
            slug: doc.slug,
            description: doc.description,
            content: doc.content,
            banner_path: doc.banner_path,
            created_at: doc.created_at,
            tags: doc.tags,
            posts: doc.posts,
            projects: doc.projects,
            x: doc.x,
            y: doc.y,
            z: doc.z,
        }
    }
}

impl From<Doc> for Tag {
    fn from(doc: Doc) -> (r: Tag) {
        Tag {
            id: None,
            title: doc.title,
            slug: doc.slug,
            description: doc.description,
            content: doc.content,
            banner_path: doc.banner_path,
            icon: doc.icon,
            created_at: doc.created_at,
            tags: doc.tags,
            posts: doc.posts,
            projects: doc.projects,
            x: doc.x,
            y: doc.y,
            z: doc.z,
        }
    }
}

impl vstd::std_specs::convert::FromSpecImpl<Doc> for Tag {
    open spec fn obeys_from_spec() -> bool {
        true
    }

    open spec fn from_spec(doc: Doc) -> Tag {
        Tag {
            id: None,
            title: doc.title,
            slug: doc.slug,
            description: doc.description,
            content: doc.content,
            banner_path: doc.banner_path,
            icon: doc.icon,
            created_at: doc.created_at,
            tags: doc.tags,
            posts: doc.posts,
            projects: doc.projects,
            x: doc.x,
            y: doc.y,
            z: doc.z,
        }
    }
}

impl DeepView for Doc {
    type V = DocV;

    open spec fn deep_view(&self) -> DocV {
        self.view()
    }
}

impl DeepView for Cache {
    type V = CacheV;

    open spec fn deep_view(&self) -> CacheV {
        self.view()
    }
}

impl DeepView for Post {
    type V = PostV;

    open spec fn deep_view(&self) -> PostV {
        self.view()
    }
}

impl DeepView for Project {
    type V = ProjectV;

    open spec fn deep_view(&self) -> ProjectV {
        self.view()
    }
}

impl DeepView for Tag {
    type V = TagV;

    open spec fn deep_view(&self) -> TagV {
        self.view()
    }
}

impl Clone for Doc {
    fn clone(&self) -> (r: Doc)
        ensures
            r@ == self@,
    {
        Doc {
            title: self.title.clone(),
            path: self.path.clone(),
            slug: self.slug.clone(),
            description: self.description.clone(),
            content: self.content.clone(),
            banner_path: self.banner_path.clone(),
            icon: self.icon.clone(),
            created_at: self.created_at,
            updated_at: self.updated_at,
            tags: copy_strings(&self.tags),
            posts: copy_strings(&self.posts),
            projects: copy_strings(&self.projects),
            hash: self.hash.clone(),
            x: self.x.clone(),
            y: self.y.clone(),
            z: self.z.clone(),
        }
    }
}

impl Clone for Cache {
    fn clone(&self) -> (r: Cache)
        ensures
            r@ == self@,
    {
        Cache {
            id: self.id,
            path: self.path.clone(),
            hash: self.hash.clone(),
            x: self.x.clone(),
            y: self.y.clone(),
            z: self.z.clone(),
        }
    }
}

impl Clone for Post {
    fn clone(&self) -> (r: Post)
        ensures
            r@ == self@,
    {
        Post {
            id: self.id,
            title: self.title.clone(),
            slug: self.slug.clone(),
            description: self.description.clone(),
            content: self.content.clone(),
            banner_path: self.banner_path.clone(),
            created_at: self.created_at,
            tags: copy_strings(&self.tags),
            posts: copy_strings(&self.posts),
            projects: copy_strings(&self.projects),
            x: self.x.clone(),
            y: self.y.clone(),
            z: self.z.clone(),
        }
    }
}

impl Clone for Project {
    fn clone(&self) -> (r: Project)
        ensures
            r@ == self@,
    {
        Project {
            id: self.id,
            title: self.title.clone(),
            slug: self.slug.clone(),
            description: self.description.clone(),
            content: self.content.clone(),
            banner_path: self.banner_path.clone(),
            created_at: self.created_at,
            tags: copy_strings(&self.tags),
            posts: copy_strings(&self.posts),
            projects: copy_strings(&self.projects),
            x: self.x.clone(),
            y: self.y.clone(),
            z: self.z.clone(),
        }
    }
}

impl Clone for Tag {
    fn clone(&self) -> (r: Tag)
        ensures
            r@ == self@,
    {
        Tag {
            id: self.id,
            title: self.title.clone(),
            slug: self.slug.clone(),
            description: self.description.clone(),
            content: self.content.clone(),
            banner_path: self.banner_path.clone(),
            icon: self.icon.clone(),
            created_at: self.created_at,
            tags: copy_strings(&self.tags),
            posts: copy_strings(&self.posts),
            projects: copy_strings(&self.projects),
            x: self.x.clone(),
            y: self.y.clone(),
            z: self.z.clone(),
        }
    }
}

} // verus!
