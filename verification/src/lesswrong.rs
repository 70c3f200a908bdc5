//! The documents and discussion threads that the pipeline works on, held as
//! plain values.

use vstd::prelude::*;
use crate::cache::{Cache, CacheError, namespace_directory};

verus! {

/// An article, as far as the pipeline reads it.
#[derive(Clone, Debug)]
pub struct Post {
    /// Identifier of the document; it namespaces everything derived from it.
    pub id: String,
    /// Canonical URL of the document; relative references resolve against it.
    pub page_url: String,
    pub title: String,
    pub slug: String,
    pub author: String,
    pub content_markdown: String,
    pub word_count: i64,
}

/// One comment of a discussion thread.
///
/// `base_score` is the integer by which siblings are ordered; `score_label` is
/// the same score as it is shown to a reader.
#[derive(Clone, Debug)]
pub struct Comment {
    pub id: String,
    pub parent_comment_id: Option<String>,
    pub base_score: i64,
    pub score_label: String,
    pub content_markdown: String,
}

/// A document together with its discussion thread, in the order received.
#[derive(Clone, Debug)]
pub struct PostWithComments {
    pub post: Post,
    pub comments: Vec<Comment>,
}

/// The identifier that a comment names as its parent, if it names one.
pub open spec fn parent_key(comment: Comment) -> Option<Seq<char>> {
    match comment.parent_comment_id {
        Some(id) => Some(id@),
        None => None,
    }
}

impl Comment {
    /// A copy that agrees with `self` field by field.
    pub fn duplicate(&self) -> (copy: Comment)
        ensures
            copy == *self,
    {
        let parent = match &self.parent_comment_id {
            Some(id) => Some(id.clone()),
            None => None,
        };
        Comment {
            id: self.id.clone(),
            parent_comment_id: parent,
            base_score: self.base_score,
            score_label: self.score_label.clone(),
            content_markdown: self.content_markdown.clone(),
        }
    }
}

/// The number of comments asked for with a post.
pub const COMMENTS_LIMIT: usize = 9999;

/// Why a post or its discussion could not be had.
#[derive(Debug)]
pub enum FetchError {
    /// The cache failed.
    Cache(CacheError),
    /// The content source gave no answer.
    Source,
}

/// What the surroundings report to `LessWrongApi::get_post_and_comments`.
pub enum FetchEvent {
    /// Nothing yet: the work starts.
    Begin,
    /// Whether the cache holds the post.
    PostLookedUp { found: bool },
    /// The content source delivered the post.
    PostFetched,
    /// The cache took the post.
    PostStored,
    /// Whether the cache holds the discussion.
    CommentsLookedUp { found: bool },
    /// The content source delivered the discussion.
    CommentsFetched,
    /// The cache took the discussion.
    CommentsStored,
    /// The cache failed.
    CacheFailed(CacheError),
    /// The content source gave no answer.
    SourceFailed,
}

/// What `LessWrongApi::get_post_and_comments` asks for next.
#[derive(Debug)]
pub enum FetchAction {
    /// Look the post up in its cache.
    LookUpPost { key: String },
    /// Ask the content source for the post.
    FetchPost { id: String },
    /// Store the post that was delivered.
    StorePost { key: String },
    /// Look the discussion up in its cache.
    LookUpComments { key: String },
    /// Ask the content source for up to `limit` comments of the post.
    FetchComments { id: String, limit: usize },
    /// Store the discussion that was delivered.
    StoreComments { key: String },
    /// Post and discussion are there.
    Done,
    /// One of them could not be had.
    Fail(FetchError),
}

/// Plans how a post and its discussion are obtained.
#[derive(Debug)]
pub struct LessWrongApi {
    cache_post: Cache,
    cache_comments: Cache,
}

/// What `get_post_and_comments` answers to `event` for the post `id`.
pub open spec fn fetch_step(id: Seq<char>, event: FetchEvent, action: FetchAction) -> bool {
    match event {
        FetchEvent::Begin => action matches FetchAction::LookUpPost { key } && key@ == id,
        FetchEvent::PostLookedUp { found: false } => action matches FetchAction::FetchPost {
            id: asked,
        } && asked@ == id,
        FetchEvent::PostFetched => action matches FetchAction::StorePost { key } && key@ == id,
        FetchEvent::PostLookedUp { found: true } | FetchEvent::PostStored => action matches FetchAction::LookUpComments {
            key,
        } && key@ == id,
        FetchEvent::CommentsLookedUp { found: false } => action matches FetchAction::FetchComments {
            id: asked,
            limit,
        } && asked@ == id && limit == COMMENTS_LIMIT,
        FetchEvent::CommentsFetched => action matches FetchAction::StoreComments { key } && key@
            == id,
        FetchEvent::CommentsLookedUp { found: true } | FetchEvent::CommentsStored => action
            == FetchAction::Done,
        FetchEvent::CacheFailed(error) => action == FetchAction::Fail(FetchError::Cache(error)),
        FetchEvent::SourceFailed => action == FetchAction::Fail(FetchError::Source),
    }
}

impl LessWrongApi {
    #[verifier::type_invariant]
    spec fn well_formed(&self) -> bool {
        &&& self.cache_post.directory() == namespace_directory("posts"@)
        &&& self.cache_comments.directory() == namespace_directory("comments"@)
    }

    /// Posts are cached in the namespace `posts`, discussions in `comments`.
    pub fn new() -> (api: LessWrongApi)
        ensures
            api.posts_directory() == namespace_directory("posts"@),
            api.comments_directory() == namespace_directory("comments"@),
    {
        LessWrongApi { cache_post: Cache::new("posts"), cache_comments: Cache::new("comments") }
    }

    /// The directory in which the posts are cached.
    pub closed spec fn posts_directory(&self) -> Seq<char> {
        self.cache_post.directory()
    }

    /// The directory in which the discussions are cached.
    pub closed spec fn comments_directory(&self) -> Seq<char> {
        self.cache_comments.directory()
    }

    /// The cache that holds the posts.
    pub fn cache_post(&self) -> (cache: &Cache)
        ensures
            cache.directory() == namespace_directory("posts"@),
    {
        proof {
            use_type_invariant(self);
        }
        &self.cache_post
    }

    /// The cache that holds the discussions.
    pub fn cache_comments(&self) -> (cache: &Cache)
        ensures
            cache.directory() == namespace_directory("comments"@),
    {
        proof {
            use_type_invariant(self);
        }
        &self.cache_comments
    }

    /// One step towards the post `id` and its discussion: the post first, from
    /// the cache or else from the content source and then into the cache; the
    /// discussion after it, in the same way.
    pub fn get_post_and_comments(&self, id: &str, event: FetchEvent) -> (action: FetchAction)
        ensures
            fetch_step(id@, event, action),
    {
        match event {
            FetchEvent::Begin => FetchAction::LookUpPost { key: id.to_owned() },
            FetchEvent::PostLookedUp { found } => {
                if found {
                    FetchAction::LookUpComments { key: id.to_owned() }
                } else {
                    FetchAction::FetchPost { id: id.to_owned() }
                }
            },
            FetchEvent::PostFetched => FetchAction::StorePost { key: id.to_owned() },
            FetchEvent::PostStored => FetchAction::LookUpComments { key: id.to_owned() },
            FetchEvent::CommentsLookedUp { found } => {
                if found {
                    FetchAction::Done
                } else {
                    FetchAction::FetchComments { id: id.to_owned(), limit: COMMENTS_LIMIT }
                }
            },
            FetchEvent::CommentsFetched => FetchAction::StoreComments { key: id.to_owned() },
            FetchEvent::CommentsStored => FetchAction::Done,
            FetchEvent::CacheFailed(error) => FetchAction::Fail(FetchError::Cache(error)),
            FetchEvent::SourceFailed => FetchAction::Fail(FetchError::Source),
        }
    }
}

} // verus!
