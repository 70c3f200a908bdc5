//! Summaries: the messages that ask for them, the clean-up of what comes
//! back, and the steps by which a summary is taken from the cache or made.

use vstd::prelude::*;
use vstd::string::*;
use crate::cache::{Cache, CacheError, namespace_directory};
use crate::lesswrong::{Comment, Post, PostWithComments};
use crate::sort_comments::{positions, rank_comments, ranking};
use crate::text::{text_view, trim, trimmed};

verus! {

/// The instruction that goes before a post to be summarized.
pub const SUMMARIZE_POST_PROMPT: &'static str = "You are an expert of distilling complex rationalist topics to a concise summary. Approach topics with an intellectual but approachable tone, NOT USING LISTS UNLESS NECESSARY and strategically to organize complex ideas. Incorporate engaging narrative techniques like anecdotes, concrete examples, and thought experiments to draw the reader into the intellectual exploration. Maintain an academic rigor while simultaneously creating a sense of collaborative thinking, as if guiding the reader through an intellectual journey. Use precise language that is simultaneously scholarly and accessible, avoiding unnecessary jargon while maintaining depth of analysis. Don't waste too many words with framing and setup. Optimize for quick readability and depth. Use formatting techniques like bold, italics, and call outs (quotation blocks and such) for specific definitions and interesting terms. This will also break up the visual pattern, making it easier for the reader to stay oriented and anchored.  Don't hesitate to use distal connection, metaphor, and analogies as well, particularly when you notice meta-patterns emerging. A good metaphor is the pinnacle of Coherence. Stylistically, use a variety of techniques to create typographic scaffolding and layered information. With this in mind, summarize the main points of the following LessWrong article keeping it under about 200 words: DO NOT BE REPETITIVE.";

/// The instruction that goes before a discussion to be summarized.
pub const SUMMARIZE_COMMENTS_PROMPT: &'static str = "You are an expert of distilling complex rationalist topics to a concise summary. Approach topics with an intellectual but approachable tone, NOT USING LISTS UNLESS NECESSARY and strategically to organize complex ideas. Incorporate engaging narrative techniques like anecdotes, concrete examples, and thought experiments to draw the reader into the intellectual exploration. Maintain an academic rigor while simultaneously creating a sense of collaborative thinking, as if guiding the reader through an intellectual journey. Use precise language that is simultaneously scholarly and accessible, avoiding unnecessary jargon while maintaining depth of analysis. Don't waste too many words with framing and setup. Optimize for quick readability and depth. Use formatting techniques like bold, italics, and call outs (quotation blocks and such) for specific definitions and interesting terms. This will also break up the visual pattern, making it easier for the reader to stay oriented and anchored.  Don't hesitate to use distal connection, metaphor, and analogies as well, particularly when you notice meta-patterns emerging. A good metaphor is the pinnacle of Coherence. Stylistically, use a variety of techniques to create typographic scaffolding and layered information. With this in mind, summarize THE DISCUSSION IN THE COMMENTS presented here keeping it under about 200 words. A comment can contain a score, give more importance to higher scores BUT DO NOT EXPLICITLY MENTION THE SCORES. Comments can also be replies to previous comments, all comments are provided depth-first. DO NOT BE REPETITIVE. DO NOT SUMMARIZE THE POST ITSELF, IT IS ONLY PROVIDED AS CONTEXT.";

/// The pattern of a reasoning block: an opening tag whose name starts with
/// `think`, in any case and with anything up to its `>`, the shortest text up
/// to a closing tag of the same kind, and that tag.
pub const THINK_BLOCK_PATTERN: &'static str = "(?is)<think[^>]*?>.*?</think[^>]*?>";

/// The number of ranked comments that go into a request for a summary.
pub const SUMMARIZED_COMMENTS: usize = 100;

/// A post with its discussion and the summaries of both.
#[derive(Debug)]
pub struct AnnotatedPostWithComments {
    pub post: Post,
    pub comments: Vec<Comment>,
    pub post_summary: String,
    pub comments_summary: String,
}

impl AnnotatedPostWithComments {
    /// Joins a post and its discussion with their summaries.
    pub fn new(post: PostWithComments, post_summary: String, comments_summary: String) -> (annotated:
        Self)
        ensures
            annotated.post == post.post,
            annotated.comments == post.comments,
            annotated.post_summary == post_summary,
            annotated.comments_summary == comments_summary,
    {
        Self { post: post.post, comments: post.comments, post_summary, comments_summary }
    }
}

/// Who speaks a message of a conversation.
#[derive(Clone, Copy, Debug, PartialEq, Eq, Structural)]
pub enum ChatRole {
    System,
    User,
}

/// One message of a conversation with the summarizer.
#[derive(Debug)]
pub struct ChatMessage {
    pub role: ChatRole,
    pub content: String,
}

/// A request for a summary.
#[derive(Debug)]
pub struct CompletionRequest {
    /// Name of the model that is asked.
    pub model: String,
    pub messages: Vec<ChatMessage>,
    /// Whether the service may put its own instruction in front.
    pub include_venice_system_prompt: bool,
}

/// Why no summary could be had.
#[derive(Debug)]
pub enum SummaryError {
    /// The cache failed.
    Cache(CacheError),
    /// The summarizer gave no answer.
    Completion,
}

/// What the surroundings report to `summarize_post` and `summarize_comments`.
pub enum SummaryEvent {
    /// Nothing yet: the work starts.
    Begin,
    /// The cache holds a summary.
    CacheHit(String),
    /// The cache holds none.
    CacheMiss,
    /// The cache could not be read.
    CacheFailed(CacheError),
    /// The summarizer answered; this is the content of its first choice.
    Completed(Option<String>),
    /// The summarizer gave no answer.
    CompletionFailed,
    /// The cache took the summary; this is it.
    Stored(String),
    /// The cache could not take the summary.
    StoreFailed(CacheError),
}

/// What `summarize_post` and `summarize_comments` ask for next.
pub enum SummaryAction {
    /// Look `key` up in the cache of summaries.
    LookUp { key: String },
    /// Send `request` to the summarizer.
    Complete { request: CompletionRequest },
    /// Store `summary` under `key` in the cache of summaries.
    Store { key: String, summary: String },
    /// The summary.
    Done(String),
    /// No summary.
    Fail(SummaryError),
}

/// Asks for summaries of posts and of their discussions.
#[derive(Debug)]
pub struct AiClient {
    cache_post: Cache,
    cache_comments: Cache,
    model: String,
}

/// What `Regex::replace_all` of the regex crate returns for the regular
/// expression `pattern` on `haystack` with `replacement`; `None` where
/// `pattern` is none that the crate compiles.
pub uninterp spec fn regex_replace_all(
    pattern: Seq<char>,
    haystack: Seq<char>,
    replacement: Seq<char>,
) -> Option<Seq<char>>;

/// The error of the regex crate's compiler, carried as it comes.
#[verifier::external_type_specification]
#[verifier::external_body]
pub struct ExRegexError(regex::Error);

/// `Regex::new` of the regex crate compiles `pattern`, and `Regex::replace_all`
/// replaces every match in `haystack`, from left to right and without overlap,
/// by `replacement`. The outcome is `regex_replace_all` of the three texts: `Ok`
/// with the new text where it is `Some`, the crate's error where the pattern
/// does not compile.
#[verifier::external_body]
fn replace_all(pattern: &str, haystack: &str, replacement: &str) -> (replaced: Result<
    String,
    regex::Error,
>)
    ensures
        replaced is Ok <==> regex_replace_all(pattern@, haystack@, replacement@) is Some,
        replaced matches Ok(text) ==> regex_replace_all(pattern@, haystack@, replacement@) == Some(
            text@,
        ),
{
    match regex::Regex::new(pattern) {
        Ok(compiled) => Ok(compiled.replace_all(haystack, replacement).into_owned()),
        Err(error) => Err(error),
    }
}

/// `input` without its reasoning blocks; `input` itself in case the pattern of
/// a reasoning block does not compile.
pub open spec fn without_think_blocks(input: Seq<char>) -> Seq<char> {
    match regex_replace_all(THINK_BLOCK_PATTERN@, input, ""@) {
        Some(text) => text,
        None => input,
    }
}

/// The summary that is kept of an answer of the summarizer: the answer, empty
/// where there is none, without its reasoning blocks and without white space
/// around it.
pub open spec fn summary_of(answer: Option<Seq<char>>) -> Seq<char> {
    trimmed(
        without_think_blocks(
            match answer {
                Some(text) => text,
                None => Seq::empty(),
            },
        ),
    )
}

/// The line that stands for one comment in a request for a summary.
pub open spec fn comment_line(comment: Comment) -> Seq<char> {
    "<comment><score>"@ + comment.score_label@ + "</score>: "@ + comment.content_markdown@
        + "</comment>"@
}

/// The lines of the comments at `order`, each on a line of its own.
pub open spec fn comment_lines(comments: Seq<Comment>, order: Seq<int>) -> Seq<char>
    decreases order.len(),
{
    if order.len() == 0 {
        Seq::empty()
    } else if order.len() == 1 {
        comment_line(comments[order[0]])
    } else {
        comment_lines(comments, order.drop_last()) + "\n"@ + comment_line(comments[order.last()])
    }
}

/// What the summarizer is given of a discussion: the post, and the ranked
/// comments named by `order`.
pub open spec fn discussion_text(post: Seq<char>, comments: Seq<Comment>, order: Seq<int>) -> Seq<
    char,
> {
    "<post>"@ + post + "</post><comments>"@ + comment_lines(comments, order) + "</comments>"@
}

/// Whether `request` asks `model` with `instruction` for a summary of `text`.
pub open spec fn is_summary_request(
    model: Seq<char>,
    instruction: Seq<char>,
    text: Seq<char>,
    request: CompletionRequest,
) -> bool {
    &&& request.model@ == model
    &&& !request.include_venice_system_prompt
    &&& request.messages@.len() == 2
    &&& request.messages@[0].role == ChatRole::System
    &&& request.messages@[0].content@ == instruction
    &&& request.messages@[1].role == ChatRole::User
    &&& request.messages@[1].content@ == text
}

/// What `summarize_post` and `summarize_comments` answer to `event`, for the
/// summary cached under `key`; `is_request` tells the request that a cache miss
/// is answered with.
pub open spec fn summary_step(
    key: Seq<char>,
    event: SummaryEvent,
    action: SummaryAction,
    is_request: spec_fn(CompletionRequest) -> bool,
) -> bool {
    match event {
        SummaryEvent::Begin => action matches SummaryAction::LookUp { key: asked } && asked@
            == key,
        SummaryEvent::CacheHit(summary) => action == SummaryAction::Done(summary),
        SummaryEvent::CacheMiss => action matches SummaryAction::Complete { request }
            && is_request(request),
        SummaryEvent::CacheFailed(error) => action == SummaryAction::Fail(
            SummaryError::Cache(error),
        ),
        SummaryEvent::Completed(answer) => action matches SummaryAction::Store {
            key: target,
            summary,
        } && target@ == key && summary@ == summary_of(text_view(answer)),
        SummaryEvent::CompletionFailed => action == SummaryAction::Fail(SummaryError::Completion),
        SummaryEvent::Stored(summary) => action == SummaryAction::Done(summary),
        SummaryEvent::StoreFailed(error) => action == SummaryAction::Fail(
            SummaryError::Cache(error),
        ),
    }
}

/// Removes the reasoning blocks from `input`.
pub fn remove_think_tags(input: &str) -> (output: String)
    ensures
        output@ == without_think_blocks(input@),
{
    match replace_all(THINK_BLOCK_PATTERN, input, "") {
        Ok(text) => text,
        Err(_) => String::from_str(input),
    }
}

/// The summary that is kept of an answer of the summarizer.
pub fn clean_summary(answer: &Option<String>) -> (summary: String)
    ensures
        summary@ == summary_of(text_view(*answer)),
{
    let stripped = match answer {
        Some(text) => remove_think_tags(text.as_str()),
        None => remove_think_tags(String::new().as_str()),
    };
    trim(stripped.as_str())
}

/// The two messages that ask for a summary: the instruction, then the text.
fn summary_messages(instruction: &str, text: String) -> (messages: Vec<ChatMessage>)
    ensures
        messages@.len() == 2,
        messages@[0].role == ChatRole::System,
        messages@[0].content@ == instruction@,
        messages@[1].role == ChatRole::User,
        messages@[1].content == text,
{
    let mut messages: Vec<ChatMessage> = Vec::new();
    messages.push(ChatMessage { role: ChatRole::System, content: String::from_str(instruction) });
    messages.push(ChatMessage { role: ChatRole::User, content: text });
    messages
}

/// The text that stands for a discussion in a request for its summary: the
/// post and its `SUMMARIZED_COMMENTS` first comments by rank.
pub fn discussion_prompt(post: &PostWithComments) -> (text: String)
    ensures
        text@ == discussion_text(
            post.post.content_markdown@,
            post.comments@,
            ranking(post.comments@, SUMMARIZED_COMMENTS as nat),
        ),
{
    let order = rank_comments(&post.comments, SUMMARIZED_COMMENTS);
    let ghost ranked = ranking(post.comments@, SUMMARIZED_COMMENTS as nat);
    let mut text = String::from_str("<post>");
    text.append(post.post.content_markdown.as_str());
    text.append("</post><comments>");
    let ghost head = text@;
    let mut k: usize = 0;
    assert(ranked.take(0) =~= Seq::<int>::empty());
    while k < order.len()
        invariant
            k <= order.len(),
            positions(order@) == ranked,
            forall|j: int| 0 <= j < order.len() ==> #[trigger] order[j] < post.comments.len(),
            text@ == head + comment_lines(post.comments@, ranked.take(k as int)),
        decreases order.len() - k,
    {
        let comment = &post.comments[order[k]];
        if k > 0 {
            text.append("\n");
        }
        text.append("<comment><score>");
        text.append(comment.score_label.as_str());
        text.append("</score>: ");
        text.append(comment.content_markdown.as_str());
        text.append("</comment>");
        proof {
            let next = ranked.take(k + 1);
            assert(next.drop_last() =~= ranked.take(k as int));
            assert(next.last() == ranked[k as int]);
            assert(ranked[k as int] == order[k as int] as int);
            if k == 0 {
                assert(next[0] == ranked[0]);
                assert(comment_lines(post.comments@, ranked.take(0)) =~= Seq::<char>::empty());
            }
            assert(text@ =~= head + comment_lines(post.comments@, next));
        }
        k = k + 1;
    }
    assert(ranked.take(order.len() as int) =~= ranked);
    text.append("</comments>");
    text
}

impl AiClient {
    /// The name of the model that is asked.
    pub closed spec fn model(&self) -> Seq<char> {
        self.model@
    }

    #[verifier::type_invariant]
    spec fn well_formed(&self) -> bool {
        &&& self.cache_post.directory() == namespace_directory("ai-posts"@)
        &&& self.cache_comments.directory() == namespace_directory("ai-comments"@)
    }

    /// A client that asks `model`. The summaries of posts are cached in the
    /// namespace `ai-posts`, those of discussions in `ai-comments`.
    pub fn new(model: String) -> (client: AiClient)
        ensures
            client.model() == model@,
    {
        AiClient {
            cache_post: Cache::new("ai-posts"),
            cache_comments: Cache::new("ai-comments"),
            model,
        }
    }

    /// The cache that holds the summaries of posts.
    pub fn cache_post(&self) -> (cache: &Cache)
        ensures
            cache.directory() == namespace_directory("ai-posts"@),
    {
        proof {
            use_type_invariant(self);
        }
        &self.cache_post
    }

    /// The cache that holds the summaries of discussions.
    pub fn cache_comments(&self) -> (cache: &Cache)
        ensures
            cache.directory() == namespace_directory("ai-comments"@),
    {
        proof {
            use_type_invariant(self);
        }
        &self.cache_comments
    }

    /// The request for a summary of `post`.
    pub fn create_summarize_post_completion(&self, post: &Post) -> (request: CompletionRequest)
        ensures
            is_summary_request(
                self.model(),
                SUMMARIZE_POST_PROMPT@,
                post.content_markdown@,
                request,
            ),
    {
        CompletionRequest {
            model: self.model.clone(),
            messages: summary_messages(SUMMARIZE_POST_PROMPT, post.content_markdown.clone()),
            include_venice_system_prompt: false,
        }
    }

    /// The request for a summary of the discussion of `post`.
    pub fn create_summarize_comments_completion(&self, post: &PostWithComments) -> (request:
        CompletionRequest)
        ensures
            is_summary_request(
                self.model(),
                SUMMARIZE_COMMENTS_PROMPT@,
                discussion_text(
                    post.post.content_markdown@,
                    post.comments@,
                    ranking(post.comments@, SUMMARIZED_COMMENTS as nat),
                ),
                request,
            ),
    {
        CompletionRequest {
            model: self.model.clone(),
            messages: summary_messages(SUMMARIZE_COMMENTS_PROMPT, discussion_prompt(post)),
            include_venice_system_prompt: false,
        }
    }

    /// One step towards the summary of `post`: the cached summary if there is
    /// one, else the cleaned answer of the summarizer, stored before it is
    /// returned.
    pub fn summarize_post(&self, post: &Post, event: SummaryEvent) -> (action: SummaryAction)
        ensures
            summary_step(
                post.id@,
                event,
                action,
                |request: CompletionRequest|
                    is_summary_request(
                        self.model(),
                        SUMMARIZE_POST_PROMPT@,
                        post.content_markdown@,
                        request,
                    ),
            ),
    {
        match event {
            SummaryEvent::Begin => SummaryAction::LookUp { key: post.id.clone() },
            SummaryEvent::CacheHit(summary) => SummaryAction::Done(summary),
            SummaryEvent::CacheMiss => SummaryAction::Complete {
                request: self.create_summarize_post_completion(post),
            },
            SummaryEvent::CacheFailed(error) => SummaryAction::Fail(SummaryError::Cache(error)),
            SummaryEvent::Completed(answer) => SummaryAction::Store {
                key: post.id.clone(),
                summary: clean_summary(&answer),
            },
            SummaryEvent::CompletionFailed => SummaryAction::Fail(SummaryError::Completion),
            SummaryEvent::Stored(summary) => SummaryAction::Done(summary),
            SummaryEvent::StoreFailed(error) => SummaryAction::Fail(SummaryError::Cache(error)),
        }
    }

    /// One step towards the summary of the discussion of `post`, as for the
    /// post itself.
    pub fn summarize_comments(&self, post: &PostWithComments, event: SummaryEvent) -> (action:
        SummaryAction)
        ensures
            summary_step(
                post.post.id@,
                event,
                action,
                |request: CompletionRequest|
                    is_summary_request(
                        self.model(),
                        SUMMARIZE_COMMENTS_PROMPT@,
                        discussion_text(
                            post.post.content_markdown@,
                            post.comments@,
                            ranking(post.comments@, SUMMARIZED_COMMENTS as nat),
                        ),
                        request,
                    ),
            ),
    {
        match event {
            SummaryEvent::Begin => SummaryAction::LookUp { key: post.post.id.clone() },
            SummaryEvent::CacheHit(summary) => SummaryAction::Done(summary),
            SummaryEvent::CacheMiss => SummaryAction::Complete {
                request: self.create_summarize_comments_completion(post),
            },
            SummaryEvent::CacheFailed(error) => SummaryAction::Fail(SummaryError::Cache(error)),
            SummaryEvent::Completed(answer) => SummaryAction::Store {
                key: post.post.id.clone(),
                summary: clean_summary(&answer),
            },
            SummaryEvent::CompletionFailed => SummaryAction::Fail(SummaryError::Completion),
            SummaryEvent::Stored(summary) => SummaryAction::Done(summary),
            SummaryEvent::StoreFailed(error) => SummaryAction::Fail(SummaryError::Cache(error)),
        }
    }
}

/// A summary neither starts nor ends with white space, whatever the answer
/// of the summarizer was.
pub proof fn lemma_summary_is_trimmed(answer: Option<Seq<char>>)
    ensures
        summary_of(answer).len() > 0 ==> !crate::text::is_whitespace(summary_of(answer)[0])
            && !crate::text::is_whitespace(summary_of(answer).last()),
{
    crate::text::lemma_trimmed_ends(
        without_think_blocks(
            match answer {
                Some(text) => text,
                None => Seq::empty(),
            },
        ),
    );
}

} // verus!
