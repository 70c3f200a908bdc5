//! Presentation rules of the assembled book.

use vstd::prelude::*;
use vstd::string::*;
use crate::ai::AnnotatedPostWithComments;
use crate::image_embedder::{
    EmbeddingResult, ImageEmbedder, ImageEmbedding, UrlResolutionError, embedding_id, fallback_link,
    resolved_url,
};
use crate::lesswrong::Post;
use crate::text::{after_last, decimal, lowercase, push_decimal, text_view, trim, trimmed};

verus! {

/// Reading speed, in words per minute.
pub const WORDS_PER_MINUTE: i64 = 130;

/// Minutes needed to read `words` words, rounded up; the division truncates
/// towards zero, so every non-positive count above -130 takes zero minutes.
pub open spec fn read_minutes(words: int) -> int {
    let padded = words + WORDS_PER_MINUTE - 1;
    if padded >= 0 {
        padded / (WORDS_PER_MINUTE as int)
    } else {
        -((-padded) / (WORDS_PER_MINUTE as int))
    }
}

/// The reading-time label shown beside a post: the minutes and the unit.
pub open spec fn read_time_label(words: int) -> Seq<char> {
    decimal(read_minutes(words)) + seq!['m', 'i', 'n']
}

/// The reading-time label of a post of `words` words.
pub fn words_to_read_time(words: i64) -> (label: String)
    ensures
        label@ == read_time_label(words as int),
{
    let mut label = String::new();
    if words >= 1 - WORDS_PER_MINUTE {
        let whole: i64 = words / WORDS_PER_MINUTE;
        let rest: i64 = words % WORDS_PER_MINUTE;
        let minutes: i64 = if rest > 0 {
            whole + 1
        } else {
            whole
        };
        assert(minutes == read_minutes(words as int));
        push_decimal(&mut label, minutes as u64);
    } else {
        let padded: i64 = words + (WORDS_PER_MINUTE - 1);
        let magnitude: i64 = (0 - padded) / WORDS_PER_MINUTE;
        assert(-magnitude == read_minutes(words as int));
        if magnitude > 0 {
            proof {
                reveal_strlit("-");
            }
            label.append("-");
        }
        push_decimal(&mut label, magnitude as u64);
    }
    proof {
        reveal_strlit("min");
    }
    label.append("min");
    assert(label@ =~= read_time_label(words as int));
    label
}

/// An image as a document refers to it.
#[derive(Debug)]
pub struct ImageReference {
    /// Where the image is, possibly relative to the document.
    pub source_url: String,
    /// The text that stands for the image, if the document gives one.
    pub alt_text: Option<String>,
}

/// What takes the place of an image in a document.
#[derive(Debug)]
pub struct InlinedImage {
    /// The markup that replaces the element.
    pub markup: String,
    /// What the image became.
    pub embedding: EmbeddingResult,
}

/// What becomes of one image of a document.
#[derive(Debug)]
pub enum Inlining {
    /// The element of the image is replaced.
    Replaced(InlinedImage),
    /// The reference could not be resolved: the element stays as it is, and
    /// the other images of the document go on.
    Kept(UrlResolutionError),
}

/// Title, author and cover of a book.
#[derive(Debug)]
pub struct BookMetadata {
    pub title: String,
    pub author: String,
    /// Path of the cover image, where the book has one.
    pub cover_image: Option<String>,
}

/// What one post contributes to a book.
#[derive(Debug)]
pub struct Chapter {
    /// Name of the chapter's file in the book.
    pub file_name: String,
    pub title: String,
    /// The reading time shown with the post.
    pub read_time: String,
    /// The images that go into the book with the chapter.
    pub images: Vec<ImageEmbedding>,
}

/// Plans the contents of a book.
#[derive(Debug)]
pub struct Epub {
    image_embedder: ImageEmbedder,
}

/// The alternative text of an image with the attribute `alt`: the attribute
/// without white space around it, unless nothing is left of it.
pub open spec fn alt_text_of(alt: Option<Seq<char>>) -> Option<Seq<char>> {
    match alt {
        Some(text) => if trimmed(text).len() == 0 {
            None
        } else {
            Some(trimmed(text))
        },
        None => None,
    }
}

/// The name under which the image `id` goes into a book.
pub open spec fn resource_name(id: Seq<char>) -> Seq<char> {
    id + ".png"@
}

/// The element that shows the embedded image `id`.
pub open spec fn image_element(id: Seq<char>) -> Seq<char> {
    "<img src=\""@ + resource_name(id) + "\" />"@
}

/// The embedded images among `results`, in their order.
pub open spec fn embedded_images(results: Seq<EmbeddingResult>) -> Seq<ImageEmbedding>
    decreases results.len(),
{
    if results.len() == 0 {
        Seq::empty()
    } else {
        match results.last() {
            EmbeddingResult::Image(embedding) => embedded_images(results.drop_last()).push(
                embedding,
            ),
            EmbeddingResult::Text(_) => embedded_images(results.drop_last()),
        }
    }
}

/// What the replaced images among `outcomes` became, in their order.
pub open spec fn replaced_embeddings(outcomes: Seq<Inlining>) -> Seq<EmbeddingResult>
    decreases outcomes.len(),
{
    if outcomes.len() == 0 {
        Seq::empty()
    } else {
        match outcomes.last() {
            Inlining::Replaced(image) => replaced_embeddings(outcomes.drop_last()).push(
                image.embedding,
            ),
            Inlining::Kept(_) => replaced_embeddings(outcomes.drop_last()),
        }
    }
}

/// What the replaced images among `outcomes` became, in their order.
pub fn replacements_of(outcomes: Vec<Inlining>) -> (replacements: Vec<EmbeddingResult>)
    ensures
        replacements@ == replaced_embeddings(outcomes@),
{
    let mut remaining = outcomes;
    let mut reversed: Vec<EmbeddingResult> = Vec::new();
    assert(replaced_embeddings(outcomes@) =~= replaced_embeddings(remaining@) + reversed@.reverse());
    while remaining.len() > 0
        invariant
            replaced_embeddings(outcomes@) == replaced_embeddings(remaining@) + reversed@.reverse(),
        decreases remaining.len(),
    {
        let ghost before = remaining@;
        let ghost stack = reversed@;
        match remaining.pop() {
            Some(Inlining::Replaced(image)) => {
                let ghost embedding = image.embedding;
                reversed.push(image.embedding);
                assert(remaining@ =~= before.drop_last());
                assert(replaced_embeddings(before) == replaced_embeddings(remaining@).push(
                    embedding,
                ));
                assert(reversed@.reverse() =~= seq![embedding] + stack.reverse());
                assert(replaced_embeddings(outcomes@) =~= replaced_embeddings(remaining@)
                    + reversed@.reverse());
            },
            Some(Inlining::Kept(_)) => {
                assert(remaining@ =~= before.drop_last());
            },
            None => {},
        }
    }
    let mut replacements: Vec<EmbeddingResult> = Vec::new();
    assert(replaced_embeddings(outcomes@) =~= replacements@ + reversed@.reverse());
    while reversed.len() > 0
        invariant
            replaced_embeddings(outcomes@) == replacements@ + reversed@.reverse(),
        decreases reversed.len(),
    {
        let ghost stack = reversed@;
        let ghost done = replacements@;
        match reversed.pop() {
            Some(embedding) => {
                replacements.push(embedding);
                assert(reversed@ =~= stack.drop_last());
                assert(stack.reverse() =~= seq![embedding] + reversed@.reverse());
                assert(replacements@ + reversed@.reverse() =~= done + stack.reverse());
            },
            None => {},
        }
    }
    assert(reversed@.reverse() =~= Seq::<EmbeddingResult>::empty());
    assert(replacements@ + Seq::<EmbeddingResult>::empty() =~= replacements@);
    replacements
}

/// The name under which the image `id` goes into a book.
pub fn image_resource_name(id: &str) -> (name: String)
    ensures
        name@ == resource_name(id@),
{
    let mut name = String::from_str(id);
    name.append(".png");
    name
}

/// The embedded images among `replacements`, in their order.
pub fn image_resources(replacements: Vec<EmbeddingResult>) -> (images: Vec<ImageEmbedding>)
    ensures
        images@ == embedded_images(replacements@),
{
    let mut remaining = replacements;
    let mut reversed: Vec<ImageEmbedding> = Vec::new();
    assert(embedded_images(replacements@) =~= embedded_images(remaining@) + reversed@.reverse());
    while remaining.len() > 0
        invariant
            embedded_images(replacements@) == embedded_images(remaining@) + reversed@.reverse(),
        decreases remaining.len(),
    {
        let ghost before = remaining@;
        let ghost stack = reversed@;
        match remaining.pop() {
            Some(EmbeddingResult::Image(embedding)) => {
                reversed.push(embedding);
                assert(remaining@ =~= before.drop_last());
                assert(embedded_images(before) == embedded_images(remaining@).push(embedding));
                assert(reversed@.reverse() =~= seq![embedding] + stack.reverse());
                assert(embedded_images(replacements@) =~= embedded_images(remaining@)
                    + reversed@.reverse());
            },
            Some(EmbeddingResult::Text(_)) => {
                assert(remaining@ =~= before.drop_last());
            },
            None => {},
        }
    }
    let mut images: Vec<ImageEmbedding> = Vec::new();
    assert(embedded_images(replacements@) =~= images@ + reversed@.reverse());
    while reversed.len() > 0
        invariant
            embedded_images(replacements@) == images@ + reversed@.reverse(),
        decreases reversed.len(),
    {
        let ghost stack = reversed@;
        let ghost done = images@;
        match reversed.pop() {
            Some(embedding) => {
                images.push(embedding);
                assert(reversed@ =~= stack.drop_last());
                assert(stack.reverse() =~= seq![embedding] + reversed@.reverse());
                assert(images@ + reversed@.reverse() =~= done + stack.reverse());
            },
            None => {},
        }
    }
    assert(reversed@.reverse() =~= Seq::<ImageEmbedding>::empty());
    assert(images@ + Seq::<ImageEmbedding>::empty() =~= images@);
    images
}

impl ImageReference {
    /// The reference made by an image element with the attributes `src` and
    /// `alt`: both without white space around them, and no alternative text
    /// where `alt` is missing or blank.
    pub fn from_attributes(src: &str, alt: &Option<String>) -> (reference: ImageReference)
        ensures
            reference.source_url@ == trimmed(src@),
            text_view(reference.alt_text) == alt_text_of(text_view(*alt)),
    {
        let alt_text = match alt {
            Some(text) => {
                let kept = trim(text.as_str());
                if kept.as_str().unicode_len() == 0 {
                    None
                } else {
                    Some(kept)
                }
            },
            None => None,
        };
        ImageReference { source_url: trim(src), alt_text }
    }
}

impl Epub {
    /// The embedder that decides about the images of the book.
    pub closed spec fn embedder(&self) -> ImageEmbedder {
        self.image_embedder
    }

    /// A planner that shows images as `image_embedder` decides.
    pub fn new(image_embedder: ImageEmbedder) -> (epub: Epub)
        ensures
            epub.embedder() == image_embedder,
    {
        Epub { image_embedder }
    }

    /// The embedder that decides about the images of the book.
    pub fn image_embedder(&self) -> (embedder: &ImageEmbedder)
        ensures
            *embedder == self.embedder(),
    {
        &self.image_embedder
    }

    /// Title and author of the book; those of the collected highlights where
    /// none are given. The cover is the one that comes with the collection.
    pub fn set_metadata(title: Option<String>, author: Option<String>, use_cover_image: bool) -> (metadata:
        BookMetadata)
        ensures
            metadata.title@ == match title {
                Some(given) => given@,
                None => "LessWrong Sequences Highlights"@,
            },
            metadata.author@ == match author {
                Some(given) => given@,
                None => "Eliezer Yudkowsky"@,
            },
            text_view(metadata.cover_image) == if use_cover_image {
                Some("epub_resources/cover.jpg"@)
            } else {
                None
            },
    {
        let title = match title {
            Some(given) => given,
            None => String::from_str("LessWrong Sequences Highlights"),
        };
        let author = match author {
            Some(given) => given,
            None => String::from_str("Eliezer Yudkowsky"),
        };
        let cover_image = if use_cover_image {
            Some(String::from_str("epub_resources/cover.jpg"))
        } else {
            None
        };
        BookMetadata { title, author, cover_image }
    }

    /// Whether `outcome` is what becomes of the image `reference` in `post`:
    /// replaced by the link where images are not embedded, else by an element
    /// that shows the embedded image under its resource name; kept exactly
    /// where the reference cannot be resolved.
    pub open spec fn inlines(
        &self,
        post: Post,
        reference: ImageReference,
        outcome: Inlining,
    ) -> bool {
        match outcome {
            Inlining::Kept(error) => resolved_url(post.page_url@, reference.source_url@) is None
                && error.base@ == post.page_url@ && error.reference@ == reference.source_url@,
            Inlining::Replaced(image) => {
                &&& resolved_url(post.page_url@, reference.source_url@) matches Some(url)
                &&& match image.embedding {
                    EmbeddingResult::Text(link) => {
                        &&& self.embedder().credentials() is None
                        &&& link@ == fallback_link(
                            url,
                            lowercase(after_last(url, '.')),
                            reference.source_url@,
                            text_view(reference.alt_text),
                        )
                        &&& image.markup@ == link@
                    },
                    EmbeddingResult::Image(embedding) => {
                        &&& self.embedder().credentials() is Some
                        &&& embedding.old_url@ == url
                        &&& embedding.id@ == embedding_id(post.id@, url)
                        &&& embedding.image_bytes@.len() == 0
                        &&& image.markup@ == image_element(embedding.id@)
                    },
                }
            },
        }
    }

    /// What becomes of each image of `post`, in the order of `references`. An
    /// image whose reference cannot be resolved is kept, and the images after
    /// it are treated all the same.
    pub fn try_inline_images(&self, post: &Post, references: &Vec<ImageReference>) -> (outcomes:
        Vec<Inlining>)
        ensures
            outcomes@.len() == references@.len(),
            forall|k: int|
                0 <= k < references@.len() ==> self.inlines(
                    *post,
                    #[trigger] references@[k],
                    outcomes@[k],
                ),
    {
        let mut outcomes: Vec<Inlining> = Vec::new();
        let mut k: usize = 0;
        while k < references.len()
            invariant
                k <= references.len(),
                outcomes@.len() == k,
                forall|j: int|
                    0 <= j < k ==> self.inlines(*post, #[trigger] references@[j], outcomes@[j]),
            decreases references.len() - k,
        {
            let outcome = match self.try_inline_image(post, &references[k]) {
                Ok(image) => Inlining::Replaced(image),
                Err(error) => Inlining::Kept(error),
            };
            outcomes.push(outcome);
            k = k + 1;
        }
        outcomes
    }

    /// What takes the place of the image `reference` in `post`: the link where
    /// images are not embedded, else an element that shows the embedded image
    /// under its resource name. A reference that cannot be resolved is an
    /// error of this image alone.
    pub fn try_inline_image(&self, post: &Post, reference: &ImageReference) -> (inlined: Result<
        InlinedImage,
        UrlResolutionError,
    >)
        ensures
            self.inlines(
                *post,
                *reference,
                match inlined {
                    Ok(image) => Inlining::Replaced(image),
                    Err(error) => Inlining::Kept(error),
                },
            ),
    {
        let embedding = match self.image_embedder.embed_image(
            post,
            reference.source_url.as_str(),
            &reference.alt_text,
        ) {
            Ok(embedding) => embedding,
            Err(error) => {
                return Err(error);
            },
        };
        let markup = match &embedding {
            EmbeddingResult::Text(link) => link.clone(),
            EmbeddingResult::Image(image) => {
                let mut element = String::from_str("<img src=\"");
                element.append(image_resource_name(image.id.as_str()).as_str());
                element.append("\" />");
                element
            },
        };
        Ok(InlinedImage { markup, embedding })
    }

    /// What `post` contributes to the book: a file named after its slug, its
    /// title and reading time, and the embedded images among `replacements`.
    pub fn add_post(post: &AnnotatedPostWithComments, replacements: Vec<EmbeddingResult>) -> (chapter:
        Chapter)
        ensures
            chapter.file_name@ == post.post.slug@ + ".xhtml"@,
            chapter.title@ == post.post.title@,
            chapter.read_time@ == read_time_label(post.post.word_count as int),
            chapter.images@ == embedded_images(replacements@),
    {
        let mut file_name = post.post.slug.clone();
        file_name.append(".xhtml");
        Chapter {
            file_name,
            title: post.post.title.clone(),
            read_time: words_to_read_time(post.post.word_count),
            images: image_resources(replacements),
        }
    }
}

} // verus!
