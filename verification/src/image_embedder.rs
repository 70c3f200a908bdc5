//! Image references: resolving them against the document, the textual
//! fallback, the identifier under which an embedded image is cached, and the
//! steps by which its bytes are fetched.

use vstd::prelude::*;
use vstd::string::*;
use vstd::utf8::encode_utf8;
use crate::cache::{Cache, CacheError};
use crate::lesswrong::Post;
use crate::text::{
    after_last, contains, has_infix, has_prefix, hex_lower, lemma_hex_lower_len, lowercase, push_hex, starts_with,
    text_after_last, text_view, to_lowercase,
};

verus! {

/// Result of attempting to embed an image.
#[derive(Debug)]
pub enum EmbeddingResult {
    /// Markup to be used instead of the image: a link to it.
    Text(String),
    /// An image to be embedded.
    Image(ImageEmbedding),
}

/// An image to be embedded.
#[derive(Debug)]
pub struct ImageEmbedding {
    /// Identifier of the image: that of the document and a digest of the URL.
    pub id: String,
    /// Absolute URL of the image.
    pub old_url: String,
    /// The image itself; empty until fetched.
    pub image_bytes: Vec<u8>,
}

/// An image reference that could not be resolved against its document.
#[derive(Debug)]
pub struct UrlResolutionError {
    /// The URL of the document.
    pub base: String,
    /// The reference as it stood in the document.
    pub reference: String,
}

/// Access to the rendering service.
#[derive(Debug)]
pub struct CloudflareCredentials {
    pub key: String,
    pub account_id: String,
}

/// A request to the rendering service for a picture of a page.
#[derive(Debug)]
pub struct RenderRequest {
    /// Where the request goes.
    pub endpoint: String,
    /// Value of the `Authorization` header.
    pub authorization: String,
    /// The page to render.
    pub html: String,
    pub viewport_width: u32,
    pub viewport_height: u32,
    /// Whether the picture covers the page in its full height.
    pub full_page: bool,
    pub omit_background: bool,
}

/// Why an image could not be fetched.
#[derive(Debug)]
pub enum DownloadError {
    /// The cache failed.
    Cache(CacheError),
    /// No answer came from the rendering service.
    Unreachable,
    /// The rendering service answered with a status outside 200 to 299.
    RenderService { status: u16, body: Vec<u8> },
}

/// What the surroundings report to `ImageEmbedder::download_image`.
pub enum DownloadEvent {
    /// Nothing yet: the fetch starts.
    Begin,
    /// The cache holds the image.
    CacheHit(Vec<u8>),
    /// The cache holds nothing under the identifier.
    CacheMiss,
    /// The cache could not be read.
    CacheFailed(CacheError),
    /// No answer came from the rendering service.
    RenderFailed,
    /// The rendering service answered.
    Rendered { status: u16, body: Vec<u8> },
    /// The cache took the image; these are its bytes.
    Stored(Vec<u8>),
    /// The cache could not take the image.
    StoreFailed(CacheError),
}

/// What `ImageEmbedder::download_image` asks for next.
pub enum DownloadAction {
    /// Look `key` up in the image cache.
    LookUp { key: String },
    /// Send `request` to the rendering service.
    Render { request: RenderRequest },
    /// Store `bytes` under `key` in the image cache.
    Store { key: String, bytes: Vec<u8> },
    /// The image is fetched.
    Done,
    /// The fetch failed.
    Fail(DownloadError),
}

/// Resolves image references and plans the fetching of images.
#[derive(Debug)]
pub struct ImageEmbedder {
    credentials: Option<CloudflareCredentials>,
    cache_images: Cache,
}

/// The URL that `Url::join` of the url crate gives for `reference` on the
/// parsed `base`, in its serialized form; `None` where `base` does not parse as
/// an absolute URL or `reference` cannot be joined to it.
pub uninterp spec fn url_join(base: Seq<char>, reference: Seq<char>) -> Option<Seq<char>>;

/// The SHA-256 digest of `data`.
pub uninterp spec fn sha256_digest(data: Seq<u8>) -> Seq<u8>;

/// The error of the url crate's parser, carried as it comes.
#[verifier::external_type_specification]
#[verifier::external_body]
pub struct ExUrlParseError(url::ParseError);

/// `Url::parse` of the url crate reads `base` as an absolute URL and
/// `Url::join` resolves `reference` against it; `String::from` gives the
/// serialization of the result. The outcome is `url_join` of the two texts:
/// `Ok` with the serialization where it is `Some`, the crate's error where
/// either call fails.
#[verifier::external_body]
fn join_url(base: &str, reference: &str) -> (joined: Result<String, url::ParseError>)
    ensures
        joined is Ok <==> url_join(base@, reference@) is Some,
        joined matches Ok(url) ==> url_join(base@, reference@) == Some(url@),
{
    match url::Url::parse(base) {
        Ok(parsed) => parsed.join(reference).map(String::from),
        Err(error) => Err(error),
    }
}

/// `Sha256::digest` of the sha2 crate hashes `data` in one call; the result is
/// `sha256_digest` of the bytes, which for SHA-256 are 32.
#[verifier::external_body]
fn sha256(data: &[u8]) -> (digest: Vec<u8>)
    ensures
        digest@ == sha256_digest(data@),
        digest@.len() == 32,
{
    <sha2::Sha256 as sha2::Digest>::digest(data).to_vec()
}

/// Whether a reference is taken as absolute: it starts with the scheme of a
/// web address, `http://` or `https://`.
pub open spec fn is_absolute(reference: Seq<char>) -> bool {
    has_prefix(reference, "http://"@) || has_prefix(reference, "https://"@)
}

/// The absolute URL of an image referred to as `reference` in the document at
/// `base`: an absolute reference as it is, any other joined to `base`.
pub open spec fn resolved_url(base: Seq<char>, reference: Seq<char>) -> Option<Seq<char>> {
    if is_absolute(reference) {
        Some(reference)
    } else {
        url_join(base, reference)
    }
}

/// Whether a file extension, in lower case, is that of a vector image.
pub open spec fn names_vector_image(lowered_extension: Seq<char>) -> bool {
    has_infix(lowered_extension, "svg"@)
}

/// The link that stands for an image which is not embedded: it leads to `url`
/// and shows `alt`, or the reference itself where there is no `alt`, behind a
/// prefix that tells a vector image from another.
pub open spec fn fallback_link(
    url: Seq<char>,
    lowered_extension: Seq<char>,
    reference: Seq<char>,
    alt: Option<Seq<char>>,
) -> Seq<char> {
    "<a href=\""@ + url + "\">"@ + (if names_vector_image(lowered_extension) {
        "Unsupported SVG image: "@
    } else {
        "Image: "@
    }) + (match alt {
        Some(text) => text,
        None => reference,
    }) + "</a>"@
}

/// The part of a digest that goes into an identifier: its first four bytes,
/// or all of it where it is shorter.
pub open spec fn digest_prefix(digest: Seq<u8>) -> Seq<u8> {
    if digest.len() >= 4 {
        digest.take(4)
    } else {
        digest
    }
}

/// The identifier made of a document's identifier and the digest of a URL: the
/// first four bytes of the digest in hexadecimal after a hyphen.
pub open spec fn id_from_digest(post_id: Seq<char>, digest: Seq<u8>) -> Seq<char> {
    post_id + "-"@ + hex_lower(digest_prefix(digest))
}

/// The identifier under which the image at `url` is embedded in the document
/// `post_id`.
pub open spec fn embedding_id(post_id: Seq<char>, url: Seq<char>) -> Seq<char> {
    id_from_digest(post_id, sha256_digest(encode_utf8(url)))
}

/// The page that shows nothing but the image at `url`, without margins and at
/// the full width of the viewport.
pub open spec fn render_page(url: Seq<char>) -> Seq<char> {
    "<style>* { margin: 0; padding: 0; } body { margin: 0; padding: 0; overflow: hidden; } img { display: block; width: 100%; height: auto; }</style>"@
        + "<img src=\""@ + url + "\">"@
}

/// The request that has the rendering service take a picture of the image at
/// `url`: a narrow viewport of height one and the page in full height, so that
/// the picture holds the image and nothing around it.
pub open spec fn is_render_request(
    credentials: CloudflareCredentials,
    url: Seq<char>,
    request: RenderRequest,
) -> bool {
    &&& request.endpoint@ == "https://api.cloudflare.com/client/v4/accounts/"@
        + credentials.account_id@ + "/browser-rendering/screenshot"@
    &&& request.authorization@ == "Bearer "@ + credentials.key@
    &&& request.html@ == render_page(url)
    &&& request.viewport_width == 640
    &&& request.viewport_height == 1
    &&& request.full_page
    &&& !request.omit_background
}

/// Whether a status of the rendering service means success.
pub open spec fn is_success(status: u16) -> bool {
    200 <= status < 300
}

/// The absolute URL of the image referred to as `image_url` in the document at
/// `page_url`.
pub fn resolve_image_url(page_url: &str, image_url: &str) -> (resolved: Result<
    String,
    UrlResolutionError,
>)
    ensures
        match resolved {
            Ok(url) => resolved_url(page_url@, image_url@) == Some(url@),
            Err(error) => resolved_url(page_url@, image_url@) is None && error.base@ == page_url@
                && error.reference@ == image_url@,
        },
{
    if starts_with(image_url, "http://") || starts_with(image_url, "https://") {
        Ok(String::from_str(image_url))
    } else {
        match join_url(page_url, image_url) {
            Ok(url) => Ok(url),
            Err(_) => Err(
                UrlResolutionError {
                    base: String::from_str(page_url),
                    reference: String::from_str(image_url),
                },
            ),
        }
    }
}

/// The link that stands for the image at `absolute_url`, whose extension in
/// lower case is `lowered_extension`.
pub fn text_fallback(
    absolute_url: &str,
    lowered_extension: &str,
    image_url: &str,
    image_alt: &Option<String>,
) -> (link: String)
    ensures
        link@ == fallback_link(
            absolute_url@,
            lowered_extension@,
            image_url@,
            text_view(*image_alt),
        ),
{
    let mut link = String::from_str("<a href=\"");
    link.append(absolute_url);
    link.append("\">");
    if contains(lowered_extension, "svg") {
        link.append("Unsupported SVG image: ");
    } else {
        link.append("Image: ");
    }
    match image_alt {
        Some(alt) => link.append(alt.as_str()),
        None => link.append(image_url),
    }
    link.append("</a>");
    link
}

/// The identifier of an image in the document `post_id`, from the digest of
/// its URL.
pub fn derive_embedding_id(post_id: &str, digest: &Vec<u8>) -> (id: String)
    ensures
        id@ == id_from_digest(post_id@, digest@),
{
    let mut id = String::from_str(post_id);
    id.append("-");
    if digest.len() >= 4 {
        push_hex(&mut id, digest, 4);
    } else {
        assert(digest@.take(digest@.len() as int) =~= digest@);
        push_hex(&mut id, digest, digest.len());
    }
    id
}

impl ImageEmbedder {
    /// The credentials for the rendering service, if any are configured.
    pub closed spec fn credentials(&self) -> Option<CloudflareCredentials> {
        self.credentials
    }

    /// An embedder that renders images with `credentials`, or, without any,
    /// replaces them by links. Its images are cached in the namespace `images`.
    pub fn new(credentials: Option<CloudflareCredentials>) -> (embedder: ImageEmbedder)
        ensures
            embedder.credentials() == credentials,
    {
        ImageEmbedder { credentials, cache_images: Cache::new("images") }
    }

    /// The cache that holds the fetched images.
    pub fn cache_images(&self) -> (cache: &Cache)
        ensures
            cache.directory() == crate::cache::namespace_directory("images"@),
    {
        proof {
            use_type_invariant(self);
        }
        &self.cache_images
    }

    #[verifier::type_invariant]
    spec fn well_formed(&self) -> bool {
        self.cache_images.directory() == crate::cache::namespace_directory("images"@)
    }

    /// Whether images are embedded: whether credentials are configured.
    pub fn supports_inlining_images(&self) -> (supported: bool)
        ensures
            supported == self.credentials() is Some,
    {
        self.credentials.is_some()
    }

    /// Decides how the image referred to as `image_url` in `post` is shown.
    ///
    /// A reference that cannot be resolved is an error. Without credentials
    /// the image becomes a link to its absolute URL; with credentials it becomes
    /// an embedding with the identifier of the document and the URL, whose
    /// bytes are yet to be fetched.
    pub fn embed_image(&self, post: &Post, image_url: &str, image_alt: &Option<String>) -> (result:
        Result<EmbeddingResult, UrlResolutionError>)
        ensures
            match result {
                Err(error) => resolved_url(post.page_url@, image_url@) is None && error.base@
                    == post.page_url@ && error.reference@ == image_url@,
                Ok(EmbeddingResult::Text(link)) => {
                    &&& self.credentials() is None
                    &&& resolved_url(post.page_url@, image_url@) matches Some(url)
                    &&& link@ == fallback_link(
                        url,
                        lowercase(after_last(url, '.')),
                        image_url@,
                        text_view(*image_alt),
                    )
                },
                Ok(EmbeddingResult::Image(embedding)) => {
                    &&& self.credentials() is Some
                    &&& resolved_url(post.page_url@, image_url@) matches Some(url)
                    &&& embedding.old_url@ == url
                    &&& embedding.id@ == embedding_id(post.id@, url)
                    &&& embedding.id@.len() == post.id@.len() + 9
                    &&& embedding.image_bytes@.len() == 0
                },
            },
    {
        let absolute_url = match resolve_image_url(post.page_url.as_str(), image_url) {
            Ok(url) => url,
            Err(error) => {
                return Err(error);
            },
        };
        if !self.supports_inlining_images() {
            let extension = text_after_last(absolute_url.as_str(), '.');
            let lowered = to_lowercase(extension.as_str());
            let link = text_fallback(absolute_url.as_str(), lowered.as_str(), image_url, image_alt);
            return Ok(EmbeddingResult::Text(link));
        }
        let digest = sha256(absolute_url.as_str().as_bytes());
        let id = derive_embedding_id(post.id.as_str(), &digest);
        proof {
            reveal_strlit("-");
            lemma_hex_lower_len(digest_prefix(digest@));
        }
        Ok(EmbeddingResult::Image(ImageEmbedding { id, old_url: absolute_url, image_bytes: Vec::new() }))
    }

    /// The request for a picture of the image at `url`.
    pub fn render_request(credentials: &CloudflareCredentials, url: &str) -> (request:
        RenderRequest)
        ensures
            is_render_request(*credentials, url@, request),
    {
        let mut endpoint = String::from_str("https://api.cloudflare.com/client/v4/accounts/");
        endpoint.append(credentials.account_id.as_str());
        endpoint.append("/browser-rendering/screenshot");
        let mut authorization = String::from_str("Bearer ");
        authorization.append(credentials.key.as_str());
        let mut html = String::from_str(
            "<style>* { margin: 0; padding: 0; } body { margin: 0; padding: 0; overflow: hidden; } img { display: block; width: 100%; height: auto; }</style>",
        );
        html.append("<img src=\"");
        html.append(url);
        html.append("\">");
        RenderRequest {
            endpoint,
            authorization,
            html,
            viewport_width: 640,
            viewport_height: 1,
            full_page: true,
            omit_background: false,
        }
    }

    /// What `download_image` answers to `event`, and what it leaves in the
    /// embedding.
    pub open spec fn download_step(
        &self,
        before: ImageEmbedding,
        event: DownloadEvent,
        after: ImageEmbedding,
        action: DownloadAction,
    ) -> bool {
        &&& after.id == before.id
        &&& after.old_url == before.old_url
        &&& match event {
            DownloadEvent::Begin => {
                &&& after.image_bytes == before.image_bytes
                &&& action matches DownloadAction::LookUp { key }
                &&& key == before.id
            },
            DownloadEvent::CacheHit(bytes) => after.image_bytes == bytes && action
                == DownloadAction::Done,
            DownloadEvent::CacheMiss => {
                &&& after.image_bytes == before.image_bytes
                &&& action matches DownloadAction::Render { request }
                &&& is_render_request(self.credentials()->0, before.old_url@, request)
            },
            DownloadEvent::CacheFailed(error) => after.image_bytes == before.image_bytes && action
                == DownloadAction::Fail(DownloadError::Cache(error)),
            DownloadEvent::RenderFailed => after.image_bytes == before.image_bytes && action
                == DownloadAction::Fail(DownloadError::Unreachable),
            DownloadEvent::Rendered { status, body } => {
                &&& after.image_bytes == before.image_bytes
                &&& if is_success(status) {
                    action == (DownloadAction::Store { key: before.id, bytes: body })
                } else {
                    action == DownloadAction::Fail(DownloadError::RenderService { status, body })
                }
            },
            DownloadEvent::Stored(bytes) => after.image_bytes == bytes && action
                == DownloadAction::Done,
            DownloadEvent::StoreFailed(error) => after.image_bytes == before.image_bytes && action
                == DownloadAction::Fail(DownloadError::Cache(error)),
        }
    }

    /// One step of fetching the bytes of an embedded image.
    ///
    /// The cache is asked first, and a hit ends the fetch without a request to
    /// the rendering service. On a miss the service is asked for a picture of
    /// the image; an answer with a status outside 200 to 299 fails the fetch
    /// with that status and body; any other answer is stored in the cache under
    /// the identifier, and only then placed in the embedding.
    pub fn download_image(&self, image_embedding: &mut ImageEmbedding, event: DownloadEvent) -> (action:
        DownloadAction)
        requires
            event is CacheMiss ==> self.credentials() is Some,
        ensures
            self.download_step(*old(image_embedding), event, *final(image_embedding), action),
    {
        match event {
            DownloadEvent::Begin => DownloadAction::LookUp { key: image_embedding.id.clone() },
            DownloadEvent::CacheHit(bytes) => {
                image_embedding.image_bytes = bytes;
                DownloadAction::Done
            },
            DownloadEvent::CacheMiss => {
                match &self.credentials {
                    Some(credentials) => DownloadAction::Render {
                        request: Self::render_request(credentials, image_embedding.old_url.as_str()),
                    },
                    None => vstd::pervasive::unreached(),
                }
            },
            DownloadEvent::CacheFailed(error) => DownloadAction::Fail(DownloadError::Cache(error)),
            DownloadEvent::RenderFailed => DownloadAction::Fail(DownloadError::Unreachable),
            DownloadEvent::Rendered { status, body } => {
                if 200 <= status && status < 300 {
                    DownloadAction::Store { key: image_embedding.id.clone(), bytes: body }
                } else {
                    DownloadAction::Fail(DownloadError::RenderService { status, body })
                }
            },
            DownloadEvent::Stored(bytes) => {
                image_embedding.image_bytes = bytes;
                DownloadAction::Done
            },
            DownloadEvent::StoreFailed(error) => DownloadAction::Fail(DownloadError::Cache(error)),
        }
    }
}

/// Within one document an image has one identifier, however often it is
/// resolved, and two documents never give the same image the same identifier.
pub proof fn lemma_embedding_id_per_document(first: Seq<char>, second: Seq<char>, url: Seq<char>)
    ensures
        embedding_id(first, url) == embedding_id(second, url) <==> first == second,
{
    let tail = "-"@ + hex_lower(digest_prefix(sha256_digest(encode_utf8(url))));
    let a = embedding_id(first, url);
    let b = embedding_id(second, url);
    assert(a =~= first + tail);
    assert(b =~= second + tail);
    if a == b {
        assert(first.len() == second.len());
        assert forall|k: int| 0 <= k < first.len() implies first[k] == second[k] by {
            assert(a[k] == first[k]);
            assert(b[k] == second[k]);
        }
        assert(first =~= second);
    }
}

/// An absolute reference resolves to itself, whatever the document.
pub proof fn lemma_absolute_reference_unchanged(base: Seq<char>, reference: Seq<char>)
    requires
        is_absolute(reference),
    ensures
        resolved_url(base, reference) == Some(reference),
{
}

} // verus!
