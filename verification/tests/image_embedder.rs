use lesswrong_sequences_highlights_epub::cache::CacheError;
use lesswrong_sequences_highlights_epub::image_embedder::{
    derive_embedding_id, resolve_image_url, text_fallback, CloudflareCredentials, DownloadAction,
    DownloadError, DownloadEvent, EmbeddingResult, ImageEmbedder, ImageEmbedding,
};
use lesswrong_sequences_highlights_epub::lesswrong::Post;

fn post(id: &str, page_url: &str) -> Post {
    Post {
        id: id.to_string(),
        page_url: page_url.to_string(),
        title: String::new(),
        slug: String::new(),
        author: String::new(),
        content_markdown: String::new(),
        word_count: 0,
    }
}

fn credentials() -> Option<CloudflareCredentials> {
    Some(CloudflareCredentials {
        key: "k3y".to_string(),
        account_id: "acc".to_string(),
    })
}

fn text_of(result: EmbeddingResult) -> String {
    match result {
        EmbeddingResult::Text(link) => link,
        EmbeddingResult::Image(_) => panic!("expected a link"),
    }
}

fn image_of(result: EmbeddingResult) -> ImageEmbedding {
    match result {
        EmbeddingResult::Image(image) => image,
        EmbeddingResult::Text(_) => panic!("expected an embedding"),
    }
}

fn embedding() -> ImageEmbedding {
    ImageEmbedding {
        id: "doc-4fee7565".to_string(),
        old_url: "https://example.com/first.svg".to_string(),
        image_bytes: vec![],
    }
}

#[test]
fn relative_reference_is_joined_to_the_document() {
    let url = resolve_image_url("https://example.com/post", "first.svg").unwrap();
    assert_eq!(url, "https://example.com/first.svg");
}

#[test]
fn relative_reference_follows_the_rules_of_joining() {
    assert_eq!(
        resolve_image_url("https://example.com/a/b/post", "../img/x.png").unwrap(),
        "https://example.com/a/img/x.png"
    );
    assert_eq!(
        resolve_image_url("https://example.com/a/post", "/root.png").unwrap(),
        "https://example.com/root.png"
    );
    assert_eq!(
        resolve_image_url("https://example.com/a/post", "//cdn.example.org/x.png").unwrap(),
        "https://cdn.example.org/x.png"
    );
}

#[test]
fn absolute_reference_is_returned_unchanged() {
    let url = resolve_image_url("https://example.com/post", "https://other.org/A B.png").unwrap();
    assert_eq!(url, "https://other.org/A B.png");
    // even where the document's own URL is no URL at all
    let url = resolve_image_url("not a url", "http://other.org/x.png").unwrap();
    assert_eq!(url, "http://other.org/x.png");
}

#[test]
fn reference_that_only_starts_like_a_scheme_is_joined() {
    assert_eq!(
        resolve_image_url("https://example.com/post", "httpdocs/a.png").unwrap(),
        "https://example.com/httpdocs/a.png"
    );
    assert_eq!(
        resolve_image_url("https://example.com/post", "https.png").unwrap(),
        "https://example.com/https.png"
    );
    assert!(resolve_image_url("not a url", "httpdocs/a.png").is_err());
    let embedder = ImageEmbedder::new(None);
    let result = embedder
        .embed_image(&post("p", "https://example.com/post"), "httpdocs/a.png", &None)
        .unwrap();
    assert_eq!(
        text_of(result),
        "<a href=\"https://example.com/httpdocs/a.png\">Image: httpdocs/a.png</a>"
    );
}

#[test]
fn unusable_base_is_a_resolution_error() {
    let error = resolve_image_url("not a url", "first.svg").unwrap_err();
    assert_eq!(error.base, "not a url");
    assert_eq!(error.reference, "first.svg");
}

#[test]
fn unusable_reference_is_a_resolution_error() {
    let error = resolve_image_url("https://example.com/post", "//[bad").unwrap_err();
    assert_eq!(error.base, "https://example.com/post");
    assert_eq!(error.reference, "//[bad");
}

#[test]
fn svg_with_alt_text_becomes_an_unsupported_link() {
    let embedder = ImageEmbedder::new(None);
    assert!(!embedder.supports_inlining_images());
    let result = embedder
        .embed_image(
            &post("test-epub", "https://example.com/test-post"),
            "first.svg",
            &Some("Diagram".to_string()),
        )
        .unwrap();
    assert_eq!(
        text_of(result),
        "<a href=\"https://example.com/first.svg\">Unsupported SVG image: Diagram</a>"
    );
}

#[test]
fn png_without_alt_text_shows_its_own_reference() {
    let embedder = ImageEmbedder::new(None);
    let result = embedder
        .embed_image(
            &post("test-epub", "https://example.com/test-post"),
            "second.png",
            &None,
        )
        .unwrap();
    assert_eq!(
        text_of(result),
        "<a href=\"https://example.com/second.png\">Image: second.png</a>"
    );
}

#[test]
fn extension_is_classified_without_regard_to_case() {
    let embedder = ImageEmbedder::new(None);
    let result = embedder
        .embed_image(&post("p", "https://example.com/x"), "Chart.SVG", &None)
        .unwrap();
    assert_eq!(
        text_of(result),
        "<a href=\"https://example.com/Chart.SVG\">Unsupported SVG image: Chart.SVG</a>"
    );
}

#[test]
fn only_what_follows_the_last_dot_is_the_extension() {
    let embedder = ImageEmbedder::new(None);
    let result = embedder
        .embed_image(&post("p", "https://example.com/x"), "svg.files/a.png", &None)
        .unwrap();
    assert_eq!(
        text_of(result),
        "<a href=\"https://example.com/svg.files/a.png\">Image: svg.files/a.png</a>"
    );
    let result = embedder
        .embed_image(&post("p", "https://example.com/x"), "a.svg?size=2", &None)
        .unwrap();
    assert_eq!(
        text_of(result),
        "<a href=\"https://example.com/a.svg?size=2\">Unsupported SVG image: a.svg?size=2</a>"
    );
}

#[test]
fn empty_alt_text_is_shown_as_it_is() {
    let embedder = ImageEmbedder::new(None);
    let result = embedder
        .embed_image(&post("p", "https://example.com/x"), "a.png", &Some(String::new()))
        .unwrap();
    assert_eq!(text_of(result), "<a href=\"https://example.com/a.png\">Image: </a>");
}

#[test]
fn fallback_goes_by_the_lowered_extension_it_is_given() {
    assert_eq!(
        text_fallback("u", "svg", "r", &None),
        "<a href=\"u\">Unsupported SVG image: r</a>"
    );
    assert_eq!(
        text_fallback("u", "xsvgz", "r", &Some("alt".to_string())),
        "<a href=\"u\">Unsupported SVG image: alt</a>"
    );
    assert_eq!(text_fallback("u", "SVG", "r", &None), "<a href=\"u\">Image: r</a>");
    assert_eq!(text_fallback("u", "sv", "r", &None), "<a href=\"u\">Image: r</a>");
    assert_eq!(text_fallback("u", "", "r", &None), "<a href=\"u\">Image: r</a>");
}

#[test]
fn unresolvable_reference_fails_with_or_without_credentials() {
    for embedder in [ImageEmbedder::new(None), ImageEmbedder::new(credentials())] {
        let error = embedder
            .embed_image(&post("p", "nonsense"), "a.png", &None)
            .unwrap_err();
        assert_eq!(error.base, "nonsense");
        assert_eq!(error.reference, "a.png");
    }
}

#[test]
fn embedding_carries_identifier_and_absolute_url() {
    let embedder = ImageEmbedder::new(credentials());
    assert!(embedder.supports_inlining_images());
    let image = image_of(
        embedder
            .embed_image(&post("doc", "https://example.com/post"), "first.svg", &None)
            .unwrap(),
    );
    assert_eq!(image.id, "doc-4fee7565");
    assert_eq!(image.old_url, "https://example.com/first.svg");
    assert!(image.image_bytes.is_empty());
}

#[test]
fn same_url_in_same_document_gives_same_identifier() {
    let embedder = ImageEmbedder::new(credentials());
    let doc = post("doc", "https://example.com/post");
    let first = image_of(embedder.embed_image(&doc, "second.png", &None).unwrap());
    let again = image_of(
        embedder
            .embed_image(&doc, "https://example.com/second.png", &Some("x".to_string()))
            .unwrap(),
    );
    assert_eq!(first.id, "doc-e1dee098");
    assert_eq!(first.id, again.id);
}

#[test]
fn same_url_in_another_document_gives_another_identifier() {
    let embedder = ImageEmbedder::new(credentials());
    let first = image_of(
        embedder
            .embed_image(&post("doc", "https://example.com/post"), "second.png", &None)
            .unwrap(),
    );
    let other = image_of(
        embedder
            .embed_image(&post("other", "https://example.com/post"), "second.png", &None)
            .unwrap(),
    );
    assert_eq!(other.id, "other-e1dee098");
    assert_ne!(first.id, other.id);
}

#[test]
fn identifier_is_made_of_the_first_four_bytes_of_the_digest() {
    let digest = vec![0x00, 0x9f, 0xa0, 0xff, 0x12, 0x34];
    assert_eq!(derive_embedding_id("post", &digest), "post-009fa0ff");
    assert_eq!(derive_embedding_id("", &vec![1, 35, 69, 103]), "-01234567");
    assert_eq!(derive_embedding_id("p", &vec![0x89, 0xab, 0xcd, 0xef]), "p-89abcdef");
    assert_eq!(derive_embedding_id("p", &vec![0x89, 0xab]), "p-89ab");
    assert_eq!(derive_embedding_id("p", &vec![]), "p-");
}

#[test]
fn images_are_cached_in_their_own_namespace() {
    let embedder = ImageEmbedder::new(None);
    assert_eq!(
        embedder.cache_images().cache_file_path("doc-4fee7565"),
        ".cache/images/doc-4fee7565.json"
    );
}

#[test]
fn render_request_wraps_the_image_in_a_bare_page() {
    let given = credentials().unwrap();
    let request = ImageEmbedder::render_request(&given, "https://example.com/a.png");
    assert_eq!(
        request.endpoint,
        "https://api.cloudflare.com/client/v4/accounts/acc/browser-rendering/screenshot"
    );
    assert_eq!(request.authorization, "Bearer k3y");
    assert_eq!(
        request.html,
        "<style>* { margin: 0; padding: 0; } body { margin: 0; padding: 0; overflow: hidden; } img { display: block; width: 100%; height: auto; }</style><img src=\"https://example.com/a.png\">"
    );
    assert_eq!(request.viewport_width, 640);
    assert_eq!(request.viewport_height, 1);
    assert!(request.full_page);
    assert!(!request.omit_background);
}

#[test]
fn download_starts_with_the_cache() {
    let embedder = ImageEmbedder::new(credentials());
    let mut image = embedding();
    match embedder.download_image(&mut image, DownloadEvent::Begin) {
        DownloadAction::LookUp { key } => assert_eq!(key, "doc-4fee7565"),
        _ => panic!("expected a lookup"),
    }
    assert!(image.image_bytes.is_empty());
}

#[test]
fn cache_hit_ends_the_download_without_rendering() {
    let embedder = ImageEmbedder::new(None);
    let mut image = embedding();
    let action = embedder.download_image(&mut image, DownloadEvent::CacheHit(vec![1, 2, 3]));
    assert!(matches!(action, DownloadAction::Done));
    assert_eq!(image.image_bytes, vec![1, 2, 3]);
    assert_eq!(image.id, "doc-4fee7565");
    assert_eq!(image.old_url, "https://example.com/first.svg");
}

#[test]
fn cache_miss_asks_the_rendering_service() {
    let embedder = ImageEmbedder::new(credentials());
    let mut image = embedding();
    match embedder.download_image(&mut image, DownloadEvent::CacheMiss) {
        DownloadAction::Render { request } => {
            assert!(request.html.ends_with("<img src=\"https://example.com/first.svg\">"));
            assert_eq!(request.authorization, "Bearer k3y");
        }
        _ => panic!("expected a request"),
    }
    assert!(image.image_bytes.is_empty());
}

#[test]
fn successful_rendering_is_stored_before_it_is_used() {
    let embedder = ImageEmbedder::new(credentials());
    let mut image = embedding();
    let action = embedder.download_image(
        &mut image,
        DownloadEvent::Rendered { status: 200, body: vec![9, 8, 7] },
    );
    match action {
        DownloadAction::Store { key, bytes } => {
            assert_eq!(key, "doc-4fee7565");
            assert_eq!(bytes, vec![9, 8, 7]);
        }
        _ => panic!("expected a store"),
    }
    assert!(image.image_bytes.is_empty());
    let action = embedder.download_image(&mut image, DownloadEvent::Stored(vec![9, 8, 7]));
    assert!(matches!(action, DownloadAction::Done));
    assert_eq!(image.image_bytes, vec![9, 8, 7]);
}

#[test]
fn status_decides_between_store_and_failure() {
    let embedder = ImageEmbedder::new(credentials());
    for status in [200u16, 204, 299] {
        let mut image = embedding();
        let action = embedder
            .download_image(&mut image, DownloadEvent::Rendered { status, body: vec![1] });
        assert!(matches!(action, DownloadAction::Store { .. }));
    }
    for status in [0u16, 199, 300, 404, 500, u16::MAX] {
        let mut image = embedding();
        let action = embedder
            .download_image(&mut image, DownloadEvent::Rendered { status, body: vec![1] });
        assert!(matches!(action, DownloadAction::Fail(DownloadError::RenderService { .. })));
    }
}

#[test]
fn failed_rendering_carries_status_and_body() {
    let embedder = ImageEmbedder::new(credentials());
    let mut image = embedding();
    let action = embedder.download_image(
        &mut image,
        DownloadEvent::Rendered { status: 403, body: b"denied".to_vec() },
    );
    match action {
        DownloadAction::Fail(DownloadError::RenderService { status, body }) => {
            assert_eq!(status, 403);
            assert_eq!(body, b"denied".to_vec());
        }
        _ => panic!("expected a failure of the rendering service"),
    }
    assert!(image.image_bytes.is_empty());
}

#[test]
fn failures_of_cache_and_transport_end_the_download() {
    let embedder = ImageEmbedder::new(credentials());
    let mut image = embedding();
    assert!(matches!(
        embedder.download_image(&mut image, DownloadEvent::CacheFailed(CacheError::Io)),
        DownloadAction::Fail(DownloadError::Cache(CacheError::Io))
    ));
    assert!(matches!(
        embedder.download_image(
            &mut image,
            DownloadEvent::CacheFailed(CacheError::Deserialization)
        ),
        DownloadAction::Fail(DownloadError::Cache(CacheError::Deserialization))
    ));
    assert!(matches!(
        embedder.download_image(&mut image, DownloadEvent::StoreFailed(CacheError::Serialization)),
        DownloadAction::Fail(DownloadError::Cache(CacheError::Serialization))
    ));
    assert!(matches!(
        embedder.download_image(&mut image, DownloadEvent::RenderFailed),
        DownloadAction::Fail(DownloadError::Unreachable)
    ));
    assert!(image.image_bytes.is_empty());
}
