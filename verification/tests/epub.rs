use lesswrong_sequences_highlights_epub::ai::AnnotatedPostWithComments;
use lesswrong_sequences_highlights_epub::epub::{
    image_resource_name, image_resources, replacements_of, words_to_read_time, Epub,
    ImageReference, Inlining,
};
use lesswrong_sequences_highlights_epub::image_embedder::{
    CloudflareCredentials, EmbeddingResult, ImageEmbedder, ImageEmbedding,
};
use lesswrong_sequences_highlights_epub::lesswrong::{Post, PostWithComments};

fn post(id: &str, page_url: &str) -> Post {
    Post {
        id: id.to_string(),
        page_url: page_url.to_string(),
        title: "A Title".to_string(),
        slug: "a-title".to_string(),
        author: "Someone".to_string(),
        content_markdown: String::new(),
        word_count: 261,
    }
}

fn image(id: &str, bytes: Vec<u8>) -> EmbeddingResult {
    EmbeddingResult::Image(ImageEmbedding {
        id: id.to_string(),
        old_url: format!("https://example.com/{}", id),
        image_bytes: bytes,
    })
}

fn markup(epub: &Epub, post: &Post, src: &str, alt: Option<&str>) -> String {
    let reference = ImageReference::from_attributes(src, &alt.map(|a| a.to_string()));
    epub.try_inline_image(post, &reference).unwrap().markup
}

#[test]
fn replaces_multiple_images_as_text() {
    let epub = Epub::new(ImageEmbedder::new(None));

    let post = Post {
        id: "test-epub".to_string(),
        page_url: "https://example.com/test-post".to_string(),
        ..post("", "")
    };

    // <img src="first.svg" alt="Diagram">, <img class="flex" src="second.png">,
    // <img alt="" src="third.png">
    let output = vec![
        markup(&epub, &post, "first.svg", Some("Diagram")),
        markup(&epub, &post, "second.png", None),
        markup(&epub, &post, "third.png", Some("")),
    ]
    .join("\n<p>Text</p>\n");

    assert!(output.contains(
        r#"<a href="https://example.com/first.svg">Unsupported SVG image: Diagram</a>"#
    ));
    assert!(
        output.contains(r#"<a href="https://example.com/second.png">Image: second.png</a>"#)
    );
    assert!(output.contains(r#"<a href="https://example.com/third.png">Image: third.png</a>"#));
}

#[test]
fn attributes_are_trimmed_and_blank_alt_is_none() {
    let reference = ImageReference::from_attributes("  a.png\n", &Some(" \t ".to_string()));
    assert_eq!(reference.source_url, "a.png");
    assert_eq!(reference.alt_text, None);
    let reference = ImageReference::from_attributes("a.png", &Some("  A cat ".to_string()));
    assert_eq!(reference.alt_text, Some("A cat".to_string()));
    let reference = ImageReference::from_attributes("a b.png", &None);
    assert_eq!(reference.source_url, "a b.png");
    assert_eq!(reference.alt_text, None);
}

#[test]
fn link_keeps_the_embedding_beside_the_markup() {
    let epub = Epub::new(ImageEmbedder::new(None));
    let reference = ImageReference::from_attributes("first.svg", &Some("Diagram".to_string()));
    let inlined = epub
        .try_inline_image(&post("p", "https://example.com/test-post"), &reference)
        .unwrap();
    match inlined.embedding {
        EmbeddingResult::Text(link) => assert_eq!(link, inlined.markup),
        EmbeddingResult::Image(_) => panic!("expected a link"),
    }
}

#[test]
fn embedded_image_is_shown_under_its_resource_name() {
    let credentials = CloudflareCredentials { key: "k".to_string(), account_id: "a".to_string() };
    let epub = Epub::new(ImageEmbedder::new(Some(credentials)));
    assert!(epub.image_embedder().supports_inlining_images());
    let reference = ImageReference::from_attributes("first.svg", &None);
    let inlined = epub
        .try_inline_image(&post("doc", "https://example.com/post"), &reference)
        .unwrap();
    assert_eq!(inlined.markup, "<img src=\"doc-4fee7565.png\" />");
    match inlined.embedding {
        EmbeddingResult::Image(embedding) => {
            assert_eq!(embedding.id, "doc-4fee7565");
            assert_eq!(image_resource_name(&embedding.id), "doc-4fee7565.png");
            assert_eq!(embedding.old_url, "https://example.com/first.svg");
            assert!(embedding.image_bytes.is_empty());
        }
        EmbeddingResult::Text(_) => panic!("expected an embedding"),
    }
}

#[test]
fn unresolvable_image_is_an_error_of_its_own() {
    let epub = Epub::new(ImageEmbedder::new(None));
    let broken = post("p", "no url");
    let reference = ImageReference::from_attributes("a.png", &None);
    let error = epub.try_inline_image(&broken, &reference).unwrap_err();
    assert_eq!(error.base, "no url");
    assert_eq!(error.reference, "a.png");
    // the next image of the same document is resolved all the same
    let absolute = ImageReference::from_attributes("https://example.com/b.png", &None);
    assert_eq!(
        epub.try_inline_image(&broken, &absolute).unwrap().markup,
        "<a href=\"https://example.com/b.png\">Image: https://example.com/b.png</a>"
    );
}

#[test]
fn reading_time_rounds_up_to_whole_minutes() {
    assert_eq!(words_to_read_time(0), "0min");
    assert_eq!(words_to_read_time(1), "1min");
    assert_eq!(words_to_read_time(130), "1min");
    assert_eq!(words_to_read_time(131), "2min");
    assert_eq!(words_to_read_time(260), "2min");
    assert_eq!(words_to_read_time(1300), "10min");
    assert_eq!(words_to_read_time(13_000_000), "100000min");
}

#[test]
fn reading_time_of_extreme_counts() {
    assert_eq!(words_to_read_time(i64::MAX), "70949015668113661min");
    assert_eq!(words_to_read_time(i64::MAX - 129), "70949015668113660min");
    assert_eq!(words_to_read_time(-1), "0min");
    assert_eq!(words_to_read_time(-129), "0min");
    assert_eq!(words_to_read_time(-130), "0min");
    assert_eq!(words_to_read_time(-258), "0min");
    assert_eq!(words_to_read_time(-259), "-1min");
    assert_eq!(words_to_read_time(i64::MIN), "-70949015668113659min");
}

#[test]
fn metadata_defaults_to_the_collection() {
    let metadata = Epub::set_metadata(None, None, true);
    assert_eq!(metadata.title, "LessWrong Sequences Highlights");
    assert_eq!(metadata.author, "Eliezer Yudkowsky");
    assert_eq!(metadata.cover_image, Some("epub_resources/cover.jpg".to_string()));
}

#[test]
fn metadata_of_a_single_post() {
    let metadata = Epub::set_metadata(Some("T".to_string()), Some("A".to_string()), false);
    assert_eq!(metadata.title, "T");
    assert_eq!(metadata.author, "A");
    assert_eq!(metadata.cover_image, None);
    let metadata = Epub::set_metadata(Some(String::new()), None, false);
    assert_eq!(metadata.title, "");
    assert_eq!(metadata.author, "Eliezer Yudkowsky");
}

#[test]
fn only_embedded_images_become_resources() {
    let replacements = vec![
        EmbeddingResult::Text("<a>1</a>".to_string()),
        image("one", vec![1]),
        EmbeddingResult::Text("<a>2</a>".to_string()),
        image("two", vec![2, 2]),
        image("three", vec![]),
    ];
    let images = image_resources(replacements);
    let ids: Vec<&str> = images.iter().map(|i| i.id.as_str()).collect();
    assert_eq!(ids, vec!["one", "two", "three"]);
    assert_eq!(images[1].image_bytes, vec![2, 2]);
    assert_eq!(images[1].old_url, "https://example.com/two");
    assert!(image_resources(vec![]).is_empty());
    assert!(image_resources(vec![EmbeddingResult::Text(String::new())]).is_empty());
}

#[test]
fn chapter_is_named_after_the_slug() {
    let annotated = AnnotatedPostWithComments::new(
        PostWithComments { post: post("p", "https://example.com/p"), comments: vec![] },
        "s".to_string(),
        "c".to_string(),
    );
    let chapter = Epub::add_post(&annotated, vec![image("one", vec![7]), EmbeddingResult::Text("x".to_string())]);
    assert_eq!(chapter.file_name, "a-title.xhtml");
    assert_eq!(chapter.title, "A Title");
    assert_eq!(chapter.read_time, "3min");
    assert_eq!(chapter.images.len(), 1);
    assert_eq!(chapter.images[0].id, "one");
    assert_eq!(chapter.images[0].image_bytes, vec![7]);
}

#[test]
fn unresolvable_image_is_kept_and_the_others_go_on() {
    let epub = Epub::new(ImageEmbedder::new(None));
    let broken = post("p", "no url");
    let references = vec![
        ImageReference::from_attributes("https://example.com/a.png", &None),
        ImageReference::from_attributes("b.png", &Some("B".to_string())),
        ImageReference::from_attributes("http://example.com/c.svg", &Some("C".to_string())),
    ];
    let outcomes = epub.try_inline_images(&broken, &references);
    assert_eq!(outcomes.len(), 3);
    match &outcomes[0] {
        Inlining::Replaced(image) => assert_eq!(
            image.markup,
            "<a href=\"https://example.com/a.png\">Image: https://example.com/a.png</a>"
        ),
        Inlining::Kept(_) => panic!("expected a replacement"),
    }
    match &outcomes[1] {
        Inlining::Kept(error) => {
            assert_eq!(error.base, "no url");
            assert_eq!(error.reference, "b.png");
        }
        Inlining::Replaced(_) => panic!("expected the image to be kept"),
    }
    match &outcomes[2] {
        Inlining::Replaced(image) => assert_eq!(
            image.markup,
            "<a href=\"http://example.com/c.svg\">Unsupported SVG image: C</a>"
        ),
        Inlining::Kept(_) => panic!("expected a replacement"),
    }
    let replacements = replacements_of(outcomes);
    assert_eq!(replacements.len(), 2);
    match (&replacements[0], &replacements[1]) {
        (EmbeddingResult::Text(first), EmbeddingResult::Text(second)) => {
            assert!(first.contains("a.png"));
            assert!(second.contains("c.svg"));
        }
        _ => panic!("expected two links"),
    }
}

#[test]
fn images_of_a_document_are_inlined_in_order() {
    let epub = Epub::new(ImageEmbedder::new(None));
    let document = post("test-epub", "https://example.com/test-post");
    let references = vec![
        ImageReference::from_attributes("first.svg", &Some("Diagram".to_string())),
        ImageReference::from_attributes("second.png", &None),
        ImageReference::from_attributes("third.png", &Some(String::new())),
    ];
    let markups: Vec<String> = epub
        .try_inline_images(&document, &references)
        .into_iter()
        .map(|outcome| match outcome {
            Inlining::Replaced(image) => image.markup,
            Inlining::Kept(_) => panic!("expected a replacement"),
        })
        .collect();
    assert_eq!(
        markups,
        vec![
            "<a href=\"https://example.com/first.svg\">Unsupported SVG image: Diagram</a>",
            "<a href=\"https://example.com/second.png\">Image: second.png</a>",
            "<a href=\"https://example.com/third.png\">Image: third.png</a>",
        ]
    );
    assert!(epub.try_inline_images(&document, &vec![]).is_empty());
    assert!(replacements_of(vec![]).is_empty());
}
