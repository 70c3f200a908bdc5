use lesswrong_sequences_highlights_epub::lesswrong::Comment;
use lesswrong_sequences_highlights_epub::sort_comments::{
    rank_comments, ranked_children, sort_comments_by_score_depth_first,
};

fn comment(id: &str, parent: Option<&str>, score: i64) -> Comment {
    Comment {
        id: id.to_string(),
        parent_comment_id: parent.map(|p| p.to_string()),
        base_score: score,
        score_label: format!("{}", score),
        content_markdown: String::new(),
    }
}

fn thread() -> Vec<Comment> {
    vec![
        comment("a", None, 1),
        comment("b", None, 2),
        comment("aa", Some("a"), 100),
        comment("ab", Some("a"), 101),
        comment("ba", Some("b"), 10),
        comment("bb", Some("b"), 11),
    ]
}

fn ids(comments: &[Comment]) -> Vec<String> {
    comments.iter().map(|c| c.id.clone()).collect()
}

fn do_vecs_match<T: PartialEq>(a: &[T], b: &[T]) -> bool {
    let matching = a.iter().zip(b.iter()).filter(|&(a, b)| a == b).count();
    matching == a.len() && matching == b.len()
}

#[test]
fn test_sort_comments_by_score_depth_first() {
    let comments = thread();

    // should sort b subtree before a subtree, then bb before ba, etc.
    let sorted = sort_comments_by_score_depth_first(&comments, 5);
    let expected: Vec<String> = vec![
        "b".into(),
        "bb".into(),
        "ba".into(),
        "a".into(),
        "ab".into(),
    ];
    assert!(do_vecs_match(&ids(&sorted), &expected));
}

#[test]
fn ranking_keeps_every_field_of_a_comment() {
    let mut comments = thread();
    comments[1].content_markdown = "body of b".to_string();
    comments[1].score_label = "2.5".to_string();
    let sorted = sort_comments_by_score_depth_first(&comments, 1);
    assert_eq!(sorted.len(), 1);
    assert_eq!(sorted[0].id, "b");
    assert_eq!(sorted[0].parent_comment_id, None);
    assert_eq!(sorted[0].base_score, 2);
    assert_eq!(sorted[0].score_label, "2.5");
    assert_eq!(sorted[0].content_markdown, "body of b");
}

#[test]
fn ranking_of_an_empty_thread_is_empty() {
    let comments: Vec<Comment> = Vec::new();
    assert!(sort_comments_by_score_depth_first(&comments, 10).is_empty());
    assert!(rank_comments(&comments, 0).is_empty());
}

#[test]
fn ranking_length_is_the_smaller_of_size_and_maximum() {
    let comments = thread();
    for max in 0..10usize {
        let ranked = rank_comments(&comments, max);
        assert_eq!(ranked.len(), max.min(comments.len()));
    }
}

#[test]
fn ranking_with_room_for_all_is_the_full_walk() {
    let comments = thread();
    let ranked = rank_comments(&comments, 100);
    assert_eq!(ranked, vec![1, 5, 4, 0, 3, 2]);
}

#[test]
fn ranking_with_maximum_zero_is_empty() {
    assert!(rank_comments(&thread(), 0).is_empty());
}

#[test]
fn ranking_twice_gives_the_same_order() {
    let comments = thread();
    assert_eq!(rank_comments(&comments, 4), rank_comments(&comments, 4));
    assert_eq!(
        ids(&sort_comments_by_score_depth_first(&comments, 6)),
        ids(&sort_comments_by_score_depth_first(&comments, 6))
    );
}

#[test]
fn equal_scores_keep_input_order() {
    let comments = vec![
        comment("x", None, 5),
        comment("y", None, 7),
        comment("z", None, 5),
        comment("w", None, 7),
    ];
    assert_eq!(rank_comments(&comments, 4), vec![1, 3, 0, 2]);
    assert_eq!(ranked_children(&comments, None), vec![1, 3, 0, 2]);
}

#[test]
fn negative_scores_rank_last() {
    let comments = vec![
        comment("x", None, -3),
        comment("y", None, 0),
        comment("z", None, i64::MIN),
        comment("w", None, i64::MAX),
    ];
    assert_eq!(rank_comments(&comments, 4), vec![3, 1, 0, 2]);
}

#[test]
fn dangling_parent_is_never_reached() {
    let comments = vec![
        comment("a", None, 1),
        comment("lost", Some("nowhere"), 50),
        comment("below", Some("lost"), 60),
    ];
    assert_eq!(rank_comments(&comments, 3), vec![0]);
}

#[test]
fn circular_parents_are_never_reached() {
    let comments = vec![
        comment("a", None, 1),
        comment("p", Some("q"), 5),
        comment("q", Some("p"), 6),
    ];
    assert_eq!(rank_comments(&comments, 3), vec![0]);
}

#[test]
fn repeated_identifiers_stop_at_the_limit() {
    let comments = vec![
        comment("x", None, 1),
        comment("y", Some("x"), 1),
        comment("x", Some("y"), 1),
    ];
    // the walk goes round x, y, x, y, ... and is cut at the size of the thread
    assert_eq!(rank_comments(&comments, 10), vec![0, 1, 2]);
}

#[test]
fn children_of_a_comment_are_ranked_by_score() {
    let comments = thread();
    let a = "a".to_string();
    assert_eq!(ranked_children(&comments, Some(&a)), vec![3, 2]);
    let none = "zz".to_string();
    assert!(ranked_children(&comments, Some(&none)).is_empty());
}

#[test]
fn cut_happens_inside_a_subtree() {
    let comments = thread();
    assert_eq!(rank_comments(&comments, 2), vec![1, 5]);
    assert_eq!(rank_comments(&comments, 3), vec![1, 5, 4]);
    assert_eq!(rank_comments(&comments, 4), vec![1, 5, 4, 0]);
}
