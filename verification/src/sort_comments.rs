//! Ranking of a discussion thread: a depth-first walk in which the replies to
//! one comment are visited by score, highest first, cut off at a maximum.
//!
//! Comments are addressed by their position in the input. Everything is stated
//! over `Seq<Comment>` and sequences of positions.

use vstd::prelude::*;
use crate::forest::{is_forest, lemma_forest_ranking_len, lemma_ranking_bound};
use crate::lesswrong::{Comment, parent_key};

verus! {

/// Whether the comment at position `i` names `parent` as its parent. The roots
/// are the children of `None`.
pub open spec fn is_child_of(comments: Seq<Comment>, parent: Option<Seq<char>>, i: int) -> bool {
    0 <= i < comments.len() && parent_key(comments[i]) == parent
}

/// The order among siblings: the higher score first, and of two equal scores
/// the one that stands earlier in the input.
pub open spec fn ranks_before(comments: Seq<Comment>, i: int, j: int) -> bool {
    comments[i].base_score > comments[j].base_score || (comments[i].base_score
        == comments[j].base_score && i < j)
}

/// Where position `i` enters the ranked sequence `ranked`: before the first
/// entry that it ranks before.
pub open spec fn rank_position(comments: Seq<Comment>, ranked: Seq<int>, i: int) -> int
    decreases ranked.len(),
{
    if ranked.len() == 0 || ranks_before(comments, i, ranked[0]) {
        0
    } else {
        1 + rank_position(comments, ranked.drop_first(), i)
    }
}

/// The children of `parent` among the first `n` comments, ranked.
pub open spec fn children_among(
    comments: Seq<Comment>,
    parent: Option<Seq<char>>,
    n: nat,
) -> Seq<int>
    decreases n,
{
    if n == 0 {
        Seq::empty()
    } else {
        let earlier = children_among(comments, parent, (n - 1) as nat);
        if is_child_of(comments, parent, n - 1) {
            earlier.insert(rank_position(comments, earlier, n - 1), n - 1)
        } else {
            earlier
        }
    }
}

/// The children of `parent`, ranked: every position whose comment names
/// `parent`, once, the higher score first and equal scores in input order.
/// [`lemma_children_of`] states exactly that.
pub open spec fn children_of(comments: Seq<Comment>, parent: Option<Seq<char>>) -> Seq<int> {
    children_among(comments, parent, comments.len())
}

/// The first `budget` entries of the depth-first walk through the trees whose
/// roots are `siblings`, in that order: a comment, then the walk through its
/// ranked children, then its next sibling.
pub open spec fn walk_prefix(comments: Seq<Comment>, siblings: Seq<int>, budget: nat) -> Seq<int>
    decreases budget, siblings.len(),
{
    if budget == 0 || siblings.len() == 0 {
        Seq::empty()
    } else {
        let head = siblings[0];
        let below = walk_prefix(
            comments,
            children_of(comments, Some(comments[head].id@)),
            (budget - 1) as nat,
        );
        if below.len() >= budget - 1 {
            seq![head] + below
        } else {
            seq![head] + below + walk_prefix(
                comments,
                siblings.drop_first(),
                (budget - 1 - below.len()) as nat,
            )
        }
    }
}

/// The number of comments that a ranking of `comments` with the requested
/// maximum `max_comments` may hold.
pub open spec fn ranking_limit(comments: Seq<Comment>, max_comments: nat) -> nat {
    if max_comments <= comments.len() {
        max_comments
    } else {
        comments.len()
    }
}

/// The ranking of a thread: the depth-first walk from the roots, cut off after
/// `ranking_limit` entries.
pub open spec fn ranking(comments: Seq<Comment>, max_comments: nat) -> Seq<int> {
    walk_prefix(comments, children_of(comments, None), ranking_limit(comments, max_comments))
}

/// The positions held by a vector of indices, as integers.
pub open spec fn positions(indices: Seq<usize>) -> Seq<int> {
    indices.map_values(|i: usize| i as int)
}

/// A walk never yields more than its budget.
pub proof fn lemma_walk_prefix_len(comments: Seq<Comment>, siblings: Seq<int>, budget: nat)
    ensures
        walk_prefix(comments, siblings, budget).len() <= budget,
    decreases budget, siblings.len(),
{
    if budget == 0 || siblings.len() == 0 {
    } else {
        let head = siblings[0];
        let kids = children_of(comments, Some(comments[head].id@));
        let below = walk_prefix(comments, kids, (budget - 1) as nat);
        lemma_walk_prefix_len(comments, kids, (budget - 1) as nat);
        if below.len() >= budget - 1 {
        } else {
            lemma_walk_prefix_len(
                comments,
                siblings.drop_first(),
                (budget - 1 - below.len()) as nat,
            );
        }
    }
}

fn parent_matches(comment: &Comment, parent: Option<&String>) -> (matches: bool)
    ensures
        matches == (parent_key(*comment) == match parent {
            Some(id) => Some(id@),
            None => None::<Seq<char>>,
        }),
{
    match (&comment.parent_comment_id, parent) {
        (Some(own), Some(wanted)) => *own == *wanted,
        (None, None) => true,
        _ => false,
    }
}

/// The ranked children of `parent`, as positions in `comments`.
pub fn ranked_children(comments: &Vec<Comment>, parent: Option<&String>) -> (children: Vec<usize>)
    ensures
        positions(children@) == children_of(
            comments@,
            match parent {
                Some(id) => Some(id@),
                None => None::<Seq<char>>,
            },
        ),
{
    let ghost key = match parent {
        Some(id) => Some(id@),
        None => None::<Seq<char>>,
    };
    let mut children: Vec<usize> = Vec::new();
    let mut i: usize = 0;
    assert(positions(children@) =~= children_among(comments@, key, 0));
    while i < comments.len()
        invariant
            i <= comments.len(),
            key == match parent {
                Some(id) => Some(id@),
                None => None::<Seq<char>>,
            },
            positions(children@) == children_among(comments@, key, i as nat),
            forall|k: int| 0 <= k < children.len() ==> 0 <= #[trigger] children[k] < i,
        decreases comments.len() - i,
    {
        if parent_matches(&comments[i], parent) {
            let ghost earlier = positions(children@);
            let mut at: usize = 0;
            assert(earlier.skip(0) =~= earlier);
            while at < children.len() && !(comments[i].base_score > comments[children[at]].base_score)
                invariant
                    at <= children.len(),
                    i < comments.len(),
                    earlier == positions(children@),
                    earlier == children_among(comments@, key, i as nat),
                    forall|k: int| 0 <= k < children.len() ==> 0 <= #[trigger] children[k] < i,
                    rank_position(comments@, earlier, i as int) == at + rank_position(
                        comments@,
                        earlier.skip(at as int),
                        i as int,
                    ),
                decreases children.len() - at,
            {
                proof {
                    let rest = earlier.skip(at as int);
                    assert(rest[0] == children[at as int] as int);
                    assert(!ranks_before(comments@, i as int, rest[0]));
                    assert(rest.drop_first() =~= earlier.skip(at + 1));
                }
                at = at + 1;
            }
            proof {
                let rest = earlier.skip(at as int);
                if at < children.len() {
                    assert(rest[0] == children[at as int] as int);
                    assert(ranks_before(comments@, i as int, rest[0]));
                }
                assert(rank_position(comments@, earlier, i as int) == at);
            }
            children.insert(at, i);
            assert(positions(children@) =~= earlier.insert(at as int, i as int));
        }
        i = i + 1;
    }
    children
}

/// The key under which the children of the comment at `parent` are found; the
/// roots stand under `None`.
pub open spec fn key_of(comments: Seq<Comment>, parent: Option<usize>) -> Option<Seq<char>> {
    match parent {
        Some(at) => Some(comments[at as int].id@),
        None => None,
    }
}

/// The number of positions that `results` may still take up to the maximum.
pub open spec fn room_left(max_comments: usize, held: nat) -> nat {
    if held <= max_comments {
        (max_comments - held) as nat
    } else {
        0
    }
}

/// Walks through the children of `parent`, highest score first, and through
/// the replies below each child before its next sibling, appending to
/// `results` until it holds `max_comments` positions. Results that hold that
/// many already, or more, stay as they are.
fn sort_children_recursive(
    parent: Option<usize>,
    results: &mut Vec<usize>,
    max_comments: usize,
    comments: &Vec<Comment>,
)
    requires
        parent matches Some(at) ==> at < comments.len(),
    ensures
        positions(final(results)@) == positions(old(results)@) + walk_prefix(
            comments@,
            children_of(comments@, key_of(comments@, parent)),
            room_left(max_comments, old(results)@.len()),
        ),
        final(results).len() <= max_comments || final(results).len() == old(results).len(),
    decreases room_left(max_comments, old(results)@.len()),
{
    if results.len() >= max_comments {
        proof {
            assert(walk_prefix(
                comments@,
                children_of(comments@, key_of(comments@, parent)),
                0,
            ) =~= Seq::<int>::empty());
            assert(positions(results@) + Seq::<int>::empty() =~= positions(results@));
        }
        return ;
    }
    let children = match parent {
        Some(at) => ranked_children(comments, Some(&comments[at].id)),
        None => ranked_children(comments, None),
    };
    let ghost siblings = children_of(comments@, key_of(comments@, parent));
    let ghost start = positions(results@);
    let ghost budget = (max_comments - results.len()) as nat;
    proof {
        assert(siblings.skip(0) =~= siblings);
        assert(start + walk_prefix(comments@, siblings, budget) =~= start + walk_prefix(
            comments@,
            siblings.skip(0),
            budget,
        ));
        lemma_children_in_range(comments@, key_of(comments@, parent), comments@.len());
    }
    let mut k: usize = 0;
    while k < children.len()
        invariant
            k <= children.len(),
            positions(children@) == siblings,
            siblings == children_of(comments@, key_of(comments@, parent)),
            forall|j: int| 0 <= j < siblings.len() ==> 0 <= #[trigger] siblings[j] < comments.len(),
            results.len() <= max_comments,
            old(results).len() <= results.len(),
            start == positions(old(results)@),
            budget == max_comments - old(results).len(),
            start + walk_prefix(comments@, siblings, budget) == positions(results@) + walk_prefix(
                comments@,
                siblings.skip(k as int),
                (max_comments - results.len()) as nat,
            ),
        decreases children.len() - k,
    {
        if results.len() >= max_comments {
            proof {
                assert(walk_prefix(comments@, siblings.skip(k as int), 0) =~= Seq::<int>::empty());
                assert(positions(results@) + Seq::<int>::empty() =~= positions(results@));
            }
            return ;
        }
        let child = children[k];
        let ghost before = positions(results@);
        let ghost left = (max_comments - results.len()) as nat;
        let ghost rest = siblings.skip(k as int);
        proof {
            assert(rest[0] == child as int);
            assert(siblings[k as int] == child as int);
            assert(rest.drop_first() =~= siblings.skip(k + 1));
        }
        results.push(child);
        assert(positions(results@) =~= before + seq![child as int]);
        sort_children_recursive(Some(child), results, max_comments, comments);
        proof {
            let below = walk_prefix(
                comments@,
                children_of(comments@, Some(comments@[child as int].id@)),
                (left - 1) as nat,
            );
            lemma_walk_prefix_len(
                comments@,
                children_of(comments@, Some(comments@[child as int].id@)),
                (left - 1) as nat,
            );
            assert(positions(results@) =~= before + seq![child as int] + below);
            if below.len() >= left - 1 {
                assert(walk_prefix(comments@, rest, left) == seq![child as int] + below);
                assert(walk_prefix(comments@, siblings.skip(k + 1), 0) =~= Seq::<int>::empty());
                assert(before + walk_prefix(comments@, rest, left) =~= positions(results@)
                    + walk_prefix(comments@, siblings.skip(k + 1), 0));
            } else {
                assert(before + walk_prefix(comments@, rest, left) =~= positions(results@)
                    + walk_prefix(
                    comments@,
                    siblings.skip(k + 1),
                    (left - 1 - below.len()) as nat,
                ));
            }
        }
        k = k + 1;
    }
    proof {
        assert(siblings.skip(k as int).len() == 0);
        assert(positions(results@) + Seq::<int>::empty() =~= positions(results@));
    }
}

/// Ranks a thread and returns the positions of the ranked comments in
/// `comments`: the first `min(max_comments, comments.len())` entries of the
/// depth-first walk from the roots.
pub fn rank_comments(comments: &Vec<Comment>, max_comments: usize) -> (ranked: Vec<usize>)
    ensures
        positions(ranked@) == ranking(comments@, max_comments as nat),
        forall|k: int| 0 <= k < ranked.len() ==> #[trigger] ranked[k] < comments.len(),
        ranked.len() <= ranking_limit(comments@, max_comments as nat),
        is_forest(comments@) ==> ranked.len() == ranking_limit(comments@, max_comments as nat),
{
    let limit = if max_comments <= comments.len() {
        max_comments
    } else {
        comments.len()
    };
    let mut results: Vec<usize> = Vec::new();
    sort_children_recursive(None, &mut results, limit, comments);
    proof {
        assert(positions(results@) =~= ranking(comments@, max_comments as nat));
        lemma_ranking_in_range(comments@, max_comments as nat);
        lemma_ranking_bound(comments@, max_comments as nat);
        if is_forest(comments@) {
            lemma_forest_ranking_len(comments@, max_comments as nat);
        }
        assert forall|k: int| 0 <= k < results.len() implies #[trigger] results[k]
            < comments.len() by {
            assert(positions(results@)[k] == results[k] as int);
        }
    }
    results
}

/// Ranks a thread: the comments in the order of [`ranking`], at most
/// `max_comments` of them.
pub fn sort_comments_by_score_depth_first(comments: &Vec<Comment>, max_comments: usize) -> (sorted:
    Vec<Comment>)
    ensures
        sorted@ == ranking(comments@, max_comments as nat).map_values(|i: int| comments@[i]),
        sorted.len() <= ranking_limit(comments@, max_comments as nat),
        is_forest(comments@) ==> sorted.len() == ranking_limit(comments@, max_comments as nat),
{
    let order = rank_comments(comments, max_comments);
    let mut sorted: Vec<Comment> = Vec::new();
    let mut k: usize = 0;
    while k < order.len()
        invariant
            k <= order.len(),
            positions(order@) == ranking(comments@, max_comments as nat),
            forall|j: int| 0 <= j < order.len() ==> #[trigger] order[j] < comments.len(),
            order.len() <= ranking_limit(comments@, max_comments as nat),
            is_forest(comments@) ==> order.len() == ranking_limit(comments@, max_comments as nat),
            sorted@.len() == k,
            forall|j: int| 0 <= j < k ==> #[trigger] sorted@[j] == comments@[order[j] as int],
        decreases order.len() - k,
    {
        sorted.push(comments[order[k]].duplicate());
        k = k + 1;
    }
    proof {
        let wanted = ranking(comments@, max_comments as nat).map_values(|i: int| comments@[i]);
        assert(sorted@.len() == wanted.len());
        assert forall|j: int| 0 <= j < sorted@.len() implies sorted@[j] == wanted[j] by {
            assert(positions(order@)[j] == order[j] as int);
        }
        assert(sorted@ =~= wanted);
    }
    sorted
}

/// Every entry of `children_among` is a position below `n`.
pub proof fn lemma_children_in_range(comments: Seq<Comment>, parent: Option<Seq<char>>, n: nat)
    requires
        n <= comments.len(),
    ensures
        forall|j: int|
            0 <= j < children_among(comments, parent, n).len() ==> 0 <= #[trigger] children_among(
                comments,
                parent,
                n,
            )[j] < n,
    decreases n,
{
    if n > 0 {
        let earlier = children_among(comments, parent, (n - 1) as nat);
        lemma_children_in_range(comments, parent, (n - 1) as nat);
        lemma_rank_position(comments, earlier, n - 1);
    }
}

/// Every entry of a walk is one of `siblings` or a child of some comment, so a
/// position in `comments`.
pub proof fn lemma_walk_in_range(comments: Seq<Comment>, siblings: Seq<int>, budget: nat)
    requires
        forall|j: int| 0 <= j < siblings.len() ==> 0 <= #[trigger] siblings[j] < comments.len(),
    ensures
        forall|j: int|
            0 <= j < walk_prefix(comments, siblings, budget).len() ==> 0 <= #[trigger] walk_prefix(
                comments,
                siblings,
                budget,
            )[j] < comments.len(),
    decreases budget, siblings.len(),
{
    if budget == 0 || siblings.len() == 0 {
    } else {
        let head = siblings[0];
        let kids = children_of(comments, Some(comments[head].id@));
        let below = walk_prefix(comments, kids, (budget - 1) as nat);
        lemma_children_in_range(comments, Some(comments[head].id@), comments.len());
        lemma_walk_in_range(comments, kids, (budget - 1) as nat);
        let walk = walk_prefix(comments, siblings, budget);
        if below.len() >= budget - 1 {
            assert forall|j: int| 0 <= j < walk.len() implies 0 <= #[trigger] walk[j]
                < comments.len() by {
                if j > 0 {
                    assert(walk[j] == below[j - 1]);
                }
            }
        } else {
            let after = walk_prefix(
                comments,
                siblings.drop_first(),
                (budget - 1 - below.len()) as nat,
            );
            lemma_walk_in_range(
                comments,
                siblings.drop_first(),
                (budget - 1 - below.len()) as nat,
            );
            assert forall|j: int| 0 <= j < walk.len() implies 0 <= #[trigger] walk[j]
                < comments.len() by {
                if j == 0 {
                } else if j <= below.len() {
                    assert(walk[j] == below[j - 1]);
                } else {
                    assert(walk[j] == after[j - 1 - below.len()]);
                }
            }
        }
    }
}

/// A ranking holds positions of the thread only.
pub proof fn lemma_ranking_in_range(comments: Seq<Comment>, max_comments: nat)
    ensures
        forall|j: int|
            0 <= j < ranking(comments, max_comments).len() ==> 0 <= #[trigger] ranking(
                comments,
                max_comments,
            )[j] < comments.len(),
{
    lemma_children_in_range(comments, None, comments.len());
    lemma_walk_in_range(
        comments,
        children_of(comments, None),
        ranking_limit(comments, max_comments),
    );
}

/// What `rank_position` finds: `i` ranks before none of the entries in front
/// of it, and before the entry at it.
pub proof fn lemma_rank_position(comments: Seq<Comment>, ranked: Seq<int>, i: int)
    ensures
        0 <= rank_position(comments, ranked, i) <= ranked.len(),
        forall|a: int|
            0 <= a < rank_position(comments, ranked, i) ==> !ranks_before(
                comments,
                i,
                #[trigger] ranked[a],
            ),
        rank_position(comments, ranked, i) < ranked.len() ==> ranks_before(
            comments,
            i,
            ranked[rank_position(comments, ranked, i)],
        ),
    decreases ranked.len(),
{
    if ranked.len() == 0 || ranks_before(comments, i, ranked[0]) {
    } else {
        let rest = ranked.drop_first();
        lemma_rank_position(comments, rest, i);
        let at = rank_position(comments, ranked, i);
        assert forall|a: int| 0 <= a < at implies !ranks_before(comments, i, #[trigger] ranked[a]) by {
            if a > 0 {
                assert(ranked[a] == rest[a - 1]);
            }
        }
        if at < ranked.len() {
            assert(ranked[at] == rest[at - 1]);
        }
    }
}

/// Whether `ranked` is in sibling order throughout.
pub open spec fn is_ranked(comments: Seq<Comment>, ranked: Seq<int>) -> bool {
    forall|a: int, b: int|
        0 <= a < b < ranked.len() ==> ranks_before(comments, #[trigger] ranked[a], #[trigger] ranked[b])
}

/// The children of `parent` among the first `n` comments are exactly the
/// positions below `n` whose comment names `parent`, in sibling order.
pub proof fn lemma_children_among(comments: Seq<Comment>, parent: Option<Seq<char>>, n: nat)
    requires
        n <= comments.len(),
    ensures
        forall|i: int|
            #![trigger children_among(comments, parent, n).contains(i)]
            #![trigger is_child_of(comments, parent, i)]
            children_among(comments, parent, n).contains(i) <==> (i < n && is_child_of(
                comments,
                parent,
                i,
            )),
        is_ranked(comments, children_among(comments, parent, n)),
    decreases n,
{
    let kids = children_among(comments, parent, n);
    if n == 0 {
        assert(kids =~= Seq::<int>::empty());
    } else {
        let earlier = children_among(comments, parent, (n - 1) as nat);
        lemma_children_among(comments, parent, (n - 1) as nat);
        if is_child_of(comments, parent, n - 1) {
            let at = rank_position(comments, earlier, n - 1);
            lemma_rank_position(comments, earlier, n - 1);
            assert(kids == earlier.insert(at, n - 1));
            assert forall|i: int| kids.contains(i) implies (i < n && is_child_of(
                comments,
                parent,
                i,
            )) by {
                let k = choose|k: int| 0 <= k < kids.len() && kids[k] == i;
                if k < at {
                    assert(earlier[k] == i);
                    assert(earlier.contains(i));
                } else if k > at {
                    assert(earlier[k - 1] == i);
                    assert(earlier.contains(i));
                } else {
                    assert(i == n - 1);
                }
            }
            assert forall|i: int| (i < n && is_child_of(comments, parent, i)) implies kids.contains(
                i,
            ) by {
                if i == n - 1 {
                    assert(kids[at] == i);
                } else {
                    assert(earlier.contains(i));
                    let k = choose|k: int| 0 <= k < earlier.len() && earlier[k] == i;
                    if k < at {
                        assert(kids[k] == i);
                    } else {
                        assert(kids[k + 1] == i);
                    }
                }
            }
            assert forall|a: int, b: int| 0 <= a < b < kids.len() implies ranks_before(
                comments,
                #[trigger] kids[a],
                #[trigger] kids[b],
            ) by {
                let ea = if a < at {
                    a
                } else {
                    a - 1
                };
                let eb = if b < at {
                    b
                } else {
                    b - 1
                };
                if a == at {
                    assert(kids[b] == earlier[b - 1]);
                    if b - 1 > at {
                        assert(ranks_before(comments, earlier[at], earlier[b - 1]));
                    }
                } else if b == at {
                    assert(kids[a] == earlier[a]);
                    assert(earlier.contains(earlier[a]));
                    assert(!ranks_before(comments, n - 1, earlier[a]));
                } else {
                    assert(kids[a] == earlier[ea]);
                    assert(kids[b] == earlier[eb]);
                }
            }
        } else {
        }
    }
}

/// The children of `parent` are exactly the positions whose comment names
/// `parent`, each once, the higher score first and equal scores in input order.
pub proof fn lemma_children_of(comments: Seq<Comment>, parent: Option<Seq<char>>)
    ensures
        forall|i: int|
            #![trigger children_of(comments, parent).contains(i)]
            #![trigger is_child_of(comments, parent, i)]
            children_of(comments, parent).contains(i) <==> is_child_of(comments, parent, i),
        is_ranked(comments, children_of(comments, parent)),
        children_of(comments, parent).no_duplicates(),
{
    lemma_children_among(comments, parent, comments.len());
    let kids = children_of(comments, parent);
    assert forall|a: int, b: int| 0 <= a < kids.len() && 0 <= b < kids.len() && a != b implies kids[a]
        != kids[b] by {
        if a < b {
            assert(ranks_before(comments, kids[a], kids[b]));
        } else {
            assert(ranks_before(comments, kids[b], kids[a]));
        }
    }
}

/// Two threads that agree, position by position, in what the ranking reads
/// of a comment: its identifier, the parent it names and its score.
pub open spec fn same_thread(first: Seq<Comment>, second: Seq<Comment>) -> bool {
    &&& first.len() == second.len()
    &&& forall|i: int|
        0 <= i < first.len() ==> {
            &&& (#[trigger] first[i]).id@ == second[i].id@
            &&& parent_key(first[i]) == parent_key(second[i])
            &&& first[i].base_score == second[i].base_score
        }
}

proof fn lemma_same_rank_position(
    first: Seq<Comment>,
    second: Seq<Comment>,
    ranked: Seq<int>,
    i: int,
)
    requires
        same_thread(first, second),
        0 <= i < first.len(),
        forall|j: int| 0 <= j < ranked.len() ==> 0 <= #[trigger] ranked[j] < first.len(),
    ensures
        rank_position(first, ranked, i) == rank_position(second, ranked, i),
    decreases ranked.len(),
{
    if ranked.len() > 0 {
        let head = ranked[0];
        assert(first[i].base_score == second[i].base_score);
        assert(first[head].base_score == second[head].base_score);
        let rest = ranked.drop_first();
        assert forall|j: int| 0 <= j < rest.len() implies 0 <= #[trigger] rest[j] < first.len() by {
            assert(rest[j] == ranked[j + 1]);
        }
        lemma_same_rank_position(first, second, rest, i);
    }
}

proof fn lemma_same_children(
    first: Seq<Comment>,
    second: Seq<Comment>,
    parent: Option<Seq<char>>,
    n: nat,
)
    requires
        same_thread(first, second),
        n <= first.len(),
    ensures
        children_among(first, parent, n) == children_among(second, parent, n),
    decreases n,
{
    if n > 0 {
        lemma_same_children(first, second, parent, (n - 1) as nat);
        lemma_children_in_range(first, parent, (n - 1) as nat);
        assert(parent_key(first[n - 1]) == parent_key(second[n - 1]));
        lemma_same_rank_position(
            first,
            second,
            children_among(first, parent, (n - 1) as nat),
            n - 1,
        );
    }
}

proof fn lemma_same_walk(
    first: Seq<Comment>,
    second: Seq<Comment>,
    siblings: Seq<int>,
    budget: nat,
)
    requires
        same_thread(first, second),
        forall|j: int| 0 <= j < siblings.len() ==> 0 <= #[trigger] siblings[j] < first.len(),
    ensures
        walk_prefix(first, siblings, budget) == walk_prefix(second, siblings, budget),
    decreases budget, siblings.len(),
{
    if budget == 0 || siblings.len() == 0 {
    } else {
        let head = siblings[0];
        let key = Some(first[head].id@);
        assert(first[head].id@ == second[head].id@);
        let kids = children_of(first, key);
        lemma_same_children(first, second, key, first.len());
        lemma_children_in_range(first, key, first.len());
        lemma_same_walk(first, second, kids, (budget - 1) as nat);
        let below = walk_prefix(first, kids, (budget - 1) as nat);
        if below.len() >= budget - 1 {
        } else {
            let rest = siblings.drop_first();
            assert forall|j: int| 0 <= j < rest.len() implies 0 <= #[trigger] rest[j]
                < first.len() by {
                assert(rest[j] == siblings[j + 1]);
            }
            lemma_same_walk(first, second, rest, (budget - 1 - below.len()) as nat);
        }
    }
}

/// The ranking is a function of the thread and the maximum, and of nothing
/// else: two runs on threads that agree in identifiers, parents and scores
/// give the same order.
pub proof fn lemma_ranking_deterministic(
    first: Seq<Comment>,
    second: Seq<Comment>,
    max_comments: nat,
)
    requires
        same_thread(first, second),
    ensures
        ranking(first, max_comments) == ranking(second, max_comments),
{
    lemma_same_children(first, second, None, first.len());
    lemma_children_in_range(first, None, first.len());
    lemma_same_walk(
        first,
        second,
        children_of(first, None),
        ranking_limit(first, max_comments),
    );
}

} // verus!
