//! Threads that are forests, and what the ranking yields on them.
//!
//! A thread is a forest when no identifier occurs twice and the comments can be
//! laid out in levels: the roots on level zero, every other comment one level
//! below the comment that it names as its parent. Then every named parent
//! exists and no chain of parents runs in a circle.

use vstd::prelude::*;
use vstd::set_lib::lemma_int_range;
use crate::lesswrong::{Comment, parent_key};
use crate::sort_comments::{
    children_of, is_child_of, lemma_children_of, lemma_walk_prefix_len, ranking, ranking_limit,
    walk_prefix,
};

verus! {

/// No two comments share an identifier.
pub open spec fn unique_ids(comments: Seq<Comment>) -> bool {
    forall|i: int, j: int|
        0 <= i < j < comments.len() ==> (#[trigger] comments[i]).id@ != (#[trigger] comments[j]).id@
}

/// The comment at `i` stands where `levels` says: a root on level zero, any
/// other comment one level below a comment with the identifier that it names.
pub open spec fn is_placed(comments: Seq<Comment>, levels: Seq<nat>, i: int) -> bool {
    match parent_key(comments[i]) {
        None => levels[i] == 0,
        Some(parent) => exists|j: int|
            #![trigger comments[j]]
            0 <= j < comments.len() && comments[j].id@ == parent && levels[j] + 1 == levels[i],
    }
}

/// `levels` lays the whole thread out in levels.
pub open spec fn is_layering(comments: Seq<Comment>, levels: Seq<nat>) -> bool {
    &&& levels.len() == comments.len()
    &&& forall|i: int| 0 <= i < comments.len() ==> #[trigger] is_placed(comments, levels, i)
}

/// The thread is a forest.
pub open spec fn is_forest(comments: Seq<Comment>) -> bool {
    unique_ids(comments) && exists|levels: Seq<nat>| is_layering(comments, levels)
}

/// The position of the comment that the comment at `i` names as its parent.
spec fn parent_position(comments: Seq<Comment>, i: int) -> int {
    choose|j: int|
        #![trigger comments[j]]
        0 <= j < comments.len() && Some(comments[j].id@) == parent_key(comments[i])
}

/// The position reached from `i` by going to the parent `steps` times.
spec fn climb(comments: Seq<Comment>, i: int, steps: nat) -> int
    decreases steps,
{
    if steps == 0 {
        i
    } else {
        climb(comments, parent_position(comments, i), (steps - 1) as nat)
    }
}

/// Whether the comment at `x` stands in one of the trees whose roots are
/// `siblings`, all of them on level `level`.
spec fn stands_under(
    comments: Seq<Comment>,
    levels: Seq<nat>,
    siblings: Seq<int>,
    level: nat,
    x: int,
) -> bool {
    &&& 0 <= x < comments.len()
    &&& levels[x] >= level
    &&& siblings.contains(climb(comments, x, (levels[x] - level) as nat))
}

proof fn lemma_parent_position(comments: Seq<Comment>, levels: Seq<nat>, i: int)
    requires
        unique_ids(comments),
        is_layering(comments, levels),
        0 <= i < comments.len(),
        parent_key(comments[i]) is Some,
    ensures
        0 <= parent_position(comments, i) < comments.len(),
        Some(comments[parent_position(comments, i)].id@) == parent_key(comments[i]),
        levels[parent_position(comments, i)] + 1 == levels[i],
{
    assert(is_placed(comments, levels, i));
    let parent = parent_key(comments[i])->0;
    let j = choose|j: int|
        #![trigger comments[j]]
        0 <= j < comments.len() && comments[j].id@ == parent && levels[j] + 1 == levels[i];
    assert(0 <= j < comments.len() && Some(comments[j].id@) == parent_key(comments[i]));
    let p = parent_position(comments, i);
    if p < j {
        assert(comments[p].id@ != comments[j].id@);
    } else if j < p {
        assert(comments[j].id@ != comments[p].id@);
    }
}

proof fn lemma_climb(comments: Seq<Comment>, levels: Seq<nat>, i: int, steps: nat)
    requires
        unique_ids(comments),
        is_layering(comments, levels),
        0 <= i < comments.len(),
        steps <= levels[i],
    ensures
        0 <= climb(comments, i, steps) < comments.len(),
        levels[climb(comments, i, steps)] == levels[i] - steps,
    decreases steps,
{
    if steps > 0 {
        assert(is_placed(comments, levels, i));
        lemma_parent_position(comments, levels, i);
        lemma_climb(comments, levels, parent_position(comments, i), (steps - 1) as nat);
    }
}

proof fn lemma_climb_once_more(comments: Seq<Comment>, levels: Seq<nat>, i: int, steps: nat)
    requires
        unique_ids(comments),
        is_layering(comments, levels),
        0 <= i < comments.len(),
        steps + 1 <= levels[i],
    ensures
        climb(comments, i, steps + 1) == parent_position(comments, climb(comments, i, steps)),
    decreases steps,
{
    if steps == 0 {
        assert(climb(comments, parent_position(comments, i), 0) == parent_position(comments, i));
    } else {
        assert(is_placed(comments, levels, i));
        lemma_parent_position(comments, levels, i);
        lemma_climb_once_more(comments, levels, parent_position(comments, i), (steps - 1) as nat);
    }
}

/// The children of the comment at `head` stand one level below it.
proof fn lemma_children_level(comments: Seq<Comment>, levels: Seq<nat>, head: int)
    requires
        unique_ids(comments),
        is_layering(comments, levels),
        0 <= head < comments.len(),
    ensures
        children_of(comments, Some(comments[head].id@)).no_duplicates(),
        forall|j: int|
            0 <= j < children_of(comments, Some(comments[head].id@)).len() ==> {
                let kid = #[trigger] children_of(comments, Some(comments[head].id@))[j];
                &&& 0 <= kid < comments.len()
                &&& levels[kid] == levels[head] + 1
                &&& parent_position(comments, kid) == head
            },
{
    let key = Some(comments[head].id@);
    let kids = children_of(comments, key);
    lemma_children_of(comments, key);
    assert forall|j: int| 0 <= j < kids.len() implies {
        let kid = #[trigger] kids[j];
        &&& 0 <= kid < comments.len()
        &&& levels[kid] == levels[head] + 1
        &&& parent_position(comments, kid) == head
    } by {
        let kid = kids[j];
        assert(kids.contains(kid));
        assert(is_child_of(comments, key, kid));
        lemma_parent_position(comments, levels, kid);
        let p = parent_position(comments, kid);
        if p < head {
            assert(comments[p].id@ != comments[head].id@);
        } else if head < p {
            assert(comments[head].id@ != comments[p].id@);
        }
    }
}

/// On a forest, a walk visits no comment twice, visits only comments that
/// stand under its roots, and, unless its budget runs out, visits all of them.
proof fn lemma_walk_covers(
    comments: Seq<Comment>,
    levels: Seq<nat>,
    siblings: Seq<int>,
    level: nat,
    budget: nat,
)
    requires
        unique_ids(comments),
        is_layering(comments, levels),
        siblings.no_duplicates(),
        forall|j: int|
            0 <= j < siblings.len() ==> 0 <= #[trigger] siblings[j] < comments.len()
                && levels[siblings[j]] == level,
    ensures
        walk_prefix(comments, siblings, budget).no_duplicates(),
        forall|k: int|
            0 <= k < walk_prefix(comments, siblings, budget).len() ==> stands_under(
                comments,
                levels,
                siblings,
                level,
                #[trigger] walk_prefix(comments, siblings, budget)[k],
            ),
        walk_prefix(comments, siblings, budget).len() < budget ==> forall|x: int|
            #[trigger] stands_under(comments, levels, siblings, level, x) ==> walk_prefix(
                comments,
                siblings,
                budget,
            ).contains(x),
    decreases budget, siblings.len(),
{
    let walk = walk_prefix(comments, siblings, budget);
    if budget == 0 || siblings.len() == 0 {
        assert(walk =~= Seq::<int>::empty());
        if siblings.len() == 0 {
            assert forall|x: int| #[trigger]
                stands_under(comments, levels, siblings, level, x) implies walk.contains(x) by {
                assert(siblings.contains(climb(comments, x, (levels[x] - level) as nat)));
            }
        }
    } else {
        let head = siblings[0];
        let tail = siblings.drop_first();
        let kids = children_of(comments, Some(comments[head].id@));
        let below = walk_prefix(comments, kids, (budget - 1) as nat);
        lemma_children_level(comments, levels, head);
        lemma_children_of(comments, Some(comments[head].id@));
        lemma_walk_covers(comments, levels, kids, level + 1, (budget - 1) as nat);
        lemma_walk_prefix_len(comments, kids, (budget - 1) as nat);
        assert(siblings.contains(head));
        assert(climb(comments, head, 0) == head);

        // What stands under the children of `head` stands under `head`.
        assert forall|x: int| stands_under(comments, levels, kids, level + 1, x) implies {
            &&& levels[x] > level
            &&& climb(comments, x, (levels[x] - level) as nat) == head
        } by {
            let up = (levels[x] - level - 1) as nat;
            lemma_climb_once_more(comments, levels, x, up);
            let kid = climb(comments, x, up);
            let at = choose|j: int| 0 <= j < kids.len() && kids[j] == kid;
            assert(kids[at] == kid);
        }
        // What stands under `head` below its level stands under its children.
        assert forall|x: int|
            0 <= x < comments.len() && levels[x] > level && climb(
                comments,
                x,
                (levels[x] - level) as nat,
            ) == head implies stands_under(comments, levels, kids, level + 1, x) by {
            let up = (levels[x] - level - 1) as nat;
            lemma_climb_once_more(comments, levels, x, up);
            lemma_climb(comments, levels, x, up);
            let kid = climb(comments, x, up);
            assert(is_placed(comments, levels, kid));
            lemma_parent_position(comments, levels, kid);
            assert(is_child_of(comments, Some(comments[head].id@), kid));
            assert(kids.contains(kid));
        }

        if below.len() >= budget - 1 {
            assert(walk == seq![head] + below);
            assert forall|k: int| 0 <= k < walk.len() implies stands_under(
                comments,
                levels,
                siblings,
                level,
                #[trigger] walk[k],
            ) by {
                if k > 0 {
                    assert(walk[k] == below[k - 1]);
                    assert(stands_under(comments, levels, kids, level + 1, below[k - 1]));
                }
            }
            assert forall|a: int, b: int| 0 <= a < walk.len() && 0 <= b < walk.len() && a
                != b implies walk[a] != walk[b] by {
                if a > 0 {
                    assert(walk[a] == below[a - 1]);
                    assert(stands_under(comments, levels, kids, level + 1, below[a - 1]));
                }
                if b > 0 {
                    assert(walk[b] == below[b - 1]);
                    assert(stands_under(comments, levels, kids, level + 1, below[b - 1]));
                }
            }
        } else {
            let left = (budget - 1 - below.len()) as nat;
            let after = walk_prefix(comments, tail, left);
            assert(walk == seq![head] + below + after);
            assert(tail.no_duplicates()) by {
                assert forall|a: int, b: int| 0 <= a < tail.len() && 0 <= b < tail.len() && a
                    != b implies tail[a] != tail[b] by {
                    assert(tail[a] == siblings[a + 1]);
                    assert(tail[b] == siblings[b + 1]);
                }
            }
            assert forall|j: int| 0 <= j < tail.len() implies 0 <= #[trigger] tail[j]
                < comments.len() && levels[tail[j]] == level by {
                assert(tail[j] == siblings[j + 1]);
            }
            lemma_walk_covers(comments, levels, tail, level, left);
            // What stands under the later siblings stands under none of `head`.
            assert forall|x: int| stands_under(comments, levels, tail, level, x) implies {
                &&& stands_under(comments, levels, siblings, level, x)
                &&& climb(comments, x, (levels[x] - level) as nat) != head
            } by {
                let top = climb(comments, x, (levels[x] - level) as nat);
                let at = choose|j: int| 0 <= j < tail.len() && tail[j] == top;
                assert(siblings[at + 1] == top);
            }
            assert forall|k: int| 0 <= k < walk.len() implies stands_under(
                comments,
                levels,
                siblings,
                level,
                #[trigger] walk[k],
            ) by {
                if k == 0 {
                } else if k <= below.len() {
                    assert(walk[k] == below[k - 1]);
                    assert(stands_under(comments, levels, kids, level + 1, below[k - 1]));
                } else {
                    assert(walk[k] == after[k - 1 - below.len()]);
                    assert(stands_under(comments, levels, tail, level, after[k - 1 - below.len()]));
                }
            }
            assert forall|a: int, b: int| 0 <= a < walk.len() && 0 <= b < walk.len() && a
                != b implies walk[a] != walk[b] by {
                if 0 < a <= below.len() {
                    assert(walk[a] == below[a - 1]);
                    assert(stands_under(comments, levels, kids, level + 1, below[a - 1]));
                } else if a > below.len() {
                    assert(walk[a] == after[a - 1 - below.len()]);
                    assert(stands_under(comments, levels, tail, level, after[a - 1 - below.len()]));
                }
                if 0 < b <= below.len() {
                    assert(walk[b] == below[b - 1]);
                    assert(stands_under(comments, levels, kids, level + 1, below[b - 1]));
                } else if b > below.len() {
                    assert(walk[b] == after[b - 1 - below.len()]);
                    assert(stands_under(comments, levels, tail, level, after[b - 1 - below.len()]));
                }
            }
            if walk.len() < budget {
                lemma_walk_prefix_len(comments, tail, left);
                assert forall|x: int| #[trigger]
                    stands_under(comments, levels, siblings, level, x) implies walk.contains(x) by {
                    let top = climb(comments, x, (levels[x] - level) as nat);
                    let at = choose|j: int| 0 <= j < siblings.len() && siblings[j] == top;
                    if at == 0 {
                        if levels[x] == level {
                            assert(walk[0] == x);
                        } else {
                            assert(stands_under(comments, levels, kids, level + 1, x));
                            assert(below.contains(x));
                            let k = choose|k: int| 0 <= k < below.len() && below[k] == x;
                            assert(walk[k + 1] == x);
                        }
                    } else {
                        assert(tail[at - 1] == top);
                        assert(stands_under(comments, levels, tail, level, x));
                        assert(after.contains(x));
                        let k = choose|k: int| 0 <= k < after.len() && after[k] == x;
                        assert(walk[1 + below.len() + k] == x);
                    }
                }
            }
        }
    }
}

/// A sequence without repetitions whose entries lie in `0..n` holds at most
/// `n` entries, and exactly `n` if it holds every number of that range.
proof fn lemma_distinct_positions(s: Seq<int>, n: nat)
    requires
        s.no_duplicates(),
        forall|k: int| 0 <= k < s.len() ==> 0 <= #[trigger] s[k] < n,
    ensures
        s.len() <= n,
        (forall|x: int| 0 <= x < n ==> s.contains(x)) ==> s.len() == n,
{
    let range = Set::new(|x: int| 0 <= x < n);
    lemma_int_range(0, n as int);
    assert(range =~= vstd::set_lib::set_int_range(0, n as int));
    s.unique_seq_to_set();
    assert(s.to_set().subset_of(range)) by {
        assert forall|x: int| s.to_set().contains(x) implies range.contains(x) by {
            let k = choose|k: int| 0 <= k < s.len() && s[k] == x;
            assert(0 <= s[k] < n);
        }
    }
    vstd::set_lib::lemma_len_subset(s.to_set(), range);
    if forall|x: int| 0 <= x < n ==> s.contains(x) {
        assert(range.subset_of(s.to_set()));
        assert(range =~= s.to_set());
    }
}

/// The ranking of any thread holds at most `min(max_comments, n)` comments,
/// where `n` is the size of the thread.
pub proof fn lemma_ranking_bound(comments: Seq<Comment>, max_comments: nat)
    ensures
        ranking(comments, max_comments).len() <= ranking_limit(comments, max_comments),
        ranking(comments, max_comments).len() <= max_comments,
        ranking(comments, max_comments).len() <= comments.len(),
{
    lemma_walk_prefix_len(
        comments,
        children_of(comments, None),
        ranking_limit(comments, max_comments),
    );
}

/// The ranking of a forest of `n` comments holds exactly `min(max_comments, n)`
/// of them, and none of them twice.
pub proof fn lemma_forest_ranking_len(comments: Seq<Comment>, max_comments: nat)
    requires
        is_forest(comments),
    ensures
        ranking(comments, max_comments).len() == ranking_limit(comments, max_comments),
        ranking(comments, max_comments).no_duplicates(),
{
    let levels = choose|levels: Seq<nat>| is_layering(comments, levels);
    let roots = children_of(comments, None);
    let limit = ranking_limit(comments, max_comments);
    let walk = ranking(comments, max_comments);
    lemma_children_of(comments, None);
    assert forall|j: int| 0 <= j < roots.len() implies 0 <= #[trigger] roots[j] < comments.len()
        && levels[roots[j]] == 0 by {
        assert(roots.contains(roots[j]));
        assert(is_child_of(comments, None, roots[j]));
        assert(is_placed(comments, levels, roots[j]));
    }
    lemma_walk_covers(comments, levels, roots, 0, limit);
    lemma_walk_prefix_len(comments, roots, limit);
    assert forall|k: int| 0 <= k < walk.len() implies 0 <= #[trigger] walk[k] < comments.len() by {
        assert(stands_under(comments, levels, roots, 0, walk[k]));
    }
    lemma_distinct_positions(walk, comments.len());
    if walk.len() < limit {
        assert forall|x: int| 0 <= x < comments.len() implies walk.contains(x) by {
            lemma_climb(comments, levels, x, levels[x]);
            let top = climb(comments, x, levels[x]);
            assert(is_placed(comments, levels, top));
            assert(is_child_of(comments, None, top));
            assert(roots.contains(top));
            assert(stands_under(comments, levels, roots, 0, x));
        }
    }
}

} // verus!
