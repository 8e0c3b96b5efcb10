//! Ranking posts by recency and cutting the ranking down to a window.
//!
//! Posts are ordered newest first by a stable sort, filtered by a cutoff taken
//! from the commit history, and truncated to a target count.

use vstd::prelude::*;
use vstd::seq_lib::to_multiset_insert;

use crate::post::{Post, PostModel};
use crate::time::{key_ge, Timestamp};

verus! {

/// Why no selection could be made.
#[derive(Clone, Copy, Debug, PartialEq, Eq, Structural)]
pub enum SelectError {
    /// The commit traversal yielded no commit to take the cutoff from.
    NoCommits,
    /// There is no post to select from.
    NoPosts,
}

/// `a` was modified strictly later than `b`.
pub open spec fn newer(a: PostModel, b: PostModel) -> bool {
    !key_ge(b.last_modified.key(), a.last_modified.key())
}

/// Newest first: no post is followed by a strictly newer one.
pub open spec fn sorted_by_recency(s: Seq<PostModel>) -> bool {
    forall|i: int, j: int| 0 <= i < j < s.len() ==> !newer(s[j], s[i])
}

/// How many posts at the front of `s` are strictly newer than `p`.
pub open spec fn newer_prefix_len(p: PostModel, s: Seq<PostModel>) -> int
    decreases s.len(),
{
    if s.len() > 0 && newer(s[0], p) {
        1 + newer_prefix_len(p, s.drop_first())
    } else {
        0
    }
}

/// The posts of `s`, newest first; posts modified at the same time keep the
/// order they have in `s`. Each post goes in front of what follows it in `s`,
/// behind the posts that are strictly newer.
pub open spec fn by_recency(s: Seq<PostModel>) -> Seq<PostModel>
    decreases s.len(),
{
    if s.len() == 0 {
        s
    } else {
        let rest = by_recency(s.drop_first());
        rest.insert(newer_prefix_len(s[0], rest), s[0])
    }
}

/// The posts modified at or after the cutoff.
pub open spec fn in_window(cutoff: Timestamp) -> spec_fn(PostModel) -> bool {
    |p: PostModel| key_ge(p.last_modified.key(), cutoff.key())
}

/// At most `target_count` leading posts where the count is positive, every
/// post otherwise.
pub open spec fn truncated(s: Seq<PostModel>, target_count: int) -> Seq<PostModel> {
    if 0 < target_count < s.len() {
        s.take(target_count)
    } else {
        s
    }
}

/// The selection: the posts newest first, those before the cutoff left out,
/// cut down to the target count.
pub open spec fn selection(posts: Seq<PostModel>, cutoff: Timestamp, target_count: int) -> Seq<
    PostModel,
> {
    truncated(by_recency(posts).filter(in_window(cutoff)), target_count)
}

/// How many commits are taken from a traversal of `len` commits. With a
/// target count of zero it is the commit horizon, or the whole traversal
/// where the horizon is negative or beyond its end; with any other target
/// count it is the whole traversal.
pub open spec fn commits_taken(len: int, target_count: int, commit_horizon: int) -> int {
    if target_count == 0 && 0 <= commit_horizon < len {
        commit_horizon
    } else {
        len
    }
}

/// The cutoff: the time of the last commit taken from the traversal, which
/// runs newest first. There is none where no commit is taken.
pub open spec fn cutoff(commits: Seq<Timestamp>, target_count: int, commit_horizon: int) -> Option<
    Timestamp,
> {
    let taken = commits_taken(commits.len() as int, target_count, commit_horizon);
    if taken == 0 {
        None
    } else {
        Some(commits[taken - 1])
    }
}

/// What selecting from `posts` gives, with the commit traversal `commits`: the
/// selection by the traversal's cutoff, or the reason why there is none. A
/// traversal with no commit to take comes before an empty collection of
/// posts.
pub open spec fn select_result(
    posts: Seq<PostModel>,
    commits: Seq<Timestamp>,
    target_count: int,
    commit_horizon: int,
) -> Result<Seq<PostModel>, SelectError> {
    match cutoff(commits, target_count, commit_horizon) {
        None => Err(SelectError::NoCommits),
        Some(limit) => if posts.len() == 0 {
            Err(SelectError::NoPosts)
        } else {
            Ok(selection(posts, limit, target_count))
        },
    }
}

/// `newer_prefix_len` counts a run of strictly newer posts that ends at the
/// first post that is not.
pub proof fn lemma_newer_prefix_len(p: PostModel, s: Seq<PostModel>)
    ensures
        0 <= newer_prefix_len(p, s) <= s.len(),
        forall|i: int| 0 <= i < newer_prefix_len(p, s) ==> newer(#[trigger] s[i], p),
        newer_prefix_len(p, s) < s.len() ==> !newer(s[newer_prefix_len(p, s)], p),
    decreases s.len(),
{
    if s.len() > 0 && newer(s[0], p) {
        let t = s.drop_first();
        lemma_newer_prefix_len(p, t);
        assert forall|i: int| 0 <= i < newer_prefix_len(p, s) implies newer(#[trigger] s[i], p) by {
            if i > 0 {
                assert(s[i] == t[i - 1]);
            }
        }
        assert(newer_prefix_len(p, s) < s.len() ==> s[newer_prefix_len(p, s)] == t[newer_prefix_len(
            p,
            t,
        )]);
    }
}

/// A position that ends a run of strictly newer posts is the one that
/// `newer_prefix_len` gives.
pub proof fn lemma_newer_prefix_len_is(p: PostModel, s: Seq<PostModel>, n: int)
    requires
        0 <= n <= s.len(),
        forall|i: int| 0 <= i < n ==> newer(#[trigger] s[i], p),
        n < s.len() ==> !newer(s[n], p),
    ensures
        newer_prefix_len(p, s) == n,
    decreases s.len(),
{
    if n > 0 {
        let t = s.drop_first();
        assert(newer(s[0], p));
        assert forall|i: int| 0 <= i < n - 1 implies newer(#[trigger] t[i], p) by {
            assert(t[i] == s[i + 1]);
        }
        lemma_newer_prefix_len_is(p, t, n - 1);
    }
}

/// Putting a post behind the strictly newer ones keeps a ranking sorted.
pub proof fn lemma_insert_keeps_sorted(p: PostModel, s: Seq<PostModel>)
    requires
        sorted_by_recency(s),
    ensures
        sorted_by_recency(s.insert(newer_prefix_len(p, s), p)),
{
    let n = newer_prefix_len(p, s);
    let r = s.insert(n, p);
    lemma_newer_prefix_len(p, s);
    assert forall|i: int, j: int| 0 <= i < j < r.len() implies !newer(r[j], r[i]) by {
        if j == n {
            assert(newer(s[i], p));
        } else if i == n {
            assert(!newer(s[n], p));
            if j - 1 > n {
                assert(!newer(s[j - 1], s[n]));
            }
        } else {
            let a = if i < n { i } else { i - 1 };
            let b = if j < n { j } else { j - 1 };
            assert(r[i] == s[a] && r[j] == s[b]);
        }
    }
}

/// The ranking is sorted newest first and holds exactly the posts it was
/// given, each as often as it was given.
pub proof fn lemma_by_recency_sorts(s: Seq<PostModel>)
    ensures
        sorted_by_recency(by_recency(s)),
        by_recency(s).len() == s.len(),
        by_recency(s).to_multiset() == s.to_multiset(),
    decreases s.len(),
{
    if s.len() > 0 {
        let tail = s.drop_first();
        let rest = by_recency(tail);
        lemma_by_recency_sorts(tail);
        lemma_newer_prefix_len(s[0], rest);
        lemma_insert_keeps_sorted(s[0], rest);
        to_multiset_insert(rest, newer_prefix_len(s[0], rest), s[0]);
        to_multiset_insert(tail, 0, s[0]);
        assert(tail.insert(0, s[0]) =~= s);
    }
}

/// Ranking what is already sorted newest first changes nothing.
pub proof fn lemma_by_recency_of_sorted(s: Seq<PostModel>)
    requires
        sorted_by_recency(s),
    ensures
        by_recency(s) == s,
    decreases s.len(),
{
    if s.len() > 0 {
        let tail = s.drop_first();
        assert forall|i: int, j: int| 0 <= i < j < tail.len() implies !newer(tail[j], tail[i]) by {
            assert(tail[i] == s[i + 1] && tail[j] == s[j + 1]);
        }
        lemma_by_recency_of_sorted(tail);
        if tail.len() > 0 {
            assert(tail[0] == s[1]);
            assert(!newer(s[1], s[0]));
        }
        assert(newer_prefix_len(s[0], tail) == 0);
        assert(tail.insert(0, s[0]) =~= s);
    }
}

/// The posts modified exactly at `t`.
pub open spec fn modified_at(t: Timestamp) -> spec_fn(PostModel) -> bool {
    |p: PostModel| p.last_modified == t
}

/// The sort is stable: the posts modified at one time stand in the ranking
/// in the order in which they were given.
pub proof fn lemma_by_recency_stable(s: Seq<PostModel>, t: Timestamp)
    ensures
        by_recency(s).filter(modified_at(t)) == s.filter(modified_at(t)),
    decreases s.len(),
{
    let f = modified_at(t);
    if s.len() > 0 {
        let tail = s.drop_first();
        let rest = by_recency(tail);
        let n = newer_prefix_len(s[0], rest);
        let one = seq![s[0]];
        lemma_by_recency_stable(tail, t);
        lemma_newer_prefix_len(s[0], rest);
        assert(s =~= one + tail);
        assert(rest =~= rest.take(n) + rest.skip(n));
        assert(rest.insert(n, s[0]) =~= rest.take(n) + one + rest.skip(n));
        Seq::filter_distributes_over_add(one, tail, f);
        Seq::filter_distributes_over_add(rest.take(n), rest.skip(n), f);
        Seq::filter_distributes_over_add(rest.take(n), one, f);
        Seq::filter_distributes_over_add(rest.take(n) + one, rest.skip(n), f);
        if f(s[0]) {
            assert(rest.take(n).all(|x: PostModel| !f(x))) by {
                assert forall|i: int| 0 <= i < rest.take(n).len() implies !f(
                    #[trigger] rest.take(n)[i],
                ) by {
                    assert(newer(rest[i], s[0]));
                }
            }
            rest.take(n).lemma_all_neg_filter_empty(f);
            assert(rest.take(n).filter(f) =~= Seq::<PostModel>::empty());
            assert(by_recency(s).filter(f) =~= s.filter(f));
        } else {
            assert(one.all(|x: PostModel| !f(x)));
            one.lemma_all_neg_filter_empty(f);
            assert(one.filter(f) =~= Seq::<PostModel>::empty());
            assert(by_recency(s).filter(f) =~= s.filter(f));
        }
    }
}

/// Leaving posts out keeps a ranking sorted.
pub proof fn lemma_filter_keeps_sorted(s: Seq<PostModel>, f: spec_fn(PostModel) -> bool)
    requires
        sorted_by_recency(s),
    ensures
        sorted_by_recency(s.filter(f)),
    decreases s.len(),
{
    reveal(Seq::filter);
    if s.len() > 0 {
        let init = s.drop_last();
        assert forall|i: int, j: int| 0 <= i < j < init.len() implies !newer(init[j], init[i]) by {
            assert(init[i] == s[i] && init[j] == s[j]);
        }
        lemma_filter_keeps_sorted(init, f);
        if f(s.last()) {
            let kept = init.filter(f);
            let r = kept.push(s.last());
            assert forall|i: int, j: int| 0 <= i < j < r.len() implies !newer(r[j], r[i]) by {
                if j == kept.len() {
                    assert(kept.contains(kept[i]));
                    init.lemma_filter_contains_rev(f, kept[i]);
                    let k = choose|k: int| 0 <= k < init.len() && init[k] == kept[i];
                    assert(s[k] == kept[i]);
                    assert(!newer(s[s.len() - 1], s[k]));
                }
            }
        }
    }
}

/// A filter that every post passes leaves the posts as they are.
pub proof fn lemma_filter_all(s: Seq<PostModel>, f: spec_fn(PostModel) -> bool)
    requires
        forall|i: int| 0 <= i < s.len() ==> f(#[trigger] s[i]),
    ensures
        s.filter(f) == s,
    decreases s.len(),
{
    reveal(Seq::filter);
    if s.len() > 0 {
        let init = s.drop_last();
        assert forall|i: int| 0 <= i < init.len() implies f(#[trigger] init[i]) by {
            assert(init[i] == s[i]);
        }
        lemma_filter_all(init, f);
        assert(init.push(s.last()) =~= s);
    }
}

/// What a selection holds: it is sorted newest first, no longer than a
/// positive target count, and made of posts that were given and that were
/// modified at or after the cutoff.
pub proof fn lemma_selection_properties(posts: Seq<PostModel>, cutoff: Timestamp, target_count: int)
    ensures
        sorted_by_recency(selection(posts, cutoff, target_count)),
        selection(posts, cutoff, target_count).len() <= posts.len(),
        target_count > 0 ==> selection(posts, cutoff, target_count).len() <= target_count,
        forall|i: int|
            0 <= i < selection(posts, cutoff, target_count).len() ==> {
                &&& in_window(cutoff)(#[trigger] selection(posts, cutoff, target_count)[i])
                &&& posts.contains(selection(posts, cutoff, target_count)[i])
            },
{
    let ranked = by_recency(posts);
    let kept = ranked.filter(in_window(cutoff));
    let r = selection(posts, cutoff, target_count);
    lemma_by_recency_sorts(posts);
    lemma_filter_keeps_sorted(ranked, in_window(cutoff));
    ranked.lemma_filter_len(in_window(cutoff));
    assert forall|i: int| 0 <= i < r.len() implies in_window(cutoff)(#[trigger] r[i])
        && posts.contains(r[i]) by {
        assert(r[i] == kept[i]);
        ranked.lemma_filter_pred(in_window(cutoff), i);
        assert(in_window(cutoff)(kept[i]));
        assert(kept.contains(kept[i]));
        ranked.lemma_filter_contains_rev(in_window(cutoff), kept[i]);
        assert(ranked.contains(kept[i]));
        ranked.to_multiset_ensures();
        posts.to_multiset_ensures();
        assert(ranked.to_multiset().count(kept[i]) > 0);
        assert(posts.contains(kept[i]));
    }
    assert forall|i: int, j: int| 0 <= i < j < r.len() implies !newer(r[j], r[i]) by {
        assert(r[i] == kept[i] && r[j] == kept[j]);
    }
}

/// Selecting from a selection, with the same cutoff and target count, gives
/// the selection back.
pub proof fn lemma_selection_idempotent(posts: Seq<PostModel>, cutoff: Timestamp, target_count: int)
    ensures
        selection(selection(posts, cutoff, target_count), cutoff, target_count) == selection(
            posts,
            cutoff,
            target_count,
        ),
{
    let r = selection(posts, cutoff, target_count);
    lemma_selection_properties(posts, cutoff, target_count);
    lemma_by_recency_of_sorted(r);
    lemma_filter_all(r, in_window(cutoff));
}

/// Selecting again from what was selected, with the same commits, target
/// count and horizon, selects the same.
pub proof fn lemma_select_twice(
    posts: Seq<PostModel>,
    commits: Seq<Timestamp>,
    target_count: int,
    commit_horizon: int,
)
    requires
        select_result(posts, commits, target_count, commit_horizon) matches Ok(selected)
            && selected.len() > 0,
    ensures
        select_result(
            select_result(posts, commits, target_count, commit_horizon)->Ok_0,
            commits,
            target_count,
            commit_horizon,
        ) == select_result(posts, commits, target_count, commit_horizon),
{
    let limit = cutoff(commits, target_count, commit_horizon)->0;
    lemma_selection_idempotent(posts, limit, target_count);
}

/// What a sequence of posts stands for.
pub open spec fn models(s: Seq<Post>) -> Seq<PostModel> {
    s.map_values(|p: Post| p@)
}

/// Sorts the posts newest first. The sort is stable.
pub fn sort_by_recency(posts: Vec<Post>) -> (sorted: Vec<Post>)
    ensures
        sorted.deep_view() == by_recency(posts.deep_view()),
{
    let ghost all = posts.deep_view();
    let mut pending = posts;
    let mut sorted: Vec<Post> = Vec::new();
    assert(all.skip(all.len() as int) =~= Seq::<PostModel>::empty());
    assert(sorted.deep_view() =~= Seq::<PostModel>::empty());
    while pending.len() > 0
        invariant
            pending.len() <= all.len(),
            pending.deep_view() == all.take(pending.len() as int),
            sorted.deep_view() == by_recency(all.skip(pending.len() as int)),
        decreases pending.len(),
    {
        let ghost before = pending.deep_view();
        let ghost ranked = sorted.deep_view();
        let post = pending.pop().unwrap();
        let mut at: usize = 0;
        while at < sorted.len() && sorted[at].last_modified.after(&post.last_modified)
            invariant
                at <= sorted.len(),
                sorted.deep_view() == ranked,
                forall|i: int| 0 <= i < at ==> newer(#[trigger] ranked[i], post@),
            decreases sorted.len() - at,
        {
            assert(ranked[at as int] == sorted@[at as int]@);
            at += 1;
        }
        proof {
            let n = pending.len() as int;
            let tail = all.skip(n);
            assert(post@ == before[n]);
            assert(tail[0] == post@);
            assert(tail.drop_first() =~= all.skip(n + 1));
            if at < sorted.len() {
                assert(ranked[at as int] == sorted@[at as int]@);
            }
            lemma_newer_prefix_len_is(post@, ranked, at as int);
            assert(by_recency(tail) == ranked.insert(at as int, post@));
        }
        sorted.insert(at, post);
        assert(sorted.deep_view() =~= ranked.insert(at as int, post@));
        assert(pending.deep_view() =~= all.take(pending.len() as int));
    }
    assert(all.skip(0) =~= all);
    sorted
}

/// The cutoff for a selection: the time of the last commit taken from
/// `commit_times`, the commit traversal newest first.
pub fn cutoff_time(commit_times: &Vec<Timestamp>, target_count: i64, commit_horizon: i64) -> (r:
    Option<Timestamp>)
    ensures
        r == cutoff(commit_times@, target_count as int, commit_horizon as int),
{
    let len = commit_times.len();
    let taken = if target_count == 0 && commit_horizon >= 0 && (commit_horizon as u64)
        < len as u64 {
        commit_horizon as usize
    } else {
        len
    };
    if taken == 0 {
        None
    } else {
        Some(commit_times[taken - 1])
    }
}

/// Keeps the posts modified at or after the cutoff, in their order, and of
/// those at most `target_count` where that count is positive.
pub fn keep_window(posts: Vec<Post>, cutoff: Timestamp, target_count: i64) -> (kept: Vec<Post>)
    ensures
        kept.deep_view() == truncated(
            posts.deep_view().filter(in_window(cutoff)),
            target_count as int,
        ),
{
    let ghost all = posts.deep_view();
    let ghost given = posts@;
    let mut kept: Vec<Post> = Vec::new();
    assert(models(given) =~= all);
    assert(models(given.take(0)) =~= Seq::<PostModel>::empty());
    assert(kept.deep_view() =~= Seq::<PostModel>::empty());
    proof {
        lemma_filter_all(Seq::<PostModel>::empty(), in_window(cutoff));
    }
    for post in it: posts
        invariant
            it.seq() == given,
            models(given) == all,
            kept.deep_view() == truncated(
                models(given.take(it.index() as int)).filter(in_window(cutoff)),
                target_count as int,
            ),
            kept.len() <= it.index(),
    {
        let ghost done = models(given.take(it.index() as int));
        let ghost before = kept.deep_view();
        proof {
            assert(models(given.take(it.index() + 1)) =~= done.push(post@));
            done.lemma_filter_push(post@, in_window(cutoff));
            done.lemma_filter_len(in_window(cutoff));
        }
        if (target_count <= 0 || (kept.len() as u64) < target_count as u64)
            && post.last_modified.at_or_after(&cutoff) {
            kept.push(post);
            assert(kept.deep_view() =~= before.push(post@));
        }
        assert(kept.deep_view() =~= truncated(
            done.push(post@).filter(in_window(cutoff)),
            target_count as int,
        ));
    }
    assert(given.take(given.len() as int) =~= given);
    kept
}

/// Selects the posts to publish: newest first, modified at or after the
/// cutoff that the commit traversal gives, and at most `target_count` of them
/// where that count is positive.
///
/// `commit_times` holds the times of the repository's commits in the order
/// of a traversal that runs newest first. With a target count of zero the
/// cutoff is the time of the `commit_horizon`-th commit of the traversal (of
/// its last, where the horizon is negative or beyond the end); otherwise it is
/// the time of the last commit. A traversal that yields no commit to take, and
/// an empty collection of posts, are errors.
pub fn select(
    posts: Vec<Post>,
    commit_times: &Vec<Timestamp>,
    target_count: i64,
    commit_horizon: i64,
) -> (r: Result<Vec<Post>, SelectError>)
    ensures
        match r {
            Ok(selected) => {
                &&& select_result(
                    posts.deep_view(),
                    commit_times@,
                    target_count as int,
                    commit_horizon as int,
                ) == Ok::<Seq<PostModel>, SelectError>(selected.deep_view())
                &&& sorted_by_recency(selected.deep_view())
                &&& selected.len() <= posts.len()
                &&& target_count > 0 ==> selected.len() <= target_count
            },
            Err(error) => select_result(
                posts.deep_view(),
                commit_times@,
                target_count as int,
                commit_horizon as int,
            ) == Err::<Seq<PostModel>, SelectError>(error),
        },
{
    let limit = match cutoff_time(commit_times, target_count, commit_horizon) {
        Some(limit) => limit,
        None => {
            return Err(SelectError::NoCommits);
        },
    };
    if posts.len() == 0 {
        return Err(SelectError::NoPosts);
    }
    proof {
        lemma_selection_properties(posts.deep_view(), limit, target_count as int);
    }
    let ranked = sort_by_recency(posts);
    Ok(keep_window(ranked, limit, target_count))
}

} // verus!
