//! The nearest-hit scan over the members of a scene.
use vstd::prelude::*;

verus! {

/// The last hit among `answers`, if any.
pub open spec fn last_hit<R>(answers: Seq<Option<R>>) -> Option<R>
    decreases answers.len(),
{
    if answers.len() == 0 {
        None
    } else if answers.last() is Some {
        answers.last()
    } else {
        last_hit(answers.drop_last())
    }
}

/// The bound that follows answer `a` given with bound `b`: the distance of a
/// hit, or `b` again after a miss.
pub open spec fn next_bound<R, B>(bound: spec_fn(R, B) -> bool, a: Option<R>, b: B, next: B) -> bool {
    match a {
        Some(h) => bound(h, next),
        None => next == b,
    }
}

/// `bounds` and `answers` record a scan of `n` members from `t_max`: member
/// `i` is asked once, in order, with `bounds[i]` and gives `answers[i]`
/// (`asked(i, bounds[i], answers[i])`); the first bound is `t_max`, and each
/// next one is the distance of the answer when it is a hit (`bound(h, b)`),
/// else the same bound.
pub open spec fn is_scan<R, B>(
    n: nat,
    t_max: B,
    asked: spec_fn(int, B, Option<R>) -> bool,
    bound: spec_fn(R, B) -> bool,
    bounds: Seq<B>,
    answers: Seq<Option<R>>,
) -> bool {
    &&& bounds.len() == n + 1
    &&& answers.len() == n
    &&& bounds[0] == t_max
    &&& forall|i: int| 0 <= i < n ==> #[trigger] asked(i, bounds[i], answers[i])
    &&& forall|i: int| 0 <= i < n ==> next_bound(bound, #[trigger] answers[i], bounds[i], bounds[i + 1])
}

/// Member `i` of `members`, asked with bound `b`, may give `a`.
pub open spec fn query_gives<M, R, B, Q: Fn(&M, B) -> Option<R>>(members: Seq<M>, query: Q) -> spec_fn(
    int,
    B,
    Option<R>,
) -> bool {
    |i: int, b: B, a: Option<R>| query.ensures((&members[i], b), a)
}

/// The distance of hit `h` may be `b`.
pub open spec fn bound_gives<R, B, D: Fn(&R) -> B>(bound_of: D) -> spec_fn(R, B) -> bool {
    |h: R, b: B| bound_of.ensures((&h,), b)
}

/// Queries each member once, in order, and keeps the last hit found.
///
/// `query(m, bound)` asks member `m` for its nearest hit closer than
/// `bound`; `bound_of(h)` is the distance of hit `h` along the ray. The first
/// member is asked with `t_max`; after each hit the bound tightens to that
/// hit's distance. Where the members answer as scene members should, the
/// result is the nearest hit (`lemma_scan_finds_nearest`).
pub fn closest_hit<M, R, B: Copy, Q, D>(members: &Vec<M>, t_max: B, query: Q, bound_of: D) -> (r:
    Option<R>) where Q: Fn(&M, B) -> Option<R>, D: Fn(&R) -> B
    requires
        forall|m: &M, b: B| query.requires((m, b)),
        forall|h: &R| bound_of.requires((h,)),
    ensures
        exists|bounds: Seq<B>, answers: Seq<Option<R>>|
            {
                &&& is_scan(
                    members@.len(),
                    t_max,
                    query_gives(members@, query),
                    bound_gives(bound_of),
                    bounds,
                    answers,
                )
                &&& r == last_hit(answers)
            },
{
    let mut best: Option<R> = None;
    let mut bound: B = t_max;
    let ghost mut bounds: Seq<B> = seq![t_max];
    let ghost mut answers: Seq<Option<R>> = Seq::empty();
    let ghost asked = query_gives(members@, query);
    let ghost gives = bound_gives(bound_of);
    let mut i: usize = 0;
    while i < members.len()
        invariant
            i <= members@.len(),
            forall|m: &M, b: B| query.requires((m, b)),
            forall|h: &R| bound_of.requires((h,)),
            asked == query_gives(members@, query),
            gives == bound_gives(bound_of),
            is_scan(i as nat, t_max, asked, gives, bounds, answers),
            bound == bounds[i as int],
            best == last_hit(answers),
        decreases members@.len() - i,
    {
        let found = query(&members[i], bound);
        let ghost got = found;
        let ghost before_bounds = bounds;
        let ghost before_answers = answers;
        match found {
            Some(h) => {
                bound = bound_of(&h);
                best = Some(h);
            },
            None => {},
        }
        proof {
            bounds = bounds.push(bound);
            answers = answers.push(got);
            assert(asked(i as int, before_bounds[i as int], got));
            assert(next_bound(gives, got, before_bounds[i as int], bound));
            assert forall|j: int| 0 <= j < i + 1 implies #[trigger] asked(
                j,
                bounds[j],
                answers[j],
            ) by {
                if j < i {
                    assert(bounds[j] == before_bounds[j]);
                    assert(answers[j] == before_answers[j]);
                }
            }
            assert forall|j: int| 0 <= j < i + 1 implies next_bound(
                gives,
                #[trigger] answers[j],
                bounds[j],
                bounds[j + 1],
            ) by {
                if j < i {
                    assert(bounds[j] == before_bounds[j]);
                    assert(bounds[j + 1] == before_bounds[j + 1]);
                    assert(answers[j] == before_answers[j]);
                }
            }
            assert(answers.drop_last() =~= before_answers);
        }
        i = i + 1;
    }
    assert(is_scan(members@.len(), t_max, asked, gives, bounds, answers));
    best
}

/// The nearer of two optional distances.
pub open spec fn closer(a: Option<int>, b: Option<int>) -> Option<int> {
    match (a, b) {
        (Some(x), Some(y)) => if y < x {
            Some(y)
        } else {
            Some(x)
        },
        (None, _) => b,
        (_, None) => a,
    }
}

/// The least of the distances in `near`, if there is one.
pub open spec fn nearest(near: Seq<Option<int>>) -> Option<int>
    decreases near.len(),
{
    if near.len() == 0 {
        None
    } else {
        closer(nearest(near.drop_last()), near.last())
    }
}

/// The distance of an optional hit.
pub open spec fn distance_of<R>(dist: spec_fn(R) -> int, a: Option<R>) -> Option<int> {
    match a {
        Some(h) => Some(dist(h)),
        None => None,
    }
}

/// What a member whose nearest hit below `t_max` lies at `d` gives when asked
/// with a bound at `limit`: that hit when it is below the limit, else
/// nothing.
pub open spec fn member_answers<R>(d: Option<int>, limit: int, dist: spec_fn(R) -> int, a: Option<R>) -> bool {
    match a {
        Some(h) => d == Some(dist(h)) && dist(h) < limit,
        None => match d {
            Some(x) => x >= limit,
            None => true,
        },
    }
}

/// `nearest(near)` is nothing exactly when no entry is a hit, and otherwise
/// one of the entries, no farther than any other.
pub proof fn lemma_nearest_is_least(near: Seq<Option<int>>)
    ensures
        nearest(near) is None <==> forall|i: int| 0 <= i < near.len() ==> near[i] is None,
        nearest(near) matches Some(m) ==> near.contains(Some(m)),
        nearest(near) matches Some(m) ==> forall|i: int|
            0 <= i < near.len() && near[i] is Some ==> m <= near[i]->0,
    decreases near.len(),
{
    if near.len() > 0 {
        let rest = near.drop_last();
        lemma_nearest_is_least(rest);
        let k = near.len() - 1;
        assert(near[k] == near.last());
        assert forall|i: int| 0 <= i < k implies near[i] == rest[i] by {}
        if nearest(near) is None {
            assert forall|i: int| 0 <= i < near.len() implies near[i] is None by {
                if i < k {
                    assert(near[i] == rest[i]);
                }
            }
        }
        match nearest(near) {
            Some(m) => {
                if near.last() == Some(m) {
                    assert(near[k] == Some(m));
                } else {
                    let j = choose|j: int| 0 <= j < rest.len() && rest[j] == Some(m);
                    assert(near[j] == Some(m));
                }
            },
            None => {},
        }
    }
}

/// The nearest hit does not depend on the order of the members: two lists
/// of the same distances, in any order, have the same nearest one.
pub proof fn lemma_nearest_order_free(a: Seq<Option<int>>, b: Seq<Option<int>>)
    requires
        a.to_multiset() == b.to_multiset(),
    ensures
        nearest(a) == nearest(b),
{
    lemma_nearest_is_least(a);
    lemma_nearest_is_least(b);
    a.to_multiset_ensures();
    b.to_multiset_ensures();
    assert forall|v: Option<int>| a.contains(v) <==> b.contains(v) by {
        assert(a.contains(v) <==> a.to_multiset().count(v) > 0);
        assert(b.contains(v) <==> b.to_multiset().count(v) > 0);
    }
    match (nearest(a), nearest(b)) {
        (Some(x), Some(y)) => {
            let i = choose|i: int| 0 <= i < b.len() && b[i] == Some(x);
            let j = choose|j: int| 0 <= j < a.len() && a[j] == Some(y);
            assert(y <= x);
            assert(x <= y);
        },
        (Some(x), None) => {
            let i = choose|i: int| 0 <= i < b.len() && b[i] == Some(x);
        },
        (None, Some(y)) => {
            let j = choose|j: int| 0 <= j < a.len() && a[j] == Some(y);
        },
        (None, None) => {},
    }
}

/// The first `k` steps of a scan whose members answer as
/// `lemma_scan_finds_nearest` asks have kept the nearest of the first `k`
/// members' hits, and the bound is its distance, or `t_max` while none hit.
proof fn lemma_scan_prefix<R, B>(
    n: nat,
    t_max: B,
    asked: spec_fn(int, B, Option<R>) -> bool,
    bound: spec_fn(R, B) -> bool,
    bounds: Seq<B>,
    answers: Seq<Option<R>>,
    at: spec_fn(B) -> int,
    dist: spec_fn(R) -> int,
    near: Seq<Option<int>>,
    k: int,
)
    requires
        is_scan(n, t_max, asked, bound, bounds, answers),
        near.len() == n,
        forall|i: int| 0 <= i < n && near[i] is Some ==> near[i]->0 < at(t_max),
        forall|i: int, b: B, a: Option<R>|
            0 <= i < n && at(b) <= at(t_max) && #[trigger] asked(i, b, a) ==> member_answers(
                near[i],
                at(b),
                dist,
                a,
            ),
        forall|h: R, b: B| #[trigger] bound(h, b) ==> at(b) == dist(h),
        0 <= k <= n,
    ensures
        distance_of(dist, last_hit(answers.subrange(0, k))) == nearest(near.subrange(0, k)),
        at(bounds[k]) == match nearest(near.subrange(0, k)) {
            Some(m) => m,
            None => at(t_max),
        },
        at(bounds[k]) <= at(t_max),
    decreases k,
{
    if k > 0 {
        lemma_scan_prefix(n, t_max, asked, bound, bounds, answers, at, dist, near, k - 1);
        let i = k - 1;
        let a = answers.subrange(0, k);
        let d = near.subrange(0, k);
        assert(a.drop_last() =~= answers.subrange(0, i));
        assert(d.drop_last() =~= near.subrange(0, i));
        assert(a.last() == answers[i]);
        assert(d.last() == near[i]);
        assert(asked(i, bounds[i], answers[i]));
        assert(next_bound(bound, answers[i], bounds[i], bounds[i + 1]));
        match answers[i] {
            Some(h) => {
                assert(bound(h, bounds[k]));
            },
            None => {},
        }
    } else {
        assert(answers.subrange(0, 0) =~= Seq::<Option<R>>::empty());
        assert(near.subrange(0, 0) =~= Seq::<Option<int>>::empty());
    }
}

/// Where each member answers as a scene member should, the scan finds the
/// nearest hit. Member `i` has its nearest hit below `t_max` at `near[i]`,
/// or none; asked with a bound no farther than `t_max` it gives that hit when
/// the hit lies below the bound, and nothing otherwise; `dist` is the
/// distance of a hit and `at` that of a bound. Then the scan gives a hit
/// exactly when some member has one, and that hit is the nearest of all.
pub proof fn lemma_scan_finds_nearest<R, B>(
    n: nat,
    t_max: B,
    asked: spec_fn(int, B, Option<R>) -> bool,
    bound: spec_fn(R, B) -> bool,
    bounds: Seq<B>,
    answers: Seq<Option<R>>,
    at: spec_fn(B) -> int,
    dist: spec_fn(R) -> int,
    near: Seq<Option<int>>,
)
    requires
        is_scan(n, t_max, asked, bound, bounds, answers),
        near.len() == n,
        forall|i: int| 0 <= i < n && near[i] is Some ==> near[i]->0 < at(t_max),
        forall|i: int, b: B, a: Option<R>|
            0 <= i < n && at(b) <= at(t_max) && #[trigger] asked(i, b, a) ==> member_answers(
                near[i],
                at(b),
                dist,
                a,
            ),
        forall|h: R, b: B| #[trigger] bound(h, b) ==> at(b) == dist(h),
    ensures
        distance_of(dist, last_hit(answers)) == nearest(near),
        last_hit(answers) is None <==> forall|i: int| 0 <= i < n ==> near[i] is None,
        last_hit(answers) matches Some(h) ==> near.contains(Some(dist(h))),
        last_hit(answers) matches Some(h) ==> forall|i: int|
            0 <= i < n && near[i] is Some ==> dist(h) <= near[i]->0,
{
    lemma_scan_prefix(n, t_max, asked, bound, bounds, answers, at, dist, near, n as int);
    assert(answers.subrange(0, n as int) =~= answers);
    assert(near.subrange(0, n as int) =~= near);
    lemma_nearest_is_least(near);
}

} // verus!
