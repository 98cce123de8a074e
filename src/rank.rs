use vstd::prelude::*;
use crate::error::StoreError;
use crate::record::{Entries, PlayerView, ScopeStore, has_id, ids_unique, lemma_position_of, lookup, position_of};

verus! {

/// Entry `e` stands before a player with id `id` and score `score`: a higher
/// score, or the same score and a smaller user id.
pub open spec fn ahead(e: (i64, crate::record::PlayerView), id: i64, score: i16) -> bool {
    e.1.score > score || (e.1.score == score && e.0 < id)
}

/// How many entries of `s` stand before (`id`, `score`).
pub open spec fn count_ahead(s: Entries, id: i64, score: i16) -> nat
    decreases s.len(),
{
    if s.len() == 0 {
        0
    } else {
        count_ahead(s.drop_last(), id, score) + if ahead(s.last(), id, score) { 1nat } else { 0nat }
    }
}

/// The 1-based place of `id` when the entries are ordered by score, highest
/// first, equal scores by ascending user id.
pub open spec fn rank_of(s: Entries, id: i64) -> nat
    recommends
        has_id(s, id),
{
    1 + count_ahead(s, id, lookup(s, id).unwrap().score)
}

/// The place of `user_id` in its chat, 1 for the highest score.
pub fn rank(store: &ScopeStore, user_id: i64) -> (r: Result<usize, StoreError>)
    requires
        store.wf(),
    ensures
        match r {
            Ok(n) => has_id(store@, user_id) && n == rank_of(store@, user_id),
            Err(e) => !has_id(store@, user_id) && e == StoreError::NotFound,
        },
{
    proof {
        lemma_position_of(store@, user_id);
    }
    let score = match store.get(user_id) {
        Some(rec) => rec.score,
        None => return Err(StoreError::NotFound),
    };
    let n = store.len();
    let mut count: usize = 0;
    let mut i: usize = 0;
    while i < n
        invariant
            n == store@.len(),
            i <= n,
            count == count_ahead(store@.subrange(0, i as int), user_id, score),
            count <= i,
        decreases n - i,
    {
        let (id, rec) = store.entry_at(i);
        proof {
            let s = store@.subrange(0, i as int + 1);
            assert(s.drop_last() =~= store@.subrange(0, i as int));
        }
        if rec.score > score || (rec.score == score && id < user_id) {
            count = count + 1;
        }
        i = i + 1;
    }
    assert(store@.subrange(0, n as int) =~= store@);
    proof {
        lemma_count_ahead_own(store@, user_id, score, position_of(store@, user_id));
    }
    Ok(count + 1)
}

/// Count of entries ahead is at most the number of entries.
proof fn lemma_count_ahead_bound(s: Entries, id: i64, score: i16)
    ensures
        count_ahead(s, id, score) <= s.len(),
    decreases s.len(),
{
    if s.len() > 0 {
        lemma_count_ahead_bound(s.drop_last(), id, score);
    }
}

/// The player's own entry is never ahead of itself.
proof fn lemma_count_ahead_own(s: Entries, id: i64, score: i16, k: int)
    requires
        0 <= k < s.len(),
        s[k].0 == id,
        s[k].1.score == score,
    ensures
        count_ahead(s, id, score) < s.len(),
    decreases s.len(),
{
    if k == s.len() - 1 {
        lemma_count_ahead_bound(s.drop_last(), id, score);
    } else {
        lemma_count_ahead_own(s.drop_last(), id, score, k);
    }
}

/// Where each entry of `t` that is ahead of (`id`, `y`) has its counterpart in
/// `s` ahead of (`id`, `x`), `t` counts no more entries ahead.
proof fn lemma_count_ahead_pointwise(s: Entries, t: Entries, id: i64, x: i16, y: i16)
    requires
        s.len() == t.len(),
        forall|k: int| 0 <= k < t.len() && ahead(t[k], id, y) ==> ahead(s[k], id, x),
    ensures
        count_ahead(t, id, y) <= count_ahead(s, id, x),
    decreases s.len(),
{
    if s.len() > 0 {
        let (s1, t1) = (s.drop_last(), t.drop_last());
        assert forall|k: int| 0 <= k < t1.len() && ahead(t1[k], id, y) implies ahead(s1[k], id, x) by {
            assert(t1[k] == t[k] && s1[k] == s[k]);
        }
        lemma_count_ahead_pointwise(s1, t1, id, x, y);
        assert(ahead(t.last(), id, y) ==> ahead(s.last(), id, x)) by {
            assert(t.last() == t[t.len() - 1]);
        }
    }
}

/// Raising one player's score, all other records unchanged, never moves that
/// player to a later place.
pub proof fn lemma_rank_monotonic(s: Entries, id: i64, new_score: i16)
    requires
        ids_unique(s),
        has_id(s, id),
        lookup(s, id).unwrap().score < new_score,
    ensures
        ({
            let p = position_of(s, id);
            let r = lookup(s, id).unwrap();
            let t = s.update(p, (id, crate::record::PlayerView { score: new_score, ..r }));
            &&& ids_unique(t)
            &&& has_id(t, id)
            &&& rank_of(t, id) <= rank_of(s, id)
        }),
{
    lemma_position_of(s, id);
    let p = position_of(s, id);
    let r = lookup(s, id).unwrap();
    let t = s.update(p, (id, crate::record::PlayerView { score: new_score, ..r }));
    assert(ids_unique(t));
    assert(t[p].0 == id);
    lemma_position_of(t, id);
    assert(lookup(t, id).unwrap().score == new_score);
    assert forall|k: int| 0 <= k < t.len() && ahead(t[k], id, new_score) implies ahead(s[k], id, r.score) by {
        if k == p {
        } else {
            assert(t[k] == s[k]);
        }
    }
    lemma_count_ahead_pointwise(s, t, id, r.score, new_score);
}

/// Entry `a` comes before entry `b` in the leaderboard: a higher score, or
/// the same score and a smaller user id.
pub open spec fn before(a: (i64, PlayerView), b: (i64, PlayerView)) -> bool {
    ahead(a, b.0, b.1.score)
}

/// The leaderboard order is a strict total order on entries with distinct ids.
pub proof fn lemma_before_order(a: (i64, PlayerView), b: (i64, PlayerView), c: (i64, PlayerView))
    ensures
        !(before(a, b) && before(b, a)),
        before(a, b) && before(b, c) ==> before(a, c),
        a.0 != b.0 ==> before(a, b) || before(b, a),
{
}

/// Entry `k` may still be listed after the positions in `out`.
spec fn open_for(s: Entries, out: Seq<usize>, k: int) -> bool {
    out.len() == 0 || before(s[out.last() as int], s[k])
}

/// The positions in `store` of its first `limit` players in leaderboard order.
/// Every player who comes before one that is listed is listed too, and all are
/// listed when fewer than `limit` come out.
pub fn top_positions(store: &ScopeStore, limit: usize) -> (r: Vec<usize>)
    requires
        store.wf(),
    ensures
        r@.len() <= limit,
        forall|k: int| 0 <= k < r@.len() ==> r@[k] < store@.len(),
        forall|j: int, k: int| 0 <= j < k < r@.len() ==> before(store@[r@[j] as int], store@[r@[k] as int]),
        forall|i: usize|
            i < store@.len() && (r@.len() < limit || (r@.len() > 0 && before(
                store@[i as int],
                store@[r@.last() as int],
            ))) ==> #[trigger] r@.contains(i),
{
    let ghost s = store@;
    let n = store.len();
    let mut out: Vec<usize> = Vec::new();
    let mut done = false;
    while out.len() < limit && !done
        invariant
            done ==> forall|i: usize| i < n ==> #[trigger] out@.contains(i),
            s == store@,
            store.wf(),
            n == s.len(),
            out@.len() <= limit,
            forall|k: int| 0 <= k < out@.len() ==> out@[k] < n,
            forall|j: int, k: int| 0 <= j < k < out@.len() ==> before(s[out@[j] as int], s[out@[k] as int]),
            forall|i: int| 0 <= i < n && !open_for(s, out@, i) ==> out@.contains(i as usize),
        decreases limit - out@.len() + if done { 0int } else { 1int },
    {
        let has_last = out.len() > 0;
        let mut last_id: i64 = 0;
        let mut last_score: i16 = 0;
        if has_last {
            let (id, rec) = store.entry_at(out[out.len() - 1]);
            last_id = id;
            last_score = rec.score;
        }
        let mut best: Option<usize> = None;
        let mut best_id: i64 = 0;
        let mut best_score: i16 = 0;
        let mut i: usize = 0;
        while i < n
            invariant
                s == store@,
                store.wf(),
                n == s.len(),
                i <= n,
                forall|k: int| 0 <= k < out@.len() ==> out@[k] < n,
                has_last == (out@.len() > 0),
                has_last ==> last_id == s[out@.last() as int].0 && last_score == s[out@.last() as int].1.score,
                best matches Some(b) ==> b < i && best_id == s[b as int].0 && best_score == s[b as int].1.score
                    && open_for(s, out@, b as int),
                best matches Some(b) ==> forall|k: int|
                    0 <= k < i && open_for(s, out@, k) ==> k == b || before(s[b as int], s[k]),
                best is None ==> forall|k: int| 0 <= k < i ==> !open_for(s, out@, k),
            decreases n - i,
        {
            let (id, rec) = store.entry_at(i);
            let candidate = !has_last || rec.score < last_score || (rec.score == last_score && id > last_id);
            assert(candidate == open_for(s, out@, i as int));
            if candidate {
                let better = match best {
                    None => true,
                    Some(_) => rec.score > best_score || (rec.score == best_score && id < best_id),
                };
                if better {
                    proof {
                        if let Some(b) = best {
                            assert forall|k: int|
                                0 <= k < i + 1 && open_for(s, out@, k) implies k == i || before(s[i as int], s[k]) by {
                                if k < i && k != b {
                                    lemma_before_order(s[i as int], s[b as int], s[k]);
                                }
                            }
                        }
                    }
                    best = Some(i);
                    best_id = id;
                    best_score = rec.score;
                } else {
                    proof {
                        let b = best->Some_0;
                        assert(s[i as int].0 != s[b as int].0);
                        lemma_before_order(s[i as int], s[b as int], s[i as int]);
                    }
                }
            }
            i = i + 1;
        }
        match best {
            None => {
                assert forall|i: usize| i < n implies #[trigger] out@.contains(i) by {
                    assert(!open_for(s, out@, i as int));
                }
                done = true;
            },
            Some(b) => {
                let ghost prev = out@;
                proof {
                    assert forall|k: int| 0 <= k < n && !before(s[b as int], s[k]) implies k == b
                        || !open_for(s, prev, k) by {
                        if k != b as int && open_for(s, prev, k) {
                            assert(s[k].0 != s[b as int].0);
                            lemma_before_order(s[b as int], s[k], s[b as int]);
                        }
                    }
                }
                out.push(b);
                proof {
                    assert forall|k: int| 0 <= k < n && !open_for(s, out@, k) implies out@.contains(k as usize) by {
                        if k == b as int {
                            assert(out@[prev.len() as int] == b);
                        } else {
                            assert(out@.last() == b);
                            assert(!before(s[b as int], s[k]));
                            assert(!open_for(s, prev, k));
                            assert(prev.contains(k as usize));
                            let j = choose|j: int| 0 <= j < prev.len() && prev[j] == k as usize;
                            assert(out@[j] == k as usize);
                        }
                    }
                    assert forall|j: int, k: int| 0 <= j < k < out@.len() implies before(
                        s[out@[j] as int],
                        s[out@[k] as int],
                    ) by {
                        if k == prev.len() && j < prev.len() - 1 {
                            lemma_before_order(s[prev[j] as int], s[prev.last() as int], s[b as int]);
                        }
                    }
                }
            },
        }
    }
    assert forall|i: usize|
        i < n && (out@.len() < limit || (out@.len() > 0 && before(s[i as int], s[out@.last() as int])))
        implies #[trigger] out@.contains(i) by {
        if !done && out@.len() > 0 && before(s[i as int], s[out@.last() as int]) {
            lemma_before_order(s[i as int], s[out@.last() as int], s[i as int]);
            assert(!open_for(s, out@, i as int));
        }
    }
    out
}

} // verus!
