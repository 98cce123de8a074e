use vstd::prelude::*;
use crate::cooldown::{Cooldown, check, cooldown_after};
use crate::rank::{rank, rank_of};
use crate::record::{
    Entries, PlayerRecord, PlayerView, ScopeStore, from_rows, ids_unique, lemma_position_of, lemma_rows_round_trip,
    lemma_upsert, lookup, rows_of, upsert,
};
use crate::selector::{WeightedRange, draw, drawn_from, total_weight, valid_table};

verus! {

/// `x` held to the range of `i16`.
pub open spec fn clamp_i16(x: int) -> i16 {
    if x > i16::MAX {
        i16::MAX
    } else if x < i16::MIN {
        i16::MIN
    } else {
        x as i16
    }
}

/// A record after a successful attempt at `now` that changes the score by
/// `delta`. A returning player keeps their name, and the score stops at the
/// bounds of `i16`; a new player starts with `delta`.
pub open spec fn attempted(prev: Option<PlayerView>, name: Seq<char>, delta: i16, now: i64) -> PlayerView {
    match prev {
        Some(p) => PlayerView { name: p.name, score: clamp_i16(p.score + delta), last_attempt: now },
        None => PlayerView { name, score: delta, last_attempt: now },
    }
}

/// Whether a player with record `prev`, if any, may play at `now`.
pub open spec fn cooldown_of(prev: Option<PlayerView>, now: i64) -> Cooldown {
    match prev {
        None => Cooldown::Eligible,
        Some(p) => cooldown_after(p.last_attempt, now),
    }
}

/// Records a successful attempt of `user_id` at `now` that changes the score
/// by `delta`; `name` is used when the user is new.
pub fn apply_attempt(store: &mut ScopeStore, user_id: i64, name: String, delta: i16, now: i64)
    requires
        old(store).wf(),
    ensures
        final(store).wf(),
        final(store)@ == upsert(old(store)@, user_id, attempted(lookup(old(store)@, user_id), name@, delta, now)),
{
    let rec = match store.get(user_id) {
        Some(prev) => {
            let sum: i32 = prev.score as i32 + delta as i32;
            let score: i16 = if sum > i16::MAX as i32 {
                i16::MAX
            } else if sum < i16::MIN as i32 {
                i16::MIN
            } else {
                sum as i16
            };
            PlayerRecord { name: prev.name.clone(), score, last_attempt: now }
        },
        None => PlayerRecord { name, score: delta, last_attempt: now },
    };
    store.upsert(user_id, rec);
}

/// Saving a store after an attempt and reading the rows back gives the
/// updated store: the flat form keeps every record of a store with unique ids.
pub proof fn lemma_update_round_trip(s: Entries, user_id: i64, name: Seq<char>, delta: i16, now: i64)
    requires
        ids_unique(s),
    ensures
        ({
            let u = upsert(s, user_id, attempted(lookup(s, user_id), name, delta, now));
            from_rows(rows_of(u)) == u
        }),
{
    let r = attempted(lookup(s, user_id), name, delta, now);
    lemma_upsert(s, user_id, r);
    lemma_rows_round_trip(upsert(s, user_id, r));
}

/// What an attempt gave.
#[derive(Debug, Clone, Copy, PartialEq, Eq, Structural)]
pub enum AttemptOutcome {
    /// The score changed by `delta` to `score`, now at place `rank`.
    Played { delta: i16, score: i16, rank: usize },
    /// Too early: the score stays `score` at place `rank`, and the player may
    /// try again in `remaining_secs` seconds.
    OnCooldown { score: i16, rank: usize, remaining_secs: i128 },
}

/// One attempt of `user_id` at time `now`: when the cooldown allows, a score
/// change drawn from `table` is applied; in either case the player's place
/// is reported.
pub fn play(store: &mut ScopeStore, user_id: i64, name: String, now: i64, table: &Vec<WeightedRange>) -> (r: AttemptOutcome)
    requires
        old(store).wf(),
        valid_table(table@),
    ensures
        final(store).wf(),
        match cooldown_of(lookup(old(store)@, user_id), now) {
            Cooldown::OnCooldown { remaining_secs } => {
                &&& final(store)@ == old(store)@
                &&& r == AttemptOutcome::OnCooldown {
                    score: lookup(old(store)@, user_id).unwrap().score,
                    rank: rank_of(old(store)@, user_id) as usize,
                    remaining_secs,
                }
            },
            Cooldown::Eligible => {
                &&& r is Played
                &&& final(store)@ == upsert(
                    old(store)@,
                    user_id,
                    attempted(lookup(old(store)@, user_id), name@, r->Played_delta, now),
                )
                &&& r->Played_score == lookup(final(store)@, user_id).unwrap().score
                &&& r->Played_rank == rank_of(final(store)@, user_id)
                &&& exists|roll: int|
                    0 <= roll && (roll < total_weight(table@) || roll == 0)
                        && #[trigger] drawn_from(table@, roll, r->Played_delta)
            },
        },
{
    proof {
        lemma_position_of(store@, user_id);
    }
    let prev = store.get(user_id);
    match check(prev, now) {
        Cooldown::OnCooldown { remaining_secs } => {
            let score = prev.unwrap().score;
            let place = match rank(store, user_id) {
                Ok(n) => n,
                Err(_) => 0,
            };
            assert(cooldown_of(lookup(old(store)@, user_id), now) == (Cooldown::OnCooldown { remaining_secs }));
            AttemptOutcome::OnCooldown { score, rank: place, remaining_secs }
        },
        Cooldown::Eligible => {
            let delta = draw(table);
            apply_attempt(store, user_id, name, delta, now);
            proof {
                lemma_upsert(old(store)@, user_id, attempted(lookup(old(store)@, user_id), name@, delta, now));
                lemma_position_of(store@, user_id);
            }
            let score = store.get(user_id).unwrap().score;
            let place = match rank(store, user_id) {
                Ok(n) => n,
                Err(_) => 0,
            };
            let r = AttemptOutcome::Played { delta, score, rank: place };
            assert(cooldown_of(lookup(old(store)@, user_id), now) == Cooldown::Eligible);
            proof {
                let roll = choose|roll: int|
                    0 <= roll && (roll < total_weight(table@) || roll == 0) && #[trigger] drawn_from(table@, roll, delta);
                assert(r->Played_delta == delta);
                assert(drawn_from(table@, roll, r->Played_delta));
            }
            r
        },
    }
}

} // verus!
