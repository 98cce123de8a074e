use vstd::prelude::*;
use crate::record::PlayerRecord;

verus! {

/// Seconds that must pass between two successful attempts of one player.
pub const COOLDOWN_SECS: i64 = 86400;

/// Whether a player may play now.
#[derive(Debug, Clone, Copy, PartialEq, Eq, Structural)]
pub enum Cooldown {
    Eligible,
    /// Not yet: this many seconds remain, always more than zero.
    OnCooldown { remaining_secs: i128 },
}

/// The state of a player whose last successful attempt was at `last`.
pub open spec fn cooldown_after(last: i64, now: i64) -> Cooldown {
    let elapsed = now as int - last as int;
    if elapsed >= COOLDOWN_SECS as int {
        Cooldown::Eligible
    } else {
        Cooldown::OnCooldown { remaining_secs: (COOLDOWN_SECS as int - elapsed) as i128 }
    }
}

/// Decides whether a player, with `record` if they have played before, may
/// play at time `now`, and if not how long is left of the rolling window.
pub fn check(record: Option<&PlayerRecord>, now: i64) -> (c: Cooldown)
    ensures
        c == match record {
            None => Cooldown::Eligible,
            Some(r) => cooldown_after(r.last_attempt, now),
        },
{
    match record {
        None => Cooldown::Eligible,
        Some(r) => {
            let elapsed: i128 = now as i128 - r.last_attempt as i128;
            if elapsed >= COOLDOWN_SECS as i128 {
                Cooldown::Eligible
            } else {
                Cooldown::OnCooldown { remaining_secs: COOLDOWN_SECS as i128 - elapsed }
            }
        },
    }
}

/// A remaining time as whole hours and the whole minutes left over.
pub fn hours_minutes(remaining_secs: i128) -> (r: (i128, i128))
    requires
        remaining_secs >= 0,
    ensures
        r.0 == remaining_secs / 3600,
        r.1 == (remaining_secs / 60) % 60,
        0 <= r.1 < 60,
{
    (remaining_secs / 3600, (remaining_secs / 60) % 60)
}

/// Right after an attempt the whole window remains; once the window has
/// passed the player may play again.
pub proof fn lemma_cooldown_window(now: i64)
    ensures
        cooldown_after(now, now) == (Cooldown::OnCooldown { remaining_secs: COOLDOWN_SECS as i128 }),
        now as int - COOLDOWN_SECS as int >= i64::MIN ==> cooldown_after(
            (now - COOLDOWN_SECS) as i64,
            now,
        ) == Cooldown::Eligible,
{
}

} // verus!
