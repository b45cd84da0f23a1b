use vstd::prelude::*;

verus! {

/// How long the reaper sleeps between sweeps, in milliseconds: until the
/// earliest pending deadline (not at all when it has passed), but never
/// more than one tick; one tick when nothing is pending.
pub open spec fn reaper_sleep(next_deadline: Option<u64>, now: u64, tick_ms: u64) -> int {
    match next_deadline {
        Some(d) => if d <= now {
            0
        } else if d - now < tick_ms {
            d - now
        } else {
            tick_ms as int
        },
        None => tick_ms as int,
    }
}

pub fn reaper_sleep_ms(next_deadline: Option<u64>, now: u64, tick_ms: u64) -> (r: u64)
    ensures
        r == reaper_sleep(next_deadline, now, tick_ms),
{
    match next_deadline {
        Some(d) => {
            let left = if d <= now {
                0
            } else {
                d - now
            };
            if left < tick_ms {
                left
            } else {
                tick_ms
            }
        },
        None => tick_ms,
    }
}

} // verus!
