//! The render cache of a progress column: what a column rendered for each
//! task, and when, reused within the column's refresh period while the task
//! has completed nothing.

use std::collections::HashMap;
use vstd::prelude::*;

verus! {

broadcast use vstd::std_specs::hash::group_hash_axioms;

/// A column's last render per task id, with the time it was made.
pub struct RenderCache<R> {
    entries: HashMap<i64, (i64, R)>,
}

/// Whether a column reuses its cached render of task `id` at `now`: only
/// with a refresh period, for a task that has completed nothing, and while
/// the render is younger than the period.
pub open spec fn reuses<R>(m: Map<i64, (i64, R)>, id: i64, completed: i64, max_refresh: Option<i64>, now: i64) -> bool {
    &&& max_refresh is Some
    &&& completed == 0
    &&& m.contains_key(id)
    &&& m[id].0 + max_refresh.unwrap() > now
}

impl<R> View for RenderCache<R> {
    type V = Map<i64, (i64, R)>;

    closed spec fn view(&self) -> Map<i64, (i64, R)> {
        self.entries@
    }
}

impl<R> RenderCache<R> {
    /// An empty cache.
    pub fn new() -> (c: RenderCache<R>)
        ensures
            c@ == Map::<i64, (i64, R)>::empty(),
    {
        RenderCache { entries: HashMap::new() }
    }

    /// The cached render of task `id` when the column reuses it at `now`
    /// (see [`reuses`]); else none, and the column renders anew.
    pub fn cached(&self, id: i64, completed: i64, max_refresh: Option<i64>, now: i64) -> (r: Option<&R>)
        ensures
            r is Some <==> reuses(self@, id, completed, max_refresh, now),
            r matches Some(v) ==> *v == self@[id].1,
    {
        let period = match max_refresh {
            None => return None,
            Some(p) => p,
        };
        if completed != 0 {
            return None;
        }
        match self.entries.get(&id) {
            None => None,
            Some(entry) => {
                if (entry.0 as i128) + (period as i128) > now as i128 {
                    Some(&entry.1)
                } else {
                    None
                }
            },
        }
    }

    /// Remember `render` as task `id`'s render made at `now`.
    pub fn store(&mut self, id: i64, now: i64, render: R)
        ensures
            final(self)@ == old(self)@.insert(id, (now, render)),
    {
        self.entries.insert(id, (now, render));
    }
}

/// A render stored at `now` is reused at any time within the period after
/// it while the task has completed nothing, and never once the period has
/// passed.
pub proof fn law_stored_render_reused_within_period<R>(
    m: Map<i64, (i64, R)>,
    id: i64,
    now: i64,
    render: R,
    period: i64,
    later: i64,
)
    ensures
        reuses(m.insert(id, (now, render)), id, 0, Some(period), later) <==> now + period > later,
        reuses(m.insert(id, (now, render)), id, 0, Some(period), later) ==> m.insert(id, (now, render))[id].1 == render,
{
}

} // verus!
