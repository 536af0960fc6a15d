//! The registry of active waits, which lets overlapping waits see each other.

use vstd::prelude::*;
use crate::models::{ActiveWaitInfo, ScopeView, WaitOverlap, WaitScope};
use crate::clock::{add_seconds, later_by, now_micros, remaining_seconds, seconds_left};
use crate::text::str_eq;

verus! {

/// Whether two wait scopes overlap: the same session, or a session against
/// "any new session". Two "any new session" waits do not overlap (that is
/// how several agents normally start up).
pub open spec fn overlap_spec(a: ScopeView, b: ScopeView) -> bool {
    match (a, b) {
        (ScopeView::AnyNewSession, ScopeView::AnyNewSession) => false,
        (ScopeView::Session(x), ScopeView::Session(y)) => x == y,
        _ => true,
    }
}

/// Returns true when two wait scopes overlap: the same session, or either
/// is "any new session" while the other is not.
pub fn scopes_overlap(a: &WaitScope, b: &WaitScope) -> (r: bool)
    ensures
        r == overlap_spec(a@, b@),
{
    match (a, b) {
        (WaitScope::AnyNewSession, WaitScope::AnyNewSession) => false,
        (WaitScope::Session(x), WaitScope::Session(y)) => str_eq(x.as_str(), y.as_str()),
        _ => true,
    }
}

/// Overlap does not depend on the order of the two scopes.
pub proof fn lemma_overlap_symmetric(a: ScopeView, b: ScopeView)
    ensures
        overlap_spec(a, b) == overlap_spec(b, a),
{
}

/// An entry of the registry.
#[derive(Debug, Clone)]
pub struct ActiveWait {
    pub id: u64,
    pub scope: WaitScope,
    pub identity: String,
    pub since: i64,
    pub deadline: i64,
}

/// The mathematical value of a registry entry.
pub struct WaitView {
    pub id: u64,
    pub scope: ScopeView,
    pub identity: Seq<char>,
    pub since: i64,
    pub deadline: i64,
}

impl View for ActiveWait {
    type V = WaitView;

    open spec fn view(&self) -> WaitView {
        WaitView {
            id: self.id,
            scope: self.scope@,
            identity: self.identity@,
            since: self.since,
            deadline: self.deadline,
        }
    }
}

/// The views of a sequence of entries.
pub open spec fn waits_view(s: Seq<ActiveWait>) -> Seq<WaitView> {
    Seq::new(s.len(), |i: int| s[i]@)
}

/// The entries whose deadline is still ahead of `now`, in order.
pub open spec fn live(s: Seq<WaitView>, now: i64) -> Seq<WaitView>
    decreases s.len(),
{
    if s.len() == 0 {
        Seq::empty()
    } else if s.last().deadline > now {
        live(s.drop_last(), now).push(s.last())
    } else {
        live(s.drop_last(), now)
    }
}

/// The entries other than the one with id `id`, in order.
pub open spec fn without(s: Seq<WaitView>, id: u64) -> Seq<WaitView>
    decreases s.len(),
{
    if s.len() == 0 {
        Seq::empty()
    } else if s.last().id != id {
        without(s.drop_last(), id).push(s.last())
    } else {
        without(s.drop_last(), id)
    }
}

/// The mathematical value of a status line for an entry.
pub struct WaitInfoView {
    pub identity: Seq<char>,
    pub scope: ScopeView,
    pub since: i64,
    pub deadline: i64,
    pub remaining_secs: int,
}

/// The mathematical value of an overlap report.
pub struct OverlapView {
    pub identity: Seq<char>,
    pub scope: ScopeView,
    pub remaining_secs: int,
}

/// The status line of an entry at time `now`.
pub open spec fn info_of(w: WaitView, now: i64) -> WaitInfoView {
    WaitInfoView {
        identity: w.identity,
        scope: w.scope,
        since: w.since,
        deadline: w.deadline,
        remaining_secs: remaining_seconds(w.deadline, now),
    }
}

/// The views of status lines.
pub open spec fn infos_view(s: Seq<ActiveWaitInfo>) -> Seq<WaitInfoView> {
    Seq::new(s.len(), |i: int| WaitInfoView {
        identity: s[i].identity@,
        scope: s[i].scope@,
        since: s[i].since,
        deadline: s[i].deadline,
        remaining_secs: s[i].remaining_secs as int,
    })
}

/// The views of overlap reports.
pub open spec fn overlaps_view(s: Seq<WaitOverlap>) -> Seq<OverlapView> {
    Seq::new(s.len(), |i: int| OverlapView {
        identity: s[i].identity@,
        scope: s[i].scope@,
        remaining_secs: s[i].remaining_secs as int,
    })
}

/// The overlap reports, at time `now`, of the entries that overlap `scope`.
pub open spec fn overlaps_of(s: Seq<WaitView>, scope: ScopeView, now: i64) -> Seq<OverlapView>
    decreases s.len(),
{
    if s.len() == 0 {
        Seq::empty()
    } else if overlap_spec(s.last().scope, scope) {
        overlaps_of(s.drop_last(), scope, now).push(OverlapView {
            identity: s.last().identity,
            scope: s.last().scope,
            remaining_secs: remaining_seconds(s.last().deadline, now),
        })
    } else {
        overlaps_of(s.drop_last(), scope, now)
    }
}

/// Whether two scopes are the same.
pub fn scope_eq(a: &WaitScope, b: &WaitScope) -> (r: bool)
    ensures
        r == (a@ == b@),
{
    match (a, b) {
        (WaitScope::Session(x), WaitScope::Session(y)) => str_eq(x.as_str(), y.as_str()),
        (WaitScope::AnyNewSession, WaitScope::AnyNewSession) => true,
        _ => false,
    }
}

/// Tracks active waits so that overlapping waits can be reported.
#[derive(Debug)]
pub struct WaitRegistry {
    waits: Vec<ActiveWait>,
    next_id: u64,
}

/// The mathematical value of the registry.
pub struct RegistryView {
    pub waits: Seq<WaitView>,
    pub next_id: u64,
}

impl View for WaitRegistry {
    type V = RegistryView;

    closed spec fn view(&self) -> RegistryView {
        RegistryView { waits: waits_view(self.waits@), next_id: self.next_id }
    }
}

impl WaitRegistry {
    /// An empty registry; the first wait gets id 0.
    pub fn new() -> (r: WaitRegistry)
        ensures
            r@.waits == Seq::<WaitView>::empty(),
            r@.next_id == 0,
    {
        let r = WaitRegistry { waits: Vec::new(), next_id: 0 };
        assert(r@.waits =~= Seq::<WaitView>::empty());
        r
    }

    /// Whether another wait can still get an id.
    pub fn has_room(&self) -> (r: bool)
        ensures
            r == (self@.next_id < u64::MAX),
    {
        self.next_id < u64::MAX
    }

    /// Drops the entries whose deadline is not ahead of `now`.
    pub fn prune_at(&mut self, now: i64)
        ensures
            final(self)@.waits == live(old(self)@.waits, now),
            final(self)@.next_id == old(self)@.next_id,
    {
        let mut kept: Vec<ActiveWait> = Vec::new();
        let mut i: usize = 0;
        let ghost ws = waits_view(self.waits@);
        assert(ws.take(0) =~= Seq::<WaitView>::empty());
        assert(waits_view(kept@) =~= Seq::<WaitView>::empty());
        while i < self.waits.len()
            invariant
                ws == waits_view(self.waits@),
                0 <= i <= self.waits@.len(),
                waits_view(kept@) == live(ws.take(i as int), now),
            decreases self.waits.len() - i,
        {
            assert(ws.take(i + 1).drop_last() =~= ws.take(i as int));
            assert(ws.take(i + 1).last() == self.waits@[i as int]@);
            if self.waits[i].deadline > now {
                let ghost before = kept@;
                kept.push(self.waits[i].clone_entry());
                assert(waits_view(kept@) =~= waits_view(before).push(self.waits@[i as int]@));
            }
            i += 1;
        }
        assert(ws.take(ws.len() as int) =~= ws);
        self.waits = kept;
    }

    /// Drops the expired entries and lists the others, as of `now`.
    pub fn list_at(&mut self, now: i64) -> (r: Vec<ActiveWaitInfo>)
        ensures
            final(self)@.waits == live(old(self)@.waits, now),
            final(self)@.next_id == old(self)@.next_id,
            infos_view(r@) == live(old(self)@.waits, now).map_values(|w: WaitView| info_of(w, now)),
    {
        self.prune_at(now);
        let mut out: Vec<ActiveWaitInfo> = Vec::new();
        let mut i: usize = 0;
        while i < self.waits.len()
            invariant
                0 <= i <= self.waits@.len(),
                out@.len() == i,
                forall|j: int| 0 <= j < i ==> #[trigger] infos_view(out@)[j] == info_of(self.waits@[j]@, now),
            decreases self.waits.len() - i,
        {
            let w = &self.waits[i];
            let info = ActiveWaitInfo {
                identity: w.identity.clone(),
                scope: w.scope.copy(),
                since: w.since,
                deadline: w.deadline,
                remaining_secs: seconds_left(w.deadline, now),
            };
            let ghost before = out@;
            out.push(info);
            assert forall|j: int| 0 <= j < i + 1 implies #[trigger] infos_view(out@)[j] == info_of(self.waits@[j]@, now) by {
                if j < i {
                    assert(infos_view(out@)[j] == infos_view(before)[j]);
                }
            }
            i += 1;
        }
        assert(infos_view(out@) =~= waits_view(self.waits@).map_values(|w: WaitView| info_of(w, now)));
        out
    }

    /// Drops the expired entries and lists the others, as of the current time.
    pub fn list(&mut self) -> (r: Vec<ActiveWaitInfo>)
        ensures
            exists|now: i64| {
                &&& final(self)@.waits == live(old(self)@.waits, now)
                &&& infos_view(r@) == live(old(self)@.waits, now).map_values(|w: WaitView| info_of(w, now))
            },
            final(self)@.next_id == old(self)@.next_id,
    {
        let now = now_micros();
        self.list_at(now)
    }

    /// Removes the entry with id `id`.
    pub fn unregister(&mut self, id: u64)
        ensures
            final(self)@.waits == without(old(self)@.waits, id),
            final(self)@.next_id == old(self)@.next_id,
    {
        let mut kept: Vec<ActiveWait> = Vec::new();
        let mut i: usize = 0;
        let ghost ws = waits_view(self.waits@);
        assert(ws.take(0) =~= Seq::<WaitView>::empty());
        assert(waits_view(kept@) =~= Seq::<WaitView>::empty());
        while i < self.waits.len()
            invariant
                ws == waits_view(self.waits@),
                0 <= i <= self.waits@.len(),
                waits_view(kept@) == without(ws.take(i as int), id),
            decreases self.waits.len() - i,
        {
            assert(ws.take(i + 1).drop_last() =~= ws.take(i as int));
            assert(ws.take(i + 1).last() == self.waits@[i as int]@);
            if self.waits[i].id != id {
                let ghost before = kept@;
                kept.push(self.waits[i].clone_entry());
                assert(waits_view(kept@) =~= waits_view(before).push(self.waits@[i as int]@));
            }
            i += 1;
        }
        assert(ws.take(ws.len() as int) =~= ws);
        self.waits = kept;
    }

    /// Registers a wait on `scope` by `identity` lasting `timeout_secs` from
    /// `now` (the deadline is held at the latest representable time). Expired
    /// entries are dropped first; the result is the new wait's id and the
    /// overlapping waits found at registration.
    pub fn register_at(&mut self, scope: WaitScope, identity: String, timeout_secs: u64, now: i64) -> (r: (u64, Vec<WaitOverlap>))
        requires
            old(self)@.next_id < u64::MAX,
        ensures
            r.0 == old(self)@.next_id,
            final(self)@.next_id == old(self)@.next_id + 1,
            overlaps_view(r.1@) == overlaps_of(live(old(self)@.waits, now), scope@, now),
            final(self)@.waits == live(old(self)@.waits, now).push(WaitView {
                id: old(self)@.next_id,
                scope: scope@,
                identity: identity@,
                since: now,
                deadline: later_by(now, timeout_secs),
            }),
    {
        self.prune_at(now);
        let id = self.next_id;
        self.next_id = self.next_id + 1;
        let mut overlaps: Vec<WaitOverlap> = Vec::new();
        let mut i: usize = 0;
        let ghost ws = waits_view(self.waits@);
        assert(ws.take(0) =~= Seq::<WaitView>::empty());
        assert(overlaps_view(overlaps@) =~= Seq::<OverlapView>::empty());
        while i < self.waits.len()
            invariant
                ws == waits_view(self.waits@),
                0 <= i <= self.waits@.len(),
                overlaps_view(overlaps@) == overlaps_of(ws.take(i as int), scope@, now),
            decreases self.waits.len() - i,
        {
            assert(ws.take(i + 1).drop_last() =~= ws.take(i as int));
            assert(ws.take(i + 1).last() == self.waits@[i as int]@);
            let w = &self.waits[i];
            if scopes_overlap(&w.scope, &scope) {
                let o = WaitOverlap {
                    identity: w.identity.clone(),
                    scope: w.scope.copy(),
                    remaining_secs: seconds_left(w.deadline, now),
                };
                let ghost before = overlaps@;
                overlaps.push(o);
                assert(overlaps_view(overlaps@) =~= overlaps_view(before).push(OverlapView {
                    identity: w.identity@,
                    scope: w.scope@,
                    remaining_secs: remaining_seconds(w.deadline, now),
                }));
            }
            i += 1;
        }
        assert(ws.take(ws.len() as int) =~= ws);
        let deadline = add_seconds(now, timeout_secs);
        let ghost before = self.waits@;
        self.waits.push(ActiveWait { id, scope, identity, since: now, deadline });
        assert(waits_view(self.waits@) =~= waits_view(before).push(self.waits@[before.len() as int]@));
        (id, overlaps)
    }
}

impl ActiveWait {
    /// A copy of this entry.
    pub fn clone_entry(&self) -> (r: ActiveWait)
        ensures
            r@ == self@,
    {
        ActiveWait {
            id: self.id,
            scope: self.scope.copy(),
            identity: self.identity.clone(),
            since: self.since,
            deadline: self.deadline,
        }
    }
}

} // verus!
