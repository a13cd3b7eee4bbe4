use vstd::prelude::*;
use crate::message::IcedWryMessage;
use crate::tracker::{FrameTracker, ids_increasing};
use std::collections::BTreeSet;

verus! {

broadcast use vstd::std_specs::btree::group_btree_axioms, vstd::laws_cmp::group_laws_cmp;

/// Ticks from `last` to `now`; a render stamped after `now` counts as just now.
pub open spec fn elapsed(last: u64, now: u64) -> int {
    if now >= last {
        now - last
    } else {
        0
    }
}

/// A render at `last` is too old at `now` to keep its webview on screen.
pub open spec fn is_stale(last: u64, now: u64, persist: u64) -> bool {
    elapsed(last, now) >= persist
}

/// The webviews to hide at `now`, in the order of `records`: those whose last
/// render is stale and that are not already hidden.
pub open spec fn hide_list(
    records: Seq<(usize, u64)>,
    hidden: Set<usize>,
    now: u64,
    persist: u64,
) -> Seq<usize>
    decreases records.len(),
{
    if records.len() == 0 {
        Seq::empty()
    } else {
        let earlier = hide_list(records.drop_last(), hidden, now, persist);
        let (id, last) = records.last();
        if is_stale(last, now, persist) && !hidden.contains(id) {
            earlier.push(id)
        } else {
            earlier
        }
    }
}

/// The webviews known to be hidden after a pass at `now`: a tracked webview
/// is hidden exactly when its last render is stale, an untracked one keeps
/// its former state.
pub open spec fn next_hidden(
    hidden: Set<usize>,
    stamps: Map<usize, u64>,
    now: u64,
    persist: u64,
) -> Set<usize> {
    Set::new(
        |id: usize|
            if stamps.contains_key(id) {
                is_stale(stamps[id], now, persist)
            } else {
                hidden.contains(id)
            },
    )
}

/// The message that a pass yields: nothing when no webview is to be hidden.
pub open spec fn pass_result(to_hide: Seq<usize>, r: Option<IcedWryMessage>) -> bool {
    match r {
        Some(IcedWryMessage::HideWebviews(ids)) => (to_hide.len() > 0 && ids@ == to_hide),
        None => to_hide.len() == 0,
    }
}

/// `id` is asked to hide exactly when it is not hidden yet and one of the
/// records names it with a stale render.
proof fn lemma_hide_list_membership(
    records: Seq<(usize, u64)>,
    hidden: Set<usize>,
    now: u64,
    persist: u64,
    id: usize,
)
    ensures
        hide_list(records, hidden, now, persist).contains(id) <==> (!hidden.contains(id)
            && exists|j: int|
            0 <= j < records.len() && #[trigger] records[j].0 == id && is_stale(
                records[j].1,
                now,
                persist,
            )),
    decreases records.len(),
{
    if records.len() > 0 {
        let init = records.drop_last();
        lemma_hide_list_membership(init, hidden, now, persist, id);
        let earlier = hide_list(init, hidden, now, persist);
        let whole = hide_list(records, hidden, now, persist);
        let last = records.last();
        let n = records.len() - 1;
        assert(records[n] == last);
        assert forall|j: int| 0 <= j < n implies #[trigger] init[j] == records[j] by {}
        if is_stale(last.1, now, persist) && !hidden.contains(last.0) {
            assert(whole == earlier.push(last.0));
            if earlier.contains(id) {
                let k = choose|k: int| 0 <= k < earlier.len() && earlier[k] == id;
                assert(whole[k] == id);
            }
            if last.0 == id {
                assert(whole[earlier.len() as int] == id);
            }
            if whole.contains(id) && last.0 != id {
                let k = choose|k: int| 0 <= k < whole.len() && whole[k] == id;
                assert(earlier[k] == id);
            }
        }
        if !hidden.contains(id) && exists|j: int|
            0 <= j < records.len() && #[trigger] records[j].0 == id && is_stale(
                records[j].1,
                now,
                persist,
            ) {
            let j = choose|j: int|
                0 <= j < records.len() && #[trigger] records[j].0 == id && is_stale(
                    records[j].1,
                    now,
                    persist,
                );
            if j < n {
                assert(init[j].0 == id);
            }
        }
        if earlier.contains(id) {
            let j = choose|j: int|
                0 <= j < init.len() && #[trigger] init[j].0 == id && is_stale(
                    init[j].1,
                    now,
                    persist,
                );
            assert(records[j].0 == id);
        }
    }
}

/// A webview rendered within the persistence window is not asked to hide,
/// and it no longer counts as hidden, so that its next absence is reported.
pub proof fn lemma_recent_render_stays_visible(
    tracker: FrameTracker,
    hidden: Set<usize>,
    now: u64,
    persist: u64,
    id: usize,
)
    requires
        tracker.wf(),
        tracker@.contains_key(id),
        !is_stale(tracker@[id], now, persist),
    ensures
        !hide_list(tracker.records(), hidden, now, persist).contains(id),
        !next_hidden(hidden, tracker@, now, persist).contains(id),
{
    lemma_hide_list_membership(tracker.records(), hidden, now, persist, id);
    let records = tracker.records();
    assert forall|j: int| 0 <= j < records.len() && #[trigger] records[j].0 == id implies !is_stale(
        records[j].1,
        now,
        persist,
    ) by {
        assert(tracker@[records[j].0] == records[j].1);
    }
}

/// A webview rendered in the very frame being examined is never asked to
/// hide, as long as a render is kept on screen for some time at all.
pub proof fn lemma_rendered_in_frame_stays_visible(
    tracker: FrameTracker,
    hidden: Set<usize>,
    now: u64,
    persist: u64,
    id: usize,
)
    requires
        tracker.wf(),
        tracker@.contains_key(id),
        tracker@[id] == now,
        persist > 0,
    ensures
        !hide_list(tracker.records(), hidden, now, persist).contains(id),
{
    lemma_recent_render_stays_visible(tracker, hidden, now, persist, id);
}

/// A tracked webview whose last render has gone stale, and that is not
/// hidden already, is asked to hide in this pass and counts as hidden after it.
pub proof fn lemma_stale_render_is_reported(
    tracker: FrameTracker,
    hidden: Set<usize>,
    now: u64,
    persist: u64,
    id: usize,
)
    requires
        tracker.wf(),
        tracker@.contains_key(id),
        is_stale(tracker@[id], now, persist),
        !hidden.contains(id),
    ensures
        hide_list(tracker.records(), hidden, now, persist).contains(id),
        next_hidden(hidden, tracker@, now, persist).contains(id),
{
    lemma_hide_list_membership(tracker.records(), hidden, now, persist, id);
    let records = tracker.records();
    let j = choose|j: int| 0 <= j < records.len() && #[trigger] records[j].0 == id;
    assert(tracker@[records[j].0] == records[j].1);
}

/// A webview that counts as hidden is not asked to hide again, and it keeps
/// counting as hidden as long as it is not rendered within the persistence
/// window.
pub proof fn lemma_hidden_not_reported(
    tracker: FrameTracker,
    hidden: Set<usize>,
    now: u64,
    persist: u64,
    id: usize,
)
    requires
        tracker.wf(),
        hidden.contains(id),
        tracker@.contains_key(id) ==> is_stale(tracker@[id], now, persist),
    ensures
        !hide_list(tracker.records(), hidden, now, persist).contains(id),
        next_hidden(hidden, tracker@, now, persist).contains(id),
{
    lemma_hide_list_membership(tracker.records(), hidden, now, persist, id);
}

/// A webview asked to hide in one pass is not asked again in the next one:
/// one absence from the widget tree gives one request to hide.
pub proof fn lemma_reported_once(
    first: FrameTracker,
    second: FrameTracker,
    hidden: Set<usize>,
    now: u64,
    later: u64,
    persist: u64,
    id: usize,
)
    requires
        first.wf(),
        second.wf(),
        hide_list(first.records(), hidden, now, persist).contains(id),
    ensures
        next_hidden(hidden, first@, now, persist).contains(id),
        !hide_list(
            second.records(),
            next_hidden(hidden, first@, now, persist),
            later,
            persist,
        ).contains(id),
{
    lemma_hide_list_membership(first.records(), hidden, now, persist, id);
    let records = first.records();
    let j = choose|j: int|
        0 <= j < records.len() && #[trigger] records[j].0 == id && is_stale(
            records[j].1,
            now,
            persist,
        );
    assert(first@[records[j].0] == records[j].1);
    lemma_hide_list_membership(
        second.records(),
        next_hidden(hidden, first@, now, persist),
        later,
        persist,
        id,
    );
}

/// How many of the passes at `times`, run in order from `hidden` over an
/// unchanging `tracker`, ask webview `id` to hide.
pub open spec fn report_count(
    tracker: FrameTracker,
    hidden: Set<usize>,
    times: Seq<u64>,
    persist: u64,
    id: usize,
) -> nat
    decreases times.len(),
{
    if times.len() == 0 {
        0
    } else {
        let now = times[0];
        let here: nat = if hide_list(tracker.records(), hidden, now, persist).contains(id) {
            1
        } else {
            0
        };
        here + report_count(
            tracker,
            next_hidden(hidden, tracker@, now, persist),
            times.drop_first(),
            persist,
            id,
        )
    }
}

/// A render that is stale at one moment stays stale at every later one.
proof fn lemma_stale_stays_stale(last: u64, now: u64, later: u64, persist: u64)
    requires
        is_stale(last, now, persist),
        now <= later,
    ensures
        is_stale(last, later, persist),
{
}

/// A hidden webview that stays stale through every pass is never asked again.
proof fn lemma_hidden_never_reported(
    tracker: FrameTracker,
    hidden: Set<usize>,
    times: Seq<u64>,
    persist: u64,
    id: usize,
)
    requires
        tracker.wf(),
        tracker@.contains_key(id),
        hidden.contains(id),
        forall|i: int| 0 <= i < times.len() ==> is_stale(tracker@[id], #[trigger] times[i], persist),
    ensures
        report_count(tracker, hidden, times, persist, id) == 0,
    decreases times.len(),
{
    if times.len() > 0 {
        lemma_hidden_not_reported(tracker, hidden, times[0], persist, id);
        let rest = times.drop_first();
        assert forall|i: int| 0 <= i < rest.len() implies is_stale(
            tracker@[id],
            #[trigger] rest[i],
            persist,
        ) by {
            assert(rest[i] == times[i + 1]);
        }
        lemma_hidden_never_reported(
            tracker,
            next_hidden(hidden, tracker@, times[0], persist),
            rest,
            persist,
            id,
        );
    }
}

/// A webview that is no longer rendered is asked to hide exactly once over
/// any run of passes, in increasing time, whose last pass comes after its
/// render has gone stale.
pub proof fn lemma_absent_webview_reported_exactly_once(
    tracker: FrameTracker,
    hidden: Set<usize>,
    times: Seq<u64>,
    persist: u64,
    id: usize,
)
    requires
        tracker.wf(),
        tracker@.contains_key(id),
        !hidden.contains(id),
        forall|i: int, j: int| 0 <= i <= j < times.len() ==> times[i] <= times[j],
        times.len() > 0,
        is_stale(tracker@[id], times.last(), persist),
    ensures
        report_count(tracker, hidden, times, persist, id) == 1,
    decreases times.len(),
{
    let now = times[0];
    let rest = times.drop_first();
    let stamp = tracker@[id];
    if is_stale(stamp, now, persist) {
        lemma_stale_render_is_reported(tracker, hidden, now, persist, id);
        assert forall|i: int| 0 <= i < rest.len() implies is_stale(
            stamp,
            #[trigger] rest[i],
            persist,
        ) by {
            assert(rest[i] == times[i + 1]);
            lemma_stale_stays_stale(stamp, now, rest[i], persist);
        }
        lemma_hidden_never_reported(
            tracker,
            next_hidden(hidden, tracker@, now, persist),
            rest,
            persist,
            id,
        );
    } else {
        lemma_recent_render_stays_visible(tracker, hidden, now, persist, id);
        assert(rest.len() > 0);
        assert(rest.last() == times.last());
        assert forall|i: int, j: int| 0 <= i <= j < rest.len() implies rest[i] <= rest[j] by {
            assert(rest[i] == times[i + 1] && rest[j] == times[j + 1]);
        }
        lemma_absent_webview_reported_exactly_once(
            tracker,
            next_hidden(hidden, tracker@, now, persist),
            rest,
            persist,
            id,
        );
    }
}

/// Once per frame, finds the webviews that have dropped out of the widget
/// tree and asks for each of them to be hidden once.
pub struct VisibilityUpdater {
    id: usize,
    persist_duration: u64,
    hidden: BTreeSet<usize>,
}

impl VisibilityUpdater {
    /// Tells apart the passes of different managers.
    pub closed spec fn manager_id(&self) -> usize {
        self.id
    }

    /// How many ticks a render keeps its webview on screen.
    pub closed spec fn persist(&self) -> u64 {
        self.persist_duration
    }

    /// Webviews that were already asked to hide and not rendered since.
    pub closed spec fn hidden(&self) -> Set<usize> {
        self.hidden@
    }

    /// A pass for manager `id` that hides webviews not rendered for
    /// `persist_duration` ticks.
    pub fn new(id: usize, persist_duration: u64) -> (r: VisibilityUpdater)
        ensures
            r.manager_id() == id,
            r.persist() == persist_duration,
            r.hidden() == Set::<usize>::empty(),
    {
        VisibilityUpdater { id, persist_duration, hidden: BTreeSet::new() }
    }

    /// The identifier of the manager that this pass serves.
    pub fn id(&self) -> (r: usize)
        ensures
            r == self.manager_id(),
    {
        self.id
    }

    /// How many ticks a render keeps its webview on screen.
    pub fn persist_duration(&self) -> (r: u64)
        ensures
            r == self.persist(),
    {
        self.persist_duration
    }

    /// The pass run when a frame is drawn at tick `now`: yields the
    /// webviews of `tracker` to hide, if there are any, and remembers them so
    /// that each is asked only once until it is rendered again.
    pub fn on_redraw(&mut self, tracker: &FrameTracker, now: u64) -> (r: Option<IcedWryMessage>)
        requires
            tracker.wf(),
        ensures
            final(self).manager_id() == old(self).manager_id(),
            final(self).persist() == old(self).persist(),
            final(self).hidden() == next_hidden(
                old(self).hidden(),
                tracker@,
                now,
                old(self).persist(),
            ),
            pass_result(
                hide_list(tracker.records(), old(self).hidden(), now, old(self).persist()),
                r,
            ),
    {
        let ghost h0 = self.hidden@;
        let ghost id0 = self.id;
        let persist = self.persist_duration;
        let ghost records = tracker.records();
        let n = tracker.len();
        let mut expired: Vec<usize> = Vec::new();
        let mut i: usize = 0;
        while i < n
            invariant
                tracker.wf(),
                records == tracker.records(),
                n == records.len(),
                i <= n,
                persist == self.persist_duration,
                id0 == self.id,
                expired@ == hide_list(records.take(i as int), h0, now, persist),
                forall|j: int|
                    0 <= j < i ==> (self.hidden@.contains(#[trigger] records[j].0) == is_stale(
                        records[j].1,
                        now,
                        persist,
                    )),
                forall|k: usize|
                    (forall|j: int| 0 <= j < i ==> records[j].0 != k) ==> (
                    #[trigger] self.hidden@.contains(k) == h0.contains(k)),
            decreases n - i,
        {
            let (id, last) = tracker.record_at(i);
            proof {
                assert forall|j: int| 0 <= j < i implies records[j].0 != id by {
                    assert(records[j].0 < records[i as int].0);
                }
                assert(records.take(i + 1).drop_last() =~= records.take(i as int));
                assert(records.take(i + 1).last() == records[i as int]);
            }
            let ghost h = self.hidden@;
            let waited: u64 = if now >= last {
                now - last
            } else {
                0
            };
            if waited >= persist {
                if !self.hidden.contains(&id) {
                    expired.push(id);
                    self.hidden.insert(id);
                }
            } else {
                self.hidden.remove(&id);
            }
            proof {
                assert forall|j: int| 0 <= j < i implies (self.hidden@.contains(
                    #[trigger] records[j].0,
                ) == is_stale(records[j].1, now, persist)) by {
                    assert(records[j].0 < records[i as int].0);
                    assert(h.contains(records[j].0) == is_stale(records[j].1, now, persist));
                }
                assert forall|k: usize|
                    (forall|j: int| 0 <= j < i + 1 ==> records[j].0 != k) implies (
                    #[trigger] self.hidden@.contains(k) == h0.contains(k)) by {
                    assert(records[i as int].0 != k);
                    assert(h.contains(k) == h0.contains(k));
                }
            }
            i += 1;
        }
        proof {
            assert(records.take(n as int) =~= records);
            let nh = next_hidden(h0, tracker@, now, persist);
            assert forall|k: usize| #[trigger] self.hidden@.contains(k) == nh.contains(k) by {
                if tracker@.contains_key(k) {
                    let j = choose|j: int| 0 <= j < records.len() && #[trigger] records[j].0 == k;
                    assert(self.hidden@.contains(records[j].0) == is_stale(
                        records[j].1,
                        now,
                        persist,
                    ));
                } else {
                    assert forall|j: int| 0 <= j < n implies records[j].0 != k by {
                        assert(tracker@.contains_key(records[j].0));
                    }
                }
            }
            assert(self.hidden@ =~= nh);
        }
        if expired.len() == 0 {
            None
        } else {
            Some(IcedWryMessage::HideWebviews(expired))
        }
    }
}

} // verus!
