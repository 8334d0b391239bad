//! The cue scheduler: walks each channel group's event list against the live
//! position clock and says which actuations to fire, exactly once per event.
//!
//! The scheduler itself is a state machine over the groups' cursors; the
//! thread that hosts it, the sleep between ticks and the hardware calls live
//! with the caller.  A tick yields the actuation requests in order; a reset
//! rewinds every cursor and asks for an all-off sweep first, so no light
//! stays on across a seek to the start.

use vstd::prelude::*;

use crate::cue::ChannelData;
use crate::cue::ChannelDataView;
use crate::cue::LightData;
use crate::cue::LightType;
use crate::cue::views_of;

verus! {

/// One request toward the actuator.
#[derive(Clone, Copy, PartialEq, Eq, Structural, Debug)]
pub enum SchedulerAction {
    /// Set every channel of the system to off.
    AllOff,
    /// Set one channel to the given status.
    SetChannel(i8, LightType),
}

/// An event is due once the clock has reached its timestamp.
pub open spec fn ts_due(ts: i32, pos_ms: u64) -> bool {
    ts as int <= pos_ms as int
}

/// The cursor after firing every due event from `from` on.
pub open spec fn next_cursor(data: Seq<LightData>, from: int, pos_ms: u64) -> int
    decreases data.len() - from,
{
    if 0 <= from && from < data.len() && ts_due(data[from].timestamp, pos_ms) {
        next_cursor(data, from + 1, pos_ms)
    } else {
        from
    }
}

/// One event's actuations: the group's channels in order, at the event's
/// status.
pub open spec fn sets_for(channels: Seq<i8>, lt: LightType) -> Seq<SchedulerAction> {
    channels.map_values(|c: i8| SchedulerAction::SetChannel(c, lt))
}

/// The actuations of the events in `[from, to)`, in event order.
pub open spec fn fires_range(
    channels: Seq<i8>,
    data: Seq<LightData>,
    from: int,
    to: int,
) -> Seq<SchedulerAction>
    decreases to - from,
{
    if from < to && 0 <= from && to <= data.len() {
        sets_for(channels, data[from].light_type) + fires_range(channels, data, from + 1, to)
    } else {
        Seq::empty()
    }
}

/// What one group fires at clock `pos_ms`: everything due from its cursor.
pub open spec fn group_fires(g: ChannelDataView, pos_ms: u64) -> Seq<SchedulerAction> {
    fires_range(g.channels, g.data, g.index, next_cursor(g.data, g.index, pos_ms))
}

/// The group with its cursor advanced past everything due.
pub open spec fn advance_group(g: ChannelDataView, pos_ms: u64) -> ChannelDataView {
    ChannelDataView {
        channels: g.channels,
        data: g.data,
        index: next_cursor(g.data, g.index, pos_ms),
    }
}

/// The group with its cursor rewound to the start.
pub open spec fn reset_group(g: ChannelDataView) -> ChannelDataView {
    ChannelDataView { channels: g.channels, data: g.data, index: 0 }
}

/// What a whole tick fires: each group's due events, in group order.
pub open spec fn tick_fires(groups: Seq<ChannelDataView>, pos_ms: u64) -> Seq<SchedulerAction>
    decreases groups.len(),
{
    if groups.len() == 0 {
        Seq::empty()
    } else {
        group_fires(groups[0], pos_ms) + tick_fires(groups.drop_first(), pos_ms)
    }
}

pub open spec fn tick_groups(groups: Seq<ChannelDataView>, pos_ms: u64) -> Seq<
    ChannelDataView,
> {
    groups.map_values(|g: ChannelDataView| advance_group(g, pos_ms))
}

pub open spec fn reset_all(groups: Seq<ChannelDataView>) -> Seq<ChannelDataView> {
    groups.map_values(|g: ChannelDataView| reset_group(g))
}

proof fn lemma_next_cursor_bounds(data: Seq<LightData>, from: int, pos_ms: u64)
    requires
        0 <= from <= data.len(),
    ensures
        from <= next_cursor(data, from, pos_ms) <= data.len(),
    decreases data.len() - from,
{
    if from < data.len() && ts_due(data[from].timestamp, pos_ms) {
        lemma_next_cursor_bounds(data, from + 1, pos_ms);
    }
}

proof fn lemma_fires_range_snoc(channels: Seq<i8>, data: Seq<LightData>, from: int, to: int)
    requires
        0 <= from <= to < data.len(),
    ensures
        fires_range(channels, data, from, to + 1) == fires_range(channels, data, from, to)
            + sets_for(channels, data[to].light_type),
    decreases to - from,
{
    if from == to {
        assert(fires_range(channels, data, from, to) =~= Seq::<SchedulerAction>::empty());
        assert(fires_range(channels, data, from, to + 1) =~= sets_for(
            channels,
            data[to].light_type,
        ) + fires_range(channels, data, from + 1, to + 1));
        assert(fires_range(channels, data, from + 1, to + 1) =~= Seq::<
            SchedulerAction,
        >::empty());
        assert(fires_range(channels, data, from, to + 1) =~= fires_range(
            channels,
            data,
            from,
            to,
        ) + sets_for(channels, data[to].light_type));
    } else {
        lemma_fires_range_snoc(channels, data, from + 1, to);
        assert(fires_range(channels, data, from, to + 1) =~= fires_range(
            channels,
            data,
            from,
            to,
        ) + sets_for(channels, data[to].light_type));
    }
}

proof fn lemma_tick_fires_snoc(groups: Seq<ChannelDataView>, g: ChannelDataView, pos_ms: u64)
    ensures
        tick_fires(groups.push(g), pos_ms) == tick_fires(groups, pos_ms) + group_fires(
            g,
            pos_ms,
        ),
    decreases groups.len(),
{
    if groups.len() == 0 {
        let p = groups.push(g);
        assert(p.len() == 1);
        assert(p[0] == g);
        assert(p.drop_first() =~= Seq::<ChannelDataView>::empty());
        assert(tick_fires(p, pos_ms) == group_fires(p[0], pos_ms) + tick_fires(
            p.drop_first(),
            pos_ms,
        ));
        assert(tick_fires(p.drop_first(), pos_ms) =~= Seq::<SchedulerAction>::empty());
        assert(tick_fires(groups, pos_ms) =~= Seq::<SchedulerAction>::empty());
        assert(tick_fires(p, pos_ms) =~= tick_fires(groups, pos_ms) + group_fires(g, pos_ms));
    } else {
        assert(groups.push(g).drop_first() =~= groups.drop_first().push(g));
        assert(groups.push(g)[0] == groups[0]);
        lemma_tick_fires_snoc(groups.drop_first(), g, pos_ms);
        assert(tick_fires(groups.push(g), pos_ms) =~= tick_fires(groups, pos_ms) + group_fires(
            g,
            pos_ms,
        ));
    }
}

/// The scheduler for one prepared track: its channel groups and their
/// cursors.
pub struct LightScheduler {
    pub groups: Vec<ChannelData>,
}

impl View for LightScheduler {
    type V = Seq<ChannelDataView>;

    open spec fn view(&self) -> Seq<ChannelDataView> {
        views_of(self.groups@)
    }
}

impl LightScheduler {
    /// Every group well-formed: events sorted, cursor inside the list.
    pub open spec fn wf(self) -> bool {
        forall|i: int| 0 <= i < self@.len() ==> (#[trigger] self@[i]).wf()
    }

    /// Arms a scheduler for a loaded cue set.  An empty cue set arms
    /// nothing: a track without cues never enters the armed state.
    pub fn arm(groups: Vec<ChannelData>) -> (r: Option<LightScheduler>)
        requires
            forall|i: int| 0 <= i < groups@.len() ==> (#[trigger] groups@[i]@).wf(),
        ensures
            r is Some <==> groups@.len() > 0,
            r matches Some(s) ==> s@ == views_of(groups@) && s.wf(),
    {
        if groups.len() == 0 {
            None
        } else {
            let s = LightScheduler { groups };
            proof {
                assert forall|i: int| 0 <= i < s@.len() implies (#[trigger] s@[i]).wf() by {
                    assert(s@[i] == s.groups@[i]@);
                }
            }
            Some(s)
        }
    }

    /// Rewinds every group's cursor to the start.
    fn rewind(&mut self)
        ensures
            final(self)@ == reset_all(old(self)@),
    {
        let n = self.groups.len();
        let mut gi: usize = 0;
        while gi < n
            invariant
                gi <= n,
                n == self.groups@.len(),
                self.groups@.len() == old(self).groups@.len(),
                forall|q: int| gi <= q < n ==> self.groups@[q] == old(self).groups@[q],
                forall|q: int|
                    0 <= q < gi ==> (#[trigger] self.groups@[q])@ == reset_group(
                        old(self).groups@[q]@,
                    ),
            decreases n - gi,
        {
            let g = &mut self.groups[gi];
            g.index = 0;
            gi = gi + 1;
        }
        proof {
            assert(self@ =~= reset_all(old(self)@));
        }
    }

    /// Fires everything due at clock `pos_ms`, advancing each group's
    /// cursor past what it fired; a group with nothing left is skipped.
    fn fire_due(&mut self, pos_ms: u64) -> (acts: Vec<SchedulerAction>)
        requires
            old(self).wf(),
        ensures
            final(self).wf(),
            acts@ == tick_fires(old(self)@, pos_ms),
            final(self)@ == tick_groups(old(self)@, pos_ms),
    {
        let mut acts: Vec<SchedulerAction> = Vec::new();
        let n = self.groups.len();
        let ghost start = old(self)@;
        let mut gi: usize = 0;
        proof {
            assert(start.subrange(0, 0) =~= Seq::<ChannelDataView>::empty());
        }
        while gi < n
            invariant
                gi <= n,
                n == self.groups@.len(),
                start.len() == n,
                start == views_of(old(self).groups@),
                old(self).wf(),
                forall|q: int| 0 <= q < n ==> start[q] == old(self).groups@[q]@,
                forall|q: int| gi <= q < n ==> self.groups@[q] == old(self).groups@[q],
                forall|q: int|
                    0 <= q < gi ==> (#[trigger] self.groups@[q])@ == advance_group(
                        start[q],
                        pos_ms,
                    ),
                acts@ == tick_fires(start.subrange(0, gi as int), pos_ms),
            decreases n - gi,
        {
            let ghost g0 = start[gi as int];
            proof {
                assert(g0 == old(self)@[gi as int]);
                assert(old(self)@[gi as int].wf());
                lemma_next_cursor_bounds(g0.data, g0.index, pos_ms);
            }
            let ghost base = acts@;
            let dlen = self.groups[gi].data.len();
            let clen = self.groups[gi].channels.len();
            let mut cur = self.groups[gi].index;
            while cur < dlen && (self.groups[gi].data[cur].timestamp <= 0 || self.groups[gi].data[cur].timestamp as u64 <= pos_ms)
                invariant
                    gi < n,
                    n == self.groups@.len(),
                    self.groups@[gi as int]@ == g0,
                    g0.index <= cur <= dlen,
                    dlen == g0.data.len(),
                    clen == g0.channels.len(),
                    forall|q: int| gi <= q < n ==> self.groups@[q] == old(self).groups@[q],
                    next_cursor(g0.data, cur as int, pos_ms) == next_cursor(
                        g0.data,
                        g0.index,
                        pos_ms,
                    ),
                    acts@ == base + fires_range(g0.channels, g0.data, g0.index, cur as int),
                ensures
                    gi < n,
                    cur as int == next_cursor(g0.data, g0.index, pos_ms),
                    forall|q: int| gi <= q < n ==> self.groups@[q] == old(self).groups@[q],
                    acts@ == base + fires_range(g0.channels, g0.data, g0.index, cur as int),
                decreases dlen - cur,
            {
                let lt = self.groups[gi].data[cur].light_type;
                let ghost acts_mid = acts@;
                let mut ci: usize = 0;
                while ci < clen
                    invariant
                        ci <= clen,
                        gi < n,
                        n == self.groups@.len(),
                        self.groups@[gi as int]@ == g0,
                        clen == g0.channels.len(),
                        cur < g0.data.len(),
                        lt == g0.data[cur as int].light_type,
                        forall|q: int| gi <= q < n ==> self.groups@[q] == old(self).groups@[q],
                        acts@ == acts_mid + sets_for(g0.channels, lt).subrange(0, ci as int),
                    decreases clen - ci,
                {
                    let c = self.groups[gi].channels[ci];
                    acts.push(SchedulerAction::SetChannel(c, lt));
                    proof {
                        assert(sets_for(g0.channels, lt).subrange(0, ci + 1) =~= sets_for(
                            g0.channels,
                            lt,
                        ).subrange(0, ci as int).push(SchedulerAction::SetChannel(c, lt)));
                        assert(acts@ =~= acts_mid + sets_for(g0.channels, lt).subrange(
                            0,
                            ci + 1,
                        ));
                    }
                    ci = ci + 1;
                }
                proof {
                    assert(sets_for(g0.channels, lt).subrange(0, clen as int) =~= sets_for(
                        g0.channels,
                        lt,
                    ));
                    lemma_fires_range_snoc(g0.channels, g0.data, g0.index, cur as int);
                    assert(acts@ =~= base + fires_range(
                        g0.channels,
                        g0.data,
                        g0.index,
                        cur + 1,
                    ));
                }
                cur = cur + 1;
            }
            let g = &mut self.groups[gi];
            g.index = cur;
            proof {
                assert(self.groups@[gi as int]@ == advance_group(g0, pos_ms));
                assert(start.subrange(0, gi + 1) =~= start.subrange(0, gi as int).push(
                    start[gi as int],
                ));
                lemma_tick_fires_snoc(start.subrange(0, gi as int), start[gi as int], pos_ms);
                assert(acts@ =~= tick_fires(start.subrange(0, gi + 1), pos_ms));
            }
            gi = gi + 1;
        }
        proof {
            assert(start.subrange(0, n as int) =~= start);
            assert(self@ =~= tick_groups(start, pos_ms));
            assert forall|i: int| 0 <= i < self@.len() implies (#[trigger] self@[i]).wf() by {
                assert(self@[i] == advance_group(start[i], pos_ms));
                lemma_next_cursor_bounds(start[i].data, start[i].index, pos_ms);
            }
        }
        acts
    }

    /// One scheduler tick at clock `pos_ms`.  On a reset request every
    /// cursor is rewound first and the actuator is asked to switch every
    /// channel off before anything fires again.
    pub fn tick(&mut self, pos_ms: u64, reset_requested: bool) -> (acts: Vec<SchedulerAction>)
        requires
            old(self).wf(),
        ensures
            final(self).wf(),
            reset_requested ==> acts@ == seq![SchedulerAction::AllOff] + tick_fires(
                reset_all(old(self)@),
                pos_ms,
            ) && final(self)@ == tick_groups(reset_all(old(self)@), pos_ms),
            !reset_requested ==> acts@ == tick_fires(old(self)@, pos_ms) && final(self)@
                == tick_groups(old(self)@, pos_ms),
    {
        if reset_requested {
            self.rewind();
            proof {
                assert forall|i: int| 0 <= i < self@.len() implies (#[trigger] self@[i]).wf() by {
                    assert(self@[i] == reset_group(old(self)@[i]));
                }
            }
            let mut acts: Vec<SchedulerAction> = Vec::new();
            acts.push(SchedulerAction::AllOff);
            let mut fired = self.fire_due(pos_ms);
            acts.append(&mut fired);
            proof {
                assert(acts@ =~= seq![SchedulerAction::AllOff] + tick_fires(
                    reset_all(old(self)@),
                    pos_ms,
                ));
            }
            acts
        } else {
            self.fire_due(pos_ms)
        }
    }
}

proof fn lemma_fires_range_only_sets(
    channels: Seq<i8>,
    data: Seq<LightData>,
    from: int,
    to: int,
)
    ensures
        forall|k: int|
            0 <= k < fires_range(channels, data, from, to).len() ==> (#[trigger] fires_range(
                channels,
                data,
                from,
                to,
            )[k]) is SetChannel,
    decreases to - from,
{
    if from < to && 0 <= from && to <= data.len() {
        lemma_fires_range_only_sets(channels, data, from + 1, to);
        let pre = sets_for(channels, data[from].light_type);
        assert(forall|k: int| 0 <= k < pre.len() ==> (#[trigger] pre[k]) is SetChannel);
    }
}

proof fn lemma_tick_fires_only_sets(groups: Seq<ChannelDataView>, pos_ms: u64)
    ensures
        forall|k: int|
            0 <= k < tick_fires(groups, pos_ms).len() ==> (#[trigger] tick_fires(
                groups,
                pos_ms,
            )[k]) is SetChannel,
    decreases groups.len(),
{
    if groups.len() > 0 {
        lemma_tick_fires_only_sets(groups.drop_first(), pos_ms);
        lemma_fires_range_only_sets(
            groups[0].channels,
            groups[0].data,
            groups[0].index,
            next_cursor(groups[0].data, groups[0].index, pos_ms),
        );
    }
}

/// Reset law: a tick that honours a reset request rewinds every group's
/// cursor to zero before firing, and its first actuation switches every
/// channel off, so no channel sees an "on" that an "off" did not precede.
pub proof fn lemma_reset_tick_off_before_on(groups: Seq<ChannelDataView>, pos_ms: u64)
    ensures
        forall|i: int| 0 <= i < groups.len() ==> (#[trigger] reset_all(groups)[i]).index == 0,
        ({
            let acts = seq![SchedulerAction::AllOff] + tick_fires(reset_all(groups), pos_ms);
            acts[0] == SchedulerAction::AllOff && forall|k: int|
                1 <= k < acts.len() ==> (#[trigger] acts[k]) is SetChannel
        }),
{
    lemma_tick_fires_only_sets(reset_all(groups), pos_ms);
    let fires = tick_fires(reset_all(groups), pos_ms);
    let acts = seq![SchedulerAction::AllOff] + fires;
    assert(forall|k: int| 1 <= k < acts.len() ==> acts[k] == fires[k - 1]);
}

// ---------------------------------------------------------------------------
// The scheduler thread lifecycle: the flags that hold the engine and the
// scheduler thread to at most one running scheduler at a time.
// ---------------------------------------------------------------------------

/// The flags coordinating scheduler start and stop.  `active` says a
/// scheduler thread is running; `stop_requested` asks it to wind down.
/// Arming a new scheduler is gated on `can_arm`: a caller blocks until the
/// previous thread has acknowledged its stop.
#[derive(Clone, Copy, PartialEq, Eq, Structural, Debug)]
pub struct LightLifecycle {
    pub active: bool,
    pub stop_requested: bool,
}

/// What can happen to the lifecycle flags.
#[derive(Clone, Copy, PartialEq, Eq, Structural, Debug)]
pub enum LifecycleEvent {
    /// The engine asks a running scheduler to stop.
    RequestStop,
    /// A new scheduler thread starts; only allowed once none is active.
    BeginRun,
    /// The scheduler thread confirms it has stopped.
    AcknowledgeStop,
}

/// The lifecycle transition relation; `None` is a forbidden step.
pub open spec fn lifecycle_step(s: LightLifecycle, ev: LifecycleEvent) -> Option<
    LightLifecycle,
> {
    match ev {
        LifecycleEvent::RequestStop => Some(
            LightLifecycle { active: s.active, stop_requested: s.stop_requested || s.active },
        ),
        LifecycleEvent::BeginRun => if !s.active {
            Some(LightLifecycle { active: true, stop_requested: false })
        } else {
            None
        },
        LifecycleEvent::AcknowledgeStop => Some(
            LightLifecycle { active: false, stop_requested: false },
        ),
    }
}

/// Runs a whole event trace; `None` as soon as any step is forbidden.
pub open spec fn lifecycle_run(s: LightLifecycle, evs: Seq<LifecycleEvent>) -> Option<
    LightLifecycle,
>
    decreases evs.len(),
{
    if evs.len() == 0 {
        Some(s)
    } else {
        match lifecycle_step(s, evs[0]) {
            None => None,
            Some(s2) => lifecycle_run(s2, evs.drop_first()),
        }
    }
}

impl LightLifecycle {
    /// Fresh flags: no scheduler running, none asked to stop.
    pub fn new() -> (r: LightLifecycle)
        ensures
            !r.active,
            !r.stop_requested,
    {
        LightLifecycle { active: false, stop_requested: false }
    }

    /// A new scheduler may start only while none is running.
    pub open spec fn can_arm(self) -> bool {
        !self.active
    }

    /// Asks a running scheduler to stop; without one this changes nothing.
    pub fn request_stop(&mut self)
        ensures
            Some(*final(self)) == lifecycle_step(*old(self), LifecycleEvent::RequestStop),
            final(self).active == old(self).active,
            final(self).stop_requested == (old(self).stop_requested || old(self).active),
    {
        if self.active {
            self.stop_requested = true;
        }
    }

    /// Marks the new scheduler thread as running.
    pub fn begin_run(&mut self)
        requires
            old(self).can_arm(),
        ensures
            Some(*final(self)) == lifecycle_step(*old(self), LifecycleEvent::BeginRun),
            final(self).active,
            !final(self).stop_requested,
    {
        self.active = true;
        self.stop_requested = false;
    }

    /// The scheduler thread confirms it has wound down.
    pub fn acknowledge_stop(&mut self)
        ensures
            Some(*final(self)) == lifecycle_step(*old(self), LifecycleEvent::AcknowledgeStop),
            !final(self).active,
            !final(self).stop_requested,
    {
        self.active = false;
        self.stop_requested = false;
    }
}

proof fn lemma_run_take_step(s0: LightLifecycle, evs: Seq<LifecycleEvent>, p: int)
    requires
        0 <= p < evs.len(),
    ensures
        lifecycle_run(s0, evs.take(p + 1)) == (match lifecycle_run(s0, evs.take(p)) {
            Some(s) => lifecycle_step(s, evs[p]),
            None => None,
        }),
    decreases p,
{
    if p == 0 {
        assert(evs.take(0) =~= Seq::<LifecycleEvent>::empty());
        assert(lifecycle_run(s0, evs.take(0)) == Some(s0));
        let t1 = evs.take(1);
        assert(t1.len() == 1 && t1[0] == evs[0]);
        assert(t1.drop_first() =~= Seq::<LifecycleEvent>::empty());
        match lifecycle_step(s0, evs[0]) {
            None => {
                assert(lifecycle_run(s0, t1) is None);
            },
            Some(s) => {
                assert(lifecycle_run(s0, t1) == lifecycle_run(s, t1.drop_first()));
                assert(lifecycle_run(s, t1.drop_first()) == Some(s));
            },
        }
    } else {
        let e0 = evs[0];
        assert(evs.take(p + 1).len() == p + 1);
        assert(evs.take(p).len() == p);
        assert(evs.take(p + 1)[0] == e0);
        assert(evs.take(p)[0] == e0);
        match lifecycle_step(s0, e0) {
            None => {
                assert(lifecycle_run(s0, evs.take(p + 1)) is None);
                assert(lifecycle_run(s0, evs.take(p)) is None);
            },
            Some(s1) => {
                lemma_run_take_step(s1, evs.drop_first(), p - 1);
                assert(evs.take(p + 1).drop_first() =~= evs.drop_first().take(p));
                assert(evs.take(p).drop_first() =~= evs.drop_first().take(p - 1));
                assert(evs.drop_first()[p - 1] == evs[p]);
                assert(lifecycle_run(s0, evs.take(p + 1)) == lifecycle_run(
                    s1,
                    evs.drop_first().take(p),
                ));
                assert(lifecycle_run(s0, evs.take(p)) == lifecycle_run(
                    s1,
                    evs.drop_first().take(p - 1),
                ));
            },
        }
    }
}

proof fn lemma_run_some_prefix(s0: LightLifecycle, evs: Seq<LifecycleEvent>, p: int)
    requires
        lifecycle_run(s0, evs) is Some,
        0 <= p <= evs.len(),
    ensures
        lifecycle_run(s0, evs.take(p)) is Some,
    decreases p,
{
    if p == 0 {
        assert(evs.take(0) =~= Seq::<LifecycleEvent>::empty());
    } else {
        let s1 = lifecycle_step(s0, evs[0]).unwrap();
        lemma_run_some_prefix(s1, evs.drop_first(), p - 1);
        assert(evs.take(p)[0] == evs[0]);
        assert(evs.take(p).drop_first() =~= evs.drop_first().take(p - 1));
    }
}

proof fn lemma_active_preserved(s0: LightLifecycle, evs: Seq<LifecycleEvent>, m: int, p: int)
    requires
        lifecycle_run(s0, evs) is Some,
        0 <= m <= p <= evs.len(),
        lifecycle_run(s0, evs.take(m)).unwrap().active,
        forall|k: int| m <= k < p ==> evs[k] != LifecycleEvent::AcknowledgeStop,
    ensures
        lifecycle_run(s0, evs.take(p)) matches Some(s) && s.active,
    decreases p - m,
{
    lemma_run_some_prefix(s0, evs, m);
    lemma_run_some_prefix(s0, evs, p);
    if m < p {
        lemma_active_preserved(s0, evs, m, p - 1);
        lemma_run_take_step(s0, evs, p - 1);
    }
}

/// At-most-one-scheduler law: in any trace the flag machine accepts, a new
/// scheduler starts only after the previous one has acknowledged its stop —
/// between any two starts stands an acknowledgement, so two schedulers never
/// run at once.
pub proof fn lemma_at_most_one_scheduler(
    s0: LightLifecycle,
    evs: Seq<LifecycleEvent>,
    i: int,
    j: int,
)
    requires
        lifecycle_run(s0, evs) is Some,
        0 <= i < j < evs.len(),
        evs[i] == LifecycleEvent::BeginRun,
        evs[j] == LifecycleEvent::BeginRun,
    ensures
        exists|k: int| i < k < j && evs[k] == LifecycleEvent::AcknowledgeStop,
{
    if !(exists|k: int| i < k < j && evs[k] == LifecycleEvent::AcknowledgeStop) {
        lemma_run_some_prefix(s0, evs, i + 1);
        lemma_run_take_step(s0, evs, i);
        assert(lifecycle_run(s0, evs.take(i + 1)).unwrap().active);
        assert(forall|k: int| i + 1 <= k < j ==> evs[k] != LifecycleEvent::AcknowledgeStop);
        lemma_active_preserved(s0, evs, i + 1, j);
        lemma_run_some_prefix(s0, evs, j + 1);
        lemma_run_take_step(s0, evs, j);
        assert(false);
    }
}

} // verus!
