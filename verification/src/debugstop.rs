//! Debug stop coordination: per-file breakpoint generations, the
//! pause flag, and the filter that decides which stop events reach the
//! host. Channel plumbing and protocol writes are the caller's part;
//! which stops are emitted is decided here.

use vstd::prelude::*;

verus! {

/// Why the executor stopped.
#[derive(Debug, Clone, Copy, PartialEq, Eq, Structural)]
pub enum DebugStopReason {
    Breakpoint,
    Step,
    Pause,
    Entry,
}

/// A source range in a file.
#[derive(Debug, Clone, Copy, PartialEq, Eq, Structural)]
pub struct SourceLocation {
    pub file_id: u32,
    pub start: u32,
    pub end: u32,
}

/// A stop the executor posted: its reason, where it stopped, the
/// thread, and the breakpoint generation sampled at the stop.
#[derive(Debug, Clone, Copy, PartialEq, Eq, Structural)]
pub struct DebugStop {
    pub reason: DebugStopReason,
    pub location: Option<SourceLocation>,
    pub thread_id: Option<i64>,
    pub breakpoint_generation: Option<u64>,
}

/// The generation a file's breakpoint vector currently carries.
pub open spec fn generation_of(gens: Seq<(u32, u64)>, file_id: u32) -> Option<u64>
    decreases gens.len(),
{
    if gens.len() == 0 {
        None
    } else if gens[0].0 == file_id {
        Some(gens[0].1)
    } else {
        generation_of(gens.drop_first(), file_id)
    }
}

/// The shared stop-filter state: per-file generation counters and the
/// pause flag.
pub struct StopCoordinator {
    generations: Vec<(u32, u64)>,
    pause_expected: bool,
}

/// Whether a stop passes the filter, and the pause flag it leaves
/// behind: `Pause` and `Entry` pass only when a pause was expected and
/// consume the flag either way; `Breakpoint` needs a location and a
/// generation equal to the file's current one; `Step` always passes.
pub open spec fn stop_decision(
    gens: Seq<(u32, u64)>,
    pause_expected: bool,
    stop: DebugStop,
) -> (bool, bool) {
    match stop.reason {
        DebugStopReason::Pause | DebugStopReason::Entry => (pause_expected, false),
        DebugStopReason::Step => (true, false),
        DebugStopReason::Breakpoint => {
            match (stop.location, stop.breakpoint_generation) {
                (Some(loc), Some(generation)) => (
                    generation_of(gens, loc.file_id) == Some(generation),
                    false,
                ),
                _ => (false, false),
            }
        },
    }
}

/// Once a file's generation moves past a stop's sampled generation,
/// that stop is never emitted: a breakpoint stop in flight when its
/// vector is replaced is dropped.
pub proof fn lemma_stale_generation_dropped(
    gens: Seq<(u32, u64)>,
    pause_expected: bool,
    stop: DebugStop,
    loc: SourceLocation,
    g: u64,
)
    requires
        stop.reason == DebugStopReason::Breakpoint,
        stop.location == Some(loc),
        stop.breakpoint_generation == Some(g),
        match generation_of(gens, loc.file_id) {
            Some(current) => current > g,
            None => true,
        },
    ensures
        !stop_decision(gens, pause_expected, stop).0,
{
}

impl StopCoordinator {
    /// The per-file generations.
    pub closed spec fn generations_view(&self) -> Seq<(u32, u64)> {
        self.generations@
    }

    /// Whether a pause is expected.
    pub closed spec fn pause_flag(&self) -> bool {
        self.pause_expected
    }

    /// A coordinator with no breakpoints and no pause expected.
    pub fn new() -> (r: StopCoordinator)
        ensures
            r.generations_view().len() == 0,
            !r.pause_flag(),
    {
        StopCoordinator { generations: Vec::new(), pause_expected: false }
    }

    /// Records that the host asked for a pause.
    pub fn expect_pause(&mut self)
        ensures
            final(self).pause_flag(),
            final(self).generations_view() == old(self).generations_view(),
    {
        self.pause_expected = true;
    }

    /// The current generation of a file's breakpoint vector.
    pub fn breakpoint_generation(&self, file_id: u32) -> (r: Option<u64>)
        ensures
            r == generation_of(self.generations_view(), file_id),
    {
        let ghost gv = self.generations@;
        let n = self.generations.len();
        let mut i: usize = 0;
        proof {
            assert(gv.skip(0) =~= gv);
        }
        while i < n
            invariant
                n == self.generations@.len(),
                gv == self.generations@,
                i <= n,
                generation_of(gv, file_id) == generation_of(gv.skip(i as int), file_id),
            decreases n - i,
        {
            proof {
                assert(gv.skip(i as int)[0] == gv[i as int]);
                assert(gv.skip(i as int).drop_first() =~= gv.skip(i + 1));
            }
            if self.generations[i].0 == file_id {
                return Some(self.generations[i].1);
            }
            i = i + 1;
        }
        proof {
            assert(gv.skip(n as int) =~= Seq::<(u32, u64)>::empty());
        }
        None
    }

    /// Installs a new breakpoint vector for a file: its generation
    /// counter advances, so stops sampled against the old vector no
    /// longer pass the filter.
    pub fn advance_generation(&mut self, file_id: u32) -> (r: u64)
        ensures
            generation_of(final(self).generations_view(), file_id) == Some(r),
            match generation_of(old(self).generations_view(), file_id) {
                Some(g) => g < u64::MAX ==> r == g + 1,
                None => r == 1,
            },
            forall|f: u32|
                f != file_id ==> #[trigger] generation_of(final(self).generations_view(), f)
                    == generation_of(old(self).generations_view(), f),
    {
        let ghost gv = self.generations@;
        let n = self.generations.len();
        let mut i: usize = 0;
        proof {
            assert(gv.skip(0) =~= gv);
        }
        while i < n
            invariant
                n == self.generations@.len(),
                gv == self.generations@,
                gv == old(self).generations@,
                i <= n,
                forall|j: int| 0 <= j < i ==> (#[trigger] gv[j]).0 != file_id,
                generation_of(gv, file_id) == generation_of(gv.skip(i as int), file_id),
            decreases n - i,
        {
            proof {
                assert(gv.skip(i as int)[0] == gv[i as int]);
                assert(gv.skip(i as int).drop_first() =~= gv.skip(i + 1));
            }
            if self.generations[i].0 == file_id {
                let g = self.generations[i].1;
                let next = if g < u64::MAX {
                    g + 1
                } else {
                    g
                };
                self.generations.set(i, (file_id, next));
                proof {
                    let nv = final(self).generations@;
                    lemma_generation_update(gv, nv, i as int, file_id, next);
                }
                return next;
            }
            i = i + 1;
        }
        proof {
            assert(gv.skip(n as int) =~= Seq::<(u32, u64)>::empty());
        }
        self.generations.push((file_id, 1));
        proof {
            let nv = final(self).generations@;
            lemma_generation_push(gv, nv, file_id, 1);
        }
        1
    }

    /// Applies the stop filter: says whether the stop is emitted, and
    /// consumes the pause flag as the filter demands.
    pub fn should_emit_stop(&mut self, stop: &DebugStop) -> (r: bool)
        ensures
            r == stop_decision(old(self).generations_view(), old(self).pause_flag(), *stop).0,
            final(self).pause_flag() == stop_decision(
                old(self).generations_view(),
                old(self).pause_flag(),
                *stop,
            ).1,
            final(self).generations_view() == old(self).generations_view(),
    {
        match stop.reason {
            DebugStopReason::Pause | DebugStopReason::Entry => {
                let expected = self.pause_expected;
                self.pause_expected = false;
                expected
            },
            DebugStopReason::Step => {
                self.pause_expected = false;
                true
            },
            DebugStopReason::Breakpoint => {
                self.pause_expected = false;
                match (stop.location, stop.breakpoint_generation) {
                    (Some(loc), Some(generation)) => {
                        let current = self.breakpoint_generation(loc.file_id);
                        match current {
                            Some(g) => g == generation,
                            None => false,
                        }
                    },
                    _ => false,
                }
            },
        }
    }
}

proof fn lemma_generation_update(
    gv: Seq<(u32, u64)>,
    nv: Seq<(u32, u64)>,
    i: int,
    file_id: u32,
    next: u64,
)
    requires
        0 <= i < gv.len(),
        nv == gv.update(i, (file_id, next)),
        gv[i].0 == file_id,
        forall|j: int| 0 <= j < i ==> (#[trigger] gv[j]).0 != file_id,
    ensures
        generation_of(nv, file_id) == Some(next),
        forall|f: u32|
            f != file_id ==> #[trigger] generation_of(nv, f) == generation_of(gv, f),
    decreases i,
{
    if i == 0 {
        assert(nv[0] == (file_id, next));
        assert forall|f: u32| f != file_id implies #[trigger] generation_of(nv, f)
            == generation_of(gv, f) by {
            assert(nv.drop_first() =~= gv.drop_first());
        }
    } else {
        assert(nv[0] == gv[0]);
        assert(nv.drop_first() =~= gv.drop_first().update(i - 1, (file_id, next)));
        assert(gv.drop_first()[i - 1] == gv[i]);
        assert forall|j: int| 0 <= j < i - 1 implies (#[trigger] gv.drop_first()[j]).0
            != file_id by {
            assert(gv.drop_first()[j] == gv[j + 1]);
        }
        lemma_generation_update(gv.drop_first(), nv.drop_first(), i - 1, file_id, next);
        assert(generation_of(nv, file_id) == generation_of(nv.drop_first(), file_id));
        assert forall|f: u32| f != file_id implies #[trigger] generation_of(nv, f)
            == generation_of(gv, f) by {
            if nv[0].0 == f {
            } else {
                assert(generation_of(nv, f) == generation_of(nv.drop_first(), f));
                assert(generation_of(gv, f) == generation_of(gv.drop_first(), f));
            }
        }
    }
}

proof fn lemma_generation_push(gv: Seq<(u32, u64)>, nv: Seq<(u32, u64)>, file_id: u32, g: u64)
    requires
        nv == gv.push((file_id, g)),
        forall|j: int| 0 <= j < gv.len() ==> (#[trigger] gv[j]).0 != file_id,
    ensures
        generation_of(nv, file_id) == Some(g),
        forall|f: u32| f != file_id ==> #[trigger] generation_of(nv, f) == generation_of(gv, f),
    decreases gv.len(),
{
    if gv.len() == 0 {
        assert(nv[0] == (file_id, g));
        assert forall|f: u32| f != file_id implies #[trigger] generation_of(nv, f)
            == generation_of(gv, f) by {
            assert(nv.drop_first() =~= Seq::<(u32, u64)>::empty());
            assert(nv[0].0 == file_id);
            assert(generation_of(nv, f) == generation_of(nv.drop_first(), f));
            assert(generation_of(nv.drop_first(), f) is None);
            assert(generation_of(gv, f) is None);
        }
    } else {
        assert(nv[0] == gv[0]);
        assert(nv.drop_first() =~= gv.drop_first().push((file_id, g)));
        assert forall|j: int| 0 <= j < gv.drop_first().len() implies (
        #[trigger] gv.drop_first()[j]).0 != file_id by {
            assert(gv.drop_first()[j] == gv[j + 1]);
        }
        lemma_generation_push(gv.drop_first(), nv.drop_first(), file_id, g);
        assert(gv[0].0 != file_id);
        assert(generation_of(nv, file_id) == generation_of(nv.drop_first(), file_id));
        assert forall|f: u32| f != file_id implies #[trigger] generation_of(nv, f)
            == generation_of(gv, f) by {
            if nv[0].0 == f {
            } else {
                assert(generation_of(nv, f) == generation_of(nv.drop_first(), f));
                assert(generation_of(gv, f) == generation_of(gv.drop_first(), f));
            }
        }
    }
}

/// The protocol word for a stop reason.
pub open spec fn reason_text(reason: DebugStopReason) -> Seq<char> {
    match reason {
        DebugStopReason::Breakpoint => "breakpoint"@,
        DebugStopReason::Step => "step"@,
        DebugStopReason::Pause => "pause"@,
        DebugStopReason::Entry => "entry"@,
    }
}

fn reason_str(reason: DebugStopReason) -> (r: &'static str)
    ensures
        r@ == reason_text(reason),
{
    match reason {
        DebugStopReason::Breakpoint => "breakpoint",
        DebugStopReason::Step => "step",
        DebugStopReason::Pause => "pause",
        DebugStopReason::Entry => "entry",
    }
}

/// One protocol event an accepted stop emits, already sequenced.
pub enum StopEvent {
    /// The operator-facing console line.
    Output { seq: u32, text: String },
    /// The `stopped` event.
    Stopped { seq: u32, reason: String, thread_id: i64, all_threads_stopped: bool },
    /// The `invalidated(areas=["watch"])` event.
    Invalidated { seq: u32, thread_id: i64 },
}

/// Model of an emitted event: its sequence number and payload.
pub open spec fn event_view(e: StopEvent) -> (u32, int, Seq<char>, i64, bool) {
    match e {
        StopEvent::Output { seq, text } => (seq, 0, text@, 0, false),
        StopEvent::Stopped { seq, reason, thread_id, all_threads_stopped } => (
            seq,
            1,
            reason@,
            thread_id,
            all_threads_stopped,
        ),
        StopEvent::Invalidated { seq, thread_id } => (seq, 2, Seq::empty(), thread_id, false),
    }
}

/// The console line announcing a stop.
pub open spec fn output_line(reason: DebugStopReason, thread_id: i64) -> Seq<char> {
    "[trust-debug] stopped: reason="@ + reason_text(reason) + " thread_id="@
        + crate::strutil::dec_i64_of(thread_id as int) + "\n"@
}

/// Builds the events an accepted stop emits, numbered without gaps
/// from `seq`: the console line, the `stopped` event (thread defaults
/// to one; all threads are stopped exactly when no single thread is
/// targeted), and, when the watch set changed, an `invalidated` event.
/// Returns the events and the next free sequence number.
pub fn build_stop_events(
    stop: &DebugStop,
    target_thread: Option<i64>,
    watch_changed: bool,
    seq: u32,
) -> (r: (Vec<StopEvent>, u32))
    requires
        seq + 3 <= u32::MAX,
    ensures
        ({
            let (events, next) = r;
            let tid = match stop.thread_id {
                Some(t) => t,
                None => 1,
            };
            &&& events@.len() == if watch_changed {
                3int
            } else {
                2int
            }
            &&& next == seq + events@.len()
            &&& forall|k: int|
                0 <= k < events@.len() ==> (#[trigger] event_view(events@[k])).0 == seq + k
            &&& event_view(events@[0]) == (seq, 0int, output_line(stop.reason, tid), 0i64, false)
            &&& event_view(events@[1]) == (
                (seq + 1) as u32,
                1int,
                reason_text(stop.reason),
                tid,
                target_thread is None,
            )
            &&& watch_changed ==> event_view(events@[2]) == (
                (seq + 2) as u32,
                2int,
                Seq::<char>::empty(),
                tid,
                false,
            )
        }),
{
    let reason = reason_str(stop.reason);
    let thread_id: i64 = match stop.thread_id {
        Some(t) => t,
        None => 1,
    };
    let mut text = String::from_str("[trust-debug] stopped: reason=");
    proof {
        reveal_strlit("[trust-debug] stopped: reason=");
        reveal_strlit(" thread_id=");
        reveal_strlit("\n");
    }
    text.append(reason);
    text.append(" thread_id=");
    text.append(crate::strutil::dec_i64(thread_id).as_str());
    text.append("\n");
    let all_threads_stopped = match target_thread {
        Some(_) => false,
        None => true,
    };
    let mut events: Vec<StopEvent> = Vec::new();
    events.push(StopEvent::Output { seq, text });
    events.push(
        StopEvent::Stopped {
            seq: seq + 1,
            reason: reason.to_owned(),
            thread_id,
            all_threads_stopped,
        },
    );
    let next: u32 = if watch_changed {
        events.push(StopEvent::Invalidated { seq: seq + 2, thread_id });
        seq + 3
    } else {
        seq + 2
    };
    (events, next)
}

/// Sequence numbers of a built batch are gap-free and strictly
/// ascending: no emitted event carries a number lower than an earlier
/// one, across the coordinator's whole life when each batch starts at
/// the previous batch's `next`.
pub proof fn lemma_gap_free_sequencing(views: Seq<(u32, int, Seq<char>, i64, bool)>, seq: u32)
    requires
        forall|k: int| 0 <= k < views.len() ==> (#[trigger] views[k]).0 == seq + k,
    ensures
        forall|i: int, j: int|
            0 <= i < j < views.len() ==> (#[trigger] views[i]).0 < (#[trigger] views[j]).0,
{
}

} // verus!
