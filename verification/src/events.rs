//! The harness event bus, and watches on it.
//!
//! A watch buffers events until a listener is started on it; then the buffer
//! is flushed in order and later events are delivered at once. Listeners are
//! known by numbers; what is delivered to whom is returned to the caller,
//! who calls them.

use vstd::prelude::*;

use crate::text;

verus! {

/// How a run ended.
#[derive(Debug, Clone, Copy, PartialEq, Eq, Structural)]
pub enum RunEndOutcome {
    Completed,
    Aborted,
    Failed,
}

/// Something that happened in the harness.
pub enum HarnessEvent {
    RunStart { lane: String, run_id: String },
    RunEnd { lane: String, run_id: String, outcome: RunEndOutcome, leaf_id: String },
}

/// The model of `HarnessEvent`.
pub enum EventModel {
    RunStart { lane: Seq<char>, run_id: Seq<char> },
    RunEnd { lane: Seq<char>, run_id: Seq<char>, outcome: RunEndOutcome, leaf_id: Seq<char> },
}

impl View for HarnessEvent {
    type V = EventModel;

    open spec fn view(&self) -> EventModel {
        match self {
            HarnessEvent::RunStart { lane, run_id } => EventModel::RunStart {
                lane: lane@,
                run_id: run_id@,
            },
            HarnessEvent::RunEnd { lane, run_id, outcome, leaf_id } => EventModel::RunEnd {
                lane: lane@,
                run_id: run_id@,
                outcome: *outcome,
                leaf_id: leaf_id@,
            },
        }
    }
}

/// The views of a list of events.
pub open spec fn event_views(v: Seq<HarnessEvent>) -> Seq<EventModel> {
    Seq::new(v.len(), |i: int| v[i]@)
}

impl HarnessEvent {
    /// A copy of the event.
    pub fn copy(&self) -> (r: HarnessEvent)
        ensures
            r@ == self@,
    {
        match self {
            HarnessEvent::RunStart { lane, run_id } => HarnessEvent::RunStart {
                lane: lane.clone(),
                run_id: run_id.clone(),
            },
            HarnessEvent::RunEnd { lane, run_id, outcome, leaf_id } => HarnessEvent::RunEnd {
                lane: lane.clone(),
                run_id: run_id.clone(),
                outcome: *outcome,
                leaf_id: leaf_id.clone(),
            },
        }
    }
}

/// One watch: its number, its listener once it is started, and the events
/// that wait for one.
pub struct Watch {
    pub id: u64,
    pub listener: Option<u64>,
    pub buffer: Vec<HarnessEvent>,
}

/// The model of `Watch`.
#[verifier::ext_equal]
pub struct WatchModel {
    pub id: u64,
    pub listener: Option<u64>,
    pub buffer: Seq<EventModel>,
}

impl View for Watch {
    type V = WatchModel;

    open spec fn view(&self) -> WatchModel {
        WatchModel {
            id: self.id,
            listener: self.listener,
            buffer: event_views(self.buffer@),
        }
    }
}

/// The views of a list of watches.
pub open spec fn watch_views(v: Seq<Watch>) -> Seq<WatchModel> {
    Seq::new(v.len(), |i: int| v[i]@)
}

/// An event for a listener.
pub struct Delivery {
    pub listener: u64,
    pub event: HarnessEvent,
}

/// The views of a list of deliveries.
pub open spec fn delivery_views(v: Seq<Delivery>) -> Seq<(u64, EventModel)> {
    Seq::new(v.len(), |i: int| (v[i].listener, v[i].event@))
}

/// A registered watch. To let go of it does not end the watch.
#[derive(Debug, Clone, Copy, PartialEq, Eq, Structural)]
pub struct WatchHandle {
    pub id: u64,
}

/// A listener, by the number that its owner gave it.
#[derive(Debug, Clone, Copy, PartialEq, Eq, Structural)]
pub struct WatchListener {
    pub number: u64,
}

/// The listener that goes by `number`.
pub fn watch_listener(number: u64) -> (r: WatchListener)
    ensures
        r.number == number,
{
    WatchListener { number }
}

/// The watches of a bus.
pub struct HarnessEventBus {
    pub next: u64,
    pub watches: Vec<Watch>,
}

/// Where the watch `id` stands, from the `i`th on.
pub open spec fn watch_slot(watches: Seq<WatchModel>, id: u64, i: int) -> Option<int>
    decreases watches.len() - i,
{
    if i < 0 || i >= watches.len() {
        None
    } else if watches[i].id == id {
        Some(i)
    } else {
        watch_slot(watches, id, i + 1)
    }
}

/// What the first `n` watches get of an event: those with a listener.
pub open spec fn deliveries_among(watches: Seq<WatchModel>, event: EventModel, n: int) -> Seq<
    (u64, EventModel),
>
    decreases n,
{
    if n <= 0 {
        seq![]
    } else {
        let rest = deliveries_among(watches, event, n - 1);
        match watches[n - 1].listener {
            Some(listener) => rest.push((listener, event)),
            None => rest,
        }
    }
}

/// A watch after an event: without a listener it keeps the event.
pub open spec fn after_event(w: WatchModel, event: EventModel) -> WatchModel {
    match w.listener {
        Some(_) => w,
        None => WatchModel { buffer: w.buffer.push(event), ..w },
    }
}

/// The events of a buffer for a listener.
pub open spec fn flushed(buffer: Seq<EventModel>, listener: u64) -> Seq<(u64, EventModel)> {
    Seq::new(buffer.len(), |i: int| (listener, buffer[i]))
}

impl HarnessEventBus {
    /// The watches of the bus.
    pub open spec fn view(&self) -> Seq<WatchModel> {
        watch_views(self.watches@)
    }

    /// Whether every watch has a number of its own.
    pub open spec fn wf(&self) -> bool {
        &&& forall|i: int| 0 <= i < self@.len() ==> (#[trigger] self@[i]).id < self.next
        &&& forall|i: int, j: int|
            0 <= i < j < self@.len() ==> (#[trigger] self@[i]).id != (#[trigger] self@[j]).id
    }

    /// A bus without watches.
    pub fn new() -> (bus: HarnessEventBus)
        ensures
            bus@ == Seq::<WatchModel>::empty(),
            bus.next == 0,
            bus.wf(),
    {
        let bus = HarnessEventBus { next: 0, watches: Vec::new() };
        assert(bus@ =~= Seq::<WatchModel>::empty());
        bus
    }

    /// Registers a watch, which buffers events until a listener is started
    /// on it.
    pub fn watch(&mut self) -> (handle: WatchHandle)
        requires
            old(self).wf(),
            old(self).next < u64::MAX,
        ensures
            handle.id == old(self).next,
            final(self)@ == old(self)@.push(
                WatchModel { id: handle.id, listener: None, buffer: seq![] },
            ),
            final(self).next == old(self).next + 1,
            final(self).wf(),
    {
        let id: u64 = self.next;
        let watch = Watch { id, listener: None, buffer: Vec::new() };
        assert(watch@.buffer =~= seq![]);
        let ghost added = watch@;
        self.watches.push(watch);
        self.next = id + 1;
        assert(self@ =~= old(self)@.push(added));
        WatchHandle { id }
    }

    fn find(&self, id: u64) -> (r: Option<usize>)
        ensures
            text::position(r) == watch_slot(self@, id, 0),
            r matches Some(i) ==> i < self.watches@.len(),
    {
        let mut i: usize = 0;
        while i < self.watches.len()
            invariant
                i <= self.watches@.len(),
                watch_slot(self@, id, 0) == watch_slot(self@, id, i as int),
            decreases self.watches.len() - i,
        {
            assert(self@[i as int] == self.watches@[i as int]@);
            if self.watches[i].id == id {
                return Some(i);
            }
            i += 1;
        }
        None
    }

    /// Starts a listener on a watch. What the watch has kept is delivered,
    /// in order.
    pub fn start(&mut self, handle: &WatchHandle, listener: WatchListener) -> (out: Vec<Delivery>)
        requires
            old(self).wf(),
        ensures
            match watch_slot(old(self)@, handle.id, 0) {
                Some(i) => {
                    &&& delivery_views(out@) == flushed(old(self)@[i].buffer, listener.number)
                    &&& final(self)@ == old(self)@.update(
                        i,
                        WatchModel {
                            id: old(self)@[i].id,
                            listener: Some(listener.number),
                            buffer: seq![],
                        },
                    )
                },
                None => out@.len() == 0 && final(self)@ == old(self)@,
            },
            final(self).next == old(self).next,
            final(self).wf(),
    {
        let mut out: Vec<Delivery> = Vec::new();
        match self.find(handle.id) {
            Some(i) => {
                assert(self@[i as int] == self.watches@[i as int]@);
                let ghost kept = self@[i as int].buffer;
                let mut k: usize = 0;
                while k < self.watches[i].buffer.len()
                    invariant
                        i < self.watches@.len(),
                        k <= self.watches@[i as int].buffer@.len(),
                        kept == event_views(self.watches@[i as int].buffer@),
                        delivery_views(out@) =~= flushed(kept, listener.number).take(k as int),
                    decreases self.watches[i as int].buffer.len() - k,
                {
                    let event = self.watches[i].buffer[k].copy();
                    let ghost before = delivery_views(out@);
                    let ghost added = event@;
                    out.push(Delivery { listener: listener.number, event });
                    assert(delivery_views(out@) =~= before.push((listener.number, added)));
                    k += 1;
                }
                assert(flushed(kept, listener.number).take(k as int) =~= flushed(
                    kept,
                    listener.number,
                ));
                let id = self.watches[i].id;
                let watch = Watch { id, listener: Some(listener.number), buffer: Vec::new() };
                assert(watch@.buffer =~= seq![]);
                let ghost new = watch@;
                self.watches.set(i, watch);
                assert(self@ =~= old(self)@.update(i as int, new));
                assert(self.wf()) by {
                    assert forall|a: int| 0 <= a < self@.len() implies (#[trigger] self@[a]).id
                        == old(self)@[a].id by {}
                }
            },
            None => {},
        }
        out
    }

    /// Emits an event: watches with a listener get it at once, the others
    /// keep it.
    pub fn emit(&mut self, event: &HarnessEvent) -> (out: Vec<Delivery>)
        requires
            old(self).wf(),
        ensures
            delivery_views(out@) == deliveries_among(
                old(self)@,
                event@,
                old(self)@.len() as int,
            ),
            final(self)@ == Seq::new(
                old(self)@.len(),
                |i: int| after_event(old(self)@[i], event@),
            ),
            final(self).next == old(self).next,
            final(self).wf(),
    {
        let ghost start = self@;
        let mut out: Vec<Delivery> = Vec::new();
        assert(delivery_views(out@) =~= seq![]);
        let mut i: usize = 0;
        while i < self.watches.len()
            invariant
                i <= self.watches@.len(),
                self.watches@.len() == start.len(),
                self.next == old(self).next,
                start == old(self)@,
                delivery_views(out@) == deliveries_among(start, event@, i as int),
                forall|j: int|
                    0 <= j < start.len() ==> (#[trigger] self@[j]) == (if j < i {
                        after_event(start[j], event@)
                    } else {
                        start[j]
                    }),
            decreases self.watches.len() - i,
        {
            assert(self@[i as int] == self.watches@[i as int]@);
            let ghost now = self@;
            match self.watches[i].listener {
                Some(listener) => {
                    let copy = event.copy();
                    let ghost before = delivery_views(out@);
                    out.push(Delivery { listener, event: copy });
                    assert(delivery_views(out@) =~= before.push((listener, event@)));
                },
                None => {
                    let mut watch = self.watches.remove(i);
                    let ghost kept = watch@;
                    let copy = event.copy();
                    watch.buffer.push(copy);
                    assert(watch@.buffer =~= kept.buffer.push(event@));
                    let ghost new = watch@;
                    self.watches.insert(i, watch);
                    assert(self@ =~= now.update(i as int, new));
                },
            }
            i += 1;
        }
        assert(self@ =~= Seq::new(start.len(), |i: int| after_event(start[i], event@)));
        out
    }

    /// Ends a watch, and forgets what it has kept.
    pub fn unsubscribe(&mut self, handle: &WatchHandle)
        requires
            old(self).wf(),
        ensures
            final(self)@ == (match watch_slot(old(self)@, handle.id, 0) {
                Some(i) => old(self)@.remove(i),
                None => old(self)@,
            }),
            final(self).next == old(self).next,
            final(self).wf(),
    {
        match self.find(handle.id) {
            Some(i) => {
                let _ = self.watches.remove(i);
                assert(self@ =~= old(self)@.remove(i as int));
            },
            None => {},
        }
    }
}

/// The owner of a watch, who ends it.
pub struct HarnessWatcher {
    pub handle: Option<WatchHandle>,
}

impl HarnessWatcher {
    /// The owner of a started watch.
    pub fn new(handle: WatchHandle) -> (w: HarnessWatcher)
        ensures
            w.handle == Some(handle),
    {
        HarnessWatcher { handle: Some(handle) }
    }

    /// Whether the watch has not been ended.
    pub fn is_active(&self) -> (r: bool)
        ensures
            r == (self.handle is Some),
    {
        self.handle.is_some()
    }

    /// Ends the watch; to end it again does nothing.
    pub fn unsubscribe(&mut self, bus: &mut HarnessEventBus)
        requires
            old(bus).wf(),
        ensures
            final(self).handle is None,
            final(bus)@ == (match old(self).handle {
                Some(handle) => match watch_slot(old(bus)@, handle.id, 0) {
                    Some(i) => old(bus)@.remove(i),
                    None => old(bus)@,
                },
                None => old(bus)@,
            }),
            final(bus).next == old(bus).next,
            final(bus).wf(),
    {
        match self.handle.take() {
            Some(handle) => {
                bus.unsubscribe(&handle);
            },
            None => {},
        }
    }

    /// Keeps the watch alive for good, and gives back its handle.
    pub fn leak(self) -> (handle: WatchHandle)
        requires
            self.handle is Some,
        ensures
            Some(handle) == self.handle,
    {
        self.handle.unwrap()
    }

    /// Gives back the handle of the watch without ending it.
    pub fn into_inner(self) -> (handle: WatchHandle)
        requires
            self.handle is Some,
        ensures
            Some(handle) == self.handle,
    {
        self.handle.unwrap()
    }
}

proof fn lemma_slot_is_watch(watches: Seq<WatchModel>, id: u64, i: int)
    requires
        0 <= i,
    ensures
        match watch_slot(watches, id, i) {
            Some(k) => i <= k < watches.len() && watches[k].id == id,
            None => forall|k: int| i <= k < watches.len() ==> (#[trigger] watches[k]).id != id,
        },
    decreases watches.len() - i,
{
    if i < watches.len() && watches[i].id != id {
        lemma_slot_is_watch(watches, id, i + 1);
    }
}

/// An ended watch is gone: no watch with its number is left, so nothing is
/// delivered for it any more.
pub proof fn lemma_unsubscribed_gets_nothing(bus: HarnessEventBus, id: u64, i: int)
    requires
        bus.wf(),
        watch_slot(bus@, id, 0) == Some(i),
    ensures
        watch_slot(bus@.remove(i), id, 0) is None,
        bus@.remove(i).len() == bus@.len() - 1,
{
    lemma_slot_is_watch(bus@, id, 0);
    let rest = bus@.remove(i);
    lemma_slot_is_watch(rest, id, 0);
    assert forall|k: int| 0 <= k < rest.len() implies (#[trigger] rest[k]).id != id by {
        if k < i {
            assert(rest[k] == bus@[k]);
        } else {
            assert(rest[k] == bus@[k + 1]);
        }
    }
}

/// Nothing is lost between registering a watch and starting it: what it
/// keeps is delivered to the listener in the order in which it came.
pub proof fn lemma_buffer_is_delivered(w: WatchModel, events: Seq<EventModel>, listener: u64, n: int)
    requires
        w.listener is None,
        w.buffer.len() == 0,
        0 <= n <= events.len(),
    ensures
        flushed(kept_after(w, events, n).buffer, listener) == flushed(events.take(n), listener),
        kept_after(w, events, n).listener is None,
        kept_after(w, events, n).buffer == events.take(n),
    decreases n,
{
    if n > 0 {
        lemma_buffer_is_delivered(w, events, listener, n - 1);
        assert(events.take(n) =~= events.take(n - 1).push(events[n - 1]));
    } else {
        assert(events.take(0) =~= w.buffer);
    }
}

/// A watch after the first `n` events.
pub open spec fn kept_after(w: WatchModel, events: Seq<EventModel>, n: int) -> WatchModel
    decreases n,
{
    if n <= 0 {
        w
    } else {
        after_event(kept_after(w, events, n - 1), events[n - 1])
    }
}

} // verus!
