//! The undo/redo history: an undo side held in a bounded [`Deque`] (oldest
//! at the front, newest at the back) and a redo side held in a [`Stack`].
//!
//! Each recorded [`Event`] carries exactly the data needed to reverse the
//! mutation it logs. The capacity bounds the undo side only: after every
//! push the oldest entries are evicted until the side is back within it.

use crate::data_definition::DataPoint;
use crate::dequeue::Deque;
use crate::stack::Stack;
use vstd::prelude::*;

verus! {

/// Suggested capacity offered when the caller enables the history bound.
pub const DEFAULT_MAX_HISTORY: u16 = 200;

/// One recorded mutation of the point collection.
pub enum Event {
    Add(AddEventData),
    Delete(DeleteEventData),
    Clear(ClearEventData),
}

#[derive(Clone, Copy)]
pub struct AddEventData {
    pub point: DataPoint,
}

#[derive(Clone, Copy)]
pub struct DeleteEventData {
    pub index: usize,
    pub point: DataPoint,
}

pub struct ClearEventData {
    pub points: Vec<DataPoint>,
}

/// The mathematical shape of an [`Event`]: indices as integers and the
/// cleared points as a sequence.
#[verifier::ext_equal]
pub enum EventView {
    Add { point: DataPoint },
    Delete { index: int, point: DataPoint },
    Clear { points: Seq<DataPoint> },
}

impl View for Event {
    type V = EventView;

    open spec fn view(&self) -> EventView {
        match self {
            Event::Add(data) => (EventView::Add { point: data.point }),
            Event::Delete(data) => (EventView::Delete {
                index: data.index as int,
                point: data.point,
            }),
            Event::Clear(data) => (EventView::Clear { points: data.points@ }),
        }
    }
}

/// The views of a sequence of events, in order.
pub open spec fn views_of(s: Seq<Event>) -> Seq<EventView> {
    Seq::new(s.len(), |i: int| s[i]@)
}

/// Whether undoing `e` is meaningful against the point sequence `s`.
pub open spec fn undo_applicable(e: EventView, s: Seq<DataPoint>) -> bool {
    match e {
        EventView::Add { point } => s.len() > 0 && s.last() == point,
        EventView::Delete { index, point } => 0 <= index <= s.len(),
        EventView::Clear { points } => s.len() == 0,
    }
}

/// The point sequence after undoing `e` against `s`.
pub open spec fn undo_apply(e: EventView, s: Seq<DataPoint>) -> Seq<DataPoint> {
    match e {
        EventView::Add { point } => s.drop_last(),
        EventView::Delete { index, point } => s.insert(index, point),
        EventView::Clear { points } => points,
    }
}

/// Whether redoing `e` is meaningful against the point sequence `s`.
/// A clear waiting on the redo side owns no points: they were handed back
/// to the collection when the clear was undone.
pub open spec fn redo_applicable(e: EventView, s: Seq<DataPoint>) -> bool {
    match e {
        EventView::Add { point } => true,
        EventView::Delete { index, point } => 0 <= index < s.len() && s[index] == point,
        EventView::Clear { points } => points.len() == 0,
    }
}

/// The point sequence after redoing `e` against `s`.
pub open spec fn redo_apply(e: EventView, s: Seq<DataPoint>) -> Seq<DataPoint> {
    match e {
        EventView::Add { point } => s.push(point),
        EventView::Delete { index, point } => s.remove(index),
        EventView::Clear { points } => Seq::empty(),
    }
}

/// The event as it rests on the redo side after being undone: a clear
/// hands its points back to the collection and keeps none.
pub open spec fn undone_form(e: EventView) -> EventView {
    match e {
        EventView::Clear { points } => (EventView::Clear { points: Seq::empty() }),
        _ => e,
    }
}

/// The event as it rests on the undo side after being redone against the
/// point sequence `s`: a clear takes ownership of the points it removed.
pub open spec fn redone_form(e: EventView, s: Seq<DataPoint>) -> EventView {
    match e {
        EventView::Clear { points } => (EventView::Clear { points: s }),
        _ => e,
    }
}

/// Whether `e` is the event a fresh mutation records when it turns the
/// point sequence `before` into `after`.
pub open spec fn records_mutation(
    e: EventView,
    before: Seq<DataPoint>,
    after: Seq<DataPoint>,
) -> bool {
    match e {
        EventView::Add { point } => after == before.push(point),
        EventView::Delete { index, point } => 0 <= index < before.len() && before[index] == point
            && after == before.remove(index),
        EventView::Clear { points } => points == before && after == Seq::<DataPoint>::empty(),
    }
}

/// Every event on the undo side can be undone in turn, newest first,
/// starting from the point sequence `s`.
pub open spec fn undo_chain_ok(events: Seq<EventView>, s: Seq<DataPoint>) -> bool
    decreases events.len(),
{
    events.len() == 0 || {
        undo_applicable(events.last(), s) && undo_chain_ok(
            events.drop_last(),
            undo_apply(events.last(), s),
        )
    }
}

/// Every event on the redo side can be redone in turn, top first,
/// starting from the point sequence `s`.
pub open spec fn redo_chain_ok(events: Seq<EventView>, s: Seq<DataPoint>) -> bool
    decreases events.len(),
{
    events.len() == 0 || {
        redo_applicable(events.last(), s) && redo_chain_ok(
            events.drop_last(),
            redo_apply(events.last(), s),
        )
    }
}

/// The point sequence after undoing every event, newest first.
pub open spec fn rewind(events: Seq<EventView>, s: Seq<DataPoint>) -> Seq<DataPoint>
    decreases events.len(),
{
    if events.len() == 0 {
        s
    } else {
        rewind(events.drop_last(), undo_apply(events.last(), s))
    }
}

/// The undo side kept within its capacity: when a capacity is set and the
/// side is over it, the oldest entries are dropped and the newest kept.
pub open spec fn trim_front(events: Seq<EventView>, cap: Option<u16>) -> Seq<EventView> {
    match cap {
        None => events,
        Some(c) => if events.len() > c {
            events.subrange(events.len() - c, events.len() as int)
        } else {
            events
        },
    }
}

pub struct UndoManager {
    max_history_size: Option<u16>,
    undo_events: Deque<Event>,
    redo_events: Stack<Event>,
}

impl UndoManager {
    /// The capacity bound on the undo side; `None` means unbounded.
    pub closed spec fn capacity(&self) -> Option<u16> {
        self.max_history_size
    }

    /// The undo side, oldest first.
    pub closed spec fn undo_history(&self) -> Seq<EventView> {
        views_of(self.undo_events@)
    }

    /// The redo side, bottom of the stack first.
    pub closed spec fn redo_history(&self) -> Seq<EventView> {
        views_of(self.redo_events@)
    }

    pub fn max_history_size(&self) -> (r: Option<u16>)
        ensures
            r == self.capacity(),
    {
        self.max_history_size
    }

    /// Sets the capacity and evicts oldest undo entries down to it.
    /// The redo side is untouched.
    pub fn set_max_history_size(&mut self, value: Option<u16>)
        ensures
            final(self).capacity() == value,
            final(self).undo_history() == trim_front(old(self).undo_history(), value),
            final(self).redo_history() == old(self).redo_history(),
    {
        self.max_history_size = value;
        self.trim_to_capacity();
    }

    /// Evicts oldest undo entries until the side is within the capacity.
    fn trim_to_capacity(&mut self)
        ensures
            final(self).capacity() == old(self).capacity(),
            final(self).redo_history() == old(self).redo_history(),
            final(self).undo_history() == trim_front(old(self).undo_history(), old(self).capacity()),
    {
        let ghost orig = old(self).undo_events@;
        if let Some(max_size) = self.max_history_size {
            while self.undo_events.len() > max_size as usize
                invariant
                    self.max_history_size == old(self).max_history_size,
                    self.max_history_size == Some(max_size),
                    self.redo_events@ == old(self).redo_events@,
                    self.undo_events@.len() <= orig.len(),
                    self.undo_events@ == orig.subrange(
                        orig.len() - self.undo_events@.len(),
                        orig.len() as int,
                    ),
                    self.undo_events@.len() >= max_size || self.undo_events@.len() == orig.len(),
                decreases self.undo_events@.len(),
            {
                let ghost before = self.undo_events@;
                self.undo_events.remove_oldest();
                proof {
                    assert(self.undo_events@ =~= orig.subrange(
                        orig.len() - self.undo_events@.len(),
                        orig.len() as int,
                    ));
                }
            }
            proof {
                if orig.len() > max_size {
                    assert(self.undo_events@ == orig.subrange(
                        orig.len() - max_size,
                        orig.len() as int,
                    ));
                    lemma_views_subrange(orig, orig.len() - max_size, orig.len() as int);
                } else {
                    assert(self.undo_events@ =~= orig);
                }
            }
        }
    }

    /// Pushes onto the undo side and evicts down to the capacity.
    fn push_undo_trimmed(&mut self, event: Event)
        ensures
            final(self).capacity() == old(self).capacity(),
            final(self).redo_history() == old(self).redo_history(),
            final(self).undo_history() == trim_front(
                old(self).undo_history().push(event@),
                old(self).capacity(),
            ),
    {
        proof {
            lemma_views_push(self.undo_events@, event);
        }
        self.undo_events.push(event);
        self.trim_to_capacity();
    }

    /// Empties both sides unconditionally; the capacity stays.
    pub fn clear_all(&mut self)
        ensures
            final(self).capacity() == old(self).capacity(),
            final(self).undo_history() == Seq::<EventView>::empty(),
            final(self).redo_history() == Seq::<EventView>::empty(),
    {
        self.undo_events.clear();
        self.redo_events.clear();
        proof {
            assert(final(self).undo_history() =~= Seq::<EventView>::empty());
            assert(final(self).redo_history() =~= Seq::<EventView>::empty());
        }
    }

    pub fn is_undo_empty(&self) -> (r: bool)
        ensures
            r == (self.undo_history().len() == 0),
    {
        self.undo_events.is_empty()
    }

    pub fn is_redo_empty(&self) -> (r: bool)
        ensures
            r == (self.redo_history().len() == 0),
    {
        self.redo_events.is_empty()
    }

    pub fn is_empty(&self) -> (r: bool)
        ensures
            r == (self.undo_history().len() == 0 && self.redo_history().len() == 0),
    {
        self.is_undo_empty() && self.is_redo_empty()
    }

    /// Records a fresh mutation: the redo side is invalidated, the event
    /// joins the undo side, and the oldest entries are evicted down to the
    /// capacity.
    pub fn add_undo(&mut self, event: Event)
        ensures
            final(self).capacity() == old(self).capacity(),
            final(self).redo_history() == Seq::<EventView>::empty(),
            final(self).undo_history() == trim_front(
                old(self).undo_history().push(event@),
                old(self).capacity(),
            ),
    {
        self.redo_events.clear();
        proof {
            assert(views_of(self.redo_events@) =~= Seq::<EventView>::empty());
        }
        self.push_undo_trimmed(event);
    }

    /// Takes the most recent event off the undo side and returns it, so
    /// that the caller can replay it; nothing is left behind to disagree
    /// with the replay. The caller hands the replayed event back through
    /// [`Self::record_undone`].
    pub fn undo(&mut self) -> (event: Event)
        requires
            old(self).undo_history().len() > 0,
        ensures
            event@ == old(self).undo_history().last(),
            final(self).undo_history() == old(self).undo_history().drop_last(),
            final(self).redo_history() == old(self).redo_history(),
            final(self).capacity() == old(self).capacity(),
    {
        proof {
            lemma_views_drop_last(self.undo_events@);
        }
        self.undo_events.pop().unwrap()
    }

    /// Takes the most recent event off the redo side and returns it, the
    /// mirror of [`Self::undo`]. The caller hands the replayed event back
    /// through [`Self::record_redone`].
    pub fn redo(&mut self) -> (event: Event)
        requires
            old(self).redo_history().len() > 0,
        ensures
            event@ == old(self).redo_history().last(),
            final(self).redo_history() == old(self).redo_history().drop_last(),
            final(self).undo_history() == old(self).undo_history(),
            final(self).capacity() == old(self).capacity(),
    {
        proof {
            lemma_views_drop_last(self.redo_events@);
        }
        self.redo_events.pop().unwrap()
    }

    /// Stores an event just undone on the redo side.
    pub fn record_undone(&mut self, event: Event)
        ensures
            final(self).capacity() == old(self).capacity(),
            final(self).undo_history() == old(self).undo_history(),
            final(self).redo_history() == old(self).redo_history().push(event@),
    {
        proof {
            lemma_views_push(self.redo_events@, event);
        }
        self.redo_events.push(event);
    }

    /// Stores an event just redone back on the undo side, evicting oldest
    /// entries down to the capacity. The redo side is untouched.
    pub fn record_redone(&mut self, event: Event)
        ensures
            final(self).capacity() == old(self).capacity(),
            final(self).redo_history() == old(self).redo_history(),
            final(self).undo_history() == trim_front(
                old(self).undo_history().push(event@),
                old(self).capacity(),
            ),
    {
        self.push_undo_trimmed(event);
    }

    /// It is assumed in the UI that this is Some and not None
    pub fn default_max_history() -> (r: Option<u16>)
        ensures
            r == Some(DEFAULT_MAX_HISTORY),
    {
        Some(DEFAULT_MAX_HISTORY)
    }
}

impl Default for UndoManager {
    fn default() -> (m: Self)
        ensures
            m.capacity() == Some(DEFAULT_MAX_HISTORY),
            m.undo_history() == Seq::<EventView>::empty(),
            m.redo_history() == Seq::<EventView>::empty(),
    {
        let m = UndoManager {
            max_history_size: Self::default_max_history(),
            undo_events: Default::default(),
            redo_events: Default::default(),
        };
        proof {
            assert(m.undo_history() =~= Seq::<EventView>::empty());
            assert(m.redo_history() =~= Seq::<EventView>::empty());
        }
        m
    }
}

/// Undoing the event a mutation just recorded restores the point sequence
/// the mutation started from.
pub proof fn lemma_event_inverse(e: EventView, before: Seq<DataPoint>, after: Seq<DataPoint>)
    requires
        records_mutation(e, before, after),
    ensures
        undo_applicable(e, after),
        undo_apply(e, after) == before,
{
    match e {
        EventView::Add { point } => {
            assert(before.push(point).drop_last() =~= before);
        },
        EventView::Delete { index, point } => {
            assert(before.remove(index).insert(index, point) =~= before);
        },
        EventView::Clear { points } => {},
    }
}

/// Undoing an event and then redoing what was left on the redo side
/// restores the point sequence and the original event.
pub proof fn lemma_undo_then_redo(e: EventView, s: Seq<DataPoint>)
    requires
        undo_applicable(e, s),
    ensures
        redo_applicable(undone_form(e), undo_apply(e, s)),
        redo_apply(undone_form(e), undo_apply(e, s)) == s,
        redone_form(undone_form(e), undo_apply(e, s)) == e,
{
    match e {
        EventView::Add { point } => {
            assert(s.drop_last().push(s.last()) =~= s);
        },
        EventView::Delete { index, point } => {
            assert(s.insert(index, point)[index] == point);
            assert(s.insert(index, point).remove(index) =~= s);
        },
        EventView::Clear { points } => {
            assert(s =~= Seq::<DataPoint>::empty());
        },
    }
}

/// Redoing an event and then undoing what was left on the undo side
/// restores the point sequence and the original event.
pub proof fn lemma_redo_then_undo(e: EventView, s: Seq<DataPoint>)
    requires
        redo_applicable(e, s),
    ensures
        undo_applicable(redone_form(e, s), redo_apply(e, s)),
        undo_apply(redone_form(e, s), redo_apply(e, s)) == s,
        undone_form(redone_form(e, s)) == e,
{
    match e {
        EventView::Add { point } => {
            assert(s.push(point).drop_last() =~= s);
        },
        EventView::Delete { index, point } => {
            assert(s.remove(index).insert(index, point) =~= s);
        },
        EventView::Clear { points } => {
            assert(points =~= Seq::<DataPoint>::empty());
            assert(undone_form(redone_form(e, s)) =~= e);
        },
    }
}

/// The point sequence reached by a chain of recorded mutations: the
/// event trace determines each next state from the one before it.
pub open spec fn fwd_applicable(e: EventView, s: Seq<DataPoint>) -> bool {
    match e {
        EventView::Add { point } => true,
        EventView::Delete { index, point } => 0 <= index < s.len() && s[index] == point,
        EventView::Clear { points } => points == s,
    }
}

/// The point sequence after a fresh mutation recording `e` against `s`.
pub open spec fn fwd_apply(e: EventView, s: Seq<DataPoint>) -> Seq<DataPoint> {
    match e {
        EventView::Add { point } => s.push(point),
        EventView::Delete { index, point } => s.remove(index),
        EventView::Clear { points } => Seq::empty(),
    }
}

/// The state after running a trace of recorded mutations from `s0`.
pub open spec fn fwd_run(events: Seq<EventView>, s0: Seq<DataPoint>) -> Seq<DataPoint>
    decreases events.len(),
{
    if events.len() == 0 {
        s0
    } else {
        fwd_apply(events.last(), fwd_run(events.drop_last(), s0))
    }
}

/// The trace `events` is a run of mutations starting from `s0`: each event
/// records a mutation of the state reached by the ones before it.
pub open spec fn fwd_chain_ok(events: Seq<EventView>, s0: Seq<DataPoint>) -> bool
    decreases events.len(),
{
    events.len() == 0 || {
        fwd_chain_ok(events.drop_last(), s0) && fwd_applicable(
            events.last(),
            fwd_run(events.drop_last(), s0),
        )
    }
}

/// The undo/redo inverse law: any run of mutations from `s0`, undone once
/// per mutation in reverse order, ends at `s0` again — and every one of
/// those undos is meaningful against the state it meets.
pub proof fn lemma_undo_rewinds_mutations(events: Seq<EventView>, s0: Seq<DataPoint>)
    requires
        fwd_chain_ok(events, s0),
    ensures
        undo_chain_ok(events, fwd_run(events, s0)),
        rewind(events, fwd_run(events, s0)) == s0,
    decreases events.len(),
{
    if events.len() > 0 {
        let e = events.last();
        let prev = fwd_run(events.drop_last(), s0);
        assert(records_mutation(e, prev, fwd_apply(e, prev)));
        lemma_event_inverse(e, prev, fwd_apply(e, prev));
        lemma_undo_rewinds_mutations(events.drop_last(), s0);
    }
}

/// An undoable chain stays undoable when its oldest entries are dropped.
pub proof fn lemma_undo_chain_ok_suffix(events: Seq<EventView>, s: Seq<DataPoint>, k: int)
    requires
        0 <= k <= events.len(),
        undo_chain_ok(events, s),
    ensures
        undo_chain_ok(events.subrange(k, events.len() as int), s),
    decreases events.len(),
{
    if k < events.len() {
        let sub = events.subrange(k, events.len() as int);
        assert(sub.last() == events.last());
        assert(sub.drop_last() =~= events.drop_last().subrange(
            k,
            events.drop_last().len() as int,
        ));
        lemma_undo_chain_ok_suffix(events.drop_last(), undo_apply(events.last(), s), k);
    }
}

/// An undoable chain stays undoable after eviction down to a capacity.
pub proof fn lemma_undo_chain_ok_trim(events: Seq<EventView>, s: Seq<DataPoint>, cap: Option<u16>)
    requires
        undo_chain_ok(events, s),
    ensures
        undo_chain_ok(trim_front(events, cap), s),
{
    match cap {
        None => {},
        Some(c) => {
            if events.len() > c {
                lemma_undo_chain_ok_suffix(events, s, events.len() - c);
            }
        },
    }
}

/// The undo side that results from recording `pushed`, newest last, on top
/// of `history`, evicting down to `cap` after each push.
pub open spec fn record_all(
    history: Seq<EventView>,
    pushed: Seq<EventView>,
    cap: Option<u16>,
) -> Seq<EventView>
    decreases pushed.len(),
{
    if pushed.len() == 0 {
        history
    } else {
        trim_front(record_all(history, pushed.drop_last(), cap).push(pushed.last()), cap)
    }
}

/// Evicting after each push is the same as evicting once at the end.
proof fn lemma_trim_push(s: Seq<EventView>, e: EventView, c: u16)
    ensures
        trim_front(trim_front(s, Some(c)).push(e), Some(c)) == trim_front(s.push(e), Some(c)),
{
    let n = s.len() as int;
    if n < c {
        assert(trim_front(s, Some(c)) == s);
    } else {
        if n == c {
            assert(trim_front(s, Some(c)) == s);
            assert(trim_front(s.push(e), Some(c)) =~= s.push(e).subrange(n + 1 - c, n + 1));
        } else {
            let t = s.subrange(n - c, n);
            assert(trim_front(s, Some(c)) == t);
            assert(t.push(e) =~= s.push(e).subrange(n - c, n + 1));
            assert(trim_front(t.push(e), Some(c)) =~= s.push(e).subrange(n + 1 - c, n + 1));
            assert(trim_front(s.push(e), Some(c)) == s.push(e).subrange(n + 1 - c, n + 1));
        }
    }
}

/// The capacity law: starting within a finite capacity `c`, any run of
/// recorded events leaves the undo side within `c`, holding exactly the
/// newest events — the oldest, not the newest, are the ones evicted.
pub proof fn lemma_capacity_window(history: Seq<EventView>, pushed: Seq<EventView>, c: u16)
    requires
        history.len() <= c,
    ensures
        record_all(history, pushed, Some(c)) == trim_front(history + pushed, Some(c)),
        record_all(history, pushed, Some(c)).len() <= c,
        history.len() + pushed.len() > c ==> record_all(history, pushed, Some(c)) == (history
            + pushed).subrange(
            history.len() + pushed.len() - c,
            history.len() + pushed.len() as int,
        ),
    decreases pushed.len(),
{
    if pushed.len() == 0 {
        assert(history + pushed =~= history);
    } else {
        let e = pushed.last();
        lemma_capacity_window(history, pushed.drop_last(), c);
        lemma_trim_push(history + pushed.drop_last(), e, c);
        assert((history + pushed.drop_last()).push(e) =~= history + pushed);
    }
}

proof fn lemma_views_push(s: Seq<Event>, e: Event)
    ensures
        views_of(s.push(e)) == views_of(s).push(e@),
{
    assert(views_of(s.push(e)) =~= views_of(s).push(e@));
}

proof fn lemma_views_drop_last(s: Seq<Event>)
    requires
        s.len() > 0,
    ensures
        views_of(s).last() == s.last()@,
        views_of(s.drop_last()) == views_of(s).drop_last(),
{
    assert(views_of(s.drop_last()) =~= views_of(s).drop_last());
}

proof fn lemma_views_subrange(s: Seq<Event>, a: int, b: int)
    requires
        0 <= a <= b <= s.len(),
    ensures
        views_of(s.subrange(a, b)) == views_of(s).subrange(a, b),
{
    assert(views_of(s.subrange(a, b)) =~= views_of(s).subrange(a, b));
}

} // verus!
