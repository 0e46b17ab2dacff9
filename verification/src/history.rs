//! The window of recent pulls.

use crate::clock::{now, Timestamp};
use crate::pull::PullType;
use std::collections::VecDeque;
use vstd::prelude::*;

verus! {

/// The most recent pulls, oldest first, and the size that bounds how many are
/// kept.
#[derive(Debug)]
pub struct PullHistory {
    pub history: VecDeque<(Timestamp, PullType, String)>,
    pub size: usize,
}

/// One recorded pull as a mathematical value.
pub struct RecordView {
    pub date_time: Timestamp,
    pub pull_type: PullType,
    pub name: Seq<char>,
}

/// A window as a mathematical value.
pub struct PullHistoryView {
    pub window: Seq<RecordView>,
    pub size: nat,
}

/// The mathematical value of one stored record.
pub open spec fn record_view(record: (Timestamp, PullType, String)) -> RecordView {
    RecordView { date_time: record.0, pull_type: record.1, name: record.2@ }
}

/// The mathematical values of a run of stored records.
pub open spec fn window_view(records: Seq<(Timestamp, PullType, String)>) -> Seq<RecordView> {
    records.map_values(|r: (Timestamp, PullType, String)| record_view(r))
}

impl PullHistoryView {
    /// Whether the window holds no more records than its size.
    pub open spec fn well_formed(self) -> bool {
        self.window.len() <= self.size
    }

    /// Whether some record of the window has the tier `pull_type`.
    pub open spec fn contains(self, pull_type: PullType) -> bool {
        exists|i: int| 0 <= i < self.window.len() && (#[trigger] self.window[i]).pull_type == pull_type
    }

    /// The window after `record` has been added: the record goes to the back,
    /// and if the window then holds as many records as its size or more, the
    /// oldest one leaves.
    pub open spec fn updated(self, record: RecordView) -> PullHistoryView {
        let pushed = self.window.push(record);
        PullHistoryView {
            window: if pushed.len() >= self.size {
                pushed.drop_first()
            } else {
                pushed
            },
            size: self.size,
        }
    }

    /// The window after each of `records` has been added, first to last.
    pub open spec fn updated_all(self, records: Seq<RecordView>) -> PullHistoryView
        decreases records.len(),
    {
        if records.len() == 0 {
            self
        } else {
            self.updated_all(records.drop_last()).updated(records.last())
        }
    }
}

impl View for PullHistory {
    type V = PullHistoryView;

    open spec fn view(&self) -> PullHistoryView {
        PullHistoryView {
            window: window_view(self.history@),
            size: self.size as nat,
        }
    }
}

impl PullHistory {
    /// An empty window of the given size.
    pub fn new(size: usize) -> (r: Self)
        ensures
            r@.window == Seq::<RecordView>::empty(),
            r@.size == size,
            r@.well_formed(),
    {
        let r = Self { history: VecDeque::new(), size };
        assert(r@.window =~= Seq::<RecordView>::empty());
        r
    }

    /// Adds a pull that happened at `date_time`.
    pub fn record(&mut self, date_time: Timestamp, pull_type: PullType, name: String)
        ensures
            final(self)@ == old(self)@.updated(RecordView { date_time, pull_type, name: name@ }),
            old(self)@.well_formed() ==> final(self)@.well_formed(),
    {
        let ghost record = RecordView { date_time, pull_type, name: name@ };
        self.history.push_back((date_time, pull_type, name));
        assert(self@.window =~= old(self)@.window.push(record));
        if self.history.len() >= self.size {
            self.history.pop_front();
            assert(self@.window =~= old(self)@.window.push(record).drop_first());
        }
    }

    /// Adds a pull that happens now: [`PullHistory::record`] with the time
    /// that the clock gives.
    pub fn update(&mut self, pull_type: PullType, name: String)
        ensures
            exists|date_time: Timestamp|
                final(self)@ == #[trigger] old(self)@.updated(
                    RecordView { date_time, pull_type, name: name@ },
                ),
            old(self)@.well_formed() ==> final(self)@.well_formed(),
    {
        let date_time = now();
        let ghost name_view = name@;
        self.record(date_time, pull_type, name);
        assert(self@ == old(self)@.updated(
            RecordView { date_time, pull_type, name: name_view },
        ));
    }

    /// Whether some recorded pull has the tier `pull_type`.
    pub fn contains(&self, pull_type: PullType) -> (r: bool)
        ensures
            r == self@.contains(pull_type),
    {
        let mut i: usize = 0;
        while i < self.history.len()
            invariant
                i <= self.history.len(),
                forall|j: int| 0 <= j < i ==> (#[trigger] self@.window[j]).pull_type != pull_type,
            decreases self.history.len() - i,
        {
            if self.history[i].1 == pull_type {
                assert(self@.window[i as int].pull_type == pull_type);
                return true;
            }
            i += 1;
        }
        false
    }

    /// The recorded pulls, oldest first.
    pub fn export(&self) -> (r: Vec<(Timestamp, PullType, String)>)
        ensures
            window_view(r@) == self@.window,
    {
        let mut out: Vec<(Timestamp, PullType, String)> = Vec::new();
        let mut i: usize = 0;
        while i < self.history.len()
            invariant
                i <= self.history.len(),
                out@.len() == i,
                forall|j: int| 0 <= j < i ==> out@[j] == self.history@[j],
            decreases self.history.len() - i,
        {
            let record = &self.history[i];
            out.push((record.0, record.1, record.2.clone()));
            i += 1;
        }
        assert(window_view(out@) =~= self@.window);
        out
    }
}

/// A window that holds no more than its size still does after a pull is
/// added.
pub proof fn law_window_stays_bounded(h: PullHistoryView, record: RecordView)
    requires
        h.well_formed(),
    ensures
        h.updated(record).well_formed(),
{
}

/// What a window holds after any number of pulls were added: the newest
/// records of the old window followed by the added ones, as many as the
/// window's length has come to; and that length, which grows by one with each
/// pull until one more would reach the size, and then stays.
pub proof fn lemma_updated_all(h: PullHistoryView, records: Seq<RecordView>)
    ensures
        ({
            let r = h.updated_all(records);
            let all = h.window + records;
            &&& r.size == h.size
            &&& r.window.len() <= all.len()
            &&& r.window == all.skip(all.len() - r.window.len())
            &&& r.window.len() == if h.window.len() + 1 >= h.size {
                h.window.len()
            } else if h.window.len() + records.len() + 1 >= h.size {
                (h.size - 1) as nat
            } else {
                h.window.len() + records.len()
            }
        }),
    decreases records.len(),
{
    let all = h.window + records;
    if records.len() == 0 {
        assert(all =~= h.window);
        assert(h.window.skip(0) =~= h.window);
    } else {
        let before = records.drop_last();
        lemma_updated_all(h, before);
        let mid = h.updated_all(before);
        let r = mid.updated(records.last());
        let all_before = h.window + before;
        assert(all =~= all_before.push(records.last()));
        assert(r.window =~= all.skip(all.len() - r.window.len()));
    }
}

/// After one pull more than its size has been added to a window that held no
/// more than its size, no record from before is left: the window holds
/// only the newest of the added pulls. It holds as many as its size if it was
/// full before, and one fewer if it was not.
pub proof fn law_window_turns_over(h: PullHistoryView, records: Seq<RecordView>)
    requires
        h.well_formed(),
        records.len() == h.size + 1,
    ensures
        ({
            let r = h.updated_all(records);
            &&& r.window.len() <= h.size
            &&& r.window == records.skip(records.len() - r.window.len())
            &&& h.window.len() == h.size ==> r.window.len() == h.size
            &&& h.window.len() < h.size ==> r.window.len() == h.size - 1
        }),
{
    lemma_updated_all(h, records);
    let r = h.updated_all(records);
    let all = h.window + records;
    assert(all.skip(all.len() - r.window.len()) =~= records.skip(
        records.len() - r.window.len(),
    ));
}

} // verus!
