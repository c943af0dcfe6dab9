//! The tailing loop as a state machine: where to start reading, what to do
//! with each record, and when to stop. Reading, writing and saving are
//! carried out by the caller, which feeds each outcome back in.
use vstd::prelude::*;
use crate::format::{format_record, opt_view, outcome, FormatError, LogRecord, RecordView};

verus! {

/// The states of the tailing loop.
#[derive(Debug, Clone, Copy, PartialEq, Eq, Structural)]
pub enum Phase {
    /// Not yet positioned in the journal.
    Seeking,
    /// Waiting for the next record.
    Reading,
    /// A record has been handed out; its line and cursor are being written.
    Delivering,
    /// Shut down; no further record is taken.
    Stopped,
}

/// Where to position the journal before stepping back one record.
#[derive(Debug)]
pub enum Seek {
    /// The end of the journal: only records that arrive from now on are read.
    Tail,
    /// The record with this position token: reading goes on right after it.
    Cursor(String),
}

pub enum SeekView {
    Tail,
    Cursor(Seq<char>),
}

impl View for Seek {
    type V = SeekView;

    open spec fn view(&self) -> SeekView {
        match self {
            Seek::Tail => SeekView::Tail,
            Seek::Cursor(t) => SeekView::Cursor(t@),
        }
    }
}

/// The seek that a start with the saved cursor `saved` asks for.
pub open spec fn seek_spec(saved: Option<Seq<char>>) -> SeekView {
    match saved {
        Some(t) => SeekView::Cursor(t),
        None => SeekView::Tail,
    }
}

/// The position token to persist after a record: the record's own token,
/// and only when its line was produced.
pub open spec fn save_spec(r: RecordView, local: Seq<char>) -> Option<Seq<char>> {
    if outcome(r, local) is Ok {
        r.cursor
    } else {
        None
    }
}

/// What the caller does with one record.
#[derive(Debug)]
pub struct Delivery {
    /// The line to append to the sink and flush, or why there is none.
    pub line: Result<String, FormatError>,
    /// The token to persist through the cursor store after the line is written.
    pub save: Option<String>,
}

/// The tailing loop's state.
pub struct Tailer {
    pub phase: Phase,
    /// The token of the last delivered record that carried one.
    pub position: Option<String>,
}

impl Tailer {
    /// A loop that has not yet been positioned.
    pub fn new() -> (r: Tailer)
        ensures
            r.phase == Phase::Seeking,
            r.position is None,
    {
        Tailer { phase: Phase::Seeking, position: None }
    }

    /// Starts from the saved cursor, if any, and says where to seek.
    pub fn start(&mut self, saved: Option<String>) -> (r: Seek)
        requires
            old(self).phase == Phase::Seeking,
        ensures
            final(self).phase == Phase::Reading,
            opt_view(final(self).position) == opt_view(saved),
            r@ == seek_spec(opt_view(saved)),
    {
        let r = match &saved {
            Some(t) => Seek::Cursor(t.clone()),
            None => Seek::Tail,
        };
        self.phase = Phase::Reading;
        self.position = saved;
        r
    }

    /// Takes one record and says what to write and what to persist; `local`
    /// is the record's time rendered in the local zone. A record that cannot
    /// be formatted yields its error and no token; the loop goes on.
    pub fn deliver(&mut self, rec: &LogRecord, local: &str) -> (d: Delivery)
        requires
            old(self).phase == Phase::Reading,
        ensures
            final(self).phase == Phase::Delivering,
            match d.line {
                Ok(l) => outcome(rec@, local@) == Ok::<Seq<char>, FormatError>(l@),
                Err(e) => outcome(rec@, local@) == Err::<Seq<char>, FormatError>(e),
            },
            opt_view(d.save) == save_spec(rec@, local@),
            opt_view(final(self).position) == match save_spec(rec@, local@) {
                Some(t) => Some(t),
                None => opt_view(old(self).position),
            },
    {
        let line = format_record(rec, local);
        let save = match (&line, &rec.cursor) {
            (Ok(_), Some(t)) => Some(t.clone()),
            _ => None,
        };
        match &save {
            Some(t) => {
                self.position = Some(t.clone());
            },
            None => {},
        }
        self.phase = Phase::Delivering;
        Delivery { line, save }
    }

    /// Ends a delivery; `stop` is the shutdown flag as read now.
    pub fn finish(&mut self, stop: bool)
        requires
            old(self).phase == Phase::Delivering,
        ensures
            final(self).phase == (if stop { Phase::Stopped } else { Phase::Reading }),
            final(self).position == old(self).position,
    {
        if stop {
            self.phase = Phase::Stopped;
        } else {
            self.phase = Phase::Reading;
        }
    }

    /// Whether the loop has shut down.
    pub fn is_stopped(&self) -> (r: bool)
        ensures
            r == (self.phase == Phase::Stopped),
    {
        self.phase == Phase::Stopped
    }
}

/// One record as it arrives: its content, its time in the local zone, and
/// whether the shutdown flag is set when its delivery ends.
pub type Arrival = (RecordView, Seq<char>, bool);

/// The lines that one record adds to the sink.
pub open spec fn lines_for(r: RecordView, local: Seq<char>) -> Seq<Seq<char>> {
    match outcome(r, local) {
        Ok(l) => seq![l],
        Err(_) => seq![],
    }
}

/// The lines a running loop writes while records arrive as in `arrivals`:
/// each record is delivered in turn until the shutdown flag is seen set.
pub open spec fn session_lines(arrivals: Seq<Arrival>) -> Seq<Seq<char>>
    decreases arrivals.len(),
{
    if arrivals.len() == 0 {
        seq![]
    } else {
        let a = arrivals[0];
        if a.2 {
            lines_for(a.0, a.1)
        } else {
            lines_for(a.0, a.1) + session_lines(arrivals.drop_first())
        }
    }
}

/// The number of records a running loop takes from `arrivals` before it stops.
pub open spec fn session_taken(arrivals: Seq<Arrival>) -> nat
    decreases arrivals.len(),
{
    if arrivals.len() == 0 {
        0
    } else if arrivals[0].2 {
        1
    } else {
        1 + session_taken(arrivals.drop_first())
    }
}

/// The index in `log` of the first record read after the seek `s` and one
/// step back: the journal stands on the sought record (or on the last one),
/// and the next read yields the record after it.
pub open spec fn resume_index(log: Seq<RecordView>, s: SeekView) -> int {
    match s {
        SeekView::Tail => log.len() as int,
        SeekView::Cursor(t) => if exists|i: int| 0 <= i < log.len() && log[i].cursor == Some(t) {
            (choose|i: int| 0 <= i < log.len() && log[i].cursor == Some(t)) + 1
        } else {
            log.len() as int
        },
    }
}

/// Every record of `log` carries a token, and no two carry the same one.
pub open spec fn tokens_distinct(log: Seq<RecordView>) -> bool {
    &&& forall|i: int| 0 <= i < log.len() ==> (#[trigger] log[i]).cursor is Some
    &&& forall|i: int, j: int|
        0 <= i < log.len() && 0 <= j < log.len() && i != j ==> (#[trigger] log[i]).cursor
            != (#[trigger] log[j]).cursor
}

/// Resuming after a restart: when the token of record `k` was the last one
/// persisted, the restarted loop reads on from record `k + 1`, so records
/// `k + 1 ..` are each taken once and record `k` is not taken again.
pub proof fn lemma_resume_after_restart(log: Seq<RecordView>, k: int)
    requires
        tokens_distinct(log),
        0 <= k < log.len(),
    ensures
        resume_index(log, seek_spec(log[k].cursor)) == k + 1,
{
    let t = log[k].cursor.unwrap();
    assert(0 <= k < log.len() && log[k].cursor == Some(t));
    let i = choose|i: int| 0 <= i < log.len() && log[i].cursor == Some(t);
    if i != k {
        assert(log[i].cursor != log[k].cursor);
    }
}

/// A fresh start, with no saved cursor, reads only records written after
/// the start: none of the records already in the journal.
pub proof fn lemma_fresh_start(log: Seq<RecordView>)
    ensures
        resume_index(log, seek_spec(None)) == log.len(),
{
}

/// A record without a message adds nothing to the sink, and the records
/// after it are delivered just as if it had not been there.
pub proof fn lemma_missing_message_skipped(
    before: Seq<Arrival>,
    bad: Arrival,
    after: Seq<Arrival>,
)
    requires
        bad.0.message is None,
        !bad.2,
        forall|i: int| 0 <= i < before.len() ==> !(#[trigger] before[i]).2,
    ensures
        session_lines(before + seq![bad] + after) == session_lines(before) + session_lines(after),
    decreases before.len(),
{
    if before.len() == 0 {
        assert(before + seq![bad] + after =~= seq![bad] + after);
        assert((seq![bad] + after).drop_first() =~= after);
        assert(lines_for(bad.0, bad.1) =~= seq![]);
        assert(session_lines(before) =~= seq![]);
        assert(session_lines(before) + session_lines(after) =~= session_lines(after));
    } else {
        let rest = before.drop_first();
        lemma_missing_message_skipped(rest, bad, after);
        assert((before + seq![bad] + after).drop_first() =~= rest + seq![bad] + after);
        assert((before + seq![bad] + after)[0] == before[0]);
        assert(!before[0].2);
        let h = lines_for(before[0].0, before[0].1);
        assert(h + (session_lines(rest) + session_lines(after)) =~= (h + session_lines(rest))
            + session_lines(after));
    }
}

/// Once the shutdown flag is seen set after record `i`, no later record is
/// taken or written: the loop stops after at most that one more delivery.
pub proof fn lemma_stop_latency(arrivals: Seq<Arrival>, i: int)
    requires
        0 <= i < arrivals.len(),
        arrivals[i].2,
    ensures
        session_taken(arrivals) <= i + 1,
        session_lines(arrivals) == session_lines(arrivals.take(i + 1)),
    decreases i,
{
    if arrivals[0].2 {
        assert(arrivals.take(i + 1)[0] == arrivals[0]);
    } else {
        let rest = arrivals.drop_first();
        lemma_stop_latency(rest, i - 1);
        assert(arrivals.take(i + 1).drop_first() =~= rest.take(i));
        assert(arrivals.take(i + 1)[0] == arrivals[0]);
    }
}

/// The records of `arrivals`, in order.
pub open spec fn records_of(arrivals: Seq<Arrival>) -> Seq<RecordView> {
    arrivals.map_values(|a: Arrival| a.0)
}

/// The same arrivals with the shutdown flag never seen set.
pub open spec fn without_stops(arrivals: Seq<Arrival>) -> Seq<Arrival> {
    arrivals.map_values(|a: Arrival| (a.0, a.1, false))
}

proof fn lemma_session_append(a: Seq<Arrival>, b: Seq<Arrival>)
    requires
        forall|i: int| 0 <= i < a.len() ==> !(#[trigger] a[i]).2,
    ensures
        session_lines(a + b) == session_lines(a) + session_lines(b),
    decreases a.len(),
{
    if a.len() == 0 {
        assert(a + b =~= b);
        assert(session_lines(a) + session_lines(b) =~= session_lines(b));
    } else {
        lemma_session_append(a.drop_first(), b);
        assert((a + b).drop_first() =~= a.drop_first() + b);
        assert((a + b)[0] == a[0]);
        assert(!a[0].2);
        let h = lines_for(a[0].0, a[0].1);
        assert(h + (session_lines(a.drop_first()) + session_lines(b)) =~= (h + session_lines(
            a.drop_first(),
        )) + session_lines(b));
    }
}

proof fn lemma_session_last_stop(a: Seq<Arrival>)
    requires
        forall|i: int| 0 <= i < a.len() - 1 ==> !(#[trigger] a[i]).2,
    ensures
        session_lines(a) == session_lines(without_stops(a)),
    decreases a.len(),
{
    if a.len() > 0 {
        let w = without_stops(a);
        assert(w[0] == (a[0].0, a[0].1, false));
        assert(w.drop_first() =~= without_stops(a.drop_first()));
        if a.len() == 1 {
            assert(session_lines(a.drop_first()) =~= seq![]);
            assert(session_lines(w.drop_first()) =~= seq![]);
            assert(lines_for(a[0].0, a[0].1) + seq![] =~= lines_for(a[0].0, a[0].1));
        } else {
            assert(!a[0].2);
            lemma_session_last_stop(a.drop_first());
        }
    }
}

/// Stopping and restarting neither repeats nor drops a record: when a run
/// delivered the first `k` records, the last of them with a line and a
/// token, and a restarted run goes on from the token it saved, the lines of
/// the two runs together are the lines of one uninterrupted run.
pub proof fn lemma_restart_continues(arrivals: Seq<Arrival>, k: int)
    requires
        tokens_distinct(records_of(arrivals)),
        0 < k < arrivals.len(),
        forall|i: int| 0 <= i < k - 1 ==> !(#[trigger] arrivals[i]).2,
        forall|i: int| k <= i < arrivals.len() ==> !(#[trigger] arrivals[i]).2,
        outcome(arrivals[k - 1].0, arrivals[k - 1].1) is Ok,
    ensures
        save_spec(arrivals[k - 1].0, arrivals[k - 1].1) == arrivals[k - 1].0.cursor,
        resume_index(
            records_of(arrivals),
            seek_spec(save_spec(arrivals[k - 1].0, arrivals[k - 1].1)),
        ) == k,
        session_lines(arrivals.take(k)) + session_lines(arrivals.skip(k)) == session_lines(
            without_stops(arrivals),
        ),
{
    let log = records_of(arrivals);
    assert(log[k - 1] == arrivals[k - 1].0);
    lemma_resume_after_restart(log, k - 1);
    let first = arrivals.take(k);
    let rest = arrivals.skip(k);
    assert forall|i: int| 0 <= i < first.len() - 1 implies !(#[trigger] first[i]).2 by {
        assert(first[i] == arrivals[i]);
    }
    lemma_session_last_stop(first);
    assert forall|i: int| 0 <= i < rest.len() - 1 implies !(#[trigger] rest[i]).2 by {
        assert(rest[i] == arrivals[k + i]);
    }
    lemma_session_last_stop(rest);
    let wf = without_stops(first);
    assert forall|i: int| 0 <= i < wf.len() implies !(#[trigger] wf[i]).2 by {}
    lemma_session_append(wf, without_stops(rest));
    assert(without_stops(arrivals) =~= wf + without_stops(rest));
}

} // verus!
