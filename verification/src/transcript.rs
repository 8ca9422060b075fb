//! The merged transcript: the batches of the day-units that were retrieved,
//! one batch per day-unit at most.

use vstd::prelude::*;
use crate::calendar::DayUnit;
use crate::message::ChatMessage;
use crate::retry::{day_yield, fails_throughout, lemma_failing_day_yields_nothing, replay_day, FetchError, RetryPolicy};

verus! {

/// The messages of one day-unit.
#[derive(Debug)]
pub struct DayBatch {
    pub day: DayUnit,
    pub messages: Vec<ChatMessage>,
}

/// The attempts of one day-task as they ended, first attempt first.
#[derive(Debug)]
pub struct DayRecord {
    pub day: DayUnit,
    pub outcomes: Vec<Result<Vec<ChatMessage>, FetchError>>,
}

/// The accumulator of a retrieval session. It holds the batches in the order
/// in which they were merged, and never two batches of the same day-unit.
#[derive(Debug)]
pub struct MergedTranscript {
    batches: Vec<DayBatch>,
}

/// Some batch of `batches` belongs to `day`.
pub open spec fn has_day(batches: Seq<(DayUnit, Seq<ChatMessage>)>, day: DayUnit) -> bool {
    exists|i: int| 0 <= i < batches.len() && (#[trigger] batches[i]).0 == day
}

/// No two batches of `batches` belong to the same day-unit.
pub open spec fn distinct_days(batches: Seq<(DayUnit, Seq<ChatMessage>)>) -> bool {
    forall|i: int, j: int|
        0 <= i < j < batches.len() ==> (#[trigger] batches[i]).0 != (#[trigger] batches[j]).0
}

/// The messages of all batches, batch after batch.
pub open spec fn merged_messages(batches: Seq<(DayUnit, Seq<ChatMessage>)>) -> Seq<ChatMessage> {
    batches.flat_map(|b: (DayUnit, Seq<ChatMessage>)| b.1)
}

/// No two records of `records` belong to the same day-unit.
pub open spec fn distinct_records(records: Seq<DayRecord>) -> bool {
    forall|i: int, j: int|
        0 <= i < j < records.len() ==> (#[trigger] records[i]).day != (#[trigger] records[j]).day
}

/// What a session merges when its day-tasks, each with the attempt budget
/// `budget`, end as `records` say and are merged in the order of `records`:
/// the batch of every day-task that yields one, unless its day-unit was
/// merged before. A day-task that yields nothing leaves no trace.
pub open spec fn session_yield(records: Seq<DayRecord>, budget: nat) -> Seq<
    (DayUnit, Seq<ChatMessage>),
>
    decreases records.len(),
{
    if records.len() == 0 {
        Seq::empty()
    } else {
        let before = session_yield(records.drop_last(), budget);
        let last = records.last();
        match day_yield(last.outcomes@, budget) {
            Some(batch) => if has_day(before, last.day) {
                before
            } else {
                before.push((last.day, batch))
            },
            None => before,
        }
    }
}

/// Every batch that a session merges belongs to the day-unit of one of its
/// records, and is what that record's day-task yields.
pub proof fn lemma_session_yield_sound(records: Seq<DayRecord>, budget: nat, i: int)
    requires
        0 <= i < session_yield(records, budget).len(),
    ensures
        exists|k: int|
            0 <= k < records.len() && (#[trigger] records[k]).day == session_yield(
                records,
                budget,
            )[i].0 && day_yield(records[k].outcomes@, budget) == Some(
                session_yield(records, budget)[i].1,
            ),
    decreases records.len(),
{
    let merged = session_yield(records, budget);
    let before = session_yield(records.drop_last(), budget);
    if i < before.len() {
        lemma_session_yield_sound(records.drop_last(), budget, i);
        let k = choose|k: int|
            0 <= k < records.drop_last().len() && (#[trigger] records.drop_last()[k]).day
                == before[i].0 && day_yield(records.drop_last()[k].outcomes@, budget) == Some(
                before[i].1,
            );
        assert(records[k] == records.drop_last()[k]);
        assert(merged[i] == before[i]);
    } else {
        assert(records[records.len() - 1] == records.last());
    }
}

/// A session never merges two batches of one day-unit.
pub proof fn lemma_session_yield_distinct(records: Seq<DayRecord>, budget: nat)
    ensures
        distinct_days(session_yield(records, budget)),
    decreases records.len(),
{
    if records.len() > 0 {
        lemma_session_yield_distinct(records.drop_last(), budget);
    }
}

/// The partial-result property. Among day-tasks of different day-units, one
/// whose attempts all fail is absent from what the session merges, and every
/// one that yields a batch is present with exactly that batch.
pub proof fn lemma_partial_result(records: Seq<DayRecord>, budget: nat, k: int)
    requires
        distinct_records(records),
        0 <= k < records.len(),
    ensures
        fails_throughout(records[k].outcomes@, budget) ==> !has_day(
            session_yield(records, budget),
            records[k].day,
        ),
        day_yield(records[k].outcomes@, budget) matches Some(batch) ==> session_yield(
            records,
            budget,
        ).contains((records[k].day, batch)),
    decreases records.len(),
{
    let merged = session_yield(records, budget);
    let shorter = records.drop_last();
    let before = session_yield(shorter, budget);
    let last = records.last();
    assert(distinct_records(shorter)) by {
        assert forall|i: int, j: int| 0 <= i < j < shorter.len() implies (#[trigger] shorter[i]).day
            != (#[trigger] shorter[j]).day by {
            assert(shorter[i] == records[i] && shorter[j] == records[j]);
        }
    }
    if fails_throughout(records[k].outcomes@, budget) {
        lemma_failing_day_yields_nothing(records[k].outcomes@, budget);
    }
    if k < shorter.len() {
        assert(shorter[k] == records[k]);
        lemma_partial_result(shorter, budget, k);
        if fails_throughout(records[k].outcomes@, budget) {
            if has_day(merged, records[k].day) {
                let i = choose|i: int| 0 <= i < merged.len() && (#[trigger] merged[i]).0 == records[k].day;
                if i < before.len() {
                    assert(before[i] == merged[i]);
                    assert(has_day(before, records[k].day));
                } else {
                    assert(merged[i].0 == last.day);
                    assert(records[k].day != records[records.len() - 1].day);
                }
            }
        }
        if let Some(batch) = day_yield(records[k].outcomes@, budget) {
            let i = choose|i: int| 0 <= i < before.len() && before[i] == (records[k].day, batch);
            assert(merged[i] == before[i]);
        }
    } else {
        assert(records[k] == last);
        if fails_throughout(last.outcomes@, budget) {
            if has_day(before, last.day) {
                let i = choose|i: int| 0 <= i < before.len() && (#[trigger] before[i]).0 == last.day;
                lemma_session_yield_sound(shorter, budget, i);
                let q = choose|q: int|
                    0 <= q < shorter.len() && (#[trigger] shorter[q]).day == before[i].0
                        && day_yield(shorter[q].outcomes@, budget) == Some(before[i].1);
                assert(shorter[q] == records[q]);
                assert(records[q].day != records[records.len() - 1].day);
            }
            assert(merged == before);
        }
        if let Some(batch) = day_yield(last.outcomes@, budget) {
            if has_day(before, last.day) {
                let i = choose|i: int| 0 <= i < before.len() && (#[trigger] before[i]).0 == last.day;
                lemma_session_yield_sound(shorter, budget, i);
                let q = choose|q: int|
                    0 <= q < shorter.len() && (#[trigger] shorter[q]).day == before[i].0
                        && day_yield(shorter[q].outcomes@, budget) == Some(before[i].1);
                assert(shorter[q] == records[q]);
                assert(records[q].day != records[records.len() - 1].day);
            }
            assert(merged == before.push((last.day, batch)));
            assert(merged[merged.len() - 1] == (last.day, batch));
        }
    }
}

impl View for MergedTranscript {
    type V = Seq<(DayUnit, Seq<ChatMessage>)>;

    closed spec fn view(&self) -> Seq<(DayUnit, Seq<ChatMessage>)> {
        self.batches@.map_values(|b: DayBatch| (b.day, b.messages@))
    }
}

impl MergedTranscript {
    /// The invariant of the accumulator: one batch per day-unit at most.
    pub open spec fn wf(&self) -> bool {
        distinct_days(self@)
    }

    /// The accumulator before anything was merged.
    pub fn new() -> (t: MergedTranscript)
        ensures
            t.wf(),
            t@ == Seq::<(DayUnit, Seq<ChatMessage>)>::empty(),
    {
        let t = MergedTranscript { batches: Vec::new() };
        assert(t@ =~= Seq::<(DayUnit, Seq<ChatMessage>)>::empty());
        t
    }

    /// Whether a batch of `day` was merged.
    pub fn contains_day(&self, day: DayUnit) -> (r: bool)
        ensures
            r == has_day(self@, day),
    {
        let mut i: usize = 0;
        while i < self.batches.len()
            invariant
                i <= self.batches@.len(),
                forall|j: int| 0 <= j < i ==> (#[trigger] self@[j]).0 != day,
            decreases self.batches@.len() - i,
        {
            assert(self@[i as int].0 == self.batches@[i as int].day);
            if self.batches[i].day == day {
                return true;
            }
            i = i + 1;
        }
        false
    }

    /// Merges the batch of `day`: it comes after all batches merged before.
    /// Where a batch of `day` was merged before, nothing changes and the
    /// result is `false`.
    pub fn absorb(&mut self, day: DayUnit, messages: Vec<ChatMessage>) -> (merged: bool)
        requires
            old(self).wf(),
        ensures
            final(self).wf(),
            merged == !has_day(old(self)@, day),
            merged ==> final(self)@ == old(self)@.push((day, messages@)),
            !merged ==> final(self)@ == old(self)@,
    {
        if self.contains_day(day) {
            return false;
        }
        self.batches.push(DayBatch { day, messages });
        proof {
            assert(self@ =~= old(self)@.push((day, messages@)));
            assert forall|i: int, j: int| 0 <= i < j < self@.len() implies (#[trigger] self@[i]).0 != (
            #[trigger] self@[j]).0 by {
                if j < old(self)@.len() {
                    assert(self@[i] == old(self)@[i] && self@[j] == old(self)@[j]);
                } else {
                    assert(self@[i] == old(self)@[i]);
                }
            }
        }
        true
    }

    /// The number of batches merged.
    pub fn day_count(&self) -> (n: usize)
        ensures
            n == self@.len(),
    {
        self.batches.len()
    }

    /// The day-units of the batches, in the order in which they were merged.
    pub fn days(&self) -> (r: Vec<DayUnit>)
        ensures
            r@ == self@.map_values(|b: (DayUnit, Seq<ChatMessage>)| b.0),
    {
        let mut out: Vec<DayUnit> = Vec::new();
        let mut i: usize = 0;
        while i < self.batches.len()
            invariant
                i <= self.batches@.len(),
                out@.len() == i,
                forall|j: int| 0 <= j < i ==> #[trigger] out@[j] == self@[j].0,
            decreases self.batches@.len() - i,
        {
            assert(self@[i as int].0 == self.batches@[i as int].day);
            out.push(self.batches[i].day);
            i = i + 1;
        }
        assert(out@ =~= self@.map_values(|b: (DayUnit, Seq<ChatMessage>)| b.0));
        out
    }

    /// The merged transcript: the messages of all batches, batch after batch.
    pub fn into_messages(self) -> (r: Vec<ChatMessage>)
        ensures
            r@ == merged_messages(self@),
    {
        let ghost whole = self@;
        let ghost f = |b: (DayUnit, Seq<ChatMessage>)| b.1;
        let mut out: Vec<ChatMessage> = Vec::new();
        proof {
            assert(whole.take(0) =~= Seq::<(DayUnit, Seq<ChatMessage>)>::empty());
            assert(merged_messages(whole.take(0)) =~= Seq::<ChatMessage>::empty());
        }
        for batch in it: self.batches
            invariant
                f == |b: (DayUnit, Seq<ChatMessage>)| b.1,
                whole == it.seq().map_values(|b: DayBatch| (b.day, b.messages@)),
                out@ == merged_messages(whole.take(it.index() as int)),
        {
            let mut messages = batch.messages;
            proof {
                let i = it.index() as int;
                assert(whole[i] == (batch.day, batch.messages@));
                assert(whole.take(i + 1) =~= whole.take(i).push(whole[i]));
                whole.take(i).lemma_flat_map_push(f, whole[i]);
            }
            out.append(&mut messages);
        }
        proof {
            assert(whole.take(whole.len() as int) =~= whole);
        }
        out
    }
}

/// Replays a retrieval session: runs one day-task per record under `policy`
/// over the attempts that the record holds, and merges what the tasks hand
/// out, in the order of the records.
pub fn replay_session(records: Vec<DayRecord>, policy: RetryPolicy) -> (r: MergedTranscript)
    ensures
        r.wf(),
        r@ == session_yield(records@, policy.max_attempts as nat),
{
    let ghost all = records@;
    let ghost budget = policy.max_attempts as nat;
    let mut merged = MergedTranscript::new();
    proof {
        assert(all.take(0) =~= Seq::<DayRecord>::empty());
    }
    for record in it: records
        invariant
            all == it.seq(),
            budget == policy.max_attempts as nat,
            merged.wf(),
            merged@ == session_yield(all.take(it.index() as int), budget),
    {
        proof {
            let i = it.index() as int;
            assert(all.take(i + 1).drop_last() =~= all.take(i));
            assert(all.take(i + 1).last() == record);
        }
        let day = record.day;
        match replay_day(day, policy, record.outcomes) {
            Some(batch) => {
                merged.absorb(day, batch);
            },
            None => {},
        }
    }
    proof {
        assert(all.take(all.len() as int) =~= all);
    }
    merged
}

} // verus!
