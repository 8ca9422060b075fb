//! Frequency tables: how often each label was seen.

use vstd::prelude::*;

verus! {

/// A label with the number of times it was seen.
#[derive(Debug, Clone, PartialEq, Eq)]
pub struct LeaderboardEntry {
    pub label: String,
    pub count: u32,
}

impl View for LeaderboardEntry {
    type V = (Seq<char>, nat);

    open spec fn view(&self) -> (Seq<char>, nat) {
        (self.label@, self.count as nat)
    }
}

impl LeaderboardEntry {
    /// A copy of `e`.
    pub fn copy_of(e: &LeaderboardEntry) -> (r: LeaderboardEntry)
        ensures
            r@ == e@,
            r.count == e.count,
    {
        LeaderboardEntry { label: e.label.clone(), count: e.count }
    }
}

/// How many items of `labels` equal `x`.
pub open spec fn occurrences(labels: Seq<Seq<char>>, x: Seq<char>) -> nat
    decreases labels.len(),
{
    if labels.len() == 0 {
        0
    } else {
        occurrences(labels.drop_last(), x) + if labels.last() == x {
            1nat
        } else {
            0nat
        }
    }
}

/// The table that counting `labels` one by one gives: each label that occurs,
/// with the number of its occurrences.
pub open spec fn tally(labels: Seq<Seq<char>>) -> Map<Seq<char>, nat> {
    Map::new(|l: Seq<char>| occurrences(labels, l) > 0, |l: Seq<char>| occurrences(labels, l))
}

/// The count that `table` holds for `label`: zero where it holds none.
pub open spec fn count_in(table: Map<Seq<char>, nat>, label: Seq<char>) -> nat {
    if table.dom().contains(label) {
        table[label]
    } else {
        0
    }
}

/// `list` names each key of `table` exactly once, each with its count.
pub open spec fn is_listing(list: Seq<LeaderboardEntry>, table: Map<Seq<char>, nat>) -> bool {
    &&& forall|i: int|
        0 <= i < list.len() ==> table.contains_pair((#[trigger] list[i])@.0, list[i]@.1)
    &&& forall|i: int, j: int|
        0 <= i < j < list.len() ==> (#[trigger] list[i])@.0 != (#[trigger] list[j])@.0
    &&& forall|l: Seq<char>|
        table.dom().contains(l) ==> exists|i: int|
            0 <= i < list.len() && (#[trigger] list[i])@.0 == l
}

/// A listing has as many entries as its table has labels.
pub proof fn lemma_listing_len(list: Seq<LeaderboardEntry>, table: Map<Seq<char>, nat>)
    requires
        is_listing(list, table),
    ensures
        table.dom().finite(),
        table.dom().len() == list.len(),
    decreases list.len(),
{
    if list.len() == 0 {
        assert(table.dom() =~= Set::<Seq<char>>::empty());
    } else {
        let last = list.last();
        let rest = list.drop_last();
        let smaller = table.remove(last@.0);
        assert forall|i: int| 0 <= i < rest.len() implies smaller.contains_pair(
            (#[trigger] rest[i])@.0,
            rest[i]@.1,
        ) by {
            assert(rest[i] == list[i]);
            assert(list[i]@.0 != list[list.len() - 1]@.0);
        }
        assert forall|l: Seq<char>| smaller.dom().contains(l) implies exists|i: int|
            0 <= i < rest.len() && (#[trigger] rest[i])@.0 == l by {
            let i = choose|i: int| 0 <= i < list.len() && (#[trigger] list[i])@.0 == l;
            assert(rest[i] == list[i]);
        }
        assert forall|i: int, j: int| 0 <= i < j < rest.len() implies (#[trigger] rest[i])@.0 != (
        #[trigger] rest[j])@.0 by {
            assert(rest[i] == list[i] && rest[j] == list[j]);
        }
        lemma_listing_len(rest, smaller);
        assert(table.contains_pair(list[list.len() - 1]@.0, list[list.len() - 1]@.1));
        assert(table.dom() =~= smaller.dom().insert(last@.0));
    }
}

/// Counting one more `x` raises its count by one and leaves the others.
pub proof fn lemma_tally_push(labels: Seq<Seq<char>>, x: Seq<char>)
    ensures
        tally(labels.push(x)) == tally(labels).insert(x, occurrences(labels, x) + 1),
{
    let longer = labels.push(x);
    assert(longer.drop_last() =~= labels);
    assert(tally(longer) =~= tally(labels).insert(x, occurrences(labels, x) + 1));
}

/// A label occurs in a prefix no more often than in the whole sequence.
pub proof fn lemma_occurrences_prefix(labels: Seq<Seq<char>>, k: int, x: Seq<char>)
    requires
        0 <= k <= labels.len(),
    ensures
        occurrences(labels.take(k), x) <= occurrences(labels, x),
    decreases labels.len(),
{
    if k == labels.len() {
        assert(labels.take(k) =~= labels);
    } else {
        assert(labels.drop_last().take(k) =~= labels.take(k));
        lemma_occurrences_prefix(labels.drop_last(), k, x);
    }
}

/// A label occurs in a sequence exactly where its number of occurrences is
/// not zero.
pub proof fn lemma_occurrences_positive(labels: Seq<Seq<char>>, x: Seq<char>)
    ensures
        occurrences(labels, x) > 0 <==> labels.contains(x),
    decreases labels.len(),
{
    if labels.len() > 0 {
        let shorter = labels.drop_last();
        lemma_occurrences_positive(shorter, x);
        if shorter.contains(x) {
            let i = choose|i: int| 0 <= i < shorter.len() && shorter[i] == x;
            assert(labels[i] == x);
        }
        if labels.contains(x) && labels.last() != x {
            let i = choose|i: int| 0 <= i < labels.len() && labels[i] == x;
            assert(shorter[i] == x);
        }
        if labels.last() == x {
            assert(labels[labels.len() - 1] == x);
        }
    }
}

/// Filtering keeps every occurrence of a label that passes, and none of one
/// that does not.
pub proof fn lemma_occurrences_filter(
    labels: Seq<Seq<char>>,
    pred: spec_fn(Seq<char>) -> bool,
    x: Seq<char>,
)
    ensures
        occurrences(labels.filter(pred), x) == if pred(x) {
            occurrences(labels, x)
        } else {
            0
        },
    decreases labels.len(),
{
    reveal(Seq::filter);
    if labels.len() > 0 {
        let shorter = labels.drop_last();
        lemma_occurrences_filter(shorter, pred, x);
        if pred(labels.last()) {
            assert(shorter.filter(pred).push(labels.last()).drop_last() =~= shorter.filter(pred));
        }
    }
}

/// A table from labels to counts. Each label is held once; each count is at
/// least one and fits `u32`.
pub struct FrequencyTable {
    entries: Vec<LeaderboardEntry>,
}

impl View for FrequencyTable {
    type V = Map<Seq<char>, nat>;

    closed spec fn view(&self) -> Map<Seq<char>, nat> {
        Map::new(
            |l: Seq<char>| holds(self.entries@, l),
            |l: Seq<char>| self.entries@[slot_of(self.entries@, l)].count as nat,
        )
    }
}

/// Some entry of `entries` carries the label `l`.
spec fn holds(entries: Seq<LeaderboardEntry>, l: Seq<char>) -> bool {
    exists|i: int| 0 <= i < entries.len() && (#[trigger] entries[i]).label@ == l
}

/// The place of an entry of `entries` that carries the label `l`.
spec fn slot_of(entries: Seq<LeaderboardEntry>, l: Seq<char>) -> int {
    choose|i: int| 0 <= i < entries.len() && (#[trigger] entries[i]).label@ == l
}

/// No two entries carry the same label, and no entry has the count zero.
spec fn well_formed(entries: Seq<LeaderboardEntry>) -> bool {
    &&& forall|i: int, j: int|
        0 <= i < j < entries.len() ==> (#[trigger] entries[i]).label@ != (
        #[trigger] entries[j]).label@
    &&& forall|i: int| 0 <= i < entries.len() ==> (#[trigger] entries[i]).count > 0
}

impl FrequencyTable {
    /// The invariant of the table: labels are unique and counts positive.
    pub closed spec fn wf(&self) -> bool {
        well_formed(self.entries@)
    }

    /// The entries in the order in which their labels were first recorded.
    pub closed spec fn listing(&self) -> Seq<LeaderboardEntry> {
        self.entries@
    }

    /// The entries of a well-formed table list its contents.
    pub proof fn lemma_listing(&self)
        requires
            self.wf(),
        ensures
            is_listing(self.listing(), self@),
            forall|l: Seq<char>| self@.dom().contains(l) ==> 0 < #[trigger] self@[l] <= u32::MAX,
    {
        let es = self.entries@;
        assert forall|i: int| 0 <= i < es.len() implies self@.contains_pair(
            (#[trigger] es[i])@.0,
            es[i]@.1,
        ) by {
            let l = es[i].label@;
            assert(holds(es, l));
            let s = slot_of(es, l);
            assert(s == i);
        }
        assert forall|l: Seq<char>| self@.dom().contains(l) implies 0 < #[trigger] self@[l]
            <= u32::MAX by {
            let s = slot_of(es, l);
            assert(es[s].count > 0);
        }
    }

    /// An empty table.
    pub fn new() -> (t: FrequencyTable)
        ensures
            t.wf(),
            t@ == Map::<Seq<char>, nat>::empty(),
    {
        let t = FrequencyTable { entries: Vec::new() };
        assert(t@ =~= Map::<Seq<char>, nat>::empty());
        t
    }

    /// The entries as they are held.
    pub(crate) fn as_entries(&self) -> (r: &Vec<LeaderboardEntry>)
        ensures
            r@ == self.listing(),
    {
        &self.entries
    }

    /// The number of labels that the table holds.
    pub fn len(&self) -> (n: usize)
        requires
            self.wf(),
        ensures
            self@.dom().finite(),
            n == self@.dom().len(),
    {
        proof {
            self.lemma_listing();
            lemma_listing_len(self.listing(), self@);
        }
        self.entries.len()
    }

    /// Whether the table holds no label.
    pub fn is_empty(&self) -> (r: bool)
        requires
            self.wf(),
        ensures
            r == (self@ == Map::<Seq<char>, nat>::empty()),
    {
        proof {
            self.lemma_listing();
            if self.entries@.len() == 0 {
                assert(self@ =~= Map::<Seq<char>, nat>::empty());
            } else {
                assert(self@.contains_pair(self.entries@[0]@.0, self.entries@[0]@.1));
            }
        }
        self.entries.len() == 0
    }

    /// The entries of the table: each label once, with its count.
    pub fn entries(&self) -> (r: Vec<LeaderboardEntry>)
        requires
            self.wf(),
        ensures
            is_listing(r@, self@),
    {
        proof {
            self.lemma_listing();
        }
        let mut out: Vec<LeaderboardEntry> = Vec::new();
        let mut i: usize = 0;
        while i < self.entries.len()
            invariant
                i <= self.entries@.len(),
                out@.len() == i,
                forall|j: int| 0 <= j < i ==> (#[trigger] out@[j])@ == self.entries@[j]@,
            decreases self.entries@.len() - i,
        {
            out.push(LeaderboardEntry::copy_of(&self.entries[i]));
            i = i + 1;
        }
        proof {
            let list = self.entries@;
            assert forall|l: Seq<char>| self@.dom().contains(l) implies exists|k: int|
                0 <= k < out@.len() && (#[trigger] out@[k])@.0 == l by {
                let q = choose|q: int| 0 <= q < list.len() && (#[trigger] list[q])@.0 == l;
                assert(out@[q]@.0 == l);
            }
            assert forall|a: int, b: int| 0 <= a < b < out@.len() implies (#[trigger] out@[a])@.0 != (
            #[trigger] out@[b])@.0 by {
                assert(list[a]@.0 != list[b]@.0);
            }
            assert forall|k: int| 0 <= k < out@.len() implies self@.contains_pair(
                (#[trigger] out@[k])@.0,
                out@[k]@.1,
            ) by {
                assert(self@.contains_pair(list[k]@.0, list[k]@.1));
            }
        }
        out
    }

    /// The place of the entry with the given label, if there is one.
    fn find(&self, label: &String) -> (r: Option<usize>)
        ensures
            match r {
                Some(i) => i < self.entries@.len() && self.entries@[i as int].label@ == label@,
                None => !holds(self.entries@, label@),
            },
    {
        let mut i: usize = 0;
        while i < self.entries.len()
            invariant
                i <= self.entries@.len(),
                forall|j: int| 0 <= j < i ==> (#[trigger] self.entries@[j]).label@ != label@,
            decreases self.entries@.len() - i,
        {
            if self.entries[i].label == *label {
                return Some(i);
            }
            i = i + 1;
        }
        None
    }

    /// The count recorded for `label`; zero where it was never recorded.
    pub fn count_of(&self, label: &String) -> (c: u32)
        requires
            self.wf(),
        ensures
            c as nat == count_in(self@, label@),
    {
        match self.find(label) {
            Some(i) => {
                proof {
                    self.lemma_listing();
                }
                self.entries[i].count
            },
            None => 0,
        }
    }

    /// Counts one more occurrence of `label`. Where the count of `label`
    /// already is `u32::MAX`, the table stays as it is and the result is
    /// `false`.
    pub fn record(&mut self, label: &String) -> (ok: bool)
        requires
            old(self).wf(),
        ensures
            final(self).wf(),
            ok <==> count_in(old(self)@, label@) < u32::MAX,
            ok ==> final(self)@ == old(self)@.insert(label@, count_in(old(self)@, label@) + 1),
            !ok ==> final(self)@ == old(self)@,
    {
        proof {
            self.lemma_listing();
        }
        let ghost before = self.entries@;
        match self.find(label) {
            Some(i) => {
                let c = self.entries[i].count;
                if c == u32::MAX {
                    return false;
                }
                self.entries[i].count = c + 1;
                proof {
                    let after = self.entries@;
                    assert(after.len() == before.len());
                    assert forall|j: int| 0 <= j < after.len() implies (#[trigger] after[j]).label@
                        == before[j].label@ by {}
                    assert forall|l: Seq<char>| holds(after, l) <==> holds(before, l) by {
                        if holds(before, l) {
                            let s = slot_of(before, l);
                            assert(after[s].label@ == l);
                        }
                        if holds(after, l) {
                            let s = slot_of(after, l);
                            assert(before[s].label@ == l);
                        }
                    }
                    assert forall|l: Seq<char>| holds(after, l) implies after[slot_of(
                        after,
                        l,
                    )].count as nat == (if l == label@ {
                        c as nat + 1
                    } else {
                        before[slot_of(before, l)].count as nat
                    }) by {
                        let s = slot_of(after, l);
                        let t = slot_of(before, l);
                        assert(before[s].label@ == l);
                        assert(s == t);
                    }
                    assert(self@ =~= old(self)@.insert(label@, c as nat + 1));
                }
                true
            },
            None => {
                self.entries.push(LeaderboardEntry { label: label.clone(), count: 1 });
                proof {
                    let after = self.entries@;
                    assert(after.drop_last() =~= before);
                    assert(after.last().label@ == label@);
                    assert forall|l: Seq<char>| holds(after, l) <==> (holds(before, l) || l
                        == label@) by {
                        if holds(before, l) {
                            let s = slot_of(before, l);
                            assert(after[s].label@ == l);
                        }
                        if l == label@ {
                            assert(after[after.len() - 1].label@ == l);
                        }
                        if holds(after, l) {
                            let s = slot_of(after, l);
                            if s < before.len() {
                                assert(before[s].label@ == l);
                            }
                        }
                    }
                    assert forall|l: Seq<char>| holds(after, l) implies after[slot_of(
                        after,
                        l,
                    )].count as nat == (if l == label@ {
                        1nat
                    } else {
                        before[slot_of(before, l)].count as nat
                    }) by {
                        let s = slot_of(after, l);
                        if l == label@ {
                            if s < before.len() {
                                assert(before[s].label@ == l);
                            }
                        } else {
                            assert(before[s].label@ == l);
                            let t = slot_of(before, l);
                            assert(s == t);
                        }
                    }
                    assert(self@ =~= old(self)@.insert(label@, 1nat));
                }
                true
            },
        }
    }
}

} // verus!
