//! Top-K selection: from a frequency table to a leaderboard.

use vstd::prelude::*;
use crate::frequency::{is_listing, lemma_listing_len, FrequencyTable, LeaderboardEntry};

verus! {

/// Counts never fall from one place of `list` to a later one.
pub open spec fn ascending(list: Seq<LeaderboardEntry>) -> bool {
    forall|i: int, j: int|
        0 <= i <= j < list.len() ==> (#[trigger] list[i]).count <= (#[trigger] list[j]).count
}

/// Counts never rise from one place of `list` to a later one.
pub open spec fn descending(list: Seq<LeaderboardEntry>) -> bool {
    forall|i: int, j: int|
        0 <= i <= j < list.len() ==> (#[trigger] list[i]).count >= (#[trigger] list[j]).count
}

/// Some entry of `list` carries the label `l`.
pub open spec fn names(list: Seq<LeaderboardEntry>, l: Seq<char>) -> bool {
    exists|i: int| 0 <= i < list.len() && (#[trigger] list[i])@.0 == l
}

/// The last `min(k, sorted.len())` entries of `sorted`, the last one first.
pub open spec fn top_of(sorted: Seq<LeaderboardEntry>, k: nat) -> Seq<(Seq<char>, nat)> {
    Seq::new(
        if k <= sorted.len() { k } else { sorted.len() },
        |i: int| sorted[sorted.len() - 1 - i]@,
    )
}

/// `board` is a leaderboard of length `k` over `table`: it names
/// `min(k, number of labels)` different labels of the table, each with its
/// count, highest count first, and no label that it leaves out has a higher
/// count than one that it names. Which of several labels with equal counts
/// come first, or are left out, is open.
pub open spec fn is_leaderboard(
    board: Seq<LeaderboardEntry>,
    table: Map<Seq<char>, nat>,
    k: nat,
) -> bool {
    &&& table.dom().finite()
    &&& board.len() == if k <= table.dom().len() { k } else { table.dom().len() }
    &&& forall|i: int|
        0 <= i < board.len() ==> table.contains_pair((#[trigger] board[i])@.0, board[i]@.1)
    &&& forall|i: int, j: int|
        0 <= i < j < board.len() ==> (#[trigger] board[i])@.0 != (#[trigger] board[j])@.0
    &&& descending(board)
    &&& forall|l: Seq<char>, i: int|
        table.dom().contains(l) && !names(board, l) && 0 <= i < board.len() ==> #[trigger] table[l]
            <= (#[trigger] board[i])@.1
}

/// What stands where after an insertion.
proof fn lemma_insert_places<A>(s: Seq<A>, p: int, a: A)
    requires
        0 <= p <= s.len(),
    ensures
        s.insert(p, a).len() == s.len() + 1,
        forall|k: int| 0 <= k < p ==> #[trigger] s.insert(p, a)[k] == s[k],
        s.insert(p, a)[p] == a,
        forall|k: int| p < k <= s.len() ==> #[trigger] s.insert(p, a)[k] == s[k - 1],
{
}

/// The entries of `table`, lowest count first. In which order entries with
/// equal counts stand is open.
pub fn sorted_ascending(table: &FrequencyTable) -> (r: Vec<LeaderboardEntry>)
    requires
        table.wf(),
    ensures
        is_listing(r@, table@),
        ascending(r@),
{
    let list = table.as_entries();
    proof {
        table.lemma_listing();
    }
    let ghost m = table@;
    let mut out: Vec<LeaderboardEntry> = Vec::new();
    let mut i: usize = 0;
    while i < list.len()
        invariant
            i <= list.len(),
            is_listing(list@, m),
            out@.len() == i,
            ascending(out@),
            forall|k: int| 0 <= k < out@.len() ==> m.contains_pair((#[trigger] out@[k])@.0, out@[k]@.1),
            forall|k: int, j: int|
                0 <= k < j < out@.len() ==> (#[trigger] out@[k])@.0 != (#[trigger] out@[j])@.0,
            forall|k: int|
                0 <= k < out@.len() ==> exists|q: int|
                    0 <= q < i && (#[trigger] list@[q])@.0 == (#[trigger] out@[k])@.0,
            forall|q: int| 0 <= q < i ==> names(out@, (#[trigger] list@[q])@.0),
        decreases list.len() - i,
    {
        let e = LeaderboardEntry::copy_of(&list[i]);
        let mut p: usize = 0;
        while p < out.len() && out[p].count <= e.count
            invariant
                p <= out@.len(),
                forall|k: int| 0 <= k < p ==> (#[trigger] out@[k]).count <= e.count,
            decreases out@.len() - p,
        {
            p = p + 1;
        }
        let ghost before = out@;
        out.insert(p, e);
        proof {
            let after = out@;
            lemma_insert_places(before, p as int, e);
            assert(ascending(after));
            assert forall|k: int| 0 <= k < before.len() implies (#[trigger] before[k])@.0 != e@.0 by {
                let q = choose|q: int| 0 <= q < i && (#[trigger] list@[q])@.0 == before[k]@.0;
            }
            assert forall|k: int| 0 <= k < after.len() implies exists|q: int|
                0 <= q < i + 1 && (#[trigger] list@[q])@.0 == (#[trigger] after[k])@.0 by {
                if k != p {
                    let was = if k < p { k } else { k - 1 };
                    let q = choose|q: int|
                        0 <= q < i && (#[trigger] list@[q])@.0 == before[was]@.0;
                }
            }
            assert forall|q: int| 0 <= q < i + 1 implies names(after, (#[trigger] list@[q])@.0) by {
                if q < i {
                    let k = choose|k: int|
                        0 <= k < before.len() && (#[trigger] before[k])@.0 == list@[q]@.0;
                    let now = if k < p { k } else { k + 1 };
                    assert(after[now] == before[k]);
                }
            }
        }
        i = i + 1;
    }
    out
}

/// Reads the top `k` off a list sorted lowest count first: its last `k`
/// entries, the last one first; all of them where it has fewer than `k`.
pub fn take_top(sorted: &Vec<LeaderboardEntry>, k: usize) -> (r: Vec<LeaderboardEntry>)
    ensures
        r@.map_values(|e: LeaderboardEntry| e@) == top_of(sorted@, k as nat),
{
    let n = sorted.len();
    let take = if k <= n { k } else { n };
    let mut out: Vec<LeaderboardEntry> = Vec::new();
    let mut i: usize = 0;
    while i < take
        invariant
            n == sorted@.len(),
            take <= n,
            i <= take,
            out@.len() == i,
            forall|j: int| 0 <= j < i ==> (#[trigger] out@[j])@ == sorted@[n - 1 - j]@,
        decreases take - i,
    {
        out.push(LeaderboardEntry::copy_of(&sorted[n - 1 - i]));
        i = i + 1;
    }
    out
}

/// Reading the top `k` off the sorted listing of a table gives a leaderboard
/// of the table; with `k` no less than the number of labels it names them all.
pub proof fn lemma_top_of_sorted(
    sorted: Seq<LeaderboardEntry>,
    board: Seq<LeaderboardEntry>,
    table: Map<Seq<char>, nat>,
    k: nat,
)
    requires
        is_listing(sorted, table),
        ascending(sorted),
        board.map_values(|e: LeaderboardEntry| e@) == top_of(sorted, k),
    ensures
        is_leaderboard(board, table, k),
        k >= table.dom().len() ==> is_listing(board, table),
{
    lemma_listing_len(sorted, table);
    let n = sorted.len() as int;
    let views = board.map_values(|e: LeaderboardEntry| e@);
    assert(board.len() == views.len());
    assert forall|i: int| 0 <= i < board.len() implies (#[trigger] board[i])@ == sorted[n - 1 - i]@ by {
        assert(views[i] == board[i]@);
    }
    assert(descending(board));
    assert forall|i: int, j: int| 0 <= i < j < board.len() implies (#[trigger] board[i])@.0 != (
    #[trigger] board[j])@.0 by {}
    assert forall|l: Seq<char>| table.dom().contains(l) && !names(board, l) implies exists|q: int|
        0 <= q < n - board.len() && (#[trigger] sorted[q])@.0 == l by {
        let q = choose|q: int| 0 <= q < sorted.len() && (#[trigger] sorted[q])@.0 == l;
        if q >= n - board.len() {
            assert(board[n - 1 - q]@ == sorted[q]@);
        }
    }
    if k >= table.dom().len() {
        assert forall|l: Seq<char>| table.dom().contains(l) implies exists|i: int|
            0 <= i < board.len() && (#[trigger] board[i])@.0 == l by {
            let q = choose|q: int| 0 <= q < sorted.len() && (#[trigger] sorted[q])@.0 == l;
            assert(board[n - 1 - q]@ == sorted[q]@);
        }
    }
}

/// The leaderboard of the `k` most frequent labels of `table`, highest count
/// first. A table with fewer than `k` labels gives all of them.
pub fn leaderboard(table: &FrequencyTable, k: usize) -> (r: Vec<LeaderboardEntry>)
    requires
        table.wf(),
    ensures
        is_leaderboard(r@, table@, k as nat),
        k >= table@.dom().len() ==> is_listing(r@, table@),
{
    let sorted = sorted_ascending(table);
    let board = take_top(&sorted, k);
    proof {
        lemma_top_of_sorted(sorted@, board@, table@, k as nat);
    }
    board
}

} // verus!
