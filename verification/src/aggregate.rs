//! Frequency aggregation: from transcripts to frequency tables.

use vstd::prelude::*;
use crate::frequency::{
    count_in, lemma_occurrences_filter, lemma_occurrences_positive, lemma_occurrences_prefix,
    lemma_tally_push, occurrences, tally, FrequencyTable,
};
use crate::emotes::EmoteSet;
use crate::message::{ChatMessage, MessageView};
use crate::sequences::{lemma_filter_empty, lemma_filter_split, lemma_filter_take_step};
use crate::text::string_views;
use crate::tokens::{tokenize, tokens};

verus! {

/// Why an aggregation gave no table.
#[derive(Debug, Clone, Copy, PartialEq, Eq, Structural)]
pub enum AggregateError {
    /// A message whose send time had to be read carries a tag that is no
    /// decimal integer in the range of `i64`.
    MalformedTimestamp,
    /// Some label occurs more often than a `u32` counts.
    CountOverflow,
}

/// Every label of `labels` occurs at most `u32::MAX` times.
pub open spec fn countable(labels: Seq<Seq<char>>) -> bool {
    forall|l: Seq<char>| occurrences(labels, l) <= u32::MAX
}

/// The display names of `msgs`, in order.
pub open spec fn chatter_labels(msgs: Seq<ChatMessage>) -> Seq<Seq<char>> {
    msgs.map_values(|m: ChatMessage| m@.display_name)
}

/// `m` carries a readable send time that lies strictly after `cutoff`.
pub open spec fn sent_after(m: MessageView, cutoff: i64) -> bool {
    m.sent_at() matches Some(t) && cutoff < t
}

/// The messages of `msgs` that were sent strictly after `cutoff`.
pub open spec fn after_cutoff(msgs: Seq<ChatMessage>, cutoff: i64) -> Seq<ChatMessage> {
    msgs.filter(|m: ChatMessage| sent_after(m@, cutoff))
}

/// Every message of `msgs` carries a readable send time.
pub open spec fn all_stamped(msgs: Seq<ChatMessage>) -> bool {
    forall|i: int| 0 <= i < msgs.len() ==> (#[trigger] msgs[i])@.sent_at() is Some
}

/// The labels that the trailing-window leaderboard counts: the sender of every
/// message of `today`, then the sender of each message of `yesterday` that was
/// sent strictly after `cutoff`.
pub open spec fn recent_labels(
    today: Seq<ChatMessage>,
    yesterday: Seq<ChatMessage>,
    cutoff: i64,
) -> Seq<Seq<char>> {
    chatter_labels(today) + chatter_labels(after_cutoff(yesterday, cutoff))
}

/// One more message extends the filtered prefix by itself or by nothing.
proof fn lemma_after_cutoff_step(msgs: Seq<ChatMessage>, j: int, cutoff: i64)
    requires
        0 <= j < msgs.len(),
    ensures
        after_cutoff(msgs.take(j + 1), cutoff) == if sent_after(msgs[j]@, cutoff) {
            after_cutoff(msgs.take(j), cutoff).push(msgs[j])
        } else {
            after_cutoff(msgs.take(j), cutoff)
        },
{
    lemma_filter_take_step(msgs, j, |m: ChatMessage| sent_after(m@, cutoff));
}

/// Records `label` in `table`, which holds the tally of `done`, a prefix of
/// the labels `all`.
fn record_next(
    table: &mut FrequencyTable,
    label: &String,
    Ghost(done): Ghost<Seq<Seq<char>>>,
    Ghost(all): Ghost<Seq<Seq<char>>>,
) -> (ok: bool)
    requires
        old(table).wf(),
        old(table)@ == tally(done),
        done.len() < all.len(),
        all.take(done.len() as int) == done,
        all[done.len() as int] == label@,
    ensures
        final(table).wf(),
        ok ==> final(table)@ == tally(done.push(label@)),
        !ok ==> !countable(all),
{
    let ok = table.record(label);
    proof {
        lemma_tally_push(done, label@);
        if !ok {
            let longer = all.take(done.len() as int + 1);
            assert(longer.drop_last() =~= done);
            assert(occurrences(longer, label@) == occurrences(done, label@) + 1);
            lemma_occurrences_prefix(all, done.len() as int + 1, label@);
        }
    }
    ok
}

/// A table that holds a tally holds no count beyond `u32::MAX`.
proof fn lemma_tallied_countable(table: &FrequencyTable, labels: Seq<Seq<char>>)
    requires
        table.wf(),
        table@ == tally(labels),
    ensures
        countable(labels),
{
    table.lemma_listing();
    assert forall|l: Seq<char>| occurrences(labels, l) <= u32::MAX by {
        if occurrences(labels, l) > 0 {
            assert(table@.dom().contains(l));
            assert(table@[l] == occurrences(labels, l));
        }
    }
}

/// Counts the sender of every message of `msgs` into `table`, which holds the
/// tally of `done`; `rest` are the labels that follow those of `msgs`.
fn record_senders(
    table: &mut FrequencyTable,
    msgs: &Vec<ChatMessage>,
    Ghost(done): Ghost<Seq<Seq<char>>>,
    Ghost(rest): Ghost<Seq<Seq<char>>>,
) -> (ok: bool)
    requires
        old(table).wf(),
        old(table)@ == tally(done),
    ensures
        final(table).wf(),
        ok ==> final(table)@ == tally(done + chatter_labels(msgs@)),
        !ok ==> !countable(done + chatter_labels(msgs@) + rest),
{
    let ghost names = chatter_labels(msgs@);
    let ghost all = done + names + rest;
    let mut i: usize = 0;
    while i < msgs.len()
        invariant
            i <= msgs.len(),
            names == chatter_labels(msgs@),
            all == done + names + rest,
            table.wf(),
            table@ == tally(done + names.take(i as int)),
        decreases msgs.len() - i,
    {
        let ghost sofar = done + names.take(i as int);
        proof {
            assert(all.take(sofar.len() as int) =~= sofar);
            assert(all[sofar.len() as int] == msgs@[i as int]@.display_name);
            assert(sofar.push(msgs@[i as int]@.display_name) =~= done + names.take(i + 1));
        }
        let ok = record_next(table, &msgs[i].display_name, Ghost(sofar), Ghost(all));
        if !ok {
            return false;
        }
        i = i + 1;
    }
    proof {
        assert(names.take(i as int) =~= names);
    }
    true
}

/// The chatter leaderboard's table: for each sender of `msgs`, the number of
/// messages they sent.
///
/// Fails with `CountOverflow` exactly where some sender has more messages
/// than a `u32` counts.
pub fn count_chatters(msgs: &Vec<ChatMessage>) -> (r: Result<FrequencyTable, AggregateError>)
    ensures
        match r {
            Ok(t) => t.wf() && t@ == tally(chatter_labels(msgs@)) && countable(
                chatter_labels(msgs@),
            ),
            Err(e) => e == AggregateError::CountOverflow && !countable(chatter_labels(msgs@)),
        },
{
    let mut table = FrequencyTable::new();
    let ghost none = Seq::<Seq<char>>::empty();
    proof {
        assert(tally(none) =~= Map::<Seq<char>, nat>::empty());
        assert(none + chatter_labels(msgs@) =~= chatter_labels(msgs@));
        assert(none + chatter_labels(msgs@) + none =~= chatter_labels(msgs@));
    }
    if record_senders(&mut table, msgs, Ghost(none), Ghost(none)) {
        proof {
            lemma_tallied_countable(&table, chatter_labels(msgs@));
        }
        Ok(table)
    } else {
        Err(AggregateError::CountOverflow)
    }
}

/// Reads the send time of every message of `msgs`; `None` where one of them
/// carries no readable send time.
fn send_times(msgs: &Vec<ChatMessage>) -> (r: Option<Vec<i64>>)
    ensures
        match r {
            Some(v) => all_stamped(msgs@) && v@.len() == msgs@.len() && forall|i: int|
                0 <= i < msgs@.len() ==> (#[trigger] msgs@[i])@.sent_at() == Some(v@[i]),
            None => !all_stamped(msgs@),
        },
{
    let mut out: Vec<i64> = Vec::new();
    let mut i: usize = 0;
    while i < msgs.len()
        invariant
            i <= msgs.len(),
            out@.len() == i,
            forall|j: int| 0 <= j < i ==> (#[trigger] msgs@[j])@.sent_at() == Some(out@[j]),
        decreases msgs.len() - i,
    {
        match msgs[i].sent_at_epoch_millis() {
            Some(t) => {
                out.push(t);
            },
            None => {
                return None;
            },
        }
        i = i + 1;
    }
    Some(out)
}

/// The trailing-window chatter leaderboard's table: every message of `today`
/// counts for its sender; a message of `yesterday` counts for its sender only
/// if its send time is strictly greater than `cutoff`.
///
/// Fails with `MalformedTimestamp` exactly where a message of `yesterday`
/// carries no readable send time; otherwise with `CountOverflow` exactly
/// where some sender has more counted messages than a `u32` counts.
pub fn count_recent_chatters(
    today: &Vec<ChatMessage>,
    yesterday: &Vec<ChatMessage>,
    cutoff: i64,
) -> (r: Result<FrequencyTable, AggregateError>)
    ensures
        match r {
            Ok(t) => {
                &&& all_stamped(yesterday@)
                &&& countable(recent_labels(today@, yesterday@, cutoff))
                &&& t.wf()
                &&& t@ == tally(recent_labels(today@, yesterday@, cutoff))
            },
            Err(AggregateError::MalformedTimestamp) => !all_stamped(yesterday@),
            Err(AggregateError::CountOverflow) => all_stamped(yesterday@) && !countable(
                recent_labels(today@, yesterday@, cutoff),
            ),
        },
{
    let stamps = match send_times(yesterday) {
        Some(v) => v,
        None => {
            return Err(AggregateError::MalformedTimestamp);
        },
    };
    let ghost first = chatter_labels(today@);
    let ghost second = chatter_labels(after_cutoff(yesterday@, cutoff));
    let ghost all = first + second;
    let ghost none = Seq::<Seq<char>>::empty();
    let mut table = FrequencyTable::new();
    proof {
        assert(tally(none) =~= Map::<Seq<char>, nat>::empty());
        assert(none + first =~= first);
        assert(none + first + second =~= all);
    }
    if !record_senders(&mut table, today, Ghost(none), Ghost(second)) {
        return Err(AggregateError::CountOverflow);
    }
    let mut j: usize = 0;
    proof {
        lemma_filter_empty(|m: ChatMessage| sent_after(m@, cutoff));
        assert(yesterday@.take(0) =~= Seq::<ChatMessage>::empty());
        assert(chatter_labels(after_cutoff(yesterday@.take(0), cutoff)) =~= none);
        assert(first + none =~= first);
    }
    while j < yesterday.len()
        invariant
            j <= yesterday.len(),
            stamps@.len() == yesterday@.len(),
            forall|i: int|
                0 <= i < yesterday@.len() ==> (#[trigger] yesterday@[i])@.sent_at() == Some(
                    stamps@[i],
                ),
            first == chatter_labels(today@),
            second == chatter_labels(after_cutoff(yesterday@, cutoff)),
            all == first + second,
            table.wf(),
            table@ == tally(first + chatter_labels(after_cutoff(yesterday@.take(j as int), cutoff))),
        decreases yesterday.len() - j,
    {
        let ghost kept = after_cutoff(yesterday@.take(j as int), cutoff);
        let ghost sofar = first + chatter_labels(kept);
        proof {
            lemma_after_cutoff_step(yesterday@, j as int, cutoff);
            assert(yesterday@[j as int]@.sent_at() == Some(stamps@[j as int]));
        }
        if cutoff < stamps[j] {
            proof {
                let name = yesterday@[j as int]@.display_name;
                let kept_next = after_cutoff(yesterday@.take(j + 1), cutoff);
                assert(kept_next == kept.push(yesterday@[j as int]));
                assert(chatter_labels(kept_next) =~= chatter_labels(kept).push(name));
                assert(sofar.push(name) =~= first + chatter_labels(kept_next));
                lemma_after_cutoff_prefix(yesterday@, j + 1, cutoff);
                let whole = after_cutoff(yesterday@, cutoff);
                assert(whole[kept.len() as int] == whole.take(kept_next.len() as int)[kept.len() as int]);
                assert(whole.take(kept.len() as int) =~= kept_next.take(kept.len() as int));
                assert(kept_next.take(kept.len() as int) =~= kept);
                assert(second.take(kept.len() as int) =~= chatter_labels(kept));
                assert(second[kept.len() as int] == name);
                assert(all.take(sofar.len() as int) =~= sofar);
                assert(all[sofar.len() as int] == name);
            }
            let ok = record_next(&mut table, &yesterday[j].display_name, Ghost(sofar), Ghost(all));
            if !ok {
                return Err(AggregateError::CountOverflow);
            }
        }
        j = j + 1;
    }
    proof {
        assert(yesterday@.take(j as int) =~= yesterday@);
        lemma_tallied_countable(&table, all);
    }
    Ok(table)
}

/// The counted messages of a prefix are a prefix of the counted messages.
proof fn lemma_after_cutoff_prefix(msgs: Seq<ChatMessage>, k: int, cutoff: i64)
    requires
        0 <= k <= msgs.len(),
    ensures
        after_cutoff(msgs.take(k), cutoff).len() <= after_cutoff(msgs, cutoff).len(),
        after_cutoff(msgs, cutoff).take(after_cutoff(msgs.take(k), cutoff).len() as int)
            == after_cutoff(msgs.take(k), cutoff),
    decreases msgs.len() - k,
{
    if k == msgs.len() {
        assert(msgs.take(k) =~= msgs);
        assert(after_cutoff(msgs, cutoff).take(after_cutoff(msgs, cutoff).len() as int)
            =~= after_cutoff(msgs, cutoff));
    } else {
        lemma_after_cutoff_step(msgs, k, cutoff);
        lemma_after_cutoff_prefix(msgs, k + 1, cutoff);
        let whole = after_cutoff(msgs, cutoff);
        let longer = after_cutoff(msgs.take(k + 1), cutoff);
        let shorter = after_cutoff(msgs.take(k), cutoff);
        assert(whole.take(shorter.len() as int) =~= longer.take(shorter.len() as int));
        assert(longer.take(shorter.len() as int) =~= shorter);
    }
}

/// Every token of every message body of `msgs`, in order.
pub open spec fn token_stream(msgs: Seq<ChatMessage>) -> Seq<Seq<char>> {
    msgs.flat_map(|m: ChatMessage| tokens(m@.text))
}

/// The labels that the emote leaderboard counts: the tokens of `msgs` that
/// are, character for character, names of `emotes`.
pub open spec fn emote_labels(msgs: Seq<ChatMessage>, emotes: Set<Seq<char>>) -> Seq<Seq<char>> {
    token_stream(msgs).filter(|t: Seq<char>| emotes.contains(t))
}

/// One more message adds the emotes among its tokens to the labels.
proof fn lemma_emote_labels_step(msgs: Seq<ChatMessage>, i: int, emotes: Set<Seq<char>>)
    requires
        0 <= i < msgs.len(),
    ensures
        emote_labels(msgs.take(i + 1), emotes) == emote_labels(msgs.take(i), emotes) + tokens(
            msgs[i]@.text,
        ).filter(|t: Seq<char>| emotes.contains(t)),
{
    let f = |m: ChatMessage| tokens(m@.text);
    assert(msgs.take(i + 1) =~= msgs.take(i).push(msgs[i]));
    msgs.take(i).lemma_flat_map_push(f, msgs[i]);
    Seq::filter_distributes_over_add(
        token_stream(msgs.take(i)),
        tokens(msgs[i]@.text),
        |t: Seq<char>| emotes.contains(t),
    );
}

/// The labels of the first `k` messages come first among the labels of all.
proof fn lemma_emote_labels_split(msgs: Seq<ChatMessage>, k: int, emotes: Set<Seq<char>>) -> (rest:
    Seq<Seq<char>>)
    requires
        0 <= k <= msgs.len(),
    ensures
        emote_labels(msgs, emotes) == emote_labels(msgs.take(k), emotes) + rest,
    decreases msgs.len() - k,
{
    if k == msgs.len() {
        assert(msgs.take(k) =~= msgs);
        let rest = Seq::<Seq<char>>::empty();
        assert(emote_labels(msgs, emotes) =~= emote_labels(msgs, emotes) + rest);
        rest
    } else {
        let later = lemma_emote_labels_split(msgs, k + 1, emotes);
        lemma_emote_labels_step(msgs, k, emotes);
        let here = tokens(msgs[k]@.text).filter(|t: Seq<char>| emotes.contains(t));
        let rest = here + later;
        assert(emote_labels(msgs.take(k), emotes) + here + later =~= emote_labels(
            msgs.take(k),
            emotes,
        ) + rest);
        rest
    }
}

/// `r` is what counting the emotes of `msgs` gives: the tally of the emote
/// labels, or `CountOverflow` where some emote occurs too often for a `u32`.
pub open spec fn is_emote_count(
    r: Result<FrequencyTable, AggregateError>,
    msgs: Seq<ChatMessage>,
    emotes: Set<Seq<char>>,
) -> bool {
    match r {
        Ok(t) => t.wf() && t@ == tally(emote_labels(msgs, emotes)) && countable(
            emote_labels(msgs, emotes),
        ),
        Err(e) => e == AggregateError::CountOverflow && !countable(emote_labels(msgs, emotes)),
    }
}

/// A token is counted exactly where it is, character for character, an
/// emote name, and then as often as it occurs among the tokens of the
/// transcript. Tokens that differ, be it only in case, have counts of their
/// own.
pub proof fn lemma_counted_iff_emote(
    msgs: Seq<ChatMessage>,
    emotes: Set<Seq<char>>,
    token: Seq<char>,
)
    ensures
        tally(emote_labels(msgs, emotes)).dom().contains(token) <==> (emotes.contains(token)
            && token_stream(msgs).contains(token)),
        count_in(tally(emote_labels(msgs, emotes)), token) == if emotes.contains(token) {
            occurrences(token_stream(msgs), token)
        } else {
            0
        },
{
    lemma_occurrences_filter(token_stream(msgs), |t: Seq<char>| emotes.contains(t), token);
    lemma_occurrences_positive(token_stream(msgs), token);
}

/// Aggregating again gives the same: two results of counting the emotes of
/// one transcript against one emote set succeed or fail alike, and hold the
/// same table where they succeed.
pub proof fn lemma_emote_count_repeatable(
    first: Result<FrequencyTable, AggregateError>,
    second: Result<FrequencyTable, AggregateError>,
    msgs: Seq<ChatMessage>,
    emotes: Set<Seq<char>>,
)
    requires
        is_emote_count(first, msgs, emotes),
        is_emote_count(second, msgs, emotes),
    ensures
        first is Ok <==> second is Ok,
        first is Ok ==> first->Ok_0@ == second->Ok_0@,
        first is Err ==> first->Err_0 == second->Err_0,
{
}

/// The cutoff is strict: a message sent at the very instant of the cutoff is
/// left out, and one sent a millisecond later is counted.
pub proof fn lemma_cutoff_boundary(m: ChatMessage, cutoff: i64)
    ensures
        m@.sent_at() == Some(cutoff) ==> after_cutoff(seq![m], cutoff) == Seq::<ChatMessage>::empty(),
        cutoff < i64::MAX && m@.sent_at() == Some((cutoff + 1) as i64) ==> after_cutoff(
            seq![m],
            cutoff,
        ) == seq![m],
{
    reveal(Seq::filter);
    let one = seq![m];
    assert(one.drop_last() =~= Seq::<ChatMessage>::empty());
    assert(one.last() == m);
    lemma_filter_empty(|x: ChatMessage| sent_after(x@, cutoff));
    if cutoff < i64::MAX && m@.sent_at() == Some((cutoff + 1) as i64) {
        assert(Seq::<ChatMessage>::empty().push(m) =~= one);
    }
}

/// The emote leaderboard's table: for each name of `emotes` that occurs as a
/// token of a message body of `msgs`, the number of its occurrences. A token
/// counts only where it equals an emote name exactly.
///
/// Fails with `CountOverflow` exactly where some emote occurs more often than
/// a `u32` counts.
pub fn count_emotes(msgs: &Vec<ChatMessage>, emotes: &EmoteSet) -> (r: Result<
    FrequencyTable,
    AggregateError,
>)
    ensures
        is_emote_count(r, msgs@, emotes@),
{
    let ghost pred = |t: Seq<char>| emotes@.contains(t);
    let ghost all = emote_labels(msgs@, emotes@);
    let mut table = FrequencyTable::new();
    let mut i: usize = 0;
    proof {
        lemma_filter_empty(pred);
        assert(msgs@.take(0) =~= Seq::<ChatMessage>::empty());
        assert(token_stream(msgs@.take(0)) =~= Seq::<Seq<char>>::empty());
        assert(tally(Seq::<Seq<char>>::empty()) =~= Map::<Seq<char>, nat>::empty());
    }
    while i < msgs.len()
        invariant
            i <= msgs.len(),
            pred == |t: Seq<char>| emotes@.contains(t),
            all == emote_labels(msgs@, emotes@),
            table.wf(),
            table@ == tally(emote_labels(msgs@.take(i as int), emotes@)),
        decreases msgs.len() - i,
    {
        let toks = tokenize(msgs[i].text.as_str());
        let ghost tv = string_views(toks@);
        let ghost base = emote_labels(msgs@.take(i as int), emotes@);
        let ghost later = lemma_emote_labels_split(msgs@, i + 1, emotes@);
        proof {
            lemma_emote_labels_step(msgs@, i as int, emotes@);
            lemma_filter_empty(pred);
            assert(tv.take(0) =~= Seq::<Seq<char>>::empty());
            assert(base + tv.take(0).filter(pred) =~= base);
        }
        let mut j: usize = 0;
        while j < toks.len()
            invariant
                j <= toks.len(),
                tv == string_views(toks@),
                pred == |t: Seq<char>| emotes@.contains(t),
                all == emote_labels(msgs@, emotes@),
                all == base + tv.filter(pred) + later,
                table.wf(),
                table@ == tally(base + tv.take(j as int).filter(pred)),
            decreases toks.len() - j,
        {
            let ghost sofar = base + tv.take(j as int).filter(pred);
            proof {
                lemma_filter_take_step(tv, j as int, pred);
                assert(tv[j as int] == toks@[j as int]@);
            }
            if emotes.contains(&toks[j]) {
                proof {
                    let x = toks@[j as int]@;
                    lemma_filter_split(tv, j + 1, pred);
                    let rest = tv.skip(j + 1).filter(pred) + later;
                    assert(all =~= sofar.push(x) + rest);
                    assert(all.take(sofar.len() as int) =~= sofar);
                    assert(all[sofar.len() as int] == x);
                    assert(sofar.push(x) =~= base + tv.take(j + 1).filter(pred));
                }
                let ok = record_next(&mut table, &toks[j], Ghost(sofar), Ghost(all));
                if !ok {
                    return Err(AggregateError::CountOverflow);
                }
            }
            j = j + 1;
        }
        proof {
            assert(tv.take(j as int) =~= tv);
        }
        i = i + 1;
    }
    proof {
        assert(msgs@.take(i as int) =~= msgs@);
        lemma_tallied_countable(&table, all);
    }
    Ok(table)
}

} // verus!
