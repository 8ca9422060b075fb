//! The emote allow-list: the names that count as emotes.

use vstd::prelude::*;
use crate::text::string_set;

verus! {

/// A set of emote names. Membership is exact: names that differ in case, or
/// in anything else, are different names.
pub struct EmoteSet {
    names: Vec<String>,
}

impl View for EmoteSet {
    type V = Set<Seq<char>>;

    closed spec fn view(&self) -> Set<Seq<char>> {
        string_set(self.names@)
    }
}

impl EmoteSet {
    /// The set without names.
    pub fn new() -> (s: EmoteSet)
        ensures
            s@ == Set::<Seq<char>>::empty(),
    {
        let s = EmoteSet { names: Vec::new() };
        assert(s@ =~= Set::<Seq<char>>::empty());
        s
    }

    /// The union of the channel's own emote names and the global ones.
    pub fn from_lists(channel: Vec<String>, global: Vec<String>) -> (s: EmoteSet)
        ensures
            s@ == string_set(channel@).union(string_set(global@)),
    {
        let mut names = channel;
        let mut more = global;
        names.append(&mut more);
        let s = EmoteSet { names };
        proof {
            let all = channel@ + global@;
            assert(s.names@ == all);
            assert forall|n: Seq<char>| string_set(all).contains(n) <==> (string_set(
                channel@,
            ).contains(n) || string_set(global@).contains(n)) by {
                if string_set(channel@).contains(n) {
                    let i = choose|i: int| 0 <= i < channel@.len() && (#[trigger] channel@[i])@ == n;
                    assert(all[i]@ == n);
                }
                if string_set(global@).contains(n) {
                    let i = choose|i: int| 0 <= i < global@.len() && (#[trigger] global@[i])@ == n;
                    assert(all[channel@.len() + i]@ == n);
                }
                if string_set(all).contains(n) {
                    let i = choose|i: int| 0 <= i < all.len() && (#[trigger] all[i])@ == n;
                    if i < channel@.len() {
                        assert(channel@[i]@ == n);
                    } else {
                        assert(global@[i - channel@.len()]@ == n);
                    }
                }
            }
            assert(s@ =~= string_set(channel@).union(string_set(global@)));
        }
        s
    }

    /// Adds `name` to the set.
    pub fn insert(&mut self, name: String)
        ensures
            final(self)@ == old(self)@.insert(name@),
    {
        let ghost before = self.names@;
        self.names.push(name);
        proof {
            let after = self.names@;
            assert forall|n: Seq<char>| string_set(after).contains(n) <==> (string_set(
                before,
            ).contains(n) || n == name@) by {
                if string_set(before).contains(n) {
                    let i = choose|i: int| 0 <= i < before.len() && (#[trigger] before[i])@ == n;
                    assert(after[i]@ == n);
                }
                if n == name@ {
                    assert(after[after.len() - 1]@ == n);
                }
                if string_set(after).contains(n) {
                    let i = choose|i: int| 0 <= i < after.len() && (#[trigger] after[i])@ == n;
                    if i < before.len() {
                        assert(before[i]@ == n);
                    }
                }
            }
            assert(self@ =~= old(self)@.insert(name@));
        }
    }

    /// Whether `name` is in the set, character for character.
    pub fn contains(&self, name: &String) -> (r: bool)
        ensures
            r == self@.contains(name@),
    {
        let mut i: usize = 0;
        while i < self.names.len()
            invariant
                i <= self.names@.len(),
                forall|j: int| 0 <= j < i ==> (#[trigger] self.names@[j])@ != name@,
            decreases self.names@.len() - i,
        {
            if self.names[i] == *name {
                return true;
            }
            i = i + 1;
        }
        false
    }
}

} // verus!
