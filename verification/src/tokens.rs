//! Splitting a message body into whitespace-separated tokens.

use vstd::prelude::*;
use crate::text::{chars_of, string_views};

verus! {

/// `c` is a whitespace character: one of the code points that Unicode gives
/// the property `White_Space`.
pub open spec fn is_whitespace(c: char) -> bool {
    let u = c as u32;
    ||| 0x09 <= u <= 0x0d
    ||| u == 0x20
    ||| u == 0x85
    ||| u == 0xa0
    ||| u == 0x1680
    ||| 0x2000 <= u <= 0x200a
    ||| u == 0x2028
    ||| u == 0x2029
    ||| u == 0x202f
    ||| u == 0x205f
    ||| u == 0x3000
}

/// Whether `c` is a whitespace character.
pub fn is_whitespace_char(c: char) -> (r: bool)
    ensures
        r == is_whitespace(c),
{
    let u: u32 = c as u32;
    (0x09 <= u && u <= 0x0d) || u == 0x20 || u == 0x85 || u == 0xa0 || u == 0x1680 || (0x2000 <= u
        && u <= 0x200a) || u == 0x2028 || u == 0x2029 || u == 0x202f || u == 0x205f || u == 0x3000
}

/// The pieces into which `s` falls when it is cut at each whitespace
/// character: one more piece than `s` has whitespace characters, some of them
/// possibly empty, none holding whitespace.
pub open spec fn pieces(s: Seq<char>) -> Seq<Seq<char>>
    decreases s.len(),
{
    if s.len() == 0 {
        seq![Seq::<char>::empty()]
    } else {
        let before = pieces(s.drop_last());
        if is_whitespace(s.last()) {
            before.push(Seq::<char>::empty())
        } else {
            before.drop_last().push(before.last().push(s.last()))
        }
    }
}

/// The tokens of `s`: its maximal runs of characters that are no whitespace,
/// in order. No token is empty.
pub open spec fn tokens(s: Seq<char>) -> Seq<Seq<char>> {
    pieces(s).filter(|p: Seq<char>| p.len() > 0)
}

/// Cutting gives at least one piece.
pub proof fn lemma_pieces_nonempty(s: Seq<char>)
    ensures
        pieces(s).len() >= 1,
    decreases s.len(),
{
    if s.len() > 0 {
        lemma_pieces_nonempty(s.drop_last());
    }
}

/// No piece holds a whitespace character.
pub proof fn lemma_pieces_clean(s: Seq<char>, i: int, j: int)
    requires
        0 <= i < pieces(s).len(),
        0 <= j < pieces(s)[i].len(),
    ensures
        !is_whitespace(pieces(s)[i][j]),
    decreases s.len(),
{
    if s.len() > 0 {
        let before = pieces(s.drop_last());
        lemma_pieces_nonempty(s.drop_last());
        if is_whitespace(s.last()) {
            if i < before.len() {
                lemma_pieces_clean(s.drop_last(), i, j);
            }
        } else if i < before.len() - 1 {
            lemma_pieces_clean(s.drop_last(), i, j);
        } else if j < before.last().len() {
            lemma_pieces_clean(s.drop_last(), before.len() - 1, j);
        }
    }
}

/// Every token holds at least one character, and none that is whitespace.
pub proof fn lemma_tokens_shape(s: Seq<char>, i: int)
    requires
        0 <= i < tokens(s).len(),
    ensures
        tokens(s)[i].len() > 0,
        forall|j: int| 0 <= j < tokens(s)[i].len() ==> !is_whitespace(#[trigger] tokens(s)[i][j]),
{
    let nonempty = |p: Seq<char>| p.len() > 0;
    let token = tokens(s)[i];
    pieces(s).lemma_filter_pred(nonempty, i);
    assert(tokens(s).contains(token));
    pieces(s).lemma_filter_contains_rev(nonempty, token);
    let k = choose|k: int| 0 <= k < pieces(s).len() && pieces(s)[k] == token;
    assert forall|j: int| 0 <= j < token.len() implies !is_whitespace(#[trigger] token[j]) by {
        lemma_pieces_clean(s, k, j);
    }
}

/// Splits `text` at whitespace into its tokens.
pub fn tokenize(text: &str) -> (r: Vec<String>)
    ensures
        string_views(r@) == tokens(text@),
{
    let chars = chars_of(text);
    let ghost s = text@;
    let ghost nonempty = |p: Seq<char>| p.len() > 0;
    let n = chars.len();
    let mut out: Vec<String> = Vec::new();
    let mut start: usize = 0;
    let mut i: usize = 0;
    proof {
        reveal(Seq::filter);
        assert(s.take(0) =~= Seq::<char>::empty());
        assert(pieces(s.take(0)).drop_last() =~= Seq::<Seq<char>>::empty());
        assert(pieces(s.take(0)).last() =~= s.subrange(0, 0));
        assert(string_views(out@) =~= pieces(s.take(0)).drop_last().filter(nonempty));
    }
    while i < n
        invariant
            n == chars@.len(),
            chars@ == s,
            s == text@,
            nonempty == |p: Seq<char>| p.len() > 0,
            start <= i <= n,
            pieces(s.take(i as int)).len() >= 1,
            pieces(s.take(i as int)).last() == s.subrange(start as int, i as int),
            string_views(out@) == pieces(s.take(i as int)).drop_last().filter(nonempty),
        decreases n - i,
    {
        let ghost before = pieces(s.take(i as int));
        let ghost longer = pieces(s.take(i + 1));
        proof {
            assert(s.take(i + 1).drop_last() =~= s.take(i as int));
            assert(s.take(i + 1).last() == s[i as int]);
        }
        if is_whitespace_char(chars[i]) {
            proof {
                reveal(Seq::filter);
                assert(longer == before.push(Seq::<char>::empty()));
                assert(longer.drop_last() =~= before);
                assert(longer.last() =~= s.subrange(i + 1, i + 1));
            }
            if start < i {
                let ghost old_out = out@;
                out.push(text.substring_char(start, i).to_owned());
                proof {
                    assert(string_views(out@) =~= string_views(old_out).push(before.last()));
                }
            }
            start = i + 1;
        } else {
            proof {
                assert(longer == before.drop_last().push(before.last().push(s[i as int])));
                assert(longer.drop_last() =~= before.drop_last());
                assert(longer.last() =~= s.subrange(start as int, i + 1));
            }
        }
        i = i + 1;
    }
    proof {
        reveal(Seq::filter);
        assert(s.take(n as int) =~= s);
    }
    if start < n {
        let ghost old_out = out@;
        out.push(text.substring_char(start, n).to_owned());
        proof {
            assert(string_views(out@) =~= string_views(old_out).push(pieces(s).last()));
        }
    }
    out
}

} // verus!
