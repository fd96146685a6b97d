//! Proved laws of the lexer: leading whitespace is immaterial, a rejoined
//! sequence of plain words tokenizes back to itself, escapes inside quotes
//! are preserved verbatim, and no token is both quoted and braced.

use crate::lexer::{
    empty_arg, is_split_ws, scan_step, spec_scan, spec_split, with_char, LexState,
};
use crate::token::{ArgView, SplitError};
use vstd::prelude::*;

verus! {

/// A scan never looks behind its current position: running over `p + s`
/// from just past `p` is running over `s` alone.
proof fn lemma_scan_drop_prefix(
    p: Seq<char>,
    s: Seq<char>,
    i: int,
    state: LexState,
    cur: ArgView,
    out: Seq<ArgView>,
)
    requires
        0 <= i,
    ensures
        spec_scan(p + s, p.len() + i, state, cur, out) == spec_scan(s, i, state, cur, out),
    decreases s.len() - i,
{
    if i >= s.len() {
        assert((p + s).len() == p.len() + s.len());
    } else {
        assert((p + s)[p.len() + i] == s[i]);
        let t = scan_step(state, s[i], cur, out);
        lemma_scan_drop_prefix(p, s, i + 1, t.0, t.1, t.2);
    }
}

/// In `Word` state, a run of non-splitting characters is appended to the
/// token under construction, one after the other.
proof fn lemma_scan_word_chars(w: Seq<char>, s: Seq<char>, cur: ArgView, out: Seq<ArgView>)
    requires
        forall|k: int| 0 <= k < w.len() ==> !is_split_ws(w[k]),
    ensures
        spec_scan(w + s, 0, LexState::Word, cur, out) == spec_scan(
            s,
            0,
            LexState::Word,
            (ArgView { data: cur.data + w, ..cur }),
            out,
        ),
    decreases w.len(),
{
    if w.len() == 0 {
        assert(w + s =~= s);
        assert((ArgView { data: cur.data + w, ..cur }) =~= cur);
    } else {
        let c = w[0];
        assert((w + s)[0] == c);
        assert(w + s =~= seq![c] + (w.skip(1) + s));
        lemma_scan_drop_prefix(
            seq![c],
            w.skip(1) + s,
            0,
            LexState::Word,
            with_char(cur, c),
            out,
        );
        assert forall|k: int| 0 <= k < w.skip(1).len() implies !is_split_ws(w.skip(1)[k]) by {
            assert(w.skip(1)[k] == w[k + 1]);
        }
        lemma_scan_word_chars(w.skip(1), s, with_char(cur, c), out);
        assert((ArgView { data: with_char(cur, c).data + w.skip(1), ..with_char(cur, c) })
            =~= (ArgView { data: cur.data + w, ..cur }));
    }
}

/// Law: leading whitespace of any recognized kind — tab, space, newline, or
/// any mix — is fully consumed; the input splits exactly as it does with
/// that prefix stripped.
pub proof fn lemma_leading_whitespace_ignored(w: Seq<char>, s: Seq<char>)
    requires
        forall|k: int| 0 <= k < w.len() ==> is_split_ws(w[k]),
    ensures
        spec_split(w + s) == spec_split(s),
    decreases w.len(),
{
    if w.len() == 0 {
        assert(w + s =~= s);
    } else {
        let c = w[0];
        assert((w + s)[0] == c);
        assert(w + s =~= seq![c] + (w.skip(1) + s));
        lemma_scan_drop_prefix(
            seq![c],
            w.skip(1) + s,
            0,
            LexState::SplitMarker,
            empty_arg(),
            Seq::empty(),
        );
        assert forall|k: int| 0 <= k < w.skip(1).len() implies is_split_ws(w.skip(1)[k]) by {
            assert(w.skip(1)[k] == w[k + 1]);
        }
        lemma_leading_whitespace_ignored(w.skip(1), s);
    }
}

/// Law: inside a quoted span, a backslash escape is preserved, not resolved.
/// The backslash and the character after it both land in the token's text,
/// in that order.
pub proof fn lemma_escape_preserved(s: Seq<char>, i: int, cur: ArgView, out: Seq<ArgView>)
    requires
        0 <= i,
        i + 1 < s.len(),
        s[i] == '\\',
    ensures
        spec_scan(s, i, LexState::DoubleQuote, cur, out) == spec_scan(
            s,
            i + 2,
            LexState::DoubleQuote,
            with_char(with_char(cur, '\\'), s[i + 1]),
            out,
        ),
{
    assert(spec_scan(s, i, LexState::DoubleQuote, cur, out) == spec_scan(
        s,
        i + 1,
        LexState::EscapedDoubleQuote,
        cur,
        out,
    ));
}

/// The text of a plain word: nonempty, free of splitting whitespace, and not
/// opening a quoted or braced span.
pub open spec fn plain_word(t: Seq<char>) -> bool {
    t.len() > 0 && (forall|k: int| 0 <= k < t.len() ==> !is_split_ws(t[k])) && t[0] != '"'
        && t[0] != '{'
}

/// The texts of a token sequence rejoined with single spaces.
pub open spec fn join_with_spaces(ts: Seq<Seq<char>>) -> Seq<char>
    decreases ts.len(),
{
    if ts.len() == 0 {
        Seq::empty()
    } else if ts.len() == 1 {
        ts[0]
    } else {
        ts[0] + seq![' '] + join_with_spaces(ts.skip(1))
    }
}

/// A bare-word token: the given text, neither quoted nor braced.
pub open spec fn bare_arg(t: Seq<char>) -> ArgView {
    ArgView { data: t, is_quoted: false, is_braced: false }
}

/// Scanning the rejoined texts from between tokens appends one bare-word
/// token per text to whatever was already emitted.
proof fn lemma_scan_join(ts: Seq<Seq<char>>, out: Seq<ArgView>)
    requires
        forall|j: int| 0 <= j < ts.len() ==> plain_word(#[trigger] ts[j]),
    ensures
        spec_scan(join_with_spaces(ts), 0, LexState::SplitMarker, empty_arg(), out) == Ok::<
            Seq<ArgView>,
            SplitError,
        >(out + ts.map_values(|t: Seq<char>| bare_arg(t))),
    decreases ts.len(),
{
    if ts.len() == 0 {
        assert(out + ts.map_values(|t: Seq<char>| bare_arg(t)) =~= out);
    } else {
        let w = ts[0];
        let c0 = w[0];
        let rest: Seq<char> = if ts.len() == 1 {
            Seq::empty()
        } else {
            seq![' '] + join_with_spaces(ts.skip(1))
        };
        assert(join_with_spaces(ts) =~= w + rest);
        assert((w + rest)[0] == c0);
        assert(w + rest =~= seq![c0] + (w.skip(1) + rest));
        lemma_scan_drop_prefix(
            seq![c0],
            w.skip(1) + rest,
            0,
            LexState::Word,
            with_char(empty_arg(), c0),
            out,
        );
        assert forall|k: int| 0 <= k < w.skip(1).len() implies !is_split_ws(w.skip(1)[k]) by {
            assert(w.skip(1)[k] == w[k + 1]);
        }
        lemma_scan_word_chars(w.skip(1), rest, with_char(empty_arg(), c0), out);
        assert((ArgView {
            data: with_char(empty_arg(), c0).data + w.skip(1),
            ..with_char(empty_arg(), c0)
        }) =~= bare_arg(w));
        if ts.len() == 1 {
            assert(out + ts.map_values(|t: Seq<char>| bare_arg(t)) =~= out.push(bare_arg(w)));
        } else {
            assert(rest[0] == ' ');
            assert(rest =~= seq![' '] + join_with_spaces(ts.skip(1)));
            lemma_scan_drop_prefix(
                seq![' '],
                join_with_spaces(ts.skip(1)),
                0,
                LexState::SplitMarker,
                empty_arg(),
                out.push(bare_arg(w)),
            );
            assert forall|j: int| 0 <= j < ts.skip(1).len() implies plain_word(
                #[trigger] ts.skip(1)[j],
            ) by {
                assert(ts.skip(1)[j] == ts[j + 1]);
            }
            lemma_scan_join(ts.skip(1), out.push(bare_arg(w)));
            assert(out.push(bare_arg(w)) + ts.skip(1).map_values(|t: Seq<char>| bare_arg(t)) =~= out
                + ts.map_values(|t: Seq<char>| bare_arg(t)));
        }
    }
}

/// Law: splitting is a left inverse of rejoining with single spaces. For any
/// sequence of plain-word texts, rejoining them with single spaces and
/// splitting again yields exactly one bare-word token per text, with the
/// same texts in the same order and both flags false.
pub proof fn lemma_round_trip(ts: Seq<Seq<char>>)
    requires
        forall|j: int| 0 <= j < ts.len() ==> plain_word(#[trigger] ts[j]),
    ensures
        spec_split(join_with_spaces(ts)) == Ok::<Seq<ArgView>, SplitError>(
            ts.map_values(|t: Seq<char>| bare_arg(t)),
        ),
{
    lemma_scan_join(ts, Seq::empty());
    assert(Seq::<ArgView>::empty() + ts.map_values(|t: Seq<char>| bare_arg(t)) =~= ts.map_values(
        |t: Seq<char>| bare_arg(t),
    ));
}

/// Whether a token's delimiter flags are mutually exclusive.
pub open spec fn flags_exclusive(a: ArgView) -> bool {
    !(a.is_quoted && a.is_braced)
}

/// The flag invariant carried through a scan: the token under construction
/// never has both flags, a fresh token has neither, and every emitted token
/// has at most one.
proof fn lemma_scan_flags(s: Seq<char>, i: int, state: LexState, cur: ArgView, out: Seq<ArgView>)
    requires
        flags_exclusive(cur),
        state is SplitMarker ==> !cur.is_quoted && !cur.is_braced,
        forall|k: int| 0 <= k < out.len() ==> flags_exclusive(#[trigger] out[k]),
    ensures
        spec_scan(s, i, state, cur, out) matches Ok(ts) ==> forall|k: int|
            0 <= k < ts.len() ==> flags_exclusive(#[trigger] ts[k]),
    decreases s.len() - i,
{
    if i >= s.len() {
    } else {
        let t = scan_step(state, s[i], cur, out);
        lemma_scan_flags(s, i + 1, t.0, t.1, t.2);
    }
}

/// Law: a token originates from exactly one of a bare word, a quoted span or
/// a braced span, so it is never flagged both quoted and braced.
pub proof fn lemma_flags_exclusive(s: Seq<char>)
    ensures
        spec_split(s) matches Ok(ts) ==> forall|k: int|
            0 <= k < ts.len() ==> flags_exclusive(#[trigger] ts[k]),
{
    lemma_scan_flags(s, 0, LexState::SplitMarker, empty_arg(), Seq::empty());
}

} // verus!
