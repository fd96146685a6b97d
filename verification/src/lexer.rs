//! The tokenizer: a character-driven finite-state machine that splits an
//! input string into argument tokens, keeping double-quoted and
//! brace-delimited spans atomic.

use crate::token::{ArgView, CmdArg, SplitError};
use vstd::prelude::*;

verus! {

/// The scanner's state between two characters of the input.
#[derive(Clone, Copy)]
pub enum LexState {
    /// Accumulating a bare, unquoted word.
    Word,
    /// Between tokens: at start of input or after splitting whitespace.
    SplitMarker,
    /// Inside an open double-quoted span.
    DoubleQuote,
    /// Just consumed a backslash inside a quoted span.
    EscapedDoubleQuote,
    /// Inside an open brace-delimited span.
    Braced,
}

/// The characters that split bare words: tab, space and newline.
/// Carriage return is ordinary content, not a splitter.
pub open spec fn is_split_ws(c: char) -> bool {
    c == '\t' || c == ' ' || c == '\n'
}

/// The token under construction at the very start of a scan, and right after
/// a finished token has been emitted.
pub open spec fn empty_arg() -> ArgView {
    ArgView { data: Seq::empty(), is_quoted: false, is_braced: false }
}

/// `a` with one more character of content.
pub open spec fn with_char(a: ArgView, c: char) -> ArgView {
    ArgView { data: a.data.push(c), ..a }
}

/// One transition of the state machine: in state `state`, consuming the
/// character `c`, with `cur` the token under construction and `out` the
/// tokens already emitted. Returns the next state, token under construction
/// and emitted tokens.
pub open spec fn scan_step(state: LexState, c: char, cur: ArgView, out: Seq<ArgView>) -> (
    LexState,
    ArgView,
    Seq<ArgView>,
) {
    match state {
        LexState::Word => if is_split_ws(c) {
            (LexState::SplitMarker, empty_arg(), out.push(cur))
        } else {
            (LexState::Word, with_char(cur, c), out)
        },
        LexState::SplitMarker => if is_split_ws(c) {
            (LexState::SplitMarker, cur, out)
        } else if c == '"' {
            (LexState::DoubleQuote, (ArgView { is_quoted: true, ..cur }), out)
        } else if c == '{' {
            (LexState::Braced, (ArgView { is_braced: true, ..cur }), out)
        } else {
            (LexState::Word, with_char(cur, c), out)
        },
        LexState::DoubleQuote => if c == '"' {
            (LexState::Word, cur, out)
        } else if c == '\\' {
            (LexState::EscapedDoubleQuote, cur, out)
        } else {
            (LexState::DoubleQuote, with_char(cur, c), out)
        },
        LexState::EscapedDoubleQuote => (
            LexState::DoubleQuote,
            with_char(with_char(cur, '\\'), c),
            out,
        ),
        LexState::Braced => if c == '}' {
            (LexState::Word, cur, out)
        } else {
            (LexState::Braced, with_char(cur, c), out)
        },
    }
}

/// The end-of-input event: reaching the end in `Word` emits the pending
/// token, in `SplitMarker` emits nothing, and inside a quote, escape or
/// brace it is the matching error.
pub open spec fn scan_end(state: LexState, cur: ArgView, out: Seq<ArgView>) -> Result<
    Seq<ArgView>,
    SplitError,
> {
    match state {
        LexState::Word => Ok(out.push(cur)),
        LexState::SplitMarker => Ok(out),
        LexState::DoubleQuote => Err(SplitError::UnterminatedQuote),
        LexState::EscapedDoubleQuote => Err(SplitError::UnterminatedEscape),
        LexState::Braced => Err(SplitError::UnterminatedBrace),
    }
}

/// One run of the state machine over `s`, starting at position `i` in state
/// `state`: one `scan_step` per character, then the end-of-input event.
pub open spec fn spec_scan(
    s: Seq<char>,
    i: int,
    state: LexState,
    cur: ArgView,
    out: Seq<ArgView>,
) -> Result<Seq<ArgView>, SplitError>
    decreases s.len() - i,
{
    if i >= s.len() {
        scan_end(state, cur, out)
    } else {
        let t = scan_step(state, s[i], cur, out);
        spec_scan(s, i + 1, t.0, t.1, t.2)
    }
}

/// What splitting an input comes to: the full run of the state machine from
/// the start of `s`, between tokens, with nothing accumulated.
pub open spec fn spec_split(s: Seq<char>) -> Result<Seq<ArgView>, SplitError> {
    spec_scan(s, 0, LexState::SplitMarker, empty_arg(), Seq::empty())
}

/// The views of a sequence of tokens.
pub open spec fn args_view(ts: Seq<CmdArg>) -> Seq<ArgView> {
    ts.map_values(|t: CmdArg| t@)
}

/// Whether `c` splits bare words.
pub fn is_split_char(c: char) -> (r: bool)
    ensures
        r == is_split_ws(c),
{
    c == '\t' || c == ' ' || c == '\n'
}

/// Relies on String::push: appends one character at the end of the string.
#[verifier::external_body]
fn push_char(s: &mut String, c: char)
    ensures
        final(s)@ == old(s)@.push(c),
{
    s.push(c)
}

/// Split an input string on whitespace (tab, space, newline) into argument
/// tokens, except that double-quoted spans and `{`-`}`-delimited spans stay
/// atomic; a quoted span flags its token `is_quoted` and keeps
/// backslash-escapes verbatim, a braced span flags its token `is_braced`.
/// An input that ends inside an open quote, escape or brace is rejected with
/// the error naming the delimiter left open.
pub fn split_input(input: &str) -> (r: Result<Vec<CmdArg>, SplitError>)
    ensures
        match r {
            Ok(toks) => spec_split(input@) == Ok::<Seq<ArgView>, SplitError>(args_view(toks@)),
            Err(e) => spec_split(input@) == Err::<Seq<ArgView>, SplitError>(e),
        },
{
    let n = input.unicode_len();
    let mut i: usize = 0;
    let mut state = LexState::SplitMarker;
    let mut cur_data = String::new();
    let mut cur_quoted = false;
    let mut cur_braced = false;
    let mut out: Vec<CmdArg> = Vec::new();
    proof {
        assert(args_view(out@) =~= Seq::<ArgView>::empty());
    }
    while i < n
        invariant
            n == input@.len(),
            i <= n,
            spec_split(input@) == spec_scan(
                input@,
                i as int,
                state,
                (ArgView { data: cur_data@, is_quoted: cur_quoted, is_braced: cur_braced }),
                args_view(out@),
            ),
        decreases n - i,
    {
        let ghost prev_cur = ArgView {
            data: cur_data@,
            is_quoted: cur_quoted,
            is_braced: cur_braced,
        };
        let ghost prev_out = args_view(out@);
        let c = input.get_char(i);
        match state {
            LexState::Word => {
                if is_split_char(c) {
                    let done = CmdArg {
                        data: cur_data,
                        is_quoted: cur_quoted,
                        is_braced: cur_braced,
                    };
                    out.push(done);
                    cur_data = String::new();
                    cur_quoted = false;
                    cur_braced = false;
                    state = LexState::SplitMarker;
                    proof {
                        assert(args_view(out@) =~= prev_out.push(prev_cur));
                    }
                } else {
                    push_char(&mut cur_data, c);
                }
            },
            LexState::SplitMarker => {
                if is_split_char(c) {
                } else if c == '"' {
                    cur_quoted = true;
                    state = LexState::DoubleQuote;
                } else if c == '{' {
                    cur_braced = true;
                    state = LexState::Braced;
                } else {
                    push_char(&mut cur_data, c);
                    state = LexState::Word;
                }
            },
            LexState::DoubleQuote => {
                if c == '"' {
                    state = LexState::Word;
                } else if c == '\\' {
                    state = LexState::EscapedDoubleQuote;
                } else {
                    push_char(&mut cur_data, c);
                }
            },
            LexState::EscapedDoubleQuote => {
                push_char(&mut cur_data, '\\');
                push_char(&mut cur_data, c);
                state = LexState::DoubleQuote;
            },
            LexState::Braced => {
                if c == '}' {
                    state = LexState::Word;
                } else {
                    push_char(&mut cur_data, c);
                }
            },
        }
        i = i + 1;
    }
    match state {
        LexState::Word => {
            let done = CmdArg { data: cur_data, is_quoted: cur_quoted, is_braced: cur_braced };
            let ghost prev_out = args_view(out@);
            out.push(done);
            proof {
                assert(args_view(out@) =~= prev_out.push(done@));
            }
            Ok(out)
        },
        LexState::SplitMarker => Ok(out),
        LexState::DoubleQuote => Err(SplitError::UnterminatedQuote),
        LexState::EscapedDoubleQuote => Err(SplitError::UnterminatedEscape),
        LexState::Braced => Err(SplitError::UnterminatedBrace),
    }
}

} // verus!
