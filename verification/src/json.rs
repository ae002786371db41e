//! The canonicalizer for a single JSON text: re-emits the input with
//! insignificant whitespace and control characters removed, tracking string
//! literals so their contents stay verbatim.

use vstd::prelude::*;

use crate::chars::{control_char, is_control_char, is_whitespace_char, whitespace_char};
use crate::text::push_char;

verus! {

/// The canonicalizer's running state: whether the cursor stands inside a
/// string literal, and whether the previous character was an unescaped
/// backslash inside one.
pub struct FmtState {
    pub inside_string: bool,
    pub escaping: bool,
}

pub open spec fn fmt_init() -> FmtState {
    FmtState { inside_string: false, escaping: false }
}

/// A backslash is legal only inside a string literal.
pub open spec fn fmt_ok(st: FmtState, c: char) -> bool {
    st.escaping || st.inside_string || c != '\\'
}

/// Whether the character is kept in the output. Control characters are
/// dropped everywhere, whitespace only outside string literals.
pub open spec fn fmt_keeps(st: FmtState, c: char) -> bool {
    if st.escaping {
        !is_control_char(c)
    } else if c == '"' || c == '\\' {
        true
    } else if is_control_char(c) {
        false
    } else {
        st.inside_string || !is_whitespace_char(c)
    }
}

/// The state after one character. The escape flag is one-shot: it is set by
/// an unescaped backslash and consumed by whatever character follows, so an
/// escaped quote does not flip the string state.
pub open spec fn fmt_next(st: FmtState, c: char) -> FmtState {
    if st.escaping {
        FmtState { inside_string: st.inside_string, escaping: false }
    } else if c == '"' {
        FmtState { inside_string: !st.inside_string, escaping: false }
    } else if c == '\\' {
        FmtState { inside_string: st.inside_string, escaping: true }
    } else {
        st
    }
}

/// Runs the canonicalizer over a character sequence: `None` on a backslash
/// outside a string literal, otherwise the final state and the kept
/// characters in order.
pub open spec fn fmt_run(st: FmtState, s: Seq<char>) -> Option<(FmtState, Seq<char>)>
    decreases s.len(),
{
    if s.len() == 0 {
        Some((st, Seq::empty()))
    } else {
        let c = s[0];
        if !fmt_ok(st, c) {
            None
        } else {
            match fmt_run(fmt_next(st, c), s.drop_first()) {
                Some(rest) => Some(
                    (rest.0, (if fmt_keeps(st, c) { seq![c] } else { Seq::empty() }) + rest.1),
                ),
                None => None,
            }
        }
    }
}

/// What formatting a whole text yields: the compacted text, or nothing when
/// a backslash stands outside every string literal.
pub open spec fn format_spec(s: Seq<char>) -> Option<Seq<char>> {
    match fmt_run(fmt_init(), s) {
        Some(r) => Some(r.1),
        None => None,
    }
}

/// Running the canonicalizer over `a + b` equals running it over `a` and
/// continuing over `b` from the state it reached.
pub proof fn lemma_fmt_run_concat(st: FmtState, a: Seq<char>, b: Seq<char>)
    ensures
        fmt_run(st, a + b) == match fmt_run(st, a) {
            Some(ra) => match fmt_run(ra.0, b) {
                Some(rb) => Some((rb.0, ra.1 + rb.1)),
                None => None::<(FmtState, Seq<char>)>,
            },
            None => None::<(FmtState, Seq<char>)>,
        },
    decreases a.len(),
{
    if a.len() == 0 {
        assert(a + b =~= b);
        match fmt_run(st, b) {
            Some(rb) => {
                assert(Seq::<char>::empty() + rb.1 =~= rb.1);
            },
            None => {},
        }
    } else {
        let c = a[0];
        assert((a + b)[0] == c);
        assert((a + b).drop_first() =~= a.drop_first() + b);
        if fmt_ok(st, c) {
            lemma_fmt_run_concat(fmt_next(st, c), a.drop_first(), b);
            let emit: Seq<char> = if fmt_keeps(st, c) {
                seq![c]
            } else {
                Seq::empty()
            };
            match fmt_run(fmt_next(st, c), a.drop_first()) {
                Some(ra) => {
                    match fmt_run(ra.0, b) {
                        Some(rb) => {
                            assert(emit + (ra.1 + rb.1) =~= (emit + ra.1) + rb.1);
                        },
                        None => {},
                    }
                },
                None => {},
            }
        }
    }
}

/// A JSON text canonicalizer. It holds no memory of previous calls: each
/// `format` call is independent.
#[derive(Debug, Default)]
pub struct JsonFormatter;

/// The single recoverable formatting failure: a backslash outside a string.
#[derive(Debug, Clone)]
pub enum FormatError {
    UnexpectedEscape,
}

impl JsonFormatter {
    /// Validates and compacts one JSON text assumed to be complete: inside
    /// string literals every non-control character is kept verbatim; outside
    /// them whitespace is dropped; control characters are dropped everywhere;
    /// a backslash outside a string literal is rejected.
    pub fn format(&mut self, s: &String) -> (r: Result<String, FormatError>)
        ensures
            match r {
                Ok(t) => format_spec(s@) == Some(t@),
                Err(e) => format_spec(s@) is None && e is UnexpectedEscape,
            },
    {
        let n = s.as_str().unicode_len();
        let mut out = String::new();
        let mut inside_string = false;
        let mut escaping = false;
        let mut i: usize = 0;
        while i < n
            invariant
                n == s@.len(),
                i <= n,
                fmt_run(fmt_init(), s@.take(i as int)) == Some(
                    (FmtState { inside_string, escaping }, out@),
                ),
            decreases n - i,
        {
            let c = s.as_str().get_char(i);
            let ghost st = FmtState { inside_string, escaping };
            let ghost out0 = out@;
            proof {
                lemma_fmt_run_concat(fmt_init(), s@.take(i as int), seq![c]);
                assert(s@.take(i as int) + seq![c] =~= s@.take(i + 1));
                assert(seq![c].drop_first() =~= Seq::<char>::empty());
                assert(seq![c][0] == c);
                assert(fmt_run(fmt_next(st, c), Seq::<char>::empty()) == Some(
                    (fmt_next(st, c), Seq::<char>::empty()),
                ));
                if fmt_ok(st, c) {
                    if fmt_keeps(st, c) {
                        assert(seq![c] + Seq::<char>::empty() =~= seq![c]);
                        assert(fmt_run(st, seq![c]) == Some((fmt_next(st, c), seq![c])));
                        assert(out0 + seq![c] =~= out0.push(c));
                    } else {
                        assert(Seq::<char>::empty() + Seq::<char>::empty() =~= Seq::<
                            char,
                        >::empty());
                        assert(fmt_run(st, seq![c]) == Some(
                            (fmt_next(st, c), Seq::<char>::empty()),
                        ));
                        assert(out0 + Seq::<char>::empty() =~= out0);
                    }
                }
            }
            if escaping {
                // the escaped character never toggles the string state
                if !control_char(c) {
                    push_char(&mut out, c);
                }
                escaping = false;
            } else if c == '"' {
                push_char(&mut out, c);
                inside_string = !inside_string;
            } else if c == '\\' {
                if inside_string {
                    push_char(&mut out, c);
                    escaping = true;
                } else {
                    proof {
                        lemma_fmt_run_concat(fmt_init(), s@.take(i + 1), s@.skip(i + 1));
                        assert(s@.take(i + 1) + s@.skip(i + 1) =~= s@);
                    }
                    return Err(FormatError::UnexpectedEscape);
                }
            } else if control_char(c) {
            } else if inside_string || !whitespace_char(c) {
                push_char(&mut out, c);
            }
            proof {
                assert(FmtState { inside_string, escaping } == fmt_next(st, c));
                assert(out@ == if fmt_keeps(st, c) {
                    out0.push(c)
                } else {
                    out0
                });
                assert(fmt_run(fmt_init(), s@.take(i + 1)) == Some(
                    (FmtState { inside_string, escaping }, out@),
                ));
            }
            i = i + 1;
        }
        proof {
            assert(s@.take(n as int) =~= s@);
        }
        Ok(out)
    }
}

/// Law: formatting is idempotent on inputs free of control characters: a
/// second pass over the first pass's output returns that output unchanged.
pub proof fn lemma_format_idempotent(s: Seq<char>)
    requires
        forall|i: int| 0 <= i < s.len() ==> !is_control_char(#[trigger] s[i]),
        format_spec(s) is Some,
    ensures
        format_spec(format_spec(s)->Some_0) == Some(format_spec(s)->Some_0),
{
    lemma_fmt_replay(fmt_init(), s);
}

/// Re-running the canonicalizer over its own output reproduces that output
/// and ends in the same state, provided the input held no control character.
proof fn lemma_fmt_replay(st: FmtState, s: Seq<char>)
    requires
        forall|i: int| 0 <= i < s.len() ==> !is_control_char(#[trigger] s[i]),
        fmt_run(st, s) is Some,
    ensures
        fmt_run(st, fmt_run(st, s)->Some_0.1) == fmt_run(st, s),
    decreases s.len(),
{
    if s.len() == 0 {
    } else {
        let c = s[0];
        let rest = s.drop_first();
        assert(forall|i: int| 0 <= i < rest.len() ==> !is_control_char(#[trigger] rest[i])) by {
            assert(forall|i: int| 0 <= i < rest.len() ==> rest[i] == s[i + 1]);
        }
        let st1 = fmt_next(st, c);
        lemma_fmt_replay(st1, rest);
        let r_rest = fmt_run(st1, rest)->Some_0;
        if fmt_keeps(st, c) {
            let out = seq![c] + r_rest.1;
            assert(out[0] == c);
            assert(out.drop_first() =~= r_rest.1);
            assert(fmt_run(st, out) == Some((r_rest.0, seq![c] + r_rest.1)));
        } else {
            // a dropped character is whitespace outside a string literal,
            // which leaves the state unchanged
            assert(fmt_next(st, c) == st);
            assert(Seq::<char>::empty() + r_rest.1 =~= r_rest.1);
        }
    }
}

} // verus!
