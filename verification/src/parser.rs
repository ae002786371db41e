//! The operator command grammar: one line of input becomes a command. The
//! leading text up to the first colon is ignored, the word after it selects
//! the command, and whatever follows the first space is its argument.

use vstd::prelude::*;

use crate::chars::{is_whitespace_char, whitespace_char};

verus! {

pub struct Parser;

/// The help text for the command grammar.
pub const HELP_TEXT: &'static str = "\nAllowed commands:\n\n:ls                  - List all available json messages\n:exit                - End program\n:help, :h            - Print help text\n:send, :s <file>     - Send json message. <file> must be one of the files listed with :ls\n";

/// A parsed command.
#[derive(Debug)]
pub enum ParseResult {
    Send(String),
    List,
    Help,
    Exit,
    Malformed(String),
}

/// The abstract reading of a parsed command.
pub enum ParseOutcome {
    Send(Seq<char>),
    List,
    Help,
    Exit,
    Malformed(Seq<char>),
}

impl View for ParseResult {
    type V = ParseOutcome;

    open spec fn view(&self) -> ParseOutcome {
        match self {
            ParseResult::Send(s) => ParseOutcome::Send(s@),
            ParseResult::List => ParseOutcome::List,
            ParseResult::Help => ParseOutcome::Help,
            ParseResult::Exit => ParseOutcome::Exit,
            ParseResult::Malformed(s) => ParseOutcome::Malformed(s@),
        }
    }
}

/// The text without its leading whitespace.
pub open spec fn drop_leading_ws(s: Seq<char>) -> Seq<char>
    decreases s.len(),
{
    if s.len() == 0 {
        s
    } else if is_whitespace_char(s[0]) {
        drop_leading_ws(s.drop_first())
    } else {
        s
    }
}

/// The text without its trailing whitespace.
pub open spec fn drop_trailing_ws(s: Seq<char>) -> Seq<char>
    decreases s.len(),
{
    if s.len() == 0 {
        s
    } else if is_whitespace_char(s.last()) {
        drop_trailing_ws(s.drop_last())
    } else {
        s
    }
}

/// The text without leading and trailing whitespace.
pub open spec fn trim_spec(s: Seq<char>) -> Seq<char> {
    drop_trailing_ws(drop_leading_ws(s))
}

/// The index of the first occurrence of the character, or a negative value
/// when it does not occur.
pub open spec fn find_char(s: Seq<char>, c: char) -> int
    decreases s.len(),
{
    if s.len() == 0 {
        -1
    } else if s[0] == c {
        0
    } else {
        let r = find_char(s.drop_first(), c);
        if r < 0 {
            -1
        } else {
            r + 1
        }
    }
}

/// What parsing a command line yields. The text up to and including the
/// first colon is dropped; a line without a colon is read whole, as it
/// stands. The word before the first space selects the command; the text
/// after that space is the argument.
pub open spec fn parse_spec(command: Seq<char>) -> ParseOutcome {
    let t = trim_spec(command);
    let s = if find_char(t, ':') >= 0 {
        t.skip(find_char(t, ':') + 1)
    } else {
        t
    };
    let cmd = if find_char(s, ' ') >= 0 {
        s.take(find_char(s, ' '))
    } else {
        s
    };
    let rest = if find_char(s, ' ') >= 0 {
        s.skip(find_char(s, ' ') + 1)
    } else {
        Seq::<char>::empty()
    };
    if cmd == "ls"@ {
        ParseOutcome::List
    } else if cmd == "exit"@ {
        ParseOutcome::Exit
    } else if cmd == "help"@ || cmd == "h"@ {
        ParseOutcome::Help
    } else if cmd == "send"@ || cmd == "s"@ {
        ParseOutcome::Send(rest)
    } else {
        ParseOutcome::Malformed("could not parse "@ + s)
    }
}

/// A scan that passed only whitespace and stopped at `lo` computes
/// [`drop_leading_ws`].
proof fn lemma_drop_leading(s: Seq<char>, lo: int)
    requires
        0 <= lo <= s.len(),
        forall|k: int| 0 <= k < lo ==> is_whitespace_char(#[trigger] s[k]),
        lo < s.len() ==> !is_whitespace_char(s[lo]),
    ensures
        drop_leading_ws(s) == s.skip(lo),
    decreases lo,
{
    if lo == 0 {
        assert(s.skip(0) =~= s);
    } else {
        assert(is_whitespace_char(s[0]));
        let s2 = s.drop_first();
        assert(forall|k: int| 0 <= k < s2.len() ==> #[trigger] s2[k] == s[k + 1]);
        lemma_drop_leading(s2, lo - 1);
        assert(s2.skip(lo - 1) =~= s.skip(lo));
    }
}

/// A scan that passed only whitespace backward and stopped at `hi` computes
/// [`drop_trailing_ws`].
proof fn lemma_drop_trailing(s: Seq<char>, hi: int)
    requires
        0 <= hi <= s.len(),
        forall|k: int| hi <= k < s.len() ==> is_whitespace_char(#[trigger] s[k]),
        hi > 0 ==> !is_whitespace_char(s[hi - 1]),
    ensures
        drop_trailing_ws(s) == s.take(hi),
    decreases s.len(),
{
    if hi == s.len() {
        if s.len() == 0 {
            assert(s.take(0) =~= s);
        } else {
            assert(!is_whitespace_char(s.last()));
            assert(s.take(hi) =~= s);
        }
    } else {
        assert(is_whitespace_char(s.last()));
        let s2 = s.drop_last();
        assert(forall|k: int| 0 <= k < s2.len() ==> #[trigger] s2[k] == s[k]);
        lemma_drop_trailing(s2, hi);
        assert(s2.take(hi) =~= s.take(hi));
    }
}

/// A scan that passed no occurrence and stopped at `i` computes
/// [`find_char`].
proof fn lemma_find_char(s: Seq<char>, c: char, i: int)
    requires
        0 <= i <= s.len(),
        forall|k: int| 0 <= k < i ==> #[trigger] s[k] != c,
        i < s.len() ==> s[i] == c,
    ensures
        i < s.len() ==> find_char(s, c) == i,
        i == s.len() ==> find_char(s, c) < 0,
    decreases i,
{
    if s.len() == 0 {
    } else if i == 0 {
    } else {
        let s2 = s.drop_first();
        assert(forall|k: int| 0 <= k < s2.len() ==> #[trigger] s2[k] == s[k + 1]);
        lemma_find_char(s2, c, i - 1);
    }
}

/// Scans for the first occurrence of an ASCII character, left to right.
fn scan_char(s: &str, c: char) -> (r: Option<usize>)
    ensures
        match r {
            Some(i) => 0 <= find_char(s@, c) == i < s@.len(),
            None => find_char(s@, c) < 0,
        },
{
    let n = s.unicode_len();
    let mut i: usize = 0;
    while i < n
        invariant
            n == s@.len(),
            i <= n,
            forall|k: int| 0 <= k < i ==> #[trigger] s@[k] != c,
        decreases n - i,
    {
        if s.get_char(i) == c {
            proof {
                lemma_find_char(s@, c, i as int);
            }
            return Some(i);
        }
        i = i + 1;
    }
    proof {
        lemma_find_char(s@, c, n as int);
    }
    None
}

impl Parser {
    /// Parses one command line; see [`parse_spec`] for the exact reading.
    pub fn parse(command: String) -> (r: ParseResult)
        ensures
            r@ == parse_spec(command@),
    {
        let cs = command.as_str();
        let n = cs.unicode_len();
        let mut lo: usize = 0;
        while lo < n && whitespace_char(cs.get_char(lo))
            invariant
                n == command@.len(),
                cs@ == command@,
                lo <= n,
                forall|k: int| 0 <= k < lo ==> is_whitespace_char(#[trigger] command@[k]),
            decreases n - lo,
        {
            lo = lo + 1;
        }
        let mut hi: usize = n;
        while hi > lo && whitespace_char(cs.get_char(hi - 1))
            invariant
                n == command@.len(),
                cs@ == command@,
                lo <= hi <= n,
                lo < n ==> !is_whitespace_char(command@[lo as int]),
                forall|k: int| hi <= k < n ==> is_whitespace_char(#[trigger] command@[k]),
            decreases hi,
        {
            hi = hi - 1;
        }
        let t = cs.substring_char(lo, hi);
        proof {
            lemma_drop_leading(command@, lo as int);
            let dropped = command@.skip(lo as int);
            assert(forall|k: int|
                0 <= k < dropped.len() ==> #[trigger] dropped[k] == command@[k + lo]);
            lemma_drop_trailing(dropped, hi - lo as int);
            assert(dropped.take(hi - lo as int) =~= command@.subrange(lo as int, hi as int));
            assert(t@ == trim_spec(command@));
        }
        let s: &str = match scan_char(t, ':') {
            Some(ci) => {
                let after = t.substring_char(ci + 1, t.unicode_len());
                proof {
                    assert(after@ =~= t@.skip(find_char(t@, ':') + 1));
                }
                after
            },
            None => t,
        };
        let ghost s_spec = if find_char(t@, ':') >= 0 {
            t@.skip(find_char(t@, ':') + 1)
        } else {
            t@
        };
        let (cmd, rest): (&str, String) = match scan_char(s, ' ') {
            Some(si) => {
                let before = s.substring_char(0, si);
                let after = s.substring_char(si + 1, s.unicode_len());
                proof {
                    assert(before@ =~= s_spec.take(find_char(s_spec, ' ')));
                    assert(after@ =~= s_spec.skip(find_char(s_spec, ' ') + 1));
                }
                (before, after.to_owned())
            },
            None => (s, String::new()),
        };
        let cmd_s = cmd.to_owned();
        if cmd_s == String::from_str("ls") {
            ParseResult::List
        } else if cmd_s == String::from_str("exit") {
            ParseResult::Exit
        } else if cmd_s == String::from_str("help") || cmd_s == String::from_str("h") {
            ParseResult::Help
        } else if cmd_s == String::from_str("send") || cmd_s == String::from_str("s") {
            ParseResult::Send(rest)
        } else {
            ParseResult::Malformed(String::from_str("could not parse ").concat(s))
        }
    }
}

} // verus!
