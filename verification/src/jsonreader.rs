//! The incremental message-boundary detector: consumes byte chunks from one
//! connection and emits each complete top-level JSON value as soon as its end
//! is recognized, however the bytes were split across calls.

use vstd::prelude::*;

use crate::chars::{is_whitespace_byte, whitespace_byte};

verus! {

/// Failure of a splitter operation: the instance saw malformed input earlier
/// and is permanently unusable.
#[derive(Debug, Clone)]
pub enum SplitError {
    Tainted,
}

/// The parse mode of the splitter between two bytes.
#[derive(Debug, Clone, Copy)]
pub enum SplitMode {
    ObjectOrArray,
    StringLiteral,
    RootLevelValue,
    Undetermined,
}

/// The abstract state of a splitter: its mode, the nesting depth of the
/// current aggregate, the one-shot string-escape flag, the sticky taint flag,
/// the buffered bytes of the message in progress, and the advisory buffer cap.
#[verifier::ext_equal]
pub struct SplitState {
    pub max_size: nat,
    pub mode: SplitMode,
    pub depth: nat,
    pub escaping: bool,
    pub tainted: bool,
    pub pending: Seq<u8>,
}

/// The bytes a bare root-level literal or number may consist of.
pub open spec fn is_root_level_byte(b: u8) -> bool {
    is_root_level_byte_value(b as u32)
}

/// The characters a bare root-level literal or number may consist of:
/// `t r u e E f a l s n - .` and the decimal digits.
pub open spec fn is_root_level_char_spec(c: char) -> bool {
    is_root_level_byte_value(c as u32)
}

/// The shared code-point set behind the byte and character readings.
pub open spec fn is_root_level_byte_value(u: u32) -> bool {
    u == 0x74 || u == 0x72 || u == 0x75 || u == 0x65 || u == 0x45 || u == 0x66 || u == 0x61
        || u == 0x6C || u == 0x73 || u == 0x6E || u == 0x2D || u == 0x2E || (0x30 <= u && u
        <= 0x39)
}

/// One byte of input: the successor state and the messages completed by this
/// byte (none, or exactly one). A tainted state consumes every byte without
/// effect.
pub open spec fn split_step(st: SplitState, b: u8) -> (SplitState, Seq<Seq<u8>>) {
    if st.tainted {
        (st, seq![])
    } else {
        match st.mode {
            SplitMode::Undetermined => {
                if b == 0x7B || b == 0x5B {  // { [
                    (SplitState { mode: SplitMode::ObjectOrArray, depth: 1, pending: seq![b], ..st }, seq![])
                } else if b == 0x7D || b == 0x5D {  // } ] with no opener: taint
                    (SplitState { tainted: true, ..st }, seq![])
                } else if b == 0x22 {  // "
                    (SplitState { mode: SplitMode::StringLiteral, depth: 1, pending: seq![b], ..st }, seq![])
                } else if is_whitespace_byte(b) {
                    (st, seq![])
                } else {
                    (SplitState { mode: SplitMode::RootLevelValue, pending: seq![b], ..st }, seq![])
                }
            },
            SplitMode::StringLiteral => {
                if st.escaping {
                    // the escaped byte is consumed; it never closes the string
                    (SplitState { escaping: false, pending: st.pending.push(b), ..st }, seq![])
                } else if b == 0x22 {  // "
                    if st.depth <= 1 {
                        (
                            SplitState {
                                mode: SplitMode::Undetermined,
                                depth: 0,
                                pending: seq![],
                                ..st
                            },
                            seq![st.pending.push(b)],
                        )
                    } else {
                        (
                            SplitState {
                                mode: SplitMode::ObjectOrArray,
                                depth: (st.depth - 1) as nat,
                                pending: st.pending.push(b),
                                ..st
                            },
                            seq![],
                        )
                    }
                } else if b == 0x5C {  // backslash
                    (SplitState { escaping: true, pending: st.pending.push(b), ..st }, seq![])
                } else {
                    (SplitState { pending: st.pending.push(b), ..st }, seq![])
                }
            },
            SplitMode::RootLevelValue => {
                if is_root_level_byte(b) {
                    (SplitState { pending: st.pending.push(b), ..st }, seq![])
                } else {
                    // the terminating byte is part of the emitted text
                    (
                        SplitState { mode: SplitMode::Undetermined, pending: seq![], ..st },
                        seq![st.pending.push(b)],
                    )
                }
            },
            SplitMode::ObjectOrArray => {
                if b == 0x22 {  // "
                    (
                        SplitState {
                            mode: SplitMode::StringLiteral,
                            depth: (st.depth + 1) as nat,
                            pending: st.pending.push(b),
                            ..st
                        },
                        seq![],
                    )
                } else if b == 0x7B || b == 0x5B {  // { [
                    (
                        SplitState {
                            depth: (st.depth + 1) as nat,
                            pending: st.pending.push(b),
                            ..st
                        },
                        seq![],
                    )
                } else if b == 0x7D || b == 0x5D {  // } ]
                    if st.depth == 0 {
                        (SplitState { tainted: true, ..st }, seq![])
                    } else if st.depth == 1 {
                        (
                            SplitState {
                                mode: SplitMode::Undetermined,
                                depth: 0,
                                pending: seq![],
                                ..st
                            },
                            seq![st.pending.push(b)],
                        )
                    } else {
                        (
                            SplitState {
                                depth: (st.depth - 1) as nat,
                                pending: st.pending.push(b),
                                ..st
                            },
                            seq![],
                        )
                    }
                } else {
                    (SplitState { pending: st.pending.push(b), ..st }, seq![])
                }
            },
        }
    }
}

/// Feeds a byte sequence through [`split_step`]: the final state and all
/// completed messages, in order.
pub open spec fn split_run(st: SplitState, bs: Seq<u8>) -> (SplitState, Seq<Seq<u8>>)
    decreases bs.len(),
{
    if bs.len() == 0 {
        (st, seq![])
    } else {
        let first = split_step(st, bs[0]);
        let rest = split_run(first.0, bs.drop_first());
        (rest.0, first.1 + rest.1)
    }
}

/// A tainted state stays exactly as it is and never emits.
pub proof fn lemma_split_run_tainted(st: SplitState, bs: Seq<u8>)
    requires
        st.tainted,
    ensures
        split_run(st, bs) == (st, Seq::<Seq<u8>>::empty()),
    decreases bs.len(),
{
    if bs.len() == 0 {
    } else {
        lemma_split_run_tainted(st, bs.drop_first());
        assert(Seq::<Seq<u8>>::empty() + Seq::<Seq<u8>>::empty() =~= Seq::<Seq<u8>>::empty());
    }
}

/// Law: chunk-boundary independence. Feeding `a + b` in one call reaches the
/// same state and emits the same ordered messages as feeding `a` and then `b`.
pub proof fn lemma_split_chunk_independence(st: SplitState, a: Seq<u8>, b: Seq<u8>)
    ensures
        split_run(st, a + b).0 == split_run(split_run(st, a).0, b).0,
        split_run(st, a + b).1 == split_run(st, a).1 + split_run(split_run(st, a).0, b).1,
    decreases a.len(),
{
    if a.len() == 0 {
        assert(a + b =~= b);
        assert(Seq::<Seq<u8>>::empty() + split_run(st, b).1 =~= split_run(st, b).1);
    } else {
        assert((a + b)[0] == a[0]);
        assert((a + b).drop_first() =~= a.drop_first() + b);
        let first = split_step(st, a[0]);
        lemma_split_chunk_independence(first.0, a.drop_first(), b);
        let ra = split_run(first.0, a.drop_first());
        let rb = split_run(ra.0, b);
        assert(first.1 + (ra.1 + rb.1) =~= (first.1 + ra.1) + rb.1);
    }
}

/// Feeding a sequence of chunks one after another: the final state, and all
/// emitted messages in order.
pub open spec fn split_run_chunks(st: SplitState, chunks: Seq<Seq<u8>>) -> (
    SplitState,
    Seq<Seq<u8>>,
)
    decreases chunks.len(),
{
    if chunks.len() == 0 {
        (st, seq![])
    } else {
        let first = split_run(st, chunks[0]);
        let rest = split_run_chunks(first.0, chunks.drop_first());
        (rest.0, first.1 + rest.1)
    }
}

/// Law: however a byte sequence is cut into chunks, feeding the chunks one
/// `push` at a time reaches the same state and emits the same ordered
/// messages as feeding the whole sequence at once.
pub proof fn lemma_split_chunking_irrelevant(st: SplitState, chunks: Seq<Seq<u8>>)
    ensures
        split_run_chunks(st, chunks) == split_run(st, chunks.flatten()),
    decreases chunks.len(),
{
    if chunks.len() == 0 {
        assert(chunks.flatten() =~= Seq::<u8>::empty());
        assert(split_run_chunks(st, chunks) == (st, Seq::<Seq<u8>>::empty()));
    } else {
        let first = split_run(st, chunks[0]);
        lemma_split_chunking_irrelevant(first.0, chunks.drop_first());
        lemma_split_chunk_independence(st, chunks[0], chunks.drop_first().flatten());
        assert(chunks.flatten() == chunks[0] + chunks.drop_first().flatten());
    }
}

/// What an explicit flush yields: a pending bare root-level value is complete
/// as far as it goes and is emitted; a partial string or aggregate is not.
pub open spec fn flush_spec(st: SplitState) -> (SplitState, Seq<Seq<u8>>) {
    if st.mode is RootLevelValue {
        (
            SplitState { mode: SplitMode::Undetermined, depth: 0, pending: seq![], ..st },
            seq![st.pending],
        )
    } else {
        (st, seq![])
    }
}

/// The states a splitter can actually reach: the depth never exceeds the
/// buffered length, and between messages (and while reading a bare value)
/// nothing is nested.
pub open spec fn state_wf(st: SplitState) -> bool {
    &&& st.depth <= st.pending.len()
    &&& (st.mode is Undetermined ==> st.depth == 0 && st.pending.len() == 0)
    &&& (st.mode is RootLevelValue ==> st.depth == 0)
}

/// The state of a freshly created splitter.
pub open spec fn fresh_state(max_size: nat) -> SplitState {
    SplitState {
        max_size: max_size,
        mode: SplitMode::Undetermined,
        depth: 0,
        escaping: false,
        tainted: false,
        pending: seq![],
    }
}

/// What a sequence of message byte-texts reads as, decoded leniently.
pub uninterp spec fn lossy_decode(bytes: Seq<u8>) -> Seq<char>;

/// Relies on `String::from_utf8_lossy`: the result is a function of the bytes
/// alone, and on valid UTF-8 it is exactly their decoding.
#[verifier::external_body]
fn bytes_to_string_lossy(bytes: &Vec<u8>) -> (r: String)
    ensures
        r@ == lossy_decode(bytes@),
        vstd::utf8::valid_utf8(bytes@) ==> r@ == vstd::utf8::decode_utf8(bytes@),
{
    String::from_utf8_lossy(bytes.as_slice()).into_owned()
}

/// A per-connection splitter over a chunked byte stream. One instance serves
/// one connection for its whole life; malformed input taints it permanently.
#[derive(Debug, Clone)]
pub struct JsonSplitter {
    max_size: usize,
    buffer: Vec<u8>,
    depth: usize,
    mode: SplitMode,
    escaping_next_char: bool,
    tainted: bool,
}

impl View for JsonSplitter {
    type V = SplitState;

    closed spec fn view(&self) -> SplitState {
        SplitState {
            max_size: self.max_size as nat,
            mode: self.mode,
            depth: self.depth as nat,
            escaping: self.escaping_next_char,
            tainted: self.tainted,
            pending: self.buffer@,
        }
    }
}

impl JsonSplitter {
    /// The splitter holds a reachable state; see [`state_wf`].
    pub open spec fn wf(&self) -> bool {
        state_wf(self@)
    }

    pub fn new(max_size: usize) -> (r: JsonSplitter)
        ensures
            r@ == fresh_state(max_size as nat),
            r.wf(),
    {
        let r = JsonSplitter {
            max_size,
            buffer: Vec::new(),
            depth: 0,
            mode: SplitMode::Undetermined,
            escaping_next_char: false,
            tainted: false,
        };
        proof {
            assert(r@ =~= fresh_state(max_size as nat));
        }
        r
    }

    /// Consumes one byte, mirroring [`split_step`], and returns the message
    /// it completed, if any.
    fn step_byte(&mut self, b: u8) -> (emitted: Option<String>)
        requires
            old(self).wf(),
            !old(self)@.tainted,
        ensures
            final(self)@ == split_step(old(self)@, b).0,
            final(self).wf(),
            match emitted {
                Some(t) => split_step(old(self)@, b).1 == seq![old(self)@.pending.push(b)]
                    && t@ == lossy_decode(old(self)@.pending.push(b)),
                None => split_step(old(self)@, b).1 == Seq::<Seq<u8>>::empty(),
            },
    {
        let ghost st = self@;
        match self.mode {
            SplitMode::Undetermined => {
                if b == 0x7B || b == 0x5B {
                    self.buffer.push(b);
                    self.depth = 1;
                    self.mode = SplitMode::ObjectOrArray;
                } else if b == 0x7D || b == 0x5D {
                    // a closing bracket with no opener can never become valid
                    self.tainted = true;
                } else if b == 0x22 {
                    self.buffer.push(b);
                    self.depth = 1;
                    self.mode = SplitMode::StringLiteral;
                } else if whitespace_byte(b) {
                } else {
                    self.buffer.push(b);
                    self.mode = SplitMode::RootLevelValue;
                }
                proof {
                    assert(self@ =~= split_step(st, b).0);
                }
                None
            },
            SplitMode::StringLiteral => {
                if self.escaping_next_char {
                    // the escaped byte never closes the string
                    self.buffer.push(b);
                    self.escaping_next_char = false;
                    proof {
                        assert(self@ =~= split_step(st, b).0);
                    }
                    None
                } else if b == 0x22 {
                    if self.depth <= 1 {
                        // a top-level string literal is a complete message
                        self.buffer.push(b);
                        let text = bytes_to_string_lossy(&self.buffer);
                        self.buffer.clear();
                        self.depth = 0;
                        self.mode = SplitMode::Undetermined;
                        proof {
                            assert(self@ =~= split_step(st, b).0);
                        }
                        Some(text)
                    } else {
                        self.buffer.push(b);
                        self.depth = self.depth - 1;
                        self.mode = SplitMode::ObjectOrArray;
                        proof {
                            assert(self@ =~= split_step(st, b).0);
                        }
                        None
                    }
                } else if b == 0x5C {
                    self.buffer.push(b);
                    self.escaping_next_char = true;
                    proof {
                        assert(self@ =~= split_step(st, b).0);
                    }
                    None
                } else {
                    self.buffer.push(b);
                    proof {
                        assert(self@ =~= split_step(st, b).0);
                    }
                    None
                }
            },
            SplitMode::RootLevelValue => {
                if root_level_byte(b) {
                    self.buffer.push(b);
                    proof {
                        assert(self@ =~= split_step(st, b).0);
                    }
                    None
                } else {
                    // the terminating byte is part of the emitted text
                    self.buffer.push(b);
                    let text = bytes_to_string_lossy(&self.buffer);
                    self.buffer.clear();
                    self.mode = SplitMode::Undetermined;
                    proof {
                        assert(self@ =~= split_step(st, b).0);
                    }
                    Some(text)
                }
            },
            SplitMode::ObjectOrArray => {
                if b == 0x22 {
                    self.buffer.push(b);
                    proof {
                        assert(self.buffer.len() == self.buffer@.len());
                    }
                    self.depth = self.depth + 1;
                    self.mode = SplitMode::StringLiteral;
                    proof {
                        assert(self@ =~= split_step(st, b).0);
                    }
                    None
                } else if b == 0x7B || b == 0x5B {
                    self.buffer.push(b);
                    proof {
                        assert(self.buffer.len() == self.buffer@.len());
                    }
                    self.depth = self.depth + 1;
                    proof {
                        assert(self@ =~= split_step(st, b).0);
                    }
                    None
                } else if b == 0x7D || b == 0x5D {
                    if self.depth == 0 {
                        // an unmatched closer inside an aggregate: taint
                        self.tainted = true;
                        proof {
                            assert(self@ =~= split_step(st, b).0);
                        }
                        None
                    } else if self.depth == 1 {
                        self.buffer.push(b);
                        let text = bytes_to_string_lossy(&self.buffer);
                        self.buffer.clear();
                        self.depth = 0;
                        self.mode = SplitMode::Undetermined;
                        proof {
                            assert(self@ =~= split_step(st, b).0);
                        }
                        Some(text)
                    } else {
                        self.buffer.push(b);
                        self.depth = self.depth - 1;
                        proof {
                            assert(self@ =~= split_step(st, b).0);
                        }
                        None
                    }
                } else {
                    self.buffer.push(b);
                    proof {
                        assert(self@ =~= split_step(st, b).0);
                    }
                    None
                }
            },
        }
    }

    /// Feeds one chunk of bytes. Returns the texts of every message the chunk
    /// completed, in order; or the taint error, after which every further
    /// call fails the same way. Chunk boundaries carry no meaning: the
    /// emitted messages depend only on the concatenation of all bytes fed.
    pub fn push(&mut self, buffer: &[u8]) -> (r: Result<Vec<String>, SplitError>)
        requires
            old(self).wf(),
        ensures
            final(self).wf(),
            final(self)@ == split_run(old(self)@, buffer@).0,
            match r {
                Ok(texts) => {
                    &&& !split_run(old(self)@, buffer@).0.tainted
                    &&& texts@.len() == split_run(old(self)@, buffer@).1.len()
                    &&& forall|k: int|
                        0 <= k < texts@.len() ==> texts@[k]@ == lossy_decode(
                            split_run(old(self)@, buffer@).1[k],
                        )
                },
                Err(e) => split_run(old(self)@, buffer@).0.tainted && e is Tainted,
            },
    {
        let ghost st0 = self@;
        if self.tainted {
            proof {
                lemma_split_run_tainted(st0, buffer@);
            }
            return Err(SplitError::Tainted);
        }
        let mut r: Vec<String> = Vec::new();
        let mut i: usize = 0;
        while i < buffer.len()
            invariant
                st0 == old(self)@,
                i <= buffer@.len(),
                self.wf(),
                !self@.tainted,
                self@ == split_run(st0, buffer@.take(i as int)).0,
                r@.len() == split_run(st0, buffer@.take(i as int)).1.len(),
                forall|k: int|
                    0 <= k < r@.len() ==> r@[k]@ == lossy_decode(
                        split_run(st0, buffer@.take(i as int)).1[k],
                    ),
            decreases buffer@.len() - i,
        {
            let b = buffer[i];
            let ghost prev = self@;
            let ghost msgs = split_run(st0, buffer@.take(i as int)).1;
            proof {
                lemma_split_chunk_independence(st0, buffer@.take(i as int), seq![b]);
                assert(buffer@.take(i as int) + seq![b] =~= buffer@.take(i + 1));
                assert(seq![b][0] == b);
                assert(seq![b].drop_first() =~= Seq::<u8>::empty());
                assert(split_step(prev, b).1 + Seq::<Seq<u8>>::empty() =~= split_step(
                    prev,
                    b,
                ).1);
                assert(split_run(split_step(prev, b).0, Seq::<u8>::empty()) == (
                    split_step(prev, b).0,
                    Seq::<Seq<u8>>::empty(),
                ));
                assert(split_run(prev, seq![b]).0 == split_step(prev, b).0);
                assert(split_run(prev, seq![b]).1 == split_step(prev, b).1);
            }
            let emitted = self.step_byte(b);
            match emitted {
                Some(text) => {
                    proof {
                        assert(split_run(st0, buffer@.take(i + 1)).1 =~= msgs.push(
                            prev.pending.push(b),
                        ));
                    }
                    r.push(text);
                },
                None => {
                    proof {
                        assert(split_run(st0, buffer@.take(i + 1)).1 =~= msgs);
                    }
                },
            }
            if self.tainted {
                proof {
                    assert(self@ == split_run(st0, buffer@.take(i + 1)).0);
                    lemma_split_chunk_independence(st0, buffer@.take(i + 1), buffer@.skip(i + 1));
                    assert(buffer@.take(i + 1) + buffer@.skip(i + 1) =~= buffer@);
                    lemma_split_run_tainted(self@, buffer@.skip(i + 1));
                    assert(split_run(st0, buffer@).0 == self@);
                }
                return Err(SplitError::Tainted);
            }
            i = i + 1;
        }
        proof {
            assert(buffer@.take(buffer@.len() as int) =~= buffer@);
        }
        Ok(r)
    }

    /// Emits a pending bare root-level value, complete as far as it goes.
    /// A partial string or aggregate stays buffered; a tainted splitter
    /// fails as always.
    pub fn flush(&mut self) -> (r: Result<Vec<String>, SplitError>)
        ensures
            match r {
                Ok(texts) => {
                    &&& !old(self)@.tainted
                    &&& final(self)@ == flush_spec(old(self)@).0
                    &&& texts@.len() == flush_spec(old(self)@).1.len()
                    &&& forall|k: int|
                        0 <= k < texts@.len() ==> texts@[k]@ == lossy_decode(
                            flush_spec(old(self)@).1[k],
                        )
                },
                Err(e) => old(self)@.tainted && final(self)@ == old(self)@ && e is Tainted,
            },
            old(self).wf() ==> final(self).wf(),
    {
        let ghost st = self@;
        if self.tainted {
            return Err(SplitError::Tainted);
        }
        let mut r: Vec<String> = Vec::new();
        match self.mode {
            SplitMode::RootLevelValue => {
                let text = bytes_to_string_lossy(&self.buffer);
                r.push(text);
                self.buffer.clear();
                self.depth = 0;
                self.mode = SplitMode::Undetermined;
                proof {
                    assert(self@ =~= flush_spec(st).0);
                    assert(r@.len() == flush_spec(st).1.len());
                }
            },
            _ => {
                proof {
                    assert(self@ =~= flush_spec(st).0);
                }
            },
        }
        Ok(r)
    }

    /// Feeds one chunk and then flushes: the chunk's completed messages
    /// followed by a pending bare root-level value, if one remains.
    pub fn push_and_flush(&mut self, buffer: &[u8]) -> (r: Result<Vec<String>, SplitError>)
        requires
            old(self).wf(),
        ensures
            final(self).wf(),
            match r {
                Ok(texts) => {
                    let run = split_run(old(self)@, buffer@);
                    let flushed = flush_spec(run.0);
                    &&& !run.0.tainted
                    &&& final(self)@ == flushed.0
                    &&& texts@.len() == run.1.len() + flushed.1.len()
                    &&& forall|k: int|
                        0 <= k < run.1.len() ==> texts@[k]@ == lossy_decode(run.1[k])
                    &&& forall|k: int|
                        run.1.len() <= k < texts@.len() ==> texts@[k]@ == lossy_decode(
                            flushed.1[k - run.1.len()],
                        )
                },
                Err(e) => split_run(old(self)@, buffer@).0.tainted && e is Tainted,
            },
    {
        match self.push(buffer) {
            Ok(mut texts) => {
                match self.flush() {
                    Ok(mut more) => {
                        texts.append(&mut more);
                        Ok(texts)
                    },
                    Err(e) => Err(e),
                }
            },
            Err(e) => Err(e),
        }
    }

    /// Whether a character may continue a bare root-level literal or number.
    pub fn is_root_level_char(c: char) -> (r: bool)
        ensures
            r == is_root_level_char_spec(c),
    {
        let u = c as u32;
        u == 0x74 || u == 0x72 || u == 0x75 || u == 0x65 || u == 0x45 || u == 0x66 || u == 0x61
            || u == 0x6C || u == 0x73 || u == 0x6E || u == 0x2D || u == 0x2E || (0x30 <= u && u
            <= 0x39)
    }
}

/// Whether a byte may continue a bare root-level literal or number.
fn root_level_byte(b: u8) -> (r: bool)
    ensures
        r == is_root_level_byte(b),
{
    b == 0x74 || b == 0x72 || b == 0x75 || b == 0x65 || b == 0x45 || b == 0x66 || b == 0x61
        || b == 0x6C || b == 0x73 || b == 0x6E || b == 0x2D || b == 0x2E || (0x30 <= b && b
        <= 0x39)
}

impl Default for JsonSplitter {
    /// A splitter with the customary four-kilobyte advisory cap.
    fn default() -> (r: Self)
        ensures
            r@ == fresh_state(4000),
            r.wf(),
    {
        JsonSplitter::new(4000)
    }
}

} // verus!
