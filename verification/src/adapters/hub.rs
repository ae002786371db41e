//! The peer multiplexing engine: one splitter per live peer, driven by the
//! outcome of each peer's non-blocking read. The transport performs the reads
//! and writes; this engine makes every decision — what each peer's bytes
//! complete, which records they yield, and which peers leave the set.

use vstd::prelude::*;

use crate::adapters::common::{json_line_model, log_line_model, Direction, Line, LineModel};
use crate::json::format_spec;
use crate::jsonreader::{
    fresh_state, lossy_decode, split_run, state_wf, JsonSplitter, SplitState,
};

verus! {

/// What one non-blocking read on one peer produced.
#[derive(Debug)]
pub enum ReadEvent {
    /// Bytes arrived; they go to the peer's splitter.
    Data(Vec<u8>),
    /// Nothing to read right now; the peer stays.
    Idle,
    /// The peer is gone: a clean close, a close frame, or a failure the
    /// transport treats as fatal. The peer is removed.
    Closed,
    /// A read failure that leaves the peer in place; the text is logged.
    Broken(String),
}

/// What one peer contributes to a poll cycle: its surviving splitter state,
/// if it survives, and the records it yields. A peer whose splitter taints
/// is removed and yields nothing; data yields one record per completed
/// message; a broken read yields one log record.
pub open spec fn drain_one(st: SplitState, ev: ReadEvent) -> (Option<SplitState>, Seq<LineModel>) {
    match ev {
        ReadEvent::Data(bytes) => {
            let run = split_run(st, bytes@);
            if run.0.tainted {
                (None::<SplitState>, Seq::<LineModel>::empty())
            } else {
                (
                    Some(run.0),
                    Seq::new(
                        run.1.len(),
                        |k: int| json_line_model(lossy_decode(run.1[k]), Direction::Incoming),
                    ),
                )
            }
        },
        ReadEvent::Idle => (Some(st), Seq::<LineModel>::empty()),
        ReadEvent::Closed => (None::<SplitState>, Seq::<LineModel>::empty()),
        ReadEvent::Broken(msg) => (Some(st), seq![log_line_model(msg@)]),
    }
}

/// Whether the peer survives its read event.
pub open spec fn keeps(st: SplitState, ev: ReadEvent) -> bool {
    drain_one(st, ev).0 is Some
}

/// One poll cycle over all peers, in registration order: the surviving
/// splitter states and all records, peers in order and each peer's records
/// in byte-arrival order.
pub open spec fn drain_all(states: Seq<SplitState>, events: Seq<ReadEvent>) -> (
    Seq<SplitState>,
    Seq<LineModel>,
)
    decreases events.len(),
{
    if events.len() == 0 {
        (Seq::<SplitState>::empty(), Seq::<LineModel>::empty())
    } else {
        let head = drain_one(states[0], events[0]);
        let rest = drain_all(states.drop_first(), events.drop_first());
        match head.0 {
            Some(st) => (seq![st] + rest.0, head.1 + rest.1),
            None => (rest.0, head.1 + rest.1),
        }
    }
}

/// Draining peers `s1 ++ s2` equals draining `s1`, then `s2`, with the
/// survivors and records concatenated.
proof fn lemma_drain_all_concat(
    s1: Seq<SplitState>,
    e1: Seq<ReadEvent>,
    s2: Seq<SplitState>,
    e2: Seq<ReadEvent>,
)
    requires
        s1.len() == e1.len(),
    ensures
        drain_all(s1 + s2, e1 + e2).0 == drain_all(s1, e1).0 + drain_all(s2, e2).0,
        drain_all(s1 + s2, e1 + e2).1 == drain_all(s1, e1).1 + drain_all(s2, e2).1,
    decreases e1.len(),
{
    if e1.len() == 0 {
        assert(s1 + s2 =~= s2);
        assert(e1 + e2 =~= e2);
        assert(Seq::<SplitState>::empty() + drain_all(s2, e2).0 =~= drain_all(s2, e2).0);
        assert(Seq::<LineModel>::empty() + drain_all(s2, e2).1 =~= drain_all(s2, e2).1);
    } else {
        assert((s1 + s2)[0] == s1[0]);
        assert((e1 + e2)[0] == e1[0]);
        assert((s1 + s2).drop_first() =~= s1.drop_first() + s2);
        assert((e1 + e2).drop_first() =~= e1.drop_first() + e2);
        lemma_drain_all_concat(s1.drop_first(), e1.drop_first(), s2, e2);
        let head = drain_one(s1[0], e1[0]);
        let r1 = drain_all(s1.drop_first(), e1.drop_first());
        let d2 = drain_all(s2, e2);
        match head.0 {
            Some(st) => {
                assert(seq![st] + (r1.0 + d2.0) =~= (seq![st] + r1.0) + d2.0);
            },
            None => {},
        }
        assert(head.1 + (r1.1 + d2.1) =~= (head.1 + r1.1) + d2.1);
    }
}

/// Extends a cycle's prefix by one peer.
proof fn lemma_drain_all_snoc(states: Seq<SplitState>, events: Seq<ReadEvent>, i: int)
    requires
        states.len() == events.len(),
        0 <= i < events.len(),
    ensures
        drain_all(states.take(i + 1), events.take(i + 1)).1 == drain_all(
            states.take(i),
            events.take(i),
        ).1 + drain_one(states[i], events[i]).1,
        drain_all(states.take(i + 1), events.take(i + 1)).0 == drain_all(
            states.take(i),
            events.take(i),
        ).0 + (match drain_one(states[i], events[i]).0 {
            Some(st) => seq![st],
            None => Seq::<SplitState>::empty(),
        }),
{
    lemma_drain_all_concat(states.take(i), events.take(i), seq![states[i]], seq![events[i]]);
    assert(states.take(i) + seq![states[i]] =~= states.take(i + 1));
    assert(events.take(i) + seq![events[i]] =~= events.take(i + 1));
    assert(seq![states[i]].drop_first() =~= Seq::<SplitState>::empty());
    assert(seq![events[i]].drop_first() =~= Seq::<ReadEvent>::empty());
    assert(seq![states[i]][0] == states[i]);
    assert(seq![events[i]][0] == events[i]);
    assert(drain_all(Seq::<SplitState>::empty(), Seq::<ReadEvent>::empty()) == (
        Seq::<SplitState>::empty(),
        Seq::<LineModel>::empty(),
    ));
    let one = drain_one(states[i], events[i]);
    assert(one.1 + Seq::<LineModel>::empty() =~= one.1);
    match one.0 {
        Some(st) => {
            assert(seq![st] + Seq::<SplitState>::empty() =~= seq![st]);
            assert(drain_all(seq![states[i]], seq![events[i]]).0 == seq![st]);
            assert(drain_all(seq![states[i]], seq![events[i]]).1 == one.1);
        },
        None => {
            assert(drain_all(seq![states[i]], seq![events[i]]).0 == Seq::<SplitState>::empty());
            assert(drain_all(seq![states[i]], seq![events[i]]).1 == one.1);
        },
    }
}

/// How many complete messages the cycle's data events carry in all.
pub open spec fn message_count(states: Seq<SplitState>, events: Seq<ReadEvent>) -> nat
    decreases events.len(),
{
    if events.len() == 0 {
        0
    } else {
        (match events[0] {
            ReadEvent::Data(v) => split_run(states[0], v@).1.len(),
            _ => 0,
        }) + message_count(states.drop_first(), events.drop_first())
    }
}

/// Law: a poll cycle whose events are data, idleness and closures — no read
/// failures — and whose data neither taints a splitter nor carries a message
/// the canonicalizer rejects, returns exactly one record per completed
/// message, each a JSON record tagged with the incoming direction; and
/// which peers survive is read off [`keeps`]: precisely the closed peers
/// leave the set.
pub proof fn lemma_drain_accounting(states: Seq<SplitState>, events: Seq<ReadEvent>)
    requires
        states.len() == events.len(),
        forall|i: int| 0 <= i < events.len() ==> !((#[trigger] events[i]) is Broken),
        forall|i: int|
            0 <= i < events.len() ==> match #[trigger] events[i] {
                ReadEvent::Data(v) => !split_run(states[i], v@).0.tainted,
                _ => true,
            },
        forall|i: int|
            0 <= i < events.len() ==> match #[trigger] events[i] {
                ReadEvent::Data(v) => forall|k: int|
                    0 <= k < split_run(states[i], v@).1.len() ==> format_spec(
                        lossy_decode(#[trigger] split_run(states[i], v@).1[k]),
                    ) is Some,
                _ => true,
            },
    ensures
        drain_all(states, events).1.len() == message_count(states, events),
        forall|k: int|
            0 <= k < drain_all(states, events).1.len() ==> (#[trigger] drain_all(
                states,
                events,
            ).1[k]).json && drain_all(states, events).1[k].dir is Incoming,
        forall|i: int|
            0 <= i < events.len() ==> (keeps(states[i], #[trigger] events[i]) <==> !(events[i]
                is Closed)),
    decreases events.len(),
{
    if events.len() == 0 {
    } else {
        let s2 = states.drop_first();
        let e2 = events.drop_first();
        assert(forall|i: int| 0 <= i < e2.len() ==> #[trigger] e2[i] == events[i + 1]);
        assert(forall|i: int| 0 <= i < s2.len() ==> #[trigger] s2[i] == states[i + 1]);
        lemma_drain_accounting(s2, e2);
        let head = drain_one(states[0], events[0]);
        let rest = drain_all(s2, e2);
        let all = drain_all(states, events);
        assert(all.1 == head.1 + rest.1);
        match events[0] {
            ReadEvent::Data(v) => {
                let run = split_run(states[0], v@);
                assert(!run.0.tainted);
                assert(head.1.len() == run.1.len());
                assert(forall|k: int|
                    0 <= k < head.1.len() ==> (#[trigger] head.1[k]) == json_line_model(
                        lossy_decode(run.1[k]),
                        Direction::Incoming,
                    ));
            },
            _ => {},
        }
        assert forall|k: int| 0 <= k < all.1.len() implies (#[trigger] all.1[k]).json
            && all.1[k].dir is Incoming by {
            if k < head.1.len() {
                assert(all.1[k] == head.1[k]);
            } else {
                assert(all.1[k] == rest.1[k - head.1.len()]);
            }
        }
    }
}

/// A set of live peers, each paired with its own splitter, in registration
/// order.
pub struct Hub {
    peers: Vec<JsonSplitter>,
}

impl View for Hub {
    type V = Seq<SplitState>;

    closed spec fn view(&self) -> Seq<SplitState> {
        self.peers@.map_values(|p: JsonSplitter| p@)
    }
}

impl Hub {
    /// Every peer's splitter holds a reachable state.
    pub open spec fn wf(&self) -> bool {
        forall|i: int| 0 <= i < self@.len() ==> state_wf(#[trigger] self@[i])
    }

    pub fn new() -> (r: Hub)
        ensures
            r@ == Seq::<SplitState>::empty(),
            r.wf(),
    {
        let r = Hub { peers: Vec::new() };
        proof {
            assert(r@ =~= Seq::<SplitState>::empty());
        }
        r
    }

    pub fn peer_count(&self) -> (n: usize)
        ensures
            n == self@.len(),
    {
        self.peers.len()
    }

    /// Registers a newly accepted peer with a fresh splitter.
    pub fn register(&mut self)
        requires
            old(self).wf(),
        ensures
            final(self)@ == old(self)@.push(fresh_state(4000)),
            final(self).wf(),
    {
        self.peers.push(JsonSplitter::new(4000));
        proof {
            assert(self@ =~= old(self)@.push(fresh_state(4000)));
        }
    }

    /// One poll cycle: hands each peer its read outcome, in registration
    /// order. Returns the completed records, and for each peer whether it
    /// stays; closed peers and peers whose splitter tainted leave the set,
    /// in place, without disturbing the others.
    pub fn drain(&mut self, events: &Vec<ReadEvent>) -> (r: (Vec<Line>, Vec<bool>))
        requires
            old(self).wf(),
            events@.len() == old(self)@.len(),
        ensures
            final(self).wf(),
            final(self)@ == drain_all(old(self)@, events@).0,
            r.0@.len() == drain_all(old(self)@, events@).1.len(),
            forall|k: int|
                0 <= k < r.0@.len() ==> r.0@[k]@ == drain_all(old(self)@, events@).1[k],
            r.1@.len() == events@.len(),
            forall|k: int|
                0 <= k < events@.len() ==> r.1@[k] == keeps(old(self)@[k], #[trigger] events@[k]),
    {
        let ghost states0 = self@;
        let mut lines: Vec<Line> = Vec::new();
        let mut kept: Vec<bool> = Vec::new();
        let n = events.len();
        let mut i: usize = 0;
        while i < n
            invariant
                states0 == old(self)@,
                n == events@.len(),
                events@.len() == states0.len(),
                i <= n,
                self@ == states0.skip(i as int) + drain_all(
                    states0.take(i as int),
                    events@.take(i as int),
                ).0,
                forall|k: int| 0 <= k < self@.len() ==> state_wf(#[trigger] self@[k]),
                lines@.len() == drain_all(states0.take(i as int), events@.take(i as int)).1.len(),
                forall|k: int|
                    0 <= k < lines@.len() ==> lines@[k]@ == drain_all(
                        states0.take(i as int),
                        events@.take(i as int),
                    ).1[k],
                kept@.len() == i,
                forall|k: int|
                    0 <= k < i ==> kept@[k] == keeps(states0[k], #[trigger] events@[k]),
            decreases n - i,
        {
            let ghost prev_d = drain_all(states0.take(i as int), events@.take(i as int));
            let ghost cur = self@;
            proof {
                lemma_drain_all_snoc(states0, events@, i as int);
                assert(cur[0] == states0[i as int]);
            }
            let mut sp = self.peers.remove(0);
            proof {
                assert(sp@ == states0[i as int]);
                assert(self@ =~= cur.drop_first());
                assert(self@ =~= states0.skip(i + 1) + prev_d.0);
            }
            let ghost one = drain_one(states0[i as int], events@[i as int]);
            match &events[i] {
                ReadEvent::Data(bytes) => {
                    let ghost run = split_run(states0[i as int], bytes@);
                    match sp.push(bytes.as_slice()) {
                        Ok(texts) => {
                            let mut j: usize = 0;
                            while j < texts.len()
                                invariant
                                    texts@.len() == run.1.len(),
                                    forall|k: int|
                                        0 <= k < texts@.len() ==> (#[trigger] texts@[k])@
                                            == lossy_decode(run.1[k]),
                                    j <= texts@.len(),
                                    lines@.len() == prev_d.1.len() + j,
                                    forall|k: int|
                                        0 <= k < prev_d.1.len() ==> (#[trigger] lines@[k])@
                                            == prev_d.1[k],
                                    forall|k: int|
                                        0 <= k < j ==> (#[trigger] lines@[prev_d.1.len() + k])@
                                            == json_line_model(
                                            lossy_decode(run.1[k]),
                                            Direction::Incoming,
                                        ),
                                decreases texts@.len() - j,
                            {
                                let t = texts[j].clone();
                                lines.push(Line::new_json(t, Direction::Incoming));
                                j = j + 1;
                            }
                            self.peers.push(sp);
                            kept.push(true);
                            proof {
                                assert(!run.0.tainted);
                                assert(one.0 == Some(run.0));
                                assert(one.1 =~= Seq::new(
                                    run.1.len(),
                                    |k: int|
                                        json_line_model(
                                            lossy_decode(run.1[k]),
                                            Direction::Incoming,
                                        ),
                                ));
                                assert(lines@.len() == prev_d.1.len() + one.1.len());
                                assert forall|k: int| 0 <= k < lines@.len() implies (
                                #[trigger] lines@[k])@ == (prev_d.1 + one.1)[k] by {
                                    if k >= prev_d.1.len() {
                                        let k2 = k - prev_d.1.len();
                                        assert(lines@[prev_d.1.len() + k2]@ == json_line_model(
                                            lossy_decode(run.1[k2]),
                                            Direction::Incoming,
                                        ));
                                        assert((prev_d.1 + one.1)[k] == one.1[k2]);
                                    } else {
                                        assert((prev_d.1 + one.1)[k] == prev_d.1[k]);
                                    }
                                }
                                assert(self@ =~= (states0.skip(i + 1) + prev_d.0).push(run.0));
                            }
                        },
                        Err(_) => {
                            kept.push(false);
                            proof {
                                assert(run.0.tainted);
                                assert(one.0 is None);
                                assert(one.1 =~= Seq::<LineModel>::empty());
                                assert(prev_d.1 + one.1 =~= prev_d.1);
                            }
                        },
                    }
                },
                ReadEvent::Idle => {
                    self.peers.push(sp);
                    kept.push(true);
                    proof {
                        assert(one.1 =~= Seq::<LineModel>::empty());
                        assert(prev_d.1 + one.1 =~= prev_d.1);
                        assert(self@ =~= (states0.skip(i + 1) + prev_d.0).push(
                            states0[i as int],
                        ));
                    }
                },
                ReadEvent::Closed => {
                    kept.push(false);
                    proof {
                        assert(one.1 =~= Seq::<LineModel>::empty());
                        assert(prev_d.1 + one.1 =~= prev_d.1);
                    }
                },
                ReadEvent::Broken(msg) => {
                    proof {
                        assert(one.1 =~= seq![log_line_model(msg@)]);
                    }
                    let text = msg.clone();
                    lines.push(Line::new_log(text));
                    self.peers.push(sp);
                    kept.push(true);
                    proof {
                        assert(prev_d.1 + one.1 =~= prev_d.1.push(log_line_model(msg@)));
                        assert(self@ =~= (states0.skip(i + 1) + prev_d.0).push(
                            states0[i as int],
                        ));
                    }
                },
            }
            proof {
                let next_d = drain_all(states0.take(i + 1), events@.take(i + 1));
                assert(next_d.1 == prev_d.1 + one.1);
                assert(lines@.len() == next_d.1.len());
                assert forall|k: int| 0 <= k < lines@.len() implies (#[trigger] lines@[k])@
                    == next_d.1[k] by {
                    assert(next_d.1[k] == (prev_d.1 + one.1)[k]);
                    if k < prev_d.1.len() {
                        assert((prev_d.1 + one.1)[k] == prev_d.1[k]);
                    }
                }
                match one.0 {
                    Some(st) => {
                        assert((states0.skip(i + 1) + prev_d.0).push(st) =~= states0.skip(i + 1)
                            + (prev_d.0 + seq![st]));
                        assert(self@ == states0.skip(i + 1) + next_d.0);
                    },
                    None => {
                        assert(prev_d.0 + Seq::<SplitState>::empty() =~= prev_d.0);
                        assert(self@ == states0.skip(i + 1) + next_d.0);
                    },
                }
            }
            i = i + 1;
        }
        proof {
            assert(states0.take(n as int) =~= states0);
            assert(events@.take(n as int) =~= events@);
            assert(states0.skip(n as int) =~= Seq::<SplitState>::empty());
            assert(Seq::<SplitState>::empty() + drain_all(states0, events@).0 =~= drain_all(
                states0,
                events@,
            ).0);
        }
        (lines, kept)
    }

    /// Applies a broadcast's outcome: peers whose write failed leave the set,
    /// the others stay, in order.
    pub fn keep_sent(&mut self, sent: &Vec<bool>)
        requires
            old(self).wf(),
            sent@.len() == old(self)@.len(),
        ensures
            final(self).wf(),
            final(self)@ == filter_indices_spec(old(self)@, sent@),
    {
        let ghost states0 = self@;
        let n = sent.len();
        let mut i: usize = 0;
        while i < n
            invariant
                states0 == old(self)@,
                n == sent@.len(),
                sent@.len() == states0.len(),
                i <= n,
                self@ == states0.skip(i as int) + filter_indices_spec(states0.take(i as int), sent@.take(i as int)),
                forall|k: int| 0 <= k < self@.len() ==> state_wf(#[trigger] self@[k]),
            decreases n - i,
        {
            let ghost cur = self@;
            proof {
                assert(self.peers@.len() == cur.len());
                assert(cur.len() >= states0.skip(i as int).len());
                assert(cur[0] == states0[i as int]);
                lemma_filter_indices_snoc(states0, sent@, i as int);
            }
            let sp = self.peers.remove(0);
            proof {
                assert(self@ =~= cur.drop_first());
                assert(self@ =~= states0.skip(i + 1) + filter_indices_spec(states0.take(i as int), sent@.take(i as int)));
            }
            if sent[i] {
                self.peers.push(sp);
                proof {
                    assert(self@ =~= (states0.skip(i + 1) + filter_indices_spec(states0.take(i as int), sent@.take(i as int))).push(states0[i as int]));
                    assert(self@ =~= states0.skip(i + 1) + filter_indices_spec(states0.take(i + 1), sent@.take(i + 1)));
                }
            } else {
                proof {
                    assert(self@ =~= states0.skip(i + 1) + filter_indices_spec(states0.take(i + 1), sent@.take(i + 1)));
                }
            }
            i = i + 1;
        }
        proof {
            assert(states0.take(n as int) =~= states0);
            assert(sent@.take(n as int) =~= sent@);
            assert(states0.skip(n as int) =~= Seq::<SplitState>::empty());
            assert(Seq::<SplitState>::empty() + filter_indices_spec(states0, sent@)
                =~= filter_indices_spec(states0, sent@));
        }
    }
}

/// The elements whose flag is set, in order.
pub open spec fn filter_indices_spec(states: Seq<SplitState>, flags: Seq<bool>) -> Seq<SplitState>
    decreases flags.len(),
{
    if flags.len() == 0 || states.len() == 0 {
        Seq::<SplitState>::empty()
    } else {
        let rest = filter_indices_spec(states.drop_first(), flags.drop_first());
        if flags[0] {
            seq![states[0]] + rest
        } else {
            rest
        }
    }
}

/// Extends a filtered prefix by one element.
proof fn lemma_filter_indices_snoc(states: Seq<SplitState>, flags: Seq<bool>, i: int)
    requires
        states.len() == flags.len(),
        0 <= i < flags.len(),
    ensures
        filter_indices_spec(states.take(i + 1), flags.take(i + 1)) == filter_indices_spec(
            states.take(i),
            flags.take(i),
        ) + (if flags[i] {
            seq![states[i]]
        } else {
            Seq::<SplitState>::empty()
        }),
{
    lemma_filter_indices_concat(states.take(i), flags.take(i), seq![states[i]], seq![flags[i]]);
    assert(states.take(i) + seq![states[i]] =~= states.take(i + 1));
    assert(flags.take(i) + seq![flags[i]] =~= flags.take(i + 1));
    assert(seq![states[i]].drop_first() =~= Seq::<SplitState>::empty());
    assert(seq![flags[i]].drop_first() =~= Seq::<bool>::empty());
    assert(seq![states[i]][0] == states[i]);
    assert(seq![flags[i]][0] == flags[i]);
    assert(filter_indices_spec(Seq::<SplitState>::empty(), Seq::<bool>::empty())
        == Seq::<SplitState>::empty());
    if flags[i] {
        assert(seq![states[i]] + Seq::<SplitState>::empty() =~= seq![states[i]]);
        assert(filter_indices_spec(seq![states[i]], seq![flags[i]]) == seq![states[i]]);
    } else {
        assert(filter_indices_spec(seq![states[i]], seq![flags[i]])
            == Seq::<SplitState>::empty());
    }
}

/// Filtering `s1 ++ s2` equals filtering each and concatenating.
proof fn lemma_filter_indices_concat(
    s1: Seq<SplitState>,
    f1: Seq<bool>,
    s2: Seq<SplitState>,
    f2: Seq<bool>,
)
    requires
        s1.len() == f1.len(),
    ensures
        filter_indices_spec(s1 + s2, f1 + f2) == filter_indices_spec(s1, f1)
            + filter_indices_spec(s2, f2),
    decreases f1.len(),
{
    if f1.len() == 0 {
        assert(s1 + s2 =~= s2);
        assert(f1 + f2 =~= f2);
        assert(Seq::<SplitState>::empty() + filter_indices_spec(s2, f2) =~= filter_indices_spec(
            s2,
            f2,
        ));
    } else {
        assert((s1 + s2)[0] == s1[0]);
        assert((f1 + f2)[0] == f1[0]);
        assert((s1 + s2).drop_first() =~= s1.drop_first() + s2);
        assert((f1 + f2).drop_first() =~= f1.drop_first() + f2);
        lemma_filter_indices_concat(s1.drop_first(), f1.drop_first(), s2, f2);
        let r1 = filter_indices_spec(s1.drop_first(), f1.drop_first());
        let r2 = filter_indices_spec(s2, f2);
        if f1[0] {
            assert(seq![s1[0]] + (r1 + r2) =~= (seq![s1[0]] + r1) + r2);
        }
    }
}

} // verus!
