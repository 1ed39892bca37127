use vstd::prelude::*;
use crate::api::{ChunkView, MAX_WAV_BUF_SAMPLES, TtsBackendConfig, TtsBackendData, TtsBeControl};

verus! {

/// Where the backend stands with respect to synthesis.
#[derive(Debug, Clone, Copy, PartialEq, Eq, Structural)]
pub enum Phase {
    /// No request in flight.
    Idle,
    /// A request is in flight; its audio is being routed.
    Synthesizing,
    /// The backend was told to quit; nothing more is emitted.
    Stopped,
}

/// What happens to the backend: a message from the client, or progress of
/// the synthesizer working on the current request.
#[derive(Debug, Clone, PartialEq, Eq)]
pub enum BackendEvent {
    /// Callback routing was registered; it replaces any earlier one.
    Configure(TtsBackendConfig),
    /// A synthesis request arrived.
    Request,
    /// The synthesizer produced samples for the current request.
    Audio(Vec<u16>),
    /// The synthesizer finished the current request.
    Finished,
    /// The backend was told to exit.
    Quit,
}

/// One chunk to push to a callback server under an opcode.
#[derive(Debug, Clone, Copy, PartialEq, Eq)]
pub struct Delivery {
    pub sid: [u32; 4],
    pub op: u32,
    pub chunk: TtsBackendData,
}

/// A delivery as values: destination address, opcode and chunk meaning.
pub struct DeliveryView {
    pub sid: Seq<u32>,
    pub op: u32,
    pub chunk: ChunkView,
}

impl View for Delivery {
    type V = DeliveryView;

    open spec fn view(&self) -> DeliveryView {
        DeliveryView { sid: self.sid@, op: self.op, chunk: self.chunk@ }
    }
}

/// Backend side of the protocol: the registered routing and the synthesis phase.
#[derive(Debug, Clone, Copy, PartialEq, Eq)]
pub struct CallbackRouter {
    pub config: Option<TtsBackendConfig>,
    pub phase: Phase,
}

/// Samples per chunk under a configuration: the hint when it is between 1
/// and the chunk capacity, else the capacity.
pub open spec fn chunk_cap(c: TtsBackendConfig) -> nat {
    match c.samples_per_cb {
        Some(h) => if 1 <= h <= MAX_WAV_BUF_SAMPLES { h as nat } else { MAX_WAV_BUF_SAMPLES as nat },
        None => MAX_WAV_BUF_SAMPLES as nat,
    }
}

/// Consecutive pieces of `s`, each `cap` long but the last.
pub open spec fn split_audio(s: Seq<u16>, cap: nat) -> Seq<Seq<u16>>
    decreases s.len(),
{
    if s.len() == 0 || cap == 0 {
        Seq::empty()
    } else if s.len() <= cap {
        seq![s]
    } else {
        seq![s.take(cap as int)] + split_audio(s.skip(cap as int), cap)
    }
}

/// A chunk of `samples` with `control`, addressed as `c` says.
pub open spec fn delivery(c: TtsBackendConfig, samples: Seq<u16>, control: Option<TtsBeControl>) -> DeliveryView {
    DeliveryView { sid: c.sid@, op: c.op, chunk: ChunkView { samples, control } }
}

/// Unmarked chunks carrying `s`, addressed as `c` says.
pub open spec fn audio_deliveries(c: TtsBackendConfig, s: Seq<u16>) -> Seq<DeliveryView> {
    split_audio(s, chunk_cap(c)).map_values(|p: Seq<u16>| delivery(c, p, None))
}

/// An empty chunk carrying `m`, if routing is registered.
pub open spec fn marker_deliveries(config: Option<TtsBackendConfig>, m: TtsBeControl) -> Seq<DeliveryView> {
    match config {
        Some(c) => seq![delivery(c, Seq::empty(), Some(m))],
        None => Seq::empty(),
    }
}

/// One step of the backend: the next state and the chunks emitted, in order.
pub open spec fn step_spec(s: CallbackRouter, ev: BackendEvent) -> (CallbackRouter, Seq<DeliveryView>) {
    if s.phase == Phase::Stopped {
        (s, Seq::empty())
    } else {
        match ev {
            BackendEvent::Configure(c) => (CallbackRouter { config: Some(c), ..s }, Seq::empty()),
            BackendEvent::Request => (
                CallbackRouter { phase: Phase::Synthesizing, ..s },
                if s.phase == Phase::Synthesizing {
                    marker_deliveries(s.config, TtsBeControl::Abort)
                } else {
                    Seq::empty()
                },
            ),
            BackendEvent::Audio(v) => (
                s,
                match s.config {
                    Some(c) => if s.phase == Phase::Synthesizing { audio_deliveries(c, v@) } else { Seq::empty() },
                    None => Seq::empty(),
                },
            ),
            BackendEvent::Finished => if s.phase == Phase::Synthesizing {
                (CallbackRouter { phase: Phase::Idle, ..s }, marker_deliveries(s.config, TtsBeControl::End))
            } else {
                (s, Seq::empty())
            },
            BackendEvent::Quit => (CallbackRouter { phase: Phase::Stopped, ..s }, Seq::empty()),
        }
    }
}

/// The state after `evs`, and every chunk emitted on the way, in order.
pub open spec fn run(s: CallbackRouter, evs: Seq<BackendEvent>) -> (CallbackRouter, Seq<DeliveryView>)
    decreases evs.len(),
{
    if evs.len() == 0 {
        (s, Seq::empty())
    } else {
        let (s1, out1) = step_spec(s, evs[0]);
        let (s2, out2) = run(s1, evs.drop_first());
        (s2, out1 + out2)
    }
}

/// The meanings of a sequence of deliveries.
pub open spec fn views(ds: Seq<Delivery>) -> Seq<DeliveryView> {
    ds.map_values(|d: Delivery| d@)
}

proof fn lemma_split_step(s: Seq<u16>, i: int, cap: nat)
    requires
        0 <= i < s.len(),
        cap >= 1,
    ensures
        split_audio(s.skip(i), cap) == seq![s.subrange(i, if s.len() - i <= cap { s.len() as int } else { i + cap })]
            + split_audio(s.skip(if s.len() - i <= cap { s.len() as int } else { i + cap }), cap),
{
    let t = s.skip(i);
    if s.len() - i <= cap {
        assert(t =~= s.subrange(i, s.len() as int));
        assert(s.skip(s.len() as int).len() == 0);
        assert(seq![t] + Seq::<Seq<u16>>::empty() =~= seq![t]);
    } else {
        assert(t.take(cap as int) =~= s.subrange(i, i + cap));
        assert(t.skip(cap as int) =~= s.skip(i + cap));
    }
}

impl CallbackRouter {
    /// A backend with no routing registered and no request in flight.
    pub fn new() -> (r: CallbackRouter)
        ensures
            r.config is None,
            r.phase == Phase::Idle,
    {
        CallbackRouter { config: None, phase: Phase::Idle }
    }

    fn marker(config: Option<TtsBackendConfig>, m: TtsBeControl) -> (r: Vec<Delivery>)
        ensures
            views(r@) == marker_deliveries(config, m),
    {
        let mut r: Vec<Delivery> = Vec::new();
        match config {
            Some(c) => {
                let empty: [u16; 0] = [];
                let chunk = TtsBackendData::from_samples(&empty, 0, 0, Some(m));
                r.push(Delivery { sid: c.sid, op: c.op, chunk });
                assert(chunk@.samples =~= Seq::<u16>::empty());
            },
            None => {},
        }
        assert(views(r@) =~= marker_deliveries(config, m));
        r
    }

    fn audio(c: TtsBackendConfig, samples: &[u16]) -> (r: Vec<Delivery>)
        ensures
            views(r@) == audio_deliveries(c, samples@),
    {
        let cap: usize = match c.samples_per_cb {
            Some(h) => if 1 <= h && h as usize <= MAX_WAV_BUF_SAMPLES { h as usize } else { MAX_WAV_BUF_SAMPLES },
            None => MAX_WAV_BUF_SAMPLES,
        };
        let n = samples.len();
        let mut r: Vec<Delivery> = Vec::new();
        let mut i: usize = 0;
        assert(samples@.skip(0) =~= samples@);
        while i < n
            invariant
                n == samples@.len(),
                i <= n,
                cap == chunk_cap(c),
                1 <= cap <= MAX_WAV_BUF_SAMPLES,
                views(r@) + audio_deliveries(c, samples@.skip(i as int)) == audio_deliveries(c, samples@),
            decreases n - i,
        {
            let end = if n - i <= cap { n } else { i + cap };
            let chunk = TtsBackendData::from_samples(samples, i, end, None);
            proof {
                lemma_split_step(samples@, i as int, cap as nat);
            }
            let ghost before = views(r@);
            r.push(Delivery { sid: c.sid, op: c.op, chunk });
            proof {
                let f = |p: Seq<u16>| delivery(c, p, None);
                let tail = split_audio(samples@.skip(end as int), cap as nat);
                let piece = samples@.subrange(i as int, end as int);
                assert((seq![piece] + tail).map_values(f) =~= seq![f(piece)] + tail.map_values(f));
                assert(views(r@) =~= before + seq![f(piece)]);
            }
            i = end;
            assert(views(r@) + audio_deliveries(c, samples@.skip(i as int)) =~= audio_deliveries(c, samples@));
        }
        assert(samples@.skip(n as int) =~= Seq::<u16>::empty());
        assert(views(r@) =~= views(r@) + audio_deliveries(c, samples@.skip(n as int)));
        r
    }

    /// Applies one event; returns the chunks to push, in order.
    pub fn step(&mut self, ev: BackendEvent) -> (r: Vec<Delivery>)
        ensures
            *final(self) == step_spec(*old(self), ev).0,
            views(r@) == step_spec(*old(self), ev).1,
            r@.len() == step_spec(*old(self), ev).1.len(),
    {
        if self.phase == Phase::Stopped {
            let r: Vec<Delivery> = Vec::new();
            assert(views(r@) =~= Seq::<DeliveryView>::empty());
            return r;
        }
        match ev {
            BackendEvent::Configure(c) => {
                self.config = Some(c);
                let r: Vec<Delivery> = Vec::new();
                assert(views(r@) =~= Seq::<DeliveryView>::empty());
                r
            },
            BackendEvent::Request => {
                let r = if self.phase == Phase::Synthesizing {
                    CallbackRouter::marker(self.config, TtsBeControl::Abort)
                } else {
                    let r: Vec<Delivery> = Vec::new();
                    assert(views(r@) =~= Seq::<DeliveryView>::empty());
                    r
                };
                self.phase = Phase::Synthesizing;
                r
            },
            BackendEvent::Audio(v) => {
                match self.config {
                    Some(c) => if self.phase == Phase::Synthesizing {
                        return CallbackRouter::audio(c, v.as_slice());
                    },
                    None => {},
                }
                let r: Vec<Delivery> = Vec::new();
                assert(views(r@) =~= Seq::<DeliveryView>::empty());
                r
            },
            BackendEvent::Finished => {
                if self.phase == Phase::Synthesizing {
                    self.phase = Phase::Idle;
                    CallbackRouter::marker(self.config, TtsBeControl::End)
                } else {
                    let r: Vec<Delivery> = Vec::new();
                    assert(views(r@) =~= Seq::<DeliveryView>::empty());
                    r
                }
            },
            BackendEvent::Quit => {
                self.phase = Phase::Stopped;
                let r: Vec<Delivery> = Vec::new();
                assert(views(r@) =~= Seq::<DeliveryView>::empty());
                r
            },
        }
    }
}

/// Running two event sequences one after the other emits what the first
/// emits, then what the second emits from where the first left off: later
/// events never change chunks already emitted.
pub proof fn lemma_run_append(s: CallbackRouter, a: Seq<BackendEvent>, b: Seq<BackendEvent>)
    ensures
        run(s, a + b) == (run(run(s, a).0, b).0, run(s, a).1 + run(run(s, a).0, b).1),
    decreases a.len(),
{
    if a.len() == 0 {
        assert(a + b =~= b);
        assert(run(s, b).1 =~= Seq::<DeliveryView>::empty() + run(s, b).1);
    } else {
        assert((a + b).drop_first() =~= a.drop_first() + b);
        assert((a + b)[0] == a[0]);
        let s1 = step_spec(s, a[0]).0;
        lemma_run_append(s1, a.drop_first(), b);
        let o1 = step_spec(s, a[0]).1;
        let oa = run(s1, a.drop_first()).1;
        let ob = run(run(s1, a.drop_first()).0, b).1;
        assert(o1 + (oa + ob) =~= (o1 + oa) + ob);
    }
}

/// While a request is in flight and routing is registered, the chunks it
/// produces up to its completion carry no marker but the last, which
/// carries `End`; the backend is then idle.
pub proof fn lemma_completed_request_ends_with_end(s: CallbackRouter, evs: Seq<BackendEvent>)
    requires
        s.phase == Phase::Synthesizing,
        s.config is Some,
        evs.len() > 0,
        evs.last() == BackendEvent::Finished,
        forall|i: int| 0 <= i < evs.len() - 1 ==> (#[trigger] evs[i] is Audio || evs[i] is Configure),
    ensures
        run(s, evs).0.phase == Phase::Idle,
        run(s, evs).1.len() > 0,
        run(s, evs).1.last().chunk.control == Some(TtsBeControl::End),
        forall|k: int| 0 <= k < run(s, evs).1.len() - 1 ==> (#[trigger] run(s, evs).1[k]).chunk.control is None,
    decreases evs.len(),
{
    let rest = evs.drop_first();
    let (s1, o1) = step_spec(s, evs[0]);
    if evs.len() == 1 {
        assert(evs[0] == evs.last());
        assert(rest.len() == 0);
        assert(run(s1, rest) == (s1, Seq::<DeliveryView>::empty()));
        assert(o1 + Seq::<DeliveryView>::empty() =~= o1);
        assert(run(s, evs) == (s1, o1 + Seq::<DeliveryView>::empty()));
    } else {
        assert(evs[0] is Audio || evs[0] is Configure);
        assert forall|i: int| 0 <= i < rest.len() - 1 implies (#[trigger] rest[i] is Audio || rest[i] is Configure) by {
            assert(rest[i] == evs[i + 1]);
        }
        assert(rest.last() == evs.last());
        lemma_completed_request_ends_with_end(s1, rest);
        let o2 = run(s1, rest).1;
        assert(run(s, evs) == (run(s1, rest).0, o1 + o2));
        assert(forall|k: int| 0 <= k < o1.len() ==> (#[trigger] o1[k]).chunk.control is None);
        let all = o1 + o2;
        assert(all.last() == o2.last());
        assert forall|k: int| 0 <= k < all.len() - 1 implies (#[trigger] all[k]).chunk.control is None by {
            if k < o1.len() {
                assert(all[k] == o1[k]);
            } else {
                assert(all[k] == o2[k - o1.len()]);
            }
        }
    }
}

/// A backend with no request in flight emits nothing until a new request
/// arrives: no chunk follows the `End` of a completed request.
pub proof fn lemma_idle_backend_is_silent(s: CallbackRouter, evs: Seq<BackendEvent>)
    requires
        s.phase == Phase::Idle || s.phase == Phase::Stopped,
        forall|i: int| 0 <= i < evs.len() ==> !(#[trigger] evs[i] is Request),
    ensures
        run(s, evs).1.len() == 0,
        run(s, evs).0.phase != Phase::Synthesizing,
    decreases evs.len(),
{
    if evs.len() > 0 {
        let rest = evs.drop_first();
        assert(!(evs[0] is Request));
        assert forall|i: int| 0 <= i < rest.len() implies !(#[trigger] rest[i] is Request) by {
            assert(rest[i] == evs[i + 1]);
        }
        lemma_idle_backend_is_silent(step_spec(s, evs[0]).0, rest);
    }
}

/// A request that arrives while another is in flight makes the backend
/// emit an `Abort` for the earlier one before anything else.
pub proof fn lemma_superseding_request_aborts_first(s: CallbackRouter, evs: Seq<BackendEvent>)
    requires
        s.phase == Phase::Synthesizing,
        s.config is Some,
    ensures
        run(s, seq![BackendEvent::Request] + evs).1.len() > 0,
        run(s, seq![BackendEvent::Request] + evs).1[0] == delivery(
            s.config->0,
            Seq::empty(),
            Some(TtsBeControl::Abort),
        ),
        run(s, seq![BackendEvent::Request] + evs).1[0].chunk.samples.len() == 0,
{
    let all = seq![BackendEvent::Request] + evs;
    assert(all[0] == BackendEvent::Request);
    assert(all.drop_first() =~= evs);
}

proof fn lemma_routed_to(s: CallbackRouter, c: TtsBackendConfig, evs: Seq<BackendEvent>)
    requires
        s.config == Some(c) || s.phase == Phase::Stopped,
        forall|i: int| 0 <= i < evs.len() ==> !(#[trigger] evs[i] is Configure),
    ensures
        forall|k: int| 0 <= k < run(s, evs).1.len() ==> (#[trigger] run(s, evs).1[k]).sid == c.sid@ && run(s, evs).1[k].op == c.op,
    decreases evs.len(),
{
    if evs.len() > 0 {
        let rest = evs.drop_first();
        let (s1, o1) = step_spec(s, evs[0]);
        assert(!(evs[0] is Configure));
        assert forall|i: int| 0 <= i < rest.len() implies !(#[trigger] rest[i] is Configure) by {
            assert(rest[i] == evs[i + 1]);
        }
        lemma_routed_to(s1, c, rest);
        let o2 = run(s1, rest).1;
        let all = o1 + o2;
        assert forall|k: int| 0 <= k < all.len() implies (#[trigger] all[k]).sid == c.sid@ && all[k].op == c.op by {
            if k < o1.len() {
                assert(all[k] == o1[k]);
            } else {
                assert(all[k] == o2[k - o1.len()]);
            }
        }
    }
}

/// Registering routing `c` leaves the chunks emitted before it as they
/// were, and sends every chunk emitted after it, until the next
/// registration, to `c`'s address under `c`'s opcode.
pub proof fn lemma_configuration_redirects_later_chunks(
    s: CallbackRouter,
    before: Seq<BackendEvent>,
    c: TtsBackendConfig,
    after: Seq<BackendEvent>,
)
    requires
        forall|i: int| 0 <= i < after.len() ==> !(#[trigger] after[i] is Configure),
    ensures
        run(s, before + seq![BackendEvent::Configure(c)] + after).1.take(run(s, before).1.len() as int)
            == run(s, before).1,
        forall|k: int|
            run(s, before).1.len() <= k < run(s, before + seq![BackendEvent::Configure(c)] + after).1.len()
                ==> (#[trigger] run(s, before + seq![BackendEvent::Configure(c)] + after).1[k]).sid == c.sid@
                && run(s, before + seq![BackendEvent::Configure(c)] + after).1[k].op == c.op,
{
    let mid = seq![BackendEvent::Configure(c)] + after;
    assert(before + seq![BackendEvent::Configure(c)] + after =~= before + mid);
    lemma_run_append(s, before, mid);
    let s1 = run(s, before).0;
    assert(mid[0] == BackendEvent::Configure(c));
    assert(mid.drop_first() =~= after);
    let s2 = step_spec(s1, mid[0]).0;
    lemma_routed_to(s2, c, after);
    let o1 = run(s, before).1;
    let o2 = run(s1, mid).1;
    assert((o1 + o2).take(o1.len() as int) =~= o1);
    assert(step_spec(s1, mid[0]).1.len() == 0);
    assert(o2 =~= run(s2, after).1);
    assert forall|k: int| o1.len() <= k < (o1 + o2).len() implies (#[trigger] (o1 + o2)[k]).sid == c.sid@ && (o1 + o2)[k].op == c.op by {
        assert((o1 + o2)[k] == o2[k - o1.len()]);
    }
}

} // verus!
