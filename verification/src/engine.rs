//! The burn engine.
//!
//! `BurnEngine` is the verified core of one burn operation.  It owns the
//! operation's counters and the incremental SHA-256 state and, as ghost
//! data, the bytes reported written and the trace of events emitted so far.
//! A driver owns the I/O: it reads a chunk from the image, writes it to the
//! device, forces it durable, and then calls back into the engine, which
//! advances the protocol and produces the event to send.  `burn_buffer`
//! is a complete in-memory driver for burns whose device is a byte buffer,
//! the loopback form used for testing without real hardware.

use vstd::prelude::*;

use crate::progress::is_terminal;
use crate::progress::Event;
use crate::progress::Progress;

verus! {

/// A flag of a burn configuration.
#[derive(Clone, Copy, PartialEq, Eq, Structural)]
pub enum BurnSetting {
    /// Compute and report a SHA-256 digest of the bytes written.
    Verify,
}

/// Immutable description of one burn operation: destination device path,
/// source image path, and settings.  Constructed by the caller, consumed
/// exactly once by the engine's driver.
pub struct BurnConfig {
    /// Destination device path.
    pub device: String,
    /// Source image path.
    pub image: String,
    /// Settings of the operation.
    pub settings: Vec<BurnSetting>,
}

impl BurnConfig {
    /// Whether the configuration requests digest verification.
    pub fn wants_verify(&self) -> (b: bool)
        ensures
            b == self.settings@.contains(BurnSetting::Verify),
    {
        let mut i: usize = 0;
        while i < self.settings.len()
            invariant
                i <= self.settings@.len(),
                forall|k: int| 0 <= k < i ==> self.settings@[k] != BurnSetting::Verify,
            decreases self.settings@.len() - i,
        {
            if self.settings[i] == BurnSetting::Verify {
                assert(self.settings@[i as int] == BurnSetting::Verify);
                return true;
            }
            i = i + 1;
        }
        false
    }
}

#[verifier::external_type_specification]
#[verifier::external_body]
pub struct ExSha256(sha2::Sha256);

/// The SHA-256 digest of a byte sequence, as the hash implementation
/// computes it.  The digest of given bytes is one fixed 32-byte value, the
/// same on every machine; no contract of this library states which, and the
/// engine's contracts relate digests to the hashed bytes only through this
/// name.
pub uninterp spec fn sha256_of(data: Seq<u8>) -> Seq<u8>;

/// Incremental SHA-256 state, coupled with the bytes it has absorbed.
struct Hasher {
    state: sha2::Sha256,
    absorbed: Ghost<Seq<u8>>,
}

impl Hasher {
    /// The bytes fed to the hash state since it was created or reset.
    spec fn bytes(self) -> Seq<u8> {
        self.absorbed@
    }
}

/// Relies on `sha2::Sha256::new` (via the `Digest` trait): a fresh hash
/// state that has absorbed no input.
#[verifier::external_body]
fn sha_new() -> sha2::Sha256 {
    sha2::Digest::new()
}

fn hasher_new() -> (h: Hasher)
    ensures
        h.bytes() == Seq::<u8>::empty(),
{
    Hasher { state: sha_new(), absorbed: Ghost(Seq::empty()) }
}

/// Relies on `sha2::Sha256::update` (via the `Digest` trait): absorbing a
/// chunk appends exactly those bytes, in order, to the input the state
/// stands for.
#[verifier::external_body]
fn hasher_update(h: &mut Hasher, chunk: &[u8])
    ensures
        final(h).bytes() == old(h).bytes() + chunk@,
{
    sha2::Digest::update(&mut h.state, chunk);
}

/// Relies on `sha2::Sha256::finalize_reset` (via the `Digest` trait): the
/// result is the 32-byte SHA-256 digest of exactly the bytes absorbed so
/// far, and the state is reset to fresh.
#[verifier::external_body]
fn hasher_finalize(h: &mut Hasher) -> (digest: Vec<u8>)
    ensures
        digest@ == sha256_of(old(h).bytes()),
        digest@.len() == 32,
        final(h).bytes() == Seq::<u8>::empty(),
{
    sha2::Digest::finalize_reset(&mut h.state).to_vec()
}

/// Where in its lifecycle one burn operation stands.
pub enum BurnPhase {
    /// Created, `Start` not yet emitted.
    Idle,
    /// `Start` emitted, no terminal event yet.
    Running,
    /// A terminal event was emitted.
    Done,
}

/// The verified core of one burn operation.
pub struct BurnEngine {
    total: u64,
    count: u64,
    verify: bool,
    hasher: Hasher,
    phase: Ghost<BurnPhase>,
    written: Ghost<Seq<u8>>,
    trace: Ghost<Seq<Event>>,
}

impl BurnEngine {
    /// Byte length of the source image, as announced in `Start`.
    pub closed spec fn total(self) -> u64 {
        self.total
    }

    /// Cumulative number of bytes reported written so far.
    pub closed spec fn count(self) -> u64 {
        self.count
    }

    /// Whether a digest of the written bytes was requested.
    pub closed spec fn verifying(self) -> bool {
        self.verify
    }

    /// The bytes reported written so far, in order.
    pub closed spec fn written(self) -> Seq<u8> {
        self.written@
    }

    /// The events emitted so far, in order.
    pub closed spec fn trace(self) -> Seq<Event> {
        self.trace@
    }

    /// No event emitted yet.
    pub closed spec fn is_idle(self) -> bool {
        self.phase@ is Idle
    }

    /// `Start` emitted and no terminal event yet.
    pub closed spec fn is_running(self) -> bool {
        self.phase@ is Running
    }

    /// A terminal event was emitted; the engine accepts no further calls.
    pub closed spec fn is_done(self) -> bool {
        self.phase@ is Done
    }

    /// The events at positions `1..` of `t` are `Progress` events of one
    /// operation of size `total`, with counts that never decrease, never
    /// exceed `cur`, and end at `cur`.
    spec fn progress_run_ok(t: Seq<Event>, cur: nat, total: nat) -> bool {
        &&& forall|i: int|
            1 <= i < t.len() ==> ((#[trigger] t[i]) matches Event::Progress { count, total: tt }
                && tt == total && count <= cur)
        &&& forall|i: int, j: int|
            1 <= i <= j < t.len() ==> t[i]->Progress_count <= t[j]->Progress_count
        &&& t.len() > 1 ==> t.last()->Progress_count == cur
    }

    /// Well-formedness: the counters, the hash state, and the ghost trace
    /// agree, and the trace has the shape the protocol demands.
    pub closed spec fn wf(self) -> bool {
        &&& self.count == self.written@.len()
        &&& (self.verify && !(self.phase@ is Done)) ==> self.hasher.bytes() == self.written@
        &&& match self.phase@ {
            BurnPhase::Idle => self.trace@ == Seq::<Event>::empty() && self.written@ == Seq::<
                u8,
            >::empty(),
            BurnPhase::Running => {
                &&& self.trace@.len() >= 1
                &&& self.trace@[0] == (Event::Start { total: self.total as nat })
                &&& Self::progress_run_ok(self.trace@, self.count as nat, self.total as nat)
            },
            BurnPhase::Done => {
                ||| self.trace@ == seq![Event::Error]
                ||| {
                    &&& self.trace@.len() >= 2
                    &&& self.trace@[0] == (Event::Start { total: self.total as nat })
                    &&& is_terminal(self.trace@.last())
                    &&& Self::progress_run_ok(
                        self.trace@.drop_last(),
                        self.count as nat,
                        self.total as nat,
                    )
                    &&& (self.trace@.last() matches Event::End { digest } ==> digest == (
                    if self.verify {
                        Some(sha256_of(self.written@))
                    } else {
                        None::<Seq<u8>>
                    }))
                }
            },
        }
    }

    /// Cumulative number of bytes reported written so far, for drivers
    /// that must check the count against machine limits before a call.
    pub fn bytes_written(&self) -> (c: u64)
        ensures
            c == self.count(),
    {
        self.count
    }

    /// Creates the engine for one operation over an image of `total` bytes.
    pub fn new(total: u64, verify: bool) -> (e: BurnEngine)
        ensures
            e.wf(),
            e.is_idle(),
            !e.is_running(),
            !e.is_done(),
            e.total() == total,
            e.verifying() == verify,
            e.count() == 0,
            e.written() == Seq::<u8>::empty(),
            e.trace() == Seq::<Event>::empty(),
    {
        BurnEngine {
            total,
            count: 0,
            verify,
            hasher: hasher_new(),
            phase: Ghost(BurnPhase::Idle),
            written: Ghost(Seq::empty()),
            trace: Ghost(Seq::empty()),
        }
    }

    /// Begins the operation: produces the `Start` event, carrying the total
    /// byte count of the source image.
    pub fn start(&mut self) -> (p: Progress)
        requires
            old(self).wf(),
            old(self).is_idle(),
        ensures
            final(self).wf(),
            final(self).is_running(),
            !final(self).is_done(),
            final(self).total() == old(self).total(),
            final(self).verifying() == old(self).verifying(),
            final(self).count() == 0,
            final(self).written() == Seq::<u8>::empty(),
            p@ == (Event::Start { total: old(self).total() as nat }),
            final(self).trace() == old(self).trace().push(p@),
    {
        let p = Progress::Start { total: self.total };
        self.phase = Ghost(BurnPhase::Running);
        self.trace = Ghost(self.trace@.push(p@));
        p
    }

    /// Records one chunk as durably written: feeds it to the digest when
    /// verification was requested, advances the cumulative count, and
    /// produces the `Progress` event.
    pub fn chunk_written(&mut self, chunk: &[u8]) -> (p: Progress)
        requires
            old(self).wf(),
            old(self).is_running(),
            old(self).count() + chunk@.len() <= u64::MAX,
        ensures
            final(self).wf(),
            final(self).is_running(),
            !final(self).is_done(),
            final(self).total() == old(self).total(),
            final(self).verifying() == old(self).verifying(),
            final(self).written() == old(self).written() + chunk@,
            final(self).count() == old(self).count() + chunk@.len(),
            p@ == (Event::Progress {
                count: (old(self).count() + chunk@.len()) as nat,
                total: old(self).total() as nat,
            }),
            final(self).trace() == old(self).trace().push(p@),
    {
        if self.verify {
            hasher_update(&mut self.hasher, chunk);
        }
        self.count = self.count + chunk.len() as u64;
        self.written = Ghost(self.written@ + chunk@);
        let p = Progress::Progress { count: self.count, total: self.total };
        self.trace = Ghost(self.trace@.push(p@));
        p
    }

    /// Ends the operation normally: produces the `End` event, with the
    /// digest of all written bytes when verification was requested.
    pub fn finish(&mut self) -> (p: Progress)
        requires
            old(self).wf(),
            old(self).is_running(),
        ensures
            final(self).wf(),
            final(self).is_done(),
            final(self).total() == old(self).total(),
            final(self).verifying() == old(self).verifying(),
            final(self).written() == old(self).written(),
            final(self).count() == old(self).count(),
            p@ == (Event::End {
                digest: if old(self).verifying() {
                    Some(sha256_of(old(self).written()))
                } else {
                    None
                },
            }),
            final(self).trace() == old(self).trace().push(p@),
    {
        let digest: Option<Vec<u8>> = if self.verify {
            Some(hasher_finalize(&mut self.hasher))
        } else {
            None
        };
        let p = Progress::End { digest };
        self.phase = Ghost(BurnPhase::Done);
        self.trace = Ghost(self.trace@.push(p@));
        proof {
            assert(self.trace@.drop_last() =~= old(self).trace@);
        }
        p
    }

    /// Ends the operation on failure: produces the terminal `Error` event.
    /// Allowed before `start` as well, for operations that fail before they
    /// could begin; such an operation emits `Error` as its only event.
    pub fn fail(&mut self) -> (p: Progress)
        requires
            old(self).wf(),
            !old(self).is_done(),
        ensures
            final(self).wf(),
            final(self).is_done(),
            final(self).total() == old(self).total(),
            final(self).verifying() == old(self).verifying(),
            final(self).written() == old(self).written(),
            final(self).count() == old(self).count(),
            p@ == Event::Error,
            final(self).trace() == old(self).trace().push(p@),
    {
        let p = Progress::Error;
        self.phase = Ghost(BurnPhase::Done);
        self.trace = Ghost(self.trace@.push(p@));
        proof {
            if old(self).trace@.len() == 0 {
                assert(self.trace@ =~= seq![Event::Error]);
            } else {
                assert(self.trace@.drop_last() =~= old(self).trace@);
            }
        }
        p
    }
}

/// Event ordering and terminality: over the trace of one well-formed
/// engine, `Start` stands only at the front and carries the total; a
/// terminal event stands only at the end, exactly when the operation is
/// done, and nothing follows it; a trace that does not begin with `Start`
/// is the single `Error` of an operation that failed before it started.
pub proof fn lemma_event_protocol(e: BurnEngine)
    requires
        e.wf(),
    ensures
        forall|i: int| 0 < i < e.trace().len() ==> !((#[trigger] e.trace()[i]) is Start),
        forall|i: int| 0 <= i < e.trace().len() - 1 ==> !is_terminal(#[trigger] e.trace()[i]),
        e.is_done() ==> e.trace().len() >= 1 && is_terminal(e.trace().last()),
        !e.is_done() ==> forall|i: int|
            0 <= i < e.trace().len() ==> !is_terminal(#[trigger] e.trace()[i]),
        e.trace().len() >= 1 && e.trace()[0] is Start ==> e.trace()[0] == (Event::Start {
            total: e.total() as nat,
        }),
        e.trace().len() >= 1 && !(e.trace()[0] is Start) ==> e.trace() == seq![Event::Error],
{
    let t = e.trace();
    match e.phase@ {
        BurnPhase::Idle => {},
        BurnPhase::Running => {},
        BurnPhase::Done => {
            if t == seq![Event::Error] {
                assert(t.len() == 1);
            } else {
                assert(forall|i: int|
                    0 < i < t.len() - 1 ==> (#[trigger] t[i]) == t.drop_last()[i]);
            }
        },
    }
}

/// Monotonic progress: across the `Progress` events of one operation the
/// cumulative count never decreases.
pub proof fn lemma_progress_monotonic(e: BurnEngine, i: int, j: int)
    requires
        e.wf(),
        0 <= i <= j < e.trace().len(),
        e.trace()[i] is Progress,
        e.trace()[j] is Progress,
    ensures
        e.trace()[i]->Progress_count <= e.trace()[j]->Progress_count,
{
    let t = e.trace();
    match e.phase@ {
        BurnPhase::Idle => {},
        BurnPhase::Running => {},
        BurnPhase::Done => {
            if t != seq![Event::Error] {
                let body = t.drop_last();
                assert(is_terminal(t.last()));
                assert(j < t.len() - 1);
                assert(body[i] == t[i] && body[j] == t[j]);
            }
        },
    }
}

/// A normally completed operation whose written bytes cover the whole
/// image ends with its cumulative count equal to the announced total; no
/// `Progress` event ever exceeds the total, and the last one reaches it.
pub proof fn lemma_progress_complete(e: BurnEngine)
    requires
        e.wf(),
        e.is_done(),
        e.trace().last() is End,
        e.written().len() == e.total(),
    ensures
        e.count() == e.total(),
        forall|i: int|
            0 <= i < e.trace().len() && (#[trigger] e.trace()[i]) is Progress ==> e.trace()[i]
                ->Progress_count <= e.total() as nat,
        e.trace().len() > 2 ==> e.trace()[e.trace().len() - 2]->Progress_count == e.total() as nat,
{
    let t = e.trace();
    assert(t != seq![Event::Error]);
    let body = t.drop_last();
    assert(forall|i: int| 0 <= i < t.len() - 1 ==> (#[trigger] t[i]) == body[i]);
    if t.len() > 2 {
        assert(t[t.len() - 2] == body.last());
    }
}

/// Chunking independence: two normally completed, verifying operations
/// that wrote the same bytes report the same digest, however differently
/// those bytes were cut into chunks; it is the digest of the whole
/// sequence of written bytes.
pub proof fn lemma_chunking_independence(a: BurnEngine, b: BurnEngine)
    requires
        a.wf(),
        b.wf(),
        a.is_done(),
        b.is_done(),
        a.trace().last() is End,
        b.trace().last() is End,
        a.verifying(),
        b.verifying(),
        a.written() == b.written(),
    ensures
        a.trace().last()->End_digest == Some(sha256_of(a.written())),
        a.trace().last()->End_digest == b.trace().last()->End_digest,
{
    assert(a.trace() != seq![Event::Error]);
    assert(b.trace() != seq![Event::Error]);
}

/// The event views of a sequence of emitted `Progress` values.
pub open spec fn views_of(ps: Seq<Progress>) -> Seq<Event> {
    ps.map_values(|p: Progress| p@)
}

/// Number of chunks a `total`-byte image yields at chunk size `c`.
pub open spec fn chunk_count(total: nat, c: nat) -> nat
    recommends
        c >= 1,
{
    ((total + c - 1) / (c as int)) as nat
}

/// The event trace of a burn of `image` at chunk size `c` that completes
/// normally: `Start`, one `Progress` per chunk with cumulative counts
/// climbing by `c` up to the image size, then `End`.
pub open spec fn burn_trace(image: Seq<u8>, c: nat, verify: bool) -> Seq<Event> {
    let n = image.len();
    let k = chunk_count(n, c);
    Seq::new(
        k + 2,
        |i: int|
            if i == 0 {
                Event::Start { total: n }
            } else if i <= k {
                Event::Progress {
                    count: (if i * (c as int) <= n { i * (c as int) } else { n as int }) as nat,
                    total: n,
                }
            } else {
                Event::End {
                    digest: if verify {
                        Some(sha256_of(image))
                    } else {
                        None
                    },
                }
            },
    )
}

/// `chunk_count` is the least number of chunks that covers the image:
/// `k` chunks of `c` bytes reach `total`, and one chunk fewer does not.
proof fn lemma_chunk_count_bounds(total: nat, c: nat)
    requires
        c >= 1,
    ensures
        chunk_count(total, c) * c >= total,
        total > 0 ==> (chunk_count(total, c) - 1) * c < total,
        total == 0 ==> chunk_count(total, c) == 0,
{
    if total == 0 {
        vstd::arithmetic::div_mod::lemma_basic_div(c as int - 1, c as int);
    }
    let n = total as int;
    let ci = c as int;
    let x = n + ci - 1;
    vstd::arithmetic::div_mod::lemma_fundamental_div_mod(x, ci);
    vstd::arithmetic::div_mod::lemma_mod_bound(x, ci);
    let q = x / ci;
    let r = x % ci;
    assert(q >= 0 && q * ci == x - r) by (nonlinear_arith)
        requires
            x == ci * q + r,
            0 <= r < ci,
            x >= 0,
    ;
    assert((q - 1) * ci == q * ci - ci) by (nonlinear_arith);
    assert(chunk_count(total, c) == q);
}

/// Burns an image held in memory onto a device held in memory: the
/// loopback form of the burn loop, for burns whose device is a writable
/// buffer rather than real hardware.  Reads the image chunk by chunk,
/// appends each chunk to the output, and collects the emitted events.
/// The output equals the image byte for byte, and the events are exactly
/// the trace of a normal burn at that chunk size.
pub fn burn_buffer(image: &[u8], chunk_size: usize, verify: bool) -> (r: (Vec<Progress>, Vec<u8>))
    requires
        1 <= chunk_size,
        image@.len() <= u64::MAX,
    ensures
        r.1@ == image@,
        views_of(r.0@) == burn_trace(image@, chunk_size as nat, verify),
{
    let n = image.len();
    let ghost bt = burn_trace(image@, chunk_size as nat, verify);
    let ghost k = chunk_count(image@.len(), chunk_size as nat) as int;
    let mut engine = BurnEngine::new(n as u64, verify);
    let mut events: Vec<Progress> = Vec::new();
    let mut out: Vec<u8> = Vec::new();

    let p0 = engine.start();
    events.push(p0);
    proof {
        assert(views_of(events@) =~= bt.subrange(0, 1));
    }

    let mut off: usize = 0;
    let ghost mut j: int = 0;
    while off < n
        invariant
            engine.wf(),
            engine.is_running(),
            engine.total() == n as u64,
            engine.verifying() == verify,
            n == image@.len(),
            image@.len() <= u64::MAX,
            1 <= chunk_size,
            off <= n,
            engine.written() == image@.subrange(0, off as int),
            engine.count() == off,
            out@ == image@.subrange(0, off as int),
            0 <= j <= k,
            off as int == (if j * chunk_size <= n as int {
                j * (chunk_size as int)
            } else {
                n as int
            }),
            bt == burn_trace(image@, chunk_size as nat, verify),
            k == chunk_count(image@.len(), chunk_size as nat),
            views_of(events@) == bt.subrange(0, j + 1),
        decreases n - off,
    {
        let end = if n - off < chunk_size {
            n
        } else {
            off + chunk_size
        };
        let chunk = vstd::slice::slice_subrange(image, off, end);
        out.extend_from_slice(chunk);
        let ghost prev_events = events@;
        let p = engine.chunk_written(chunk);
        events.push(p);
        proof {
            lemma_chunk_count_bounds(image@.len(), chunk_size as nat);
            let ci = chunk_size as int;
            if j + 1 > k {
                vstd::arithmetic::mul::lemma_mul_inequality(k, j, ci);
                assert(false);
            }
            assert((j + 1) * ci == j * ci + ci) by (nonlinear_arith);
            j = j + 1;
            assert(out@ =~= image@.subrange(0, end as int));
            assert(engine.written() =~= image@.subrange(0, end as int));
            assert(bt[j] == (Event::Progress { count: end as nat, total: image@.len() }));
            assert(views_of(events@) =~= views_of(prev_events).push(p@));
            assert(views_of(events@) =~= bt.subrange(0, j + 1));
        }
        off = end;
    }
    proof {
        lemma_chunk_count_bounds(image@.len(), chunk_size as nat);
        if j < k {
            vstd::arithmetic::mul::lemma_mul_inequality(j, k - 1, chunk_size as int);
            assert(false);
        }
        assert(engine.written() =~= image@);
        assert(out@ =~= image@);
    }
    let ghost prev_events = events@;
    let pe = engine.finish();
    events.push(pe);
    proof {
        assert(bt[k + 1] == pe@);
        assert(views_of(events@) =~= views_of(prev_events).push(pe@));
        assert(views_of(events@) =~= bt);
    }
    (events, out)
}

} // verus!
