//! The ordered streaming pipeline for one render pass.
//!
//! A pass produces a tree of chunks: ready text, and pending computations
//! that resolve later to further chunks. The pipeline flattens that tree
//! into output streams while keeping document order: ready text at the head
//! flows out at once; a non-blocking pending chunk emits a placeholder and
//! opens an out-of-band sub-stream that carries its content later; a
//! blocking pending chunk holds everything behind it until its resolution
//! arrives. A failed resolution becomes one terminal failure emission for
//! that position alone — siblings flow on, the pass completes degraded.
//!
//! The driving loop lives outside: it awaits the pending computations, hands
//! each outcome in through `resolve` or `fail`, and calls `pump` (and
//! `pump_boundary` for each open sub-stream) between events.

use vstd::prelude::*;

verus! {

/// A chunk in a stream of HTML.
pub enum StreamChunk {
    /// A chunk of synchronous HTML, ready now.
    Sync(String),
    /// A pending computation that resolves to a list of additional chunks.
    /// The handle names the computation toward the driving loop; the flag is
    /// copied from the governing suspense boundary.
    Async { handle: usize, should_block: bool },
}

/// A chunk as the contracts speak of it.
pub enum ChunkV {
    Text(Seq<char>),
    Pending { handle: int, blocking: bool },
}

/// The outcome the driving loop hands in for one pending computation.
pub enum ChunkResolution {
    /// The computation produced further chunks, in document order.
    Resolved(Vec<StreamChunk>),
    /// The computation failed; the position gets one terminal failure.
    Failed,
}

/// A resolution as the contracts speak of it.
pub enum ResolutionV {
    Resolved(Seq<ChunkV>),
    Failed,
}

/// One unit of emitted output.
pub enum EmissionBody {
    /// Ready text, in stream order.
    Text(String),
    /// The stand-in emitted where a non-blocking pending chunk sits; its
    /// content follows out of band under the same handle.
    Placeholder(usize),
    /// The terminal marker for a pending computation that failed.
    Failure(usize),
}

/// An emission, tagged with the stream it belongs to: the main document
/// stream, or the out-of-band sub-stream of one placeholder's handle.
pub struct Emission {
    /// The sub-stream this belongs to; absent for the main stream.
    pub target: Option<usize>,
    /// What is emitted.
    pub body: EmissionBody,
}

/// An emission body as the contracts speak of it.
pub enum EmissionV {
    Text(Seq<char>),
    Placeholder(int),
    Failure(int),
}

pub open spec fn chunk_view(c: StreamChunk) -> ChunkV {
    match c {
        StreamChunk::Sync(s) => ChunkV::Text(s@),
        StreamChunk::Async { handle, should_block } => ChunkV::Pending {
            handle: handle as int,
            blocking: should_block,
        },
    }
}

pub open spec fn chunk_views(s: Seq<StreamChunk>) -> Seq<ChunkV> {
    s.map_values(|c: StreamChunk| chunk_view(c))
}

pub open spec fn resolution_view(r: ChunkResolution) -> ResolutionV {
    match r {
        ChunkResolution::Resolved(chunks) => ResolutionV::Resolved(chunk_views(chunks@)),
        ChunkResolution::Failed => ResolutionV::Failed,
    }
}

pub open spec fn body_view(b: EmissionBody) -> EmissionV {
    match b {
        EmissionBody::Text(s) => EmissionV::Text(s@),
        EmissionBody::Placeholder(h) => EmissionV::Placeholder(h as int),
        EmissionBody::Failure(h) => EmissionV::Failure(h as int),
    }
}

pub open spec fn bodies_view(s: Seq<Emission>) -> Seq<EmissionV> {
    s.map_values(|e: Emission| body_view(e.body))
}

/// The store of resolutions that have arrived and not yet been consumed;
/// the first entry for a handle wins.
pub open spec fn store_view(es: Seq<(usize, ChunkResolution)>) -> Seq<(int, ResolutionV)> {
    es.map_values(|p: (usize, ChunkResolution)| (p.0 as int, resolution_view(p.1)))
}

pub open spec fn store_lookup(s: Seq<(int, ResolutionV)>, h: int) -> Option<ResolutionV>
    decreases s.len(),
{
    if s.len() == 0 {
        None
    } else if s[0].0 == h {
        Some(s[0].1)
    } else {
        store_lookup(s.drop_first(), h)
    }
}

pub open spec fn store_remove(s: Seq<(int, ResolutionV)>, h: int) -> Seq<(int, ResolutionV)>
    decreases s.len(),
{
    if s.len() == 0 {
        s
    } else if s[0].0 == h {
        s.drop_first()
    } else {
        seq![s[0]] + store_remove(s.drop_first(), h)
    }
}

proof fn lemma_store_remove_len(s: Seq<(int, ResolutionV)>, h: int)
    ensures
        store_lookup(s, h) is Some ==> store_remove(s, h).len() == s.len() - 1,
        store_lookup(s, h) is None ==> store_remove(s, h) == s,
    decreases s.len(),
{
    if s.len() > 0 && s[0].0 != h {
        lemma_store_remove_len(s.drop_first(), h);
        if store_lookup(s, h) is None {
            assert(seq![s[0]] + s.drop_first() =~= s);
        }
    }
}

/// What one stream does, given its remaining chunks and the resolutions that
/// have arrived: the emissions it produces in order, what remains (empty, or
/// a queue whose head is a blocking chunk still unresolved), the resolutions
/// left unconsumed, and the handles for which out-of-band sub-streams open.
pub struct StreamRun {
    pub emitted: Seq<EmissionV>,
    pub remaining: Seq<ChunkV>,
    pub store: Seq<(int, ResolutionV)>,
    pub spawned: Seq<int>,
}

pub open spec fn stream_run(q: Seq<ChunkV>, store: Seq<(int, ResolutionV)>) -> StreamRun
    decreases store.len(), q.len(),
    via stream_run_decreases
{
    if q.len() == 0 {
        StreamRun { emitted: Seq::empty(), remaining: q, store, spawned: Seq::empty() }
    } else {
        match q[0] {
            ChunkV::Text(s) => {
                let r = stream_run(q.drop_first(), store);
                StreamRun {
                    emitted: seq![EmissionV::Text(s)] + r.emitted,
                    remaining: r.remaining,
                    store: r.store,
                    spawned: r.spawned,
                }
            },
            ChunkV::Pending { handle, blocking } => {
                if !blocking {
                    let r = stream_run(q.drop_first(), store);
                    StreamRun {
                        emitted: seq![EmissionV::Placeholder(handle)] + r.emitted,
                        remaining: r.remaining,
                        store: r.store,
                        spawned: seq![handle] + r.spawned,
                    }
                } else {
                    match store_lookup(store, handle) {
                        Some(res) => match res {
                            ResolutionV::Resolved(chunks) => stream_run(
                                chunks + q.drop_first(),
                                store_remove(store, handle),
                            ),
                            ResolutionV::Failed => {
                                let r = stream_run(q.drop_first(), store_remove(store, handle));
                                StreamRun {
                                    emitted: seq![EmissionV::Failure(handle)] + r.emitted,
                                    remaining: r.remaining,
                                    store: r.store,
                                    spawned: r.spawned,
                                }
                            },
                        },
                        None => StreamRun {
                            emitted: Seq::empty(),
                            remaining: q,
                            store,
                            spawned: Seq::empty(),
                        },
                    }
                }
            },
        }
    }
}

#[via_fn]
proof fn stream_run_decreases(q: Seq<ChunkV>, store: Seq<(int, ResolutionV)>) {
    if q.len() > 0 {
        match q[0] {
            ChunkV::Text(_) => {},
            ChunkV::Pending { handle, blocking } => {
                if blocking {
                    lemma_store_remove_len(store, handle);
                }
            },
        }
    }
}

/// The chunks a stored stream still holds, head last (the stream is kept
/// reversed so that its head can be taken from the vector's end).
pub open spec fn rev_chunks(s: Seq<StreamChunk>) -> Seq<ChunkV>
    decreases s.len(),
{
    if s.len() == 0 {
        Seq::empty()
    } else {
        seq![chunk_view(s.last())] + rev_chunks(s.drop_last())
    }
}

/// Flattens one render pass's chunk tree into ordered output streams.
pub struct StreamPipeline {
    main: Vec<StreamChunk>,
    boundaries: Vec<(usize, Vec<StreamChunk>)>,
    store: Vec<(usize, ChunkResolution)>,
}

impl StreamPipeline {
    /// The main document stream's remaining chunks.
    pub closed spec fn main_remaining(self) -> Seq<ChunkV> {
        rev_chunks(self.main@)
    }

    /// The open out-of-band sub-streams: each placeholder handle with its
    /// remaining chunks.
    pub closed spec fn boundaries_model(self) -> Seq<(int, Seq<ChunkV>)> {
        self.boundaries@.map_values(
            |b: (usize, Vec<StreamChunk>)| (b.0 as int, rev_chunks(b.1@)),
        )
    }

    /// The resolutions handed in and not yet consumed.
    pub closed spec fn store_model(self) -> Seq<(int, ResolutionV)> {
        store_view(self.store@)
    }

    /// Opens the pipeline over the chunk tree one render pass produced, in
    /// document order.
    pub fn new(chunks: Vec<StreamChunk>) -> (r: Self)
        ensures
            r.main_remaining() == chunk_views(chunks@),
            r.boundaries_model() == Seq::<(int, Seq<ChunkV>)>::empty(),
            r.store_model() == Seq::<(int, ResolutionV)>::empty(),
    {
        let ghost orig = chunks@;
        let mut chunks = chunks;
        let mut main: Vec<StreamChunk> = Vec::new();
        proof {
            assert(orig.take(orig.len() as int) =~= orig);
            assert(chunk_views(orig.skip(orig.len() as int)) =~= Seq::<ChunkV>::empty());
        }
        while chunks.len() > 0
            invariant
                chunks@.len() <= orig.len(),
                rev_chunks(main@) == chunk_views(orig.skip(chunks@.len() as int)),
                chunks@ == orig.take(chunks@.len() as int),
            decreases chunks@.len(),
        {
            let ghost k = chunks@.len() as int;
            let ghost prev_main = main@;
            let c = chunks.pop().unwrap();
            main.push(c);
            proof {
                assert(chunks@ =~= orig.take(k - 1));
                assert(c == orig.take(k).last());
                assert(c == orig[k - 1]);
                assert(main@.last() == c);
                assert(main@.drop_last() =~= prev_main);
                assert(rev_chunks(main@) == seq![chunk_view(c)] + rev_chunks(prev_main));
                assert(chunk_views(orig.skip(k - 1)) =~= seq![chunk_view(c)] + chunk_views(
                    orig.skip(k),
                ));
            }
        }
        proof {
            assert(orig.skip(0) =~= orig);
        }
        StreamPipeline { main, boundaries: Vec::new(), store: Vec::new() }
    }

    /// Hands in the chunks a pending computation resolved to. The first
    /// outcome recorded for a handle is the one consumed.
    pub fn resolve(&mut self, handle: usize, chunks: Vec<StreamChunk>)
        ensures
            final(self).store_model() == old(self).store_model().push(
                (handle as int, ResolutionV::Resolved(chunk_views(chunks@))),
            ),
            final(self).main_remaining() == old(self).main_remaining(),
            final(self).boundaries_model() == old(self).boundaries_model(),
    {
        self.store.push((handle, ChunkResolution::Resolved(chunks)));
        proof {
            assert(final(self).store_model() =~= old(self).store_model().push(
                (handle as int, ResolutionV::Resolved(chunk_views(chunks@))),
            ));
        }
    }

    /// Hands in the failure of a pending computation.
    pub fn fail(&mut self, handle: usize)
        ensures
            final(self).store_model() == old(self).store_model().push(
                (handle as int, ResolutionV::Failed),
            ),
            final(self).main_remaining() == old(self).main_remaining(),
            final(self).boundaries_model() == old(self).boundaries_model(),
    {
        self.store.push((handle, ChunkResolution::Failed));
        proof {
            assert(final(self).store_model() =~= old(self).store_model().push(
                (handle as int, ResolutionV::Failed),
            ));
        }
    }

    /// Whether the main document stream has emitted everything.
    pub fn main_done(&self) -> (r: bool)
        ensures
            r == (self.main_remaining().len() == 0),
    {
        self.main.len() == 0
    }

    /// The number of out-of-band sub-streams opened so far.
    pub fn boundary_count(&self) -> (r: usize)
        ensures
            r == self.boundaries_model().len(),
    {
        self.boundaries.len()
    }

    /// Advances the main document stream as far as the resolutions at hand
    /// allow, and returns what it emitted, in order.
    pub fn pump(&mut self) -> (out: Vec<Emission>)
        ensures
            ({
                let r = stream_run(old(self).main_remaining(), old(self).store_model());
                &&& bodies_view(out@) == r.emitted
                &&& forall|i: int| 0 <= i < out@.len() ==> out@[i].target is None
                &&& final(self).main_remaining() == r.remaining
                &&& final(self).store_model() == r.store
                &&& final(self).boundaries_model() == old(self).boundaries_model() + r.spawned.map_values(
                    |h: int| (h, seq![ChunkV::Pending { handle: h, blocking: true }]),
                )
            }),
    {
        let mut stream: Vec<StreamChunk> = Vec::new();
        core::mem::swap(&mut stream, &mut self.main);
        let mut out: Vec<Emission> = Vec::new();
        let mut spawned: Vec<usize> = Vec::new();
        pump_stream(&mut stream, &mut self.store, None, &mut out, &mut spawned);
        self.main = stream;
        self.open_spawned(spawned);
        proof {
            let r = stream_run(old(self).main_remaining(), old(self).store_model());
            assert(bodies_view(out@) =~= r.emitted);
        }
        out
    }

    /// Advances one out-of-band sub-stream, by its position, as far as the
    /// resolutions at hand allow, and returns what it emitted, in order,
    /// tagged with the sub-stream's handle.
    pub fn pump_boundary(&mut self, k: usize) -> (out: Vec<Emission>)
        requires
            k < old(self).boundaries_model().len(),
        ensures
            ({
                let label = old(self).boundaries_model()[k as int].0;
                let r = stream_run(
                    old(self).boundaries_model()[k as int].1,
                    old(self).store_model(),
                );
                &&& bodies_view(out@) == r.emitted
                &&& forall|i: int|
                    0 <= i < out@.len() ==> out@[i].target == Some(label as usize)
                &&& final(self).main_remaining() == old(self).main_remaining()
                &&& final(self).store_model() == r.store
                &&& final(self).boundaries_model() == old(self).boundaries_model().update(
                    k as int,
                    (label, r.remaining),
                ) + r.spawned.map_values(
                    |h: int| (h, seq![ChunkV::Pending { handle: h, blocking: true }]),
                )
            }),
    {
        let (label, mut stream) = self.boundaries.remove(k);
        let mut out: Vec<Emission> = Vec::new();
        let mut spawned: Vec<usize> = Vec::new();
        pump_stream(&mut stream, &mut self.store, Some(label), &mut out, &mut spawned);
        self.boundaries.insert(k, (label, stream));
        proof {
            assert(self.boundaries@ =~= old(self).boundaries@.update(
                k as int,
                (label, self.boundaries@[k as int].1),
            ));
            let r = stream_run(old(self).boundaries_model()[k as int].1, old(self).store_model());
            assert(bodies_view(out@) =~= r.emitted);
            assert(self.boundaries_model() =~= old(self).boundaries_model().update(
                k as int,
                (label as int, r.remaining),
            ));
        }
        self.open_spawned(spawned);
        proof {
            let label2 = old(self).boundaries_model()[k as int].0;
            let r = stream_run(old(self).boundaries_model()[k as int].1, old(self).store_model());
            assert(final(self).boundaries_model() =~= old(self).boundaries_model().update(
                k as int,
                (label2, r.remaining),
            ) + r.spawned.map_values(
                |h: int| (h, seq![ChunkV::Pending { handle: h, blocking: true }]),
            ));
        }
        out
    }

    fn open_spawned(&mut self, spawned: Vec<usize>)
        ensures
            final(self).boundaries_model() == old(self).boundaries_model()
                + spawned@.map_values(|h: usize| h as int).map_values(
                |h: int| (h, seq![ChunkV::Pending { handle: h, blocking: true }]),
            ),
            final(self).main_remaining() == old(self).main_remaining(),
            final(self).store_model() == old(self).store_model(),
    {
        let ghost hs = spawned@.map_values(|h: usize| h as int);
        proof {
            assert(self.boundaries_model() =~= old(self).boundaries_model() + hs.take(
                0,
            ).map_values(|h: int| (h, seq![ChunkV::Pending { handle: h, blocking: true }])));
        }
        let mut i: usize = 0;
        while i < spawned.len()
            invariant
                i <= spawned@.len(),
                hs == spawned@.map_values(|h: usize| h as int),
                self.main@ == old(self).main@,
                self.store@ == old(self).store@,
                self.boundaries_model() == old(self).boundaries_model() + hs.take(
                    i as int,
                ).map_values(|h: int| (h, seq![ChunkV::Pending { handle: h, blocking: true }])),
            decreases spawned@.len() - i,
        {
            let ghost prev = self.boundaries@;
            let h = spawned[i];
            let mut sub: Vec<StreamChunk> = Vec::new();
            sub.push(StreamChunk::Async { handle: h, should_block: true });
            self.boundaries.push((h, sub));
            proof {
                assert(sub@.len() == 1);
                assert(sub@.last() == StreamChunk::Async { handle: h, should_block: true });
                assert(sub@.drop_last() =~= Seq::<StreamChunk>::empty());
                assert(rev_chunks(sub@.drop_last()) == Seq::<ChunkV>::empty());
                assert(rev_chunks(sub@) == seq![
                    ChunkV::Pending { handle: h as int, blocking: true },
                ] + Seq::<ChunkV>::empty());
                assert(rev_chunks(sub@) =~= seq![
                    ChunkV::Pending { handle: h as int, blocking: true },
                ]);
                assert(hs[i as int] == h as int);
                assert(self.boundaries@ == prev.push((h, sub)));
                assert(self.boundaries_model() =~= prev.map_values(
                    |b: (usize, Vec<StreamChunk>)| (b.0 as int, rev_chunks(b.1@)),
                ).push((h as int, rev_chunks(sub@))));
                assert(hs.take(i + 1).map_values(
                    |h: int| (h, seq![ChunkV::Pending { handle: h, blocking: true }]),
                ) =~= hs.take(i as int).map_values(
                    |h: int| (h, seq![ChunkV::Pending { handle: h, blocking: true }]),
                ).push((h as int, seq![ChunkV::Pending { handle: h as int, blocking: true }])));
                assert(self.boundaries_model() =~= old(self).boundaries_model() + hs.take(
                    i + 1,
                ).map_values(|h: int| (h, seq![ChunkV::Pending { handle: h, blocking: true }])));
            }
            i = i + 1;
        }
        proof {
            assert(hs.take(spawned@.len() as int) =~= hs);
        }
    }
}

fn store_take(store: &mut Vec<(usize, ChunkResolution)>, h: usize) -> (r: Option<ChunkResolution>)
    ensures
        match r {
            Some(res) => store_lookup(store_view(old(store)@), h as int) == Some(
                resolution_view(res),
            ) && store_view(final(store)@) == store_remove(store_view(old(store)@), h as int),
            None => store_lookup(store_view(old(store)@), h as int) is None && final(store)@ == old(
                store,
            )@,
        },
{
    let ghost s0 = store_view(store@);
    let mut j: usize = 0;
    while j < store.len()
        invariant
            j <= store@.len(),
            store@ == old(store)@,
            s0 == store_view(store@),
            forall|jj: int| 0 <= jj < j ==> store@[jj].0 != h,
        decreases store@.len() - j,
    {
        if store[j].0 == h {
            proof {
                assert(s0[j as int] == (store@[j as int].0 as int, resolution_view(
                    store@[j as int].1,
                )));
                assert(s0[j as int].0 == h as int);
                assert forall|jj: int| 0 <= jj < j implies (#[trigger] s0[jj]).0 != s0[j as int].0 by {
                    assert(s0[jj] == (store@[jj].0 as int, resolution_view(store@[jj].1)));
                }
                lemma_store_remove_at(s0, j as int);
            }
            let (_, res) = store.remove(j);
            proof {
                assert(resolution_view(res) == s0[j as int].1);
                assert(store_view(store@) =~= s0.remove(j as int));
            }
            return Some(res);
        }
        j = j + 1;
    }
    proof {
        assert forall|jj: int| 0 <= jj < s0.len() implies (#[trigger] s0[jj]).0 != h as int by {
            assert(s0[jj] == (store@[jj].0 as int, resolution_view(store@[jj].1)));
        }
        lemma_store_lookup_absent(s0, h as int);
    }
    None
}

proof fn lemma_store_remove_at(s: Seq<(int, ResolutionV)>, j: int)
    requires
        0 <= j < s.len(),
        forall|jj: int| 0 <= jj < j ==> s[jj].0 != s[j].0,
    ensures
        store_lookup(s, s[j].0) == Some(s[j].1),
        store_remove(s, s[j].0) == s.remove(j),
    decreases j,
{
    if j == 0 {
        assert(store_remove(s, s[0].0) == s.drop_first());
        assert(s.drop_first() =~= s.remove(0));
    } else {
        assert(s.drop_first()[j - 1] == s[j]);
        assert forall|jj: int| 0 <= jj < j - 1 implies (#[trigger] s.drop_first()[jj]).0
            != s.drop_first()[j - 1].0 by {
            assert(s.drop_first()[jj] == s[jj + 1]);
        }
        lemma_store_remove_at(s.drop_first(), j - 1);
        assert(store_remove(s, s[j].0) == seq![s[0]] + store_remove(s.drop_first(), s[j].0));
        assert(seq![s[0]] + s.drop_first().remove(j - 1) =~= s.remove(j));
    }
}

proof fn lemma_store_lookup_absent(s: Seq<(int, ResolutionV)>, h: int)
    requires
        forall|jj: int| 0 <= jj < s.len() ==> s[jj].0 != h,
    ensures
        store_lookup(s, h) is None,
    decreases s.len(),
{
    if s.len() > 0 {
        assert forall|jj: int| 0 <= jj < s.drop_first().len() implies s.drop_first()[jj].0
            != h by {
            assert(s.drop_first()[jj] == s[jj + 1]);
        }
        lemma_store_lookup_absent(s.drop_first(), h);
    }
}

fn pump_stream(
    rev: &mut Vec<StreamChunk>,
    store: &mut Vec<(usize, ChunkResolution)>,
    target: Option<usize>,
    out: &mut Vec<Emission>,
    spawned: &mut Vec<usize>,
)
    ensures
        ({
            let r = stream_run(rev_chunks(old(rev)@), store_view(old(store)@));
            &&& bodies_view(final(out)@) == bodies_view(old(out)@) + r.emitted
            &&& final(out)@.len() >= old(out)@.len()
            &&& forall|i: int|
                0 <= i < old(out)@.len() ==> final(out)@[i] == old(out)@[i]
            &&& forall|i: int|
                old(out)@.len() <= i < final(out)@.len() ==> final(out)@[i].target == target
            &&& rev_chunks(final(rev)@) == r.remaining
            &&& store_view(final(store)@) == r.store
            &&& final(spawned)@.map_values(|h: usize| h as int) == old(spawned)@.map_values(
                |h: usize| h as int,
            ) + r.spawned
        }),
{
    let ghost q0 = rev_chunks(rev@);
    let ghost st0 = store_view(store@);
    let ghost out0 = out@;
    let ghost sp0 = spawned@.map_values(|h: usize| h as int);
    loop
        invariant_except_break
            bodies_view(out0) + stream_run(q0, st0).emitted == bodies_view(out@) + stream_run(
                rev_chunks(rev@),
                store_view(store@),
            ).emitted,
            stream_run(q0, st0).remaining == stream_run(
                rev_chunks(rev@),
                store_view(store@),
            ).remaining,
            stream_run(q0, st0).store == stream_run(rev_chunks(rev@), store_view(store@)).store,
            sp0 + stream_run(q0, st0).spawned == spawned@.map_values(|h: usize| h as int)
                + stream_run(rev_chunks(rev@), store_view(store@)).spawned,
            out@.len() >= out0.len(),
            forall|i: int| 0 <= i < out0.len() ==> out@[i] == out0[i],
            forall|i: int| out0.len() <= i < out@.len() ==> out@[i].target == target,
        ensures
            bodies_view(out@) == bodies_view(out0) + stream_run(q0, st0).emitted,
            rev_chunks(rev@) == stream_run(q0, st0).remaining,
            store_view(store@) == stream_run(q0, st0).store,
            spawned@.map_values(|h: usize| h as int) == sp0 + stream_run(q0, st0).spawned,
            out@.len() >= out0.len(),
            forall|i: int| 0 <= i < out0.len() ==> out@[i] == out0[i],
            forall|i: int| out0.len() <= i < out@.len() ==> out@[i].target == target,
        decreases store@.len(), rev@.len(),
    {
        let ghost cur_q = rev_chunks(rev@);
        let ghost cur_st = store_view(store@);
        if rev.len() == 0 {
            proof {
                assert(bodies_view(out@) =~= bodies_view(out@) + stream_run(
                    cur_q,
                    cur_st,
                ).emitted);
                assert(spawned@.map_values(|h: usize| h as int) =~= spawned@.map_values(
                    |h: usize| h as int,
                ) + stream_run(cur_q, cur_st).spawned);
            }
            break ;
        }
        let c = rev.pop().unwrap();
        proof {
            assert(cur_q == seq![chunk_view(c)] + rev_chunks(rev@));
            assert(cur_q[0] == chunk_view(c));
            assert(cur_q.drop_first() =~= rev_chunks(rev@));
        }
        match c {
            StreamChunk::Sync(s) => {
                let ghost sv = s@;
                out.push(Emission { target, body: EmissionBody::Text(s) });
                proof {
                    let rest = stream_run(rev_chunks(rev@), cur_st);
                    assert(stream_run(cur_q, cur_st).emitted == seq![EmissionV::Text(sv)]
                        + rest.emitted);
                    assert(bodies_view(out@) =~= bodies_view(out@.drop_last()).push(
                        EmissionV::Text(sv),
                    ));
                    assert(bodies_view(out0) + stream_run(q0, st0).emitted =~= bodies_view(out@)
                        + rest.emitted);
                }
            },
            StreamChunk::Async { handle, should_block } => {
                if !should_block {
                    out.push(Emission { target, body: EmissionBody::Placeholder(handle) });
                    spawned.push(handle);
                    proof {
                        let rest = stream_run(rev_chunks(rev@), cur_st);
                        assert(bodies_view(out@) =~= bodies_view(out@.drop_last()).push(
                            EmissionV::Placeholder(handle as int),
                        ));
                        assert(bodies_view(out0) + stream_run(q0, st0).emitted =~= bodies_view(
                            out@,
                        ) + rest.emitted);
                        assert(spawned@.map_values(|h: usize| h as int)
                            =~= spawned@.drop_last().map_values(|h: usize| h as int).push(
                            handle as int,
                        ));
                        assert(sp0 + stream_run(q0, st0).spawned =~= spawned@.map_values(
                            |h: usize| h as int,
                        ) + rest.spawned);
                    }
                } else {
                    match store_take(store, handle) {
                        Some(res) => {
                            match res {
                                ChunkResolution::Resolved(chunks) => {
                                    proof {
                                        lemma_store_remove_len(cur_st, handle as int);
                                        assert(store@.len() == store_view(store@).len());
                                        assert(store@.len() < cur_st.len());
                                    }
                                    let ghost cv = chunk_views(chunks@);
                                    let ghost q_rest = rev_chunks(rev@);
                                    let ghost new_st = store_view(store@);
                                    let ghost store_after_take = store@;
                                    let mut chunks = chunks;
                                    proof {
                                        assert(cv.take(cv.len() as int) =~= cv);
                                        assert(cv.skip(cv.len() as int) + q_rest =~= q_rest);
                                    }
                                    while chunks.len() > 0
                                        invariant
                                            chunks@.len() <= cv.len(),
                                            chunk_views(chunks@) == cv.take(chunks@.len() as int),
                                            rev_chunks(rev@) == cv.skip(chunks@.len() as int)
                                                + q_rest,
                                            store@ == store_after_take,
                                        decreases chunks@.len(),
                                    {
                                        let ghost m = chunks@.len() as int;
                                        let ghost prev_chunks = chunks@;
                                        let ghost prev_rev = rev@;
                                        let cc = chunks.pop().unwrap();
                                        rev.push(cc);
                                        proof {
                                            assert(cc == prev_chunks.last());
                                            assert(chunk_views(prev_chunks)[m - 1] == chunk_view(
                                                cc,
                                            ));
                                            assert(cv.take(m)[m - 1] == cv[m - 1]);
                                            assert(chunk_view(cc) == cv[m - 1]);
                                            assert(chunks@ == prev_chunks.drop_last());
                                            assert(chunk_views(chunks@) =~= cv.take(m - 1));
                                            assert(rev@.drop_last() =~= prev_rev);
                                            assert(rev@.last() == cc);
                                            assert(rev_chunks(rev@) == seq![chunk_view(cc)]
                                                + rev_chunks(prev_rev));
                                            assert(rev_chunks(rev@) =~= cv.skip(m - 1) + q_rest);
                                        }
                                    }
                                    proof {
                                        assert(chunk_views(chunks@) =~= Seq::<ChunkV>::empty());
                                        assert(cv.skip(0) =~= cv);
                                        assert(rev_chunks(rev@) == cv + q_rest);
                                        assert(store_lookup(cur_st, handle as int) == Some(
                                            ResolutionV::Resolved(cv),
                                        ));
                                        assert(cur_q[0] == ChunkV::Pending {
                                            handle: handle as int,
                                            blocking: true,
                                        });
                                        assert(new_st == store_remove(cur_st, handle as int));
                                        assert(cur_q.drop_first() == q_rest);
                                        assert(stream_run(cur_q, cur_st) == stream_run(
                                            cv + q_rest,
                                            new_st,
                                        ));
                                        assert(stream_run(cur_q, cur_st) == stream_run(
                                            rev_chunks(rev@),
                                            store_view(store@),
                                        ));
                                    }
                                },
                                ChunkResolution::Failed => {
                                    proof {
                                        lemma_store_remove_len(cur_st, handle as int);
                                        assert(store@.len() == store_view(store@).len());
                                        assert(store@.len() < cur_st.len());
                                    }
                                    out.push(Emission { target, body: EmissionBody::Failure(handle) });
                                    proof {
                                        let rest = stream_run(rev_chunks(rev@), store_view(store@));
                                        assert(bodies_view(out@) =~= bodies_view(
                                            out@.drop_last(),
                                        ).push(EmissionV::Failure(handle as int)));
                                        assert(bodies_view(out0) + stream_run(q0, st0).emitted
                                            =~= bodies_view(out@) + rest.emitted);
                                    }
                                },
                            }
                        },
                        None => {
                            let ghost prev_rev = rev@;
                            rev.push(StreamChunk::Async { handle, should_block: true });
                            proof {
                                assert(rev@.drop_last() =~= prev_rev);
                                assert(rev@.last() == StreamChunk::Async {
                                    handle,
                                    should_block: true,
                                });
                                assert(rev_chunks(rev@) == seq![
                                    ChunkV::Pending { handle: handle as int, blocking: true },
                                ] + rev_chunks(prev_rev));
                                assert(cur_q[0] == ChunkV::Pending {
                                    handle: handle as int,
                                    blocking: true,
                                });
                                assert(rev_chunks(rev@) =~= cur_q);
                                let stuck = stream_run(cur_q, cur_st);
                                assert(stuck.emitted == Seq::<EmissionV>::empty());
                                assert(stuck.spawned == Seq::<int>::empty());
                                assert(bodies_view(out@) =~= bodies_view(out@)
                                    + stuck.emitted);
                                assert(spawned@.map_values(|h: usize| h as int)
                                    =~= spawned@.map_values(|h: usize| h as int) + stuck.spawned);
                            }
                            break ;
                        },
                    }
                }
            },
        }
    }
}

/// Whether a chunk blocks the stream behind it.
pub open spec fn is_blocking(c: ChunkV) -> bool {
    match c {
        ChunkV::Pending { handle, blocking } => blocking,
        _ => false,
    }
}

/// The emission a non-blocking chunk turns into at its own position.
pub open spec fn immediate_emission(c: ChunkV) -> EmissionV {
    match c {
        ChunkV::Text(s) => EmissionV::Text(s),
        ChunkV::Pending { handle, blocking } => EmissionV::Placeholder(handle),
    }
}

/// Streaming order, unblocked half: a stream holding ready text and
/// non-blocking pending chunks only emits everything at once, one emission
/// per chunk in the original document order — synchronous content is never
/// delayed by a non-blocking resolution, which arrives out of band.
pub proof fn lemma_streaming_order(q: Seq<ChunkV>, store: Seq<(int, ResolutionV)>)
    requires
        forall|i: int| 0 <= i < q.len() ==> !is_blocking(#[trigger] q[i]),
    ensures
        stream_run(q, store).remaining.len() == 0,
        stream_run(q, store).store == store,
        stream_run(q, store).emitted.len() == q.len(),
        forall|i: int|
            0 <= i < q.len() ==> stream_run(q, store).emitted[i] == immediate_emission(
                #[trigger] q[i],
            ),
    decreases q.len(),
{
    if q.len() > 0 {
        assert(!is_blocking(q[0]));
        assert forall|i: int| 0 <= i < q.drop_first().len() implies !is_blocking(
            #[trigger] q.drop_first()[i],
        ) by {
            assert(q.drop_first()[i] == q[i + 1]);
        }
        lemma_streaming_order(q.drop_first(), store);
        assert forall|i: int| 0 <= i < q.len() implies stream_run(q, store).emitted[i]
            == immediate_emission(#[trigger] q[i]) by {
            if i > 0 {
                assert(q.drop_first()[i - 1] == q[i]);
            }
        }
    }
}

/// Streaming order, blocking half: while a blocking pending chunk is
/// unresolved, nothing at or behind its position is emitted — neither its
/// own descendants (they exist only in its future resolution) nor any later
/// sibling. Everything before it still flows.
pub proof fn lemma_blocking_gates(
    pre: Seq<ChunkV>,
    h: int,
    post: Seq<ChunkV>,
    store: Seq<(int, ResolutionV)>,
)
    requires
        forall|i: int| 0 <= i < pre.len() ==> !is_blocking(#[trigger] pre[i]),
        store_lookup(store, h) is None,
    ensures
        ({
            let q = pre + seq![ChunkV::Pending { handle: h, blocking: true }] + post;
            let r = stream_run(q, store);
            &&& r.remaining == seq![ChunkV::Pending { handle: h, blocking: true }] + post
            &&& r.store == store
            &&& r.emitted.len() == pre.len()
            &&& forall|i: int|
                0 <= i < pre.len() ==> r.emitted[i] == immediate_emission(#[trigger] pre[i])
        }),
    decreases pre.len(),
{
    let q = pre + seq![ChunkV::Pending { handle: h, blocking: true }] + post;
    if pre.len() == 0 {
        assert(q[0] == ChunkV::Pending { handle: h, blocking: true });
        assert(q =~= seq![ChunkV::Pending { handle: h, blocking: true }] + post);
    } else {
        assert(q[0] == pre[0]);
        assert forall|i: int| 0 <= i < pre.drop_first().len() implies !is_blocking(
            #[trigger] pre.drop_first()[i],
        ) by {
            assert(pre.drop_first()[i] == pre[i + 1]);
        }
        lemma_blocking_gates(pre.drop_first(), h, post, store);
        assert(q.drop_first() =~= pre.drop_first() + seq![
            ChunkV::Pending { handle: h, blocking: true },
        ] + post);
        let r = stream_run(q, store);
        let r2 = stream_run(q.drop_first(), store);
        assert(r.emitted == seq![immediate_emission(pre[0])] + r2.emitted);
        assert forall|i: int| 0 <= i < pre.len() implies r.emitted[i] == immediate_emission(
            #[trigger] pre[i],
        ) by {
            if i > 0 {
                assert(pre.drop_first()[i - 1] == pre[i]);
            }
        }
    }
}

} // verus!
