//! The server core: the acceptor's readiness decision, the per-connection
//! reader and writer decisions, the compute job, and a sequential model of a
//! whole connection against the shared cache.
//!
//! The surrounding runtime owns the sockets, the scheduler and the clock; it
//! feeds events in and carries the returned actions out. Every decision
//! between those edges is made here, under contract. The connection model
//! `handle_connection` runs the reader over a finished sequence of lines with
//! each compute job completing in place — the interleaving in which every
//! response keeps request order, which is also the order the writer drains.

use vstd::prelude::*;
use crate::cache::ResultCache;
use crate::parser::parse_request;
use crate::parser::parse_request_spec;
use crate::task::Task;
use crate::task::TaskType;
use crate::task::io_sleep_ms;

verus! {

/// The value a request line stands for: nothing when the line does not
/// parse, else the byte the task computes. This is a pure function of the
/// raw line, which is what makes cached answers sound.
pub open spec fn request_value(line: Seq<u8>) -> Option<u8> {
    match parse_request_spec(line) {
        None => None,
        Some((t, seed)) => Some(Task::task_byte(t, seed)),
    }
}

/// What the reader observed on the connection.
pub enum ReaderEvent {
    /// One request line, raw bytes as read, newline included.
    Line(Vec<u8>),
    /// The peer closed the connection.
    Eof,
    /// The read itself failed.
    ReadFailure,
}

/// What the reader does next.
pub enum ReaderAction {
    /// Answer from the cache: enqueue this result for the writer.
    Respond(Option<u8>),
    /// Cache miss: hand the line to a detached compute job.
    SpawnCompute(Vec<u8>),
    /// Close the response channel, then wait for the writer to drain.
    CloseChannel,
    /// Stop at once; the writer winds down when the channel's producers go.
    Abort,
}

/// What the writer does with one received item: `None` from a closed
/// channel and the uncomputable sentinel both stop it; a byte is written.
pub enum WriterAction {
    WriteByte(u8),
    Stop,
}

/// What the acceptor reports on its readiness channel.
pub enum Readiness {
    Ready,
    BindFailed(String),
}

/// What a compute job must do for a line: nothing computable, a CPU-bound
/// body that needs an admission permit, or an I/O-bound body with its pause.
pub enum ComputePlan {
    Invalid,
    Cpu { seed: u64 },
    Io { seed: u64, pause_ms: u64 },
}

/// Only CPU-bound work goes through the admission pool.
pub open spec fn needs_permit(p: ComputePlan) -> bool {
    p is Cpu
}

pub struct Server;

impl Server {
    /// The acceptor's one readiness message and whether it enters the accept
    /// loop: `Ready` and the loop on a successful bind, the failure's reason
    /// and no loop otherwise.
    pub fn acceptor_decision(bind_result: Result<(), String>) -> (r: (Readiness, bool))
        ensures
            bind_result is Ok ==> r.0 is Ready && r.1,
            bind_result matches Err(e) ==> r.0 == Readiness::BindFailed(e) && !r.1,
    {
        match bind_result {
            Ok(()) => (Readiness::Ready, true),
            Err(e) => (Readiness::BindFailed(e), false),
        }
    }

    /// The reader's decision for one event: answer hits from the cache,
    /// hand misses to a compute job, close on end of input, stop on a
    /// failed read.
    pub fn reader_step(cache: &ResultCache, event: ReaderEvent) -> (r: ReaderAction)
        requires
            cache.wf(),
        ensures
            event is Eof ==> r is CloseChannel,
            event is ReadFailure ==> r is Abort,
            forall|l: Vec<u8>|
                event == ReaderEvent::Line(l) ==> if cache@.contains_key(l@) {
                    r == ReaderAction::Respond(cache@[l@])
                } else {
                    r == ReaderAction::SpawnCompute(l)
                },
    {
        match event {
            ReaderEvent::Eof => ReaderAction::CloseChannel,
            ReaderEvent::ReadFailure => ReaderAction::Abort,
            ReaderEvent::Line(l) => match cache.lookup(l.as_slice()) {
                Some(v) => ReaderAction::Respond(v),
                None => ReaderAction::SpawnCompute(l),
            },
        }
    }

    /// The writer's decision for one received item: write the byte of a
    /// computed result, stop on the uncomputable sentinel or when the
    /// channel has closed.
    pub fn writer_step(item: Option<Option<u8>>) -> (r: WriterAction)
        ensures
            item matches Some(Some(b)) ==> r == WriterAction::WriteByte(b),
            item matches Some(v) && v is None ==> r is Stop,
            item is None ==> r is Stop,
    {
        match item {
            Some(Some(b)) => WriterAction::WriteByte(b),
            Some(None) => WriterAction::Stop,
            None => WriterAction::Stop,
        }
    }

    /// The compute job's plan for a raw line: what class of body to run,
    /// with its seed and, for I/O-bound work, its pause. Invalid lines plan
    /// no body, and only CPU-bound plans ask for an admission permit.
    pub fn plan_request(line: &[u8]) -> (r: ComputePlan)
        ensures
            parse_request_spec(line@) is None ==> r is Invalid,
            forall|seed: u64|
                parse_request_spec(line@) == Some((TaskType::CpuIntensiveTask, seed)) ==> r
                    == (ComputePlan::Cpu { seed }),
            forall|seed: u64|
                parse_request_spec(line@) == Some((TaskType::IOIntensiveTask, seed)) ==> r
                    == (ComputePlan::Io { seed, pause_ms: io_sleep_ms(seed) }),
            needs_permit(r) <==> parse_request_spec(line@) matches Some(
                (TaskType::CpuIntensiveTask, _),
            ),
    {
        match parse_request(line) {
            None => ComputePlan::Invalid,
            Some((TaskType::CpuIntensiveTask, seed)) => ComputePlan::Cpu { seed },
            Some((TaskType::IOIntensiveTask, seed)) => ComputePlan::Io {
                seed,
                pause_ms: Task::io_pause_ms(seed),
            },
        }
    }

    /// The value a compute job ends with for a raw line: the task byte, or
    /// the uncomputable sentinel when the line does not parse. The I/O-bound
    /// pause is not performed here; it belongs to the runtime between
    /// `plan_request` and the write-back.
    pub fn get_task_value(line: &[u8]) -> (r: Option<u8>)
        ensures
            r == request_value(line@),
    {
        match parse_request(line) {
            None => None,
            Some((TaskType::CpuIntensiveTask, seed)) => Some(Task::do_cpu_intensive_task(seed)),
            Some((TaskType::IOIntensiveTask, seed)) => Some(Task::do_io_intensive_task(seed)),
        }
    }
}

/// One reader step against the cache: the result enqueued for a line and the
/// cache afterwards. A hit enqueues the cached result; a miss computes,
/// stores under the raw line, and enqueues.
pub open spec fn connection_step(cache: Map<Seq<u8>, Option<u8>>, line: Seq<u8>) -> (
    Map<Seq<u8>, Option<u8>>,
    Option<u8>,
) {
    if cache.contains_key(line) {
        (cache, cache[line])
    } else {
        (cache.insert(line, request_value(line)), request_value(line))
    }
}

/// The response queue a connection builds: one result per request line, in
/// request order, each answered against the cache as left by the lines
/// before it.
pub open spec fn connection_queue(cache: Map<Seq<u8>, Option<u8>>, lines: Seq<Seq<u8>>) -> Seq<
    Option<u8>,
>
    decreases lines.len(),
{
    if lines.len() == 0 {
        Seq::empty()
    } else {
        let (next, v) = connection_step(cache, lines[0]);
        seq![v] + connection_queue(next, lines.drop_first())
    }
}

/// The cache after a connection has read all its lines.
pub open spec fn connection_cache(cache: Map<Seq<u8>, Option<u8>>, lines: Seq<Seq<u8>>) -> Map<
    Seq<u8>,
    Option<u8>,
>
    decreases lines.len(),
{
    if lines.len() == 0 {
        cache
    } else {
        connection_cache(connection_step(cache, lines[0]).0, lines.drop_first())
    }
}

/// What the writer puts on the wire for a queue of results: one byte per
/// computed result, stopping at the first uncomputable sentinel.
pub open spec fn emitted(queue: Seq<Option<u8>>) -> Seq<u8>
    decreases queue.len(),
{
    if queue.len() == 0 {
        Seq::empty()
    } else {
        match queue[0] {
            None => Seq::empty(),
            Some(b) => seq![b] + emitted(queue.drop_first()),
        }
    }
}

/// The bytes a connection writes: the writer's drain of its response queue.
pub open spec fn connection_output(cache: Map<Seq<u8>, Option<u8>>, lines: Seq<Seq<u8>>) -> Seq<
    u8,
> {
    emitted(connection_queue(cache, lines))
}

impl Server {
    /// A whole connection, run sequentially against the shared cache: read
    /// every line in order, answer hits from the cache, compute and store
    /// misses, then write the results out until the queue ends or an
    /// uncomputable sentinel stops the writer.
    pub fn handle_connection(cache: &mut ResultCache, lines: &Vec<Vec<u8>>) -> (r: Vec<u8>)
        requires
            old(cache).wf(),
        ensures
            final(cache).wf(),
            final(cache)@ == connection_cache(old(cache)@, lines@.map_values(|l: Vec<u8>| l@)),
            r@ == connection_output(old(cache)@, lines@.map_values(|l: Vec<u8>| l@)),
    {
        let ghost all = lines@.map_values(|l: Vec<u8>| l@);
        let mut queue: Vec<Option<u8>> = Vec::new();
        let mut i: usize = 0;
        proof {
            assert(all.subrange(0, all.len() as int) =~= all);
            assert(Seq::<Option<u8>>::empty() + connection_queue(cache@, all) =~= connection_queue(
                cache@,
                all,
            ));
        }
        while i < lines.len()
            invariant
                cache.wf(),
                i <= lines.len(),
                all == lines@.map_values(|l: Vec<u8>| l@),
                queue@.len() == i,
                connection_cache(old(cache)@, all) == connection_cache(
                    cache@,
                    all.subrange(i as int, all.len() as int),
                ),
                connection_queue(old(cache)@, all) == queue@ + connection_queue(
                    cache@,
                    all.subrange(i as int, all.len() as int),
                ),
            decreases lines.len() - i,
        {
            let ghost rest = all.subrange(i as int, all.len() as int);
            proof {
                assert(rest[0] == all[i as int]);
                assert(rest.drop_first() =~= all.subrange(i + 1, all.len() as int));
            }
            let event = ReaderEvent::Line(lines[i].clone());
            proof {
                assert(lines@[i as int]@ == all[i as int]);
            }
            let ghost cache_before = cache@;
            let ghost queue_before = queue@;
            match Self::reader_step(cache, event) {
                ReaderAction::Respond(v) => {
                    queue.push(v);
                    proof {
                        assert(connection_step(cache_before, rest[0]) == (cache_before, v));
                    }
                },
                ReaderAction::SpawnCompute(l) => {
                    let v = Self::get_task_value(l.as_slice());
                    cache.insert(l, v);
                    queue.push(v);
                    proof {
                        assert(connection_step(cache_before, rest[0]) == (cache@, v));
                    }
                },
                ReaderAction::CloseChannel => {
                    proof {
                        assert(false);
                    }
                },
                ReaderAction::Abort => {
                    proof {
                        assert(false);
                    }
                },
            }
            proof {
                let v = connection_step(cache_before, rest[0]).1;
                assert(connection_queue(cache_before, rest) == seq![v] + connection_queue(
                    cache@,
                    rest.drop_first(),
                ));
                assert(queue@ =~= queue_before + seq![v]);
                assert(queue_before + (seq![v] + connection_queue(cache@, rest.drop_first()))
                    =~= (queue_before + seq![v]) + connection_queue(cache@, rest.drop_first()));
                assert(connection_cache(cache_before, rest) == connection_cache(
                    cache@,
                    rest.drop_first(),
                ));
            }
            i = i + 1;
        }
        proof {
            assert(all.subrange(i as int, all.len() as int) =~= Seq::<Seq<u8>>::empty());
            assert(queue@ + Seq::<Option<u8>>::empty() =~= queue@);
            assert(connection_queue(old(cache)@, all) == queue@);
            assert(connection_cache(old(cache)@, all) == cache@);
        }
        let qn = queue.len();
        let mut out: Vec<u8> = Vec::new();
        let mut j: usize = 0;
        let mut stopped = false;
        proof {
            assert(queue@.subrange(0, qn as int) =~= queue@);
            assert(Seq::<u8>::empty() + emitted(queue@) =~= emitted(queue@));
        }
        while j < qn && !stopped
            invariant
                j <= qn,
                qn == queue@.len(),
                !stopped ==> emitted(queue@) == out@ + emitted(
                    queue@.subrange(j as int, qn as int),
                ),
                stopped ==> emitted(queue@) == out@,
            decreases qn - j, (if stopped { 0int } else { 1int }),
        {
            let ghost rest = queue@.subrange(j as int, qn as int);
            proof {
                assert(rest[0] == queue@[j as int]);
                assert(rest.drop_first() =~= queue@.subrange(j + 1, qn as int));
            }
            let ghost out_before = out@;
            match Self::writer_step(Some(queue[j])) {
                WriterAction::WriteByte(b) => {
                    proof {
                        match queue@[j as int] {
                            None => {
                                assert(false);
                            },
                            Some(x) => {
                                assert(b == x);
                            },
                        }
                        assert(emitted(rest) == seq![b] + emitted(rest.drop_first()));
                    }
                    out.push(b);
                    j = j + 1;
                    proof {
                        assert(out@ =~= out_before + seq![b]);
                        assert(out_before + (seq![b] + emitted(rest.drop_first())) =~= (out_before
                            + seq![b]) + emitted(rest.drop_first()));
                    }
                },
                WriterAction::Stop => {
                    stopped = true;
                    proof {
                        match queue@[j as int] {
                            None => {},
                            Some(x) => {
                                assert(false);
                            },
                        }
                        assert(emitted(rest) =~= Seq::<u8>::empty());
                        assert(out@ + Seq::<u8>::empty() =~= out@);
                    }
                },
            }
        }
        proof {
            if !stopped {
                assert(queue@.subrange(j as int, qn as int) =~= Seq::<Option<u8>>::empty());
            }
        }
        out
    }
}

} // verus!
