//! What the connection model guarantees, stated over the specification
//! functions alone: response counting, determinism through the cache,
//! hit ordering, and how the uncomputable sentinel ends a connection.

use vstd::prelude::*;
use crate::server::connection_cache;
use crate::server::connection_output;
use crate::server::connection_queue;
use crate::server::connection_step;
use crate::server::emitted;
use crate::server::request_value;

verus! {

/// A cache is consistent when every stored result is the one its line
/// stands for. A fresh cache is trivially consistent, and every cache the
/// server ever holds is, because only computed results are stored.
pub open spec fn cache_consistent(m: Map<Seq<u8>, Option<u8>>) -> bool {
    forall|k: Seq<u8>| m.contains_key(k) ==> m[k] == request_value(k)
}

/// A connection enqueues exactly one result per request line.
pub proof fn lemma_one_result_per_request(cache: Map<Seq<u8>, Option<u8>>, lines: Seq<Seq<u8>>)
    ensures
        connection_queue(cache, lines).len() == lines.len(),
    decreases lines.len(),
{
    if lines.len() > 0 {
        lemma_one_result_per_request(connection_step(cache, lines[0]).0, lines.drop_first());
    }
}

/// Consistency is kept by a whole connection, and against a consistent
/// cache every enqueued result is the value its line stands for — whether
/// it came from a hit or a fresh computation.
pub proof fn lemma_connection_consistency(cache: Map<Seq<u8>, Option<u8>>, lines: Seq<Seq<u8>>)
    requires
        cache_consistent(cache),
    ensures
        cache_consistent(connection_cache(cache, lines)),
        connection_queue(cache, lines).len() == lines.len(),
        forall|i: int|
            0 <= i < lines.len() ==> connection_queue(cache, lines)[i] == request_value(lines[i]),
    decreases lines.len(),
{
    if lines.len() > 0 {
        let (next, v) = connection_step(cache, lines[0]);
        assert(cache_consistent(next));
        lemma_connection_consistency(next, lines.drop_first());
        assert(forall|i: int|
            1 <= i < lines.len() ==> #[trigger] connection_queue(next, lines.drop_first())[i - 1]
                == request_value(lines.drop_first()[i - 1]));
    }
}

/// Every key the cache held before a connection it still holds afterwards,
/// and every line the connection read is a key afterwards: the cache only
/// grows.
pub proof fn lemma_connection_cache_grows(cache: Map<Seq<u8>, Option<u8>>, lines: Seq<Seq<u8>>)
    ensures
        forall|k: Seq<u8>|
            cache.contains_key(k) ==> connection_cache(cache, lines).contains_key(k),
        forall|i: int|
            0 <= i < lines.len() ==> connection_cache(cache, lines).contains_key(lines[i]),
    decreases lines.len(),
{
    if lines.len() > 0 {
        let next = connection_step(cache, lines[0]).0;
        lemma_connection_cache_grows(next, lines.drop_first());
        assert(next.contains_key(lines[0]));
        assert forall|k: Seq<u8>|
            cache.contains_key(k) implies connection_cache(cache, lines).contains_key(k) by {
            assert(next.contains_key(k));
        };
        assert forall|i: int|
            0 <= i < lines.len() implies connection_cache(cache, lines).contains_key(
            lines[i],
        ) by {
            if i == 0 {
                assert(connection_cache(next, lines.drop_first()).contains_key(lines[0]));
            } else {
                assert(lines.drop_first()[i - 1] == lines[i]);
                assert(connection_cache(next, lines.drop_first()).contains_key(
                    lines.drop_first()[i - 1],
                ));
            }
        };
    }
}

/// What the writer emits is the longest all-computed prefix of the queue:
/// one byte per computed result in queue order, ending at the queue's end
/// or at the first uncomputable sentinel.
pub proof fn lemma_emitted_prefix(q: Seq<Option<u8>>)
    ensures
        emitted(q).len() <= q.len(),
        forall|i: int| 0 <= i < emitted(q).len() ==> q[i] == Some(emitted(q)[i]),
        emitted(q).len() < q.len() ==> q[emitted(q).len() as int] is None,
    decreases q.len(),
{
    if q.len() > 0 {
        match q[0] {
            None => {},
            Some(b) => {
                lemma_emitted_prefix(q.drop_first());
                assert forall|i: int|
                    0 <= i < emitted(q).len() implies q[i] == Some(emitted(q)[i]) by {
                    if i == 0 {
                        assert(emitted(q)[0] == b);
                    } else {
                        assert(q[i] == q.drop_first()[i - 1]);
                        assert(emitted(q)[i] == emitted(q.drop_first())[i - 1]);
                        assert(q.drop_first()[i - 1] == Some(emitted(q.drop_first())[i - 1]));
                    }
                };
            },
        }
    }
}

/// Exactly one response byte reaches the wire for every request, in request
/// order, unless an earlier request's result was the uncomputable sentinel;
/// when no request is uncomputable the byte count equals the request count.
pub proof fn lemma_one_byte_per_request(cache: Map<Seq<u8>, Option<u8>>, lines: Seq<Seq<u8>>)
    ensures
        connection_output(cache, lines).len() <= lines.len(),
        forall|i: int|
            0 <= i < connection_output(cache, lines).len() ==> connection_queue(cache, lines)[i]
                == Some(connection_output(cache, lines)[i]),
        (forall|i: int|
            0 <= i < lines.len() ==> connection_queue(cache, lines)[i] is Some)
            ==> connection_output(cache, lines).len() == lines.len(),
{
    lemma_one_result_per_request(cache, lines);
    lemma_emitted_prefix(connection_queue(cache, lines));
}

/// Any two occurrences of the same request line, on any connections served
/// from consistent caches, are answered with the same result: the one value
/// the line stands for.
pub proof fn lemma_same_line_same_byte(
    c1: Map<Seq<u8>, Option<u8>>,
    lines1: Seq<Seq<u8>>,
    i1: int,
    c2: Map<Seq<u8>, Option<u8>>,
    lines2: Seq<Seq<u8>>,
    i2: int,
)
    requires
        cache_consistent(c1),
        cache_consistent(c2),
        0 <= i1 < lines1.len(),
        0 <= i2 < lines2.len(),
        lines1[i1] == lines2[i2],
    ensures
        connection_queue(c1, lines1)[i1] == connection_queue(c2, lines2)[i2],
        connection_queue(c1, lines1)[i1] == request_value(lines1[i1]),
{
    lemma_connection_consistency(c1, lines1);
    lemma_connection_consistency(c2, lines2);
}

/// A restarted server starts from a fresh cache, and a fresh cache changes
/// nothing about the answers: a connection served against any consistent
/// cache — empty or already filled — gets identical results, so identical
/// requests recompute identical bytes after a restart.
pub proof fn lemma_restart_recomputes(
    c1: Map<Seq<u8>, Option<u8>>,
    c2: Map<Seq<u8>, Option<u8>>,
    lines: Seq<Seq<u8>>,
)
    requires
        cache_consistent(c1),
        cache_consistent(c2),
    ensures
        connection_queue(c1, lines) == connection_queue(c2, lines),
        connection_output(c1, lines) == connection_output(c2, lines),
{
    lemma_connection_consistency(c1, lines);
    lemma_connection_consistency(c2, lines);
    assert(connection_queue(c1, lines) =~= connection_queue(c2, lines));
}

/// A connection whose every request is already cached when read is answered
/// strictly in request order — the i-th result is the cached value of the
/// i-th request — and leaves the cache untouched.
pub proof fn lemma_all_hits_in_order(cache: Map<Seq<u8>, Option<u8>>, lines: Seq<Seq<u8>>)
    requires
        forall|i: int| 0 <= i < lines.len() ==> cache.contains_key(lines[i]),
    ensures
        connection_cache(cache, lines) == cache,
        connection_queue(cache, lines).len() == lines.len(),
        forall|i: int|
            0 <= i < lines.len() ==> connection_queue(cache, lines)[i] == cache[lines[i]],
    decreases lines.len(),
{
    if lines.len() > 0 {
        assert(cache.contains_key(lines[0]));
        lemma_all_hits_in_order(cache, lines.drop_first());
        assert(forall|i: int|
            1 <= i < lines.len() ==> #[trigger] connection_queue(cache, lines.drop_first())[i - 1]
                == cache[lines.drop_first()[i - 1]]);
    }
}

/// For a connection served entirely from the cache, with every cached
/// result computed, the i-th response byte on the wire is the cached byte
/// of the i-th request: all-hit connections answer strictly in order.
pub proof fn lemma_all_hit_bytes_in_order(cache: Map<Seq<u8>, Option<u8>>, lines: Seq<Seq<u8>>)
    requires
        forall|i: int| 0 <= i < lines.len() ==> cache.contains_key(lines[i]),
        forall|i: int| 0 <= i < lines.len() ==> cache[lines[i]] is Some,
    ensures
        connection_output(cache, lines).len() == lines.len(),
        forall|i: int|
            0 <= i < lines.len() ==> connection_output(cache, lines)[i] == cache[lines[i]]->Some_0,
{
    lemma_all_hits_in_order(cache, lines);
    lemma_one_byte_per_request(cache, lines);
    let q = connection_queue(cache, lines);
    assert(forall|i: int| 0 <= i < lines.len() ==> #[trigger] q[i] is Some);
    assert forall|i: int|
        0 <= i < lines.len() implies connection_output(cache, lines)[i] == cache[lines[i]]->Some_0 by {
        assert(q[i] == Some(connection_output(cache, lines)[i]));
        assert(q[i] == cache[lines[i]]);
    };
}

/// Sending one and the same computable line any number of times on one
/// connection yields that many identical bytes.
pub proof fn lemma_repeated_line_identical_bytes(
    cache: Map<Seq<u8>, Option<u8>>,
    lines: Seq<Seq<u8>>,
    l: Seq<u8>,
)
    requires
        cache_consistent(cache),
        forall|i: int| 0 <= i < lines.len() ==> lines[i] == l,
        request_value(l) is Some,
    ensures
        connection_output(cache, lines).len() == lines.len(),
        forall|i: int|
            0 <= i < lines.len() ==> connection_output(cache, lines)[i] == request_value(
                l,
            )->Some_0,
{
    lemma_connection_consistency(cache, lines);
    lemma_one_byte_per_request(cache, lines);
    let q = connection_queue(cache, lines);
    assert(forall|i: int| 0 <= i < lines.len() ==> #[trigger] q[i] is Some);
    assert forall|i: int|
        0 <= i < lines.len() implies connection_output(cache, lines)[i] == request_value(
        l,
    )->Some_0 by {
        assert(q[i] == Some(connection_output(cache, lines)[i]));
        assert(q[i] == request_value(lines[i]));
    };
}

/// An uncomputable request silences the connection: the sentinel is cached
/// under the raw line, and no byte is written for it or anything after it.
pub proof fn lemma_sentinel_stops_connection(
    cache: Map<Seq<u8>, Option<u8>>,
    lines: Seq<Seq<u8>>,
    i: int,
)
    requires
        cache_consistent(cache),
        0 <= i < lines.len(),
        request_value(lines[i]) is None,
    ensures
        connection_output(cache, lines).len() <= i,
        connection_cache(cache, lines).contains_key(lines[i]),
        connection_cache(cache, lines)[lines[i]] is None,
{
    lemma_connection_consistency(cache, lines);
    lemma_connection_cache_grows(cache, lines);
    lemma_one_byte_per_request(cache, lines);
    if connection_output(cache, lines).len() > i {
        assert(connection_queue(cache, lines)[i] == Some(connection_output(cache, lines)[i]));
    }
}

} // verus!
