//! The emitter loop's state: a sequence counter against a configured bound,
//! with `-1` as the explicit marker for an unbounded run. Each tick draws a
//! severity and the vocabulary choices at random and yields one record; the
//! caller renders the record and sleeps for the configured interval.

use crate::record::Record;
use crate::record::make_record;
use vstd::prelude::*;

verus! {

/// Whether the loop goes on: forever when the bound is the unbounded
/// marker `-1`, else until the sequence passes the bound.
pub open spec fn continues(total: int, seq: int) -> bool {
    total == -1 || seq <= total
}

#[verifier::external_type_specification]
#[verifier::external_body]
pub struct ExThreadRng(rand::rngs::ThreadRng);

/// Relies on rand::thread_rng: a handle to the thread-local generator.
#[verifier::external_body]
fn rng_handle() -> rand::rngs::ThreadRng {
    rand::thread_rng()
}

/// Relies on rand::Rng::gen_range over the range `0..n`, which panics only
/// on an empty range and otherwise draws a value from within it: the result
/// lies below `n`. Nothing else is promised of a random draw.
#[verifier::external_body]
fn random_below(rng: &mut rand::rngs::ThreadRng, n: u64) -> (r: u64)
    requires
        n >= 1,
    ensures
        r < n,
{
    rand::Rng::gen_range(rng, 0..n)
}

/// The emitter's whole state: the configured bound and the sequence number
/// of the next record.
pub struct Emitter {
    /// The configured bound: `-1` for an unbounded run, else the count of
    /// records after which the loop stops.
    pub total: i64,
    /// The sequence number the next record will carry, starting at 1.
    pub seq: i64,
}

impl Emitter {
    /// A fresh emitter for the given bound; emission starts at sequence 1.
    pub fn new(total: i64) -> (e: Emitter)
        ensures
            e.total == total,
            e.seq == 1,
    {
        Emitter { total, seq: 1 }
    }

    /// Whether another record is owed: the executable continue condition.
    pub fn should_emit(&self) -> (b: bool)
        ensures
            b == continues(self.total as int, self.seq as int),
    {
        self.total == -1 || self.seq <= self.total
    }

    /// Draw one record: a uniformly chosen severity, a message from the
    /// fixed vocabularies, and the two optional fields sampled
    /// independently. The sequence number advances by exactly one.
    pub fn emit(&mut self) -> (r: Record)
        requires
            old(self).seq < i64::MAX,
        ensures
            final (self).total == old(self).total,
            final (self).seq == old(self).seq + 1,
            r.sequence == old(self).seq,
            r.wf(),
    {
        let mut rng = rng_handle();
        let level_idx = random_below(&mut rng, 7);
        let a = random_below(&mut rng, 7);
        let u = random_below(&mut rng, 5);
        let e = random_below(&mut rng, 5);
        let request_id: Option<u32> = if random_below(&mut rng, 2) == 0 {
            Some(random_below(&mut rng, 10000) as u32)
        } else {
            None
        };
        let duration_us: Option<u32> = if random_below(&mut rng, 10) < 3 {
            Some(random_below(&mut rng, 1000000) as u32)
        } else {
            None
        };
        let r = make_record(self.seq, level_idx, a, u, e, request_id, duration_us);
        self.seq = self.seq + 1;
        r
    }
}

/// The whole run of a bounded configuration, materialized: exactly `total`
/// records, carrying the contiguous ascending sequence numbers 1 through
/// `total` with no gap or repeat, each well formed.
pub fn bounded_run(total: i64) -> (v: Vec<Record>)
    requires
        0 <= total < i64::MAX,
    ensures
        v@.len() == total as int,
        forall|i: int| 0 <= i < v@.len() ==> (#[trigger] v@[i]).sequence == i + 1,
        forall|i: int| 0 <= i < v@.len() ==> (#[trigger] v@[i]).wf(),
{
    let mut em = Emitter::new(total);
    let mut v: Vec<Record> = Vec::new();
    while em.should_emit()
        invariant
            em.total == total,
            0 <= total < i64::MAX,
            1 <= em.seq <= total + 1,
            em.seq as int == v@.len() + 1,
            forall|i: int| 0 <= i < v@.len() ==> (#[trigger] v@[i]).sequence == i + 1,
            forall|i: int| 0 <= i < v@.len() ==> (#[trigger] v@[i]).wf(),
        decreases total + 1 - em.seq,
    {
        let r = em.emit();
        v.push(r);
    }
    v
}

/// Law: with the unbounded marker the loop never stops on its own; the
/// continue condition holds at every sequence number.
pub proof fn lemma_unbounded_runs_forever(seq: int)
    ensures
        continues(-1, seq),
{
}

/// Law: under a non-negative bound the loop continues exactly while the
/// sequence has not passed it, so a bounded run stops of itself.
pub proof fn lemma_bounded_stops(total: int, seq: int)
    requires
        total >= 0,
    ensures
        continues(total, seq) <==> seq <= total,
{
}

} // verus!
