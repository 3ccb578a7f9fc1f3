//! Identifier generators: the monotonic snowflake-style 64-bit
//! generator and the 12-byte object identifier.

use vstd::prelude::*;

use crate::hex::{hex_of_bytes, spec_hex};
use crate::timestamp;
use vstd::rwlock::RwLock;

verus! {

/// Fixed reference timestamp of the snowflake scheme, in milliseconds
/// since the Unix epoch.
pub const EPOCH: u64 = 1545667200000;

/// Fixed logical machine identifier of a single-node deployment.
pub const MACHINE_ID: u64 = 0;

/// Largest value of the intra-millisecond sequence counter.
pub const MAX_SEQUENCE: u64 = 4095;

/// How many polls of the clock the generator is willing to spend waiting
/// for the next millisecond once a millisecond's sequence numbers are
/// exhausted. An unbounded spin would loop forever under a frozen
/// clock; the bound keeps the wait finite and surfaces a stalled clock
/// as an error instead.
pub const SPIN_LIMIT: u64 = 100000000;

/// The timestamps the scheme can represent: 47 bits of millisecond
/// offset above the epoch.
pub open spec fn timestamp_in_range(ts: u64) -> bool {
    EPOCH <= ts < EPOCH + 0x8000_0000_0000
}

/// The 64-bit identifier composed of a millisecond timestamp and a
/// sequence number: the offset above the epoch in the high 47 bits, the
/// fixed machine identifier in the next 5, and the sequence in the low
/// 12.
pub open spec fn compose_id(ts: u64, seq_no: u64) -> u64
    recommends
        timestamp_in_range(ts),
        seq_no <= MAX_SEQUENCE,
{
    (((ts - EPOCH) * 0x20000) + (MACHINE_ID * 0x1000) + seq_no) as u64
}

/// Composing is strictly monotone in the pair (timestamp, sequence).
pub proof fn lemma_compose_id_monotone(ts1: u64, seq1: u64, ts2: u64, seq2: u64)
    requires
        timestamp_in_range(ts1),
        timestamp_in_range(ts2),
        seq1 <= MAX_SEQUENCE,
        seq2 <= MAX_SEQUENCE,
        ts1 < ts2 || (ts1 == ts2 && seq1 < seq2),
    ensures
        compose_id(ts1, seq1) < compose_id(ts2, seq2),
{
}

/// Errors of a generation attempt. The clock can sit outside the
/// representable range, or stay frozen through the whole bounded wait
/// after a millisecond's sequence numbers are exhausted. Either way the
/// generator state is left untouched.
#[derive(Clone, Copy, Debug, PartialEq, Eq, Structural)]
pub enum SnowflakeError {
    ClockOutOfRange,
    ClockStalled,
}

/// Snowflake generator state: the millisecond timestamp of the last
/// identifier issued and the sequence number within that millisecond.
pub struct SnowflakeIdGenerator {
    last_timestamp: u64,
    sequence: u64,
}

impl SnowflakeIdGenerator {
    /// The millisecond timestamp of the last identifier issued; zero
    /// before the first.
    pub closed spec fn spec_last_timestamp(&self) -> u64 {
        self.last_timestamp
    }

    /// The sequence number of the last identifier issued.
    pub closed spec fn spec_sequence(&self) -> u64 {
        self.sequence
    }

    /// Generator invariant: the sequence stays within its 12 bits, and
    /// the stored timestamp is zero (fresh) or within the representable
    /// range.
    pub open spec fn wf(&self) -> bool {
        &&& self.spec_sequence() <= MAX_SEQUENCE
        &&& (self.spec_last_timestamp() == 0 || timestamp_in_range(self.spec_last_timestamp()))
    }

    /// True once at least one identifier has been issued.
    pub open spec fn has_issued(&self) -> bool {
        self.spec_last_timestamp() != 0
    }

    /// The identifier the generator issued last.
    pub open spec fn last_id(&self) -> u64 {
        compose_id(self.spec_last_timestamp(), self.spec_sequence())
    }

    /// The working timestamp for a clock reading `now`: a reading behind
    /// the stored timestamp is clamped to it, trading wall-clock
    /// accuracy for monotonicity.
    pub open spec fn working_timestamp(&self, now: u64) -> u64 {
        if now < self.spec_last_timestamp() {
            self.spec_last_timestamp()
        } else {
            now
        }
    }

    /// Whether a step at clock reading `now` must wait for the next
    /// millisecond: the working timestamp has not advanced and the
    /// sequence counter is about to wrap.
    pub open spec fn wants_next_millis(&self, now: u64) -> bool {
        &&& self.working_timestamp(now) == self.spec_last_timestamp()
        &&& (self.spec_sequence() + 1) % 4096 == 0
    }

    /// What one generation step does, for every starting state `pre`,
    /// clock reading `now`, and outcome `waited` of polling for the next
    /// millisecond: a working timestamp outside the representable range
    /// fails and changes nothing; an exhausted sequence consumes
    /// `waited`, failing on a stalled clock and otherwise starting the
    /// fresh millisecond at sequence zero; within the same millisecond
    /// the sequence steps by one; a newer millisecond resets it to zero.
    pub open spec fn step_spec(
        pre: Self,
        now: u64,
        waited: Option<u64>,
        post: Self,
        r: Result<u64, SnowflakeError>,
    ) -> bool {
        let ts = pre.working_timestamp(now);
        if !timestamp_in_range(ts) {
            post == pre && r == Err::<u64, SnowflakeError>(SnowflakeError::ClockOutOfRange)
        } else if pre.wants_next_millis(now) {
            match waited {
                None => post == pre && r == Err::<u64, SnowflakeError>(
                    SnowflakeError::ClockStalled,
                ),
                Some(w) => if !timestamp_in_range(w) {
                    post == pre && r == Err::<u64, SnowflakeError>(SnowflakeError::ClockOutOfRange)
                } else {
                    &&& post.spec_last_timestamp() == w
                    &&& post.spec_sequence() == 0
                    &&& r == Ok::<u64, SnowflakeError>(compose_id(w, 0))
                },
            }
        } else if ts == pre.spec_last_timestamp() {
            &&& post.spec_last_timestamp() == ts
            &&& post.spec_sequence() == pre.spec_sequence() + 1
            &&& r == Ok::<u64, SnowflakeError>(compose_id(ts, (pre.spec_sequence() + 1) as u64))
        } else {
            &&& post.spec_last_timestamp() == ts
            &&& post.spec_sequence() == 0
            &&& r == Ok::<u64, SnowflakeError>(compose_id(ts, 0))
        }
    }

    /// A fresh generator that has issued nothing.
    pub fn new() -> (r: Self)
        ensures
            r.wf(),
            !r.has_issued(),
            r.spec_last_timestamp() == 0,
            r.spec_sequence() == 0,
    {
        SnowflakeIdGenerator { last_timestamp: 0, sequence: 0 }
    }

    /// Polls the clock until it moves past `last_timestamp`, giving up
    /// after `SPIN_LIMIT` polls.
    fn wait_for_next_millis(last_timestamp: u64) -> (r: Option<u64>)
        ensures
            r matches Some(ts) ==> ts > last_timestamp,
    {
        let mut spins: u64 = 0;
        let mut ts = timestamp::milli_seconds();
        while ts <= last_timestamp && spins < SPIN_LIMIT
            invariant
                spins <= SPIN_LIMIT,
            decreases SPIN_LIMIT - spins,
        {
            ts = timestamp::milli_seconds();
            spins = spins + 1;
        }
        if ts > last_timestamp {
            Some(ts)
        } else {
            None
        }
    }

    /// One generation step on given inputs: the clock reading `now` and,
    /// for the case of an exhausted sequence, the outcome `waited` of
    /// polling for the next millisecond. The result and the new state
    /// are fixed by `step_spec` for every combination of starting state,
    /// reading and poll outcome; in particular a reading behind the
    /// stored timestamp is clamped, never rejected, and successful steps
    /// return strictly increasing identifiers.
    pub fn step(&mut self, now: u64, waited: Option<u64>) -> (r: Result<u64, SnowflakeError>)
        requires
            old(self).wf(),
            waited matches Some(w) ==> w > old(self).working_timestamp(now),
        ensures
            final(self).wf(),
            Self::step_spec(*old(self), now, waited, *final(self), r),
            r matches Ok(id) ==> {
                &&& final(self).has_issued()
                &&& id == final(self).last_id()
                &&& final(self).spec_last_timestamp() >= old(self).spec_last_timestamp()
                &&& (old(self).has_issued() ==> id > old(self).last_id())
            },
            r is Err ==> *final(self) == *old(self),
    {
        let current = if now < self.last_timestamp {
            self.last_timestamp
        } else {
            now
        };
        if current < EPOCH || current >= EPOCH + 0x8000_0000_0000 {
            return Err(SnowflakeError::ClockOutOfRange);
        }
        if current == self.last_timestamp {
            let next_seq = (self.sequence + 1) % 4096;
            if next_seq == 0 {
                let ts = match waited {
                    Some(ts) => ts,
                    None => {
                        return Err(SnowflakeError::ClockStalled);
                    },
                };
                if ts >= EPOCH + 0x8000_0000_0000 {
                    return Err(SnowflakeError::ClockOutOfRange);
                }
                proof {
                    lemma_compose_id_monotone(self.last_timestamp, self.sequence, ts, 0);
                }
                self.sequence = 0;
                self.last_timestamp = ts;
            } else {
                proof {
                    lemma_compose_id_monotone(
                        self.last_timestamp,
                        self.sequence,
                        self.last_timestamp,
                        next_seq,
                    );
                }
                self.sequence = next_seq;
            }
        } else {
            proof {
                if old(self).has_issued() {
                    lemma_compose_id_monotone(self.last_timestamp, self.sequence, current, 0);
                }
            }
            self.sequence = 0;
            self.last_timestamp = current;
        }
        Ok(compose(self.last_timestamp, self.sequence))
    }

    /// Issues the next identifier: reads the clock, polls for the next
    /// millisecond when the sequence is exhausted, and hands both
    /// readings to `step`, which fixes the outcome for every value of
    /// them. A reading behind the stored timestamp is clamped to it,
    /// preserving monotonicity at the cost of wall-clock accuracy.
    /// Successive successful calls return strictly increasing
    /// identifiers; on an error the state is unchanged, and a stalled
    /// clock is reported only when the sequence was exhausted.
    pub fn generate_id(&mut self) -> (r: Result<u64, SnowflakeError>)
        requires
            old(self).wf(),
        ensures
            final(self).wf(),
            r matches Ok(id) ==> {
                &&& final(self).has_issued()
                &&& id == final(self).last_id()
                &&& final(self).spec_last_timestamp() >= old(self).spec_last_timestamp()
                &&& (old(self).has_issued() ==> id > old(self).last_id())
                &&& (final(self).spec_last_timestamp() == old(self).spec_last_timestamp()
                    ==> final(self).spec_sequence() == old(self).spec_sequence() + 1)
                &&& (final(self).spec_last_timestamp() > old(self).spec_last_timestamp()
                    ==> final(self).spec_sequence() == 0)
            },
            r is Err ==> *final(self) == *old(self),
            r == Err::<u64, SnowflakeError>(SnowflakeError::ClockStalled) ==> old(
                self,
            ).spec_sequence() == MAX_SEQUENCE,
            exists|now: u64, waited: Option<u64>|
                #[trigger] Self::step_spec(*old(self), now, waited, *final(self), r),
    {
        let now = timestamp::milli_seconds();
        let current = if now < self.last_timestamp {
            self.last_timestamp
        } else {
            now
        };
        let waited = if current == self.last_timestamp && (self.sequence + 1) % 4096 == 0 {
            Self::wait_for_next_millis(current)
        } else {
            None
        };
        self.step(now, waited)
    }
}

/// The executable composition of an identifier from its fields, equal to

/// The executable composition of an identifier from its fields, equal to
/// `compose_id`.
fn compose(ts: u64, seq_no: u64) -> (id: u64)
    requires
        timestamp_in_range(ts),
        seq_no <= MAX_SEQUENCE,
    ensures
        id == compose_id(ts, seq_no),
{
    let delta = ts - EPOCH;
    let id = (delta << 17u64) | (MACHINE_ID << 12u64) | seq_no;
    proof {
        assert((delta << 17u64) | (0u64 << 12u64) | seq_no == (delta * 0x20000 + seq_no) as u64)
            by (bit_vector)
            requires
                delta < 0x8000_0000_0000,
                seq_no < 4096,
        ;
    }
    id
}

/// Issues the next identifier from the shared generator instance handed
/// in by the caller; see `SnowflakeIdGenerator::generate_id`.
pub fn snowflake_id(generator: &mut SnowflakeIdGenerator) -> (r: Result<u64, SnowflakeError>)
    requires
        old(generator).wf(),
    ensures
        final(generator).wf(),
        r matches Ok(id) ==> {
            &&& final(generator).has_issued()
            &&& id == final(generator).last_id()
            &&& (old(generator).has_issued() ==> id > old(generator).last_id())
            &&& (final(generator).spec_last_timestamp() == old(generator).spec_last_timestamp()
                ==> final(generator).spec_sequence() == old(generator).spec_sequence() + 1)
            &&& (final(generator).spec_last_timestamp() > old(generator).spec_last_timestamp()
                ==> final(generator).spec_sequence() == 0)
        },
        r is Err ==> *final(generator) == *old(generator),
        r == Err::<u64, SnowflakeError>(SnowflakeError::ClockStalled) ==> old(
            generator,
        ).spec_sequence() == MAX_SEQUENCE,
        exists|now: u64, waited: Option<u64>|
            #[trigger] SnowflakeIdGenerator::step_spec(
                *old(generator),
                now,
                waited,
                *final(generator),
                r,
            ),
{
    generator.generate_id()
}

/// Composes a UUID from the hash, clock, and pseudorandom primitives;
/// see `crate::uuid::new`. The hardware address, when given, must be
/// ASCII text small enough to fit the digest engine's message cap
/// beside the fixed parts.
pub fn uuid(mac: Option<&str>) -> (r: String)
    requires
        mac matches Some(m) ==> m.is_ascii() && m@.len() + 64 <= crate::md5::max_message_len(),
    ensures
        crate::uuid::is_canonical_uuid(r@),
        mac matches Some(m) ==> exists|seed: u64, nanos: u64|
            r@ == crate::uuid::spec_uuid_format(
                spec_hex(
                    crate::md5::md5_digest(
                        crate::uuid::ascii_bytes(
                            #[trigger] crate::uuid::uuid_input(seed, nanos, m@),
                        ),
                    ),
                ),
            ),
        mac is None ==> exists|seed: u64, nanos: u64, fallback: u64|
            r@ == crate::uuid::spec_uuid_format(
                spec_hex(
                    crate::md5::md5_digest(
                        crate::uuid::ascii_bytes(
                            #[trigger] crate::uuid::uuid_input(
                                seed,
                                nanos,
                                crate::uuid::dec_digits(fallback as nat),
                            ),
                        ),
                    ),
                ),
            ),
{
    crate::uuid::new(mac)
}

/// The process-wide shared generator: one `SnowflakeIdGenerator`
/// behind a reader-writer lock whose invariant is the generator's own,
/// so any number of concurrent callers can mint identifiers through one
/// instance.
pub struct SharedSnowflake {
    lock: RwLock<SnowflakeIdGenerator, spec_fn(SnowflakeIdGenerator) -> bool>,
}

impl SharedSnowflake {
    /// The lock admits exactly the well-formed generator states.
    pub closed spec fn wf(&self) -> bool {
        forall|g: SnowflakeIdGenerator| self.lock.inv(g) <==> g.wf()
    }

    /// A shared generator around a fresh instance.
    pub fn new() -> (r: Self)
        ensures
            r.wf(),
    {
        let lock = RwLock::new(
            SnowflakeIdGenerator::new(),
            Ghost(|g: SnowflakeIdGenerator| g.wf()),
        );
        SharedSnowflake { lock }
    }

    /// Issues the next identifier, serializing concurrent callers
    /// through the lock: the whole generate-and-possibly-wait sequence
    /// runs under exclusive access, and the lock's invariant keeps the
    /// stored state well formed across all callers. Every identifier
    /// returned is the last identifier of a well-formed state that has
    /// issued, reached by one generation step from the well-formed state
    /// found under the lock.
    pub fn next_id(&self) -> (r: Result<u64, SnowflakeError>)
        requires
            self.wf(),
        ensures
            r matches Ok(id) ==> exists|g: SnowflakeIdGenerator|
                #[trigger] g.wf() && g.has_issued() && id == g.last_id(),
            exists|pre: SnowflakeIdGenerator, now: u64, waited: Option<u64>, post: SnowflakeIdGenerator|
                pre.wf() && post.wf() && #[trigger] SnowflakeIdGenerator::step_spec(
                    pre,
                    now,
                    waited,
                    post,
                    r,
                ),
    {
        let (mut generator, handle) = self.lock.acquire_write();
        let ghost before = generator;
        let result = generator.generate_id();
        let ghost after = generator;
        handle.release_write(generator);
        proof {
            if result is Ok {
                assert(after.wf() && after.has_issued() && result->Ok_0 == after.last_id());
            }
            let (now, waited) = choose|now: u64, waited: Option<u64>|
                #[trigger] SnowflakeIdGenerator::step_spec(before, now, waited, after, result);
            assert(SnowflakeIdGenerator::step_spec(before, now, waited, after, result));
        }
        result
    }
}

/// Chaining law for successive generations: each successful call
/// returns the identifier its final state composes and outgrows the
/// identifier of the state it started from, so across any run of
/// successful calls on one generator the identifiers strictly increase.
pub proof fn lemma_snowflake_chain(
    first: SnowflakeIdGenerator,
    mid: SnowflakeIdGenerator,
    id1: u64,
    id2: u64,
)
    requires
        mid.has_issued(),
        id1 == mid.last_id(),
        first.has_issued() ==> id1 > first.last_id(),
        id2 > mid.last_id(),
    ensures
        id2 > id1,
        first.has_issued() ==> id2 > first.last_id(),
{
}

/// The 12-byte object identifier layout: big-endian seconds timestamp in
/// bytes 0 to 3, the first five machine fingerprint bytes in 4 to 8, the
/// high byte of the process identifier combined with the top byte of the
/// 24-bit counter in byte 9, and the low 16 counter bits in bytes 10 and
/// 11.
pub open spec fn object_id_bytes(secs: u32, machine: Seq<u8>, pid: u16, counter: u32) -> Seq<u8>
    recommends
        machine.len() >= 5,
{
    let c = counter as int % 0x1000000;
    seq![
        (secs as int / 0x1000000 % 0x100) as u8,
        (secs as int / 0x10000 % 0x100) as u8,
        (secs as int / 0x100 % 0x100) as u8,
        (secs as int % 0x100) as u8,
        machine[0],
        machine[1],
        machine[2],
        machine[3],
        machine[4],
        ((pid as int / 0x100) as u8) | ((c / 0x10000) as u8),
        (c / 0x100 % 0x100) as u8,
        (c % 0x100) as u8,
    ]
}

/// Two object identifiers whose counters differ in their low 16 bits
/// differ as byte sequences, whatever their other fields hold.
pub proof fn lemma_object_id_distinct(
    secs1: u32,
    machine1: Seq<u8>,
    pid1: u16,
    c1: u32,
    secs2: u32,
    machine2: Seq<u8>,
    pid2: u16,
    c2: u32,
)
    requires
        machine1.len() >= 5,
        machine2.len() >= 5,
        c1 as int % 0x10000 != c2 as int % 0x10000,
    ensures
        object_id_bytes(secs1, machine1, pid1, c1) != object_id_bytes(secs2, machine2, pid2, c2),
{
    let b1 = object_id_bytes(secs1, machine1, pid1, c1);
    let b2 = object_id_bytes(secs2, machine2, pid2, c2);
    lemma_low_bytes_decompose(c1);
    lemma_low_bytes_decompose(c2);
    if b1 == b2 {
        assert(b1[10] == b2[10] && b1[11] == b2[11]);
        assert(false);
    }
}

/// Bytes 10 and 11 of the layout reconstruct the counter's low 16 bits.
proof fn lemma_low_bytes_decompose(c: u32)
    ensures
        ((c as int % 0x1000000) / 0x100 % 0x100) * 0x100 + (c as int % 0x1000000) % 0x100 == c
            as int % 0x10000,
{
    let ci = c as int;
    assert(ci % 0x1000000 % 0x100 == ci % 0x100) by (nonlinear_arith);
    assert((ci % 0x1000000) / 0x100 % 0x100 == ci / 0x100 % 0x100) by (nonlinear_arith);
    assert((ci / 0x100 % 0x100) * 0x100 + ci % 0x100 == ci % 0x10000) by (nonlinear_arith);
}

/// Counters that differ by less than 65536 have different low 16 bits,
/// so identifiers minted from a window of nearby counter values stay
/// pairwise distinct.
pub proof fn lemma_counter_window_distinct(c1: u32, c2: u32)
    requires
        c1 != c2,
        (if c1 < c2 {
            c2 - c1
        } else {
            c1 - c2
        }) < 0x10000,
    ensures
        c1 as int % 0x10000 != c2 as int % 0x10000,
{
    assert(c1 as int % 0x10000 != c2 as int % 0x10000) by (nonlinear_arith)
        requires
            c1 != c2,
            (if c1 < c2 {
                c2 - c1
            } else {
                c1 - c2
            }) < 0x10000,
    ;
}

/// A 12-byte object identifier.
pub struct ObjectId {
    bytes: Vec<u8>,
}

impl View for ObjectId {
    type V = Seq<u8>;

    closed spec fn view(&self) -> Seq<u8> {
        self.bytes@
    }
}

impl ObjectId {
    /// Assembles an identifier from a seconds timestamp, at least five
    /// machine fingerprint bytes, a process identifier, and a counter
    /// value, laid out as `object_id_bytes`.
    pub fn new(secs: u32, machine: &[u8], pid: u16, counter: u32) -> (r: Self)
        requires
            machine@.len() >= 5,
        ensures
            r@ == object_id_bytes(secs, machine@, pid, counter),
            r@.len() == 12,
    {
        let c = counter % 0x1000000;
        let mut bytes: Vec<u8> = Vec::new();
        bytes.push((secs / 0x1000000 % 0x100) as u8);
        bytes.push((secs / 0x10000 % 0x100) as u8);
        bytes.push((secs / 0x100 % 0x100) as u8);
        bytes.push((secs % 0x100) as u8);
        bytes.push(machine[0]);
        bytes.push(machine[1]);
        bytes.push(machine[2]);
        bytes.push(machine[3]);
        bytes.push(machine[4]);
        bytes.push(((pid / 0x100) as u8) | ((c / 0x10000) as u8));
        bytes.push((c / 0x100 % 0x100) as u8);
        bytes.push((c % 0x100) as u8);
        let r = ObjectId { bytes };
        proof {
            assert(r@ =~= object_id_bytes(secs, machine@, pid, counter));
        }
        r
    }

    /// The identifier as 24 lowercase hexadecimal characters.
    pub fn to_hex(&self) -> (r: String)
        ensures
            r@ == spec_hex(self@),
    {
        hex_of_bytes(&self.bytes)
    }
}

/// Mints an object identifier from the current seconds timestamp, the
/// caller's machine fingerprint, process identifier, and counter value,
/// rendered as 24 lowercase hexadecimal characters.
pub fn object_id(machine: &[u8], pid: u16, counter: u32) -> (r: String)
    requires
        machine@.len() >= 5,
    ensures
        r@.len() == 24,
        exists|secs: u32| r@ == spec_hex(#[trigger] object_id_bytes(secs, machine@, pid, counter)),
{
    let secs_wide = timestamp::seconds();
    let secs = (secs_wide % 0x1_0000_0000) as u32;
    let oid = ObjectId::new(secs, machine, pid, counter);
    let r = oid.to_hex();
    proof {
        assert(r@ == spec_hex(object_id_bytes(secs, machine@, pid, counter)));
    }
    r
}

} // verus!
