//! Byte-level serial I/O used by the blocking driver.
//!
//! A UART answers a non-blocking read or write attempt with a byte (or
//! completion), with "would block" (try again later), or with an error.
//! UARTs that implement the `embedded-hal` 0.2 serial traits are adapted to
//! this interface outside the verified library.

use vstd::prelude::*;

use crate::protocol::{is_response_frame, parse_response, Gm65Response, RESPONSE_LEN};

verus! {

/// Outcome of one non-blocking read attempt.
#[derive(Debug, Clone, Copy, PartialEq, Eq, Structural)]
pub enum SerialRead {
    /// A byte was received.
    Byte(u8),
    /// No byte is available yet.
    WouldBlock,
    /// The UART reported an error.
    Failed,
}

/// Outcome of one non-blocking write or flush attempt.
#[derive(Debug, Clone, Copy, PartialEq, Eq, Structural)]
pub enum SerialWrite {
    /// The byte was accepted (or the flush completed).
    Done,
    /// The UART cannot accept it yet.
    WouldBlock,
    /// The UART reported an error.
    Failed,
}

/// Byte-level I/O of a blocking scanner driver. Nothing is assumed about what
/// the UART answers.
pub trait SyncScannerIO {
    /// One non-blocking read attempt.
    fn read_byte(&mut self) -> SerialRead;

    /// One non-blocking attempt to send a byte.
    fn write_byte(&mut self, byte: u8) -> SerialWrite;

    /// One attempt to flush buffered output.
    fn flush(&mut self) -> SerialWrite;
}

/// Upper bound on UART polls in the loops that restart their timeout whenever
/// a byte arrives (about 1.8e19 polls).
pub const POLL_BUDGET: u64 = 0xFFFF_FFFF_FFFF_FFFF;

/// The response that a reply of the module stands for: a success carrying
/// the fifth byte when the reply is a whole response frame, nothing
/// otherwise.
pub open spec fn reply_response(reply: Seq<u8>) -> Option<Gm65Response> {
    if reply.len() == RESPONSE_LEN && is_response_frame(reply) {
        Some(Gm65Response::SuccessWithValue(reply[4]))
    } else {
        None
    }
}

/// The register value that a reply carries, if it is a whole response frame.
pub open spec fn reply_value(reply: Seq<u8>) -> Option<u8> {
    match reply_response(reply) {
        Some(Gm65Response::SuccessWithValue(v)) => Some(v),
        _ => None,
    }
}

/// One command exchange on the wire: `part` (a prefix of `cmd`, all of it
/// unless the write failed) was sent; `junk` was discarded before it and
/// `reply` read after it (nothing when the write failed), at most one
/// response frame long.
pub open spec fn on_wire(
    sent0: Seq<u8>,
    rx0: Seq<u8>,
    sent1: Seq<u8>,
    rx1: Seq<u8>,
    cmd: Seq<u8>,
    part: Seq<u8>,
    junk: Seq<u8>,
    reply: Seq<u8>,
) -> bool {
    &&& part.len() <= cmd.len()
    &&& part == cmd.subrange(0, part.len() as int)
    &&& sent1 == sent0 + part
    &&& rx1 == rx0 + junk + reply
    &&& reply.len() <= RESPONSE_LEN
    &&& (part.len() < cmd.len() ==> reply.len() == 0)
}

/// `s1` starts with `s0`.
pub open spec fn extends<A>(s0: Seq<A>, s1: Seq<A>) -> bool {
    s0.len() <= s1.len() && s1.subrange(0, s0.len() as int) == s0
}

/// Extending is transitive.
pub proof fn lemma_extends_trans<A>(a: Seq<A>, b: Seq<A>, c: Seq<A>)
    requires
        extends(a, b),
        extends(b, c),
    ensures
        extends(a, c),
{
    assert(c.subrange(0, a.len() as int) =~= b.subrange(0, b.len() as int).subrange(0, a.len() as int));
    assert(c.subrange(0, a.len() as int) =~= c.subrange(0, b.len() as int).subrange(0, a.len() as int));
}

/// Every record extends itself.
pub proof fn lemma_extends_refl<A>(a: Seq<A>)
    ensures
        extends(a, a),
{
    assert(a.subrange(0, a.len() as int) =~= a);
}

/// Extending is transitive, for use across a sequence of exchanges.
pub broadcast proof fn lemma_extends_chain<A>(a: Seq<A>, b: Seq<A>, c: Seq<A>)
    ensures
        (#[trigger] extends(a, b) && #[trigger] extends(b, c)) ==> extends(a, c),
{
    if extends(a, b) && extends(b, c) {
        lemma_extends_trans(a, b, c);
    }
}

/// What lies within a record stays when the record is extended.
pub proof fn lemma_extends_keeps<A>(b: Seq<A>, c: Seq<A>, i: int, j: int)
    requires
        extends(b, c),
        0 <= i <= j <= b.len(),
    ensures
        c.subrange(i, j) == b.subrange(i, j),
{
    assert(c.subrange(i, j) =~= c.subrange(0, b.len() as int).subrange(i, j));
}

/// The bytes delivered by a run of read attempts, in order.
pub open spec fn bytes_read(ev: Seq<SerialRead>) -> Seq<u8>
    decreases ev.len(),
{
    if ev.len() == 0 {
        Seq::empty()
    } else {
        match ev.last() {
            SerialRead::Byte(b) => bytes_read(ev.drop_last()).push(b),
            _ => bytes_read(ev.drop_last()),
        }
    }
}

/// How many "would block" answers end a run of read attempts.
pub open spec fn trailing_blocks(ev: Seq<SerialRead>) -> nat
    decreases ev.len(),
{
    if ev.len() > 0 && ev.last() is WouldBlock {
        trailing_blocks(ev.drop_last()) + 1
    } else {
        0
    }
}

/// The byte a read attempt delivered, if any.
pub open spec fn read_value(r: SerialRead) -> Option<u8> {
    match r {
        SerialRead::Byte(b) => Some(b),
        _ => None,
    }
}

/// No proper prefix of the run `ev` meets the stopping condition `stops`.
pub open spec fn stops_nowhere_before(
    ev: Seq<SerialRead>,
    stops: spec_fn(Seq<SerialRead>) -> bool,
) -> bool {
    forall|k: int| 0 <= k < ev.len() ==> !stops(#[trigger] ev.take(k))
}

/// `ev` is a polling run that went on until `stops` first held of it, or
/// until `POLL_BUDGET` attempts were made.
pub open spec fn polled_until(ev: Seq<SerialRead>, stops: spec_fn(Seq<SerialRead>) -> bool) -> bool {
    &&& stops(ev) || ev.len() >= POLL_BUDGET
    &&& stops_nowhere_before(ev, stops)
}

/// Draining stops on a UART error or after 50 001 empty polls in a row.
pub open spec fn drain_stops(ev: Seq<SerialRead>) -> bool {
    ev.len() > 0 && (ev.last() is Failed || trailing_blocks(ev) > 50_000)
}

/// Reading a response stops once a whole frame has arrived, on a UART error,
/// or after 200 000 empty polls in a row.
pub open spec fn response_stops(ev: Seq<SerialRead>) -> bool {
    ||| bytes_read(ev).len() >= RESPONSE_LEN
    ||| ev.len() > 0 && ev.last() is Failed
    ||| trailing_blocks(ev) >= 200_000
}

/// One more read attempt adds its byte, if any, and updates the count of
/// trailing empty polls.
pub proof fn lemma_reads_push(ev: Seq<SerialRead>, x: SerialRead)
    ensures
        bytes_read(ev.push(x)) == (match x {
            SerialRead::Byte(b) => bytes_read(ev).push(b),
            _ => bytes_read(ev),
        }),
        trailing_blocks(ev.push(x)) == (if x is WouldBlock {
            trailing_blocks(ev) + 1
        } else {
            0
        }),
{
    assert(ev.push(x).drop_last() =~= ev);
}

/// How many "would block" answers end a run of write attempts.
pub open spec fn trailing_write_blocks(w: Seq<(u8, SerialWrite)>) -> nat
    decreases w.len(),
{
    if w.len() > 0 && w.last().1 is WouldBlock {
        trailing_write_blocks(w.drop_last()) + 1
    } else {
        0
    }
}

/// How many write attempts of a run the UART accepted.
pub open spec fn writes_done(w: Seq<(u8, SerialWrite)>) -> nat
    decreases w.len(),
{
    if w.len() == 0 {
        0
    } else if w.last().1 is Done {
        writes_done(w.drop_last()) + 1
    } else {
        writes_done(w.drop_last())
    }
}

/// Writing gives up on a UART error or after 100 001 "would block" answers
/// in a row for one byte.
pub open spec fn write_stops(w: Seq<(u8, SerialWrite)>) -> bool {
    w.len() > 0 && (w.last().1 is Failed || trailing_write_blocks(w) > 100_000)
}

/// `w` is a run of write attempts that sends `data` byte after byte: each
/// attempt offers the first byte not yet accepted, and the run did not give
/// up before its last attempt.
pub open spec fn writes_data(w: Seq<(u8, SerialWrite)>, data: Seq<u8>) -> bool {
    &&& forall|i: int|
        0 <= i < w.len() ==> writes_done(#[trigger] w.take(i)) < data.len() && w[i].0 == data[writes_done(w.take(i)) as int]
    &&& forall|k: int| 0 <= k < w.len() ==> !write_stops(#[trigger] w.take(k))
}

/// One more write attempt updates the counts of accepted bytes and of
/// trailing "would block" answers.
pub proof fn lemma_writes_push(w: Seq<(u8, SerialWrite)>, x: (u8, SerialWrite))
    ensures
        writes_done(w.push(x)) == writes_done(w) + (if x.1 is Done {
            1nat
        } else {
            0nat
        }),
        trailing_write_blocks(w.push(x)) == (if x.1 is WouldBlock {
            trailing_write_blocks(w) + 1
        } else {
            0
        }),
{
    assert(w.push(x).drop_last() =~= w);
}

/// A run that sends `data` and has not given up, extended by an attempt
/// that offers the next byte, still sends `data`.
pub proof fn lemma_writes_data_push(w: Seq<(u8, SerialWrite)>, data: Seq<u8>, x: (u8, SerialWrite))
    requires
        writes_data(w, data),
        !write_stops(w),
        writes_done(w) < data.len(),
        x.0 == data[writes_done(w) as int],
    ensures
        writes_data(w.push(x), data),
{
    let w2 = w.push(x);
    assert forall|i: int| 0 <= i < w2.len() implies writes_done(#[trigger] w2.take(i)) < data.len() && w2[i].0 == data[writes_done(w2.take(i)) as int] by {
        if i < w.len() {
            assert(w2.take(i) =~= w.take(i));
        } else {
            assert(w2.take(i) =~= w);
        }
    }
    assert forall|k: int| 0 <= k < w2.len() implies !write_stops(#[trigger] w2.take(k)) by {
        if k < w.len() {
            assert(w2.take(k) =~= w.take(k));
        } else {
            assert(w2.take(k) =~= w);
        }
    }
}

/// A run that has not stopped yet, extended by one attempt, has still not
/// stopped before its end.
pub proof fn lemma_nowhere_before_push(
    ev: Seq<SerialRead>,
    x: SerialRead,
    stops: spec_fn(Seq<SerialRead>) -> bool,
)
    requires
        stops_nowhere_before(ev, stops),
        !stops(ev),
    ensures
        stops_nowhere_before(ev.push(x), stops),
{
    assert forall|k: int| 0 <= k < ev.push(x).len() implies !stops(#[trigger] ev.push(x).take(k)) by {
        if k < ev.len() {
            assert(ev.push(x).take(k) =~= ev.take(k));
        } else {
            assert(ev.push(x).take(k) =~= ev);
        }
    }
}

/// The empty run has stopped nowhere before its end.
pub proof fn lemma_nowhere_before_empty(stops: spec_fn(Seq<SerialRead>) -> bool)
    ensures
        stops_nowhere_before(Seq::<SerialRead>::empty(), stops),
{
}

/// The exchange of `cmd` took the port from the first records to the second,
/// and the reply carried no value.
pub open spec fn unanswered(
    sent0: Seq<u8>,
    rx0: Seq<u8>,
    sent1: Seq<u8>,
    rx1: Seq<u8>,
    cmd: Seq<u8>,
) -> bool {
    exists|part: Seq<u8>, junk: Seq<u8>, reply: Seq<u8>|
        #![trigger on_wire(sent0, rx0, sent1, rx1, cmd, part, junk, reply)]
        on_wire(sent0, rx0, sent1, rx1, cmd, part, junk, reply) && reply_value(reply) is None
}

/// The bytes the UART accepted and delivered, and every read, write and
/// flush attempt with its answer, each in order.
pub struct IoRecord {
    pub sent: Seq<u8>,
    pub received: Seq<u8>,
    pub reads: Seq<SerialRead>,
    pub writes: Seq<(u8, SerialWrite)>,
    pub flushes: Seq<SerialWrite>,
}

/// The bytes of a run of reads, concatenated, are those of its parts.
pub proof fn lemma_bytes_read_concat(a: Seq<SerialRead>, b: Seq<SerialRead>)
    ensures
        bytes_read(a + b) == bytes_read(a) + bytes_read(b),
    decreases b.len(),
{
    if b.len() == 0 {
        assert(a + b =~= a);
        assert(bytes_read(a) + bytes_read(b) =~= bytes_read(a));
    } else {
        lemma_bytes_read_concat(a, b.drop_last());
        assert((a + b).drop_last() =~= a + b.drop_last());
        assert((a + b).last() == b.last());
        match b.last() {
            SerialRead::Byte(x) => {
                assert(bytes_read(a) + bytes_read(b.drop_last()).push(x) =~= (bytes_read(a)
                    + bytes_read(b.drop_last())).push(x));
            },
            _ => {},
        }
    }
}

/// How the read attempts `rd` of one command exchange divide at `k`: first
/// the drain (a run until `drain_stops`, or nothing when `drains` is false),
/// then the response (a run until `response_stops`, whose bytes stand for
/// `reply`) when the command was written whole, or nothing (and no reply)
/// when the write gave up.
pub open spec fn exchange_split(
    rd: Seq<SerialRead>,
    k: int,
    drains: bool,
    whole: bool,
    reply: Option<Gm65Response>,
) -> bool {
    let d = rd.take(k);
    let e = rd.skip(k);
    &&& 0 <= k <= rd.len()
    &&& if drains {
        polled_until(d, |x: Seq<SerialRead>| drain_stops(x))
    } else {
        d.len() == 0
    }
    &&& if whole {
        &&& response_stops(e)
        &&& stops_nowhere_before(e, |x: Seq<SerialRead>| response_stops(x))
        &&& reply == reply_response(bytes_read(e))
    } else {
        e.len() == 0 && reply is None
    }
}

/// One command exchange took the port from record `a` to record `b`:
/// pending input drained first when `drains`, then `cmd` written byte after
/// byte (giving up only as `write_stops` says) and flushed once when written
/// whole, then the response read; `reply` is what the response stands for.
pub open spec fn exchanged(
    a: IoRecord,
    b: IoRecord,
    cmd: Seq<u8>,
    drains: bool,
    reply: Option<Gm65Response>,
) -> bool {
    let rd = b.reads.skip(a.reads.len() as int);
    let wr = b.writes.skip(a.writes.len() as int);
    let whole = writes_done(wr) == cmd.len();
    &&& extends(a.reads, b.reads)
    &&& extends(a.writes, b.writes)
    &&& writes_data(wr, cmd)
    &&& writes_done(wr) <= cmd.len()
    &&& b.sent == a.sent + cmd.subrange(0, writes_done(wr) as int)
    &&& b.received == a.received + bytes_read(rd)
    &&& whole ==> b.flushes == a.flushes.push(b.flushes.last())
    &&& !whole ==> write_stops(wr) && b.flushes == a.flushes
    &&& exists|k: int| #[trigger] exchange_split(rd, k, drains, whole, reply)
}

/// One command and the response it got, as a driver records them.
pub type Exchange = (Seq<u8>, Option<Gm65Response>);

/// The driver ran one command exchange of `cmd` from port record `a` to `b`
/// and recorded it, with its response, at the end of its exchange log.
pub open spec fn commanded(
    x0: Seq<Exchange>,
    x1: Seq<Exchange>,
    a: IoRecord,
    b: IoRecord,
    cmd: Seq<u8>,
    drains: bool,
) -> bool {
    &&& x1 == x0.push((cmd, x1.last().1))
    &&& exchanged(a, b, cmd, drains, x1.last().1)
}

/// The register value a response carries.
pub open spec fn response_value(r: Option<Gm65Response>) -> Option<u8> {
    match r {
        Some(Gm65Response::SuccessWithValue(v)) => Some(v),
        _ => None,
    }
}

/// A UART together with the record of every byte that went each way and of
/// every attempt made on it.
pub struct Port<U> {
    uart: U,
    sent: Ghost<Seq<u8>>,
    received: Ghost<Seq<u8>>,
    reads: Ghost<Seq<SerialRead>>,
    writes: Ghost<Seq<(u8, SerialWrite)>>,
    flushes: Ghost<Seq<SerialWrite>>,
}

impl<U> Port<U> {
    /// The UART.
    pub closed spec fn uart_of(&self) -> U {
        self.uart
    }

    /// Every byte the UART accepted, in order.
    pub closed spec fn sent(&self) -> Seq<u8> {
        self.sent@
    }

    /// Every byte the UART delivered, in order.
    pub closed spec fn received(&self) -> Seq<u8> {
        self.received@
    }

    /// The answer to every read attempt, in order.
    pub closed spec fn reads(&self) -> Seq<SerialRead> {
        self.reads@
    }

    /// Every write attempt, with the byte offered and the answer, in order.
    pub closed spec fn writes(&self) -> Seq<(u8, SerialWrite)> {
        self.writes@
    }

    /// The answer to every flush attempt, in order.
    pub closed spec fn flushes(&self) -> Seq<SerialWrite> {
        self.flushes@
    }

    /// All the records together.
    pub open spec fn record(&self) -> IoRecord {
        IoRecord {
            sent: self.sent(),
            received: self.received(),
            reads: self.reads(),
            writes: self.writes(),
            flushes: self.flushes(),
        }
    }

    /// A port over `uart` with empty records.
    pub fn new(uart: U) -> (p: Self)
        ensures
            p.uart_of() == uart,
            p.sent() == Seq::<u8>::empty(),
            p.received() == Seq::<u8>::empty(),
            p.reads() == Seq::<SerialRead>::empty(),
            p.writes() == Seq::<(u8, SerialWrite)>::empty(),
            p.flushes() == Seq::<SerialWrite>::empty(),
    {
        Port {
            uart,
            sent: Ghost(Seq::empty()),
            received: Ghost(Seq::empty()),
            reads: Ghost(Seq::empty()),
            writes: Ghost(Seq::empty()),
            flushes: Ghost(Seq::empty()),
        }
    }

    /// Gives the UART back.
    pub fn into_inner(self) -> (u: U)
        ensures
            u == self.uart_of(),
    {
        self.uart
    }
}

impl<U: SyncScannerIO> Port<U> {
    /// One non-blocking read attempt on the UART; its answer is returned and
    /// recorded, and a received byte is recorded too.
    pub fn read_byte(&mut self) -> (r: SerialRead)
        ensures
            final(self).reads() == old(self).reads().push(r),
            final(self).writes() == old(self).writes(),
            final(self).flushes() == old(self).flushes(),
            final(self).sent() == old(self).sent(),
            r matches SerialRead::Byte(b) ==> final(self).received() == old(self).received().push(b),
            !(r is Byte) ==> final(self).received() == old(self).received(),
    {
        let r = self.uart.read_byte();
        proof {
            self.reads@ = self.reads@.push(r);
        }
        if let SerialRead::Byte(b) = r {
            proof {
                self.received@ = self.received@.push(b);
            }
        }
        r
    }

    /// One non-blocking attempt to send `byte`; the answer is returned and
    /// recorded with the byte, and an accepted byte is recorded as sent.
    pub fn write_byte(&mut self, byte: u8) -> (r: SerialWrite)
        ensures
            final(self).writes() == old(self).writes().push((byte, r)),
            final(self).reads() == old(self).reads(),
            final(self).flushes() == old(self).flushes(),
            final(self).received() == old(self).received(),
            r is Done ==> final(self).sent() == old(self).sent().push(byte),
            !(r is Done) ==> final(self).sent() == old(self).sent(),
    {
        let r = self.uart.write_byte(byte);
        proof {
            self.writes@ = self.writes@.push((byte, r));
        }
        if let SerialWrite::Done = r {
            proof {
                self.sent@ = self.sent@.push(byte);
            }
        }
        r
    }

    /// One flush attempt on the UART; its answer is returned and recorded.
    pub fn flush(&mut self) -> (r: SerialWrite)
        ensures
            final(self).flushes() == old(self).flushes().push(r),
            final(self).reads() == old(self).reads(),
            final(self).writes() == old(self).writes(),
            final(self).sent() == old(self).sent(),
            final(self).received() == old(self).received(),
    {
        let r = self.uart.flush();
        proof {
            self.flushes@ = self.flushes@.push(r);
        }
        r
    }

    /// Sends every byte, retrying a byte up to 100 000 times while the UART
    /// would block, then flushes once. The write attempts are a run that
    /// sends `data` byte after byte and gives up only as `write_stops` says;
    /// the bytes sent are the accepted prefix of `data`, all of it exactly
    /// when the result is `Ok`, and only then is the flush made.
    pub fn write_all_bytes(&mut self, data: &[u8]) -> (r: Result<(), ()>)
        ensures
            final(self).received() == old(self).received(),
            final(self).reads() == old(self).reads(),
            extends(old(self).writes(), final(self).writes()),
            ({
                let w = final(self).writes().skip(old(self).writes().len() as int);
                &&& writes_data(w, data@)
                &&& writes_done(w) <= data@.len()
                &&& final(self).sent() == old(self).sent() + data@.subrange(0, writes_done(w) as int)
                &&& (r is Ok <==> writes_done(w) == data@.len())
                &&& (r is Err ==> write_stops(w))
            }),
            r is Ok ==> final(self).flushes() == old(self).flushes().push(final(self).flushes().last()),
            r is Err ==> final(self).flushes() == old(self).flushes(),
            old(self).sent().len() <= final(self).sent().len() <= old(self).sent().len() + data@.len(),
            final(self).sent() == old(self).sent() + data@.subrange(
                0,
                final(self).sent().len() - old(self).sent().len(),
            ),
            r is Ok <==> final(self).sent().len() == old(self).sent().len() + data@.len(),
    {
        let ghost writes0 = self.writes();
        let ghost mut w: Seq<(u8, SerialWrite)> = Seq::empty();
        let mut i: usize = 0;
        while i < data.len()
            invariant
                i <= data.len(),
                writes0 == old(self).writes(),
                self.received() == old(self).received(),
                self.reads() == old(self).reads(),
                self.flushes() == old(self).flushes(),
                self.writes() == writes0 + w,
                writes_data(w, data@),
                writes_done(w) == i,
                !write_stops(w),
                w.len() > 0 ==> w.last().1 is Done,
                self.sent() == old(self).sent() + data@.subrange(0, i as int),
            decreases data.len() - i,
        {
            let byte = data[i];
            let mut attempts: u32 = 0;
            let mut accepted = false;
            while !accepted
                invariant
                    attempts <= 100_000,
                    i < data.len(),
                    byte == data@[i as int],
                    writes0 == old(self).writes(),
                    self.received() == old(self).received(),
                    self.reads() == old(self).reads(),
                    self.flushes() == old(self).flushes(),
                    self.writes() == writes0 + w,
                    writes_data(w, data@),
                    !write_stops(w),
                    !accepted ==> writes_done(w) == i && trailing_write_blocks(w) == attempts,
                    accepted ==> writes_done(w) == i + 1 && w.len() > 0 && w.last().1 is Done,
                    w.len() > 0 && w.last().1 is Done ==> trailing_write_blocks(w) == 0,
                    !accepted ==> self.sent() == old(self).sent() + data@.subrange(0, i as int),
                    accepted ==> self.sent() == old(self).sent() + data@.subrange(0, i + 1),
                decreases (if accepted { 0int } else { 1int }), 100_000 - attempts,
            {
                let x = self.write_byte(byte);
                proof {
                    lemma_writes_data_push(w, data@, (byte, x));
                    lemma_writes_push(w, (byte, x));
                    w = w.push((byte, x));
                    assert(self.writes() =~= writes0 + w);
                    assert(self.writes().skip(writes0.len() as int) =~= w);
                    assert(self.writes().subrange(0, writes0.len() as int) =~= writes0);
                }
                match x {
                    SerialWrite::Done => {
                        proof {
                            assert(data@.subrange(0, i + 1) =~= data@.subrange(0, i as int).push(
                                byte,
                            ));
                        }
                        accepted = true;
                    },
                    SerialWrite::WouldBlock => {
                        if attempts >= 100_000 {
                            return Err(());
                        }
                        attempts += 1;
                    },
                    SerialWrite::Failed => {
                        return Err(());
                    },
                }
            }
            i += 1;
        }
        let _ = self.flush();
        proof {
            assert(data@.subrange(0, data@.len() as int) =~= data@);
            assert(self.writes().skip(writes0.len() as int) =~= w);
            assert(self.writes().subrange(0, writes0.len() as int) =~= writes0);
        }
        Ok(())
    }

    /// Discards pending input until the UART stays empty for 50 000 polls in
    /// a row or reports an error: the read attempts made are a run that goes
    /// on until `drain_stops` first holds of it (or the poll budget runs
    /// out), and what they delivered is recorded as received.
    pub fn drain_input(&mut self)
        ensures
            final(self).sent() == old(self).sent(),
            final(self).writes() == old(self).writes(),
            final(self).flushes() == old(self).flushes(),
            extends(old(self).reads(), final(self).reads()),
            polled_until(
                final(self).reads().skip(old(self).reads().len() as int),
                |e: Seq<SerialRead>| drain_stops(e),
            ),
            final(self).received() == old(self).received() + bytes_read(
                final(self).reads().skip(old(self).reads().len() as int),
            ),
            old(self).received().len() <= final(self).received().len(),
            final(self).received().subrange(0, old(self).received().len() as int) == old(
                self,
            ).received(),
            extends(old(self).received(), final(self).received()),
    {
        let ghost stops = |e: Seq<SerialRead>| drain_stops(e);
        let ghost reads0 = self.reads();
        let ghost rx0 = self.received();
        let ghost mut ev: Seq<SerialRead> = Seq::empty();
        let mut attempts: u32 = 0;
        let mut polls: u64 = POLL_BUDGET;
        while polls > 0
            invariant_except_break
                attempts <= 50_000,
                attempts == trailing_blocks(ev),
                ev.len() + polls == POLL_BUDGET,
                ev.len() > 0 ==> !(ev.last() is Failed),
            invariant
                stops_nowhere_before(ev, stops),
                stops == (|e: Seq<SerialRead>| drain_stops(e)),
                reads0 == old(self).reads(),
                rx0 == old(self).received(),
                self.reads() == reads0 + ev,
                self.received() == rx0 + bytes_read(ev),
                self.sent() == old(self).sent(),
                self.writes() == old(self).writes(),
                self.flushes() == old(self).flushes(),
            ensures
                polled_until(ev, stops),
                self.reads() == reads0 + ev,
                self.received() == rx0 + bytes_read(ev),
                self.sent() == old(self).sent(),
                self.writes() == old(self).writes(),
                self.flushes() == old(self).flushes(),
            decreases polls,
        {
            polls -= 1;
            let r = self.read_byte();
            proof {
                assert(!stops(ev));
                lemma_nowhere_before_push(ev, r, stops);
                lemma_reads_push(ev, r);
                ev = ev.push(r);
                assert(self.reads() =~= reads0 + ev);
            }
            match r {
                SerialRead::Byte(_) => {
                    attempts = 0;
                },
                SerialRead::WouldBlock => {
                    if attempts >= 50_000 {
                        break;
                    }
                    attempts += 1;
                },
                SerialRead::Failed => {
                    break;
                },
            }
        }
        proof {
            assert(self.reads().skip(reads0.len() as int) =~= ev);
            assert(self.reads().subrange(0, reads0.len() as int) =~= reads0);
            assert(self.received().subrange(0, rx0.len() as int) =~= rx0);
        }
    }

    /// Reads up to one seven-byte response frame, allowing 200 000 empty
    /// polls in a row between bytes, and stops early on a UART error: the
    /// read attempts made are a run that goes on until `response_stops`
    /// first holds of it. The result is the response the bytes read stand
    /// for.
    pub fn read_response(&mut self) -> (r: Option<Gm65Response>)
        ensures
            final(self).sent() == old(self).sent(),
            final(self).writes() == old(self).writes(),
            final(self).flushes() == old(self).flushes(),
            extends(old(self).reads(), final(self).reads()),
            response_stops(final(self).reads().skip(old(self).reads().len() as int)),
            stops_nowhere_before(
                final(self).reads().skip(old(self).reads().len() as int),
                |e: Seq<SerialRead>| response_stops(e),
            ),
            final(self).received() == old(self).received() + bytes_read(
                final(self).reads().skip(old(self).reads().len() as int),
            ),
            old(self).received().len() <= final(self).received().len() <= old(
                self,
            ).received().len() + RESPONSE_LEN,
            final(self).received().subrange(0, old(self).received().len() as int) == old(
                self,
            ).received(),
            r == reply_response(
                final(self).received().subrange(
                    old(self).received().len() as int,
                    final(self).received().len() as int,
                ),
            ),
    {
        let ghost stops = |e: Seq<SerialRead>| response_stops(e);
        let ghost reads0 = self.reads();
        let ghost rx0 = self.received();
        let ghost mut ev: Seq<SerialRead> = Seq::empty();
        let mut resp: Vec<u8> = Vec::new();
        let mut total_attempts: u32 = 0;
        let max_attempts: u32 = 200_000;
        while resp.len() < RESPONSE_LEN && total_attempts < max_attempts
            invariant
                resp.len() <= RESPONSE_LEN,
                total_attempts <= max_attempts,
                max_attempts == 200_000,
                total_attempts == trailing_blocks(ev),
                resp@ == bytes_read(ev),
                ev.len() > 0 ==> !(ev.last() is Failed),
                stops_nowhere_before(ev, stops),
                stops == (|e: Seq<SerialRead>| response_stops(e)),
                reads0 == old(self).reads(),
                rx0 == old(self).received(),
                self.reads() == reads0 + ev,
                self.sent() == old(self).sent(),
                self.writes() == old(self).writes(),
                self.flushes() == old(self).flushes(),
                self.received() == rx0 + resp@,
            decreases RESPONSE_LEN - resp.len(), max_attempts - total_attempts,
        {
            let r = self.read_byte();
            proof {
                assert(!stops(ev));
                lemma_nowhere_before_push(ev, r, stops);
                lemma_reads_push(ev, r);
                ev = ev.push(r);
                assert(self.reads() =~= reads0 + ev);
            }
            match r {
                SerialRead::Byte(byte) => {
                    resp.push(byte);
                    total_attempts = 0;
                },
                SerialRead::WouldBlock => {
                    total_attempts += 1;
                },
                SerialRead::Failed => {
                    proof {
                        assert(stops(ev));
                        assert(self.reads().skip(reads0.len() as int) =~= ev);
                        assert(self.reads().subrange(0, reads0.len() as int) =~= reads0);
                        assert(self.received().subrange(rx0.len() as int, self.received().len() as int) =~= resp@);
                        assert(self.received().subrange(0, rx0.len() as int) =~= rx0);
                    }
                    return None;
                },
            }
        }
        proof {
            assert(stops(ev));
            assert(self.reads().skip(reads0.len() as int) =~= ev);
            assert(self.reads().subrange(0, reads0.len() as int) =~= reads0);
            assert(self.received().subrange(rx0.len() as int, self.received().len() as int) =~= resp@);
            assert(self.received().subrange(0, rx0.len() as int) =~= rx0);
        }
        if resp.len() != RESPONSE_LEN {
            return None;
        }
        let parsed = Gm65Response::parse(resp.as_slice());
        if parsed == Gm65Response::Invalid {
            return None;
        }
        Some(parsed)
    }

    /// One command exchange: drains pending input first when `drains`,
    /// writes `cmd` (flushing once when it is written whole), then reads the
    /// response; the result is the response the bytes read after the command
    /// stand for (`None` when the write gave up or no whole response frame
    /// arrived).
    pub fn exchange(&mut self, cmd: &[u8], drains: bool) -> (r: Option<Gm65Response>)
        ensures
            exchanged(old(self).record(), final(self).record(), cmd@, drains, r),
            extends(old(self).sent(), final(self).sent()),
            extends(old(self).received(), final(self).received()),
            exists|part: Seq<u8>, junk: Seq<u8>, reply: Seq<u8>|
                #![trigger on_wire(old(self).sent(), old(self).received(), final(self).sent(), final(self).received(), cmd@, part, junk, reply)]
                on_wire(
                    old(self).sent(),
                    old(self).received(),
                    final(self).sent(),
                    final(self).received(),
                    cmd@,
                    part,
                    junk,
                    reply,
                ) && r == reply_response(reply),
    {
        let ghost a = self.record();
        let ghost s0 = self.sent();
        let ghost r0 = self.received();
        if drains {
            self.drain_input();
        }
        let ghost b = self.record();
        let ghost d = b.reads.skip(a.reads.len() as int);
        let ghost r1 = self.received();
        let ghost junk = r1.subrange(r0.len() as int, r1.len() as int);
        proof {
            assert(r1 =~= r0 + junk);
            if !drains {
                assert(d =~= Seq::<SerialRead>::empty());
            }
            assert(b.reads =~= a.reads + d);
            assert(junk =~= bytes_read(d));
        }
        let written = self.write_all_bytes(cmd);
        let ghost c = self.record();
        let ghost wr = c.writes.skip(b.writes.len() as int);
        let ghost part = self.sent().subrange(s0.len() as int, self.sent().len() as int);
        proof {
            assert(self.sent() =~= s0 + part);
            assert(part =~= cmd@.subrange(0, part.len() as int));
            assert(b.writes =~= a.writes);
            assert(c.writes.skip(a.writes.len() as int) =~= wr);
            assert(c.reads =~= b.reads);
            assert(c.reads.subrange(0, a.reads.len() as int) =~= a.reads);
        }
        if written.is_err() {
            proof {
                let reply = Seq::<u8>::empty();
                let rd = c.reads.skip(a.reads.len() as int);
                assert(rd =~= d);
                assert(rd.take(d.len() as int) =~= d);
                assert(rd.skip(d.len() as int) =~= Seq::<SerialRead>::empty());
                assert(exchange_split(rd, d.len() as int, drains, false, None));
                assert(self.received() =~= r0 + junk + reply);
                assert(on_wire(old(self).sent(), old(self).received(), self.sent(), self.received(), cmd@, part, junk, reply));
                assert(self.sent().subrange(0, s0.len() as int) =~= s0);
                assert(self.received().subrange(0, r0.len() as int) =~= r0);
            }
            return None;
        }
        let r = self.read_response();
        proof {
            let f = self.record();
            let e = f.reads.skip(c.reads.len() as int);
            let rd = f.reads.skip(a.reads.len() as int);
            assert(f.reads =~= a.reads + d + e);
            assert(rd =~= d + e);
            assert(rd.take(d.len() as int) =~= d);
            assert(rd.skip(d.len() as int) =~= e);
            lemma_bytes_read_concat(d, e);
            let rx = self.received();
            let reply = rx.subrange(r1.len() as int, rx.len() as int);
            assert(reply =~= bytes_read(e));
            assert(exchange_split(rd, d.len() as int, drains, true, r));
            assert(f.writes =~= c.writes);
            assert(f.writes.skip(a.writes.len() as int) =~= wr);
            assert(f.reads.subrange(0, a.reads.len() as int) =~= a.reads);
            assert(rx =~= r0 + junk + reply);
            assert(bytes_read(rd) == junk + reply);
            assert(rx =~= r0 + bytes_read(rd));
            assert(on_wire(old(self).sent(), old(self).received(), self.sent(), self.received(), cmd@, part, junk, reply));
            assert(self.sent().subrange(0, s0.len() as int) =~= s0);
            assert(self.received().subrange(0, r0.len() as int) =~= r0);
        }
        r
    }
}

/// The bytes of one response frame as they arrive in chunks, for drivers
/// whose reads deliver several bytes at once. Never holds more than one
/// frame.
pub struct ResponseCollector {
    bytes: Vec<u8>,
}

impl View for ResponseCollector {
    type V = Seq<u8>;

    closed spec fn view(&self) -> Seq<u8> {
        self.bytes@
    }
}

impl ResponseCollector {
    /// Every collector holds at most one frame.
    #[verifier::type_invariant]
    pub open spec fn within_frame(self) -> bool {
        self@.len() <= RESPONSE_LEN
    }

    /// A collector with nothing received.
    pub fn new() -> (c: Self)
        ensures
            c@ == Seq::<u8>::empty(),
    {
        ResponseCollector { bytes: Vec::new() }
    }

    /// How many bytes of the frame are still missing.
    pub fn needed(&self) -> (n: usize)
        ensures
            n == RESPONSE_LEN - self@.len(),
    {
        proof {
            use_type_invariant(self);
        }
        RESPONSE_LEN - self.bytes.len()
    }

    /// Whether the whole frame has arrived.
    pub fn is_complete(&self) -> (b: bool)
        ensures
            b == (self@.len() == RESPONSE_LEN),
    {
        self.bytes.len() == RESPONSE_LEN
    }

    /// Whether a read that delivered nothing ends the exchange: it does
    /// before the first byte of the response, and not after.
    pub fn gives_up_on_empty_read(&self) -> (b: bool)
        ensures
            b == (self@.len() == 0),
    {
        self.bytes.len() == 0
    }

    /// Appends the bytes of a chunk that still fit in the frame.
    pub fn push_chunk(&mut self, chunk: &[u8])
        ensures
            ({
                let room = RESPONSE_LEN - old(self)@.len();
                let k = if chunk@.len() < room { chunk@.len() as int } else { room };
                final(self)@ == old(self)@ + chunk@.subrange(0, k)
            }),
    {
        proof {
            use_type_invariant(&*self);
        }
        let mut taken = ResponseCollector::new();
        core::mem::swap(self, &mut taken);
        let ResponseCollector { bytes } = taken;
        let mut bytes = bytes;
        let ghost b0 = bytes@;
        let mut i: usize = 0;
        while i < chunk.len() && bytes.len() < RESPONSE_LEN
            invariant
                b0.len() <= RESPONSE_LEN,
                i <= chunk.len(),
                bytes@ == b0 + chunk@.subrange(0, i as int),
                bytes@.len() <= RESPONSE_LEN,
            decreases chunk.len() - i,
        {
            bytes.push(chunk[i]);
            i += 1;
            proof {
                assert(bytes@ =~= b0 + chunk@.subrange(0, i as int));
            }
        }
        *self = ResponseCollector { bytes };
    }

    /// The response the collected bytes stand for: `None` until the whole
    /// frame has arrived, and for a frame that is not a valid response.
    pub fn response(&self) -> (r: Option<Gm65Response>)
        ensures
            r == reply_response(self@),
    {
        if self.bytes.len() != RESPONSE_LEN {
            return None;
        }
        let parsed = Gm65Response::parse(self.bytes.as_slice());
        if parsed == Gm65Response::Invalid {
            return None;
        }
        Some(parsed)
    }
}

} // verus!
