use vstd::prelude::*;

use crate::error::PipeError;
use crate::scan::{match_end_at, no_match_between};

verus! {

/// The most bytes that one read of the transport asks for.
pub const READ_CHUNK: usize = 1024;

/// The local address that a UDP socket is bound to before it connects: any
/// interface, a port chosen by the system.
pub const UDP_BIND_ADDR: &'static str = "0.0.0.0:0";

/// The transport under a pipe.
#[derive(Clone, Copy, Debug, PartialEq, Eq, Structural)]
pub enum PipeKind {
    Tcp,
    Udp,
    Tls,
}

/// The result of a scan of the receive buffer for a delimiter.
#[derive(Debug)]
pub enum Scan {
    /// The delimiter was found: the bytes up to and including it, which have
    /// left the buffer.
    Found(Vec<u8>),
    /// The delimiter does not end anywhere in the buffer from the scan's start
    /// on; the next scan, after more data has arrived, starts at this index.
    Pending(usize),
}

/// What a send asks of the transport.
#[derive(Clone, Copy, Debug, PartialEq, Eq, Structural)]
pub enum SendPlan {
    /// Nothing is written: the message is empty.
    Skip,
    /// The whole message is written; `log` says whether it is echoed.
    Write { log: bool },
}

/// The state of a pipe apart from its socket: the transport kind, the bytes
/// received and not yet handed out, and whether traffic is logged.
///
/// Two ghost sequences record every byte that came in and every byte that
/// went out to the caller; the pipe keeps `delivered ++ buffered == received`.
pub struct Pipe {
    kind: PipeKind,
    buffer: Vec<u8>,
    log: bool,
    received: Ghost<Seq<u8>>,
    delivered: Ghost<Seq<u8>>,
}

impl Pipe {
    pub closed spec fn spec_kind(&self) -> PipeKind {
        self.kind
    }

    /// The bytes received and not yet handed out, oldest first.
    pub closed spec fn buffered(&self) -> Seq<u8> {
        self.buffer@
    }

    pub closed spec fn logging(&self) -> bool {
        self.log
    }

    /// Every byte that arrived from the transport, in order.
    pub closed spec fn received(&self) -> Seq<u8> {
        self.received@
    }

    /// Every byte that a receive operation handed out, in order.
    pub closed spec fn delivered(&self) -> Seq<u8> {
        self.delivered@
    }

    /// The invariant of every pipe: what went out followed by what is
    /// buffered is what came in.
    #[verifier::type_invariant]
    closed spec fn inv(self) -> bool {
        self.delivered@ + self.buffer@ == self.received@
    }

    /// Nothing is lost, duplicated or reordered: what went out followed by
    /// what is buffered is exactly what came in.
    pub open spec fn wf(&self) -> bool {
        self.delivered() + self.buffered() == self.received()
    }

    /// A pipe in the state right after connecting.
    pub open spec fn is_fresh(&self, kind: PipeKind) -> bool {
        &&& self.wf()
        &&& self.spec_kind() == kind
        &&& self.buffered() == Seq::<u8>::empty()
        &&& self.received() == Seq::<u8>::empty()
        &&& self.delivered() == Seq::<u8>::empty()
        &&& !self.logging()
    }

    /// Everything but the buffer and its history is as in `old`.
    pub open spec fn same_settings(&self, old: &Pipe) -> bool {
        self.spec_kind() == old.spec_kind() && self.logging() == old.logging()
    }

    /// `self` is `old` after `out` was taken from the front of its buffer.
    pub open spec fn drained(&self, old: &Pipe, out: Seq<u8>) -> bool {
        &&& self.same_settings(old)
        &&& out.len() <= old.buffered().len()
        &&& out == old.buffered().take(out.len() as int)
        &&& self.buffered() == old.buffered().skip(out.len() as int)
        &&& self.received() == old.received()
        &&& self.delivered() == old.delivered() + out
    }

    /// `self` is `old`, unchanged in every observable part.
    pub open spec fn unchanged(&self, old: &Pipe) -> bool {
        &&& self.same_settings(old)
        &&& self.buffered() == old.buffered()
        &&& self.received() == old.received()
        &&& self.delivered() == old.delivered()
    }

    /// A new pipe over a transport of the given kind: empty buffer, logging off.
    pub fn new(kind: PipeKind) -> (res: Pipe)
        ensures
            res.is_fresh(kind),
    {
        Pipe {
            kind,
            buffer: Vec::new(),
            log: false,
            received: Ghost(Seq::empty()),
            delivered: Ghost(Seq::empty()),
        }
    }

    pub fn kind(&self) -> (res: PipeKind)
        ensures
            res == self.spec_kind(),
    {
        self.kind
    }

    pub fn is_logging(&self) -> (res: bool)
        ensures
            res == self.logging(),
    {
        self.log
    }

    /// Turns logging of traffic on or off.
    pub fn log(&mut self, value: bool)
        ensures
            final(self).logging() == value,
            final(self).spec_kind() == old(self).spec_kind(),
            final(self).buffered() == old(self).buffered(),
            final(self).received() == old(self).received(),
            final(self).delivered() == old(self).delivered(),
    {
        proof {
            use_type_invariant(&*self);
        }
        self.log = value;
    }

    /// Turns logging on for a debugging session and gives the setting it had,
    /// which the session restores with `log` when it ends.
    pub fn force_logging(&mut self) -> (saved: bool)
        ensures
            saved == old(self).logging(),
            final(self).logging(),
            final(self).spec_kind() == old(self).spec_kind(),
            final(self).buffered() == old(self).buffered(),
            final(self).received() == old(self).received(),
            final(self).delivered() == old(self).delivered(),
    {
        proof {
            use_type_invariant(&*self);
        }
        let saved = self.log;
        self.log = true;
        saved
    }

    /// The number of bytes received and not yet handed out.
    pub fn buffer_len(&self) -> (res: usize)
        ensures
            res == self.buffered().len(),
    {
        self.buffer.len()
    }

    /// Moves the whole state out, leaving a pipe of the same kind and log
    /// setting with an empty buffer and history in its place.
    fn take(&mut self) -> (res: Pipe)
        ensures
            res == *old(self),
            final(self).spec_kind() == old(self).spec_kind(),
            final(self).logging() == old(self).logging(),
    {
        let mut taken = Pipe {
            kind: self.kind,
            buffer: Vec::new(),
            log: self.log,
            received: Ghost(Seq::empty()),
            delivered: Ghost(Seq::empty()),
        };
        std::mem::swap(&mut taken, self);
        taken
    }

    /// Appends a chunk that the transport delivered (at most `READ_CHUNK`
    /// bytes from one read) to the buffer. The result says whether the chunk
    /// is to be echoed to the log: it is when logging is on and the chunk is
    /// not empty.
    pub fn push_received(&mut self, chunk: &[u8]) -> (echo: bool)
        ensures
            final(self).wf(),
            final(self).same_settings(&*old(self)),
            final(self).buffered() == old(self).buffered() + chunk@,
            final(self).received() == old(self).received() + chunk@,
            final(self).delivered() == old(self).delivered(),
            echo == (chunk@.len() > 0 && old(self).logging()),
    {
        proof {
            use_type_invariant(&*self);
        }
        if chunk.len() == 0 {
            assert(old(self).buffered() + chunk@ =~= old(self).buffered());
            assert(old(self).received() + chunk@ =~= old(self).received());
            return false;
        }
        let whole = self.take();
        proof {
            use_type_invariant(&whole);
        }
        let Pipe { kind, mut buffer, log, received, delivered } = whole;
        let ghost old_buf = buffer@;
        let mut i: usize = 0;
        while i < chunk.len()
            invariant
                i <= chunk.len(),
                buffer@ == old_buf + chunk@.take(i as int),
            decreases chunk.len() - i,
        {
            buffer.push(chunk[i]);
            i = i + 1;
            assert(old_buf + chunk@.take(i as int) =~= (old_buf + chunk@.take((i - 1) as int)).push(
                chunk@[i - 1],
            ));
        }
        assert(chunk@.take(chunk.len() as int) =~= chunk@);
        let ghost new_received = received@ + chunk@;
        assert(delivered@ + buffer@ =~= new_received);
        *self = Pipe { kind, buffer, log, received: Ghost(new_received), delivered };
        log
    }

    /// Takes the first `n` bytes of the buffer out of it.
    pub fn drain_n(&mut self, n: usize) -> (res: Vec<u8>)
        requires
            n <= old(self).buffered().len(),
        ensures
            final(self).wf(),
            res@.len() == n,
            final(self).drained(&*old(self), res@),
    {
        proof {
            use_type_invariant(&*self);
        }
        if n == 0 {
            assert(self.buffer@.skip(0) =~= self.buffer@);
            assert(self.buffer@.take(0) =~= Seq::<u8>::empty());
            assert(self.delivered@ + Seq::<u8>::empty() =~= self.delivered@);
            return Vec::new();
        }
        let whole = self.take();
        proof {
            use_type_invariant(&whole);
        }
        let Pipe { kind, mut buffer, log, received, delivered } = whole;
        let rest = buffer.split_off(n);
        let ghost d = delivered@ + buffer@;
        assert(old(self).buffered().take(n as int) =~= buffer@);
        assert(old(self).buffered().skip(n as int) =~= rest@);
        assert(buffer@ + rest@ =~= old(self).buffered());
        assert(d + rest@ =~= received@);
        *self = Pipe { kind, buffer: rest, log, received, delivered: Ghost(d) };
        buffer
    }

    /// The decision of a receive of at most `size` bytes. Buffered bytes are
    /// handed out at once; with an empty buffer the transport is read once
    /// (`None`), and after that read (`after_read`) whatever it brought is
    /// handed out, which is nothing at the end of the stream.
    pub fn recv(&mut self, size: usize, after_read: bool) -> (res: Option<Vec<u8>>)
        ensures
            final(self).wf(),
            res is None <==> (old(self).buffered().len() == 0 && !after_read),
            res is None ==> final(self).unchanged(&*old(self)),
            res matches Some(out) ==> {
                &&& out@.len() == vstd::math::min(old(self).buffered().len() as int, size as int)
                &&& final(self).drained(&*old(self), out@)
            },
    {
        proof {
            use_type_invariant(&*self);
        }
        if self.buffer_len() > 0 || after_read {
            let n = if self.buffer_len() < size {
                self.buffer_len()
            } else {
                size
            };
            Some(self.drain_n(n))
        } else {
            None
        }
    }

    /// The decision of a receive of exactly `size` bytes: they are handed out
    /// once the buffer holds them; until then the transport is read (`None`).
    pub fn recvn(&mut self, size: usize) -> (res: Option<Vec<u8>>)
        ensures
            final(self).wf(),
            res is None <==> old(self).buffered().len() < size,
            res is None ==> final(self).unchanged(&*old(self)),
            res matches Some(out) ==> out@.len() == size && final(self).drained(&*old(self), out@),
    {
        proof {
            use_type_invariant(&*self);
        }
        if self.buffer_len() >= size {
            Some(self.drain_n(size))
        } else {
            None
        }
    }

    /// The decision of a receive of everything up to the end of the stream:
    /// the transport is read until a read brings nothing (`last_read == 0`),
    /// and then the whole buffer is handed out.
    pub fn recvall(&mut self, last_read: usize) -> (res: Option<Vec<u8>>)
        ensures
            final(self).wf(),
            res is None <==> last_read != 0,
            res is None ==> final(self).unchanged(&*old(self)),
            res matches Some(out) ==> {
                &&& out@ == old(self).buffered()
                &&& final(self).drained(&*old(self), out@)
                &&& final(self).buffered() == Seq::<u8>::empty()
                &&& final(self).delivered() == final(self).received()
            },
    {
        proof {
            use_type_invariant(&*self);
        }
        if last_read == 0 {
            let n = self.buffer_len();
            let out = self.drain_n(n);
            assert(old(self).buffered().take(n as int) =~= old(self).buffered());
            assert(self.delivered() + self.buffered() =~= self.delivered());
            Some(out)
        } else {
            None
        }
    }

    /// The decision of a receive up to and including the next newline
    /// (byte 10), scanning the buffer from index `from` on.
    pub fn recvline(&mut self, from: usize) -> (res: Scan)
        requires
            from <= old(self).buffered().len(),
        ensures
            final(self).wf(),
            (res is Found) <==> exists|j: int|
                from <= j < old(self).buffered().len() && old(self).buffered()[j] == 10u8,
            res matches Scan::Found(line) ==> {
                let j = line@.len() - 1;
                &&& from <= j < old(self).buffered().len()
                &&& old(self).buffered()[j] == 10u8
                &&& forall|k: int| from <= k < j ==> old(self).buffered()[k] != 10u8
                &&& final(self).drained(&*old(self), line@)
            },
            res matches Scan::Pending(next) ==> {
                &&& next == old(self).buffered().len()
                &&& forall|k: int| from <= k < next ==> old(self).buffered()[k] != 10u8
                &&& final(self).unchanged(&*old(self))
            },
    {
        proof {
            use_type_invariant(&*self);
        }
        let len = self.buffer.len();
        let mut i = from;
        while i < len
            invariant
                from <= i <= len,
                len == self.buffer@.len(),
                forall|k: int| from <= k < i ==> self.buffer@[k] != 10u8,
                self.wf(),
                self.unchanged(&*old(self)),
            decreases len - i,
        {
            if self.buffer[i] == 10u8 {
                let line = self.drain_n(i + 1);
                return Scan::Found(line);
            }
            i = i + 1;
        }
        Scan::Pending(len)
    }

    /// The decision of a receive up to and including the first occurrence of
    /// `suffix` that ends at index `from` or later. An empty suffix yields an
    /// empty result at once.
    pub fn recvuntil(&mut self, suffix: &[u8], from: usize) -> (res: Scan)
        requires
            from <= old(self).buffered().len(),
        ensures
            final(self).wf(),
            suffix@.len() == 0 ==> (res matches Scan::Found(out) && out@.len() == 0
                && final(self).unchanged(&*old(self))),
            suffix@.len() > 0 ==> ((res is Found) <==> exists|j: int|
                from <= j < old(self).buffered().len() && match_end_at(
                    old(self).buffered(),
                    suffix@,
                    j,
                )),
            suffix@.len() > 0 ==> (res matches Scan::Found(out) ==> {
                let j = out@.len() - 1;
                &&& from <= j < old(self).buffered().len()
                &&& match_end_at(old(self).buffered(), suffix@, j)
                &&& no_match_between(old(self).buffered(), suffix@, from as int, j)
                &&& final(self).drained(&*old(self), out@)
            }),
            res matches Scan::Pending(next) ==> {
                &&& suffix@.len() > 0
                &&& next == old(self).buffered().len()
                &&& no_match_between(old(self).buffered(), suffix@, from as int, next as int)
                &&& final(self).unchanged(&*old(self))
            },
    {
        proof {
            use_type_invariant(&*self);
        }
        let slen = suffix.len();
        if slen == 0 {
            return Scan::Found(Vec::new());
        }
        let last = suffix[slen - 1];
        let len = self.buffer.len();
        let mut j = from;
        while j < len
            invariant
                from <= j <= len,
                len == self.buffer@.len(),
                slen == suffix@.len(),
                slen > 0,
                last == suffix@[slen - 1],
                self.wf(),
                self.unchanged(&*old(self)),
                no_match_between(self.buffer@, suffix@, from as int, j as int),
            decreases len - j,
        {
            if self.buffer[j] == last {
                if slen <= len && j >= slen - 1 && self.window_equals(j + 1 - slen, suffix) {
                    assert(match_end_at(self.buffer@, suffix@, j as int));
                    let out = self.drain_n(j + 1);
                    return Scan::Found(out);
                }
            }
            proof {
                if match_end_at(self.buffer@, suffix@, j as int) {
                    assert(self.buffer@.subrange(j + 1 - slen, j + 1)[slen - 1] == self.buffer@[j as int]);
                }
            }
            j = j + 1;
        }
        Scan::Pending(len)
    }

    /// Whether `pat` stands in the buffer from index `start` on.
    fn window_equals(&self, start: usize, pat: &[u8]) -> (res: bool)
        requires
            start + pat@.len() <= self.buffer@.len(),
        ensures
            res == (self.buffer@.subrange(start as int, start + pat@.len()) == pat@),
    {
        let blen = self.buffer.len();
        let mut k: usize = 0;
        while k < pat.len()
            invariant
                k <= pat@.len(),
                start + pat@.len() <= self.buffer@.len(),
                blen == self.buffer@.len(),
                forall|t: int| 0 <= t < k ==> self.buffer@[start + t] == pat@[t],
            decreases pat@.len() - k,
        {
            if self.buffer[start + k] != pat[k] {
                assert(self.buffer@.subrange(start as int, start + pat@.len())[k as int]
                    != pat@[k as int]);
                return false;
            }
            k = k + 1;
        }
        assert(self.buffer@.subrange(start as int, start + pat@.len()) =~= pat@);
        true
    }

    /// The decision of a send of `msg`: an empty message writes nothing; any
    /// other is written whole, echoed to the log when logging is on.
    pub fn send(&self, msg: &[u8]) -> (res: SendPlan)
        ensures
            msg@.len() == 0 ==> res == SendPlan::Skip,
            msg@.len() > 0 ==> res == (SendPlan::Write { log: self.logging() }),
    {
        if msg.len() == 0 {
            SendPlan::Skip
        } else {
            SendPlan::Write { log: self.log }
        }
    }

    /// Whether Nagle's algorithm can be read or set: not on a UDP socket.
    pub fn nagle_check(&self) -> (res: Result<(), PipeError>)
        ensures
            res is Err <==> self.spec_kind() == PipeKind::Udp,
            res matches Err(e) ==> e == PipeError::NagleOnUdp,
    {
        match self.kind {
            PipeKind::Udp => Err(PipeError::NagleOnUdp),
            _ => Ok(()),
        }
    }

    /// Whether the connection can be shut down: not a UDP socket.
    pub fn close_check(&self) -> (res: Result<(), PipeError>)
        ensures
            res is Err <==> self.spec_kind() == PipeKind::Udp,
            res matches Err(e) ==> e == PipeError::ShutdownOnUdp,
    {
        match self.kind {
            PipeKind::Udp => Err(PipeError::ShutdownOnUdp),
            _ => Ok(()),
        }
    }
}

/// In a well-formed pipe the bytes handed out so far are a prefix of the bytes
/// received, and the buffer holds exactly the rest, in order.
pub proof fn lemma_delivery_in_order(p: &Pipe)
    requires
        p.wf(),
    ensures
        p.delivered().is_prefix_of(p.received()),
        p.buffered() == p.received().skip(p.delivered().len() as int),
{
    assert(p.received().subrange(0, p.delivered().len() as int) =~= p.delivered());
    assert(p.received().skip(p.delivered().len() as int) =~= p.buffered());
}

/// The bytes that a send of `msg` as a line writes: `msg` and a newline.
pub fn sendline_payload(msg: &[u8]) -> (res: Vec<u8>)
    ensures
        res@ == msg@.push(10u8),
{
    let mut out: Vec<u8> = Vec::new();
    let mut i: usize = 0;
    while i < msg.len()
        invariant
            i <= msg@.len(),
            out@ == msg@.take(i as int),
        decreases msg@.len() - i,
    {
        out.push(msg[i]);
        i = i + 1;
        assert(msg@.take(i as int) =~= msg@.take((i - 1) as int).push(msg@[i - 1]));
    }
    assert(msg@.take(msg@.len() as int) =~= msg@);
    out.push(10u8);
    out
}

} // verus!
