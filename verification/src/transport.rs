use vstd::prelude::*;

verus! {

/// A raw CAN frame: arbitration id, up to 8 data bytes (padded to 8 for
/// transmission), a coarse receive timestamp and the extended-id flag.
#[derive(Debug, Clone)]
pub struct Frame {
    pub id: u32,
    pub data: Vec<u8>,
    pub timestamp_ms: u128,
    pub is_extended: bool,
}

/// An acceptance filter: a received frame passes when
/// `(frame.id & mask) == (id & mask)`.
#[derive(Debug, Clone)]
pub struct Filter {
    pub id: u32,
    pub mask: u32,
    pub is_extended: bool,
}

/// The bus kind a channel is configured for.
#[derive(Debug, Clone)]
pub enum BusType {
    Can,
}

/// ISO 14229 session timing parameters.
#[derive(Debug, Clone)]
pub struct TimingConfig {
    pub p2_ms: u64,
    pub p2_star_ms: u64,
}

/// The capability set every CAN transport offers: open, close, blocking send,
/// receive with a timeout, and channel configuration. `recv` returns `None`
/// on a clean timeout and fails only on hard I/O errors; `send` and `recv`
/// on a closed transport fail.
pub trait Transport: Sized {
    fn open(&mut self) -> (r: Result<(), String>);

    fn close(&mut self);

    fn send(&mut self, frame: &Frame) -> (r: Result<(), String>);

    fn recv(&mut self, timeout_ms: u64) -> (r: Result<Option<Frame>, String>);

    fn set_filters(&mut self, filters: Vec<Filter>) -> (r: Result<(), String>);

    fn set_baud(&mut self, baud: u32) -> (r: Result<(), String>);

    fn set_bus(&mut self, bus: BusType) -> (r: Result<(), String>);

    fn set_timing(&mut self, timing: TimingConfig) -> (r: Result<(), String>);
}

/// A replay transport: `recv` pops queued frames in order, `send` succeeds
/// silently while the transport is open.
pub struct SimTransport {
    open: bool,
    queue: Vec<Frame>,
    cursor: usize,
}

impl SimTransport {
    /// The frames still waiting to be delivered by `recv`, oldest first.
    pub closed spec fn pending(&self) -> Seq<Frame> {
        self.queue@.skip(self.cursor as int)
    }

    /// Whether `open` has been called and `close` has not.
    pub closed spec fn is_open(&self) -> bool {
        self.open
    }

    /// The queue cursor never runs past the queue.
    pub closed spec fn wf(&self) -> bool {
        self.cursor <= self.queue@.len()
    }

    pub fn new() -> (r: SimTransport)
        ensures
            r.wf(),
            !r.is_open(),
            r.pending() == Seq::<Frame>::empty(),
    {
        SimTransport { open: false, queue: Vec::new(), cursor: 0 }
    }

    /// Queues one frame for a later `recv`.
    pub fn push_frame(&mut self, frame: Frame)
        requires
            old(self).wf(),
        ensures
            final(self).wf(),
            final(self).is_open() == old(self).is_open(),
            final(self).pending() == old(self).pending().push(frame),
    {
        self.queue.push(frame);
        proof {
            assert(self.pending() =~= old(self).pending().push(frame));
        }
    }
}

impl Transport for SimTransport {
    fn open(&mut self) -> (r: Result<(), String>) {
        self.open = true;
        Ok(())
    }

    fn close(&mut self) {
        self.open = false;
    }

    fn send(&mut self, _frame: &Frame) -> (r: Result<(), String>) {
        if !self.open {
            return Err("Sim transport not open".to_owned());
        }
        Ok(())
    }

    fn recv(&mut self, _timeout_ms: u64) -> (r: Result<Option<Frame>, String>) {
        if !self.open {
            return Err("Sim transport not open".to_owned());
        }
        if self.cursor < self.queue.len() {
            let frame = self.frame_at(self.cursor);
            self.cursor = self.cursor + 1;
            Ok(Some(frame))
        } else {
            Ok(None)
        }
    }

    fn set_filters(&mut self, _filters: Vec<Filter>) -> (r: Result<(), String>) {
        Ok(())
    }

    fn set_baud(&mut self, _baud: u32) -> (r: Result<(), String>) {
        Ok(())
    }

    fn set_bus(&mut self, _bus: BusType) -> (r: Result<(), String>) {
        Ok(())
    }

    fn set_timing(&mut self, _timing: TimingConfig) -> (r: Result<(), String>) {
        Ok(())
    }
}

impl SimTransport {
    fn frame_at(&self, i: usize) -> (r: Frame)
        requires
            i < self.queue@.len(),
        ensures
            r.id == self.queue@[i as int].id,
            r.data@ == self.queue@[i as int].data@,
            r.timestamp_ms == self.queue@[i as int].timestamp_ms,
            r.is_extended == self.queue@[i as int].is_extended,
    {
        let f = &self.queue[i];
        Frame {
            id: f.id,
            data: clone_bytes(&f.data),
            timestamp_ms: f.timestamp_ms,
            is_extended: f.is_extended,
        }
    }
}

/// Copies a byte vector.
pub fn clone_bytes(v: &Vec<u8>) -> (r: Vec<u8>)
    ensures
        r@ == v@,
{
    let mut out: Vec<u8> = Vec::new();
    let mut i: usize = 0;
    while i < v.len()
        invariant
            i <= v@.len(),
            out@ == v@.take(i as int),
        decreases v@.len() - i,
    {
        out.push(v[i]);
        i = i + 1;
        proof {
            assert(out@ =~= v@.take(i as int));
        }
    }
    proof {
        assert(out@ =~= v@);
    }
    out
}

/// A direct-connection transport that is not yet wired to a driver: every
/// wire operation reports that it is unavailable.
pub struct VLinkerDirectTransport;

impl VLinkerDirectTransport {
    pub fn new() -> (r: VLinkerDirectTransport) {
        VLinkerDirectTransport
    }
}

impl Transport for VLinkerDirectTransport {
    fn open(&mut self) -> (r: Result<(), String>) {
        Err("VLinker direct transport unavailable".to_owned())
    }

    fn close(&mut self) {
    }

    fn send(&mut self, _frame: &Frame) -> (r: Result<(), String>) {
        Err("VLinker direct transport unavailable".to_owned())
    }

    fn recv(&mut self, _timeout_ms: u64) -> (r: Result<Option<Frame>, String>) {
        Err("VLinker direct transport unavailable".to_owned())
    }

    fn set_filters(&mut self, _filters: Vec<Filter>) -> (r: Result<(), String>) {
        Ok(())
    }

    fn set_baud(&mut self, _baud: u32) -> (r: Result<(), String>) {
        Ok(())
    }

    fn set_bus(&mut self, _bus: BusType) -> (r: Result<(), String>) {
        Ok(())
    }

    fn set_timing(&mut self, _timing: TimingConfig) -> (r: Result<(), String>) {
        Ok(())
    }
}

} // verus!
