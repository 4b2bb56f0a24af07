use vstd::prelude::*;
use crate::clock::now_millis;
use crate::text::{can_id_chars, format_can_id};
use crate::transport::{clone_bytes, BusType, Filter, Frame, TimingConfig, Transport};

verus! {

/// Which subsystem an event came from.
#[derive(Debug, Clone, Copy, PartialEq, Eq, Structural)]
pub enum LogKind {
    Transport,
    Protocol,
    System,
}

/// The structured payload carried by an event.
#[derive(Debug, Clone)]
pub enum LogPayload {
    /// One CAN frame passed through the transport.
    FrameSeen { id: String, data: Vec<u8>, extended: bool },
    /// A session began.
    SessionStarted { session_id: String, mode: String },
    /// The vehicle identification number as read.
    VinText { vin: String },
    /// The decoded manufacturer and model year.
    VinDecoded { wmi: String, year: String },
    /// A module was discovered.
    ModuleSeen { module: String, name: String },
    /// A per-module operation failed.
    ModuleError { module: String, error: String },
    /// The outcome of a clear request.
    ClearOutcome { module: Option<String>, error: Option<String> },
    /// A bare error text.
    ErrorText { error: String },
}

/// One structured event of the session log: when it happened, how severe it
/// is, which subsystem produced it, a short message and its payload.
#[derive(Debug, Clone)]
pub struct LogEvent {
    pub timestamp_ms: u64,
    pub level: String,
    pub kind: LogKind,
    pub message: String,
    pub payload: LogPayload,
}

/// Wraps any transport and emits one debug event of the transport kind for
/// every frame that passes through: each accepted send and each delivered
/// receive. Return values and failures of the inner transport pass through
/// unchanged.
pub struct LoggingTransport<T> {
    pub inner: T,
    pub events: Vec<LogEvent>,
}

impl<T: Transport> LoggingTransport<T> {
    pub fn new(inner: T) -> (r: LoggingTransport<T>)
        ensures
            r.events@ == Seq::<LogEvent>::empty(),
    {
        let r = LoggingTransport { inner, events: Vec::new() };
        proof {
            assert(r.events@ =~= Seq::<LogEvent>::empty());
        }
        r
    }

    /// Appends one frame observation: debug level, transport kind, the
    /// direction in the message, and the frame's canonical id, bytes and
    /// extended flag in the payload.
    fn log_frame(&mut self, message: &str, frame: &Frame)
        ensures
            final(self).inner == old(self).inner,
            final(self).events@.len() == old(self).events@.len() + 1,
            final(self).events@.take(old(self).events@.len() as int) == old(self).events@,
            final(self).events@.last().level@ == "debug"@,
            final(self).events@.last().kind == LogKind::Transport,
            final(self).events@.last().message@ == message@,
            match final(self).events@.last().payload {
                LogPayload::FrameSeen { id, data, extended } => id@ == can_id_chars(
                    frame.id as nat,
                ) && data@ == frame.data@ && extended == frame.is_extended,
                _ => false,
            },
    {
        let event = LogEvent {
            timestamp_ms: now_millis(),
            level: "debug".to_owned(),
            kind: LogKind::Transport,
            message: message.to_owned(),
            payload: LogPayload::FrameSeen {
                id: format_can_id(frame.id),
                data: clone_bytes(&frame.data),
                extended: frame.is_extended,
            },
        };
        self.events.push(event);
        proof {
            assert(final(self).events@.take(old(self).events@.len() as int) =~= old(
                self,
            ).events@);
        }
    }
}

impl<T: Transport> LoggingTransport<T> {
    /// Hands the frame to the inner transport and, exactly when it was
    /// accepted, appends one TX observation; a refused send leaves the
    /// event list untouched.
    pub fn send_logged(&mut self, frame: &Frame) -> (r: Result<(), String>)
        ensures
            r is Ok ==> final(self).events@.len() == old(self).events@.len() + 1
                && final(self).events@.take(old(self).events@.len() as int) == old(self).events@
                && final(self).events@.last().level@ == "debug"@ && final(self).events@.last().kind
                == LogKind::Transport && final(self).events@.last().message@
                == "TX CAN frame"@ && (match final(self).events@.last().payload {
                LogPayload::FrameSeen { id, data, extended } => id@ == can_id_chars(
                    frame.id as nat,
                ) && data@ == frame.data@ && extended == frame.is_extended,
                _ => false,
            }),
            r is Err ==> final(self).events@ == old(self).events@,
    {
        match self.inner.send(frame) {
            Ok(()) => {
                self.log_frame("TX CAN frame", frame);
                Ok(())
            },
            Err(e) => Err(e),
        }
    }

    /// Polls the inner transport and, exactly when a frame was delivered,
    /// appends one RX observation for it.
    pub fn recv_logged(&mut self, timeout_ms: u64) -> (r: Result<Option<Frame>, String>)
        ensures
            r matches Ok(Some(f)) ==> final(self).events@.len() == old(self).events@.len() + 1
                && final(self).events@.take(old(self).events@.len() as int) == old(self).events@
                && final(self).events@.last().level@ == "debug"@ && final(self).events@.last().kind
                == LogKind::Transport && final(self).events@.last().message@
                == "RX CAN frame"@ && (match final(self).events@.last().payload {
                LogPayload::FrameSeen { id, data, extended } => id@ == can_id_chars(f.id as nat)
                    && data@ == f.data@ && extended == f.is_extended,
                _ => false,
            }),
            !(r matches Ok(Some(_))) ==> final(self).events@ == old(self).events@,
    {
        let got = self.inner.recv(timeout_ms)?;
        match got {
            Some(frame) => {
                self.log_frame("RX CAN frame", &frame);
                Ok(Some(frame))
            },
            None => Ok(None),
        }
    }
}

impl<T: Transport> Transport for LoggingTransport<T> {
    fn open(&mut self) -> (r: Result<(), String>) {
        self.inner.open()
    }

    fn close(&mut self) {
        self.inner.close();
    }

    fn send(&mut self, frame: &Frame) -> (r: Result<(), String>) {
        self.send_logged(frame)
    }

    fn recv(&mut self, timeout_ms: u64) -> (r: Result<Option<Frame>, String>) {
        self.recv_logged(timeout_ms)
    }

    fn set_filters(&mut self, filters: Vec<Filter>) -> (r: Result<(), String>) {
        self.inner.set_filters(filters)
    }

    fn set_baud(&mut self, baud: u32) -> (r: Result<(), String>) {
        self.inner.set_baud(baud)
    }

    fn set_bus(&mut self, bus: BusType) -> (r: Result<(), String>) {
        self.inner.set_bus(bus)
    }

    fn set_timing(&mut self, timing: TimingConfig) -> (r: Result<(), String>) {
        self.inner.set_timing(timing)
    }
}

} // verus!
