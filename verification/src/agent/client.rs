//! The client of an agent: what it asks, and what it makes of the answers.

use crate::mpscbuf::error::MpscBufError;
use crate::protocol::{
    Args, ArgsView, ControlMessage, ControlMessageView, TimestampType, TracingArgs, TracingArgsView,
    Value, ValueView, VERSION,
};
use crate::text::same_text;
use vstd::prelude::*;

verus! {

/// How long a client waits for an answer.
pub const CLIENT_READ_TIMEOUT_MS: u16 = 5000;

/// What kind of input or output error came up.
#[derive(Debug, Clone, Copy, PartialEq, Eq, Structural)]
pub enum IoKind {
    TimedOut,
    WouldBlock,
    Other,
}

#[derive(Debug)]
pub enum AgentError {
    Io(IoKind, String),
    Nix(String),
    Mpscbuf(MpscBufError),
    Archive(String),
    NotEnabled,
    Other(String),
}

impl AgentError {
    pub open spec fn text(&self) -> Seq<char> {
        match *self {
            AgentError::Io(_, s) => "IO error: "@ + s@,
            AgentError::Nix(s) => "System error: "@ + s@,
            AgentError::Mpscbuf(e) => "MPSC buffer error: "@ + e.text(),
            AgentError::Archive(s) => "Archive error: "@ + s@,
            AgentError::NotEnabled => "Agent not enabled"@,
            AgentError::Other(s) => s@,
        }
    }

    pub fn to_text(&self) -> (r: String)
        ensures
            r@ == self.text(),
    {
        match self {
            AgentError::Io(_, s) => "IO error: ".to_owned().concat(s.as_str()),
            AgentError::Nix(s) => "System error: ".to_owned().concat(s.as_str()),
            AgentError::Mpscbuf(e) => {
                let inner: String = e.to_text();
                "MPSC buffer error: ".to_owned().concat(inner.as_str())
            },
            AgentError::Archive(s) => "Archive error: ".to_owned().concat(s.as_str()),
            AgentError::NotEnabled => "Agent not enabled".to_owned(),
            AgentError::Other(s) => s.clone(),
        }
    }

    /// Whether this is an input or output error of the given kind and text.
    pub open spec fn is_io(&self, kind: IoKind, text: Seq<char>) -> bool {
        match *self {
            AgentError::Io(k, s) => k == kind && s@ == text,
            _ => false,
        }
    }
}

fn io_error(kind: IoKind, text: &str) -> (r: AgentError)
    ensures
        r.is_io(kind, text@),
{
    AgentError::Io(kind, text.to_owned())
}

/// How sending a message went.
#[derive(Debug)]
pub enum Sent {
    Sent,
    WouldBlock,
    BrokenPipe,
    Failed(AgentError),
}

/// How receiving an answer went: none came in time, or there was nothing after
/// all, or it failed, or these bytes came.
#[derive(Debug)]
pub enum Answer {
    TimedOut,
    WouldBlock,
    Failed(AgentError),
    Bytes(Vec<u8>),
}

/// What a start does next.
#[derive(Debug)]
pub enum StartMove {
    Connect,
    AskVersion,
    AskStart,
    Finished(Result<(), AgentError>),
}

/// How a move of a start went.
#[derive(Debug)]
pub enum StartReport {
    Connected(Result<(), AgentError>),
    Version(Result<ControlMessage, AgentError>),
    Started(Result<ControlMessage, AgentError>),
}

/// What came for an answer.
pub fn response_bytes(answer: Answer) -> (r: Result<Vec<u8>, AgentError>)
    ensures
        match answer {
            Answer::TimedOut => r matches Err(e) && e.is_io(
                IoKind::TimedOut,
                "timeout waiting for agent response"@,
            ),
            Answer::WouldBlock => r matches Err(e) && e.is_io(
                IoKind::WouldBlock,
                "no data available"@,
            ),
            Answer::Failed(e) => r == Err::<Vec<u8>, AgentError>(e),
            Answer::Bytes(b) => r == Ok::<Vec<u8>, AgentError>(b),
        },
{
    match answer {
        Answer::TimedOut => Err(io_error(IoKind::TimedOut, "timeout waiting for agent response")),
        Answer::WouldBlock => Err(io_error(IoKind::WouldBlock, "no data available")),
        Answer::Failed(e) => Err(e),
        Answer::Bytes(b) => Ok(b),
    }
}

/// A client, with whether it holds a connection.
#[derive(Debug)]
pub struct AgentClient {
    socket_path: String,
    connected: bool,
}

impl AgentClient {
    /// Where the agent listens.
    pub closed spec fn path(&self) -> Seq<char> {
        self.socket_path@
    }

    /// Whether the client holds a connection.
    pub closed spec fn is_connected(&self) -> bool {
        self.connected
    }

    pub fn new(socket_path: String) -> (r: Self)
        ensures
            r.path() == socket_path@,
            !r.is_connected(),
    {
        AgentClient { socket_path, connected: false }
    }

    pub fn socket_path(&self) -> (r: &str)
        ensures
            r@ == self.path(),
    {
        self.socket_path.as_str()
    }

    /// Whether the client holds a connection.
    pub fn enabled(&self) -> (r: bool)
        ensures
            r == self.is_connected(),
    {
        self.connected
    }

    /// Takes the outcome of connecting, which is tried only without a connection.
    pub fn connect_or_reuse(&mut self, attempt: Result<(), AgentError>) -> (r: Result<
        (),
        AgentError,
    >)
        ensures
            final(self).path() == old(self).path(),
            old(self).is_connected() ==> r is Ok && final(self).is_connected(),
            !old(self).is_connected() ==> r == attempt && final(self).is_connected() == (attempt
                is Ok),
    {
        if self.connected {
            return Ok(());
        }
        match attempt {
            Ok(done) => {
                self.connected = true;
                Ok(done)
            },
            Err(e) => Err(e),
        }
    }

    /// What the answer to a question for the version says. Any version response
    /// counts as this version.
    pub fn version_reply(&self, reply: Result<ControlMessage, AgentError>) -> (r: Result<
        &'static str,
        AgentError,
    >)
        ensures
            match reply {
                Ok(ControlMessage::VersionResponse { .. }) => r matches Ok(v) && v@ == VERSION@,
                Ok(_) => r matches Err(e) && e.is_io(
                    IoKind::Other,
                    "unexpected response from agent"@,
                ),
                Err(e) => r == Err::<&'static str, AgentError>(e),
            },
    {
        match reply {
            Ok(ControlMessage::VersionResponse { version: _ }) => Ok(VERSION),
            Ok(_) => Err(io_error(IoKind::Other, "unexpected response from agent")),
            Err(e) => Err(e),
        }
    }

    /// Goes on with a start only if the agent's version is this one.
    pub fn check_version(&mut self, version: &str) -> (r: Result<(), AgentError>)
        ensures
            final(self).path() == old(self).path(),
            r is Ok <==> version@ == VERSION@,
            match r {
                Ok(_) => final(self).is_connected() == old(self).is_connected(),
                Err(e) => !final(self).is_connected() && e.is_io(
                    IoKind::Other,
                    "version mismatch: agent version "@ + version@ + " != client version "@
                        + VERSION@,
                ),
            },
    {
        if !same_text(version, VERSION) {
            self.connected = false;
            let text: String = "version mismatch: agent version ".to_owned().concat(version).concat(
                " != client version ",
            ).concat(VERSION);
            return Err(AgentError::Io(IoKind::Other, text));
        }
        Ok(())
    }

    /// The message that asks an agent to start.
    pub fn start_message(
        data_size: usize,
        log_filter: String,
        timestamp_type: TimestampType,
        options: Vec<(String, Value)>,
    ) -> (r: ControlMessage)
        ensures
            r@ == start_request(
                data_size,
                log_filter@,
                timestamp_type,
                options@.map_values(|p: (String, Value)| (p.0@, p.1@)),
            ),
    {
        ControlMessage::Start {
            buffer_size: data_size as u64,
            args: Args { tracing: Some(TracingArgs { log_filter, timestamp_type }), options },
        }
    }

    /// Takes the outcome of sending the request to start and of waiting for its
    /// answer: the connection is kept only if the agent acknowledged.
    pub fn start_reply(&mut self, reply: Result<ControlMessage, AgentError>) -> (r: Result<
        (),
        AgentError,
    >)
        ensures
            final(self).path() == old(self).path(),
            final(self).is_connected() == (old(self).is_connected() && r is Ok),
            start_answered(reply, r),
    {
        match reply {
            Ok(ControlMessage::Ack) => Ok(()),
            Ok(ControlMessage::Nack { error }) => {
                self.connected = false;
                Err(
                    AgentError::Io(
                        IoKind::Other,
                        "agent rejected start: ".to_owned().concat(error.as_str()),
                    ),
                )
            },
            Ok(_) => {
                self.connected = false;
                Err(io_error(IoKind::Other, "unexpected response from agent"))
            },
            Err(e) => {
                self.connected = false;
                Err(e)
            },
        }
    }

    /// The first move of a start: a client without a connection connects.
    pub fn start_with_options(&self) -> (r: StartMove)
        ensures
            r == (if self.is_connected() {
                StartMove::AskVersion
            } else {
                StartMove::Connect
            }),
    {
        if self.connected {
            StartMove::AskVersion
        } else {
            StartMove::Connect
        }
    }

    /// Goes on with a start: the version is asked for before the start is, which
    /// is asked for only after a version response. A start that is not
    /// acknowledged ends the connection; a failed question for the version does
    /// not.
    pub fn continue_start(&mut self, report: StartReport) -> (r: StartMove)
        requires
            report is Connected <==> !old(self).is_connected(),
        ensures
            final(self).path() == old(self).path(),
            match report {
                StartReport::Connected(Ok(_)) => r is AskVersion && final(self).is_connected(),
                StartReport::Connected(Err(e)) => {
                    &&& r == StartMove::Finished(Err(e))
                    &&& !final(self).is_connected()
                },
                StartReport::Version(Ok(ControlMessage::VersionResponse { .. })) => {
                    &&& r is AskStart
                    &&& final(self).is_connected()
                },
                StartReport::Version(Ok(_)) => {
                    &&& r matches StartMove::Finished(Err(e)) && e.is_io(
                        IoKind::Other,
                        "unexpected response from agent"@,
                    )
                    &&& final(self).is_connected()
                },
                StartReport::Version(Err(e)) => {
                    &&& r == StartMove::Finished(Err(e))
                    &&& final(self).is_connected()
                },
                StartReport::Started(Ok(ControlMessage::Ack)) => {
                    &&& r matches StartMove::Finished(Ok(_))
                    &&& final(self).is_connected()
                },
                StartReport::Started(Ok(ControlMessage::Nack { error })) => {
                    &&& r matches StartMove::Finished(Err(e)) && e.is_io(
                        IoKind::Other,
                        "agent rejected start: "@ + error@,
                    )
                    &&& !final(self).is_connected()
                },
                StartReport::Started(Ok(_)) => {
                    &&& r matches StartMove::Finished(Err(e)) && e.is_io(
                        IoKind::Other,
                        "unexpected response from agent"@,
                    )
                    &&& !final(self).is_connected()
                },
                StartReport::Started(Err(e)) => {
                    &&& r == StartMove::Finished(Err(e))
                    &&& !final(self).is_connected()
                },
            },
    {
        match report {
            StartReport::Connected(attempt) => match self.connect_or_reuse(attempt) {
                Ok(_) => StartMove::AskVersion,
                Err(e) => StartMove::Finished(Err(e)),
            },
            StartReport::Version(reply) => match self.version_reply(reply) {
                Ok(version) => match self.check_version(version) {
                    Ok(_) => StartMove::AskStart,
                    Err(e) => StartMove::Finished(Err(e)),
                },
                Err(e) => StartMove::Finished(Err(e)),
            },
            StartReport::Started(reply) => StartMove::Finished(self.start_reply(reply)),
        }
    }

    /// Takes the outcome of sending the request to stop. Whatever is then
    /// answered, the connection is given up; it is kept only if the request could
    /// not be sent.
    pub fn stop(&mut self, sent: Sent) -> (r: Result<(), AgentError>)
        ensures
            final(self).path() == old(self).path(),
            !old(self).is_connected() ==> r is Ok && !final(self).is_connected(),
            old(self).is_connected() ==> {
                &&& final(self).is_connected() == (r is Err)
                &&& match sent {
                    Sent::Sent => r is Ok,
                    Sent::BrokenPipe => r is Ok,
                    Sent::WouldBlock => r matches Err(e) && e.is_io(
                        IoKind::WouldBlock,
                        "stop message would block"@,
                    ),
                    Sent::Failed(e) => r == Err::<(), AgentError>(e),
                }
            },
    {
        if !self.connected {
            return Ok(());
        }
        match sent {
            Sent::Sent => {
                self.connected = false;
                Ok(())
            },
            Sent::BrokenPipe => {
                self.connected = false;
                Ok(())
            },
            Sent::WouldBlock => Err(io_error(IoKind::WouldBlock, "stop message would block")),
            Sent::Failed(e) => Err(e),
        }
    }

    /// Takes the outcome of sending a sign of life and, where it was sent, its
    /// answer. `broken_pipe` is the error for a connection that is gone.
    pub fn send_continue(
        &self,
        sent: Sent,
        broken_pipe: AgentError,
        reply: Result<ControlMessage, AgentError>,
    ) -> (r: Result<(), AgentError>)
        ensures
            !self.is_connected() ==> r is Ok,
            self.is_connected() ==> match sent {
                Sent::Sent => continue_answered(reply, r),
                Sent::WouldBlock => r matches Err(e) && e.is_io(
                    IoKind::WouldBlock,
                    "continue message would block"@,
                ),
                Sent::BrokenPipe => r == Err::<(), AgentError>(broken_pipe),
                Sent::Failed(e) => r == Err::<(), AgentError>(e),
            },
    {
        if !self.connected {
            return Ok(());
        }
        match sent {
            Sent::Sent => match reply {
                Ok(ControlMessage::Ack) => Ok(()),
                Ok(ControlMessage::Nack { error }) => Err(AgentError::Io(IoKind::Other, error)),
                Ok(_) => Err(io_error(IoKind::Other, "unexpected response from agent")),
                Err(e) => Err(e),
            },
            Sent::WouldBlock => Err(io_error(IoKind::WouldBlock, "continue message would block")),
            Sent::BrokenPipe => Err(broken_pipe),
            Sent::Failed(e) => Err(e),
        }
    }

    /// A sign of life, whose outcome is `continued`, needs a connection.
    pub fn keepalive(&self, continued: Result<(), AgentError>) -> (r: Result<(), AgentError>)
        ensures
            self.is_connected() ==> r == continued,
            !self.is_connected() ==> r == Err::<(), AgentError>(AgentError::NotEnabled),
    {
        if self.connected {
            continued
        } else {
            Err(AgentError::NotEnabled)
        }
    }
}

/// The request to start.
pub open spec fn start_request(
    data_size: usize,
    log_filter: Seq<char>,
    timestamp_type: TimestampType,
    options: Seq<(Seq<char>, ValueView)>,
) -> ControlMessageView {
    ControlMessageView::Start {
        buffer_size: data_size as u64,
        args: ArgsView { tracing: Some(TracingArgsView { log_filter, timestamp_type }), options },
    }
}

/// What an answer to the request to start means.
pub open spec fn start_answered(
    reply: Result<ControlMessage, AgentError>,
    r: Result<(), AgentError>,
) -> bool {
    match reply {
        Ok(ControlMessage::Ack) => r is Ok,
        Ok(ControlMessage::Nack { error }) => r matches Err(e) && e.is_io(
            IoKind::Other,
            "agent rejected start: "@ + error@,
        ),
        Ok(_) => r matches Err(e) && e.is_io(IoKind::Other, "unexpected response from agent"@),
        Err(e) => r == Err::<(), AgentError>(e),
    }
}

/// What an answer to a sign of life means.
pub open spec fn continue_answered(
    reply: Result<ControlMessage, AgentError>,
    r: Result<(), AgentError>,
) -> bool {
    match reply {
        Ok(ControlMessage::Ack) => r is Ok,
        Ok(ControlMessage::Nack { error }) => r matches Err(e) && e.is_io(IoKind::Other, error@),
        Ok(_) => r matches Err(e) && e.is_io(IoKind::Other, "unexpected response from agent"@),
        Err(e) => r == Err::<(), AgentError>(e),
    }
}

} // verus!
