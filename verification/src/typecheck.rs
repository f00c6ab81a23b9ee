//! The client side of the type-checker bridge: the requests it frames, the
//! state it keeps between them, and what it makes of the answers.
//!
//! A request is one line of JSON. Reading and writing the line is left to
//! the caller; this module decides what is written and what follows.

use vstd::prelude::*;
use vstd::string::StringSliceAdditionalSpecFns;

verus! {

/// The decimal digits of `n` in ASCII, most significant first.
pub open spec fn decimal(n: nat) -> Seq<u8>
    decreases n,
{
    if n < 10 {
        seq![(0x30 + n) as u8]
    } else {
        decimal(n / 10).push((0x30 + n % 10) as u8)
    }
}

/// Appends the decimal digits of `n` to `out`.
pub fn push_decimal(out: &mut Vec<u8>, n: u128)
    ensures
        final(out)@ == old(out)@ + decimal(n as nat),
    decreases n,
{
    if n >= 10 {
        push_decimal(out, n / 10);
    }
    let digit: u8 = (n % 10) as u8;
    out.push(0x30 + digit);
    proof {
        if n >= 10 {
            assert(out@ =~= old(out)@ + decimal(n as nat));
        } else {
            assert(out@ =~= old(out)@ + decimal(n as nat));
        }
    }
}

/// Appends the bytes of `s` to `out`.
fn push_text(out: &mut Vec<u8>, s: &str)
    ensures
        final(out)@ == old(out)@ + s.spec_bytes(),
{
    out.extend_from_slice(s.as_bytes());
}

/// The bytes of one request line: sequence number, the time the previous
/// request took in nanoseconds, the command, and the arguments where there
/// are any, as JSON already.
pub open spec fn request_frame(
    seq: nat,
    previous_duration: nat,
    command: Seq<u8>,
    args: Option<Seq<u8>>,
) -> Seq<u8> {
    "{\"seq\":".spec_bytes() + decimal(seq) + ",\"type\":\"request\",\"previousDuration\":".spec_bytes()
        + decimal(previous_duration) + ",\"command\":\"".spec_bytes() + command + "\"".spec_bytes()
        + (match args {
        Some(a) => ",\"arguments\":".spec_bytes() + a,
        None => Seq::empty(),
    }) + "}\n".spec_bytes()
}

/// A response that carries nothing.
#[derive(Clone, Copy, Debug, PartialEq, Eq, Structural)]
pub struct EmptyResponse {}

/// A response that carries one truth value.
#[derive(Clone, Copy, Debug, PartialEq, Eq, Structural)]
pub struct BoolResponse {
    pub result: bool,
}

/// Why an exchange with the server failed.
#[derive(Clone, Debug, PartialEq, Eq)]
pub enum ProtocolError {
    /// Writing the request or reading the answer failed.
    Io(String),
    /// The arguments or the answer were no valid JSON of the expected shape.
    Json(String),
}

/// Why a child process cannot serve as the server.
#[derive(Clone, Copy, Debug, PartialEq, Eq, Structural)]
pub enum FromChildError {
    MissingStdoutStream,
    MissingStdinStream,
}

impl FromChildError {
    pub open spec fn message_text(self) -> Seq<char> {
        match self {
            FromChildError::MissingStdoutStream => "child stdout must be piped"@,
            FromChildError::MissingStdinStream => "child stdin must be piped"@,
        }
    }

    /// The text shown for the error.
    pub fn message(&self) -> (s: String)
        ensures
            s@ == self.message_text(),
    {
        match self {
            FromChildError::MissingStdoutStream => "child stdout must be piped".to_owned(),
            FromChildError::MissingStdinStream => "child stdin must be piped".to_owned(),
        }
    }
}

/// Waits for the server to acknowledge a command: the answer is dropped, an
/// error is handed on.
pub fn wait_done(response: Result<EmptyResponse, ProtocolError>) -> (r: Result<(), ProtocolError>)
    ensures
        match response {
            Ok(_) => r is Ok,
            Err(e) => r == Err::<(), ProtocolError>(e),
        },
{
    match response {
        Ok(_) => Ok(()),
        Err(e) => Err(e),
    }
}

/// The truth value of an answer, or the error that came in its place.
pub fn bool_result(response: Result<BoolResponse, ProtocolError>) -> (r: Result<
    bool,
    ProtocolError,
>)
    ensures
        match response {
            Ok(b) => r == Ok::<bool, ProtocolError>(b.result),
            Err(e) => r == Err::<bool, ProtocolError>(e),
        },
{
    match response {
        Ok(b) => Ok(b.result),
        Err(e) => Err(e),
    }
}

/// What to do with the server process once the exit request was tried.
#[derive(Clone, Copy, Debug, PartialEq, Eq, Structural)]
pub enum ExitAction {
    /// The request went out: wait for the process to end.
    Wait,
    /// The request could not be written: kill the process.
    Kill,
}

/// The state that the client keeps between requests.
#[derive(Clone, Copy, Debug, PartialEq, Eq, Structural)]
pub struct TSServerClient {
    seq: usize,
    running: bool,
    previous_duration: u128,
}

impl TSServerClient {
    /// Number of requests framed so far.
    pub closed spec fn seq(&self) -> nat {
        self.seq as nat
    }

    /// Whether the server has not been told to exit yet.
    pub closed spec fn running(&self) -> bool {
        self.running
    }

    /// Nanoseconds the previous exchange took.
    pub closed spec fn previous_duration(&self) -> nat {
        self.previous_duration as nat
    }

    /// The state of a client whose server was just started.
    pub closed spec fn fresh() -> TSServerClient {
        TSServerClient { seq: 0, running: true, previous_duration: 0 }
    }

    /// The state `self` with one more request framed.
    pub closed spec fn bumped(self) -> TSServerClient {
        TSServerClient { seq: (self.seq + 1) as usize, ..self }
    }

    /// The state `self` with the server told to exit.
    pub closed spec fn stopped(self) -> TSServerClient {
        TSServerClient { running: false, ..self }
    }

    /// The state `self` with `nanos` as the time of the previous exchange.
    pub closed spec fn timed(self, nanos: u128) -> TSServerClient {
        TSServerClient { previous_duration: nanos, ..self }
    }

    /// What the state-changing names above do to each part of the state.
    pub proof fn lemma_parts(self, nanos: u128)
        ensures
            Self::fresh().seq() == 0 && Self::fresh().running() && Self::fresh().previous_duration()
                == 0,
            self.seq() < usize::MAX ==> self.bumped().seq() == self.seq() + 1,
            self.bumped().running() == self.running(),
            self.bumped().previous_duration() == self.previous_duration(),
            self.stopped().seq() == self.seq() && !self.stopped().running()
                && self.stopped().previous_duration() == self.previous_duration(),
            self.timed(nanos).seq() == self.seq() && self.timed(nanos).running() == self.running()
                && self.timed(nanos).previous_duration() == nanos,
    {
    }

    /// Sets a client up for a child process. Both its input and its output
    /// must be piped; a missing input is reported first.
    pub fn from_child_streams(has_stdin: bool, has_stdout: bool) -> (r: Result<
        TSServerClient,
        FromChildError,
    >)
        ensures
            r == (if !has_stdin {
                Err::<TSServerClient, FromChildError>(FromChildError::MissingStdinStream)
            } else if !has_stdout {
                Err::<TSServerClient, FromChildError>(FromChildError::MissingStdoutStream)
            } else {
                Ok::<TSServerClient, FromChildError>(Self::fresh())
            }),
    {
        if !has_stdin {
            Err(FromChildError::MissingStdinStream)
        } else if !has_stdout {
            Err(FromChildError::MissingStdoutStream)
        } else {
            Ok(TSServerClient { seq: 0, running: true, previous_duration: 0 })
        }
    }

    /// Number of requests framed so far.
    pub fn sequence(&self) -> (n: usize)
        ensures
            n == self.seq(),
    {
        self.seq
    }

    /// Whether the server has not been told to exit yet.
    pub fn is_running(&self) -> (b: bool)
        ensures
            b == self.running(),
    {
        self.running
    }

    /// Frames the next request: the sequence number goes up by one, and the
    /// line to write is returned.
    pub fn send_command(&mut self, command: &str, args: Option<&str>) -> (frame: Vec<u8>)
        requires
            old(self).seq() < usize::MAX,
        ensures
            *final(self) == old(self).bumped(),
            frame@ == request_frame(
                old(self).seq() + 1,
                old(self).previous_duration(),
                command.spec_bytes(),
                match args {
                    Some(a) => Some(a.spec_bytes()),
                    None => None,
                },
            ),
    {
        self.seq = self.seq + 1;
        let mut out: Vec<u8> = Vec::new();
        push_text(&mut out, "{\"seq\":");
        push_decimal(&mut out, self.seq as u128);
        push_text(&mut out, ",\"type\":\"request\",\"previousDuration\":");
        push_decimal(&mut out, self.previous_duration);
        push_text(&mut out, ",\"command\":\"");
        push_text(&mut out, command);
        push_text(&mut out, "\"");
        let ghost head = out@;
        if let Some(a) = args {
            push_text(&mut out, ",\"arguments\":");
            push_text(&mut out, a);
        }
        proof {
            let tail: Seq<u8> = match args {
                Some(a) => ",\"arguments\":".spec_bytes() + a.spec_bytes(),
                None => Seq::empty(),
            };
            assert(out@ =~= head + tail);
        }
        push_text(&mut out, "}\n");
        out
    }

    /// Records how long the exchange that just ended took.
    pub fn update_duration(&mut self, elapsed_nanos: u128)
        ensures
            *final(self) == old(self).timed(elapsed_nanos),
    {
        self.previous_duration = elapsed_nanos;
    }

    /// The `status` request.
    pub fn status(&mut self) -> (frame: Vec<u8>)
        requires
            old(self).seq() < usize::MAX,
        ensures
            *final(self) == old(self).bumped(),
            frame@ == request_frame(
                old(self).seq() + 1,
                old(self).previous_duration(),
                "status".spec_bytes(),
                None,
            ),
    {
        self.send_command("status", None)
    }

    /// The `open` request for the file described by `args`.
    pub fn open(&mut self, args: &str) -> (frame: Vec<u8>)
        requires
            old(self).seq() < usize::MAX,
        ensures
            *final(self) == old(self).bumped(),
            frame@ == request_frame(
                old(self).seq() + 1,
                old(self).previous_duration(),
                "open".spec_bytes(),
                Some(args.spec_bytes()),
            ),
    {
        self.send_command("open", Some(args))
    }

    /// The `close` request for the file described by `args`.
    pub fn close(&mut self, args: &str) -> (frame: Vec<u8>)
        requires
            old(self).seq() < usize::MAX,
        ensures
            *final(self) == old(self).bumped(),
            frame@ == request_frame(
                old(self).seq() + 1,
                old(self).previous_duration(),
                "close".spec_bytes(),
                Some(args.spec_bytes()),
            ),
    {
        self.send_command("close", Some(args))
    }

    /// The `getNode` request for the node described by `args`.
    pub fn get_node(&mut self, args: &str) -> (frame: Vec<u8>)
        requires
            old(self).seq() < usize::MAX,
        ensures
            *final(self) == old(self).bumped(),
            frame@ == request_frame(
                old(self).seq() + 1,
                old(self).previous_duration(),
                "getNode".spec_bytes(),
                Some(args.spec_bytes()),
            ),
    {
        self.send_command("getNode", Some(args))
    }

    /// The request that asks whether the node is an array of promises.
    pub fn is_promise_array(&mut self, args: &str) -> (frame: Vec<u8>)
        requires
            old(self).seq() < usize::MAX,
        ensures
            *final(self) == old(self).bumped(),
            frame@ == request_frame(
                old(self).seq() + 1,
                old(self).previous_duration(),
                "noFloatingPromises::isPromiseArray".spec_bytes(),
                Some(args.spec_bytes()),
            ),
    {
        self.send_command("noFloatingPromises::isPromiseArray", Some(args))
    }

    /// The request that asks whether the node is like a promise.
    pub fn is_promise_like(&mut self, args: &str) -> (frame: Vec<u8>)
        requires
            old(self).seq() < usize::MAX,
        ensures
            *final(self) == old(self).bumped(),
            frame@ == request_frame(
                old(self).seq() + 1,
                old(self).previous_duration(),
                "noFloatingPromises::isPromiseLike".spec_bytes(),
                Some(args.spec_bytes()),
            ),
    {
        self.send_command("noFloatingPromises::isPromiseLike", Some(args))
    }

    /// The request that asks whether the node is a valid rejection handler.
    pub fn is_valid_rejection_handler(&mut self, args: &str) -> (frame: Vec<u8>)
        requires
            old(self).seq() < usize::MAX,
        ensures
            *final(self) == old(self).bumped(),
            frame@ == request_frame(
                old(self).seq() + 1,
                old(self).previous_duration(),
                "noFloatingPromises::isValidRejectionHandler".spec_bytes(),
                Some(args.spec_bytes()),
            ),
    {
        self.send_command("noFloatingPromises::isValidRejectionHandler", Some(args))
    }

    /// Starts the exit: a server that was told to exit already gets nothing
    /// more, a running one gets the `exit` request.
    pub fn exit(&mut self) -> (frame: Option<Vec<u8>>)
        requires
            old(self).seq() < usize::MAX,
        ensures
            !old(self).running() ==> frame is None && *final(self) == *old(self),
            old(self).running() ==> *final(self) == old(self).bumped(),
            old(self).running() ==> (frame matches Some(f) && f@ == request_frame(
                old(self).seq() + 1,
                old(self).previous_duration(),
                "exit".spec_bytes(),
                None,
            )),
    {
        if !self.running {
            return None;
        }
        Some(self.send_command("exit", None))
    }

    /// Ends the exit once the request was tried: where it went out the
    /// server counts as stopped and is waited for, else it is to be killed
    /// and still counts as running.
    pub fn exit_sent(&mut self, delivered: bool) -> (action: ExitAction)
        ensures
            delivered ==> action == ExitAction::Wait && *final(self) == old(self).stopped(),
            !delivered ==> action == ExitAction::Kill && *final(self) == *old(self),
    {
        if delivered {
            self.running = false;
            ExitAction::Wait
        } else {
            ExitAction::Kill
        }
    }
}

} // verus!
