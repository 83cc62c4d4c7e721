//! Error types.

use vstd::prelude::*;
use vstd::string::*;

use crate::addr::IpAddr;
use crate::text::{push_numeral, push_signed_decimal};
use crate::time::Duration;

verus! {

/// Everything that can go wrong when talking to the sequencer.
#[derive(Debug)]
pub enum Error {
    /// The configuration could not be used to build a client.
    Config(String),
    /// Resolving the sequencer hostname failed.
    Dns {
        /// Hostname that failed to resolve.
        host: String,
        /// What the resolver said.
        source: String,
    },
    /// The pool has no endpoint with a live connection.
    ///
    /// Either the client has not finished warming up yet or every endpoint is
    /// currently down.
    NotReady {
        /// How many endpoints the pool knows about.
        known: usize,
    },
    /// A connection-level failure while sending to one specific endpoint.
    Transport {
        /// Endpoint the failure happened on.
        ip: IpAddr,
        /// Human-readable cause.
        message: String,
    },
    /// The sequencer answered, but not with 200.
    HttpStatus {
        /// Endpoint that answered.
        ip: IpAddr,
        /// HTTP status code.
        status: u16,
        /// Response body, truncated to a sane length.
        body: String,
    },
    /// The response was not a well-formed JSON-RPC envelope.
    BadResponse {
        /// Endpoint that answered.
        ip: IpAddr,
        /// What went wrong while parsing.
        message: String,
    },
    /// The error carries no verdict on the transaction that this client can
    /// read.
    ///
    /// It says nothing about what the sequencer did. These are retryable, since
    /// resending cannot include the transaction twice. The exceptions are the
    /// codes that describe the request itself, which will be refused the same
    /// way until the request changes.
    Rpc {
        /// JSON-RPC error code.
        code: i64,
        /// JSON-RPC error message.
        message: String,
    },
    /// The sequencer explicitly rejected the transaction.
    ///
    /// This is a definitive answer, not a retryable failure: every endpoint
    /// fronts the same sequencer, so the other racers would say the same thing.
    Rejected {
        /// JSON-RPC error code.
        code: i64,
        /// JSON-RPC error message, e.g. `nonce too low`.
        message: String,
    },
    /// The request did not complete within the configured budget.
    Timeout(Duration),
    /// Every endpoint in the fan-out failed at the transport level.
    AllFailed {
        /// How many endpoints were tried.
        attempts: usize,
        /// The last transport error observed.
        last: Box<Error>,
    },
    /// The raw transaction bytes were not usable.
    InvalidRawTx(String),
}

/// What an [`Error`] says, with every text as its characters.
pub enum Fault {
    Config(Seq<char>),
    Dns { host: Seq<char>, source: Seq<char> },
    NotReady { known: nat },
    Transport { ip: IpAddr, message: Seq<char> },
    HttpStatus { ip: IpAddr, status: u16, body: Seq<char> },
    BadResponse { ip: IpAddr, message: Seq<char> },
    Rpc { code: int, message: Seq<char> },
    Rejected { code: int, message: Seq<char> },
    Timeout(Duration),
    AllFailed { attempts: nat, last: Box<Fault> },
    InvalidRawTx(Seq<char>),
}

/// The fault that an error reports.
pub open spec fn fault_of(e: Error) -> Fault
    decreases e,
{
    match e {
        Error::Config(m) => Fault::Config(m@),
        Error::Dns { host, source } => Fault::Dns { host: host@, source: source@ },
        Error::NotReady { known } => Fault::NotReady { known: known as nat },
        Error::Transport { ip, message } => Fault::Transport { ip, message: message@ },
        Error::HttpStatus { ip, status, body } => Fault::HttpStatus { ip, status, body: body@ },
        Error::BadResponse { ip, message } => Fault::BadResponse { ip, message: message@ },
        Error::Rpc { code, message } => Fault::Rpc { code: code as int, message: message@ },
        Error::Rejected { code, message } => Fault::Rejected { code: code as int, message: message@ },
        Error::Timeout(d) => Fault::Timeout(d),
        Error::AllFailed { attempts, last } => Fault::AllFailed {
            attempts: attempts as nat,
            last: Box::new(fault_of(*last)),
        },
        Error::InvalidRawTx(m) => Fault::InvalidRawTx(m@),
    }
}

impl View for Error {
    type V = Fault;

    open spec fn view(&self) -> Fault {
        fault_of(*self)
    }
}

/// A JSON-RPC code that describes the request itself: unparseable, malformed,
/// an unknown or unsupported method, bad parameters, a missing resource, or a
/// protocol version the server does not speak.
pub open spec fn is_request_fault(code: int) -> bool {
    ||| code == -32700
    ||| code == -32600
    ||| code == -32601
    ||| code == -32602
    ||| code == -32001
    ||| code == -32004
    ||| code == -32006
}

impl Fault {
    /// Whether trying again could plausibly succeed.
    pub open spec fn retryable(self) -> bool {
        match self {
            Fault::Transport { .. } => true,
            Fault::HttpStatus { .. } => true,
            Fault::BadResponse { .. } => true,
            Fault::NotReady { .. } => true,
            Fault::Timeout(_) => true,
            Fault::AllFailed { .. } => true,
            Fault::Rpc { code, .. } => !is_request_fault(code),
            Fault::Config(_) => false,
            Fault::Dns { .. } => false,
            Fault::Rejected { .. } => false,
            Fault::InvalidRawTx(_) => false,
        }
    }

    /// The message people read.
    pub open spec fn text(self) -> Seq<char>
        decreases self,
    {
        match self {
            Fault::Config(m) => "invalid configuration: "@ + m,
            Fault::Dns { host, source } => "DNS resolution for `"@ + host + "` failed: "@ + source,
            Fault::NotReady { known } => "no warm connection to the sequencer ("@ + crate::text::decimal(known)
                + " endpoint(s) known, none ready)"@,
            Fault::Transport { ip, message } => "transport failure talking to "@ + ip.text() + ": "@
                + message,
            Fault::HttpStatus { ip, status, body } => "sequencer at "@ + ip.text()
                + " returned HTTP "@ + crate::text::decimal(status as nat) + ": "@ + body,
            Fault::BadResponse { ip, message } => "malformed JSON-RPC response from "@ + ip.text()
                + ": "@ + message,
            Fault::Rpc { code, message } => "sequencer RPC fault: ["@ + crate::text::signed_decimal(code) + "] "@
                + message,
            Fault::Rejected { code, message } => "sequencer rejected the transaction: ["@
                + crate::text::signed_decimal(code) + "] "@ + message,
            Fault::Timeout(d) => "request timed out after "@ + d.text(),
            Fault::AllFailed { attempts, last } => "all "@ + crate::text::decimal(attempts)
                + " endpoint(s) failed; last error: "@ + last.text(),
            Fault::InvalidRawTx(m) => "invalid raw transaction: "@ + m,
        }
    }
}

impl Error {
    /// Whether retrying on a different connection could plausibly succeed.
    ///
    /// [`Error::Rejected`] is *not* retryable: all endpoints front the same
    /// sequencer, so a rejection is final.
    #[must_use]
    pub fn is_retryable(&self) -> (b: bool)
        ensures
            b == self@.retryable(),
    {
        match self {
            Error::Transport { .. }
            | Error::HttpStatus { .. }
            | Error::BadResponse { .. }
            | Error::NotReady { .. }
            | Error::Timeout(_)
            | Error::AllFailed { .. } => true,
            // A fault in the call says nothing about the transaction, so the
            // submission is worth repeating, unless the fault is in the request
            // itself, which will be refused the same way until it changes.
            Error::Rpc { code, .. } => !matches!(
                *code,
                -32700 | -32600 | -32601 | -32602 | -32001 | -32004 | -32006
            ),
            Error::Config(_)
            | Error::Dns { .. }
            | Error::Rejected { .. }
            | Error::InvalidRawTx(_) => false,
        }
    }

    /// The message people read.
    #[must_use]
    pub fn message(&self) -> (s: String)
        ensures
            s@ == self@.text(),
        decreases self,
    {
        let mut s = String::new();
        match self {
            Error::Config(m) => {
                s.append("invalid configuration: ");
                s.append(m);
            },
            Error::Dns { host, source } => {
                s.append("DNS resolution for `");
                s.append(host);
                s.append("` failed: ");
                s.append(source);
            },
            Error::NotReady { known } => {
                s.append("no warm connection to the sequencer (");
                push_numeral(&mut s, *known as u64, 10);
                s.append(" endpoint(s) known, none ready)");
            },
            Error::Transport { ip, message } => {
                s.append("transport failure talking to ");
                ip.push_text(&mut s);
                s.append(": ");
                s.append(message);
            },
            Error::HttpStatus { ip, status, body } => {
                s.append("sequencer at ");
                ip.push_text(&mut s);
                s.append(" returned HTTP ");
                push_numeral(&mut s, *status as u64, 10);
                s.append(": ");
                s.append(body);
            },
            Error::BadResponse { ip, message } => {
                s.append("malformed JSON-RPC response from ");
                ip.push_text(&mut s);
                s.append(": ");
                s.append(message);
            },
            Error::Rpc { code, message } => {
                s.append("sequencer RPC fault: [");
                push_signed_decimal(&mut s, *code);
                s.append("] ");
                s.append(message);
            },
            Error::Rejected { code, message } => {
                s.append("sequencer rejected the transaction: [");
                push_signed_decimal(&mut s, *code);
                s.append("] ");
                s.append(message);
            },
            Error::Timeout(d) => {
                s.append("request timed out after ");
                s.append(&d.to_text());
            },
            Error::AllFailed { attempts, last } => {
                s.append("all ");
                push_numeral(&mut s, *attempts as u64, 10);
                s.append(" endpoint(s) failed; last error: ");
                s.append(&last.message());
            },
            Error::InvalidRawTx(m) => {
                s.append("invalid raw transaction: ");
                s.append(m);
            },
        }
        assert(s@ =~= self@.text());
        s
    }
}

/// Resending may help unless the settings, the lookup or the transaction itself are at
/// fault, the sequencer refused the transaction, or the request is one it will not take.
pub proof fn what_may_be_retried(fault: Fault)
    ensures
        !fault.retryable() <==> {
            ||| fault is Config
            ||| fault is Dns
            ||| fault is InvalidRawTx
            ||| fault is Rejected
            ||| (fault matches Fault::Rpc { code, .. } && (code == -32700 || (-32602 <= code
                <= -32600) || code == -32001 || code == -32004 || code == -32006))
        },
{
}

/// Every fault reads as what it is about.
pub proof fn every_fault_names_what_it_is_about(fault: Fault)
    ensures
        match fault {
            Fault::Config(m) => fault.text() == "invalid configuration: "@ + m,
            Fault::Dns { host, source } => fault.text() == "DNS resolution for `"@ + host
                + "` failed: "@ + source,
            Fault::NotReady { known } => fault.text() == "no warm connection to the sequencer ("@
                + crate::text::numeral(known, 10) + " endpoint(s) known, none ready)"@,
            Fault::Transport { ip, message } => fault.text() == "transport failure talking to "@
                + ip.text() + ": "@ + message,
            Fault::HttpStatus { ip, status, body } => fault.text() == "sequencer at "@ + ip.text()
                + " returned HTTP "@ + crate::text::numeral(status as nat, 10) + ": "@ + body,
            Fault::BadResponse { ip, message } => fault.text()
                == "malformed JSON-RPC response from "@ + ip.text() + ": "@ + message,
            Fault::Rpc { code, message } => fault.text() == "sequencer RPC fault: ["@
                + crate::text::signed_decimal(code) + "] "@ + message,
            Fault::Rejected { code, message } => fault.text()
                == "sequencer rejected the transaction: ["@ + crate::text::signed_decimal(code)
                + "] "@ + message,
            Fault::Timeout(d) => fault.text() == "request timed out after "@ + d.text(),
            Fault::AllFailed { attempts, last } => fault.text() == "all "@ + crate::text::numeral(
                attempts,
                10,
            ) + " endpoint(s) failed; last error: "@ + last.text(),
            Fault::InvalidRawTx(m) => fault.text() == "invalid raw transaction: "@ + m,
        },
{
}

/// A fault holds all that its error does.
pub proof fn a_fault_holds_what_its_error_does(e: Error)
    ensures
        match e {
            Error::Config(m) => e@ == Fault::Config(m@),
            Error::Dns { host, source } => e@ == (Fault::Dns { host: host@, source: source@ }),
            Error::NotReady { known } => e@ == (Fault::NotReady { known: known as nat }),
            Error::Transport { ip, message } => e@ == (Fault::Transport { ip, message: message@ }),
            Error::HttpStatus { ip, status, body } => e@ == (Fault::HttpStatus {
                ip,
                status,
                body: body@,
            }),
            Error::BadResponse { ip, message } => e@ == (Fault::BadResponse {
                ip,
                message: message@,
            }),
            Error::Rpc { code, message } => e@ == (Fault::Rpc {
                code: code as int,
                message: message@,
            }),
            Error::Rejected { code, message } => e@ == (Fault::Rejected {
                code: code as int,
                message: message@,
            }),
            Error::Timeout(d) => e@ == Fault::Timeout(d),
            Error::AllFailed { attempts, last } => e@ == (Fault::AllFailed {
                attempts: attempts as nat,
                last: Box::new(last@),
            }),
            Error::InvalidRawTx(m) => e@ == Fault::InvalidRawTx(m@),
        },
{
}

} // verus!
