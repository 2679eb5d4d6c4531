//! The session: which commands may go out in which order, what each response
//! does to the session, and how control is given back on every path.
//!
//! The session performs no I/O. Each operation decides what goes to the
//! transport next and hands that to the caller, who sends it, reads the
//! response with a [`crate::reader::ResponseReader`] and reports the outcome
//! through [`Session::complete`].

use crate::catalog::{lookup, standard_policy, PrinterCommand, ResponsePolicy};
use crate::catalog::{response_end, response_end_bytes};
use crate::frame::{
    decimal, encode, encode_bytes, frame, push_bytes, push_decimal, text_of, SPACE,
};
use crate::reader::{bytes_end_with, ends_with, outcome_view, ReadError, ReadErrorModel};
use vstd::prelude::*;
use vstd::slice::*;
use vstd::utf8::*;

verus! {

/// How a session ended.
#[derive(Clone, Copy, Debug, PartialEq, Eq, Structural)]
pub enum Outcome {
    Success,
    Failed,
}

/// The states of a session.
#[derive(Clone, Copy, Debug, PartialEq, Eq, Structural)]
pub enum SessionState {
    Disconnected,
    Connected,
    ControlAcquired,
    Idle,
    Transferring,
    Released(Outcome),
}

/// The command whose response the session waits for.
#[derive(Clone, Copy, Debug, PartialEq, Eq, Structural)]
pub enum Awaiting {
    Nothing,
    Acquire,
    Invoke,
    Release,
    Metadata,
    Finalize,
}

/// Why an operation of the session failed.
#[derive(Debug, PartialEq, Eq)]
pub enum SessionError {
    /// The response could not be read.
    Read(ReadError),
    /// The device did not grant control; `reply` is what came back.
    ControlDenied { reply: Result<String, ReadError> },
    /// The byte source ended before the declared size was reached.
    ShortRead,
    /// The operation is not legal in the session's state; nothing was sent
    /// and nothing changed.
    OutOfOrder,
}

/// The mathematical value of a [`SessionError`].
pub enum SessionErrorModel {
    Read(ReadErrorModel),
    ControlDenied { reply: Result<Seq<char>, ReadErrorModel> },
    ShortRead,
    OutOfOrder,
}

impl View for SessionError {
    type V = SessionErrorModel;

    open spec fn view(&self) -> SessionErrorModel {
        match *self {
            SessionError::Read(error) => SessionErrorModel::Read(error@),
            SessionError::ControlDenied { reply } => SessionErrorModel::ControlDenied {
                reply: outcome_view(reply),
            },
            SessionError::ShortRead => SessionErrorModel::ShortRead,
            SessionError::OutOfOrder => SessionErrorModel::OutOfOrder,
        }
    }
}

/// One file transfer in progress.
#[derive(Debug, PartialEq, Eq)]
pub struct TransferHandle {
    declared_size: u64,
    streamed: u64,
    remote_path: String,
}

/// The mathematical value of a [`TransferHandle`].
pub struct TransferModel {
    pub declared_size: nat,
    /// How many bytes of the file went to the transport so far.
    pub streamed: nat,
    pub remote_path: Seq<char>,
}

impl TransferModel {
    /// How many bytes are still to go.
    pub open spec fn remaining(self) -> nat {
        if self.streamed <= self.declared_size {
            (self.declared_size - self.streamed) as nat
        } else {
            0
        }
    }

    /// How many bytes of a chunk of `length` bytes go to the transport.
    pub open spec fn share(self, length: nat) -> nat {
        if length <= self.remaining() {
            length
        } else {
            self.remaining()
        }
    }
}

impl View for TransferHandle {
    type V = TransferModel;

    closed spec fn view(&self) -> TransferModel {
        TransferModel {
            declared_size: self.declared_size as nat,
            streamed: self.streamed as nat,
            remote_path: self.remote_path@,
        }
    }
}

impl TransferHandle {
    pub fn declared_size(&self) -> (size: u64)
        ensures
            size == self@.declared_size,
    {
        self.declared_size
    }

    pub fn streamed(&self) -> (count: u64)
        ensures
            count == self@.streamed,
    {
        self.streamed
    }

    pub fn remote_path(&self) -> (path: &str)
        ensures
            path@ == self@.remote_path,
    {
        self.remote_path.as_str()
    }
}

/// What goes to the transport.
pub enum Wire {
    /// A command frame.
    Frame(Seq<u8>),
    /// File bytes, as they are.
    Raw(Seq<u8>),
}

/// The mathematical value of a [`Session`].
pub struct SessionModel {
    pub state: SessionState,
    pub awaiting: Awaiting,
    /// The transfer announced or in progress.
    pub transfer: Option<TransferModel>,
}

/// What one operation does: the session after it, what it puts on the wire,
/// and the error it reports, if any.
pub struct Step {
    pub next: SessionModel,
    pub wire: Option<Wire>,
    pub error: Option<SessionErrorModel>,
}

/// The frame that gives control back.
pub open spec fn release_frame() -> Seq<u8> {
    frame(PrinterCommand::ReleaseControl.spec_code() as nat, None)
}

/// The frame that asks for control under `slot`.
pub open spec fn acquire_frame(slot: Seq<char>) -> Seq<u8> {
    frame(PrinterCommand::GainControl.spec_code() as nat, Some(encode_utf8(slot)))
}

/// The argument that announces a file: its size in decimal, a space, its path.
pub open spec fn transfer_argument(declared_size: nat, remote_path: Seq<char>) -> Seq<u8> {
    decimal(declared_size) + seq![SPACE] + encode_utf8(remote_path)
}

/// The frame that announces a file.
pub open spec fn metadata_frame(declared_size: nat, remote_path: Seq<char>) -> Seq<u8> {
    frame(
        PrinterCommand::SendFile.spec_code() as nat,
        Some(transfer_argument(declared_size, remote_path)),
    )
}

/// The frame that closes a transfer.
pub open spec fn finalize_frame() -> Seq<u8> {
    frame(PrinterCommand::SaveFile.spec_code() as nat, None)
}

/// The frame of an invoked operation.
pub open spec fn invoke_frame(name: PrinterCommand, argument: Option<Seq<char>>) -> Seq<u8> {
    frame(
        name.spec_code() as nat,
        match argument {
            Some(text) => Some(encode_utf8(text)),
            None => None,
        },
    )
}

/// The operations that [`Session::invoke`] sends: all but those that take or
/// give control and those of the transfer handshake, which have operations
/// of their own.
pub open spec fn invocable(name: PrinterCommand) -> bool {
    name != PrinterCommand::GainControl && name != PrinterCommand::ReleaseControl && name
        != PrinterCommand::SendFile && name != PrinterCommand::SaveFile
}

/// Whether a response grants what was asked: it ends with the `ok` line.
pub open spec fn acknowledged(text: Seq<char>) -> bool {
    ends_with(encode_utf8(text), response_end())
}

impl SessionModel {
    /// A session that is not yet connected.
    pub open spec fn initial() -> SessionModel {
        SessionModel { state: SessionState::Disconnected, awaiting: Awaiting::Nothing, transfer: None }
    }

    /// What holds of every session that operations can lead to: which
    /// command can be in flight in which state, and when a transfer is there.
    pub open spec fn wf(self) -> bool {
        match self.state {
            SessionState::Disconnected => self.awaiting == Awaiting::Nothing
                && self.transfer is None,
            SessionState::Connected => (self.awaiting == Awaiting::Nothing || self.awaiting
                == Awaiting::Acquire) && self.transfer is None,
            SessionState::ControlAcquired | SessionState::Idle => {
                &&& self.awaiting != Awaiting::Acquire
                &&& self.awaiting != Awaiting::Finalize
                &&& self.transfer is Some <==> self.awaiting == Awaiting::Metadata
                &&& self.transfer matches Some(transfer) ==> transfer.streamed == 0
            },
            SessionState::Transferring => {
                &&& self.awaiting == Awaiting::Nothing || self.awaiting == Awaiting::Finalize
                &&& self.transfer is Some <==> self.awaiting == Awaiting::Nothing
                &&& self.transfer matches Some(transfer) ==> transfer.streamed
                    <= transfer.declared_size
            },
            SessionState::Released(_) => self.awaiting == Awaiting::Nothing
                && self.transfer is None,
        }
    }

    /// Control is held and no command is in flight.
    pub open spec fn ready(self) -> bool {
        (self.state == SessionState::ControlAcquired || self.state == SessionState::Idle)
            && self.awaiting == Awaiting::Nothing
    }

    /// A transfer is under way and no command is in flight.
    pub open spec fn streaming(self) -> bool {
        self.state == SessionState::Transferring && self.awaiting == Awaiting::Nothing
            && self.transfer is Some
    }

    /// The device may hold control for this session: control was asked for
    /// and has not been given back.
    pub open spec fn may_hold_control(self) -> bool {
        match self.state {
            SessionState::Disconnected => false,
            SessionState::Connected => self.awaiting == Awaiting::Acquire,
            SessionState::ControlAcquired => true,
            SessionState::Idle => true,
            SessionState::Transferring => true,
            SessionState::Released(_) => false,
        }
    }

    /// The release frame went out, on whatever path.
    pub open spec fn release_sent(self) -> bool {
        self.state is Released || self.awaiting == Awaiting::Release
    }

    /// The transport may be closed: the device holds no control for this
    /// session.
    pub open spec fn may_close(self) -> bool {
        !self.may_hold_control()
    }

    /// The operation is refused: nothing is sent, nothing changes.
    pub open spec fn refuse(self) -> Step {
        Step { next: self, wire: None, error: Some(SessionErrorModel::OutOfOrder) }
    }

    /// The session moves on to `next`, sending nothing.
    pub open spec fn proceed(next: SessionModel) -> Step {
        Step { next, wire: None, error: None }
    }

    /// A command frame goes out and its response is awaited.
    pub open spec fn send(self, awaiting: Awaiting, bytes: Seq<u8>) -> Step {
        Step {
            next: SessionModel { state: self.state, awaiting, transfer: self.transfer },
            wire: Some(Wire::Frame(bytes)),
            error: None,
        }
    }

    /// The session ends as failed. The release frame goes out, unless it went
    /// out before.
    pub open spec fn fail_with(self, error: SessionErrorModel) -> Step {
        Step {
            next: SessionModel {
                state: SessionState::Released(Outcome::Failed),
                awaiting: Awaiting::Nothing,
                transfer: None,
            },
            wire: if self.release_sent() {
                None
            } else {
                Some(Wire::Frame(release_frame()))
            },
            error: Some(error),
        }
    }

    pub open spec fn connect(self) -> Step {
        if self.state == SessionState::Disconnected {
            Self::proceed(
                SessionModel {
                    state: SessionState::Connected,
                    awaiting: Awaiting::Nothing,
                    transfer: None,
                },
            )
        } else {
            self.refuse()
        }
    }

    pub open spec fn acquire_control(self, slot: Seq<char>) -> Step {
        if self.state == SessionState::Connected && self.awaiting == Awaiting::Nothing {
            self.send(Awaiting::Acquire, acquire_frame(slot))
        } else {
            self.refuse()
        }
    }

    pub open spec fn invoke(self, name: PrinterCommand, argument: Option<Seq<char>>) -> Step {
        if self.ready() && invocable(name) {
            self.send(Awaiting::Invoke, invoke_frame(name, argument))
        } else {
            self.refuse()
        }
    }

    pub open spec fn release_control(self) -> Step {
        if self.ready() {
            self.send(Awaiting::Release, release_frame())
        } else {
            self.refuse()
        }
    }

    pub open spec fn begin_transfer(self, declared_size: nat, remote_path: Seq<char>) -> Step {
        if self.ready() {
            Step {
                next: SessionModel {
                    state: self.state,
                    awaiting: Awaiting::Metadata,
                    transfer: Some(TransferModel { declared_size, streamed: 0, remote_path }),
                },
                wire: Some(Wire::Frame(metadata_frame(declared_size, remote_path))),
                error: None,
            }
        } else {
            self.refuse()
        }
    }

    /// The session once the awaited response has come and is good.
    pub open spec fn accepted(self) -> SessionModel {
        match self.awaiting {
            Awaiting::Nothing => self,
            Awaiting::Acquire => SessionModel {
                state: SessionState::ControlAcquired,
                awaiting: Awaiting::Nothing,
                transfer: None,
            },
            Awaiting::Invoke => SessionModel {
                state: SessionState::Idle,
                awaiting: Awaiting::Nothing,
                transfer: None,
            },
            Awaiting::Release => SessionModel {
                state: SessionState::Released(Outcome::Success),
                awaiting: Awaiting::Nothing,
                transfer: None,
            },
            Awaiting::Metadata => SessionModel {
                state: SessionState::Transferring,
                awaiting: Awaiting::Nothing,
                transfer: self.transfer,
            },
            Awaiting::Finalize => SessionModel {
                state: SessionState::Idle,
                awaiting: Awaiting::Nothing,
                transfer: None,
            },
        }
    }

    /// The outcome of reading the awaited response is reported.
    pub open spec fn complete(self, outcome: Result<Seq<char>, ReadErrorModel>) -> Step {
        match self.awaiting {
            Awaiting::Nothing => self.refuse(),
            Awaiting::Acquire => if outcome matches Ok(text) && acknowledged(text) {
                Self::proceed(self.accepted())
            } else {
                self.fail_with(SessionErrorModel::ControlDenied { reply: outcome })
            },
            _ => match outcome {
                Ok(text) => Self::proceed(self.accepted()),
                Err(error) => self.fail_with(SessionErrorModel::Read(error)),
            },
        }
    }

    /// The byte source delivered `chunk`.
    pub open spec fn stream(self, chunk: Seq<u8>) -> Step {
        if self.streaming() {
            let transfer = self.transfer->Some_0;
            let count = transfer.share(chunk.len());
            Step {
                next: SessionModel {
                    state: self.state,
                    awaiting: self.awaiting,
                    transfer: Some(
                        TransferModel {
                            declared_size: transfer.declared_size,
                            streamed: transfer.streamed + count,
                            remote_path: transfer.remote_path,
                        },
                    ),
                },
                wire: Some(Wire::Raw(chunk.subrange(0, count as int))),
                error: None,
            }
        } else {
            self.refuse()
        }
    }

    /// The byte source has nothing more.
    pub open spec fn finish_transfer(self) -> Step {
        if self.streaming() {
            if self.transfer->Some_0.streamed == self.transfer->Some_0.declared_size {
                Step {
                    next: SessionModel {
                        state: self.state,
                        awaiting: Awaiting::Finalize,
                        transfer: None,
                    },
                    wire: Some(Wire::Frame(finalize_frame())),
                    error: None,
                }
            } else {
                self.fail_with(SessionErrorModel::ShortRead)
            }
        } else {
            self.refuse()
        }
    }

    /// The caller gives up, whatever the reason.
    pub open spec fn abort(self) -> Step {
        if self.may_hold_control() {
            Step {
                next: self.fail_with(SessionErrorModel::OutOfOrder).next,
                wire: self.fail_with(SessionErrorModel::OutOfOrder).wire,
                error: None,
            }
        } else {
            Self::proceed(self)
        }
    }
}

/// A command to send and the policy to read its response with.
#[derive(Debug, PartialEq, Eq)]
pub struct Exchange {
    pub frame: Vec<u8>,
    pub policy: ResponsePolicy,
}

/// A failed operation: the error, and the release frame to send without
/// waiting for an answer, where the failure ends the session.
#[derive(Debug, PartialEq, Eq)]
pub struct Failure {
    pub error: SessionError,
    pub release: Option<Vec<u8>>,
}

/// What a failure puts on the wire.
pub open spec fn failure_wire(failure: Failure) -> Option<Wire> {
    match failure.release {
        Some(bytes) => Some(Wire::Frame(bytes@)),
        None => None,
    }
}

/// The failure is the one the step reports.
pub open spec fn failure_agrees(failure: Failure, step: Step) -> bool {
    step.error == Some(failure.error@) && step.wire == failure_wire(failure)
}

/// The exchange or failure is what the step says: on success the step's
/// frame, to be read under the catalog's policy.
pub open spec fn exchange_agrees(result: Result<Exchange, Failure>, step: Step) -> bool {
    match result {
        Ok(exchange) => step.error is None && step.wire == Some(Wire::Frame(exchange.frame@))
            && exchange.policy@ == standard_policy(),
        Err(failure) => failure_agrees(failure, step),
    }
}

/// The response or failure is what the step says: on success the text that
/// was read, with nothing sent.
pub open spec fn response_agrees(
    result: Result<String, Failure>,
    outcome: Result<Seq<char>, ReadErrorModel>,
    step: Step,
) -> bool {
    match result {
        Ok(text) => step.error is None && step.wire is None && outcome == Ok::<
            Seq<char>,
            ReadErrorModel,
        >(text@),
        Err(failure) => failure_agrees(failure, step),
    }
}

/// The bytes to pass on or the failure are what the step says.
pub open spec fn passage_agrees(result: Result<&[u8], Failure>, step: Step) -> bool {
    match result {
        Ok(bytes) => step.error is None && step.wire == Some(Wire::Raw(bytes@)),
        Err(failure) => failure_agrees(failure, step),
    }
}

/// One session with a device.
pub struct Session {
    state: SessionState,
    awaiting: Awaiting,
    transfer: Option<TransferHandle>,
}

impl View for Session {
    type V = SessionModel;

    closed spec fn view(&self) -> SessionModel {
        SessionModel {
            state: self.state,
            awaiting: self.awaiting,
            transfer: match self.transfer {
                Some(handle) => Some(handle@),
                None => None,
            },
        }
    }
}

/// The refusal of an operation that is out of order.
fn refusal() -> (failure: Failure)
    ensures
        failure.error@ == SessionErrorModel::OutOfOrder,
        failure.release is None,
{
    Failure { error: SessionError::OutOfOrder, release: None }
}

/// The exchange of a catalog entry with the frame built for it.
fn exchange_of(name: PrinterCommand, frame: Vec<u8>) -> (exchange: Exchange)
    ensures
        exchange.frame == frame,
        exchange.policy@ == standard_policy(),
{
    Exchange { frame, policy: lookup(name).response_policy }
}

/// Counts `count` more bytes of the transfer as streamed.
fn advance(transfer: &mut Option<TransferHandle>, count: u64)
    requires
        *old(transfer) matches Some(handle) && handle.streamed + count <= handle.declared_size,
    ensures
        *final(transfer) == Some(
            TransferHandle {
                declared_size: old(transfer)->Some_0.declared_size,
                streamed: (old(transfer)->Some_0.streamed + count) as u64,
                remote_path: old(transfer)->Some_0.remote_path,
            },
        ),
    no_unwind
{
    match transfer {
        Some(handle) => {
            handle.streamed = handle.streamed + count;
        },
        None => {},
    }
}

impl Session {
    /// Every session is one that operations on a new session can lead to.
    #[verifier::type_invariant]
    spec fn well_formed(self) -> bool {
        self@.wf()
    }

    /// A session that is not yet connected.
    pub fn new() -> (session: Session)
        ensures
            session@ == SessionModel::initial(),
            session@.wf(),
    {
        Session { state: SessionState::Disconnected, awaiting: Awaiting::Nothing, transfer: None }
    }

    /// The session's state. Every session is well-formed, and this is where
    /// a caller learns it.
    pub fn state(&self) -> (state: SessionState)
        ensures
            state == self@.state,
            self@.wf(),
    {
        proof {
            use_type_invariant(self);
        }
        self.state
    }

    pub fn awaiting(&self) -> (awaiting: Awaiting)
        ensures
            awaiting == self@.awaiting,
    {
        self.awaiting
    }

    /// The transfer in progress, between the acknowledgement of its
    /// announcement and its closing frame.
    pub fn transfer(&self) -> (handle: Option<&TransferHandle>)
        ensures
            match handle {
                Some(handle) => self@.streaming() && self@.transfer == Some(handle@),
                None => !self@.streaming(),
            },
    {
        proof {
            use_type_invariant(self);
        }
        match self.state {
            SessionState::Transferring => self.transfer.as_ref(),
            _ => None,
        }
    }

    /// Whether control is held and no command is in flight.
    pub fn is_ready(&self) -> (ready: bool)
        ensures
            ready == self@.ready(),
    {
        let holds = match self.state {
            SessionState::ControlAcquired => true,
            SessionState::Idle => true,
            _ => false,
        };
        holds && self.awaiting == Awaiting::Nothing
    }

    /// Whether a transfer is under way and no command is in flight.
    pub fn is_streaming(&self) -> (streaming: bool)
        ensures
            streaming == self@.streaming(),
    {
        let transferring = match self.state {
            SessionState::Transferring => true,
            _ => false,
        };
        transferring && self.awaiting == Awaiting::Nothing && self.transfer.is_some()
    }

    /// Whether the device may hold control for this session.
    pub fn may_hold_control(&self) -> (held: bool)
        ensures
            held == self@.may_hold_control(),
    {
        match self.state {
            SessionState::Disconnected => false,
            SessionState::Connected => self.awaiting == Awaiting::Acquire,
            SessionState::ControlAcquired => true,
            SessionState::Idle => true,
            SessionState::Transferring => true,
            SessionState::Released(_) => false,
        }
    }

    /// Whether the transport may be closed: not while the device may hold
    /// control for this session.
    pub fn may_close(&self) -> (free: bool)
        ensures
            free == self@.may_close(),
    {
        !self.may_hold_control()
    }

    /// Ends the session as failed and hands out the release frame, unless it
    /// went out before.
    fn fail(&mut self, error: SessionError) -> (failure: Failure)
        ensures
            final(self)@ == old(self)@.fail_with(error@).next,
            failure_agrees(failure, old(self)@.fail_with(error@)),
            failure.error == error,
    {
        let sent = match self.state {
            SessionState::Released(_) => true,
            _ => self.awaiting == Awaiting::Release,
        };
        let release = if sent {
            None
        } else {
            Some(encode(&lookup(PrinterCommand::ReleaseControl), None))
        };
        *self = Session {
            state: SessionState::Released(Outcome::Failed),
            awaiting: Awaiting::Nothing,
            transfer: None,
        };
        Failure { error, release }
    }

    /// The transport is connected.
    pub fn connect(&mut self) -> (result: Result<(), Failure>)
        ensures
            final(self)@.wf(),
            final(self)@ == old(self)@.connect().next,
            match result {
                Ok(_) => old(self)@.connect().error is None && old(self)@.connect().wire is None,
                Err(failure) => failure_agrees(failure, old(self)@.connect()),
            },
    {
        proof {
            use_type_invariant(&*self);
        }
        match self.state {
            SessionState::Disconnected => {
                *self = Session {
                    state: SessionState::Connected,
                    awaiting: Awaiting::Nothing,
                    transfer: None,
                };
                Ok(())
            },
            _ => Err(refusal()),
        }
    }

    /// Asks for control under `slot_id`. Legal only on a connected session
    /// that has not asked before.
    pub fn acquire_control(&mut self, slot_id: &str) -> (result: Result<Exchange, Failure>)
        ensures
            final(self)@.wf(),
            final(self)@ == old(self)@.acquire_control(slot_id@).next,
            exchange_agrees(result, old(self)@.acquire_control(slot_id@)),
    {
        proof {
            use_type_invariant(&*self);
        }
        let connected = match self.state {
            SessionState::Connected => true,
            _ => false,
        };
        if connected && self.awaiting == Awaiting::Nothing {
            let frame = encode(&lookup(PrinterCommand::GainControl), Some(slot_id));
            self.awaiting = Awaiting::Acquire;
            Ok(exchange_of(PrinterCommand::GainControl, frame))
        } else {
            Err(refusal())
        }
    }

    /// Sends a query or print-control command. Legal only while control is
    /// held and no command is in flight.
    pub fn invoke(&mut self, name: PrinterCommand, argument: Option<&str>) -> (result: Result<
        Exchange,
        Failure,
    >)
        ensures
            final(self)@.wf(),
            final(self)@ == old(self)@.invoke(name, text_of(argument)).next,
            exchange_agrees(result, old(self)@.invoke(name, text_of(argument))),
    {
        proof {
            use_type_invariant(&*self);
        }
        let allowed = match name {
            PrinterCommand::GainControl => false,
            PrinterCommand::ReleaseControl => false,
            PrinterCommand::SendFile => false,
            PrinterCommand::SaveFile => false,
            _ => true,
        };
        if self.is_ready() && allowed {
            let frame = encode(&lookup(name), argument);
            self.awaiting = Awaiting::Invoke;
            Ok(exchange_of(name, frame))
        } else {
            Err(refusal())
        }
    }

    /// Gives control back. Legal only while control is held and no command
    /// is in flight.
    pub fn release_control(&mut self) -> (result: Result<Exchange, Failure>)
        ensures
            final(self)@.wf(),
            final(self)@ == old(self)@.release_control().next,
            exchange_agrees(result, old(self)@.release_control()),
    {
        proof {
            use_type_invariant(&*self);
        }
        if self.is_ready() {
            let frame = encode(&lookup(PrinterCommand::ReleaseControl), None);
            self.awaiting = Awaiting::Release;
            Ok(exchange_of(PrinterCommand::ReleaseControl, frame))
        } else {
            Err(refusal())
        }
    }

    /// Announces a file of `declared_size` bytes to be stored under
    /// `remote_path`. Legal only while control is held and no command is in
    /// flight.
    pub fn begin_transfer(&mut self, declared_size: u64, remote_path: &str) -> (result: Result<
        Exchange,
        Failure,
    >)
        ensures
            final(self)@.wf(),
            final(self)@ == old(self)@.begin_transfer(declared_size as nat, remote_path@).next,
            exchange_agrees(
                result,
                old(self)@.begin_transfer(declared_size as nat, remote_path@),
            ),
    {
        proof {
            use_type_invariant(&*self);
        }
        if self.is_ready() {
            let mut argument: Vec<u8> = Vec::new();
            push_decimal(&mut argument, declared_size);
            argument.push(SPACE);
            push_bytes(&mut argument, remote_path.as_bytes());
            assert(argument@ == transfer_argument(declared_size as nat, remote_path@));
            let frame = encode_bytes(
                PrinterCommand::SendFile.code(),
                Some(argument.as_slice()),
            );
            *self = Session {
                state: self.state,
                awaiting: Awaiting::Metadata,
                transfer: Some(
                    TransferHandle {
                        declared_size,
                        streamed: 0,
                        remote_path: remote_path.to_owned(),
                    },
                ),
            };
            Ok(exchange_of(PrinterCommand::SendFile, frame))
        } else {
            Err(refusal())
        }
    }

    /// The session after a good response to the awaited command.
    fn accept(&mut self)
        requires
            old(self)@.awaiting != Awaiting::Nothing,
        ensures
            final(self)@ == old(self)@.accepted(),
    {
        proof {
            use_type_invariant(&*self);
        }
        let state = match self.awaiting {
            Awaiting::Nothing => self.state,
            Awaiting::Acquire => SessionState::ControlAcquired,
            Awaiting::Invoke => SessionState::Idle,
            Awaiting::Release => SessionState::Released(Outcome::Success),
            Awaiting::Metadata => SessionState::Transferring,
            Awaiting::Finalize => SessionState::Idle,
        };
        let transfer = match (&self.awaiting, &self.transfer) {
            (Awaiting::Metadata, Some(announced)) => Some(
                TransferHandle {
                    declared_size: announced.declared_size,
                    streamed: announced.streamed,
                    remote_path: announced.remote_path.clone(),
                },
            ),
            _ => None,
        };
        *self = Session { state, awaiting: Awaiting::Nothing, transfer };
    }

    /// Reports how reading the awaited response ended. A good response moves
    /// the session on; anything else ends it as failed, with the release
    /// frame to send unless the awaited command was the release itself.
    pub fn complete(&mut self, outcome: Result<String, ReadError>) -> (result: Result<
        String,
        Failure,
    >)
        ensures
            final(self)@.wf(),
            final(self)@ == old(self)@.complete(outcome_view(outcome)).next,
            response_agrees(
                result,
                outcome_view(outcome),
                old(self)@.complete(outcome_view(outcome)),
            ),
    {
        proof {
            use_type_invariant(&*self);
        }
        match self.awaiting {
            Awaiting::Nothing => Err(refusal()),
            Awaiting::Acquire => match outcome {
                Ok(text) => {
                    let end = response_end_bytes();
                    if bytes_end_with(text.as_str().as_bytes(), end.as_slice()) {
                        self.accept();
                        Ok(text)
                    } else {
                        Err(self.fail(SessionError::ControlDenied { reply: Ok(text) }))
                    }
                },
                Err(error) => Err(self.fail(SessionError::ControlDenied { reply: Err(error) })),
            },
            _ => match outcome {
                Ok(text) => {
                    self.accept();
                    Ok(text)
                },
                Err(error) => Err(self.fail(SessionError::Read(error))),
            },
        }
    }

    /// Takes a chunk of the file and hands back the part of it that goes to
    /// the transport as it is: all of it, or as much as the declared size
    /// still has room for.
    pub fn stream<'a>(&mut self, chunk: &'a [u8]) -> (result: Result<&'a [u8], Failure>)
        ensures
            final(self)@.wf(),
            final(self)@ == old(self)@.stream(chunk@).next,
            passage_agrees(result, old(self)@.stream(chunk@)),
    {
        proof {
            use_type_invariant(&*self);
        }
        if !self.is_streaming() {
            return Err(refusal());
        }
        let room: u64 = match &self.transfer {
            Some(handle) => handle.declared_size - handle.streamed,
            None => 0,
        };
        let count: usize = if chunk.len() as u64 <= room {
            chunk.len()
        } else {
            room as usize
        };
        advance(&mut self.transfer, count as u64);
        Ok(slice_subrange(chunk, 0, count))
    }

    /// The byte source is exhausted. If the declared size was reached, the
    /// closing frame comes back; if not, the session ends as failed and the
    /// closing frame is withheld.
    pub fn finish_transfer(&mut self) -> (result: Result<Exchange, Failure>)
        ensures
            final(self)@.wf(),
            final(self)@ == old(self)@.finish_transfer().next,
            exchange_agrees(result, old(self)@.finish_transfer()),
    {
        proof {
            use_type_invariant(&*self);
        }
        if !self.is_streaming() {
            return Err(refusal());
        }
        let whole = match &self.transfer {
            Some(handle) => handle.streamed == handle.declared_size,
            None => false,
        };
        if whole {
            let frame = encode(&lookup(PrinterCommand::SaveFile), None);
            *self = Session { state: self.state, awaiting: Awaiting::Finalize, transfer: None };
            Ok(exchange_of(PrinterCommand::SaveFile, frame))
        } else {
            Err(self.fail(SessionError::ShortRead))
        }
    }

    /// Gives the session up, whatever the reason: if the device may hold
    /// control, the session ends as failed and the release frame to send
    /// comes back, unless it went out before.
    pub fn abort(&mut self) -> (release: Option<Vec<u8>>)
        ensures
            final(self)@.wf(),
            final(self)@ == old(self)@.abort().next,
            old(self)@.abort().wire == match release {
                Some(bytes) => Some(Wire::Frame(bytes@)),
                None => None,
            },
    {
        proof {
            use_type_invariant(&*self);
        }
        if self.may_hold_control() {
            let failure = self.fail(SessionError::OutOfOrder);
            failure.release
        } else {
            None
        }
    }
}

} // verus!
