//! What holds of a session over any sequence of operations: control is
//! given back exactly once, frames go out only in the legal order, and a
//! transfer puts exactly the declared bytes on the wire.

use crate::catalog::PrinterCommand;
use crate::frame::{frame, lemma_frame_injective};
use crate::reader::ReadErrorModel;
use crate::session::{
    acquire_frame, finalize_frame, invocable, release_frame, transfer_argument, Awaiting, Outcome,
    SessionErrorModel, SessionModel, SessionState, Step, Wire,
};
use vstd::prelude::*;
use vstd::utf8::encode_utf8;

verus! {

/// One operation on a session, with what it is given.
pub enum Input {
    Connect,
    AcquireControl { slot: Seq<char> },
    Invoke { name: PrinterCommand, argument: Option<Seq<char>> },
    ReleaseControl,
    BeginTransfer { declared_size: nat, remote_path: Seq<char> },
    Complete { outcome: Result<Seq<char>, ReadErrorModel> },
    Stream { chunk: Seq<u8> },
    FinishTransfer,
    Abort,
}

/// What the operation `input` does to the session `session`.
pub open spec fn step(session: SessionModel, input: Input) -> Step {
    match input {
        Input::Connect => session.connect(),
        Input::AcquireControl { slot } => session.acquire_control(slot),
        Input::Invoke { name, argument } => session.invoke(name, argument),
        Input::ReleaseControl => session.release_control(),
        Input::BeginTransfer { declared_size, remote_path } => session.begin_transfer(
            declared_size,
            remote_path,
        ),
        Input::Complete { outcome } => session.complete(outcome),
        Input::Stream { chunk } => session.stream(chunk),
        Input::FinishTransfer => session.finish_transfer(),
        Input::Abort => session.abort(),
    }
}

/// Where a sequence of operations leaves a session, and all that it put on
/// the wire, in order.
pub struct Run {
    pub end: SessionModel,
    pub wire: Seq<Wire>,
}

/// The operations of `inputs`, one after the other, from `start`.
pub open spec fn run(start: SessionModel, inputs: Seq<Input>) -> Run
    decreases inputs.len(),
{
    if inputs.len() == 0 {
        Run { end: start, wire: Seq::empty() }
    } else {
        let before = run(start, inputs.drop_last());
        let last = step(before.end, inputs.last());
        Run {
            end: last.next,
            wire: match last.wire {
                Some(item) => before.wire.push(item),
                None => before.wire,
            },
        }
    }
}

/// No operation leads out of the well-formed sessions.
pub proof fn lemma_step_keeps_wf(session: SessionModel, input: Input)
    requires
        session.wf(),
    ensures
        step(session, input).next.wf(),
{
}

/// No sequence of operations leads out of the well-formed sessions.
pub proof fn lemma_run_keeps_wf(start: SessionModel, inputs: Seq<Input>)
    requires
        start.wf(),
    ensures
        run(start, inputs).end.wf(),
    decreases inputs.len(),
{
    if inputs.len() > 0 {
        lemma_run_keeps_wf(start, inputs.drop_last());
        lemma_step_keeps_wf(run(start, inputs.drop_last()).end, inputs.last());
    }
}

/// Whether what went out is the release frame.
pub open spec fn is_release(item: Wire) -> bool {
    item == Wire::Frame(release_frame())
}

/// How many release frames went out.
pub open spec fn releases(wire: Seq<Wire>) -> nat
    decreases wire.len(),
{
    if wire.len() == 0 {
        0
    } else {
        releases(wire.drop_last()) + if is_release(wire.last()) {
            1nat
        } else {
            0nat
        }
    }
}

/// One for a session whose release frame went out, zero for any other.
pub open spec fn released_count(session: SessionModel) -> nat {
    if session.release_sent() {
        1
    } else {
        0
    }
}

/// No operation but those that give control back puts the release frame on
/// the wire: the frames of the other commands differ from it.
proof fn lemma_other_frames_differ(name: PrinterCommand, argument: Option<Seq<u8>>)
    requires
        name != PrinterCommand::ReleaseControl,
    ensures
        frame(name.spec_code() as nat, argument) != release_frame(),
{
    if frame(name.spec_code() as nat, argument) == release_frame() {
        lemma_frame_injective(
            name.spec_code() as nat,
            argument,
            PrinterCommand::ReleaseControl.spec_code() as nat,
            None,
        );
    }
}

/// One operation puts the release frame on the wire exactly when it is the
/// one after which the release frame has gone out and before which it had
/// not; and once it has gone out, that stays so.
pub proof fn lemma_step_releases_once(session: SessionModel, input: Input)
    requires
        session.wf(),
    ensures
        session.release_sent() ==> step(session, input).next.release_sent(),
        (step(session, input).wire matches Some(item) && is_release(item)) <==> (
        !session.release_sent() && step(session, input).next.release_sent()),
{
    match input {
        Input::AcquireControl { slot } => {
            lemma_other_frames_differ(
                PrinterCommand::GainControl,
                Some(encode_utf8(slot)),
            );
        },
        Input::Invoke { name, argument } => {
            if invocable(name) {
                lemma_other_frames_differ(
                    name,
                    match argument {
                        Some(text) => Some(encode_utf8(text)),
                        None => None,
                    },
                );
            }
        },
        Input::BeginTransfer { declared_size, remote_path } => {
            lemma_other_frames_differ(
                PrinterCommand::SendFile,
                Some(transfer_argument(declared_size, remote_path)),
            );
        },
        Input::FinishTransfer => {
            lemma_other_frames_differ(PrinterCommand::SaveFile, None);
        },
        _ => {},
    }
}

/// Over any sequence of operations, from any session: the release frame
/// goes out once if the session ends with control given back and had not
/// given it back before, and never otherwise.
pub proof fn lemma_run_releases_once(start: SessionModel, inputs: Seq<Input>)
    requires
        start.wf(),
    ensures
        released_count(start) + releases(run(start, inputs).wire) == released_count(
            run(start, inputs).end,
        ),
    decreases inputs.len(),
{
    if inputs.len() > 0 {
        let before = run(start, inputs.drop_last());
        lemma_run_releases_once(start, inputs.drop_last());
        lemma_run_keeps_wf(start, inputs.drop_last());
        lemma_step_releases_once(before.end, inputs.last());
        let last = step(before.end, inputs.last());
        match last.wire {
            Some(item) => {
                assert(before.wire.push(item).drop_last() =~= before.wire);
            },
            None => {},
        }
    }
}

/// Over any sequence of operations on a new session: once the session is
/// released, on whatever path, exactly one release frame has gone out; and
/// at no time has more than one.
pub proof fn lemma_release_exactly_once(inputs: Seq<Input>)
    ensures
        releases(run(SessionModel::initial(), inputs).wire) <= 1,
        run(SessionModel::initial(), inputs).end.state is Released ==> releases(
            run(SessionModel::initial(), inputs).wire,
        ) == 1,
        releases(run(SessionModel::initial(), inputs).wire) == 1 <==> run(
            SessionModel::initial(),
            inputs,
        ).end.release_sent(),
{
    lemma_run_releases_once(SessionModel::initial(), inputs);
}

/// A response that cannot be read ends the session as failed, whatever
/// command was awaited, and that gives control back: the release frame goes
/// out with the failure, unless the awaited command was the release itself.
pub proof fn lemma_failure_releases(session: SessionModel, error: ReadErrorModel)
    requires
        session.wf(),
        session.awaiting != Awaiting::Nothing,
    ensures
        session.complete(Err(error)).next.state == SessionState::Released(Outcome::Failed),
        session.complete(Err(error)).error is Some,
        session.awaiting != Awaiting::Release ==> session.complete(Err(error)).wire == Some(
            Wire::Frame(release_frame()),
        ),
        session.awaiting == Awaiting::Release ==> session.complete(Err(error)).wire is None,
        session.complete(Err(error)).next.may_close(),
{
}

/// Running one sequence of operations and then another is running the two
/// in one.
pub proof fn lemma_run_concat(start: SessionModel, first: Seq<Input>, second: Seq<Input>)
    ensures
        run(start, first + second).end == run(run(start, first).end, second).end,
        run(start, first + second).wire == run(start, first).wire + run(
            run(start, first).end,
            second,
        ).wire,
    decreases second.len(),
{
    if second.len() == 0 {
        assert(first + second =~= first);
        assert(run(start, first).wire + Seq::<Wire>::empty() =~= run(start, first).wire);
    } else {
        lemma_run_concat(start, first, second.drop_last());
        assert((first + second).drop_last() =~= first + second.drop_last());
        assert((first + second).last() == second.last());
        let middle = run(start, first);
        let before = run(middle.end, second.drop_last());
        let last = step(before.end, second.last());
        match last.wire {
            Some(item) => {
                assert(middle.wire + before.wire.push(item) =~= (middle.wire + before.wire).push(
                    item,
                ));
            },
            None => {},
        }
    }
}

/// One call of `invoke`: the command, its argument, and how reading its
/// response ended.
pub struct Call {
    pub name: PrinterCommand,
    pub argument: Option<Seq<char>>,
    pub outcome: Result<Seq<char>, ReadErrorModel>,
}

/// The operations that a sequence of calls amounts to: for each call the
/// command sent, then the outcome reported.
pub open spec fn operations_of(calls: Seq<Call>) -> Seq<Input>
    decreases calls.len(),
{
    if calls.len() == 0 {
        Seq::empty()
    } else {
        operations_of(calls.drop_last()) + seq![
            Input::Invoke { name: calls.last().name, argument: calls.last().argument },
            Input::Complete { outcome: calls.last().outcome },
        ]
    }
}

/// Whether one of the calls ended in a failure to read the response.
pub open spec fn some_call_failed(calls: Seq<Call>) -> bool {
    exists|i: int| 0 <= i < calls.len() && (#[trigger] calls[i]).outcome is Err
}

/// Any sequence of calls of `invoke` on a session that holds control. If
/// every response was read, control is still held and no release frame has
/// gone out. If one was not, the session has ended as failed and exactly one
/// release frame has gone out, however many calls came after the failure.
pub proof fn lemma_failed_call_releases_once(session: SessionModel, calls: Seq<Call>)
    requires
        session.wf(),
        session.ready(),
        forall|i: int| 0 <= i < calls.len() ==> invocable((#[trigger] calls[i]).name),
    ensures
        ({
            let after = run(session, operations_of(calls));
            if some_call_failed(calls) {
                &&& after.end.state == SessionState::Released(Outcome::Failed)
                &&& releases(after.wire) == 1
            } else {
                &&& after.end.ready()
                &&& releases(after.wire) == 0
            }
        }),
    decreases calls.len(),
{
    let after = run(session, operations_of(calls));
    lemma_run_releases_once(session, operations_of(calls));
    lemma_run_keeps_wf(session, operations_of(calls));
    if calls.len() > 0 {
        let earlier = calls.drop_last();
        let last = calls.last();
        assert forall|i: int| 0 <= i < earlier.len() implies invocable(
            (#[trigger] earlier[i]).name,
        ) by {
            assert(earlier[i] == calls[i]);
        }
        lemma_failed_call_releases_once(session, earlier);
        let pair = seq![
            Input::Invoke { name: last.name, argument: last.argument },
            Input::Complete { outcome: last.outcome },
        ];
        lemma_run_concat(session, operations_of(earlier), pair);
        let before = run(session, operations_of(earlier));
        lemma_run_keeps_wf(session, operations_of(earlier));
        assert(pair.drop_last() =~= seq![
            Input::Invoke { name: last.name, argument: last.argument },
        ]);
        assert(pair.drop_last().drop_last() =~= Seq::<Input>::empty());
        let sent = step(before.end, pair[0]);
        assert(run(before.end, pair.drop_last()).end == sent.next) by {
            let single = pair.drop_last();
            assert(single.last() == pair[0]);
            assert(run(before.end, single.drop_last()).end == before.end);
        }
        assert(run(before.end, pair).end == step(sent.next, pair[1]).next);
        if some_call_failed(earlier) {
            let i = choose|i: int| 0 <= i < earlier.len() && (#[trigger] earlier[i]).outcome is Err;
            assert(calls[i].outcome is Err);
        } else if last.outcome is Err {
            assert(calls[calls.len() - 1].outcome is Err);
        } else {
            assert forall|i: int| 0 <= i < calls.len() implies !((#[trigger] calls[i]).outcome
                is Err) by {
                if i < earlier.len() {
                    assert(earlier[i] == calls[i]);
                }
            }
        }
    }
}

/// A released session is at its end: no operation changes it or sends
/// anything.
pub proof fn lemma_released_is_final(session: SessionModel, input: Input)
    requires
        session.wf(),
        session.state is Released,
    ensures
        step(session, input).next == session,
        step(session, input).wire is None,
{
}

/// The order in which anything goes out. Nothing leaves a session that is
/// not connected or is released. From a connected session that has not
/// asked for control, only the frame that asks for it. While a command is
/// in flight, only the release frame that a failure sends. File bytes only
/// during a transfer; and while control is held with nothing in flight,
/// only the frame of an invocable command, of the release, or of a
/// transfer's announcement.
pub proof fn lemma_legal_order(session: SessionModel, input: Input)
    requires
        session.wf(),
        step(session, input).wire is Some,
    ensures
        session.state != SessionState::Disconnected,
        !(session.state is Released),
        session.state == SessionState::Connected && session.awaiting == Awaiting::Nothing
            ==> input is AcquireControl && step(session, input).wire == Some(
            Wire::Frame(acquire_frame(input->slot)),
        ),
        session.awaiting != Awaiting::Nothing ==> is_release(step(session, input).wire->Some_0),
        step(session, input).wire->Some_0 is Raw ==> session.streaming() && input is Stream,
        session.ready() ==> {
            ||| input is Invoke && invocable(input->name)
            ||| input is ReleaseControl
            ||| input is BeginTransfer
            ||| input is Abort
        },
        session.state == SessionState::Transferring && session.awaiting == Awaiting::Nothing ==> {
            ||| input is Stream
            ||| input is FinishTransfer
            ||| input is Abort
        },
{
}

/// The file bytes among what went out, joined in order.
pub open spec fn raw_bytes(wire: Seq<Wire>) -> Seq<u8>
    decreases wire.len(),
{
    if wire.len() == 0 {
        Seq::empty()
    } else {
        match wire.last() {
            Wire::Raw(bytes) => raw_bytes(wire.drop_last()) + bytes,
            Wire::Frame(_) => raw_bytes(wire.drop_last()),
        }
    }
}

/// The chunks joined in order.
pub open spec fn joined(chunks: Seq<Seq<u8>>) -> Seq<u8>
    decreases chunks.len(),
{
    if chunks.len() == 0 {
        Seq::empty()
    } else {
        joined(chunks.drop_last()) + chunks.last()
    }
}

/// The operations that hand the chunks to the session, one by one.
pub open spec fn streaming_of(chunks: Seq<Seq<u8>>) -> Seq<Input> {
    Seq::new(chunks.len(), |i: int| Input::Stream { chunk: chunks[i] })
}

/// The smaller of two numbers.
pub open spec fn least(a: nat, b: nat) -> nat {
    if a <= b {
        a
    } else {
        b
    }
}

/// Streaming a file, in chunks of any sizes: what goes to the wire is file
/// bytes only, they are the file's bytes in order and as they are, and there
/// are as many of them as the declared size still had room for, or all if
/// there are fewer.
pub proof fn lemma_streaming_passes_file(session: SessionModel, chunks: Seq<Seq<u8>>)
    requires
        session.wf(),
        session.streaming(),
    ensures
        ({
            let transfer = session.transfer->Some_0;
            let after = run(session, streaming_of(chunks));
            let passed = least(transfer.remaining(), joined(chunks).len());
            &&& after.end.streaming()
            &&& after.end.transfer->Some_0.declared_size == transfer.declared_size
            &&& after.end.transfer->Some_0.remote_path == transfer.remote_path
            &&& after.end.transfer->Some_0.streamed == transfer.streamed + passed
            &&& after.end.state == session.state
            &&& forall|i: int| 0 <= i < after.wire.len() ==> #[trigger] after.wire[i] is Raw
            &&& raw_bytes(after.wire) == joined(chunks).subrange(0, passed as int)
        }),
    decreases chunks.len(),
{
    let transfer = session.transfer->Some_0;
    let inputs = streaming_of(chunks);
    if chunks.len() == 0 {
        assert(raw_bytes(run(session, inputs).wire) =~= joined(chunks).subrange(0, 0));
    } else {
        let shorter = chunks.drop_last();
        lemma_streaming_passes_file(session, shorter);
        assert(inputs.drop_last() =~= streaming_of(shorter));
        assert(inputs.last() == Input::Stream { chunk: chunks.last() });
        let before = run(session, streaming_of(shorter));
        let last = step(before.end, inputs.last());
        let after = run(session, inputs);
        let chunk = chunks.last();
        let count = before.end.transfer->Some_0.share(chunk.len());
        let passed_before = least(transfer.remaining(), joined(shorter).len());
        let passed = least(transfer.remaining(), joined(chunks).len());
        assert(last.wire == Some(Wire::Raw(chunk.subrange(0, count as int))));
        assert(after.wire == before.wire.push(Wire::Raw(chunk.subrange(0, count as int))));
        assert(after.wire.drop_last() =~= before.wire);
        assert(passed == passed_before + count);
        assert(joined(chunks).subrange(0, passed as int) =~= joined(shorter).subrange(
            0,
            passed_before as int,
        ) + chunk.subrange(0, count as int));
    }
}

/// A whole transfer. With the announcement acknowledged and a file of
/// exactly the declared size, handed over in chunks of any sizes, what goes
/// to the wire is the file's bytes, as they are and nothing between them,
/// and then the closing frame.
pub proof fn lemma_transfer_sends_exactly(session: SessionModel, chunks: Seq<Seq<u8>>)
    requires
        session.wf(),
        session.streaming(),
        session.transfer->Some_0.streamed == 0,
        joined(chunks).len() == session.transfer->Some_0.declared_size,
    ensures
        ({
            let inputs = streaming_of(chunks).push(Input::FinishTransfer);
            let after = run(session, inputs);
            &&& after.wire.len() == chunks.len() + 1
            &&& forall|i: int| 0 <= i < chunks.len() ==> #[trigger] after.wire[i] is Raw
            &&& raw_bytes(after.wire.drop_last()) == joined(chunks)
            &&& after.wire.last() == Wire::Frame(finalize_frame())
            &&& after.end.awaiting == Awaiting::Finalize
            &&& after.end.state == SessionState::Transferring
        }),
{
    let inputs = streaming_of(chunks).push(Input::FinishTransfer);
    lemma_streaming_passes_file(session, chunks);
    lemma_streaming_length(session, chunks);
    assert(inputs.drop_last() =~= streaming_of(chunks));
    let before = run(session, streaming_of(chunks));
    let after = run(session, inputs);
    assert(after.wire == before.wire.push(Wire::Frame(finalize_frame())));
    assert(after.wire.drop_last() =~= before.wire);
    assert(joined(chunks).subrange(0, joined(chunks).len() as int) =~= joined(chunks));
}

/// Each chunk handed over puts one item on the wire.
proof fn lemma_streaming_length(session: SessionModel, chunks: Seq<Seq<u8>>)
    requires
        session.wf(),
        session.streaming(),
    ensures
        run(session, streaming_of(chunks)).wire.len() == chunks.len(),
    decreases chunks.len(),
{
    if chunks.len() > 0 {
        let shorter = chunks.drop_last();
        lemma_streaming_length(session, shorter);
        lemma_streaming_passes_file(session, shorter);
        assert(streaming_of(chunks).drop_last() =~= streaming_of(shorter));
        assert(streaming_of(chunks).last() == Input::Stream { chunk: chunks.last() });
    }
}

/// A file shorter than declared: the transfer fails as a short read, the
/// closing frame stays unsent, and the release frame goes out instead.
pub proof fn lemma_short_file_fails(session: SessionModel, chunks: Seq<Seq<u8>>)
    requires
        session.wf(),
        session.streaming(),
        session.transfer->Some_0.streamed == 0,
        joined(chunks).len() < session.transfer->Some_0.declared_size,
    ensures
        ({
            let before = run(session, streaming_of(chunks));
            let last = before.end.finish_transfer();
            &&& raw_bytes(before.wire) == joined(chunks)
            &&& last.error == Some(SessionErrorModel::ShortRead)
            &&& last.wire == Some(Wire::Frame(release_frame()))
            &&& last.wire != Some(Wire::Frame(finalize_frame()))
            &&& last.next.state == SessionState::Released(Outcome::Failed)
        }),
{
    lemma_streaming_passes_file(session, chunks);
    assert(joined(chunks).subrange(0, joined(chunks).len() as int) =~= joined(chunks));
    lemma_other_frames_differ(PrinterCommand::SaveFile, None);
}

} // verus!
