//! Response delimitation: an incremental reader that is handed the bytes the
//! transport delivers, in chunks of any size, and decides by its policy when
//! the response is complete.

use crate::catalog::{PolicyModel, ResponsePolicy};
use crate::text::utf8_text;
use vstd::prelude::*;
use vstd::utf8::*;

verus! {

/// Where a reader stands.
#[derive(Clone, Copy, Debug, PartialEq, Eq, Structural)]
pub enum ReaderStatus {
    /// More bytes are needed.
    Pending,
    /// The policy's stop condition was met.
    Complete,
    /// The terminator did not show up within the length bound.
    Oversized,
    /// The stream closed before the stop condition was met.
    Truncated,
    /// The transport reported a read error.
    Failed,
}

/// Why a response could not be read.
#[derive(Debug, PartialEq, Eq)]
pub enum ReadError {
    TransportError,
    OversizedResponse,
    TruncatedResponse,
    /// The response is not valid UTF-8; `raw` holds its bytes.
    EncodingError { raw: Vec<u8> },
}

/// The mathematical value of a [`ReadError`].
pub enum ReadErrorModel {
    TransportError,
    OversizedResponse,
    TruncatedResponse,
    EncodingError { raw: Seq<u8> },
}

impl View for ReadError {
    type V = ReadErrorModel;

    open spec fn view(&self) -> ReadErrorModel {
        match *self {
            ReadError::TransportError => ReadErrorModel::TransportError,
            ReadError::OversizedResponse => ReadErrorModel::OversizedResponse,
            ReadError::TruncatedResponse => ReadErrorModel::TruncatedResponse,
            ReadError::EncodingError { raw } => ReadErrorModel::EncodingError { raw: raw@ },
        }
    }
}

/// The mathematical value of what a read ends with: the text, or the error.
pub open spec fn outcome_view(outcome: Result<String, ReadError>) -> Result<
    Seq<char>,
    ReadErrorModel,
> {
    match outcome {
        Ok(text) => Ok(text@),
        Err(error) => Err(error@),
    }
}

/// Whether `bytes` ends with `tail`.
pub open spec fn ends_with(bytes: Seq<u8>, tail: Seq<u8>) -> bool {
    tail.is_suffix_of(bytes)
}

/// The status of a reader that has not been handed a byte yet.
pub open spec fn initial_status(policy: PolicyModel) -> ReaderStatus {
    match policy {
        PolicyModel::Terminator { sequence, max_length } => if max_length == 0 {
            ReaderStatus::Oversized
        } else {
            ReaderStatus::Pending
        },
        PolicyModel::FixedLength { n } => if n == 0 {
            ReaderStatus::Complete
        } else {
            ReaderStatus::Pending
        },
        PolicyModel::ReadToClose => ReaderStatus::Pending,
    }
}

/// The status of a reader right after a byte was appended, `received` being
/// all it holds then. A match of the terminator is looked for first, the
/// length bound second.
pub open spec fn status_after(policy: PolicyModel, received: Seq<u8>) -> ReaderStatus {
    match policy {
        PolicyModel::Terminator { sequence, max_length } => if ends_with(received, sequence) {
            ReaderStatus::Complete
        } else if received.len() >= max_length {
            ReaderStatus::Oversized
        } else {
            ReaderStatus::Pending
        },
        PolicyModel::FixedLength { n } => if received.len() >= n {
            ReaderStatus::Complete
        } else {
            ReaderStatus::Pending
        },
        PolicyModel::ReadToClose => ReaderStatus::Pending,
    }
}

/// The mathematical value of a [`ResponseReader`].
pub struct ReaderModel {
    pub policy: PolicyModel,
    /// The bytes taken so far, in order.
    pub received: Seq<u8>,
    pub status: ReaderStatus,
}

impl ReaderModel {
    /// A reader that has not been handed a byte yet.
    pub open spec fn start(policy: PolicyModel) -> ReaderModel {
        ReaderModel { policy, received: Seq::empty(), status: initial_status(policy) }
    }

    /// Takes one byte, unless the reader is no longer pending.
    pub open spec fn push(self, byte: u8) -> ReaderModel {
        if self.status == ReaderStatus::Pending {
            ReaderModel {
                policy: self.policy,
                received: self.received.push(byte),
                status: status_after(self.policy, self.received.push(byte)),
            }
        } else {
            self
        }
    }

    /// Takes the bytes of `input` one by one, up to and including the byte
    /// that ends the read; what follows that byte is left alone.
    pub open spec fn feed(self, input: Seq<u8>) -> ReaderModel
        decreases input.len(),
    {
        if input.len() == 0 {
            self
        } else {
            self.feed(input.drop_last()).push(input.last())
        }
    }

    /// The stream closed: that is the end wanted under `ReadToClose`, and a
    /// cut-off response under the other policies.
    pub open spec fn close(self) -> ReaderModel {
        if self.status == ReaderStatus::Pending {
            ReaderModel {
                policy: self.policy,
                received: self.received,
                status: if self.policy is ReadToClose {
                    ReaderStatus::Complete
                } else {
                    ReaderStatus::Truncated
                },
            }
        } else {
            self
        }
    }

    /// The transport failed.
    pub open spec fn fail(self) -> ReaderModel {
        if self.status == ReaderStatus::Pending {
            ReaderModel {
                policy: self.policy,
                received: self.received,
                status: ReaderStatus::Failed,
            }
        } else {
            self
        }
    }

    /// The bounds that reading keeps: never more bytes than the policy
    /// allows, and fewer while more are still needed.
    pub open spec fn within_bounds(self) -> bool {
        match self.policy {
            PolicyModel::Terminator { sequence, max_length } => self.received.len() <= max_length
                && (self.status == ReaderStatus::Pending ==> self.received.len() < max_length),
            PolicyModel::FixedLength { n } => self.received.len() <= n && (self.status
                == ReaderStatus::Pending ==> self.received.len() < n),
            PolicyModel::ReadToClose => true,
        }
    }

    /// How many bytes can be asked of the transport without taking any that
    /// follows the response.
    pub open spec fn wanted(self) -> nat {
        if self.status == ReaderStatus::Pending {
            match self.policy {
                PolicyModel::Terminator { sequence, max_length } => 1,
                PolicyModel::FixedLength { n } => if self.received.len() < n {
                    (n - self.received.len()) as nat
                } else {
                    0
                },
                PolicyModel::ReadToClose => usize::MAX as nat,
            }
        } else {
            0
        }
    }

    /// What the read ends with; `None` while it is pending. A complete
    /// response must be valid UTF-8, else its bytes come back in the error.
    pub open spec fn outcome(self) -> Option<Result<Seq<char>, ReadErrorModel>> {
        match self.status {
            ReaderStatus::Pending => None,
            ReaderStatus::Complete => if valid_utf8(self.received) {
                Some(Ok(decode_utf8(self.received)))
            } else {
                Some(Err(ReadErrorModel::EncodingError { raw: self.received }))
            },
            ReaderStatus::Oversized => Some(Err(ReadErrorModel::OversizedResponse)),
            ReaderStatus::Truncated => Some(Err(ReadErrorModel::TruncatedResponse)),
            ReaderStatus::Failed => Some(Err(ReadErrorModel::TransportError)),
        }
    }
}

/// The mathematical value of what [`ResponseReader::finish`] returns.
pub open spec fn finish_view(outcome: Option<Result<String, ReadError>>) -> Option<
    Result<Seq<char>, ReadErrorModel>,
> {
    match outcome {
        Some(result) => Some(outcome_view(result)),
        None => None,
    }
}

/// Whether `bytes` ends with `tail`.
pub fn bytes_end_with(bytes: &[u8], tail: &[u8]) -> (found: bool)
    ensures
        found == ends_with(bytes@, tail@),
{
    if tail.len() > bytes.len() {
        return false;
    }
    let offset: usize = bytes.len() - tail.len();
    let mut i: usize = 0;
    while i < tail.len()
        invariant
            offset + tail.len() == bytes.len(),
            i <= tail.len(),
            forall|k: int| 0 <= k < i ==> tail@[k] == bytes@[offset + k],
        decreases tail.len() - i,
    {
        if tail[i] != bytes[offset + i] {
            assert(bytes@.subrange(offset as int, bytes@.len() as int)[i as int] != tail@[i as int]);
            return false;
        }
        i += 1;
    }
    assert(tail@ =~= bytes@.subrange(offset as int, bytes@.len() as int));
    true
}

/// Reads one response, handed the transport's bytes chunk by chunk.
pub struct ResponseReader {
    policy: ResponsePolicy,
    received: Vec<u8>,
    status: ReaderStatus,
}

impl View for ResponseReader {
    type V = ReaderModel;

    closed spec fn view(&self) -> ReaderModel {
        ReaderModel { policy: self.policy@, received: self.received@, status: self.status }
    }
}

/// The reader that holds `received` under `policy` and stands at `status`.
spec fn reading(policy: &ResponsePolicy, received: &Vec<u8>, status: ReaderStatus) -> ReaderModel {
    ReaderModel { policy: policy@, received: received@, status }
}

/// The status right after a byte was appended, `received` being all that the
/// reader holds then.
fn classify(policy: &ResponsePolicy, received: &Vec<u8>) -> (status: ReaderStatus)
    ensures
        status == status_after(policy@, received@),
{
    match policy {
        ResponsePolicy::Terminator { sequence, max_length } => {
            if bytes_end_with(received.as_slice(), sequence.as_slice()) {
                ReaderStatus::Complete
            } else if received.len() >= *max_length {
                ReaderStatus::Oversized
            } else {
                ReaderStatus::Pending
            }
        },
        ResponsePolicy::FixedLength { n } => if received.len() >= *n {
            ReaderStatus::Complete
        } else {
            ReaderStatus::Pending
        },
        ResponsePolicy::ReadToClose => ReaderStatus::Pending,
    }
}

impl ResponseReader {
    /// No reader holds more than its policy allows.
    #[verifier::type_invariant]
    spec fn bounded(self) -> bool {
        self@.within_bounds()
    }

    /// A reader for one response under `policy`.
    pub fn new(policy: ResponsePolicy) -> (reader: ResponseReader)
        ensures
            reader@ == ReaderModel::start(policy@),
            reader@.within_bounds(),
    {
        let status = match &policy {
            ResponsePolicy::Terminator { sequence, max_length } => if *max_length == 0 {
                ReaderStatus::Oversized
            } else {
                ReaderStatus::Pending
            },
            ResponsePolicy::FixedLength { n } => if *n == 0 {
                ReaderStatus::Complete
            } else {
                ReaderStatus::Pending
            },
            ResponsePolicy::ReadToClose => ReaderStatus::Pending,
        };
        ResponseReader { policy, received: Vec::new(), status }
    }

    pub fn status(&self) -> (status: ReaderStatus)
        ensures
            status == self@.status,
    {
        self.status
    }

    pub fn is_pending(&self) -> (pending: bool)
        ensures
            pending == (self@.status == ReaderStatus::Pending),
    {
        self.status == ReaderStatus::Pending
    }

    /// The bytes taken so far: never more than the policy allows.
    pub fn received(&self) -> (bytes: &Vec<u8>)
        ensures
            bytes@ == self@.received,
            self@.within_bounds(),
    {
        proof {
            use_type_invariant(self);
        }
        &self.received
    }

    /// How many bytes to ask of the transport next: what can be read without
    /// taking a byte that follows the response. Zero once the read has ended.
    pub fn wanted(&self) -> (count: usize)
        ensures
            count == self@.wanted(),
    {
        if self.status == ReaderStatus::Pending {
            match &self.policy {
                ResponsePolicy::Terminator { sequence, max_length } => 1,
                ResponsePolicy::FixedLength { n } => if self.received.len() < *n {
                    *n - self.received.len()
                } else {
                    0
                },
                ResponsePolicy::ReadToClose => usize::MAX,
            }
        } else {
            0
        }
    }

    /// Hands the reader what the transport delivered. The bytes are taken
    /// one by one until the read ends; the result is how many were taken,
    /// so the caller knows what is left of the chunk.
    pub fn feed(&mut self, chunk: &[u8]) -> (consumed: usize)
        ensures
            final(self)@ == old(self)@.feed(chunk@),
            final(self)@.within_bounds(),
            consumed <= chunk@.len(),
            final(self)@.received == old(self)@.received + chunk@.subrange(0, consumed as int),
            consumed < chunk@.len() ==> final(self)@.status != ReaderStatus::Pending,
    {
        proof {
            use_type_invariant(&*self);
            assert(chunk@.subrange(0, 0) =~= Seq::<u8>::empty());
            assert(self@.received + Seq::<u8>::empty() =~= self@.received);
        }
        if self.status != ReaderStatus::Pending {
            proof {
                lemma_feed_ended(self@, chunk@);
            }
            return 0;
        }
        let mut received: Vec<u8> = Vec::new();
        core::mem::swap(&mut self.received, &mut received);
        let mut status = ReaderStatus::Pending;
        let mut i: usize = 0;
        while i < chunk.len() && status == ReaderStatus::Pending
            invariant
                i <= chunk.len(),
                self.policy@ == old(self)@.policy,
                reading(&self.policy, &received, status) == old(self)@.feed(
                    chunk@.subrange(0, i as int),
                ),
                reading(&self.policy, &received, status).within_bounds(),
                received@ == old(self)@.received + chunk@.subrange(0, i as int),
            decreases chunk.len() - i,
        {
            let ghost before = reading(&self.policy, &received, status);
            received.push(chunk[i]);
            status = classify(&self.policy, &received);
            proof {
                let taken = chunk@.subrange(0, i + 1);
                assert(taken.drop_last() =~= chunk@.subrange(0, i as int));
                assert(taken.last() == chunk@[i as int]);
                assert(reading(&self.policy, &received, status) == before.push(
                    chunk@[i as int],
                ));
                assert(received@ =~= old(self)@.received + taken);
            }
            i += 1;
        }
        self.status = status;
        core::mem::swap(&mut self.received, &mut received);
        proof {
            let taken = chunk@.subrange(0, i as int);
            let rest = chunk@.subrange(i as int, chunk@.len() as int);
            assert(taken + rest =~= chunk@);
            lemma_feed_concat(old(self)@, taken, rest);
            if i < chunk.len() {
                lemma_feed_ended(self@, rest);
            } else {
                assert(rest =~= Seq::<u8>::empty());
            }
        }
        i
    }

    /// Tells the reader that the stream closed.
    pub fn close(&mut self)
        ensures
            final(self)@ == old(self)@.close(),
            final(self)@.within_bounds(),
    {
        proof {
            use_type_invariant(&*self);
        }
        if self.status == ReaderStatus::Pending {
            self.status = match &self.policy {
                ResponsePolicy::ReadToClose => ReaderStatus::Complete,
                _ => ReaderStatus::Truncated,
            };
        }
    }

    /// Tells the reader that the transport failed.
    pub fn fail(&mut self)
        ensures
            final(self)@ == old(self)@.fail(),
            final(self)@.within_bounds(),
    {
        proof {
            use_type_invariant(&*self);
        }
        if self.status == ReaderStatus::Pending {
            self.status = ReaderStatus::Failed;
        }
    }

    /// Ends the read: the response as text, or why there is none. `None`
    /// while the read is still pending.
    pub fn finish(self) -> (outcome: Option<Result<String, ReadError>>)
        ensures
            finish_view(outcome) == self@.outcome(),
    {
        match self.status {
            ReaderStatus::Pending => None,
            ReaderStatus::Complete => Some(decode_response(self.received)),
            ReaderStatus::Oversized => Some(Err(ReadError::OversizedResponse)),
            ReaderStatus::Truncated => Some(Err(ReadError::TruncatedResponse)),
            ReaderStatus::Failed => Some(Err(ReadError::TransportError)),
        }
    }
}

/// The text of a complete response; if the bytes are not valid UTF-8 they
/// come back whole in the error.
pub fn decode_response(bytes: Vec<u8>) -> (outcome: Result<String, ReadError>)
    ensures
        valid_utf8(bytes@) ==> outcome_view(outcome) == Ok::<Seq<char>, ReadErrorModel>(
            decode_utf8(bytes@),
        ),
        !valid_utf8(bytes@) ==> outcome_view(outcome) == Err::<Seq<char>, ReadErrorModel>(
            ReadErrorModel::EncodingError { raw: bytes@ },
        ),
{
    let text = match utf8_text(bytes.as_slice()) {
        Some(text) => Some(text.to_owned()),
        None => None,
    };
    match text {
        Some(text) => {
            proof {
                encode_utf8_decode_utf8(text@);
            }
            Ok(text)
        },
        None => Err(ReadError::EncodingError { raw: bytes }),
    }
}

/// A reader that is no longer pending takes nothing more.
pub proof fn lemma_feed_ended(reader: ReaderModel, input: Seq<u8>)
    requires
        reader.status != ReaderStatus::Pending,
    ensures
        reader.feed(input) == reader,
    decreases input.len(),
{
    if input.len() > 0 {
        lemma_feed_ended(reader, input.drop_last());
    }
}

/// How the input is cut into chunks makes no difference: feeding `first` and
/// then `second` is feeding the two in one piece.
pub proof fn lemma_feed_concat(reader: ReaderModel, first: Seq<u8>, second: Seq<u8>)
    ensures
        reader.feed(first).feed(second) == reader.feed(first + second),
    decreases second.len(),
{
    if second.len() == 0 {
        assert(first + second =~= first);
    } else {
        lemma_feed_concat(reader, first, second.drop_last());
        assert((first + second).drop_last() =~= first + second.drop_last());
        assert((first + second).last() == second.last());
    }
}

/// What a reader takes is a leading piece of what it is handed, and it stops
/// short only where the read has ended.
pub proof fn lemma_feed_takes_prefix(reader: ReaderModel, input: Seq<u8>)
    ensures
        reader.feed(input).policy == reader.policy,
        reader.received.len() <= reader.feed(input).received.len() <= reader.received.len()
            + input.len(),
        reader.feed(input).received == reader.received + input.subrange(
            0,
            reader.feed(input).received.len() - reader.received.len(),
        ),
        reader.feed(input).received.len() < reader.received.len() + input.len()
            ==> reader.feed(input).status != ReaderStatus::Pending,
    decreases input.len(),
{
    if input.len() == 0 {
        assert(reader.received + input.subrange(0, 0) =~= reader.received);
    } else {
        let shorter = input.drop_last();
        lemma_feed_takes_prefix(reader, shorter);
        let before = reader.feed(shorter);
        let taken = before.received.len() - reader.received.len();
        if before.status == ReaderStatus::Pending {
            assert(shorter.subrange(0, taken) =~= shorter);
            assert(reader.feed(input).received =~= reader.received + input.subrange(
                0,
                input.len() as int,
            ));
        } else {
            assert(shorter.subrange(0, taken) =~= input.subrange(0, taken));
        }
    }
}

/// Whether the first `k` bytes of `input`, `k` being positive, end with `sequence`.
pub open spec fn match_at(input: Seq<u8>, sequence: Seq<u8>, k: int) -> bool {
    0 < k <= input.len() && ends_with(input.subrange(0, k), sequence)
}

/// A read under a terminator, whatever the input: the reader holds a leading
/// piece of the input, never more than `max_length` bytes; no shorter piece
/// ended with the terminator; and its status says which of the three cases
/// stopped it.
pub proof fn lemma_terminator_read(sequence: Seq<u8>, max_length: nat, input: Seq<u8>)
    ensures
        ({
            let reader = ReaderModel::start(PolicyModel::Terminator { sequence, max_length }).feed(
                input,
            );
            let taken = reader.received.len() as int;
            &&& taken <= input.len()
            &&& taken <= max_length
            &&& reader.received == input.subrange(0, taken)
            &&& forall|k: int| 0 < k < taken ==> !#[trigger] match_at(input, sequence, k)
            &&& reader.status == ReaderStatus::Complete <==> match_at(input, sequence, taken)
            &&& reader.status == ReaderStatus::Oversized <==> taken == max_length && !match_at(
                input,
                sequence,
                taken,
            )
            &&& reader.status == ReaderStatus::Pending <==> taken < max_length && !match_at(
                input,
                sequence,
                taken,
            )
            &&& reader.status == ReaderStatus::Pending ==> taken == input.len()
        }),
    decreases input.len(),
{
    let policy = PolicyModel::Terminator { sequence, max_length };
    let reader = ReaderModel::start(policy).feed(input);
    if input.len() == 0 {
        assert(reader.received =~= input.subrange(0, 0));
    } else {
        let shorter = input.drop_last();
        lemma_terminator_read(sequence, max_length, shorter);
        lemma_feed_takes_prefix(ReaderModel::start(policy), shorter);
        let before = ReaderModel::start(policy).feed(shorter);
        let taken = before.received.len() as int;
        assert(shorter.subrange(0, taken) =~= input.subrange(0, taken));
        assert forall|k: int| 0 < k <= shorter.len() implies match_at(shorter, sequence, k)
            == match_at(input, sequence, k) by {
            assert(shorter.subrange(0, k) =~= input.subrange(0, k));
        }
        if before.status == ReaderStatus::Pending {
            assert(reader.received =~= input.subrange(0, input.len() as int));
            assert(reader.received =~= input);
        }
    }
}

/// A response that ends with the terminator, holds no earlier match and fits
/// the bound is returned whole and alone: whatever follows it in the input
/// stays untouched.
pub proof fn lemma_terminator_first_match(
    sequence: Seq<u8>,
    max_length: nat,
    response: Seq<u8>,
    rest: Seq<u8>,
)
    requires
        0 < response.len() <= max_length,
        ends_with(response, sequence),
        forall|k: int| 0 < k < response.len() ==> !ends_with(response.subrange(0, k), sequence),
    ensures
        ReaderModel::start(PolicyModel::Terminator { sequence, max_length }).feed(
            response + rest,
        ).status == ReaderStatus::Complete,
        ReaderModel::start(PolicyModel::Terminator { sequence, max_length }).feed(
            response + rest,
        ).received == response,
{
    let input = response + rest;
    let reader = ReaderModel::start(PolicyModel::Terminator { sequence, max_length }).feed(input);
    let taken = reader.received.len() as int;
    let whole = response.len() as int;
    lemma_terminator_read(sequence, max_length, input);
    assert(input.subrange(0, whole) =~= response);
    assert(match_at(input, sequence, whole));
    if taken < whole {
        assert(input.subrange(0, taken) =~= response.subrange(0, taken));
        assert(!match_at(input, sequence, taken));
    }
}

/// Where no leading piece of the input up to `max_length` bytes ends with the
/// terminator, the read ends as oversized with exactly `max_length` bytes
/// taken, however much input there is beyond them.
pub proof fn lemma_terminator_oversized(sequence: Seq<u8>, max_length: nat, input: Seq<u8>)
    requires
        input.len() >= max_length,
        forall|k: int| 0 < k <= max_length ==> !ends_with(input.subrange(0, k), sequence),
    ensures
        ReaderModel::start(PolicyModel::Terminator { sequence, max_length }).feed(input).status
            == ReaderStatus::Oversized,
        ReaderModel::start(PolicyModel::Terminator { sequence, max_length }).feed(input).received
            == input.subrange(0, max_length as int),
{
    let reader = ReaderModel::start(PolicyModel::Terminator { sequence, max_length }).feed(input);
    lemma_terminator_read(sequence, max_length, input);
    assert(!match_at(input, sequence, reader.received.len() as int));
}

/// A read of a fixed length takes the first `n` bytes and is complete with
/// them; with fewer than `n` it is pending, and cut off if the stream closes.
pub proof fn lemma_fixed_length_read(n: nat, input: Seq<u8>)
    ensures
        ({
            let reader = ReaderModel::start(PolicyModel::FixedLength { n }).feed(input);
            if input.len() >= n {
                &&& reader.status == ReaderStatus::Complete
                &&& reader.received == input.subrange(0, n as int)
            } else {
                &&& reader.status == ReaderStatus::Pending
                &&& reader.received == input
                &&& reader.close().status == ReaderStatus::Truncated
            }
        }),
    decreases input.len(),
{
    let start = ReaderModel::start(PolicyModel::FixedLength { n });
    if input.len() == 0 {
        assert(start.feed(input) == start);
        assert(start.received =~= input.subrange(0, 0));
        assert(start.received =~= input);
    } else {
        let shorter = input.drop_last();
        lemma_fixed_length_read(n, shorter);
        let before = start.feed(shorter);
        assert(start.feed(input) == before.push(input.last()));
        if shorter.len() >= n {
            assert(shorter.subrange(0, n as int) =~= input.subrange(0, n as int));
        } else {
            lemma_feed_takes_prefix(start, shorter);
            assert(shorter.push(input.last()) =~= input);
            assert(input.subrange(0, input.len() as int) =~= input);
        }
    }
}

/// A read to the close of the stream takes everything and is complete when
/// the stream closes.
pub proof fn lemma_read_to_close(input: Seq<u8>)
    ensures
        ReaderModel::start(PolicyModel::ReadToClose).feed(input).status == ReaderStatus::Pending,
        ReaderModel::start(PolicyModel::ReadToClose).feed(input).received == input,
        ReaderModel::start(PolicyModel::ReadToClose).feed(input).close().status
            == ReaderStatus::Complete,
        ReaderModel::start(PolicyModel::ReadToClose).feed(input).close().received == input,
    decreases input.len(),
{
    if input.len() > 0 {
        lemma_read_to_close(input.drop_last());
        assert(input.drop_last().push(input.last()) =~= input);
    }
}

/// What a reader asks for, it takes: of no more bytes than `wanted` says,
/// none is left over.
pub proof fn lemma_wanted_is_taken(reader: ReaderModel, input: Seq<u8>)
    requires
        input.len() <= reader.wanted(),
    ensures
        reader.feed(input).received == reader.received + input,
    decreases input.len(),
{
    if input.len() == 0 {
        assert(reader.received + input =~= reader.received);
    } else {
        let shorter = input.drop_last();
        lemma_wanted_is_taken(reader, shorter);
        lemma_feed_takes_prefix(reader, shorter);
        let before = reader.feed(shorter);
        assert(before.received.len() == reader.received.len() + shorter.len());
        assert(before.status == ReaderStatus::Pending) by {
            lemma_pending_below_wanted(reader, shorter);
        }
        assert(reader.feed(input).received =~= reader.received + input);
    }
}

/// A reader that was handed fewer bytes than it asked for is still pending.
proof fn lemma_pending_below_wanted(reader: ReaderModel, input: Seq<u8>)
    requires
        input.len() < reader.wanted(),
    ensures
        reader.feed(input).status == ReaderStatus::Pending,
        reader.feed(input).received.len() == reader.received.len() + input.len(),
    decreases input.len(),
{
    if input.len() > 0 {
        lemma_pending_below_wanted(reader, input.drop_last());
        lemma_feed_takes_prefix(reader, input.drop_last());
    }
}

} // verus!
