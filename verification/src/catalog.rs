//! The command catalog: every logical operation with its protocol code, the
//! way it carries an argument and the policy by which its response is read.

use vstd::prelude::*;

verus! {

/// The logical operations the device understands.
///
/// `Unknown1` and `Unknown2` are codes observed on the wire whose meaning is
/// not documented; they are kept so that they can still be sent.
#[derive(Clone, Copy, Debug, PartialEq, Eq, Structural)]
pub enum PrinterCommand {
    MachineStatus,
    MachineTemps,
    PositionInfo,
    MachineInfo,
    PrintResume,
    PrintPause,
    PrintStatus,
    SendFile,
    SaveFile,
    OpenFile,
    GainControl,
    ReleaseControl,
    Unknown1,
    Unknown2,
}

/// How a command carries its argument on the wire.
#[derive(Clone, Copy, Debug, PartialEq, Eq, Structural)]
pub enum ArgumentEncoding {
    /// The command is sent bare.
    Absent,
    /// One space, then the argument's bytes as they are.
    SpacePrefixed,
}

/// How the end of a response is recognised.
#[derive(Debug, PartialEq, Eq)]
pub enum ResponsePolicy {
    /// Read until the bytes read so far end with `sequence`; give up once
    /// `max_length` bytes have been read without that.
    Terminator { sequence: Vec<u8>, max_length: usize },
    /// Read exactly `n` bytes.
    FixedLength { n: usize },
    /// Read until the peer closes the stream.
    ReadToClose,
}

/// The mathematical value of a [`ResponsePolicy`].
pub enum PolicyModel {
    Terminator { sequence: Seq<u8>, max_length: nat },
    FixedLength { n: nat },
    ReadToClose,
}

impl View for ResponsePolicy {
    type V = PolicyModel;

    open spec fn view(&self) -> PolicyModel {
        match *self {
            ResponsePolicy::Terminator { sequence, max_length } => PolicyModel::Terminator {
                sequence: sequence@,
                max_length: max_length as nat,
            },
            ResponsePolicy::FixedLength { n } => PolicyModel::FixedLength { n: n as nat },
            ResponsePolicy::ReadToClose => PolicyModel::ReadToClose,
        }
    }
}

/// One catalog entry.
#[derive(Debug, PartialEq, Eq)]
pub struct Command {
    pub code: u16,
    pub argument_encoding: ArgumentEncoding,
    pub response_policy: ResponsePolicy,
}

/// Upper bound on a status response; a safety limit, not a protocol rule.
pub const MAX_RESPONSE_LENGTH: usize = 1024;

/// The line that closes a status response: `"\r\nok\r\n"`.
pub open spec fn response_end() -> Seq<u8> {
    seq![0x0du8, 0x0au8, 0x6fu8, 0x6bu8, 0x0du8, 0x0au8]
}

/// The policy every catalog entry is read with.
pub open spec fn standard_policy() -> PolicyModel {
    PolicyModel::Terminator { sequence: response_end(), max_length: MAX_RESPONSE_LENGTH as nat }
}

impl PrinterCommand {
    /// The protocol code of each operation.
    pub open spec fn spec_code(self) -> u16 {
        match self {
            PrinterCommand::OpenFile => 23,
            PrinterCommand::PrintResume => 24,
            PrinterCommand::PrintPause => 25,
            PrinterCommand::Unknown2 => 26,
            PrinterCommand::PrintStatus => 27,
            PrinterCommand::SendFile => 28,
            PrinterCommand::SaveFile => 29,
            PrinterCommand::MachineTemps => 105,
            PrinterCommand::PositionInfo => 114,
            PrinterCommand::MachineInfo => 115,
            PrinterCommand::MachineStatus => 119,
            PrinterCommand::GainControl => 601,
            PrinterCommand::ReleaseControl => 602,
            PrinterCommand::Unknown1 => 650,
        }
    }

    /// Which operations take an argument.
    pub open spec fn spec_argument_encoding(self) -> ArgumentEncoding {
        match self {
            PrinterCommand::GainControl | PrinterCommand::SendFile | PrinterCommand::OpenFile =>
                ArgumentEncoding::SpacePrefixed,
            _ => ArgumentEncoding::Absent,
        }
    }

    #[verifier::when_used_as_spec(spec_code)]
    pub fn code(self) -> (code: u16)
        ensures
            code == self.spec_code(),
    {
        match self {
            PrinterCommand::OpenFile => 23,
            PrinterCommand::PrintResume => 24,
            PrinterCommand::PrintPause => 25,
            PrinterCommand::Unknown2 => 26,
            PrinterCommand::PrintStatus => 27,
            PrinterCommand::SendFile => 28,
            PrinterCommand::SaveFile => 29,
            PrinterCommand::MachineTemps => 105,
            PrinterCommand::PositionInfo => 114,
            PrinterCommand::MachineInfo => 115,
            PrinterCommand::MachineStatus => 119,
            PrinterCommand::GainControl => 601,
            PrinterCommand::ReleaseControl => 602,
            PrinterCommand::Unknown1 => 650,
        }
    }

    #[verifier::when_used_as_spec(spec_argument_encoding)]
    pub fn argument_encoding(self) -> (encoding: ArgumentEncoding)
        ensures
            encoding == self.spec_argument_encoding(),
    {
        match self {
            PrinterCommand::GainControl | PrinterCommand::SendFile | PrinterCommand::OpenFile =>
                ArgumentEncoding::SpacePrefixed,
            _ => ArgumentEncoding::Absent,
        }
    }

    /// The operation that a protocol code stands for, if any.
    pub fn from_code(code: u16) -> (name: Option<PrinterCommand>)
        ensures
            match name {
                Some(c) => c.spec_code() == code,
                None => forall|c: PrinterCommand| c.spec_code() != code,
            },
    {
        match code {
            23 => Some(PrinterCommand::OpenFile),
            24 => Some(PrinterCommand::PrintResume),
            25 => Some(PrinterCommand::PrintPause),
            26 => Some(PrinterCommand::Unknown2),
            27 => Some(PrinterCommand::PrintStatus),
            28 => Some(PrinterCommand::SendFile),
            29 => Some(PrinterCommand::SaveFile),
            105 => Some(PrinterCommand::MachineTemps),
            114 => Some(PrinterCommand::PositionInfo),
            115 => Some(PrinterCommand::MachineInfo),
            119 => Some(PrinterCommand::MachineStatus),
            601 => Some(PrinterCommand::GainControl),
            602 => Some(PrinterCommand::ReleaseControl),
            650 => Some(PrinterCommand::Unknown1),
            _ => None,
        }
    }
}

/// No two operations share a code.
pub proof fn lemma_codes_distinct(a: PrinterCommand, b: PrinterCommand)
    ensures
        a.spec_code() == b.spec_code() <==> a == b,
{
}

/// The terminator of status responses, as bytes.
pub fn response_end_bytes() -> (bytes: Vec<u8>)
    ensures
        bytes@ == response_end(),
{
    let mut bytes: Vec<u8> = Vec::new();
    bytes.push(0x0d);
    bytes.push(0x0a);
    bytes.push(0x6f);
    bytes.push(0x6b);
    bytes.push(0x0d);
    bytes.push(0x0a);
    assert(bytes@ =~= response_end());
    bytes
}

/// The catalog entry of a logical operation.
pub fn lookup(name: PrinterCommand) -> (command: Command)
    ensures
        command.code == name.spec_code(),
        command.argument_encoding == name.spec_argument_encoding(),
        command.response_policy@ == standard_policy(),
{
    Command {
        code: name.code(),
        argument_encoding: name.argument_encoding(),
        response_policy: ResponsePolicy::Terminator {
            sequence: response_end_bytes(),
            max_length: MAX_RESPONSE_LENGTH,
        },
    }
}

} // verus!
