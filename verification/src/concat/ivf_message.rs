//! How the faults of IVF files are reported.

use crate::concat::ivf::{IvfError, IvfFault};
use crate::decimal::push_decimal;
use vstd::prelude::*;

verus! {

/// What is said of a fault in the file or directory `path`.
pub open spec fn fault_message(fault: IvfFault, path: Seq<char>) -> Seq<char> {
    match fault {
        IvfFault::NoChunks => "No IVF chunks found in "@ + path,
        IvfFault::HeaderTooShort => "IVF header shorter than 32 bytes in "@ + path,
        IvfFault::InvalidMagic => "Invalid IVF magic in "@ + path,
        IvfFault::InvalidHeaderLength { length } => "Invalid IVF header length "@
            + crate::decimal::decimal(length as nat) + " in "@ + path,
        IvfFault::TruncatedHeader => "Truncated extended IVF header in "@ + path,
        IvfFault::IncompatibleFourcc => "Incompatible IVF FourCC in "@ + path,
        IvfFault::IncompatibleDimensions => "Incompatible IVF dimensions in "@ + path,
        IvfFault::IncompatibleRate => "Incompatible IVF rate/scale in "@ + path,
        IvfFault::TruncatedFrameHeader { read } => "Truncated IVF frame header in "@ + path
            + ": got "@ + crate::decimal::decimal(read as nat) + "/12 bytes"@,
        IvfFault::TimestampOverflow { frame } => "IVF timestamp overflow in "@ + path
            + " at frame "@ + crate::decimal::decimal(frame as nat),
        IvfFault::TruncatedPayload { frame, size } => "Truncated IVF payload in "@ + path
            + " at frame "@ + crate::decimal::decimal(frame as nat) + ": expected "@
            + crate::decimal::decimal(size as nat) + " bytes"@,
        IvfFault::FrameCountOverflow => "IVF frame count overflow"@,
        IvfFault::OffsetOverflow => "IVF timestamp offset overflow after "@ + path,
        IvfFault::TooManyFrames => "IVF frame count exceeds u32"@,
    }
}

/// Joins two texts.
fn joined_text(front: &str, back: &str) -> (text: String)
    ensures
        text@ == front@ + back@,
{
    let mut text: String = front.to_owned();
    text.append(back);
    text
}

impl IvfError {
    /// What is said of the fault.
    pub fn to_string(&self) -> (message: String)
        ensures
            message@ == fault_message(self.fault, self.path@),
    {
        let path: &str = self.path.as_str();
        match self.fault {
            IvfFault::NoChunks => joined_text("No IVF chunks found in ", path),
            IvfFault::HeaderTooShort => joined_text("IVF header shorter than 32 bytes in ", path),
            IvfFault::InvalidMagic => joined_text("Invalid IVF magic in ", path),
            IvfFault::InvalidHeaderLength { length } => {
                let mut message: String = "Invalid IVF header length ".to_owned();
                push_decimal(&mut message, length as u64);
                message.append(" in ");
                message.append(path);
                message
            },
            IvfFault::TruncatedHeader => joined_text("Truncated extended IVF header in ", path),
            IvfFault::IncompatibleFourcc => joined_text("Incompatible IVF FourCC in ", path),
            IvfFault::IncompatibleDimensions => joined_text(
                "Incompatible IVF dimensions in ",
                path,
            ),
            IvfFault::IncompatibleRate => joined_text("Incompatible IVF rate/scale in ", path),
            IvfFault::TruncatedFrameHeader { read } => {
                let mut message: String = joined_text("Truncated IVF frame header in ", path);
                message.append(": got ");
                push_decimal(&mut message, read as u64);
                message.append("/12 bytes");
                message
            },
            IvfFault::TimestampOverflow { frame } => {
                let mut message: String = joined_text("IVF timestamp overflow in ", path);
                message.append(" at frame ");
                push_decimal(&mut message, frame);
                message
            },
            IvfFault::TruncatedPayload { frame, size } => {
                let mut message: String = joined_text("Truncated IVF payload in ", path);
                message.append(" at frame ");
                push_decimal(&mut message, frame);
                message.append(": expected ");
                push_decimal(&mut message, size as u64);
                message.append(" bytes");
                message
            },
            IvfFault::FrameCountOverflow => "IVF frame count overflow".to_owned(),
            IvfFault::OffsetOverflow => joined_text("IVF timestamp offset overflow after ", path),
            IvfFault::TooManyFrames => "IVF frame count exceeds u32".to_owned(),
        }
    }
}

/// What is said of each fault: it names the file or directory in which it was found, but for the two
/// that are of all files together, and gives the numbers that belong to it.
pub proof fn faults_are_told_with_their_numbers(
    path: Seq<char>,
    length: u16,
    read: usize,
    frame: u64,
    size: u32,
)
    ensures
        fault_message(IvfFault::NoChunks, path) == "No IVF chunks found in "@ + path,
        fault_message(IvfFault::HeaderTooShort, path) == "IVF header shorter than 32 bytes in "@ + path,
        fault_message(IvfFault::InvalidMagic, path) == "Invalid IVF magic in "@ + path,
        fault_message(IvfFault::InvalidHeaderLength { length }, path) == "Invalid IVF header length "@
            + crate::decimal::decimal(length as nat) + " in "@ + path,
        fault_message(IvfFault::TruncatedHeader, path) == "Truncated extended IVF header in "@ + path,
        fault_message(IvfFault::IncompatibleFourcc, path) == "Incompatible IVF FourCC in "@ + path,
        fault_message(IvfFault::IncompatibleDimensions, path) == "Incompatible IVF dimensions in "@
            + path,
        fault_message(IvfFault::IncompatibleRate, path) == "Incompatible IVF rate/scale in "@ + path,
        fault_message(IvfFault::TruncatedFrameHeader { read }, path)
            == "Truncated IVF frame header in "@ + path + ": got "@ + crate::decimal::decimal(
            read as nat,
        ) + "/12 bytes"@,
        fault_message(IvfFault::TimestampOverflow { frame }, path) == "IVF timestamp overflow in "@
            + path + " at frame "@ + crate::decimal::decimal(frame as nat),
        fault_message(IvfFault::TruncatedPayload { frame, size }, path) == "Truncated IVF payload in "@
            + path + " at frame "@ + crate::decimal::decimal(frame as nat) + ": expected "@
            + crate::decimal::decimal(size as nat) + " bytes"@,
        fault_message(IvfFault::FrameCountOverflow, path) == "IVF frame count overflow"@,
        fault_message(IvfFault::OffsetOverflow, path) == "IVF timestamp offset overflow after "@ + path,
        fault_message(IvfFault::TooManyFrames, path) == "IVF frame count exceeds u32"@,
{
}

} // verus!
