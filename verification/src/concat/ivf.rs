//! The IVF container: a file header, and behind it frames of a 12-byte header and a payload.
//!
//! Files are joined by keeping the header of the first one, moving the timestamps of every later
//! file behind those of the files in front of it, and correcting the frame count.

use crate::little_endian::{push_le, read_le};
use vstd::prelude::*;
use vstd::slice::slice_subrange;

verus! {

/// What is wrong with the files to join, or with one of them.
#[derive(Clone, Copy, Debug, PartialEq, Eq, Structural)]
pub enum IvfFault {
    /// There is no file to join.
    NoChunks,
    /// The file is shorter than the fixed part of the header.
    HeaderTooShort,
    /// The file does not begin with the signature of the format.
    InvalidMagic,
    /// The header claims to be shorter than its fixed part.
    InvalidHeaderLength { length: u16 },
    /// The file ends before its header does.
    TruncatedHeader,
    /// The codec differs from that of the first file.
    IncompatibleFourcc,
    /// The picture size differs from that of the first file.
    IncompatibleDimensions,
    /// The time base differs from that of the first file.
    IncompatibleRate,
    /// The file ends inside a frame header, of which `read` bytes are there.
    TruncatedFrameHeader { read: usize },
    /// The timestamp of a frame, moved behind the earlier files, does not fit in 64 bits.
    TimestampOverflow { frame: u64 },
    /// The file ends inside the payload of a frame, which has `size` bytes.
    TruncatedPayload { frame: u64, size: u32 },
    /// The number of frames does not fit in 64 bits.
    FrameCountOverflow,
    /// The timestamp at which the next file would begin does not fit in 64 bits.
    OffsetOverflow,
    /// The number of frames does not fit in the 32 bits that the header has for it.
    TooManyFrames,
}

/// A fault, and the file or directory in which it was found.
#[derive(Debug)]
pub struct IvfError {
    pub path: String,
    pub fault: IvfFault,
}

/// The header of an IVF file.
#[derive(Debug)]
pub struct IvfHeader {
    /// The whole header as it stands in the file.
    pub bytes: Vec<u8>,
    pub fourcc: [u8; 4],
    pub width: u16,
    pub height: u16,
    pub rate: u32,
    pub scale: u32,
}

/// What a header says.
#[verifier::ext_equal]
pub struct HeaderView {
    pub bytes: Seq<u8>,
    pub fourcc: Seq<u8>,
    pub width: nat,
    pub height: nat,
    pub rate: nat,
    pub scale: nat,
}

impl View for IvfHeader {
    type V = HeaderView;

    open spec fn view(&self) -> HeaderView {
        HeaderView {
            bytes: self.bytes@,
            fourcc: self.fourcc@,
            width: self.width as nat,
            height: self.height as nat,
            rate: self.rate as nat,
            scale: self.scale as nat,
        }
    }
}

/// The bytes `DKIF`, with which every file begins.
pub open spec fn magic() -> Seq<u8> {
    seq![0x44u8, 0x4Bu8, 0x49u8, 0x46u8]
}

/// The length that a header of at least eight bytes claims to have.
pub open spec fn header_length(file: Seq<u8>) -> nat {
    crate::little_endian::le_value(file.subrange(6, 8))
}

/// What is wrong with the header of `file`.
pub open spec fn header_fault(file: Seq<u8>) -> Option<IvfFault> {
    if file.len() < 32 {
        Some(IvfFault::HeaderTooShort)
    } else if file.take(4) != magic() {
        Some(IvfFault::InvalidMagic)
    } else if header_length(file) < 32 {
        Some(IvfFault::InvalidHeaderLength { length: header_length(file) as u16 })
    } else if file.len() < header_length(file) {
        Some(IvfFault::TruncatedHeader)
    } else {
        None
    }
}

/// What the header of `file` says, where nothing is wrong with it.
pub open spec fn header_of(file: Seq<u8>) -> HeaderView {
    HeaderView {
        bytes: file.take(header_length(file) as int),
        fourcc: file.subrange(8, 12),
        width: crate::little_endian::le_value(file.subrange(12, 14)),
        height: crate::little_endian::le_value(file.subrange(14, 16)),
        rate: crate::little_endian::le_value(file.subrange(16, 20)),
        scale: crate::little_endian::le_value(file.subrange(20, 24)),
    }
}

/// Why a file with the header `current` cannot be joined to one with the header `first`.
pub open spec fn compatibility_fault(first: HeaderView, current: HeaderView) -> Option<IvfFault> {
    if first.fourcc != current.fourcc {
        Some(IvfFault::IncompatibleFourcc)
    } else if first.width != current.width || first.height != current.height {
        Some(IvfFault::IncompatibleDimensions)
    } else if first.rate != current.rate || first.scale != current.scale {
        Some(IvfFault::IncompatibleRate)
    } else {
        None
    }
}

/// Reads the header of `file`.
pub fn read_ivf_header(file: &[u8], path: &str) -> (header: Result<IvfHeader, IvfError>)
    ensures
        match header {
            Ok(header) => header_fault(file@) is None && header@ == header_of(file@),
            Err(error) => header_fault(file@) == Some(error.fault) && error.path@ == path@,
        },
{
    broadcast use vstd::array::group_array_axioms;

    if file.len() < 32 {
        return Err(IvfError { path: path.to_owned(), fault: IvfFault::HeaderTooShort });
    }
    if !(file[0] == 0x44 && file[1] == 0x4B && file[2] == 0x49 && file[3] == 0x46) {
        proof {
            if file@.take(4) == magic() {
                assert forall|i: int| 0 <= i < 4 implies file@[i] == #[trigger] magic()[i] by {
                    assert(file@[i] == file@.take(4)[i]);
                }
                assert(magic()[0] == 0x44 && magic()[1] == 0x4B && magic()[2] == 0x49 && magic()[3]
                    == 0x46);
            }
        }
        return Err(IvfError { path: path.to_owned(), fault: IvfFault::InvalidMagic });
    }
    assert(file@.take(4) =~= magic());
    proof {
        crate::little_endian::lemma_le_ranges();
    }
    let length: usize = read_le(file, 6, 2) as usize;
    if length < 32 {
        return Err(
            IvfError {
                path: path.to_owned(),
                fault: IvfFault::InvalidHeaderLength { length: length as u16 },
            },
        );
    }
    if file.len() < length {
        return Err(IvfError { path: path.to_owned(), fault: IvfFault::TruncatedHeader });
    }
    let bytes: Vec<u8> = vstd::slice::slice_to_vec(slice_subrange(file, 0, length));
    let fourcc: [u8; 4] = [file[8], file[9], file[10], file[11]];
    assert(bytes@ =~= file@.take(length as int));
    assert(fourcc@ =~= file@.subrange(8, 12));
    Ok(
        IvfHeader {
            bytes,
            fourcc,
            width: read_le(file, 12, 2) as u16,
            height: read_le(file, 14, 2) as u16,
            rate: read_le(file, 16, 4) as u32,
            scale: read_le(file, 20, 4) as u32,
        },
    )
}

/// Tests that a file with the header `current` can be joined to one with the header `first`.
pub fn validate_compatible_ivf_header(first: &IvfHeader, current: &IvfHeader, path: &str) -> (valid:
    Result<(), IvfError>)
    ensures
        match valid {
            Ok(()) => compatibility_fault(first@, current@) is None,
            Err(error) => compatibility_fault(first@, current@) == Some(error.fault) && error.path@
                == path@,
        },
        valid is Ok <==> first.fourcc@ == current.fourcc@ && first.width == current.width
            && first.height == current.height && first.rate == current.rate && first.scale
            == current.scale,
{
    if !(first.fourcc[0] == current.fourcc[0] && first.fourcc[1] == current.fourcc[1]
        && first.fourcc[2] == current.fourcc[2] && first.fourcc[3] == current.fourcc[3]) {
        return Err(IvfError { path: path.to_owned(), fault: IvfFault::IncompatibleFourcc });
    }
    assert(first.fourcc@ =~= current.fourcc@);
    if !(first.width == current.width && first.height == current.height) {
        return Err(IvfError { path: path.to_owned(), fault: IvfFault::IncompatibleDimensions });
    }
    if !(first.rate == current.rate && first.scale == current.scale) {
        return Err(IvfError { path: path.to_owned(), fault: IvfFault::IncompatibleRate });
    }
    Ok(())
}

/// A frame: when it is shown, and what is shown.
#[verifier::ext_equal]
pub struct FrameView {
    pub timestamp: nat,
    pub payload: Seq<u8>,
}

/// How the bytes behind the header of a file end.
pub enum Ending {
    /// With the last byte of a frame.
    Complete,
    /// With the first `read` bytes of a frame header.
    InHeader { read: nat },
    /// Inside the payload of a frame.
    InPayload { timestamp: nat, size: nat },
}

/// The payload size that the frame header at the start of `bytes` gives.
pub open spec fn frame_size(bytes: Seq<u8>) -> nat {
    crate::little_endian::le_value(bytes.subrange(0, 4))
}

/// The timestamp that the frame header at the start of `bytes` gives.
pub open spec fn frame_timestamp(bytes: Seq<u8>) -> nat {
    crate::little_endian::le_value(bytes.subrange(4, 12))
}

/// Whether `bytes` begin with a whole frame.
pub open spec fn has_frame(bytes: Seq<u8>) -> bool {
    bytes.len() >= 12 && bytes.len() - 12 >= frame_size(bytes)
}

/// The frames with which `bytes` begin, up to the first that is not whole.
pub open spec fn frames(bytes: Seq<u8>) -> Seq<FrameView>
    decreases bytes.len(),
{
    if has_frame(bytes) {
        let end = 12 + frame_size(bytes) as int;
        seq![
            FrameView {
                timestamp: frame_timestamp(bytes),
                payload: bytes.subrange(12, end),
            },
        ] + frames(bytes.skip(end))
    } else {
        Seq::empty()
    }
}

/// How `bytes` end behind the frames with which they begin.
pub open spec fn ending(bytes: Seq<u8>) -> Ending
    decreases bytes.len(),
{
    if has_frame(bytes) {
        ending(bytes.skip(12 + frame_size(bytes) as int))
    } else if bytes.len() == 0 {
        Ending::Complete
    } else if bytes.len() < 12 {
        Ending::InHeader { read: bytes.len() }
    } else {
        Ending::InPayload { timestamp: frame_timestamp(bytes), size: frame_size(bytes) }
    }
}

/// What stands behind the header of `file`.
pub open spec fn body(file: Seq<u8>) -> Seq<u8> {
    file.skip(header_length(file) as int)
}

/// A frame as it is written.
pub open spec fn encode_frame(frame: FrameView) -> Seq<u8> {
    crate::little_endian::le_bytes(frame.payload.len(), 4) + crate::little_endian::le_bytes(
        frame.timestamp,
        8,
    ) + frame.payload
}

/// Frames as they are written, one behind the other.
pub open spec fn encode(frames: Seq<FrameView>) -> Seq<u8>
    decreases frames.len(),
{
    if frames.len() == 0 {
        Seq::empty()
    } else {
        encode(frames.drop_last()) + encode_frame(frames.last())
    }
}

/// The same frames, shown later by `offset`.
pub open spec fn delayed(frames: Seq<FrameView>, offset: nat) -> Seq<FrameView> {
    Seq::new(
        frames.len(),
        |i: int|
            FrameView { timestamp: frames[i].timestamp + offset, payload: frames[i].payload },
    )
}

/// The timestamp of the last frame, or zero where there is none.
pub open spec fn last_timestamp(frames: Seq<FrameView>) -> nat {
    if frames.len() == 0 {
        0
    } else {
        frames.last().timestamp
    }
}

/// What stops the frame at `index` of `bytes` from being written, where its timestamp is moved by
/// `offset` and `count` frames of other files stand in front of the file's own.
pub open spec fn frame_fault(bytes: Seq<u8>, offset: nat, count: nat, index: nat) -> Option<
    IvfFault,
> {
    let whole = frames(bytes);
    if index < whole.len() {
        if whole[index as int].timestamp + offset > u64::MAX {
            Some(IvfFault::TimestampOverflow { frame: index as u64 })
        } else if count + index + 1 > u64::MAX {
            Some(IvfFault::FrameCountOverflow)
        } else {
            None
        }
    } else {
        match ending(bytes) {
            Ending::Complete => None,
            Ending::InHeader { read } => Some(
                IvfFault::TruncatedFrameHeader { read: read as usize },
            ),
            Ending::InPayload { timestamp, size } => if timestamp + offset > u64::MAX {
                Some(IvfFault::TimestampOverflow { frame: index as u64 })
            } else {
                Some(IvfFault::TruncatedPayload { frame: index as u64, size: size as u32 })
            },
        }
    }
}

/// What stops the frames of `bytes` from `from` on from being written: the fault of the first of
/// them that has one.
pub open spec fn frames_fault(bytes: Seq<u8>, offset: nat, count: nat, from: nat) -> Option<
    IvfFault,
>
    decreases frames(bytes).len() - from,
{
    if frame_fault(bytes, offset, count, from) is Some || from >= frames(bytes).len() {
        frame_fault(bytes, offset, count, from)
    } else {
        frames_fault(bytes, offset, count, from + 1)
    }
}

/// What stops `file` from being joined behind files whose first header is `first`, which hold
/// `count` frames and end at the timestamp `offset`.
pub open spec fn file_fault(first: HeaderView, file: Seq<u8>, offset: nat, count: nat) -> Option<
    IvfFault,
> {
    if header_fault(file) is Some {
        header_fault(file)
    } else if compatibility_fault(first, header_of(file)) is Some {
        compatibility_fault(first, header_of(file))
    } else if frames_fault(body(file), offset, count, 0) is Some {
        frames_fault(body(file), offset, count, 0)
    } else if offset + last_timestamp(frames(body(file))) + 1 > u64::MAX {
        Some(IvfFault::OffsetOverflow)
    } else {
        None
    }
}

/// Reads the frame header at `at`: `None` at the end of the file.
pub fn read_ivf_frame_header(file: &[u8], at: usize, path: &str) -> (header: Result<
    Option<[u8; 12]>,
    IvfError,
>)
    requires
        at <= file@.len(),
    ensures
        match header {
            Ok(Some(header)) => at + 12 <= file@.len() && header@ == file@.subrange(
                at as int,
                at + 12,
            ),
            Ok(None) => at == file@.len(),
            Err(error) => 0 < file@.len() - at < 12 && error.path@ == path@ && error.fault == (
            IvfFault::TruncatedFrameHeader { read: (file@.len() - at) as usize }),
        },
{
    let left: usize = file.len() - at;
    if left == 0 {
        return Ok(None);
    }
    if left < 12 {
        return Err(
            IvfError {
                path: path.to_owned(),
                fault: IvfFault::TruncatedFrameHeader { read: left },
            },
        );
    }
    let mut header: [u8; 12] = [0u8; 12];
    let mut read: usize = 0;
    while read < 12
        invariant
            read <= 12,
            at + 12 <= file@.len(),
            file@.len() <= usize::MAX,
            forall|i: int| at <= i < at + read ==> header@[i - at] == #[trigger] file@[i],
        decreases 12 - read,
    {
        header[read] = file[at + read];
        read = read + 1;
    }
    assert(header@ =~= file@.subrange(at as int, at + 12));
    Ok(Some(header))
}

/// Copies the payload at `at` behind `output`. Where the file ends inside it, what is there is
/// copied and the copy fails.
pub fn copy_ivf_payload(
    file: &[u8],
    at: usize,
    output: &mut Vec<u8>,
    payload_size: u32,
    path: &str,
    frame_index: u64,
) -> (copied: Result<(), IvfError>)
    requires
        at <= file@.len(),
    ensures
        match copied {
            Ok(()) => at + payload_size <= file@.len() && final(output)@ == old(output)@
                + file@.subrange(at as int, at + payload_size),
            Err(error) => at + payload_size > file@.len() && final(output)@ == old(output)@
                + file@.skip(at as int) && error.path@ == path@ && error.fault == (
            IvfFault::TruncatedPayload { frame: frame_index, size: payload_size }),
        },
{
    let left: usize = file.len() - at;
    if (left as u64) < payload_size as u64 {
        output.extend_from_slice(slice_subrange(file, at, file.len()));
        assert(output@ =~= old(output)@ + file@.skip(at as int));
        return Err(
            IvfError {
                path: path.to_owned(),
                fault: IvfFault::TruncatedPayload { frame: frame_index, size: payload_size },
            },
        );
    }
    output.extend_from_slice(slice_subrange(file, at, at + payload_size as usize));
    assert(output@ =~= old(output)@ + file@.subrange(at as int, at + payload_size));
    Ok(())
}

/// Files being joined: the header of the first one, and where the next one goes.
#[derive(Debug)]
pub struct IvfConcat {
    pub first: IvfHeader,
    /// The number of frames written so far.
    pub frame_count: u64,
    /// The timestamp at which the next file begins.
    pub pos_offset: u64,
}

impl IvfConcat {
    /// Begins to join files, of which `file` is the first. The header is taken from it; its frames
    /// are still to be appended.
    pub fn new(file: &[u8], path: &str) -> (concat: Result<IvfConcat, IvfError>)
        ensures
            match concat {
                Ok(concat) => header_fault(file@) is None && concat.first@ == header_of(file@)
                    && concat.frame_count == 0 && concat.pos_offset == 0,
                Err(error) => header_fault(file@) == Some(error.fault) && error.path@ == path@,
            },
    {
        match read_ivf_header(file, path) {
            Ok(first) => Ok(IvfConcat { first, frame_count: 0, pos_offset: 0 }),
            Err(error) => Err(error),
        }
    }

    /// Appends the frames of `file`, and returns them as they stand in the output. A file that
    /// cannot be joined changes nothing.
    pub fn append(&mut self, file: &[u8], path: &str) -> (written: Result<Vec<u8>, IvfError>)
        ensures
            final(self).first == old(self).first,
            match written {
                Ok(written) => {
                    let own = frames(body(file@));
                    &&& file_fault(
                        old(self).first@,
                        file@,
                        old(self).pos_offset as nat,
                        old(self).frame_count as nat,
                    ) is None
                    &&& written@ == encode(delayed(own, old(self).pos_offset as nat))
                    &&& final(self).frame_count == old(self).frame_count + own.len()
                    &&& final(self).pos_offset == old(self).pos_offset + last_timestamp(own) + 1
                },
                Err(error) => {
                    &&& file_fault(
                        old(self).first@,
                        file@,
                        old(self).pos_offset as nat,
                        old(self).frame_count as nat,
                    ) == Some(error.fault)
                    &&& error.path@ == path@
                    &&& *final(self) == *old(self)
                },
            },
    {
        let header: IvfHeader = match read_ivf_header(file, path) {
            Ok(header) => header,
            Err(error) => {
                return Err(error);
            },
        };
        match validate_compatible_ivf_header(&self.first, &header, path) {
            Ok(()) => {},
            Err(error) => {
                return Err(error);
            },
        }
        let offset: u64 = self.pos_offset;
        let mut at: usize = header.bytes.len();
        let mut frame_count: u64 = self.frame_count;
        let mut frame_index: u64 = 0;
        let mut last_local_timestamp: u64 = 0;
        let mut output: Vec<u8> = Vec::new();
        let ghost whole = body(file@);
        let ghost count = self.frame_count as nat;
        let ghost mut done: Seq<FrameView> = Seq::empty();
        assert(file@.len() == file.len());
        assert(file@.skip(at as int) =~= whole);
        assert(done + frames(whole) =~= frames(whole));
        assert(encode(delayed(done, offset as nat)) =~= output@);
        loop
            invariant
                at <= file@.len() <= usize::MAX,
                whole == body(file@),
                frames(whole) == done + frames(file@.skip(at as int)),
                ending(whole) == ending(file@.skip(at as int)),
                frames_fault(whole, offset as nat, count, 0) == frames_fault(
                    whole,
                    offset as nat,
                    count,
                    done.len(),
                ),
                done.len() <= at,
                frame_index == done.len(),
                frame_count == count + done.len(),
                last_local_timestamp == last_timestamp(done),
                output@ == encode(delayed(done, offset as nat)),
                *self == *old(self),
                header_fault(file@) is None,
                compatibility_fault(old(self).first@, header_of(file@)) is None,
                offset == old(self).pos_offset,
                count == old(self).frame_count,
            ensures
                at == file@.len(),
            decreases file@.len() - at,
        {
            let ghost rest = file@.skip(at as int);
            match read_ivf_frame_header(file, at, path) {
                Err(error) => {
                    return Err(error);
                },
                Ok(None) => {
                    break;
                },
                Ok(Some(frame_header)) => {
                    let payload_size: u32 = read_le(frame_header.as_slice(), 0, 4) as u32;
                    let local_timestamp: u64 = read_le(frame_header.as_slice(), 4, 8);
                    proof {
                        crate::little_endian::lemma_le_ranges();
                        assert(frame_header@.subrange(0, 4) =~= rest.subrange(0, 4));
                        assert(frame_header@.subrange(4, 12) =~= rest.subrange(4, 12));
                    }
                    let output_timestamp: u64 = match local_timestamp.checked_add(offset) {
                        Some(output_timestamp) => output_timestamp,
                        None => {
                            return Err(
                                IvfError {
                                    path: path.to_owned(),
                                    fault: IvfFault::TimestampOverflow { frame: frame_index },
                                },
                            );
                        },
                    };
                    push_le(&mut output, payload_size as u64, 4);
                    push_le(&mut output, output_timestamp, 8);
                    match copy_ivf_payload(
                        file,
                        at + 12,
                        &mut output,
                        payload_size,
                        path,
                        frame_index,
                    ) {
                        Ok(()) => {},
                        Err(error) => {
                            return Err(error);
                        },
                    }
                    let ghost before = done;
                    proof {
                        let end = 12 + payload_size as int;
                        let frame = FrameView {
                            timestamp: local_timestamp as nat,
                            payload: rest.subrange(12, end),
                        };
                        done = before.push(frame);
                        assert(has_frame(rest));
                        assert(frames(rest) =~= seq![frame] + frames(rest.skip(end)));
                        assert(rest.skip(end) =~= file@.skip(at + end));
                        assert(file@.subrange(at + 12, at + end) =~= frame.payload);
                        assert(before + frames(rest) =~= done + frames(file@.skip(at + end)));
                        let shown = delayed(done, offset as nat);
                        assert(shown.drop_last() =~= delayed(before, offset as nat));
                        assert(output@ =~= encode(shown));
                    }
                    at = at + 12 + payload_size as usize;
                    last_local_timestamp = local_timestamp;
                    frame_count = match frame_count.checked_add(1) {
                        Some(frame_count) => frame_count,
                        None => {
                            return Err(
                                IvfError {
                                    path: path.to_owned(),
                                    fault: IvfFault::FrameCountOverflow,
                                },
                            );
                        },
                    };
                    frame_index = frame_index + 1;
                },
            }
        }
        assert(file@.skip(at as int) =~= Seq::empty());
        assert(done =~= frames(whole));
        let next_offset: u64 = match offset.checked_add(last_local_timestamp) {
            Some(last) => match last.checked_add(1) {
                Some(next) => next,
                None => {
                    return Err(
                        IvfError { path: path.to_owned(), fault: IvfFault::OffsetOverflow },
                    );
                },
            },
            None => {
                return Err(IvfError { path: path.to_owned(), fault: IvfFault::OffsetOverflow });
            },
        };
        self.frame_count = frame_count;
        self.pos_offset = next_offset;
        Ok(output)
    }

    /// The frame count for the header of the output.
    pub fn final_frame_count(&self, path: &str) -> (count: Result<u32, IvfError>)
        ensures
            match count {
                Ok(count) => count == self.frame_count,
                Err(error) => self.frame_count > u32::MAX && error.fault == IvfFault::TooManyFrames
                    && error.path@ == path@,
            },
    {
        if self.frame_count > u32::MAX as u64 {
            return Err(IvfError { path: path.to_owned(), fault: IvfFault::TooManyFrames });
        }
        Ok(self.frame_count as u32)
    }
}

/// The timestamp at which the file at `index` begins: one behind the last frame of the file in
/// front of it.
pub open spec fn offset_before(files: Seq<Seq<u8>>, index: int) -> nat
    decreases index,
{
    if index <= 0 {
        0
    } else {
        offset_before(files, index - 1) + last_timestamp(frames(body(files[index - 1]))) + 1
    }
}

/// The frames of the files in front of the one at `index`, as they stand in the output.
pub open spec fn frames_before(files: Seq<Seq<u8>>, index: int) -> Seq<FrameView>
    decreases index,
{
    if index <= 0 {
        Seq::empty()
    } else {
        frames_before(files, index - 1) + delayed(
            frames(body(files[index - 1])),
            offset_before(files, index - 1),
        )
    }
}

/// All frames of `files`, as they stand in the output.
pub open spec fn joined_frames(files: Seq<Seq<u8>>) -> Seq<FrameView> {
    frames_before(files, files.len() as int)
}

/// What stops the file at `index` from being joined to those in front of it.
pub open spec fn fault_at(files: Seq<Seq<u8>>, index: int) -> Option<IvfFault> {
    file_fault(
        header_of(files[0]),
        files[index],
        offset_before(files, index),
        frames_before(files, index).len(),
    )
}

/// The first file from `from` on that cannot be joined, and why.
pub open spec fn first_fault(files: Seq<Seq<u8>>, from: int) -> Option<(int, IvfFault)>
    decreases files.len() - from,
{
    if from >= files.len() {
        None
    } else {
        match fault_at(files, from) {
            Some(fault) => Some((from, fault)),
            None => first_fault(files, from + 1),
        }
    }
}

/// A header with another frame count in it.
pub open spec fn with_frame_count(header: Seq<u8>, count: nat) -> Seq<u8> {
    header.take(24) + crate::little_endian::le_bytes(count, 4) + header.skip(28)
}

/// Whether `files` can be joined.
pub open spec fn joinable(files: Seq<Seq<u8>>) -> bool {
    &&& files.len() > 0
    &&& first_fault(files, 0) is None
    &&& joined_frames(files).len() <= u32::MAX
}

/// The files in one: the header of the first, with the number of frames that really follow, and
/// the frames of all.
pub open spec fn joined(files: Seq<Seq<u8>>) -> Seq<u8> {
    with_frame_count(header_of(files[0]).bytes, joined_frames(files).len()) + encode(
        joined_frames(files),
    )
}

/// The bytes of `count` as they stand in the frame count field of a header.
pub fn frame_count_field(count: u32) -> (field: Vec<u8>)
    ensures
        field@ == crate::little_endian::le_bytes(count as nat, 4),
{
    let mut field: Vec<u8> = Vec::new();
    push_le(&mut field, count as u64, 4);
    assert(field@ =~= crate::little_endian::le_bytes(count as nat, 4));
    field
}

/// Frames are written one list behind the other as they are written in one list.
pub(crate) proof fn lemma_encode_concat(front: Seq<FrameView>, back: Seq<FrameView>)
    ensures
        encode(front + back) == encode(front) + encode(back),
    decreases back.len(),
{
    if back.len() == 0 {
        assert(front + back =~= front);
        assert(encode(front) + encode(back) =~= encode(front));
    } else {
        lemma_encode_concat(front, back.drop_last());
        assert((front + back).drop_last() =~= front + back.drop_last());
        assert(encode(front + back) =~= encode(front) + encode(back));
    }
}

/// The view of a header shows all that is in it.
pub proof fn header_view_shows_every_field(header: IvfHeader)
    ensures
        header@.bytes == header.bytes@,
        header@.fourcc == header.fourcc@,
        header@.width == header.width,
        header@.height == header.height,
        header@.rate == header.rate,
        header@.scale == header.scale,
{
}

} // verus!
