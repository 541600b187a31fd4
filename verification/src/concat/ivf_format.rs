//! What the bytes of IVF files say, byte by byte, and which files can be joined.

use crate::concat::ivf::{
    body, compatibility_fault, delayed, encode, encode_frame, ending, fault_at, file_fault,
    first_fault, frame_fault, frame_size, frame_timestamp, frames, frames_before, frames_fault,
    header_fault, header_length, header_of, joinable, joined, joined_frames, offset_before,
    Ending, FrameView, HeaderView, IvfFault,
};
use crate::little_endian::{
    eight_bytes_by_weight, eight_bytes_written, four_bytes_by_weight, four_bytes_written, le_bytes,
    same_number_means_same_bytes, two_bytes_by_weight,
};
use vstd::prelude::*;

verus! {

/// The number in the two bytes from `at` on.
pub open spec fn number16(file: Seq<u8>, at: int) -> int {
    file[at] + 0x100 * file[at + 1]
}

/// The number in the four bytes from `at` on.
pub open spec fn number32(file: Seq<u8>, at: int) -> int {
    file[at] + 0x100 * file[at + 1] + 0x1_0000 * file[at + 2] + 0x100_0000 * file[at + 3]
}

/// The number in the eight bytes from `at` on.
pub open spec fn number64(file: Seq<u8>, at: int) -> int {
    number32(file, at) + 0x1_0000_0000 * number32(file, at + 4)
}

proof fn lemma_header_length(file: Seq<u8>)
    requires
        file.len() >= 8,
    ensures
        header_length(file) == number16(file, 6),
{
    two_bytes_by_weight(file.subrange(6, 8));
}

/// Whether `file` begins with the bytes `DKIF`.
pub open spec fn has_signature(file: Seq<u8>) -> bool {
    file[0] == 0x44 && file[1] == 0x4B && file[2] == 0x49 && file[3] == 0x46
}

/// Whether `file` begins with a whole header.
pub open spec fn has_sound_header(file: Seq<u8>) -> bool {
    file.len() >= 32 && has_signature(file) && 32 <= number16(file, 6) <= file.len()
}

/// When a header is refused, and why: the first of these that holds decides.
pub proof fn header_is_sound_byte_by_byte(file: Seq<u8>)
    ensures
        header_fault(file) is None <==> has_sound_header(file),
        header_fault(file) == Some(IvfFault::HeaderTooShort) <==> file.len() < 32,
        header_fault(file) == Some(IvfFault::InvalidMagic) <==> file.len() >= 32 && !has_signature(
            file,
        ),
        header_fault(file) matches Some(IvfFault::InvalidHeaderLength { length }) ==> length
            == number16(file, 6),
        header_fault(file) matches Some(IvfFault::InvalidHeaderLength { .. }) <==> file.len() >= 32
            && has_signature(file) && number16(file, 6) < 32,
        header_fault(file) == Some(IvfFault::TruncatedHeader) <==> has_signature(file) && 32
            <= file.len() < number16(file, 6),
{
    if file.len() >= 32 {
        lemma_header_length(file);
        let magic = crate::concat::ivf::magic();
        assert(magic.len() == 4 && magic[0] == 0x44 && magic[1] == 0x4B && magic[2] == 0x49
            && magic[3] == 0x46);
        assert(file.take(4)[0] == file[0] && file.take(4)[1] == file[1] && file.take(4)[2] == file[2]
            && file.take(4)[3] == file[3]);
        if has_signature(file) {
            assert(file.take(4) =~= magic);
        }
    }
}

/// Where each field of a header stands.
pub proof fn header_fields_stand_in_their_places(file: Seq<u8>)
    requires
        has_sound_header(file),
    ensures
        ({
            let header = header_of(file);
            &&& header.bytes == file.take(number16(file, 6))
            &&& header.fourcc == seq![file[8], file[9], file[10], file[11]]
            &&& header.width == number16(file, 12)
            &&& header.height == number16(file, 14)
            &&& header.rate == number32(file, 16)
            &&& header.scale == number32(file, 20)
            &&& body(file) == file.skip(number16(file, 6))
            &&& file == header.bytes + body(file)
        }),
{
    lemma_header_length(file);
    two_bytes_by_weight(file.subrange(12, 14));
    two_bytes_by_weight(file.subrange(14, 16));
    four_bytes_by_weight(file.subrange(16, 20));
    four_bytes_by_weight(file.subrange(20, 24));
    assert(file.subrange(8, 12) =~= seq![file[8], file[9], file[10], file[11]]);
    assert(file =~= header_of(file).bytes + body(file));
}

/// Two headers go together exactly where codec, width, height, rate and scale are the same, whatever
/// else is in them; of the differences the first in this order is what is said.
pub proof fn headers_go_together_where_they_agree(first: HeaderView, current: HeaderView)
    ensures
        compatibility_fault(first, current) is None <==> first.fourcc == current.fourcc && first.width
            == current.width && first.height == current.height && first.rate == current.rate
            && first.scale == current.scale,
        compatibility_fault(first, current) == Some(IvfFault::IncompatibleFourcc) <==> first.fourcc
            != current.fourcc,
        compatibility_fault(first, current) == Some(IvfFault::IncompatibleDimensions)
            <==> first.fourcc == current.fourcc && (first.width != current.width || first.height
            != current.height),
        compatibility_fault(first, current) == Some(IvfFault::IncompatibleRate) <==> first.fourcc
            == current.fourcc && first.width == current.width && first.height == current.height && (
        first.rate != current.rate || first.scale != current.scale),
{
}

/// Two files go together exactly where the sixteen bytes from the codec to the scale are the same.
pub proof fn files_go_together_where_their_bytes_agree(first: Seq<u8>, current: Seq<u8>)
    requires
        has_sound_header(first),
        has_sound_header(current),
    ensures
        compatibility_fault(header_of(first), header_of(current)) is None <==> first.subrange(8, 24)
            == current.subrange(8, 24),
{
    same_number_means_same_bytes(first.subrange(12, 14), current.subrange(12, 14));
    same_number_means_same_bytes(first.subrange(14, 16), current.subrange(14, 16));
    same_number_means_same_bytes(first.subrange(16, 20), current.subrange(16, 20));
    same_number_means_same_bytes(first.subrange(20, 24), current.subrange(20, 24));
    lemma_parts(first);
    lemma_parts(current);
    let left = first.subrange(8, 24);
    let right = current.subrange(8, 24);
    if compatibility_fault(header_of(first), header_of(current)) is None {
        assert(left =~= right);
    }
    if left == right {
        assert(first.subrange(8, 12) =~= current.subrange(8, 12));
        assert(first.subrange(12, 14) =~= current.subrange(12, 14));
        assert(first.subrange(14, 16) =~= current.subrange(14, 16));
        assert(first.subrange(16, 20) =~= current.subrange(16, 20));
        assert(first.subrange(20, 24) =~= current.subrange(20, 24));
    }
}

proof fn lemma_parts(file: Seq<u8>)
    requires
        file.len() >= 32,
    ensures
        file.subrange(8, 24) == file.subrange(8, 12) + file.subrange(12, 14) + file.subrange(14, 16)
            + file.subrange(16, 20) + file.subrange(20, 24),
        file.subrange(8, 12) == file.subrange(8, 24).subrange(0, 4),
        file.subrange(12, 14) == file.subrange(8, 24).subrange(4, 6),
        file.subrange(14, 16) == file.subrange(8, 24).subrange(6, 8),
        file.subrange(16, 20) == file.subrange(8, 24).subrange(8, 12),
        file.subrange(20, 24) == file.subrange(8, 24).subrange(12, 16),
{
    assert(file.subrange(8, 24) =~= file.subrange(8, 12) + file.subrange(12, 14) + file.subrange(
        14,
        16,
    ) + file.subrange(16, 20) + file.subrange(20, 24));
    assert(file.subrange(8, 12) =~= file.subrange(8, 24).subrange(0, 4));
    assert(file.subrange(12, 14) =~= file.subrange(8, 24).subrange(4, 6));
    assert(file.subrange(14, 16) =~= file.subrange(8, 24).subrange(6, 8));
    assert(file.subrange(16, 20) =~= file.subrange(8, 24).subrange(8, 12));
    assert(file.subrange(20, 24) =~= file.subrange(8, 24).subrange(12, 16));
}

/// How the bytes behind a header are read: a frame is four bytes with the size of its payload, eight
/// with its timestamp, and the payload; the next one follows it directly.
pub proof fn frames_follow_each_other(bytes: Seq<u8>)
    ensures
        if bytes.len() >= 12 && 12 + number32(bytes, 0) <= bytes.len() {
            let end = 12 + number32(bytes, 0);
            &&& frames(bytes).len() == 1 + frames(bytes.skip(end)).len()
            &&& frames(bytes)[0].timestamp == number64(bytes, 4)
            &&& frames(bytes)[0].payload == bytes.subrange(12, end)
            &&& frames(bytes).skip(1) == frames(bytes.skip(end))
            &&& ending(bytes) == ending(bytes.skip(end))
        } else {
            &&& frames(bytes).len() == 0
            &&& bytes.len() == 0 <==> ending(bytes) == Ending::Complete
            &&& 0 < bytes.len() < 12 <==> ending(bytes) == (Ending::InHeader { read: bytes.len() })
            &&& bytes.len() >= 12 ==> ending(bytes) == (Ending::InPayload {
                timestamp: number64(bytes, 4) as nat,
                size: number32(bytes, 0) as nat,
            })
        },
{
    if bytes.len() >= 12 {
        four_bytes_by_weight(bytes.subrange(0, 4));
        eight_bytes_by_weight(bytes.subrange(4, 12));
        assert(frame_size(bytes) == number32(bytes, 0));
        assert(frame_timestamp(bytes) == number64(bytes, 4));
        if 12 + number32(bytes, 0) <= bytes.len() {
            assert(frames(bytes).skip(1) =~= frames(bytes.skip(12 + number32(bytes, 0))));
        }
    }
}

/// How frames are written: the size of the payload in four bytes, the timestamp in eight, and the
/// payload; the frames of a list one behind the other.
pub proof fn frames_are_written_one_by_one(front: Seq<FrameView>, frame: FrameView)
    requires
        frame.payload.len() <= u32::MAX,
        frame.timestamp <= u64::MAX,
    ensures
        encode(Seq::empty()).len() == 0,
        encode(front.push(frame)) == encode(front) + encode_frame(frame),
        encode_frame(frame).len() == 12 + frame.payload.len(),
        number32(encode_frame(frame), 0) == frame.payload.len(),
        number64(encode_frame(frame), 4) == frame.timestamp,
        encode_frame(frame).skip(12) == frame.payload,
{
    four_bytes_written(frame.payload.len());
    eight_bytes_written(frame.timestamp);
    assert(front.push(frame).drop_last() =~= front);
    let written = encode_frame(frame);
    let size = le_bytes(frame.payload.len(), 4);
    let time = le_bytes(frame.timestamp, 8);
    assert(forall|i: int| 0 <= i < 4 ==> written[i] == size[i]);
    assert(forall|i: int| 4 <= i < 12 ==> #[trigger] written[i] == time[i - 4]);
    assert(written.skip(12) =~= frame.payload);
}

/// Whether the frame at `index` of `bytes` can be written behind `count` others, moved by `offset`.
pub open spec fn fits_behind(bytes: Seq<u8>, offset: nat, count: nat, index: int) -> bool {
    &&& frames(bytes)[index].timestamp + offset <= 0xFFFF_FFFF_FFFF_FFFF
    &&& count + index + 1 <= 0xFFFF_FFFF_FFFF_FFFF
}

/// Whether `fault` is the first thing that is wrong with the frames of `bytes` from `from` on.
pub open spec fn is_first_frame_fault(
    bytes: Seq<u8>,
    offset: nat,
    count: nat,
    from: int,
    fault: Option<IvfFault>,
) -> bool {
    let all = frames(bytes);
    match fault {
        None => ending(bytes) == Ending::Complete && forall|i: int|
            from <= i < all.len() ==> #[trigger] fits_behind(bytes, offset, count, i),
        Some(IvfFault::TimestampOverflow { frame }) => {
            &&& from <= frame <= all.len()
            &&& forall|i: int| from <= i < frame ==> #[trigger] fits_behind(bytes, offset, count, i)
            &&& frame < all.len() ==> all[frame as int].timestamp + offset > 0xFFFF_FFFF_FFFF_FFFF
            &&& frame == all.len() ==> (ending(bytes) matches Ending::InPayload { timestamp, .. }
                && timestamp + offset > 0xFFFF_FFFF_FFFF_FFFF)
        },
        Some(IvfFault::FrameCountOverflow) => exists|at: int|
            {
                &&& from <= at < all.len()
                &&& forall|i: int|
                    from <= i < at ==> #[trigger] fits_behind(bytes, offset, count, i)
                &&& (#[trigger] all[at]).timestamp + offset <= 0xFFFF_FFFF_FFFF_FFFF
                &&& count + at + 1 > 0xFFFF_FFFF_FFFF_FFFF
            },
        Some(IvfFault::TruncatedFrameHeader { read }) => {
            &&& ending(bytes) == (Ending::InHeader { read: read as nat })
            &&& forall|i: int|
                from <= i < all.len() ==> #[trigger] fits_behind(bytes, offset, count, i)
        },
        Some(IvfFault::TruncatedPayload { frame, size }) => {
            &&& ending(bytes) matches Ending::InPayload { timestamp, size: claimed } && claimed == size
                && timestamp + offset <= 0xFFFF_FFFF_FFFF_FFFF
            &&& frame == all.len()
            &&& forall|i: int|
                from <= i < all.len() ==> #[trigger] fits_behind(bytes, offset, count, i)
        },
        _ => false,
    }
}

proof fn lemma_ending_bounds(bytes: Seq<u8>)
    ensures
        ending(bytes) matches Ending::InHeader { read } ==> 0 < read < 12,
        ending(bytes) matches Ending::InPayload { size, .. } ==> size <= u32::MAX,
    decreases bytes.len(),
{
    frames_follow_each_other(bytes);
    if bytes.len() >= 12 && 12 + number32(bytes, 0) <= bytes.len() {
        lemma_ending_bounds(bytes.skip(12 + number32(bytes, 0)));
    }
}

/// What stops the frames of a file from being written is what is wrong with the first of them, and
/// nothing does where all of them are whole and their timestamps and their number fit in 64 bits.
pub proof fn first_bad_frame_decides(bytes: Seq<u8>, offset: nat, count: nat, from: nat)
    requires
        from <= frames(bytes).len(),
        from == 0 || fits_behind(bytes, offset, count, from - 1),
    ensures
        is_first_frame_fault(
            bytes,
            offset,
            count,
            from as int,
            frames_fault(bytes, offset, count, from),
        ),
    decreases frames(bytes).len() - from,
{
    lemma_ending_bounds(bytes);
    let all = frames(bytes);
    if from < all.len() && fits_behind(bytes, offset, count, from as int) {
        assert(frame_fault(bytes, offset, count, from) is None);
        first_bad_frame_decides(bytes, offset, count, from + 1);
        let fault = frames_fault(bytes, offset, count, from + 1);
        assert(fault == frames_fault(bytes, offset, count, from));
        if fault == Some(IvfFault::FrameCountOverflow) {
            let at = choose|at: int|
                {
                    &&& from + 1 <= at < all.len()
                    &&& forall|i: int|
                        from + 1 <= i < at ==> #[trigger] fits_behind(bytes, offset, count, i)
                    &&& (#[trigger] all[at]).timestamp + offset <= 0xFFFF_FFFF_FFFF_FFFF
                    &&& count + at + 1 > 0xFFFF_FFFF_FFFF_FFFF
                };
            assert(all[at].timestamp + offset <= 0xFFFF_FFFF_FFFF_FFFF);
        }
    } else if from < all.len() {
        assert(all[from as int].timestamp + offset > 0xFFFF_FFFF_FFFF_FFFF || count + from + 1
            > 0xFFFF_FFFF_FFFF_FFFF);
    }
}

/// What stops a file from being joined: its header first, then that it does not go together with the
/// first file, then its frames, and last that the next file would begin too late.
pub proof fn file_is_tested_in_order(first: HeaderView, file: Seq<u8>, offset: nat, count: nat)
    ensures
        ({
            let fault = file_fault(first, file, offset, count);
            let own = frames(body(file));
            if !has_sound_header(file) {
                fault is Some && fault == header_fault(file)
            } else if compatibility_fault(first, header_of(file)) is Some {
                fault == compatibility_fault(first, header_of(file))
            } else if fault == Some(IvfFault::OffsetOverflow) {
                &&& is_first_frame_fault(body(file), offset, count, 0, None)
                &&& offset + (if own.len() == 0 {
                    0
                } else {
                    own.last().timestamp
                }) >= 0xFFFF_FFFF_FFFF_FFFF
            } else {
                &&& is_first_frame_fault(body(file), offset, count, 0, fault)
                &&& fault is None ==> offset + (if own.len() == 0 {
                    0
                } else {
                    own.last().timestamp
                }) < 0xFFFF_FFFF_FFFF_FFFF
            }
        }),
{
    header_is_sound_byte_by_byte(file);
    first_bad_frame_decides(body(file), offset, count, 0);
}

/// The fault that is found is that of the first file that has one, and none is where no file has one. A
/// file is held to the header of the first one, and to what stands in front of it.
pub proof fn first_bad_file_decides(files: Seq<Seq<u8>>, from: int)
    requires
        0 <= from <= files.len(),
    ensures
        match first_fault(files, from) {
            None => forall|i: int|
                from <= i < files.len() ==> (#[trigger] fault_at(files, i)) is None,
            Some((index, fault)) => {
                &&& from <= index < files.len()
                &&& fault_at(files, index) == Some(fault)
                &&& forall|i: int| from <= i < index ==> (#[trigger] fault_at(files, i)) is None
            },
        },
        forall|i: int|
            #[trigger] fault_at(files, i) == file_fault(
                header_of(files[0]),
                files[i],
                offset_before(files, i),
                frames_before(files, i).len(),
            ),
    decreases files.len() - from,
{
    if from < files.len() && fault_at(files, from) is None {
        first_bad_file_decides(files, from + 1);
    }
}

/// Where each file goes: the first one at timestamp zero and in front, each later one behind the last
/// frame of the file in front of it, moved by one more than where that frame is shown. A file without
/// frames moves the next one by one.
pub proof fn files_are_laid_end_to_end(files: Seq<Seq<u8>>, index: int)
    requires
        0 <= index < files.len(),
    ensures
        offset_before(files, 0) == 0,
        frames_before(files, 0).len() == 0,
        ({
            let own = frames(body(files[index]));
            let offset = offset_before(files, index);
            &&& offset_before(files, index + 1) == if own.len() == 0 {
                offset + 1
            } else {
                offset + own[own.len() - 1].timestamp + 1
            }
            &&& frames_before(files, index + 1).len() == frames_before(files, index).len()
                + own.len()
            &&& forall|i: int|
                0 <= i < frames_before(files, index).len() ==> #[trigger] frames_before(
                    files,
                    index + 1,
                )[i] == frames_before(files, index)[i]
            &&& forall|i: int|
                0 <= i < own.len() ==> {
                    let moved = frames_before(files, index + 1)[frames_before(files, index).len() + i];
                    moved.payload == (#[trigger] own[i]).payload && moved.timestamp
                        == own[i].timestamp + offset
                }
        }),
        joined_frames(files) == frames_before(files, files.len() as int),
{
    let own = frames(body(files[index]));
    let moved = delayed(own, offset_before(files, index));
    assert(frames_before(files, index + 1) == frames_before(files, index) + moved);
    assert forall|i: int| 0 <= i < own.len() implies {
        let shown = frames_before(files, index + 1)[frames_before(files, index).len() + i];
        shown.payload == (#[trigger] own[i]).payload && shown.timestamp == own[i].timestamp
            + offset_before(files, index)
    } by {
        assert(moved[i].payload == own[i].payload);
    }
}

/// Whether the file at `index` can stand where it goes: its header is whole and goes together with
/// that of the first file, its frames are whole, and each timestamp, moved to where the file begins,
/// fits in 64 bits, as does the one at which the next file begins.
pub open spec fn has_its_place(files: Seq<Seq<u8>>, index: int) -> bool {
    let file = files[index];
    let own = frames(body(file));
    &&& has_sound_header(file)
    &&& file.subrange(8, 24) == files[0].subrange(8, 24)
    &&& ending(body(file)) == Ending::Complete
    &&& forall|i: int|
        0 <= i < own.len() ==> (#[trigger] own[i]).timestamp + offset_before(files, index)
            <= 0xFFFF_FFFF_FFFF_FFFF
    &&& offset_before(files, index + 1) <= 0xFFFF_FFFF_FFFF_FFFF
}

proof fn lemma_has_its_place(files: Seq<Seq<u8>>, index: int)
    requires
        0 <= index < files.len(),
        has_sound_header(files[0]),
        joined_frames(files).len() <= u32::MAX,
    ensures
        fault_at(files, index) is None <==> has_its_place(files, index),
{
    let file = files[index];
    let offset = offset_before(files, index);
    let count = frames_before(files, index).len();
    let own = frames(body(file));
    file_is_tested_in_order(header_of(files[0]), file, offset, count);
    files_are_laid_end_to_end(files, index);
    lemma_counts_grow(files, index + 1, files.len() as int);
    if has_sound_header(file) {
        files_go_together_where_their_bytes_agree(files[0], file);
        if fault_at(files, index) is None {
            assert forall|i: int| 0 <= i < own.len() implies (#[trigger] own[i]).timestamp + offset
                <= 0xFFFF_FFFF_FFFF_FFFF by {
                assert(fits_behind(body(file), offset, count, i));
            }
        }
        if has_its_place(files, index) {
            first_bad_frame_decides(body(file), offset, count, 0);
            assert forall|i: int| 0 <= i < own.len() implies #[trigger] fits_behind(
                body(file),
                offset,
                count,
                i,
            ) by {
                assert(own[i].timestamp + offset <= 0xFFFF_FFFF_FFFF_FFFF);
            }
        }
    }
}

proof fn lemma_counts_grow(files: Seq<Seq<u8>>, early: int, late: int)
    requires
        0 <= early <= late <= files.len(),
    ensures
        frames_before(files, early).len() <= frames_before(files, late).len(),
    decreases late - early,
{
    if early < late {
        files_are_laid_end_to_end(files, early);
        lemma_counts_grow(files, early + 1, late);
    }
}

/// Files can be joined exactly where there is one, each of them has its place, and the number of all
/// frames fits in 32 bits. What else is in the files does not matter.
pub proof fn files_with_their_places_are_joinable(files: Seq<Seq<u8>>)
    ensures
        joinable(files) <==> {
            &&& files.len() > 0
            &&& forall|i: int| 0 <= i < files.len() ==> #[trigger] has_its_place(files, i)
            &&& joined_frames(files).len() <= 0xFFFF_FFFF
        },
{
    if files.len() > 0 && joined_frames(files).len() <= u32::MAX {
        first_bad_file_decides(files, 0);
        if !has_sound_header(files[0]) {
            file_is_tested_in_order(
                header_of(files[0]),
                files[0],
                offset_before(files, 0),
                frames_before(files, 0).len(),
            );
            assert(fault_at(files, 0) is Some);
            assert(!has_its_place(files, 0));
        } else {
            assert forall|i: int| 0 <= i < files.len() implies ((#[trigger] fault_at(files, i)) is None
                <==> has_its_place(files, i)) by {
                lemma_has_its_place(files, i);
            }
            if joinable(files) {
                assert forall|i: int| 0 <= i < files.len() implies #[trigger] has_its_place(
                    files,
                    i,
                ) by {
                    assert(fault_at(files, i) is None);
                }
            } else {
                let (index, _) = first_fault(files, 0)->Some_0;
                assert(fault_at(files, index) is Some);
                assert(!has_its_place(files, index));
            }
        }
    }
}

/// What a joined file holds byte by byte: the header of the first file as it stands there, but for
/// the four bytes of the frame count, which hold the number of frames that follow; and behind it the
/// frames.
pub proof fn joined_header_is_kept(files: Seq<Seq<u8>>)
    requires
        joinable(files),
    ensures
        ({
            let first = files[0];
            let length = number16(first, 6);
            let out = joined(files);
            &&& 32 <= length <= first.len()
            &&& length <= out.len()
            &&& forall|i: int| 0 <= i < length && !(24 <= i < 28) ==> #[trigger] out[i] == first[i]
            &&& number32(out, 24) == joined_frames(files).len()
            &&& out.skip(length) == encode(joined_frames(files))
        }),
{
    files_with_their_places_are_joinable(files);
    assert(has_its_place(files, 0));
    let first = files[0];
    let length = number16(first, 6);
    let out = joined(files);
    let count = joined_frames(files).len();
    header_fields_stand_in_their_places(first);
    four_bytes_written(count);
    let field = le_bytes(count, 4);
    assert(forall|i: int| 24 <= i < 28 ==> #[trigger] out[i] == field[i - 24]);
    assert(out.skip(length) =~= encode(joined_frames(files)));
}

} // verus!
