//! What holds of every joined IVF file.

use crate::concat::ivf::{
    body, delayed, encode, encode_frame, ending, fault_at, first_fault, frame_fault, frame_size,
    frames, frames_before, frames_fault, has_frame, header_fault, header_length, header_of,
    joinable, joined, joined_frames, last_timestamp, lemma_encode_concat, offset_before,
    with_frame_count, Ending, FrameView, HeaderView,
};
use crate::little_endian::{
    le_bytes, le_bytes_len, le_bytes_read_back, le_value, le_value_written_back, lemma_le_ranges,
    lemma_le_value_bound,
};
use vstd::prelude::*;

verus! {

/// Whether the fields of a frame header can hold what `frame` needs.
pub open spec fn writable(frame: FrameView) -> bool {
    frame.timestamp <= u64::MAX && frame.payload.len() <= u32::MAX
}

proof fn lemma_encode_front(list: Seq<FrameView>)
    requires
        list.len() > 0,
    ensures
        encode(list) == encode_frame(list[0]) + encode(list.skip(1)),
{
    let first = seq![list[0]];
    lemma_encode_concat(first, list.skip(1));
    assert(first + list.skip(1) =~= list);
    assert(first.drop_last() =~= Seq::empty());
    assert(encode(first.drop_last()) =~= Seq::empty());
    assert(encode(first) =~= encode_frame(list[0]));
}

/// Frames that are written are read back, and nothing else is.
pub proof fn encoded_frames_read_back(list: Seq<FrameView>)
    requires
        forall|i: int| 0 <= i < list.len() ==> writable(#[trigger] list[i]),
    ensures
        frames(encode(list)) == list,
        ending(encode(list)) == Ending::Complete,
    decreases list.len(),
{
    let bytes = encode(list);
    if list.len() == 0 {
        assert(bytes =~= Seq::empty());
        assert(frames(bytes) =~= list);
    } else {
        let frame = list[0];
        let rest = list.skip(1);
        assert(writable(frame));
        lemma_encode_front(list);
        lemma_le_ranges();
        le_bytes_len(frame.payload.len(), 4);
        le_bytes_len(frame.timestamp, 8);
        le_bytes_read_back(frame.payload.len(), 4);
        le_bytes_read_back(frame.timestamp, 8);
        assert(bytes.subrange(0, 4) =~= le_bytes(frame.payload.len(), 4));
        assert(bytes.subrange(4, 12) =~= le_bytes(frame.timestamp, 8));
        let end = 12 + frame.payload.len() as int;
        assert(bytes.subrange(12, end) =~= frame.payload);
        assert(bytes.skip(end) =~= encode(rest));
        assert(forall|i: int| 0 <= i < rest.len() ==> #[trigger] rest[i] == list[i + 1]);
        assert forall|i: int| 0 <= i < rest.len() implies writable(#[trigger] rest[i]) by {
            assert(writable(list[i + 1]));
        }
        encoded_frames_read_back(rest);
        assert(frames(bytes) =~= seq![frame] + rest);
        assert(frames(bytes) =~= list);
    }
}

/// Bytes that are whole frames are the bytes that their frames are written as.
pub proof fn read_frames_encode_back(bytes: Seq<u8>)
    requires
        ending(bytes) == Ending::Complete,
    ensures
        encode(frames(bytes)) == bytes,
    decreases bytes.len(),
{
    if has_frame(bytes) {
        let end = 12 + frame_size(bytes) as int;
        let rest = bytes.skip(end);
        read_frames_encode_back(rest);
        let list = frames(bytes);
        assert(list.skip(1) =~= frames(rest));
        lemma_encode_front(list);
        le_value_written_back(bytes.subrange(0, 4));
        le_value_written_back(bytes.subrange(4, 12));
        assert(bytes =~= bytes.subrange(0, 4) + bytes.subrange(4, 12) + bytes.subrange(12, end)
            + rest);
        assert(encode(list) =~= bytes);
    } else {
        assert(bytes =~= Seq::empty());
        assert(encode(frames(bytes)) =~= bytes);
    }
}

proof fn lemma_frames_are_writable(bytes: Seq<u8>)
    ensures
        forall|i: int| 0 <= i < frames(bytes).len() ==> writable(#[trigger] frames(bytes)[i]),
    decreases bytes.len(),
{
    if has_frame(bytes) {
        let end = 12 + frame_size(bytes) as int;
        let rest = bytes.skip(end);
        lemma_frames_are_writable(rest);
        lemma_le_ranges();
        lemma_le_value_bound(bytes.subrange(0, 4));
        lemma_le_value_bound(bytes.subrange(4, 12));
        assert forall|i: int| 0 <= i < frames(bytes).len() implies writable(
            #[trigger] frames(bytes)[i],
        ) by {
            if i > 0 {
                assert(frames(bytes)[i] == frames(rest)[i - 1]);
            }
        }
    }
}

proof fn lemma_no_frame_fault(bytes: Seq<u8>, offset: nat, count: nat, from: nat, index: nat)
    requires
        frames_fault(bytes, offset, count, from) is None,
        from <= index <= frames(bytes).len(),
    ensures
        frame_fault(bytes, offset, count, index) is None,
    decreases frames(bytes).len() - from,
{
    if from < index {
        lemma_no_frame_fault(bytes, offset, count, from + 1, index);
    }
}

proof fn lemma_no_fault(files: Seq<Seq<u8>>, from: int, index: int)
    requires
        first_fault(files, from) is None,
        0 <= from <= index < files.len(),
    ensures
        fault_at(files, index) is None,
    decreases files.len() - from,
{
    if from < index {
        lemma_no_fault(files, from + 1, index);
    }
}

proof fn lemma_joined_frames_are_writable(files: Seq<Seq<u8>>, index: int)
    requires
        first_fault(files, 0) is None,
        0 <= index <= files.len(),
    ensures
        forall|i: int|
            0 <= i < frames_before(files, index).len() ==> writable(
                #[trigger] frames_before(files, index)[i],
            ),
    decreases index,
{
    if index > 0 {
        lemma_joined_frames_are_writable(files, index - 1);
        lemma_no_fault(files, 0, index - 1);
        let bytes = body(files[index - 1]);
        let own = frames(bytes);
        let offset = offset_before(files, index - 1);
        let front = frames_before(files, index - 1);
        lemma_frames_are_writable(bytes);
        assert forall|i: int| 0 <= i < frames_before(files, index).len() implies writable(
            #[trigger] frames_before(files, index)[i],
        ) by {
            if i < front.len() {
                assert(frames_before(files, index)[i] == front[i]);
            } else {
                let k = (i - front.len()) as nat;
                lemma_no_frame_fault(bytes, offset, front.len(), 0, k);
                assert(writable(own[k as int]));
            }
        }
    }
}

/// A joined file is read back as it was meant: its header is that of the first file but for the
/// frame count, the frame count is the number of frames that follow, and the frames are those of
/// all files.
pub proof fn joined_file_reads_back(files: Seq<Seq<u8>>)
    requires
        joinable(files),
    ensures
        header_fault(joined(files)) is None,
        header_of(joined(files)) == (HeaderView {
            bytes: with_frame_count(header_of(files[0]).bytes, joined_frames(files).len()),
            ..header_of(files[0])
        }),
        le_value(joined(files).subrange(24, 28)) == joined_frames(files).len(),
        body(joined(files)) == encode(joined_frames(files)),
        frames(body(joined(files))) == joined_frames(files),
        ending(body(joined(files))) == Ending::Complete,
{
    let file = files[0];
    let out = joined(files);
    let header = header_of(file).bytes;
    let count = joined_frames(files).len();
    lemma_no_fault(files, 0, 0);
    le_bytes_len(count, 4);
    lemma_le_ranges();
    le_bytes_read_back(count, 4);
    assert(header.len() == header_length(file));
    assert(out.take(4) =~= file.take(4));
    assert(out.subrange(6, 8) =~= file.subrange(6, 8));
    assert(out.take(header.len() as int) =~= with_frame_count(header, count));
    assert(out.subrange(8, 12) =~= file.subrange(8, 12));
    assert(out.subrange(12, 14) =~= file.subrange(12, 14));
    assert(out.subrange(14, 16) =~= file.subrange(14, 16));
    assert(out.subrange(16, 20) =~= file.subrange(16, 20));
    assert(out.subrange(20, 24) =~= file.subrange(20, 24));
    assert(out.subrange(24, 28) =~= le_bytes(count, 4));
    assert(body(out) =~= encode(joined_frames(files)));
    lemma_joined_frames_are_writable(files, files.len() as int);
    encoded_frames_read_back(joined_frames(files));
}

/// Every frame of every file stands in the joined file: behind the frames of the files in front of
/// its own, in the order of its file, with its payload as it was.
pub proof fn every_frame_is_kept(files: Seq<Seq<u8>>, index: int, frame: int)
    requires
        0 <= index < files.len(),
        0 <= frame < frames(body(files[index])).len(),
    ensures
        ({
            let own = frames(body(files[index]))[frame];
            let position = frames_before(files, index).len() + frame;
            &&& position < joined_frames(files).len()
            &&& joined_frames(files)[position].payload == own.payload
            &&& joined_frames(files)[position].timestamp == own.timestamp + offset_before(
                files,
                index,
            )
        }),
{
    lemma_frames_before_prefix(files, index + 1, files.len() as int);
}

proof fn lemma_frames_before_prefix(files: Seq<Seq<u8>>, early: int, late: int)
    requires
        0 <= early <= late,
    ensures
        frames_before(files, early).len() <= frames_before(files, late).len(),
        forall|i: int|
            0 <= i < frames_before(files, early).len() ==> #[trigger] frames_before(files, late)[i]
                == frames_before(files, early)[i],
    decreases late,
{
    if early < late {
        lemma_frames_before_prefix(files, early, late - 1);
    }
}

/// Whether every frame comes later than the frame in front of it.
pub open spec fn increasing(list: Seq<FrameView>) -> bool {
    forall|i: int, j: int|
        0 <= i < j < list.len() ==> (#[trigger] list[i]).timestamp < (#[trigger] list[j]).timestamp
}

proof fn lemma_increasing_before(files: Seq<Seq<u8>>, index: int)
    requires
        0 <= index <= files.len(),
        forall|i: int| 0 <= i < files.len() ==> increasing(frames(body(#[trigger] files[i]))),
    ensures
        increasing(frames_before(files, index)),
        forall|i: int|
            0 <= i < frames_before(files, index).len() ==> (#[trigger] frames_before(
                files,
                index,
            )[i]).timestamp < offset_before(files, index),
    decreases index,
{
    if index > 0 {
        lemma_increasing_before(files, index - 1);
        let front = frames_before(files, index - 1);
        let own = frames(body(files[index - 1]));
        let offset = offset_before(files, index - 1);
        let all = frames_before(files, index);
        assert(increasing(own));
        assert forall|i: int| 0 <= i < all.len() implies (#[trigger] all[i]).timestamp
            < offset_before(files, index) by {
            if i < front.len() {
                assert(all[i] == front[i]);
            } else {
                assert(all[i].timestamp == own[i - front.len()].timestamp + offset);
                assert(own[i - front.len()].timestamp <= own.last().timestamp);
            }
        }
        assert forall|i: int, j: int| 0 <= i < j < all.len() implies (#[trigger] all[i]).timestamp
            < (#[trigger] all[j]).timestamp by {
            if j < front.len() {
                assert(all[i] == front[i] && all[j] == front[j]);
            } else if i < front.len() {
                assert(all[i] == front[i]);
                assert(all[j].timestamp == own[j - front.len()].timestamp + offset);
            } else {
                assert(all[i].timestamp == own[i - front.len()].timestamp + offset);
                assert(all[j].timestamp == own[j - front.len()].timestamp + offset);
            }
        }
    }
}

/// Where the timestamps of each file increase, those of the joined file increase too, across the
/// seams.
pub proof fn joined_timestamps_increase(files: Seq<Seq<u8>>)
    requires
        forall|i: int| 0 <= i < files.len() ==> increasing(frames(body(#[trigger] files[i]))),
    ensures
        increasing(joined_frames(files)),
{
    lemma_increasing_before(files, files.len() as int);
}

/// The first frame of a file comes after the last frame of the file in front of it, whatever the
/// timestamps are.
pub proof fn seam_moves_forward(files: Seq<Seq<u8>>, index: int)
    requires
        0 < index < files.len(),
        frames(body(files[index - 1])).len() > 0,
        frames(body(files[index])).len() > 0,
    ensures
        joined_frames(files)[frames_before(files, index).len() - 1].timestamp < joined_frames(
            files,
        )[frames_before(files, index).len() as int].timestamp,
{
    let last = frames(body(files[index - 1])).len() - 1;
    every_frame_is_kept(files, index - 1, last);
    every_frame_is_kept(files, index, 0);
}

/// A file alone, whose frame count is right, is joined to itself.
pub proof fn single_file_is_unchanged(file: Seq<u8>)
    requires
        joinable(seq![file]),
        le_value(file.subrange(24, 28)) == frames(body(file)).len(),
    ensures
        joined(seq![file]) == file,
{
    let files = seq![file];
    let own = frames(body(file));
    lemma_no_fault(files, 0, 0);
    assert(frames_before(files, 0) =~= Seq::empty());
    assert(joined_frames(files) =~= own);
    lemma_no_frame_fault(body(file), 0, 0, 0, own.len());
    read_frames_encode_back(body(file));
    le_value_written_back(file.subrange(24, 28));
    let header = header_of(file).bytes;
    assert(file =~= header + body(file));
    assert(with_frame_count(header, own.len()) =~= header);
}

proof fn lemma_last_before(files: Seq<Seq<u8>>, index: int)
    requires
        0 <= index <= files.len(),
    ensures
        frames_before(files, index).len() > 0 ==> last_timestamp(frames_before(files, index)) + 1
            <= offset_before(files, index),
    decreases index,
{
    if index > 0 {
        lemma_last_before(files, index - 1);
        let own = frames(body(files[index - 1]));
        if own.len() == 0 {
            assert(frames_before(files, index) =~= frames_before(files, index - 1));
        }
    }
}

proof fn lemma_whole_file_has_no_frame_fault(bytes: Seq<u8>, from: nat)
    requires
        ending(bytes) == Ending::Complete,
        frames(bytes).len() <= u32::MAX,
        from <= frames(bytes).len(),
    ensures
        frames_fault(bytes, 0, 0, from) is None,
    decreases frames(bytes).len() - from,
{
    lemma_frames_are_writable(bytes);
    if from < frames(bytes).len() {
        assert(writable(frames(bytes)[from as int]));
        lemma_whole_file_has_no_frame_fault(bytes, from + 1);
    }
}

/// A joined file can be joined alone, and comes out as it is.
pub proof fn joining_again_changes_nothing(files: Seq<Seq<u8>>)
    requires
        joinable(files),
    ensures
        joinable(seq![joined(files)]),
        joined(seq![joined(files)]) == joined(files),
{
    let out = joined(files);
    let again = seq![out];
    let all = joined_frames(files);
    joined_file_reads_back(files);
    lemma_whole_file_has_no_frame_fault(body(out), 0);
    lemma_last_before(files, files.len() as int);
    lemma_no_fault(files, 0, files.len() - 1);
    assert(frames_before(again, 0) =~= Seq::empty());
    assert(joined_frames(again) =~= all) by {
        assert(delayed(all, 0) =~= all);
    }
    assert(fault_at(again, 0) is None);
    assert(first_fault(again, 1) is None);
    assert(first_fault(again, 0) is None);
    single_file_is_unchanged(out);
}

} // verus!
