//! What holds of every join, whatever happens.

use crate::concat::files::ChunkFile;
use crate::concat::ivf::{
    body, delayed, encode, fault_at, first_fault, frames, frames_before, header_fault, header_of,
    joinable, joined, joined_frames, lemma_encode_concat, offset_before, IvfConcat, IvfError,
    IvfFault,
};
use crate::concat::ivf_join::{IvfJoin, JoinError, JoinEvent, JoinStage};
use crate::little_endian::{le_bytes, le_bytes_len};
use vstd::prelude::*;

verus! {

/// What `files` hold, where `listing` is what the files of the directory hold.
pub open spec fn contents_of(files: Seq<ChunkFile>, listing: Seq<Seq<u8>>) -> Seq<Seq<u8>> {
    Seq::new(files.len(), |i: int| listing[files[i].position as int])
}

/// `out` with `bytes` written over it from `at` on.
pub open spec fn overwritten(out: Seq<u8>, at: int, bytes: Seq<u8>) -> Seq<u8> {
    out.take(at) + bytes + out.skip(at + bytes.len())
}

/// What the output holds once what `stage` asks for is done, where it held `out` before.
pub open spec fn output_after(stage: JoinStage, out: Seq<u8>) -> Seq<u8> {
    match stage {
        JoinStage::Creating { concat } => concat.first.bytes@,
        JoinStage::Writing { bytes, .. } => out + bytes@,
        JoinStage::Counting { field } => overwritten(
            out,
            crate::concat::ivf_join::FRAME_COUNT_OFFSET as int,
            field@,
        ),
        _ => out,
    }
}

/// Whether `error` says why the files with these contents, found in the directory `input`, cannot be
/// joined.
pub open spec fn is_fault_of(
    input: Seq<char>,
    files: Seq<ChunkFile>,
    contents: Seq<Seq<u8>>,
    error: IvfError,
) -> bool {
    if contents.len() == 0 {
        error.fault == IvfFault::NoChunks && error.path@ == input
    } else {
        match first_fault(contents, 0) {
            Some((index, fault)) => error.fault == fault && error.path@ == files[index].path@,
            None => joined_frames(contents).len() > u32::MAX && error.fault
                == IvfFault::TooManyFrames && error.path@ == input,
        }
    }
}

/// Whether `concat` is at the file at `next`.
pub open spec fn is_at(concat: IvfConcat, contents: Seq<Seq<u8>>, next: int) -> bool {
    &&& header_fault(contents[0]) is None
    &&& concat.first@ == header_of(contents[0])
    &&& concat.frame_count == frames_before(contents, next).len()
    &&& concat.pos_offset == offset_before(contents, next)
    &&& first_fault(contents, 0) == first_fault(contents, next)
}

/// What the output holds where all files in front of the one at `next` are written, and the frame
/// count is not corrected yet.
pub open spec fn written_before(contents: Seq<Seq<u8>>, next: int) -> Seq<u8> {
    header_of(contents[0]).bytes + encode(frames_before(contents, next))
}

/// How the stage of a join goes with what the files of the directory and the output hold.
pub open spec fn agrees(join: IvfJoin, listing: Seq<Seq<u8>>, out: Seq<u8>) -> bool {
    let contents = contents_of(join.files@, listing);
    match join.stage {
        JoinStage::ReadingFirst => true,
        JoinStage::Creating { concat } => is_at(concat, contents, 0),
        JoinStage::Reading { concat, next } => is_at(concat, contents, next as int) && out
            == written_before(contents, next as int),
        JoinStage::Writing { concat, next, bytes } => is_at(concat, contents, next + 1) && out
            + bytes@ == written_before(contents, next + 1),
        JoinStage::Counting { field } => joinable(contents) && field@ == le_bytes(
            joined_frames(contents).len(),
            4,
        ) && header_fault(contents[0]) is None && out == written_before(
            contents,
            contents.len() as int,
        ),
        JoinStage::Discarding { error: JoinError::Fault(error) } => is_fault_of(
            join.input@,
            join.files@,
            contents,
            error,
        ),
        JoinStage::Finished { outcome: Err(JoinError::Fault(error)) } => is_fault_of(
            join.input@,
            join.files@,
            contents,
            error,
        ),
        JoinStage::Finished { outcome: Ok(()) } => joinable(contents) && out == joined(contents),
        _ => true,
    }
}

/// Whether `event` is true: what was read is what the file holds.
pub open spec fn is_true_event(join: IvfJoin, listing: Seq<Seq<u8>>, event: JoinEvent) -> bool {
    event matches JoinEvent::Read(Ok(bytes)) ==> bytes@ == listing[join.read_position() as int]
}

/// A join that begins goes with whatever the files and the output hold.
pub proof fn fresh_join_agrees(join: IvfJoin, listing: Seq<Seq<u8>>, out: Seq<u8>)
    requires
        join.files@.len() == 0 ==> join.is_without_files(),
        join.files@.len() > 0 ==> join.stage is ReadingFirst,
    ensures
        agrees(join, listing, out),
{
}

/// Every step keeps to the files: where what is read is what the files hold, and what is asked for
/// is done, the output ends as the joined files, and a fault that is reported is the first that the
/// files have. An output is complete exactly where the files can be joined and nothing went wrong.
pub proof fn every_step_agrees(
    join: IvfJoin,
    listing: Seq<Seq<u8>>,
    out: Seq<u8>,
    event: JoinEvent,
    later: IvfJoin,
)
    requires
        join.wf(),
        join.stage.awaits(event),
        join.leads_to(event, later),
        agrees(join, listing, out),
        is_true_event(join, listing, event),
    ensures
        agrees(
            later,
            listing,
            if event matches JoinEvent::Written(Ok(_)) {
                output_after(join.stage, out)
            } else {
                out
            },
        ),
{
    match (join.stage, event) {
        (JoinStage::ReadingFirst, JoinEvent::Read(Ok(file))) => {
            lemma_first_file_agrees(join, listing, file@, event, later);
        },
        (JoinStage::Creating { .. }, JoinEvent::Written(Ok(_))) => {
            lemma_header_agrees(join, listing, out, event, later);
        },
        (JoinStage::Reading { .. }, JoinEvent::Read(Ok(file))) => {
            lemma_file_agrees(join, listing, out, file@, event, later);
        },
        (JoinStage::Writing { .. }, JoinEvent::Written(Ok(_))) => {
            lemma_frames_agree(join, listing, out, event, later);
        },
        (JoinStage::Counting { .. }, JoinEvent::Written(Ok(_))) => {
            lemma_count_agrees(join, listing, out, event, later);
        },
        _ => {},
    }
}

proof fn lemma_first_file_agrees(
    join: IvfJoin,
    listing: Seq<Seq<u8>>,
    file: Seq<u8>,
    event: JoinEvent,
    later: IvfJoin,
)
    requires
        join.wf(),
        join.stage is ReadingFirst,
        event matches JoinEvent::Read(Ok(bytes)) && bytes@ == file,
        file == listing[join.read_position() as int],
        join.leads_to(event, later),
    ensures
        forall|out: Seq<u8>| #[trigger] agrees(later, listing, out),
{
    let contents = contents_of(join.files@, listing);
    assert(contents[0] == file);
    assert(frames_before(contents, 0) =~= Seq::empty());
    if header_fault(file) is Some {
        assert(fault_at(contents, 0) == header_fault(file));
        assert(first_fault(contents, 0) == Some((0int, header_fault(file)->0)));
    }
}

proof fn lemma_header_agrees(
    join: IvfJoin,
    listing: Seq<Seq<u8>>,
    out: Seq<u8>,
    event: JoinEvent,
    later: IvfJoin,
)
    requires
        join.wf(),
        join.stage is Creating,
        event matches JoinEvent::Written(Ok(_)),
        join.leads_to(event, later),
        agrees(join, listing, out),
    ensures
        agrees(later, listing, output_after(join.stage, out)),
{
    let contents = contents_of(join.files@, listing);
    assert(frames_before(contents, 0) =~= Seq::empty());
    assert(encode(frames_before(contents, 0)) =~= Seq::empty());
    assert(output_after(join.stage, out) =~= written_before(contents, 0));
}

proof fn lemma_file_agrees(
    join: IvfJoin,
    listing: Seq<Seq<u8>>,
    out: Seq<u8>,
    file: Seq<u8>,
    event: JoinEvent,
    later: IvfJoin,
)
    requires
        join.wf(),
        join.stage is Reading,
        event matches JoinEvent::Read(Ok(bytes)) && bytes@ == file,
        file == listing[join.read_position() as int],
        join.leads_to(event, later),
        agrees(join, listing, out),
    ensures
        agrees(later, listing, out),
{
    let contents = contents_of(join.files@, listing);
    let at = join.stage->Reading_next as int;
    assert(contents[at] == file);
    let own = delayed(frames(body(file)), offset_before(contents, at));
    assert(frames_before(contents, at + 1) == frames_before(contents, at) + own);
    lemma_encode_concat(frames_before(contents, at), own);
    match fault_at(contents, at) {
        Some(fault) => {
            assert(first_fault(contents, at) == Some((at, fault)));
        },
        None => {
            assert(first_fault(contents, at) == first_fault(contents, at + 1));
            let bytes = later.stage->Writing_bytes@;
            assert(bytes == encode(own));
            assert(out + bytes =~= written_before(contents, at + 1));
        },
    }
}

proof fn lemma_frames_agree(
    join: IvfJoin,
    listing: Seq<Seq<u8>>,
    out: Seq<u8>,
    event: JoinEvent,
    later: IvfJoin,
)
    requires
        join.wf(),
        join.stage is Writing,
        event matches JoinEvent::Written(Ok(_)),
        join.leads_to(event, later),
        agrees(join, listing, out),
    ensures
        agrees(later, listing, output_after(join.stage, out)),
{
    let contents = contents_of(join.files@, listing);
    let next = join.stage->Writing_next + 1;
    if next == join.files@.len() {
        assert(first_fault(contents, next) is None);
    }
}

proof fn lemma_count_agrees(
    join: IvfJoin,
    listing: Seq<Seq<u8>>,
    out: Seq<u8>,
    event: JoinEvent,
    later: IvfJoin,
)
    requires
        join.wf(),
        join.stage is Counting,
        event matches JoinEvent::Written(Ok(_)),
        join.leads_to(event, later),
        agrees(join, listing, out),
    ensures
        agrees(later, listing, output_after(join.stage, out)),
{
    let contents = contents_of(join.files@, listing);
    le_bytes_len(joined_frames(contents).len(), 4);
    assert(header_of(contents[0]).bytes.len() >= 32);
    assert(output_after(join.stage, out) =~= joined(contents));
}

pub(crate) proof fn lemma_first_fault_index(contents: Seq<Seq<u8>>, from: int)
    ensures
        first_fault(contents, from) matches Some((index, _)) ==> from <= index < contents.len(),
    decreases contents.len() - from,
{
    if from < contents.len() && fault_at(contents, from) is None {
        lemma_first_fault_index(contents, from + 1);
    }
}

/// How many steps are left at most.
pub open spec fn join_steps_left(join: IvfJoin) -> int {
    let files = join.files@.len() as int;
    match join.stage {
        JoinStage::ReadingFirst => 2 * files + 5,
        JoinStage::Creating { .. } => 2 * files + 4,
        JoinStage::Reading { next, .. } => 2 * (files - next) + 3,
        JoinStage::Writing { next, .. } => 2 * (files - next) + 2,
        JoinStage::Counting { .. } => 2,
        JoinStage::Discarding { .. } => 1,
        JoinStage::Finished { .. } => 0,
    }
}

/// Every step brings the join nearer to its end.
pub proof fn every_join_ends(join: IvfJoin, event: JoinEvent, later: IvfJoin)
    requires
        join.wf(),
        join.stage.awaits(event),
        join.leads_to(event, later),
    ensures
        0 <= join_steps_left(later) < join_steps_left(join),
{
}

/// An output is never left behind where the files were not joined: before a join that has begun ends
/// in an error, the output is removed.
pub proof fn failed_join_removes_its_output(join: IvfJoin, event: JoinEvent, later: IvfJoin)
    requires
        join.wf(),
        join.stage.awaits(event),
        join.leads_to(event, later),
        later.stage matches JoinStage::Finished { outcome: Err(_) },
    ensures
        join.stage is Discarding,
        event is Discarded,
{
}

} // verus!
