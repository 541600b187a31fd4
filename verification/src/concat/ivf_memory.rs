//! Joining IVF files that are in memory.

use crate::concat::files::{sort_by_number, ChunkFile, Numbered};
use crate::concat::ivf::{IvfError, IvfFault};
use crate::concat::ivf_join::{IvfJoin, JoinAction, JoinError, JoinEvent, JoinStage};
use vstd::prelude::*;

verus! {

/// A file to join, and what it holds.
#[derive(Debug)]
pub struct IvfChunk {
    pub file: ChunkFile,
    pub bytes: Vec<u8>,
}

impl Numbered for IvfChunk {
    open spec fn spec_number(&self) -> Option<u32> {
        self.file.spec_number()
    }

    fn number(&self) -> (number: Option<u32>) {
        self.file.number()
    }
}

/// What the files hold.
pub open spec fn contents(chunks: Seq<IvfChunk>) -> Seq<Seq<u8>> {
    Seq::new(chunks.len(), |i: int| chunks[i].bytes@)
}

/// The files, without what they hold.
pub open spec fn chunk_files(chunks: Seq<IvfChunk>) -> Seq<ChunkFile> {
    Seq::new(chunks.len(), |i: int| chunks[i].file)
}

/// What comes of joining `chunks`, found in the directory `input`, in the order in which they stand.
pub open spec fn join_outcome(
    input: Seq<char>,
    chunks: Seq<IvfChunk>,
    output: Result<Vec<u8>, IvfError>,
) -> bool {
    match output {
        Ok(output) => crate::concat::ivf::joinable(contents(chunks)) && output@
            == crate::concat::ivf::joined(contents(chunks)),
        Err(error) => crate::concat::ivf_join_laws::is_fault_of(
            input,
            chunk_files(chunks),
            contents(chunks),
            error,
        ),
    }
}

/// Whether `error` says of `chunks` that there are none, or names the first of them that cannot be
/// joined and says why, or says that they have too many frames.
pub open spec fn is_refusal(input: Seq<char>, chunks: Seq<IvfChunk>, error: IvfError) -> bool {
    if chunks.len() == 0 {
        error.fault == IvfFault::NoChunks && error.path@ == input
    } else {
        match crate::concat::ivf::first_fault(contents(chunks), 0) {
            Some((index, fault)) => error.fault == fault && error.path@ == chunks[index].file.path@,
            None => error.fault == IvfFault::TooManyFrames && error.path@ == input,
        }
    }
}

/// Joins `chunks`, which were found in the directory `input`, into one file, in the order of their
/// numbers.
pub fn ivf(input: &str, chunks: &mut Vec<IvfChunk>) -> (output: Result<Vec<u8>, IvfError>)
    requires
        old(chunks)@.len() > 1 ==> crate::concat::files::all_numbered(old(chunks)@),
    ensures
        final(chunks)@.to_multiset() == old(chunks)@.to_multiset(),
        crate::concat::files::in_order(final(chunks)@),
        forall|i: int, j: int|
            0 <= i < j < final(chunks)@.len() ==> (#[trigger] final(chunks)@[i]).file.spec_number()->0
                <= (#[trigger] final(chunks)@[j]).file.spec_number()->0,
        join_outcome(input@, final(chunks)@, output),
        output is Ok <==> crate::concat::ivf::joinable(contents(final(chunks)@)),
        output matches Ok(bytes) ==> bytes@ == crate::concat::ivf::joined(contents(final(chunks)@)),
        output matches Err(error) ==> is_refusal(input@, final(chunks)@, error),
{
    sort_by_number(chunks);
    join_ivf(input, chunks)
}

/// Writes `bytes` over `out` from `at` on.
fn overwrite(out: &mut Vec<u8>, at: usize, bytes: &Vec<u8>)
    requires
        at + bytes@.len() <= old(out)@.len(),
    ensures
        final(out)@ == crate::concat::ivf_join_laws::overwritten(old(out)@, at as int, bytes@),
{
    let ghost before = out@;
    let mut written: usize = 0;
    while written < bytes.len()
        invariant
            written <= bytes@.len(),
            at + bytes@.len() <= before.len() == out@.len(),
            out@ == before.take(at as int) + bytes@.take(written as int) + before.skip(
                at + written,
            ),
        decreases bytes@.len() - written,
    {
        assert(at + written < out.len());
        out[at + written] = bytes[written];
        written = written + 1;
        assert(out@ =~= before.take(at as int) + bytes@.take(written as int) + before.skip(
            at + written,
        ));
    }
    assert(bytes@.take(written as int) =~= bytes@);
}

/// Joins `chunks`, which were found in the directory `input`, into one file, in the order in which
/// they stand.
pub fn join_ivf(input: &str, chunks: &Vec<IvfChunk>) -> (output: Result<Vec<u8>, IvfError>)
    ensures
        join_outcome(input@, chunks@, output),
        output is Ok <==> crate::concat::ivf::joinable(contents(chunks@)),
        output matches Ok(bytes) ==> bytes@ == crate::concat::ivf::joined(contents(chunks@)),
        output matches Err(error) ==> is_refusal(input@, chunks@, error),
{
    let mut files: Vec<ChunkFile> = Vec::new();
    while files.len() < chunks.len()
        invariant
            files@.len() <= chunks@.len(),
            forall|i: int|
                0 <= i < files@.len() ==> (#[trigger] files@[i]).position == i && files@[i].path
                    == chunks@[i].file.path,
        decreases chunks@.len() - files@.len(),
    {
        let position: usize = files.len();
        files.push(
            ChunkFile { path: chunks[position].file.path.clone(), stem: None, position },
        );
    }
    let ghost listing = contents(chunks@);
    let ghost listed = crate::concat::ivf_join_laws::contents_of(files@, listing);
    assert(listed =~= listing);
    let ghost known = files@;
    let mut join: IvfJoin = IvfJoin::new(input.to_owned(), files);
    let mut out: Vec<u8> = Vec::new();
    proof {
        crate::concat::ivf_join_laws::fresh_join_agrees(join, listing, out@);
    }
    loop
        invariant
            listing == contents(chunks@),
            listing == crate::concat::ivf_join_laws::contents_of(join.files@, listing),
            known == join.files@,
            known.len() == chunks@.len(),
            forall|i: int|
                0 <= i < known.len() ==> (#[trigger] known[i]).position == i && known[i].path
                    == chunks@[i].file.path,
            join.wf(),
            join.input@ == input@,
            crate::concat::ivf_join_laws::agrees(join, listing, out@),
            !(join.stage matches JoinStage::Discarding { error: JoinError::Failed { .. } }),
            !(join.stage matches JoinStage::Finished { outcome: Err(JoinError::Failed { .. }) }),
        ensures
            join.stage is Finished,
        decreases crate::concat::ivf_join_laws::join_steps_left(join),
    {
        let ghost before = join;
        let ghost held = out@;
        let event: JoinEvent = match join.action() {
            JoinAction::Read { position, .. } => {
                let bytes: Vec<u8> = chunks[position].bytes.clone();
                assert(bytes@ =~= chunks@[position as int].bytes@);
                JoinEvent::Read(Ok(bytes))
            },
            JoinAction::Create { bytes } => {
                out = bytes.clone();
                assert(out@ =~= bytes@);
                JoinEvent::Written(Ok(()))
            },
            JoinAction::Append { bytes } => {
                out.extend_from_slice(bytes.as_slice());
                assert(out@ =~= held + bytes@);
                JoinEvent::Written(Ok(()))
            },
            JoinAction::Overwrite { at, bytes } => {
                proof {
                    crate::little_endian::le_bytes_len(
                        crate::concat::ivf::joined_frames(listing).len(),
                        4,
                    );
                }
                overwrite(&mut out, at as usize, bytes);
                JoinEvent::Written(Ok(()))
            },
            JoinAction::Discard => JoinEvent::Discarded,
            JoinAction::Stop { .. } => {
                break;
            },
        };
        join = join.step(event);
        proof {
            crate::concat::ivf_join_laws::every_step_agrees(before, listing, held, event, join);
            crate::concat::ivf_join_laws::every_join_ends(before, event, join);
        }
    }
    proof {
        crate::concat::ivf_join_laws::lemma_first_fault_index(listing, 0);
    }
    match join.stage {
        JoinStage::Finished { outcome: Ok(()) } => Ok(out),
        JoinStage::Finished { outcome: Err(JoinError::Fault(error)) } => Err(error),
        _ => Err(IvfError { path: input.to_owned(), fault: IvfFault::NoChunks }),
    }
}

/// What the chunks hold, and their files, stand in the order of the chunks; a chunk has the number of its
/// file.
pub proof fn contents_stand_in_order(chunks: Seq<IvfChunk>, at: int)
    requires
        0 <= at < chunks.len(),
    ensures
        contents(chunks).len() == chunks.len(),
        contents(chunks)[at] == chunks[at].bytes@,
        chunk_files(chunks).len() == chunks.len(),
        chunk_files(chunks)[at] == chunks[at].file,
        chunks[at].spec_number() == chunks[at].file.spec_number(),
{
}

} // verus!
