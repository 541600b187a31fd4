//! Joining IVF files one by one, so that no more than one has to be in memory.
//!
//! An [`IvfJoin`] decides and never acts. Its [`action`](IvfJoin::action) says what is to be done
//! next; what came of it goes into [`step`](IvfJoin::step).

use crate::concat::files::{sort_files_by_filename, ChunkFile, Numbered};
use crate::concat::ivf::{frame_count_field, IvfConcat, IvfError, IvfFault};
use vstd::prelude::*;

verus! {

/// Where the frame count stands in a header.
pub const FRAME_COUNT_OFFSET: u64 = 24;

/// Why files were not joined.
#[derive(Debug)]
pub enum JoinError {
    /// The files cannot be joined.
    Fault(IvfError),
    /// A file could not be read or written.
    Failed { message: String },
}

/// How far the join has come.
#[derive(Debug)]
pub enum JoinStage {
    /// The first file is read, for its header.
    ReadingFirst,
    /// The output is created, with the header.
    Creating { concat: IvfConcat },
    /// The file at `next` is read.
    Reading { concat: IvfConcat, next: usize },
    /// The frames of the file at `next` are written.
    Writing { concat: IvfConcat, next: usize, bytes: Vec<u8> },
    /// The frame count is corrected.
    Counting { field: Vec<u8> },
    /// What there is of the output is removed.
    Discarding { error: JoinError },
    /// Nothing is left to do.
    Finished { outcome: Result<(), JoinError> },
}

/// What has happened.
#[derive(Debug)]
pub enum JoinEvent {
    /// The file was read, or could not be.
    Read(Result<Vec<u8>, String>),
    /// The output was written, or could not be.
    Written(Result<(), String>),
    /// The output was removed.
    Discarded,
}

/// What is to be done next.
#[derive(Debug)]
pub enum JoinAction<'a> {
    /// Read the file at this position in the listing.
    Read { position: usize, path: &'a str },
    /// Create the output, with these bytes in it.
    Create { bytes: &'a Vec<u8> },
    /// Write these bytes behind the output.
    Append { bytes: &'a Vec<u8> },
    /// Write these bytes over the output, from the byte `at` on.
    Overwrite { at: u64, bytes: &'a Vec<u8> },
    /// Remove the output, if it is there.
    Discard,
    /// Stop: `None` where the files are joined.
    Stop { error: Option<String> },
}

/// Files that are joined, in the order in which they stand.
#[derive(Debug)]
pub struct IvfJoin {
    /// The directory with the files.
    pub input: String,
    pub files: Vec<ChunkFile>,
    pub stage: JoinStage,
}

impl JoinStage {
    /// Whether `event` is what the stage waits for.
    pub open spec fn awaits(self, event: JoinEvent) -> bool {
        match self {
            JoinStage::ReadingFirst => event is Read,
            JoinStage::Creating { .. } => event is Written,
            JoinStage::Reading { .. } => event is Read,
            JoinStage::Writing { .. } => event is Written,
            JoinStage::Counting { .. } => event is Written,
            JoinStage::Discarding { .. } => event is Discarded,
            JoinStage::Finished { .. } => false,
        }
    }

    /// Whether the files are given up because of `fault` in `path`.
    pub open spec fn gives_up(self, fault: IvfFault, path: Seq<char>) -> bool {
        self matches JoinStage::Discarding { error: JoinError::Fault(error) } && error.fault == fault
            && error.path@ == path
    }
}

/// Whether `next` is `concat` with the frames of `file` behind it.
pub open spec fn has_appended(concat: IvfConcat, file: Seq<u8>, next: IvfConcat) -> bool {
    let own = crate::concat::ivf::frames(crate::concat::ivf::body(file));
    &&& next.first == concat.first
    &&& next.frame_count == concat.frame_count + own.len()
    &&& next.pos_offset == concat.pos_offset + crate::concat::ivf::last_timestamp(own) + 1
}

impl IvfJoin {
    /// Whether the stage fits the files.
    pub open spec fn wf(self) -> bool {
        &&& !(self.stage is Finished) ==> self.files@.len() > 0
        &&& match self.stage {
            JoinStage::Reading { next, .. } => next < self.files@.len(),
            JoinStage::Writing { next, .. } => next < self.files@.len(),
            _ => true,
        }
    }

    /// The position of the file that is read.
    pub open spec fn read_position(self) -> usize {
        match self.stage {
            JoinStage::Reading { next, .. } => self.files@[next as int].position,
            _ => self.files@[0].position,
        }
    }

    /// The stage behind the file at `next`, of which `later` is one.
    pub open spec fn goes_on(self, concat: IvfConcat, next: int, later: JoinStage) -> bool {
        if next < self.files@.len() {
            later matches JoinStage::Reading { concat: same, next: following } && same == concat
                && following == next
        } else if concat.frame_count <= u32::MAX {
            later matches JoinStage::Counting { field } && field@
                == crate::little_endian::le_bytes(concat.frame_count as nat, 4)
        } else {
            later.gives_up(IvfFault::TooManyFrames, self.input@)
        }
    }

    /// Whether `later` is the stage behind `event`.
    pub open spec fn stage_leads_to(self, event: JoinEvent, later: JoinStage) -> bool {
        match (self.stage, event) {
            (_, JoinEvent::Read(Err(message))) => later == (JoinStage::Discarding {
                error: JoinError::Failed { message },
            }),
            (_, JoinEvent::Written(Err(message))) => later == (JoinStage::Discarding {
                error: JoinError::Failed { message },
            }),
            (
                JoinStage::ReadingFirst,
                JoinEvent::Read(Ok(file)),
            ) => match crate::concat::ivf::header_fault(file@) {
                Some(fault) => later.gives_up(fault, self.files@[0].path@),
                None => later matches JoinStage::Creating { concat } && concat.first@
                    == crate::concat::ivf::header_of(file@) && concat.frame_count == 0
                    && concat.pos_offset == 0,
            },
            (JoinStage::Creating { concat }, JoinEvent::Written(Ok(_))) => later == (
            JoinStage::Reading { concat, next: 0 }),
            (
                JoinStage::Reading { concat, next },
                JoinEvent::Read(Ok(file)),
            ) => match crate::concat::ivf::file_fault(
                concat.first@,
                file@,
                concat.pos_offset as nat,
                concat.frame_count as nat,
            ) {
                Some(fault) => later.gives_up(fault, self.files@[next as int].path@),
                None => later matches JoinStage::Writing { concat: grown, next: same, bytes }
                    && has_appended(concat, file@, grown) && same == next && bytes@
                    == crate::concat::ivf::encode(
                    crate::concat::ivf::delayed(
                        crate::concat::ivf::frames(crate::concat::ivf::body(file@)),
                        concat.pos_offset as nat,
                    ),
                ),
            },
            (
                JoinStage::Writing { concat, next, .. },
                JoinEvent::Written(Ok(_)),
            ) => self.goes_on(concat, next + 1, later),
            (JoinStage::Counting { .. }, JoinEvent::Written(Ok(_))) => later == (
            JoinStage::Finished { outcome: Ok(()) }),
            (JoinStage::Discarding { error }, JoinEvent::Discarded) => later == (
            JoinStage::Finished { outcome: Err(error) }),
            (stage, _) => later == stage,
        }
    }

    /// Whether `later` is the join behind `event`.
    pub open spec fn leads_to(self, event: JoinEvent, later: IvfJoin) -> bool {
        &&& later.input == self.input
        &&& later.files == self.files
        &&& self.stage_leads_to(event, later.stage)
    }

    /// What is said of the files, found in the directory `input`, where there are none.
    pub open spec fn is_without_files(self) -> bool {
        self.stage matches JoinStage::Finished { outcome: Err(JoinError::Fault(error)) }
            && error.fault == IvfFault::NoChunks && error.path@ == self.input@
    }

    /// Begins to join `files`, which were found in the directory `input`, in the order in which they
    /// stand.
    pub fn new(input: String, files: Vec<ChunkFile>) -> (join: IvfJoin)
        ensures
            join.wf(),
            join.input == input,
            join.files == files,
            if files@.len() == 0 {
                join.is_without_files()
            } else {
                join.stage is ReadingFirst
            },
    {
        let stage: JoinStage = if files.len() == 0 {
            JoinStage::Finished {
                outcome: Err(
                    JoinError::Fault(
                        IvfError { path: input.clone(), fault: IvfFault::NoChunks },
                    ),
                ),
            }
        } else {
            JoinStage::ReadingFirst
        };
        IvfJoin { input, files, stage }
    }

    /// Begins to join `files`, which were found in the directory `input`, in the order of their
    /// numbers.
    pub fn begin(input: String, files: Vec<ChunkFile>) -> (join: IvfJoin)
        requires
            files@.len() > 1 ==> crate::concat::files::all_numbered(files@),
        ensures
            join.wf(),
            join.input == input,
            join.files@.to_multiset() == files@.to_multiset(),
            crate::concat::files::in_order(join.files@),
            forall|i: int, j: int|
                0 <= i < j < join.files@.len() ==> (#[trigger] join.files@[i]).spec_number()->0 <= (
                #[trigger] join.files@[j]).spec_number()->0,
            if join.files@.len() == 0 {
                join.is_without_files()
            } else {
                join.stage is ReadingFirst
            },
    {
        let mut files: Vec<ChunkFile> = files;
        sort_files_by_filename(&mut files);
        IvfJoin::new(input, files)
    }

    /// Whether `action` is what the stage asks for.
    pub open spec fn asks(self, action: JoinAction) -> bool {
        match self.stage {
            JoinStage::ReadingFirst => action matches JoinAction::Read { position, path } && position
                == self.read_position() && path@ == self.files@[0].path@,
            JoinStage::Creating { concat } => action matches JoinAction::Create { bytes } && *bytes
                == concat.first.bytes,
            JoinStage::Reading { next, .. } => action matches JoinAction::Read { position, path }
                && position == self.read_position() && path@ == self.files@[next as int].path@,
            JoinStage::Writing { bytes: written, .. } => action matches JoinAction::Append { bytes }
                && *bytes == written,
            JoinStage::Counting { field } => action matches JoinAction::Overwrite { at, bytes } && at
                == FRAME_COUNT_OFFSET && *bytes == field,
            JoinStage::Discarding { .. } => action is Discard,
            JoinStage::Finished { outcome: Ok(()) } => action == (JoinAction::Stop { error: None }),
            JoinStage::Finished { outcome: Err(error) } => action matches JoinAction::Stop {
                error: Some(text),
            } && text@ == error.message(),
        }
    }

    /// What is to be done next.
    pub fn action(&self) -> (action: JoinAction<'_>)
        requires
            self.wf(),
        ensures
            self.asks(action),
    {
        match &self.stage {
            JoinStage::ReadingFirst => JoinAction::Read {
                position: self.files[0].position,
                path: self.files[0].path.as_str(),
            },
            JoinStage::Creating { concat } => JoinAction::Create { bytes: &concat.first.bytes },
            JoinStage::Reading { next, .. } => JoinAction::Read {
                position: self.files[*next].position,
                path: self.files[*next].path.as_str(),
            },
            JoinStage::Writing { bytes, .. } => JoinAction::Append { bytes },
            JoinStage::Counting { field } => JoinAction::Overwrite {
                at: FRAME_COUNT_OFFSET,
                bytes: field,
            },
            JoinStage::Discarding { .. } => JoinAction::Discard,
            JoinStage::Finished { outcome: Ok(()) } => JoinAction::Stop { error: None },
            JoinStage::Finished { outcome: Err(error) } => JoinAction::Stop {
                error: Some(error.to_string()),
            },
        }
    }

    /// Takes up what has happened.
    pub fn step(self, event: JoinEvent) -> (join: IvfJoin)
        requires
            self.wf(),
            self.stage.awaits(event),
        ensures
            join.wf(),
            self.leads_to(event, join),
    {
        let files: Vec<ChunkFile> = self.files;
        let input: String = self.input;
        let stage: JoinStage = match (self.stage, event) {
            (_, JoinEvent::Read(Err(message))) => JoinStage::Discarding {
                error: JoinError::Failed { message },
            },
            (_, JoinEvent::Written(Err(message))) => JoinStage::Discarding {
                error: JoinError::Failed { message },
            },
            (JoinStage::ReadingFirst, JoinEvent::Read(Ok(file))) => match IvfConcat::new(
                file.as_slice(),
                files[0].path.as_str(),
            ) {
                Ok(concat) => JoinStage::Creating { concat },
                Err(error) => JoinStage::Discarding { error: JoinError::Fault(error) },
            },
            (JoinStage::Creating { concat }, JoinEvent::Written(Ok(_))) => JoinStage::Reading {
                concat,
                next: 0,
            },
            (JoinStage::Reading { concat, next }, JoinEvent::Read(Ok(file))) => {
                let mut concat: IvfConcat = concat;
                match concat.append(file.as_slice(), files[next].path.as_str()) {
                    Ok(bytes) => JoinStage::Writing { concat, next, bytes },
                    Err(error) => JoinStage::Discarding { error: JoinError::Fault(error) },
                }
            },
            (JoinStage::Writing { concat, next, .. }, JoinEvent::Written(Ok(_))) => {
                assert(next < files.len());
                if next + 1 < files.len() {
                    JoinStage::Reading { concat, next: next + 1 }
                } else {
                    match concat.final_frame_count(input.as_str()) {
                        Ok(count) => JoinStage::Counting { field: frame_count_field(count) },
                        Err(error) => JoinStage::Discarding { error: JoinError::Fault(error) },
                    }
                }
            },
            (JoinStage::Counting { .. }, JoinEvent::Written(Ok(_))) => JoinStage::Finished {
                outcome: Ok(()),
            },
            (JoinStage::Discarding { error }, JoinEvent::Discarded) => JoinStage::Finished {
                outcome: Err(error),
            },
            (stage, _) => stage,
        };
        IvfJoin { input, files, stage }
    }
}

impl JoinError {
    /// What is said of the error.
    pub open spec fn message(self) -> Seq<char> {
        match self {
            JoinError::Fault(error) => crate::concat::ivf_message::fault_message(
                error.fault,
                error.path@,
            ),
            JoinError::Failed { message } => message@,
        }
    }

    /// What is said of the error.
    pub fn to_string(&self) -> (text: String)
        ensures
            text@ == self.message(),
    {
        match self {
            JoinError::Fault(error) => error.to_string(),
            JoinError::Failed { message } => message.as_str().to_owned(),
        }
    }
}

} // verus!
