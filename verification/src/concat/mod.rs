//! Joining encoded chunks into one output.

pub mod ffmpeg;
pub mod ffmpeg_laws;
pub mod files;
pub mod ivf;
pub mod ivf_format;
pub mod ivf_join;
pub mod ivf_join_dialogue;
pub mod ivf_join_laws;
pub mod ivf_laws;
pub mod ivf_memory;
pub mod ivf_message;
pub mod merge_groups;
pub mod merge_run;
pub mod method;
pub mod mkvmerge;
pub mod mkvmerge_jobs;
pub mod mkvmerge_laws;
pub mod names;
pub mod path_order;
