//! Joining chunks with FFmpeg.
//!
//! FFmpeg reads the files to join from a list, in which some characters have to be escaped.

use crate::concat::path_order::sort_paths;
use vstd::prelude::*;

verus! {

/// Whether `c` is escaped in the list.
pub open spec fn is_special(c: char) -> bool {
    c == '\\' || c == ' ' || c == '\''
}

/// `text` with a backslash in front of every special character.
pub open spec fn escaped(text: Seq<char>) -> Seq<char>
    decreases text.len(),
{
    if text.len() == 0 {
        Seq::empty()
    } else if is_special(text.last()) {
        escaped(text.drop_last()).push('\\').push(text.last())
    } else {
        escaped(text.drop_last()).push(text.last())
    }
}

/// What is read from `text`: a backslash is left out, and the character behind it stays as it is.
pub open spec fn unescaped(text: Seq<char>) -> Seq<char>
    decreases text.len(),
{
    if text.len() == 0 {
        Seq::empty()
    } else if text[0] == '\\' && text.len() > 1 {
        seq![text[1]] + unescaped(text.skip(2))
    } else {
        seq![text[0]] + unescaped(text.skip(1))
    }
}

/// The list of the files at `paths`.
pub open spec fn file_list(paths: Seq<Seq<char>>) -> Seq<char>
    decreases paths.len(),
{
    if paths.len() == 0 {
        Seq::empty()
    } else {
        file_list(paths.drop_last()) + "file "@ + escaped(paths.last()) + "\n"@
    }
}

/// Writes `text` behind `out`, with a backslash in front of every special character.
fn push_escaped(out: &mut String, text: &str)
    ensures
        final(out)@ == old(out)@ + escaped(text@),
{
    let len: usize = text.unicode_len();
    let mut at: usize = 0;
    let ghost start = out@;
    assert(text@.take(0) =~= Seq::empty());
    assert(out@ =~= start + escaped(text@.take(0)));
    while at < len
        invariant
            len == text@.len(),
            at <= len,
            out@ == start + escaped(text@.take(at as int)),
        decreases len - at,
    {
        let c: char = text.get_char(at);
        if c == '\\' || c == ' ' || c == '\'' {
            out.append("\\");
        }
        out.append(text.substring_char(at, at + 1));
        proof {
            reveal_strlit("\\");
            let next = text@.take(at + 1);
            assert(next.drop_last() =~= text@.take(at as int));
            assert(out@ =~= start + escaped(next));
        }
        at = at + 1;
    }
    assert(text@.take(at as int) =~= text@);
}

/// Writes the list of all files at `paths`, each once, in the order of their paths.
pub fn write_concat_file(paths: &mut Vec<String>) -> (contents: String)
    ensures
        final(paths)@.to_multiset() == old(paths)@.to_multiset(),
        crate::concat::path_order::in_path_order(final(paths)@),
        contents@ == file_list(crate::concat::mkvmerge::texts(final(paths)@)),
        forall|i: int, j: int|
            0 <= i < j < final(paths)@.len() ==> crate::concat::path_order::bytes_ordered(
                vstd::utf8::encode_utf8((#[trigger] final(paths)@[i])@),
                vstd::utf8::encode_utf8((#[trigger] final(paths)@[j])@),
            ),
{
    sort_paths(paths);
    write_file_list(paths)
}

/// Writes the list of the files at `paths`, in the order in which they stand.
pub fn write_file_list(paths: &Vec<String>) -> (contents: String)
    ensures
        contents@ == file_list(crate::concat::mkvmerge::texts(paths@)),
{
    let mut contents: String = String::new();
    let ghost list = crate::concat::mkvmerge::texts(paths@);
    assert(list.take(0) =~= Seq::empty());
    let mut at: usize = 0;
    while at < paths.len()
        invariant
            at <= paths@.len(),
            list == crate::concat::mkvmerge::texts(paths@),
            contents@ == file_list(list.take(at as int)),
        decreases paths@.len() - at,
    {
        contents.append("file ");
        push_escaped(&mut contents, paths[at].as_str());
        contents.append("\n");
        proof {
            let next = list.take(at + 1);
            assert(next.drop_last() =~= list.take(at as int));
            assert(next.last() == paths@[at as int]@);
        }
        at = at + 1;
    }
    assert(list.take(at as int) =~= list);
    contents
}

/// What FFmpeg is called with.
#[derive(Clone, Copy, Debug)]
pub enum FfmpegArgument {
    /// This very word.
    Word(&'static str),
    /// The path of the list.
    ConcatFile,
    /// The path of the audio track.
    AudioFile,
    /// The path of the output.
    Output,
}

/// What FFmpeg is called with.
pub enum ArgumentView {
    Word(Seq<char>),
    ConcatFile,
    AudioFile,
    Output,
}

impl View for FfmpegArgument {
    type V = ArgumentView;

    open spec fn view(&self) -> ArgumentView {
        match self {
            FfmpegArgument::Word(word) => ArgumentView::Word(word@),
            FfmpegArgument::ConcatFile => ArgumentView::ConcatFile,
            FfmpegArgument::AudioFile => ArgumentView::AudioFile,
            FfmpegArgument::Output => ArgumentView::Output,
        }
    }
}

/// Whether an audio track goes with the video: there is a file of `audio_len` bytes for it, and it
/// holds more than a container without a track would.
pub open spec fn uses_audio(audio_len: Option<u64>) -> bool {
    audio_len matches Some(len) && len > 1000
}

/// What FFmpeg is called with, to copy all tracks of the files in the list and, where there is one,
/// the audio track into the output.
pub open spec fn ffmpeg_arguments(audio: bool) -> Seq<ArgumentView> {
    let list = seq![
        ArgumentView::Word("-y"@),
        ArgumentView::Word("-hide_banner"@),
        ArgumentView::Word("-loglevel"@),
        ArgumentView::Word("error"@),
        ArgumentView::Word("-f"@),
        ArgumentView::Word("concat"@),
        ArgumentView::Word("-safe"@),
        ArgumentView::Word("0"@),
        ArgumentView::Word("-i"@),
        ArgumentView::ConcatFile,
    ];
    let sources = if audio {
        list + seq![
            ArgumentView::Word("-i"@),
            ArgumentView::AudioFile,
            ArgumentView::Word("-map"@),
            ArgumentView::Word("0"@),
            ArgumentView::Word("-map"@),
            ArgumentView::Word("1"@),
        ]
    } else {
        list + seq![ArgumentView::Word("-map"@), ArgumentView::Word("0"@)]
    };
    sources + seq![
        ArgumentView::Word("-c"@),
        ArgumentView::Word("copy"@),
        ArgumentView::Output,
    ]
}

/// The arguments in `arguments`.
pub open spec fn argument_views(arguments: Seq<FfmpegArgument>) -> Seq<ArgumentView> {
    arguments.map_values(|argument: FfmpegArgument| argument@)
}

/// Decides what FFmpeg is called with, where the file for the audio track has `audio_len` bytes.
pub fn ffmpeg(audio_len: Option<u64>) -> (arguments: Vec<FfmpegArgument>)
    ensures
        argument_views(arguments@) == ffmpeg_arguments(uses_audio(audio_len)),
        arguments@.contains(FfmpegArgument::AudioFile) <==> (audio_len matches Some(len) && len > 1000),
        audio_len matches Some(len) ==> len > 1000 ==> {
            &&& arguments@[10] matches FfmpegArgument::Word(word) && word@ == "-i"@
            &&& arguments@[11] is AudioFile
            &&& arguments@[14] matches FfmpegArgument::Word(word) && word@ == "-map"@
            &&& arguments@[15] matches FfmpegArgument::Word(word) && word@ == "1"@
        },
{
    let audio: bool = match audio_len {
        Some(len) => len > 1000,
        None => false,
    };
    let mut arguments: Vec<FfmpegArgument> = vec![
        FfmpegArgument::Word("-y"),
        FfmpegArgument::Word("-hide_banner"),
        FfmpegArgument::Word("-loglevel"),
        FfmpegArgument::Word("error"),
        FfmpegArgument::Word("-f"),
        FfmpegArgument::Word("concat"),
        FfmpegArgument::Word("-safe"),
        FfmpegArgument::Word("0"),
        FfmpegArgument::Word("-i"),
        FfmpegArgument::ConcatFile,
    ];
    if audio {
        arguments.push(FfmpegArgument::Word("-i"));
        arguments.push(FfmpegArgument::AudioFile);
        arguments.push(FfmpegArgument::Word("-map"));
        arguments.push(FfmpegArgument::Word("0"));
        arguments.push(FfmpegArgument::Word("-map"));
        arguments.push(FfmpegArgument::Word("1"));
    } else {
        arguments.push(FfmpegArgument::Word("-map"));
        arguments.push(FfmpegArgument::Word("0"));
    }
    arguments.push(FfmpegArgument::Word("-c"));
    arguments.push(FfmpegArgument::Word("copy"));
    arguments.push(FfmpegArgument::Output);
    assert(argument_views(arguments@) =~= ffmpeg_arguments(audio));
    proof {
        if audio {
            assert(arguments@[11] is AudioFile);
        } else {
            assert forall|i: int| 0 <= i < arguments@.len() implies !(
            #[trigger] arguments@[i] is AudioFile) by {
                assert(argument_views(arguments@)[i] == arguments@[i]@);
                assert(!(ffmpeg_arguments(false)[i] is AudioFile));
            }
        }
    }
    arguments
}

/// What comes of a run of FFmpeg, which ended with success or not, or could not be started.
pub open spec fn is_outcome(run: Result<bool, String>, outcome: Result<(), String>) -> bool {
    match run {
        Ok(success) => if success {
            outcome is Ok
        } else {
            outcome is Err && outcome->Err_0@ == "FFmpeg concatenation failed"@
        },
        Err(message) => outcome == Err::<(), String>(message),
    }
}

/// Decides what comes of a run of FFmpeg: `run` says whether it ended with success, or why it could
/// not be started.
pub fn ffmpeg_outcome(run: Result<bool, String>) -> (outcome: Result<(), String>)
    ensures
        is_outcome(run, outcome),
        outcome is Ok <==> run == Ok::<bool, String>(true),
        run matches Err(message) ==> outcome == Err::<(), String>(message),
        run == Ok::<bool, String>(false) ==> outcome is Err && outcome->Err_0@
            == "FFmpeg concatenation failed"@,
{
    match run {
        Ok(true) => Ok(()),
        Ok(false) => Err("FFmpeg concatenation failed".to_owned()),
        Err(message) => Err(message),
    }
}

proof fn lemma_escaped_front(text: Seq<char>)
    requires
        text.len() > 0,
    ensures
        escaped(text) == (if is_special(text[0]) {
            seq!['\\', text[0]]
        } else {
            seq![text[0]]
        }) + escaped(text.skip(1)),
    decreases text.len(),
{
    if text.len() == 1 {
        assert(text.drop_last() =~= Seq::empty());
        assert(text.skip(1) =~= Seq::empty());
        assert(escaped(text.drop_last()) =~= Seq::empty());
        assert(escaped(text) =~= (if is_special(text[0]) {
            seq!['\\', text[0]]
        } else {
            seq![text[0]]
        }) + escaped(text.skip(1)));
    } else {
        let front = text.drop_last();
        lemma_escaped_front(front);
        assert(front.skip(1) =~= text.skip(1).drop_last());
        assert(escaped(text) =~= (if is_special(text[0]) {
            seq!['\\', text[0]]
        } else {
            seq![text[0]]
        }) + escaped(text.skip(1)));
    }
}

/// A path in the list is read back as it was.
pub proof fn escaped_path_reads_back(text: Seq<char>)
    ensures
        unescaped(escaped(text)) == text,
    decreases text.len(),
{
    if text.len() > 0 {
        let rest = text.skip(1);
        lemma_escaped_front(text);
        escaped_path_reads_back(rest);
        let whole = escaped(text);
        if is_special(text[0]) {
            assert(whole.skip(2) =~= escaped(rest));
        } else {
            assert(whole.skip(1) =~= escaped(rest));
        }
        assert(unescaped(whole) =~= seq![text[0]] + rest);
        assert(seq![text[0]] + rest =~= text);
    } else {
        assert(unescaped(escaped(text)) =~= text);
    }
}

} // verus!
