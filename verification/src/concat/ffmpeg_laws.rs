//! What holds of everything that FFmpeg is given.

use crate::concat::ffmpeg::{
    argument_views, escaped, ffmpeg_arguments, file_list, uses_audio, ArgumentView, FfmpegArgument,
};
use vstd::prelude::*;

verus! {

/// The audio track is the second input, and mapped as such, exactly where there is a file of more than
/// 1000 bytes for it. Either way all tracks of the list, which is the first input, are copied into the
/// output.
pub proof fn audio_is_mapped_where_it_is_long_enough(audio_len: Option<u64>)
    ensures
        ({
            let told = ffmpeg_arguments(uses_audio(audio_len));
            let last = told.len() - 1;
            &&& told[0] == ArgumentView::Word("-y"@)
            &&& told[1] == ArgumentView::Word("-hide_banner"@)
            &&& told[2] == ArgumentView::Word("-loglevel"@)
            &&& told[3] == ArgumentView::Word("error"@)
            &&& told[4] == ArgumentView::Word("-f"@)
            &&& told[5] == ArgumentView::Word("concat"@)
            &&& told[6] == ArgumentView::Word("-safe"@)
            &&& told[7] == ArgumentView::Word("0"@)
            &&& told[8] == ArgumentView::Word("-i"@)
            &&& told[9] == ArgumentView::ConcatFile
            &&& if audio_len matches Some(len) && len > 1000 {
                &&& told.len() == 19
                &&& told[10] == ArgumentView::Word("-i"@)
                &&& told[11] == ArgumentView::AudioFile
                &&& told[12] == ArgumentView::Word("-map"@)
                &&& told[13] == ArgumentView::Word("0"@)
                &&& told[14] == ArgumentView::Word("-map"@)
                &&& told[15] == ArgumentView::Word("1"@)
            } else {
                &&& told.len() == 15
                &&& told[10] == ArgumentView::Word("-map"@)
                &&& told[11] == ArgumentView::Word("0"@)
            }
            &&& told[last - 2] == ArgumentView::Word("-c"@)
            &&& told[last - 1] == ArgumentView::Word("copy"@)
            &&& told[last] == ArgumentView::Output
        }),
{
}

/// Where the audio track goes along at one length, it goes along at every greater one, and FFmpeg is
/// called with the same.
pub proof fn longer_audio_is_never_left_out(shorter: u64, longer: u64)
    requires
        shorter <= longer,
        ffmpeg_arguments(uses_audio(Some(shorter))).contains(ArgumentView::AudioFile),
    ensures
        ffmpeg_arguments(uses_audio(Some(longer))) == ffmpeg_arguments(uses_audio(Some(shorter))),
        ffmpeg_arguments(uses_audio(Some(longer))).contains(ArgumentView::AudioFile),
{
    let told = ffmpeg_arguments(false);
    assert forall|i: int| 0 <= i < told.len() implies !(#[trigger] told[i] is AudioFile) by {}
    audio_is_mapped_where_it_is_long_enough(Some(longer));
}

/// A text is escaped character by character: a backslash, a space and an apostrophe get a backslash in
/// front, and every other character stays as it is.
pub proof fn characters_are_escaped_alone(front: Seq<char>, c: char, back: Seq<char>)
    ensures
        escaped(Seq::empty()).len() == 0,
        escaped(front + back) == escaped(front) + escaped(back),
        escaped(seq![c]) == if c == '\\' || c == ' ' || c == '\'' {
            seq!['\\', c]
        } else {
            seq![c]
        },
    decreases back.len(),
{
    let one = seq![c];
    assert(one.drop_last() =~= Seq::empty());
    assert(escaped(one.drop_last()) =~= Seq::empty());
    assert(escaped(one) =~= if c == '\\' || c == ' ' || c == '\'' {
        seq!['\\', c]
    } else {
        seq![c]
    });
    if back.len() == 0 {
        assert(front + back =~= front);
        assert(escaped(front) + escaped(back) =~= escaped(front));
    } else {
        characters_are_escaped_alone(front, c, back.drop_last());
        assert((front + back).drop_last() =~= front + back.drop_last());
        assert(escaped(front + back) =~= escaped(front) + escaped(back));
    }
}

/// The list has a line for each file, in the order in which the files stand.
pub proof fn files_are_listed_line_by_line(
    front: Seq<Seq<char>>,
    path: Seq<char>,
    back: Seq<Seq<char>>,
)
    ensures
        file_list(Seq::empty()).len() == 0,
        file_list(front + back) == file_list(front) + file_list(back),
        file_list(seq![path]) == "file "@ + escaped(path) + "\n"@,
    decreases back.len(),
{
    let one = seq![path];
    assert(one.drop_last() =~= Seq::empty());
    assert(file_list(one.drop_last()) =~= Seq::empty());
    assert(file_list(one) =~= "file "@ + escaped(path) + "\n"@);
    if back.len() == 0 {
        assert(front + back =~= front);
        assert(file_list(front) + file_list(back) =~= file_list(front));
    } else {
        files_are_listed_line_by_line(front, path, back.drop_last());
        assert((front + back).drop_last() =~= front + back.drop_last());
        assert(file_list(front + back) =~= file_list(front) + file_list(back));
    }
}

/// The view of what FFmpeg is called with shows each word as it is, each path as what it is the path of,
/// and all of them in order.
pub proof fn argument_views_show_every_argument(arguments: Seq<FfmpegArgument>, at: int)
    requires
        0 <= at < arguments.len(),
    ensures
        argument_views(arguments).len() == arguments.len(),
        argument_views(arguments)[at] == match arguments[at] {
            FfmpegArgument::Word(word) => ArgumentView::Word(word@),
            FfmpegArgument::ConcatFile => ArgumentView::ConcatFile,
            FfmpegArgument::AudioFile => ArgumentView::AudioFile,
            FfmpegArgument::Output => ArgumentView::Output,
        },
{
}

} // verus!
