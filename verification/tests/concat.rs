use av1an_core::concat::ffmpeg::{
    ffmpeg, ffmpeg_outcome, write_concat_file, write_file_list, FfmpegArgument,
};
use av1an_core::concat::files::{sort_files_by_filename, ChunkFile, Numbered};
use av1an_core::concat::merge_groups::{chunk_group, chunk_group_count};
use av1an_core::concat::merge_run::{MergeOutcome, MergeRun};
use av1an_core::concat::method::{ConcatMethod, UnknownConcatMethod};
use av1an_core::concat::mkvmerge::{
    fix_path, maximum_chunks_per_merge, mkvmerge, mkvmerge_options_json, plan_merge,
    write_options, MergeDirectory, MergeRequest, Rational64,
};
use av1an_core::concat::names::{
    chunk_file_name, group_options_file_name, group_output_file_name, probe_file_name,
};
use av1an_core::concat::path_order::sort_paths;
use av1an_core::encoder::Encoder;

fn fps(numer: i64, denom: i64) -> Rational64 {
    let rate = av_format::rational::Rational64::new(numer, denom);
    Rational64 { numer: *rate.numer(), denom: *rate.denom() }
}

#[test]
fn mkvmerge_options_json_no_audio() {
    let result = mkvmerge_options_json(
        &["00000.ivf".to_string(), "00001.ivf".to_string()],
        "output.mkv",
        None,
        Some(fps(30, 1)),
    );
    assert_eq!(
        result,
        r#"["-o", "output.mkv", "--default-duration", "0:30/1fps", "[", "00000.ivf", "00001.ivf","]"]"#
    );
}

#[test]
fn mkvmerge_options_json_with_audio() {
    let result = mkvmerge_options_json(
        &["00000.ivf".to_string(), "00001.ivf".to_string()],
        "output.mkv",
        Some("audio.mkv"),
        Some(fps(30, 1)),
    );
    assert_eq!(
        result,
        r#"["-o", "output.mkv", "audio.mkv", "--default-duration", "0:30/1fps", "[", "00000.ivf", "00001.ivf","]"]"#
    );
}

#[test]
fn options_quote_and_escape_paths() {
    let result = mkvmerge_options_json(&[], "a \"b\"\\c.mkv", None, None);

    assert_eq!(result, r#"["-o", "a \"b\"\\c.mkv", "[","]"]"#);
}

#[test]
fn options_take_quoted_paths_as_they_are() {
    let result = write_options(
        &["x".to_owned()],
        "OUT",
        &Some("AUDIO".to_owned()),
        Some(Rational64 { numer: -24000, denom: 1001 }),
    );

    assert_eq!(
        result,
        r#"["-o", OUT, AUDIO, "--default-duration", "0:-24000/1001fps", "[", "x","]"]"#
    );
}

#[test]
fn few_chunks_are_merged_at_once() {
    let jobs = mkvmerge("/v/out.mkv", Some("/v/audio.mkv"), Encoder::x265, 2, None, 960, &vec![]);

    assert_eq!(jobs.len(), 1);
    assert_eq!(jobs[0].group, None);
    assert_eq!(jobs[0].options_file, "options.json");
    assert_eq!(jobs[0].argument, "@../options.json");
    assert_eq!(jobs[0].directory, MergeDirectory::Encode);
    assert_eq!(
        jobs[0].options,
        r#"["-o", "/v/out.mkv", "/v/audio.mkv", "[", "00000.hevc", "00001.hevc","]"]"#
    );
    assert_eq!(jobs[0].failure("no space"), "mkvmerge concatenation failed");
}

#[test]
fn many_chunks_are_merged_in_groups() {
    let outputs = vec!["/t/g0".to_owned(), "/t/g1".to_owned()];
    let jobs = mkvmerge("/v/out.mkv", Some("/v/audio.mkv"), Encoder::x264, 3, None, 2, &outputs);

    assert_eq!(jobs.len(), 3);
    assert_eq!(jobs[0].group, Some(0));
    assert_eq!(jobs[0].options_file, "group_options_00000.json");
    assert_eq!(jobs[0].argument, "@../group_options_00000.json");
    assert_eq!(jobs[0].directory, MergeDirectory::Encode);
    assert_eq!(jobs[0].options, r#"["-o", "/t/g0", "[", "00000.264", "00001.264","]"]"#);
    assert_eq!(
        jobs[0].failure("no space"),
        "Failed to execute mkvmerge command for concatenation: no space"
    );
    assert_eq!(jobs[1].options, r#"["-o", "/t/g1", "[", "00002.264","]"]"#);
    assert_eq!(jobs[2].group, None);
    assert_eq!(jobs[2].options_file, "options.json");
    assert_eq!(jobs[2].argument, "@./options.json");
    assert_eq!(jobs[2].directory, MergeDirectory::Temp);
    assert_eq!(
        jobs[2].options,
        r#"["-o", "/v/out.mkv", "/v/audio.mkv", "[", "group_output_00000.mkv", "group_output_00001.mkv","]"]"#
    );
}

#[test]
fn merges_are_planned_over_quoted_paths() {
    let request = MergeRequest {
        output: "OUT".to_owned(),
        audio: None,
        encoder: Encoder::aom,
        num_chunks: 1,
        output_fps: None,
        limit: 960,
    };
    let jobs = plan_merge(&request, &vec![]);

    assert_eq!(jobs.len(), 1);
    assert_eq!(jobs[0].options, r#"["-o", OUT, "[", "00000.ivf","]"]"#);
}

#[test]
fn groups_are_as_few_as_can_be() {
    for (chunks, groups) in [(1, 1), (959, 1), (960, 1), (961, 2), (1920, 2), (1921, 3)] {
        assert_eq!(chunk_group_count(chunks, maximum_chunks_per_merge(false)), groups);
    }
    assert_eq!(chunk_group_count(usize::MAX, maximum_chunks_per_merge(true)), 1);
    assert_eq!(chunk_group_count(usize::MAX, 1), usize::MAX);
}

#[test]
fn groups_are_all_chunks_in_order() {
    let mut names = Vec::new();
    for group in 0..chunk_group_count(2500, 960) {
        let chunks = chunk_group(group, Encoder::rav1e, 2500, 960);
        assert!(!chunks.is_empty() && chunks.len() <= 960);
        names.extend(chunks);
    }

    assert_eq!(names, (0..2500).map(|i| format!("{i:05}.ivf")).collect::<Vec<_>>());
}

#[test]
fn verbatim_paths_are_made_plain_on_windows() {
    assert_eq!(fix_path(r"\\?\C:\video\out.mkv", true), r"C:\video\out.mkv");
    assert_eq!(fix_path(r"\\?\UNC\server\share\out.mkv", true), r"\\server\share\out.mkv");
    assert_eq!(fix_path(r"C:\video\out.mkv", true), r"C:\video\out.mkv");
    assert_eq!(fix_path(r"\\?\UN", true), "UN");
    assert_eq!(fix_path(r"\\?", true), r"\\?");
    assert_eq!(fix_path(r"\\?\C:\out.mkv", false), r"\\?\C:\out.mkv");
}

#[test]
fn file_names_hold_padded_numbers() {
    assert_eq!(chunk_file_name(7, Encoder::svt_av1), "00007.ivf");
    assert_eq!(chunk_file_name(123_456, Encoder::vpx), "123456.ivf");
    assert_eq!(chunk_file_name(0, Encoder::x264), "00000.264");
    assert_eq!(probe_file_name(12, "42.25", Encoder::x265), "v_00012_42.25.hevc");
    assert_eq!(group_options_file_name(3), "group_options_00003.json");
    assert_eq!(group_output_file_name(3), "group_output_00003.mkv");
}

#[test]
fn concat_list_escapes_special_characters() {
    let contents = write_file_list(&vec![
        "/tmp/encode/00000.ivf".to_owned(),
        r"/tmp/it's a\b/00001.ivf".to_owned(),
    ]);

    assert_eq!(
        contents,
        "file /tmp/encode/00000.ivf\nfile /tmp/it\\'s\\ a\\\\b/00001.ivf\n"
    );
    assert_eq!(write_concat_file(&mut vec![]), "");
}

#[test]
fn concat_list_is_ordered_by_path() {
    let mut paths: Vec<String> = [9, 2, 7, 0, 11, 4, 1, 4]
        .into_iter()
        .map(|i| format!("/t/encode/{i:05}.ivf"))
        .collect();
    let mut expected = paths.clone();
    expected.sort();
    let list: String = expected.iter().map(|path| format!("file {path}\n")).collect();

    assert_eq!(write_concat_file(&mut paths), list);
    assert_eq!(paths, expected);
}

#[test]
fn paths_are_sorted_as_paths_compare() {
    let names = ["b", "a", "ab", "", "\u{e9}", "a b", "z", "Z", "\u{1f980}", "\u{ffff}", "a"];
    let mut sorted: Vec<String> = names.iter().map(|name| format!("dir/{name}")).collect();
    let mut expected: Vec<std::path::PathBuf> =
        sorted.iter().map(std::path::PathBuf::from).collect();
    expected.sort();
    sort_paths(&mut sorted);

    assert_eq!(sorted.iter().map(std::path::PathBuf::from).collect::<Vec<_>>(), expected);
}

fn words(audio_len: Option<u64>) -> Vec<String> {
    ffmpeg(audio_len)
        .into_iter()
        .map(|argument| match argument {
            FfmpegArgument::Word(word) => word.to_owned(),
            FfmpegArgument::ConcatFile => "<concat>".to_owned(),
            FfmpegArgument::AudioFile => "<audio>".to_owned(),
            FfmpegArgument::Output => "<output>".to_owned(),
        })
        .collect()
}

#[test]
fn ffmpeg_copies_video_and_audio() {
    let silent = "-y -hide_banner -loglevel error -f concat -safe 0 -i <concat> -map 0 -c copy \
                  <output>";
    let sound = "-y -hide_banner -loglevel error -f concat -safe 0 -i <concat> -i <audio> -map 0 \
                 -map 1 -c copy <output>";

    assert_eq!(words(None).join(" "), silent);
    assert_eq!(words(Some(1000)).join(" "), silent);
    assert_eq!(words(Some(1001)).join(" "), sound);
}

#[test]
fn concat_methods_are_chosen_by_name() {
    for (method, name) in [
        (ConcatMethod::MKVMerge, "mkvmerge"),
        (ConcatMethod::FFmpeg, "ffmpeg"),
        (ConcatMethod::Ivf, "ivf"),
    ] {
        assert_eq!(method.as_str(), name);
        assert_eq!(method.to_string(), name);
        assert_eq!(ConcatMethod::from_str(name), Ok(method));
    }
    assert_eq!(ConcatMethod::from_str("FFmpeg"), Err(UnknownConcatMethod));
    assert_eq!(ConcatMethod::from_str(""), Err(UnknownConcatMethod));
}

#[test]
fn files_are_sorted_by_number_not_by_text() {
    let mut files: Vec<ChunkFile> = ["e/100000.ivf", "e/00003.ivf", "e/20.ivf", "e/00001.ivf"]
        .into_iter()
        .map(|path| ChunkFile::new(path.to_owned(), 0))
        .collect();
    sort_files_by_filename(&mut files);

    assert_eq!(
        files.iter().map(|file| file.path.as_str()).collect::<Vec<_>>(),
        vec!["e/00001.ivf", "e/00003.ivf", "e/20.ivf", "e/100000.ivf"]
    );
}

#[test]
fn stems_are_numbers_where_names_follow_the_pattern() {
    let number = |path: &str| ChunkFile::new(path.to_owned(), 0).number();

    assert_eq!(number("00012.ivf"), Some(12));
    assert_eq!(number("/a.b/c/00012.hevc"), Some(12));
    assert_eq!(number("00012"), Some(12));
    assert_eq!(number("/mnt/:x/00012.ivf"), Some(12));
    assert_eq!(number(r"C:\video/00012.ivf"), Some(12));
    assert_eq!(number("1.2.ivf"), None);
    assert_eq!(number(".ivf"), None);
    assert_eq!(number("4294967295.ivf"), Some(u32::MAX));
    assert_eq!(number("4294967296.ivf"), None);
    for index in [0usize, 7, 99_999, 123_456] {
        let name = chunk_file_name(index, Encoder::x265);
        assert_eq!(number(&format!("/tmp/encode/{name}")), Some(index as u32));
    }
}

#[test]
fn no_merge_follows_a_failed_one() {
    let outputs = vec!["/t/g0".to_owned(), "/t/g1".to_owned()];
    let plan = || mkvmerge("/v/out.mkv", None, Encoder::aom, 3, None, 2, &outputs);

    let mut run = MergeRun::new(plan());
    assert_eq!(run.due().unwrap().group, Some(0));
    run.step(MergeOutcome::Succeeded);
    assert_eq!(run.due().unwrap().group, Some(1));
    run.step(MergeOutcome::Failed { stderr: "no space".to_owned() });
    assert!(run.due().is_none());
    assert_eq!(
        run.error.as_deref(),
        Some("Failed to execute mkvmerge command for concatenation: no space")
    );

    let mut run = MergeRun::new(plan());
    run.step(MergeOutcome::NotStarted { message: "not found".to_owned() });
    assert!(run.due().is_none());
    assert_eq!(run.error.as_deref(), Some("not found"));

    let mut run = MergeRun::new(plan());
    for done in 0..3 {
        assert_eq!(run.done, done);
        assert!(run.due().is_some());
        run.step(MergeOutcome::Succeeded);
    }
    assert!(run.due().is_none());
    assert!(run.error.is_none());
}

#[test]
fn options_are_read_back_as_arguments() {
    let output = "/v/a \"b\" \\ ~!'.mkv";
    let options = mkvmerge_options_json(
        &["00000.ivf".to_owned()],
        output,
        Some("/v/audio.mkv"),
        Some(fps(24000, 1001)),
    );
    let read: Vec<String> = serde_json::from_str(&options).expect("options should be JSON");

    assert_eq!(
        read,
        vec![
            "-o",
            output,
            "/v/audio.mkv",
            "--default-duration",
            "0:24000/1001fps",
            "[",
            "00000.ivf",
            "]",
        ]
    );
}

#[test]
fn printable_ascii_is_quoted_with_backslashes() {
    let printable: String = (' '..='~').collect();
    let mut quoted = String::from("\"");
    for c in printable.chars() {
        if c == '"' || c == '\\' {
            quoted.push('\\');
        }
        quoted.push(c);
    }
    quoted.push('"');

    assert_eq!(
        mkvmerge_options_json(&[], &printable, None, None),
        format!("[\"-o\", {quoted}, \"[\",\"]\"]")
    );
}

#[test]
fn failed_ffmpeg_run_is_an_error() {
    assert_eq!(ffmpeg_outcome(Ok(true)), Ok(()));
    assert_eq!(ffmpeg_outcome(Ok(false)), Err("FFmpeg concatenation failed".to_owned()));
    assert_eq!(ffmpeg_outcome(Err("not found".to_owned())), Err("not found".to_owned()));
}

#[test]
fn stems_follow_one_of_the_platforms() {
    for (path, stems) in [
        (r"C:\video\00012.ivf", vec![Some(r"C:\video\00012"), Some("00012")]),
        (r"\\server\share\a\00012.ivf", vec![Some(r"\\server\share\a\00012"), Some("00012")]),
        ("//server/share", vec![Some("share"), None]),
    ] {
        let file = ChunkFile::new(path.to_owned(), 0);

        assert!(stems.contains(&file.stem.as_deref()), "{path}");
    }
}
