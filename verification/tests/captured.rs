use av1an_core::broker::captured::{EncoderCrash, StringOrBytes};

fn text(s: &str) -> StringOrBytes {
    StringOrBytes::from(s.to_owned())
}

#[test]
fn utf8_output_is_text() {
    let captured = StringOrBytes::from("h\u{e9}llo \u{1f980}".as_bytes().to_vec());

    assert!(matches!(&captured, StringOrBytes::String(s) if s == "h\u{e9}llo \u{1f980}"));
    assert_eq!(captured.debug_string(false), "h\u{e9}llo \u{1f980}");
}

#[test]
fn other_output_is_bytes() {
    let captured = StringOrBytes::from(vec![0x68, 0xff, 0x0a]);

    assert!(matches!(&captured, StringOrBytes::Bytes(b) if *b == vec![0x68, 0xff, 0x0a]));
    assert_eq!(captured.debug_string(false), "raw bytes: [104, 255, 10]");
    assert_eq!(captured.debug_string(true), "raw bytes: [104, 255, 10]");
}

#[test]
fn truncated_and_overlong_sequences_are_bytes() {
    for bytes in [vec![0xe2, 0x82], vec![0xc0, 0x80], vec![0xed, 0xa0, 0x80]] {
        assert!(matches!(StringOrBytes::from(bytes), StringOrBytes::Bytes(_)));
    }
}

#[test]
fn no_output_is_empty_text() {
    let captured = StringOrBytes::from(Vec::<u8>::new());

    assert!(matches!(&captured, StringOrBytes::String(s) if s.is_empty()));
    assert_eq!(captured.debug_string(true), "");
    assert_eq!(StringOrBytes::Bytes(vec![]).debug_string(true), "raw bytes: []");
    assert_eq!(StringOrBytes::Bytes(vec![7]).debug_string(true), "raw bytes: [7]");
}

#[test]
fn alternate_form_indents_all_lines_but_blank_ones() {
    assert_eq!(text("one").debug_string(true), "        one");
    assert_eq!(text("one\ntwo\n").debug_string(true), "        one\n        two\n");
    assert_eq!(text("one\n\n  \ntwo").debug_string(true), "        one\n\n  \n        two");
    assert_eq!(text("\n").debug_string(true), "\n");
    assert_eq!(text("\u{3000}\u{85}\nx").debug_string(true), "\u{3000}\u{85}\n        x");
    assert_eq!(text("\u{200b}").debug_string(true), "        \u{200b}");
}

#[test]
fn a_copy_is_shown_alike() {
    let bytes = StringOrBytes::from(vec![0xff]);

    assert_eq!(bytes.clone().debug_string(true), bytes.debug_string(true));
    assert_eq!(text("a\nb").clone().debug_string(true), "        a\n        b");
}

#[test]
fn crash_report_shows_every_pipe() {
    let mut crash = EncoderCrash {
        exit_status: "exit status: 1".to_owned(),
        stdout: text("out"),
        stderr: StringOrBytes::from(vec![0xff, 0x00]),
        source_pipe_stderr: text("a\nb"),
        ffmpeg_pipe_stderr: None,
    };
    let report = "encoder crashed: exit status: 1\nstdout:\n        out\nstderr:\nraw bytes: [255, \
                  0]\nsource pipe stderr:\n        a\n        b";

    assert_eq!(crash.to_string(), report);

    crash.ffmpeg_pipe_stderr = Some(text("no such file\n"));

    assert_eq!(
        crash.to_string(),
        format!("{report}\nffmpeg pipe stderr:\n        no such file\n")
    );
}
