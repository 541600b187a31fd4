use av1an_core::concat::files::ChunkFile;
use av1an_core::concat::ivf::{
    copy_ivf_payload, frame_count_field, read_ivf_frame_header, read_ivf_header,
    validate_compatible_ivf_header, IvfConcat, IvfFault,
};
use av1an_core::concat::ivf_join::{IvfJoin, JoinAction, JoinEvent};
use av1an_core::concat::ivf_memory::{ivf, join_ivf, IvfChunk};

fn ivf_header(frame_count: u32, width: u16, fourcc: [u8; 4]) -> [u8; 32] {
    let mut header = [0u8; 32];
    header[..4].copy_from_slice(b"DKIF");
    header[4..6].copy_from_slice(&0u16.to_le_bytes());
    header[6..8].copy_from_slice(&32u16.to_le_bytes());
    header[8..12].copy_from_slice(&fourcc);
    header[12..14].copy_from_slice(&width.to_le_bytes());
    header[14..16].copy_from_slice(&1080u16.to_le_bytes());
    header[16..20].copy_from_slice(&24u32.to_le_bytes());
    header[20..24].copy_from_slice(&1u32.to_le_bytes());
    header[24..28].copy_from_slice(&frame_count.to_le_bytes());
    header
}

fn ivf_file(
    declared_frames: u32,
    width: u16,
    fourcc: [u8; 4],
    frames: &[(u64, &[u8])],
) -> Vec<u8> {
    let mut file = ivf_header(declared_frames, width, fourcc).to_vec();
    for (timestamp, payload) in frames {
        file.extend_from_slice(&(payload.len() as u32).to_le_bytes());
        file.extend_from_slice(&timestamp.to_le_bytes());
        file.extend_from_slice(payload);
    }
    file
}

fn chunk(name: &str, bytes: Vec<u8>) -> IvfChunk {
    IvfChunk { file: ChunkFile::new(format!("encode/{name}"), 0), bytes }
}

fn output_frames(file: &[u8]) -> (u32, Vec<(u64, Vec<u8>)>) {
    let count = u32::from_le_bytes(file[24..28].try_into().expect("slice length"));
    let mut frames = Vec::new();
    let mut at = 32;
    while at < file.len() {
        let size = u32::from_le_bytes(file[at..at + 4].try_into().expect("slice length")) as usize;
        let timestamp = u64::from_le_bytes(file[at + 4..at + 12].try_into().expect("slice length"));
        frames.push((timestamp, file[at + 12..at + 12 + size].to_vec()));
        at += 12 + size;
    }
    (count, frames)
}

fn fault(bytes: Vec<u8>) -> (IvfFault, String) {
    let error = ivf("encode", &mut vec![chunk("00000.ivf", bytes)]).unwrap_err();
    (error.fault, error.to_string())
}

#[test]
fn two_valid_ivf_chunks_are_concatenated() {
    let mut chunks = vec![
        chunk("00000.ivf", ivf_file(2, 1920, *b"AV01", &[(0, b"first"), (1, b"second")])),
        chunk("00001.ivf", ivf_file(2, 1920, *b"AV01", &[(0, b"third"), (1, b"fourth")])),
    ];
    let output = ivf("encode", &mut chunks).expect("chunks should concatenate");

    let (count, frames) = output_frames(&output);
    assert_eq!(count, 4);
    assert_eq!(
        frames,
        vec![
            (0, b"first".to_vec()),
            (1, b"second".to_vec()),
            (2, b"third".to_vec()),
            (3, b"fourth".to_vec()),
        ]
    );
}

#[test]
fn truncated_ivf_timestamp_returns_error_instead_of_panicking() {
    let mut bytes = ivf_header(1, 1920, *b"AV01").to_vec();
    bytes.extend_from_slice(&1u32.to_le_bytes());
    bytes.extend_from_slice(&[0; 6]);

    let error = ivf("encode", &mut vec![chunk("00000.ivf", bytes)])
        .expect_err("truncated timestamp should fail");
    assert!(error.to_string().contains("00000.ivf"));
}

#[test]
fn truncated_ivf_payload_returns_error() {
    let mut bytes = ivf_header(1, 1920, *b"AV01").to_vec();
    bytes.extend_from_slice(&4u32.to_le_bytes());
    bytes.extend_from_slice(&0u64.to_le_bytes());
    bytes.extend_from_slice(b"x");

    assert!(ivf("encode", &mut vec![chunk("00000.ivf", bytes)]).is_err());
}

#[test]
fn incompatible_ivf_headers_return_error() {
    let mut chunks = vec![
        chunk("00000.ivf", ivf_file(0, 1920, *b"AV01", &[])),
        chunk("00001.ivf", ivf_file(0, 1280, *b"AV01", &[])),
    ];

    let error = ivf("encode", &mut chunks).expect_err("incompatible headers should fail");
    assert!(error.to_string().contains("00001.ivf"));
}

#[test]
fn empty_ivf_directory_returns_error() {
    let error = ivf("encode", &mut Vec::<IvfChunk>::new()).unwrap_err();

    assert_eq!(error.to_string(), "No IVF chunks found in encode");
}

#[test]
fn output_frame_count_uses_actual_frames() {
    let mut chunks = vec![chunk("00000.ivf", ivf_file(99, 1920, *b"AV01", &[(0, b"actual")]))];
    let output = ivf("encode", &mut chunks).expect("chunk should concatenate");

    assert_eq!(output_frames(&output).0, 1);
}

#[test]
fn chunks_are_joined_in_the_order_of_their_numbers() {
    let mut chunks = vec![
        chunk("00010.ivf", ivf_file(1, 1920, *b"AV01", &[(0, b"c")])),
        chunk("00002.ivf", ivf_file(1, 1920, *b"AV01", &[(0, b"b")])),
        chunk("00000.ivf", ivf_file(1, 1920, *b"AV01", &[(0, b"a")])),
    ];
    let output = ivf("encode", &mut chunks).unwrap();

    assert_eq!(
        output_frames(&output).1,
        vec![(0, b"a".to_vec()), (1, b"b".to_vec()), (2, b"c".to_vec())]
    );
    assert_eq!(chunks[0].file.path, "encode/00000.ivf");
}

#[test]
fn a_single_chunk_needs_no_number() {
    let bytes = ivf_file(1, 1920, *b"AV01", &[(3, b"a")]);

    assert_eq!(ivf("encode", &mut vec![chunk("video.ivf", bytes.clone())]).unwrap(), bytes);
}

#[test]
fn later_chunks_begin_behind_the_last_timestamp() {
    let chunks = vec![
        chunk("00000.ivf", ivf_file(2, 1920, *b"AV01", &[(5, b"a"), (9, b"b")])),
        chunk("00001.ivf", ivf_file(0, 1920, *b"AV01", &[])),
        chunk("00002.ivf", ivf_file(1, 1920, *b"AV01", &[(4, b"")])),
    ];
    let output = join_ivf("encode", &chunks).unwrap();

    assert_eq!(
        output_frames(&output),
        (3, vec![(5, b"a".to_vec()), (9, b"b".to_vec()), (15, b"".to_vec())])
    );
}

#[test]
fn joining_a_joined_file_changes_nothing() {
    let chunks = vec![
        chunk("00000.ivf", ivf_file(7, 1920, *b"AV01", &[(0, b"a"), (1, b"b")])),
        chunk("00001.ivf", ivf_file(7, 1920, *b"AV01", &[(0, b"c")])),
    ];
    let output = join_ivf("encode", &chunks).unwrap();
    let again = join_ivf("encode", &vec![chunk("00000.ivf", output.clone())]).unwrap();

    assert_eq!(again, output);
}

#[test]
fn extended_headers_are_kept() {
    let mut bytes = ivf_header(1, 1920, *b"AV01").to_vec();
    bytes[6] = 36;
    bytes.extend_from_slice(b"more");
    bytes.extend_from_slice(&2u32.to_le_bytes());
    bytes.extend_from_slice(&0u64.to_le_bytes());
    bytes.extend_from_slice(b"hi");

    let header = read_ivf_header(&bytes, "a.ivf").unwrap();
    assert_eq!(header.bytes, bytes[..36].to_vec());
    assert_eq!((header.width, header.height, header.rate, header.scale), (1920, 1080, 24, 1));
    assert_eq!(&header.fourcc, b"AV01");
    assert_eq!(join_ivf("encode", &vec![chunk("00000.ivf", bytes.clone())]).unwrap(), bytes);
}

#[test]
fn faulty_headers_are_reported() {
    let short = ivf_header(0, 1920, *b"AV01")[..31].to_vec();
    assert_eq!(
        fault(short),
        (
            IvfFault::HeaderTooShort,
            "IVF header shorter than 32 bytes in encode/00000.ivf".to_owned()
        )
    );

    let mut magic = ivf_header(0, 1920, *b"AV01").to_vec();
    magic[0] = b'X';
    assert_eq!(
        fault(magic),
        (IvfFault::InvalidMagic, "Invalid IVF magic in encode/00000.ivf".to_owned())
    );

    let mut length = ivf_header(0, 1920, *b"AV01").to_vec();
    length[6] = 31;
    assert_eq!(
        fault(length),
        (
            IvfFault::InvalidHeaderLength { length: 31 },
            "Invalid IVF header length 31 in encode/00000.ivf".to_owned()
        )
    );

    let mut truncated = ivf_header(0, 1920, *b"AV01").to_vec();
    truncated[6] = 33;
    assert_eq!(
        fault(truncated),
        (
            IvfFault::TruncatedHeader,
            "Truncated extended IVF header in encode/00000.ivf".to_owned()
        )
    );
}

#[test]
fn faulty_frames_are_reported() {
    let mut header = ivf_file(0, 1920, *b"AV01", &[(0, b"a")]);
    header.extend_from_slice(&[0; 11]);
    assert_eq!(
        fault(header),
        (
            IvfFault::TruncatedFrameHeader { read: 11 },
            "Truncated IVF frame header in encode/00000.ivf: got 11/12 bytes".to_owned()
        )
    );

    let mut payload = ivf_file(0, 1920, *b"AV01", &[(0, b"a")]);
    payload.extend_from_slice(&9u32.to_le_bytes());
    payload.extend_from_slice(&1u64.to_le_bytes());
    payload.extend_from_slice(b"12345678");
    assert_eq!(
        fault(payload),
        (
            IvfFault::TruncatedPayload { frame: 1, size: 9 },
            "Truncated IVF payload in encode/00000.ivf at frame 1: expected 9 bytes".to_owned()
        )
    );
}

#[test]
fn timestamps_that_do_not_fit_are_reported() {
    let offset = ivf_file(1, 1920, *b"AV01", &[(u64::MAX, b"a")]);
    assert_eq!(
        fault(offset),
        (
            IvfFault::OffsetOverflow,
            "IVF timestamp offset overflow after encode/00000.ivf".to_owned()
        )
    );

    let chunks = vec![
        chunk("00000.ivf", ivf_file(1, 1920, *b"AV01", &[(u64::MAX - 1, b"a")])),
        chunk("00001.ivf", ivf_file(2, 1920, *b"AV01", &[(0, b"b"), (1, b"c")])),
    ];
    let error = join_ivf("encode", &chunks).unwrap_err();
    assert_eq!(error.fault, IvfFault::TimestampOverflow { frame: 1 });
    assert_eq!(error.to_string(), "IVF timestamp overflow in encode/00001.ivf at frame 1");
}

#[test]
fn frame_counts_that_do_not_fit_are_reported() {
    let file = ivf_file(1, 1920, *b"AV01", &[(0, b"a")]);
    let mut concat = IvfConcat::new(&file, "a.ivf").unwrap();
    concat.frame_count = u64::MAX;
    let error = concat.append(&file, "a.ivf").unwrap_err();
    assert_eq!(error.to_string(), "IVF frame count overflow");

    concat.frame_count = 1 << 32;
    let error = concat.final_frame_count("encode").unwrap_err();
    assert_eq!(error.fault, IvfFault::TooManyFrames);
    assert_eq!(error.to_string(), "IVF frame count exceeds u32");

    concat.frame_count = (1 << 32) - 1;
    assert_eq!(concat.final_frame_count("encode").unwrap(), u32::MAX);
}

#[test]
fn incompatible_headers_are_told_apart() {
    let base = ivf_header(0, 1920, *b"AV01");
    let first = read_ivf_header(&base, "a.ivf").unwrap();
    let check = |bytes: [u8; 32]| {
        let current = read_ivf_header(&bytes, "b.ivf").unwrap();
        validate_compatible_ivf_header(&first, &current, "b.ivf").map_err(|e| e.to_string())
    };

    assert_eq!(check(ivf_header(5, 1920, *b"AV01")), Ok(()));
    assert_eq!(
        check(ivf_header(0, 1920, *b"VP90")),
        Err("Incompatible IVF FourCC in b.ivf".to_owned())
    );
    let mut height = base;
    height[14] ^= 1;
    assert_eq!(check(height), Err("Incompatible IVF dimensions in b.ivf".to_owned()));
    let mut rate = base;
    rate[16] ^= 1;
    assert_eq!(check(rate), Err("Incompatible IVF rate/scale in b.ivf".to_owned()));
    let mut scale = base;
    scale[20] ^= 1;
    assert_eq!(check(scale), Err("Incompatible IVF rate/scale in b.ivf".to_owned()));
}

#[test]
fn frame_headers_and_payloads_are_read_piece_by_piece() {
    let file = ivf_file(1, 1920, *b"AV01", &[(258, b"abc")]);

    let header = read_ivf_frame_header(&file, 32, "a.ivf").unwrap().unwrap();
    assert_eq!(header, [3, 0, 0, 0, 2, 1, 0, 0, 0, 0, 0, 0]);
    assert!(read_ivf_frame_header(&file, file.len(), "a.ivf").unwrap().is_none());

    let mut output = vec![9];
    copy_ivf_payload(&file, 44, &mut output, 2, "a.ivf", 0).unwrap();
    assert_eq!(output, vec![9, b'a', b'b']);
    assert!(copy_ivf_payload(&file, 45, &mut output, 3, "a.ivf", 0).is_err());
    assert_eq!(output, vec![9, b'a', b'b', b'b', b'c']);
}

#[test]
fn frame_count_is_written_in_little_endian() {
    assert_eq!(frame_count_field(0x0403_0201), vec![1, 2, 3, 4]);
}

/// Joins the files of a listing as they come, and notes what was done to the output.
fn stream(listing: &[(&str, Vec<u8>)], fail_at: Option<usize>) -> (Vec<u8>, Vec<String>) {
    let files = listing
        .iter()
        .enumerate()
        .map(|(position, (name, _))| ChunkFile::new(format!("encode/{name}"), position))
        .collect();
    let mut join = IvfJoin::begin("encode".to_owned(), files);
    let mut out = Vec::new();
    let mut log: Vec<String> = Vec::new();
    loop {
        let failure = (fail_at == Some(log.len())).then(|| "broken pipe".to_owned());
        let event = match join.action() {
            JoinAction::Read { position, path } => {
                log.push(format!("read {path}"));
                JoinEvent::Read(failure.map_or_else(|| Ok(listing[position].1.clone()), Err))
            }
            JoinAction::Create { bytes } => {
                log.push("create".to_owned());
                out = bytes.clone();
                JoinEvent::Written(failure.map_or(Ok(()), Err))
            }
            JoinAction::Append { bytes } => {
                log.push("append".to_owned());
                out.extend_from_slice(bytes);
                JoinEvent::Written(failure.map_or(Ok(()), Err))
            }
            JoinAction::Overwrite { at, bytes } => {
                log.push(format!("overwrite {at}"));
                out[at as usize..at as usize + bytes.len()].copy_from_slice(bytes);
                JoinEvent::Written(failure.map_or(Ok(()), Err))
            }
            JoinAction::Discard => {
                log.push("discard".to_owned());
                out.clear();
                JoinEvent::Discarded
            }
            JoinAction::Stop { error } => {
                log.push(format!("stop {error:?}"));
                return (out, log);
            }
        };
        join = join.step(event);
    }
}

fn two_files() -> Vec<(&'static str, Vec<u8>)> {
    vec![
        ("00001.ivf", ivf_file(7, 1920, *b"AV01", &[(0, b"b")])),
        ("00000.ivf", ivf_file(7, 1920, *b"AV01", &[(0, b"a")])),
    ]
}

#[test]
fn files_are_joined_one_by_one() {
    let (out, log) = stream(&two_files(), None);

    assert_eq!(out, ivf_file(2, 1920, *b"AV01", &[(0, b"a"), (1, b"b")]));
    assert_eq!(
        log,
        vec![
            "read encode/00000.ivf",
            "create",
            "read encode/00000.ivf",
            "append",
            "read encode/00001.ivf",
            "append",
            "overwrite 24",
            "stop None",
        ]
    );
}

#[test]
fn failed_joins_remove_their_output() {
    for step in 0..7 {
        let (_, log) = stream(&two_files(), Some(step));

        assert_eq!(log.len(), step + 3);
        assert_eq!(log[step + 1], "discard");
        assert_eq!(log[step + 2], "stop Some(\"broken pipe\")");
    }

    let mut faulty = two_files();
    faulty[0].1.push(0);
    let (_, log) = stream(&faulty, None);
    assert_eq!(log[log.len() - 2], "discard");
    assert_eq!(
        log[log.len() - 1],
        "stop Some(\"Truncated IVF frame header in encode/00001.ivf: got 1/12 bytes\")"
    );
}

#[test]
fn nothing_is_removed_where_there_was_nothing_to_join() {
    let (_, log) = stream(&[], None);

    assert_eq!(log, vec!["stop Some(\"No IVF chunks found in encode\")"]);
}

#[test]
fn truncated_frames_leave_no_output() {
    let mut timestamp = ivf_header(1, 1920, *b"AV01").to_vec();
    timestamp.extend_from_slice(&1u32.to_le_bytes());
    timestamp.extend_from_slice(&[0; 6]);
    let mut payload = ivf_header(1, 1920, *b"AV01").to_vec();
    payload.extend_from_slice(&4u32.to_le_bytes());
    payload.extend_from_slice(&0u64.to_le_bytes());
    payload.extend_from_slice(b"x");

    for (bytes, error) in [
        (timestamp, "Truncated IVF frame header in encode/00000.ivf: got 10/12 bytes"),
        (payload, "Truncated IVF payload in encode/00000.ivf at frame 0: expected 4 bytes"),
    ] {
        let (out, log) = stream(&[("00000.ivf", bytes)], None);

        assert!(out.is_empty());
        assert_eq!(
            log,
            vec![
                "read encode/00000.ivf".to_owned(),
                "create".to_owned(),
                "read encode/00000.ivf".to_owned(),
                "discard".to_owned(),
                format!("stop Some({error:?})"),
            ]
        );
    }
}
