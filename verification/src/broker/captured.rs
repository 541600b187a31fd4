//! What crashed processes have left behind, and how it is reported.

use crate::decimal::push_decimal;
use simdutf8::basic::{from_utf8, Utf8Error};
use textwrap::indent;
use vstd::prelude::*;
use vstd::utf8::{decode_utf8, encode_utf8, valid_utf8};

verus! {

/// `simdutf8::basic::Utf8Error` says that bytes are not UTF-8, and nothing more.
#[verifier::external_type_specification]
#[verifier::external_body]
pub struct ExUtf8Error(Utf8Error);

/// `simdutf8::basic::from_utf8` gives the text of which `input` is the UTF-8 encoding, and fails
/// where there is none.
pub assume_specification[ from_utf8 ](input: &[u8]) -> (text: Result<&str, Utf8Error>)
    ensures
        match text {
            Ok(text) => valid_utf8(input@) && text@ == decode_utf8(input@),
            Err(_) => !valid_utf8(input@),
        },
;

/// Whether `c` has the Unicode property `White_Space`.
pub open spec fn is_white_space(c: char) -> bool {
    let code = c as int;
    ||| 0x9 <= code <= 0xD
    ||| code == 0x20
    ||| code == 0x85
    ||| code == 0xA0
    ||| code == 0x1680
    ||| 0x2000 <= code <= 0x200A
    ||| 0x2028 <= code <= 0x2029
    ||| code == 0x202F
    ||| code == 0x205F
    ||| code == 0x3000
}

/// Whether there is nothing but white space in `line`.
pub open spec fn is_blank(line: Seq<char>) -> bool {
    forall|i: int| 0 <= i < line.len() ==> is_white_space(#[trigger] line[i])
}

/// `text` without the white space at its end.
pub open spec fn trimmed_end(text: Seq<char>) -> Seq<char>
    decreases text.len(),
{
    if text.len() > 0 && is_white_space(text.last()) {
        trimmed_end(text.drop_last())
    } else {
        text
    }
}

/// How many characters stand in front of the first line break, or in all where there is none.
pub open spec fn first_line_len(text: Seq<char>) -> nat
    decreases text.len(),
{
    if text.len() == 0 || text[0] == '\n' {
        0
    } else {
        1 + first_line_len(text.skip(1))
    }
}

/// `line` with `prefix` in front of it; of that, white space at the end is left out where the line
/// is blank.
pub open spec fn indented_line(line: Seq<char>, prefix: Seq<char>) -> Seq<char> {
    if is_blank(line) {
        trimmed_end(prefix) + line
    } else {
        prefix + line
    }
}

/// `text` with `prefix` in front of every line.
pub open spec fn indented(text: Seq<char>, prefix: Seq<char>) -> Seq<char>
    decreases text.len(),
{
    let end = first_line_len(text);
    if text.len() == 0 {
        Seq::empty()
    } else if end < text.len() {
        indented_line(text.take(end as int), prefix).push('\n') + indented(
            text.skip(end as int + 1),
            prefix,
        )
    } else {
        indented_line(text, prefix)
    }
}

/// `textwrap::indent` puts `prefix` in front of every line of `s`, without the white space at its
/// end where the line is blank. It panics where it would need more memory than can be asked for:
/// there is at most one line more than there are bytes, and a text doubles in size where it has to
/// grow.
pub assume_specification[ indent ](s: &str, prefix: &str) -> (text: std::string::String)
    requires
        2 * (encode_utf8(s@).len() + (encode_utf8(s@).len() + 1) * encode_utf8(prefix@).len())
            <= isize::MAX,
    ensures
        text@ == indented(s@, prefix@),
;

/// What a process has written: text where it is text, and else bytes.
pub enum StringOrBytes {
    String(String),
    Bytes(Vec<u8>),
}

impl Clone for StringOrBytes {
    fn clone(&self) -> (copy: StringOrBytes)
        ensures
            match (*self, copy) {
                (StringOrBytes::String(text), StringOrBytes::String(copy)) => copy@ == text@,
                (StringOrBytes::Bytes(bytes), StringOrBytes::Bytes(copy)) => copy@ == bytes@,
                _ => false,
            },
    {
        match self {
            StringOrBytes::String(text) => StringOrBytes::String(text.clone()),
            StringOrBytes::Bytes(bytes) => {
                let copy: Vec<u8> = bytes.clone();
                assert(copy@ =~= bytes@);
                StringOrBytes::Bytes(copy)
            },
        }
    }
}

/// Bytes as a list of numbers.
pub open spec fn listed(bytes: Seq<u8>) -> Seq<char>
    decreases bytes.len(),
{
    if bytes.len() == 0 {
        Seq::empty()
    } else if bytes.len() == 1 {
        crate::decimal::decimal(bytes[0] as nat)
    } else {
        listed(bytes.drop_last()) + ", "@ + crate::decimal::decimal(bytes.last() as nat)
    }
}

impl StringOrBytes {
    /// The bytes that were written.
    pub open spec fn bytes(self) -> Seq<u8> {
        match self {
            StringOrBytes::String(text) => encode_utf8(text@),
            StringOrBytes::Bytes(bytes) => bytes@,
        }
    }

    /// Whether the text is short enough to be indented.
    pub open spec fn fits(self) -> bool {
        18 * self.bytes().len() + 16 <= isize::MAX
    }

    /// How it is shown: text as it is or, in the `alternate` form, indented; bytes as a list.
    pub open spec fn shown(self, alternate: bool) -> Seq<char> {
        match self {
            StringOrBytes::String(text) => if alternate {
                indented(text@, "        "@)
            } else {
                text@
            },
            StringOrBytes::Bytes(bytes) => "raw bytes: ["@ + listed(bytes@) + "]"@,
        }
    }

    /// How it is shown: text as it is or, in the `alternate` form, indented; bytes as a list.
    pub fn debug_string(&self, alternate: bool) -> (text: String)
        requires
            self is String && alternate ==> self.fits(),
        ensures
            text@ == self.shown(alternate),
            self matches StringOrBytes::String(own) ==> !alternate ==> text@ == own@,
            self matches StringOrBytes::String(own) ==> alternate ==> text@ == indented(
                own@,
                "        "@,
            ),
            self matches StringOrBytes::Bytes(bytes) ==> text@ == "raw bytes: ["@ + listed(bytes@)
                + "]"@,
    {
        match self {
            StringOrBytes::String(text) => {
                if alternate {
                    proof {
                        lemma_eight_spaces();
                    }
                    indent(text.as_str(), "        ")
                } else {
                    text.as_str().to_owned()
                }
            },
            StringOrBytes::Bytes(bytes) => {
                let mut text: String = "raw bytes: [".to_owned();
                let mut at: usize = 0;
                assert(bytes@.take(0) =~= Seq::empty());
                assert(text@ =~= "raw bytes: ["@ + listed(bytes@.take(0)));
                while at < bytes.len()
                    invariant
                        at <= bytes@.len(),
                        text@ == "raw bytes: ["@ + listed(bytes@.take(at as int)),
                    decreases bytes@.len() - at,
                {
                    let ghost before = text@;
                    if at > 0 {
                        text.append(", ");
                    }
                    push_decimal(&mut text, bytes[at] as u64);
                    proof {
                        assert(bytes@.take(at + 1).drop_last() =~= bytes@.take(at as int));
                        assert(text@ =~= "raw bytes: ["@ + listed(bytes@.take(at + 1)));
                    }
                    at = at + 1;
                }
                assert(bytes@.take(at as int) =~= bytes@);
                text.append("]");
                text
            },
        }
    }
}

proof fn lemma_eight_spaces()
    ensures
        encode_utf8("        "@).len() == 8,
{
    let spaces = "        "@;
    reveal_strlit("        ");
    reveal_with_fuel(encode_utf8, 9);
    assert(spaces.len() == 8);
}

impl From<String> for StringOrBytes {
    fn from(s: String) -> (captured: StringOrBytes) {
        StringOrBytes::String(s)
    }
}

impl vstd::std_specs::convert::FromSpecImpl<String> for StringOrBytes {
    open spec fn obeys_from_spec() -> bool {
        true
    }

    open spec fn from_spec(s: String) -> StringOrBytes {
        StringOrBytes::String(s)
    }
}

impl From<Vec<u8>> for StringOrBytes {
    fn from(bytes: Vec<u8>) -> (captured: StringOrBytes)
        ensures
            captured is String <==> valid_utf8(bytes@),
            captured is String ==> captured->String_0@ == decode_utf8(bytes@),
            captured is Bytes ==> captured->Bytes_0 == bytes,
            captured.bytes() == bytes@,
    {
        match from_utf8(bytes.as_slice()) {
            Ok(text) => {
                proof {
                    vstd::utf8::decode_utf8_encode_utf8(bytes@);
                }
                StringOrBytes::String(text.to_owned())
            },
            Err(_) => StringOrBytes::Bytes(bytes),
        }
    }
}

impl vstd::std_specs::convert::FromSpecImpl<Vec<u8>> for StringOrBytes {
    open spec fn obeys_from_spec() -> bool {
        false
    }

    open spec fn from_spec(bytes: Vec<u8>) -> StringOrBytes {
        if valid_utf8(bytes@) {
            choose|captured: StringOrBytes|
                #![auto]
                captured is String && captured->String_0@ == decode_utf8(bytes@)
        } else {
            StringOrBytes::Bytes(bytes)
        }
    }
}

/// A crash of the encoder, with what the processes around it have written.
pub struct EncoderCrash {
    /// How the encoder ended, in words.
    pub exit_status: String,
    pub stdout: StringOrBytes,
    pub stderr: StringOrBytes,
    pub source_pipe_stderr: StringOrBytes,
    pub ffmpeg_pipe_stderr: Option<StringOrBytes>,
}

impl EncoderCrash {
    /// Whether everything is short enough to be indented.
    pub open spec fn fits(self) -> bool {
        &&& self.stdout is String ==> self.stdout.fits()
        &&& self.stderr is String ==> self.stderr.fits()
        &&& self.source_pipe_stderr is String ==> self.source_pipe_stderr.fits()
        &&& self.ffmpeg_pipe_stderr matches Some(stderr) ==> stderr is String ==> stderr.fits()
    }

    /// What is said of the crash.
    pub open spec fn message(self) -> Seq<char> {
        let pipes = "encoder crashed: "@ + self.exit_status@ + "\nstdout:\n"@ + self.stdout.shown(
            true,
        ) + "\nstderr:\n"@ + self.stderr.shown(true) + "\nsource pipe stderr:\n"@
            + self.source_pipe_stderr.shown(true);
        match self.ffmpeg_pipe_stderr {
            Some(stderr) => pipes + "\nffmpeg pipe stderr:\n"@ + stderr.shown(true),
            None => pipes,
        }
    }

    /// What is said of the crash.
    pub fn to_string(&self) -> (message: String)
        requires
            self.fits(),
        ensures
            message@ == self.message(),
            message@ == "encoder crashed: "@ + self.exit_status@ + "\nstdout:\n"@ + self.stdout.shown(
                true,
            ) + "\nstderr:\n"@ + self.stderr.shown(true) + "\nsource pipe stderr:\n"@
                + self.source_pipe_stderr.shown(true) + match self.ffmpeg_pipe_stderr {
                Some(stderr) => "\nffmpeg pipe stderr:\n"@ + stderr.shown(true),
                None => Seq::empty(),
            },
    {
        let mut message: String = "encoder crashed: ".to_owned();
        message.append(self.exit_status.as_str());
        message.append("\nstdout:\n");
        message.append(self.stdout.debug_string(true).as_str());
        message.append("\nstderr:\n");
        message.append(self.stderr.debug_string(true).as_str());
        message.append("\nsource pipe stderr:\n");
        message.append(self.source_pipe_stderr.debug_string(true).as_str());
        match &self.ffmpeg_pipe_stderr {
            Some(stderr) => {
                let ghost pipes = message@;
                message.append("\nffmpeg pipe stderr:\n");
                message.append(stderr.debug_string(true).as_str());
                assert(message@ =~= pipes + ("\nffmpeg pipe stderr:\n"@ + stderr.shown(true)));
            },
            None => {
                assert(message@ =~= message@ + Seq::<char>::empty());
            },
        }
        message
    }
}

/// Bytes are listed one behind the other as numbers, with a comma and a space between them.
pub proof fn bytes_are_listed_one_by_one(front: Seq<u8>, byte: u8)
    ensures
        listed(Seq::empty()).len() == 0,
        listed(seq![byte]) == crate::decimal::decimal(byte as nat),
        front.len() > 0 ==> listed(front.push(byte)) == listed(front) + ", "@ + crate::decimal::decimal(
            byte as nat,
        ),
{
    assert(front.push(byte).drop_last() =~= front);
}

/// What is short enough to be indented is told by its length alone, and everything about a crash is short
/// enough where each part of it is.
pub proof fn short_texts_can_be_indented(captured: StringOrBytes, crash: EncoderCrash)
    ensures
        18 * captured.bytes().len() + 16 <= isize::MAX ==> captured.fits(),
        crash.stdout.fits() && crash.stderr.fits() && crash.source_pipe_stderr.fits() && (
        crash.ffmpeg_pipe_stderr is Some ==> crash.ffmpeg_pipe_stderr->0.fits()) ==> crash.fits(),
{
}

} // verus!
