//! Joining chunks with mkvmerge.
//!
//! mkvmerge is told what to do by a file of options. It opens all its inputs at once, so where there
//! are too many chunks they are merged in groups, and then the groups are merged.

use crate::concat::merge_groups::{chunk_group, chunk_group_count};
use crate::concat::names::{group_options_file_name, group_output_file_name};
use crate::decimal::push_signed_decimal;
use crate::encoder::Encoder;
use vstd::prelude::*;

verus! {

/// How many chunks mkvmerge may be given at once, where the system limits the number of open files.
pub const MAXIMUM_CHUNKS_PER_MERGE: usize = 960;

/// How many chunks mkvmerge may be given at once: any number on Windows.
pub fn maximum_chunks_per_merge(windows: bool) -> (limit: usize)
    ensures
        limit == (if windows {
            usize::MAX
        } else {
            MAXIMUM_CHUNKS_PER_MERGE
        }),
        !windows ==> limit == 960,
{
    if windows {
        usize::MAX
    } else {
        MAXIMUM_CHUNKS_PER_MERGE
    }
}

/// Whether `text` begins with `front`.
pub open spec fn begins_with(text: Seq<char>, front: Seq<char>) -> bool {
    front.len() <= text.len() && text.take(front.len() as int) == front
}

/// A path as mkvmerge takes it. On Windows mkvmerge does not take verbatim paths, which begin with
/// `\\?\`: that is left out, and of a verbatim network path `\\?\UNC\server` the plain form
/// `\\server` is made.
pub open spec fn fixed_path(path: Seq<char>, windows: bool) -> Seq<char> {
    let verbatim = seq!['\\', '\\', '?', '\\'];
    let network = seq!['U', 'N', 'C'];
    if !windows || !begins_with(path, verbatim) {
        path
    } else if begins_with(path.skip(4), network) {
        seq!['\\'] + path.skip(7)
    } else {
        path.skip(4)
    }
}

/// A path as mkvmerge takes it.
pub fn fix_path(path: &str, windows: bool) -> (fixed: String)
    ensures
        fixed@ == fixed_path(path@, windows),
{
    let len: usize = path.unicode_len();
    if !windows || len < 4 || path.get_char(0) != '\\' || path.get_char(1) != '\\' || path.get_char(
        2,
    ) != '?' || path.get_char(3) != '\\' {
        proof {
            let verbatim = seq!['\\', '\\', '?', '\\'];
            if len >= 4 {
                let front = path@.take(4);
                assert(front[0] == path@[0] && front[1] == path@[1] && front[2] == path@[2]
                    && front[3] == path@[3]);
                assert(verbatim[0] == '\\' && verbatim[1] == '\\' && verbatim[2] == '?' && verbatim[3]
                    == '\\');
            }
        }
        return path.to_owned();
    }
    assert(path@.take(4) =~= seq!['\\', '\\', '?', '\\']);
    let rest: &str = path.substring_char(4, len);
    assert(rest@ =~= path@.skip(4));
    if len < 7 || rest.get_char(0) != 'U' || rest.get_char(1) != 'N' || rest.get_char(2) != 'C' {
        proof {
            let network = seq!['U', 'N', 'C'];
            if len >= 7 {
                let front = rest@.take(3);
                assert(front[0] == rest@[0] && front[1] == rest@[1] && front[2] == rest@[2]);
                assert(network[0] == 'U' && network[1] == 'N' && network[2] == 'C');
            }
        }
        return rest.to_owned();
    }
    assert(rest@.take(3) =~= seq!['U', 'N', 'C']);
    let mut fixed: String = "\\".to_owned();
    fixed.append(path.substring_char(7, len));
    proof {
        reveal_strlit("\\");
        assert(fixed@ =~= seq!['\\'] + path@.skip(7));
    }
    fixed
}

/// A fraction.
#[derive(Clone, Copy, Debug, PartialEq, Eq, Structural)]
pub struct Rational64 {
    pub numer: i64,
    pub denom: i64,
}

/// What the `Debug` formatting of `text` gives: the text in quotes, with escapes in it.
pub uninterp spec fn debug_text(text: Seq<char>) -> Seq<char>;

/// Whether `text` is made of ASCII characters that are seen, and of spaces.
pub open spec fn is_printable_ascii(text: Seq<char>) -> bool {
    forall|i: int| 0 <= i < text.len() ==> ' ' <= #[trigger] text[i] <= '~'
}

/// Whether `c` is escaped between quotes.
pub open spec fn needs_escape(c: char) -> bool {
    c == '"' || c == '\\'
}

/// `text` with a backslash in front of every quote and every backslash.
pub open spec fn quote_escaped(text: Seq<char>) -> Seq<char>
    decreases text.len(),
{
    if text.len() == 0 {
        Seq::empty()
    } else if needs_escape(text[0]) {
        seq!['\\', text[0]] + quote_escaped(text.skip(1))
    } else {
        seq![text[0]] + quote_escaped(text.skip(1))
    }
}

/// `text` between quotes.
pub open spec fn in_quotes(text: Seq<char>) -> Seq<char> {
    seq!['"'] + quote_escaped(text) + seq!['"']
}

/// Whether the quoted form of `text` is known wherever the text is printable ASCII.
pub open spec fn is_known_quoted(text: Seq<char>) -> bool {
    is_printable_ascii(text) ==> debug_text(text) == in_quotes(text)
}

/// Whether `text` is short enough to be quoted.
pub open spec fn is_quotable(text: Seq<char>) -> bool {
    20 * text.len() + 4 <= isize::MAX
}

/// The `Debug` formatting of `str` in the standard library, which quotes and escapes the text. Of
/// printable ASCII it escapes quotes and backslashes, with a backslash, and leaves the rest as it is.
/// It panics where it would need more memory than can be asked for: a character takes at most ten bytes
/// in its escaped form, and a text doubles in size where it has to grow.
#[verifier::external_body]
fn quoted(text: &str) -> (quoted: String)
    requires
        is_quotable(text@),
    ensures
        quoted@ == debug_text(text@),
        is_printable_ascii(text@) ==> quoted@ == in_quotes(text@),
{
    format!("{:?}", text)
}

/// The texts in `list`.
pub open spec fn texts(list: Seq<String>) -> Seq<Seq<char>> {
    list.map_values(|text: String| text@)
}

/// The part of the options that lists the inputs.
pub open spec fn input_list(inputs: Seq<Seq<char>>) -> Seq<char>
    decreases inputs.len(),
{
    if inputs.len() == 0 {
        Seq::empty()
    } else {
        input_list(inputs.drop_last()) + ", \""@ + inputs.last() + "\""@
    }
}

/// The part of the options that sets the frame rate, and opens the list of inputs.
pub open spec fn rate_option(output_fps: Option<Rational64>) -> Seq<char> {
    match output_fps {
        Some(fps) => ", \"--default-duration\", \"0:"@ + crate::decimal::signed_decimal(
            fps.numer as int,
        ) + "/"@ + crate::decimal::signed_decimal(fps.denom as int) + "fps\", \"[\""@,
        None => ", \"[\""@,
    }
}

/// The options for a merge, where the output and the audio are given in quotes.
pub open spec fn options_text(
    inputs: Seq<Seq<char>>,
    output: Seq<char>,
    audio: Option<Seq<char>>,
    output_fps: Option<Rational64>,
) -> Seq<char> {
    let files = "[\"-o\", "@ + output + match audio {
        Some(audio) => ", "@ + audio,
        None => Seq::empty(),
    };
    files + rate_option(output_fps) + input_list(inputs) + ",\"]\"]"@
}

/// The text in `text`, where there is one.
pub open spec fn optional_text(text: Option<String>) -> Option<Seq<char>> {
    match text {
        Some(text) => Some(text@),
        None => None,
    }
}

/// The quoted form of `text`, where there is one.
pub open spec fn optional_debug_text(text: Option<&str>) -> Option<Seq<char>> {
    match text {
        Some(text) => Some(debug_text(text@)),
        None => None,
    }
}

/// Writes the options for a merge, where the output and the audio are given in quotes.
pub fn write_options(
    chunks: &[String],
    output: &str,
    audio: &Option<String>,
    output_fps: Option<Rational64>,
) -> (options: String)
    ensures
        options@ == options_text(texts(chunks@), output@, optional_text(*audio), output_fps),
{
    let mut options: String = "[\"-o\", ".to_owned();
    options.append(output);
    match audio {
        Some(audio) => {
            let ghost before = options@;
            options.append(", ");
            options.append(audio.as_str());
            assert(options@ =~= before + (", "@ + audio@));
        },
        None => {
            assert(options@ =~= options@ + Seq::<char>::empty());
        },
    }
    let ghost files = options@;
    match output_fps {
        Some(fps) => {
            options.append(", \"--default-duration\", \"0:");
            push_signed_decimal(&mut options, fps.numer);
            options.append("/");
            push_signed_decimal(&mut options, fps.denom);
            options.append("fps\", \"[\"");
        },
        None => {
            options.append(", \"[\"");
        },
    }
    assert(options@ =~= files + rate_option(output_fps));
    let ghost opened = options@;
    let ghost inputs = texts(chunks@);
    assert(chunks@.len() == chunks.len());
    assert(inputs.take(0) =~= Seq::empty());
    assert(options@ =~= opened + input_list(inputs.take(0)));
    let mut at: usize = 0;
    while at < chunks.len()
        invariant
            at <= chunks@.len(),
            chunks@.len() == chunks.len(),
            inputs == texts(chunks@),
            options@ == opened + input_list(inputs.take(at as int)),
        decreases chunks@.len() - at,
    {
        let ghost before = options@;
        options.append(", \"");
        options.append(chunks[at].as_str());
        options.append("\"");
        proof {
            let next = inputs.take(at + 1);
            assert(next.drop_last() =~= inputs.take(at as int));
            assert(next.last() == chunks@[at as int]@);
            assert(options@ =~= opened + input_list(next));
        }
        at = at + 1;
    }
    assert(inputs.take(at as int) =~= inputs);
    options.append(",\"]\"]");
    options
}

/// Writes the options for a merge of `chunks` into `output`, with an audio track where there is one.
pub fn mkvmerge_options_json(
    chunks: &[String],
    output: &str,
    audio: Option<&str>,
    output_fps: Option<Rational64>,
) -> (options: String)
    requires
        is_quotable(output@),
        audio matches Some(audio) ==> is_quotable(audio@),
    ensures
        options@ == options_text(
            texts(chunks@),
            debug_text(output@),
            optional_debug_text(audio),
            output_fps,
        ),
        is_known_quoted(output@),
        audio matches Some(audio) ==> is_known_quoted(audio@),
{
    let audio: Option<String> = match audio {
        Some(audio) => Some(quoted(audio)),
        None => None,
    };
    write_options(chunks, quoted(output).as_str(), &audio, output_fps)
}

/// The names of the first `groups` merged groups.
pub open spec fn group_outputs(groups: nat) -> Seq<Seq<char>> {
    Seq::new(groups, |group: int| crate::concat::names::group_output_name(group as nat))
}

/// Where mkvmerge is run.
#[derive(Clone, Copy, Debug, PartialEq, Eq, Structural)]
pub enum MergeDirectory {
    /// In the directory with the encoded chunks.
    Encode,
    /// In the directory around it.
    Temp,
}

/// One run of mkvmerge.
#[derive(Debug)]
pub struct MergeJob {
    /// The group that is merged, where it is not the whole.
    pub group: Option<usize>,
    /// The name of the file for the options, which stands in the temporary directory.
    pub options_file: String,
    /// What goes into that file.
    pub options: String,
    /// Where mkvmerge is run.
    pub directory: MergeDirectory,
    /// What mkvmerge is called with.
    pub argument: String,
}

/// What a run of mkvmerge is.
#[verifier::ext_equal]
pub struct MergeJobView {
    pub group: Option<usize>,
    pub options_file: Seq<char>,
    pub options: Seq<char>,
    pub directory: MergeDirectory,
    pub argument: Seq<char>,
}

impl View for MergeJob {
    type V = MergeJobView;

    open spec fn view(&self) -> MergeJobView {
        MergeJobView {
            group: self.group,
            options_file: self.options_file@,
            options: self.options@,
            directory: self.directory,
            argument: self.argument@,
        }
    }
}

/// What is merged, and into what. Paths are given in quotes.
#[derive(Debug)]
pub struct MergeRequest {
    pub output: String,
    pub audio: Option<String>,
    pub encoder: Encoder,
    pub num_chunks: usize,
    pub output_fps: Option<Rational64>,
    /// How many chunks are merged at once at most.
    pub limit: usize,
}

/// What is merged, and into what.
pub struct MergeView {
    pub output: Seq<char>,
    pub audio: Option<Seq<char>>,
    pub encoder: Encoder,
    pub num_chunks: nat,
    pub output_fps: Option<Rational64>,
    pub limit: nat,
}

impl View for MergeRequest {
    type V = MergeView;

    open spec fn view(&self) -> MergeView {
        MergeView {
            output: self.output@,
            audio: optional_text(self.audio),
            encoder: self.encoder,
            num_chunks: self.num_chunks as nat,
            output_fps: self.output_fps,
            limit: self.limit as nat,
        }
    }
}

impl MergeView {
    /// How many groups there are.
    pub open spec fn groups(self) -> nat {
        crate::concat::merge_groups::group_count(self.num_chunks, self.limit)
    }

    /// The options for the merge of `inputs` into the output.
    pub open spec fn whole_options(self, inputs: Seq<Seq<char>>) -> Seq<char> {
        options_text(inputs, self.output, self.audio, self.output_fps)
    }

    /// The names of the chunks in group `group`.
    pub open spec fn chunks(self, group: nat) -> Seq<Seq<char>> {
        crate::concat::merge_groups::group_chunks(
            group,
            self.encoder,
            self.num_chunks,
            self.limit,
        )
    }

    /// The run that merges all chunks at once.
    pub open spec fn only_job(self) -> MergeJobView {
        MergeJobView {
            group: None,
            options_file: "options.json"@,
            options: self.whole_options(self.chunks(0)),
            directory: MergeDirectory::Encode,
            argument: "@../options.json"@,
        }
    }

    /// The run that merges group `group` into the file `output`, without audio.
    pub open spec fn group_job(self, group: int, output: Seq<char>) -> MergeJobView {
        MergeJobView {
            group: Some(group as usize),
            options_file: crate::concat::names::group_options_name(group as nat),
            options: options_text(self.chunks(group as nat), output, None, self.output_fps),
            directory: MergeDirectory::Encode,
            argument: "@../"@ + crate::concat::names::group_options_name(group as nat),
        }
    }

    /// The run that merges the merged groups.
    pub open spec fn last_job(self) -> MergeJobView {
        MergeJobView {
            group: None,
            options_file: "options.json"@,
            options: self.whole_options(group_outputs(self.groups())),
            directory: MergeDirectory::Temp,
            argument: "@./options.json"@,
        }
    }

    /// All runs, in order, where the groups are merged into the files `outputs`.
    pub open spec fn jobs(self, outputs: Seq<Seq<char>>) -> Seq<MergeJobView> {
        if self.groups() == 1 {
            seq![self.only_job()]
        } else {
            Seq::new(self.groups(), |group: int| self.group_job(group, outputs[group])).push(
                self.last_job(),
            )
        }
    }
}

/// The runs in `jobs`.
pub open spec fn job_views(jobs: Seq<MergeJob>) -> Seq<MergeJobView> {
    jobs.map_values(|job: MergeJob| job@)
}

/// Plans the runs of mkvmerge. Paths are given in quotes; `outputs` are those of the merged groups.
pub fn plan_merge(request: &MergeRequest, outputs: &Vec<String>) -> (jobs: Vec<MergeJob>)
    requires
        request.num_chunks != 0,
        request.limit != 0,
        request@.groups() > 1 ==> outputs@.len() == request@.groups(),
    ensures
        job_views(jobs@) == request@.jobs(texts(outputs@)),
{
    proof {
        crate::concat::merge_groups::groups_fit(request.num_chunks as nat, request.limit as nat);
    }
    let groups: usize = chunk_group_count(request.num_chunks, request.limit);
    let mut jobs: Vec<MergeJob> = Vec::new();
    if groups == 1 {
        let chunks: Vec<String> = chunk_group(
            0,
            request.encoder,
            request.num_chunks,
            request.limit,
        );
        jobs.push(
            MergeJob {
                group: None,
                options_file: "options.json".to_owned(),
                options: write_options(
                    chunks.as_slice(),
                    request.output.as_str(),
                    &request.audio,
                    request.output_fps,
                ),
                directory: MergeDirectory::Encode,
                argument: "@../options.json".to_owned(),
            },
        );
        assert(job_views(jobs@) =~= request@.jobs(texts(outputs@)));
        return jobs;
    }
    let mut names: Vec<String> = Vec::new();
    while jobs.len() < groups
        invariant
            request.num_chunks != 0,
            request.limit != 0,
            groups == request@.groups(),
            groups == outputs@.len(),
            jobs@.len() == names@.len(),
            jobs@.len() <= groups,
            forall|group: int|
                0 <= group < jobs@.len() ==> (#[trigger] jobs@[group])@ == request@.group_job(
                    group,
                    outputs@[group]@,
                ),
            forall|group: int|
                0 <= group < names@.len() ==> (#[trigger] names@[group])@
                    == crate::concat::names::group_output_name(group as nat),
        decreases groups - jobs@.len(),
    {
        let group: usize = jobs.len();
        let chunks: Vec<String> = chunk_group(
            group,
            request.encoder,
            request.num_chunks,
            request.limit,
        );
        let options_file: String = group_options_file_name(group);
        let mut argument: String = "@../".to_owned();
        argument.append(options_file.as_str());
        jobs.push(
            MergeJob {
                group: Some(group),
                options_file,
                options: write_options(
                    chunks.as_slice(),
                    outputs[group].as_str(),
                    &None,
                    request.output_fps,
                ),
                directory: MergeDirectory::Encode,
                argument,
            },
        );
        names.push(group_output_file_name(group));
    }
    assert(texts(names@) =~= group_outputs(request@.groups()));
    jobs.push(
        MergeJob {
            group: None,
            options_file: "options.json".to_owned(),
            options: write_options(
                names.as_slice(),
                request.output.as_str(),
                &request.audio,
                request.output_fps,
            ),
            directory: MergeDirectory::Temp,
            argument: "@./options.json".to_owned(),
        },
    );
    assert(job_views(jobs@) =~= request@.jobs(texts(outputs@)));
    jobs
}

/// The quoted forms of `list`.
pub open spec fn debug_texts(list: Seq<String>) -> Seq<Seq<char>> {
    list.map_values(|text: String| debug_text(text@))
}

/// Plans the runs of mkvmerge that merge the encodes of `num_chunks` chunks into `output`, with an
/// audio track where there is one. Where more than one group has to be merged, `group_outputs` are
/// the files for the merged groups.
pub fn mkvmerge(
    output: &str,
    audio: Option<&str>,
    encoder: Encoder,
    num_chunks: usize,
    output_fps: Option<Rational64>,
    limit: usize,
    group_outputs: &Vec<String>,
) -> (jobs: Vec<MergeJob>)
    requires
        is_quotable(output@),
        audio matches Some(audio) ==> is_quotable(audio@),
        forall|i: int|
            0 <= i < group_outputs@.len() ==> is_quotable((#[trigger] group_outputs@[i])@),
        num_chunks != 0,
        limit != 0,
        num_chunks > limit ==> group_outputs@.len() == crate::concat::merge_groups::group_count(
            num_chunks as nat,
            limit as nat,
        ),
    ensures
        job_views(jobs@) == (MergeView {
            output: debug_text(output@),
            audio: optional_debug_text(audio),
            encoder,
            num_chunks: num_chunks as nat,
            output_fps,
            limit: limit as nat,
        }).jobs(debug_texts(group_outputs@)),
        is_known_quoted(output@),
        audio matches Some(audio) ==> is_known_quoted(audio@),
        forall|i: int|
            0 <= i < group_outputs@.len() ==> is_known_quoted((#[trigger] group_outputs@[i])@),
{
    proof {
        crate::concat::merge_groups::groups_fit(num_chunks as nat, limit as nat);
    }
    let audio: Option<String> = match audio {
        Some(audio) => Some(quoted(audio)),
        None => None,
    };
    let mut outputs: Vec<String> = Vec::new();
    while outputs.len() < group_outputs.len()
        invariant
            outputs@.len() <= group_outputs@.len(),
            forall|i: int|
                0 <= i < group_outputs@.len() ==> is_quotable((#[trigger] group_outputs@[i])@),
            forall|i: int|
                0 <= i < outputs@.len() ==> (#[trigger] outputs@[i])@ == debug_text(
                    group_outputs@[i]@,
                ),
            forall|i: int|
                0 <= i < outputs@.len() ==> is_known_quoted((#[trigger] group_outputs@[i])@),
        decreases group_outputs@.len() - outputs@.len(),
    {
        outputs.push(quoted(group_outputs[outputs.len()].as_str()));
    }
    assert(texts(outputs@) =~= debug_texts(group_outputs@));
    let request: MergeRequest = MergeRequest {
        output: quoted(output),
        audio,
        encoder,
        num_chunks,
        output_fps,
        limit,
    };
    plan_merge(&request, &outputs)
}

/// What is said where a run of mkvmerge failed, which wrote `stderr`.
pub open spec fn merge_failure(job: MergeJobView, stderr: Seq<char>) -> Seq<char> {
    if job.group is Some {
        "Failed to execute mkvmerge command for concatenation: "@ + stderr
    } else {
        "mkvmerge concatenation failed"@
    }
}

impl MergeJob {
    /// What is said where the run failed, which wrote `stderr`.
    pub fn failure(&self, stderr: &str) -> (message: String)
        ensures
            message@ == merge_failure(self@, stderr@),
            self.group is Some ==> message@ == "Failed to execute mkvmerge command for concatenation: "@
                + stderr@,
            self.group is None ==> message@ == "mkvmerge concatenation failed"@,
    {
        match self.group {
            Some(_) => {
                let mut message: String =
                    "Failed to execute mkvmerge command for concatenation: ".to_owned();
                message.append(stderr);
                message
            },
            None => "mkvmerge concatenation failed".to_owned(),
        }
    }
}

} // verus!
