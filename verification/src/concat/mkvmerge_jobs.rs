//! What each run of mkvmerge is told, read back from its options.

use crate::concat::merge_groups::{group_count, group_start, groups_fit};
use crate::concat::mkvmerge::{
    debug_text, debug_texts, fixed_path, group_outputs, in_quotes, input_list, is_quotable, job_views,
    optional_debug_text, options_text, texts, MergeDirectory, MergeJob, MergeRequest, MergeView,
    Rational64,
};
use crate::concat::mkvmerge_laws::{
    has_no_controls, merge_arguments, merged_names_need_no_escape, needs_no_escape,
    optional_in_quotes, options_read_back, read_array,
};
use crate::concat::names::{chunk_name, group_options_name, group_output_name};
use vstd::prelude::*;

verus! {

/// The order in which mkvmerge is told what to do: the output behind `-o`, the audio track where there
/// is one, the frame rate where it is set, and all inputs between brackets; and nothing else.
pub proof fn arguments_stand_in_order(
    inputs: Seq<Seq<char>>,
    output: Seq<char>,
    audio: Option<Seq<char>>,
    output_fps: Option<Rational64>,
)
    ensures
        ({
            let told = merge_arguments(inputs, output, audio, output_fps);
            let audio_at: int = 2;
            let rate_at: int = if audio is Some {
                3
            } else {
                2
            };
            let open_at: int = if output_fps is Some {
                rate_at + 2
            } else {
                rate_at
            };
            &&& told.len() == open_at + 1 + inputs.len() + 1
            &&& told[0] == "-o"@
            &&& told[1] == output
            &&& audio matches Some(track) ==> told[audio_at] == track
            &&& output_fps matches Some(fps) ==> told[rate_at] == "--default-duration"@ && told[rate_at
                + 1] == "0:"@ + crate::decimal::signed_decimal(fps.numer as int) + "/"@
                + crate::decimal::signed_decimal(fps.denom as int) + "fps"@
            &&& told[open_at] == "["@
            &&& forall|i: int| 0 <= i < inputs.len() ==> told[open_at + 1 + i] == #[trigger] inputs[i]
            &&& told[told.len() - 1] == "]"@
        }),
{
}

/// The last run merges everything into the output: all chunks in order where they fit into one run,
/// else all merged groups in order. The audio track goes with it where there is one, and the frame rate
/// that was asked for.
pub proof fn last_run_merges_everything(
    request: MergeView,
    outputs: Seq<Seq<char>>,
    output: Seq<char>,
    audio: Option<Seq<char>>,
)
    requires
        request.num_chunks > 0,
        request.limit > 0,
        request.output == in_quotes(output),
        request.audio == optional_in_quotes(audio),
        has_no_controls(output),
        audio matches Some(audio) ==> has_no_controls(audio),
    ensures
        request.jobs(outputs).len() > 0,
        request.num_chunks <= request.limit ==> read_array(request.jobs(outputs).last().options) == Some(
            merge_arguments(
                Seq::new(request.num_chunks, |i: int| chunk_name(i as nat, request.encoder)),
                output,
                audio,
                request.output_fps,
            ),
        ),
        request.num_chunks > request.limit ==> read_array(request.jobs(outputs).last().options) == Some(
            merge_arguments(
                Seq::new(
                    (request.jobs(outputs).len() - 1) as nat,
                    |group: int| group_output_name(group as nat),
                ),
                output,
                audio,
                request.output_fps,
            ),
        ),
{
    groups_fit(request.num_chunks, request.limit);
    let jobs = request.jobs(outputs);
    if request.num_chunks <= request.limit {
        let inputs = Seq::new(request.num_chunks, |i: int| chunk_name(i as nat, request.encoder));
        assert(group_start(0, request.limit) == 0) by (nonlinear_arith);
        assert(request.chunks(0) =~= inputs);
        assert forall|i: int| 0 <= i < inputs.len() implies needs_no_escape(#[trigger] inputs[i]) by {
            merged_names_need_no_escape(i as nat, request.encoder);
        }
        options_read_back(inputs, output, audio, request.output_fps);
    } else {
        let inputs = Seq::new(
            (jobs.len() - 1) as nat,
            |group: int| group_output_name(group as nat),
        );
        assert(group_outputs(request.groups()) =~= inputs);
        assert forall|i: int| 0 <= i < inputs.len() implies needs_no_escape(#[trigger] inputs[i]) by {
            merged_names_need_no_escape(i as nat, request.encoder);
        }
        options_read_back(inputs, output, audio, request.output_fps);
    }
}

/// Where the chunks do not fit into one run, each run but the last merges the next chunks, as many as
/// fit, into the file of its group, without audio and with the frame rate that was asked for. The runs
/// are just as many as the chunks need.
pub proof fn earlier_runs_merge_the_groups(
    request: MergeView,
    outputs: Seq<Seq<char>>,
    files: Seq<Seq<char>>,
    group: int,
)
    requires
        request.limit > 0,
        request.num_chunks > request.limit,
        outputs == Seq::new(files.len(), |i: int| in_quotes(files[i])),
        0 <= group < request.jobs(outputs).len() - 1,
        group < files.len(),
        has_no_controls(files[group]),
    ensures
        ({
            let jobs = request.jobs(outputs);
            let left = request.num_chunks - group * request.limit;
            &&& (jobs.len() - 2) * request.limit < request.num_chunks <= (jobs.len() - 1)
                * request.limit
            &&& left > 0
            &&& read_array(jobs[group].options) == Some(
                merge_arguments(
                    Seq::new(
                        if left < request.limit {
                            left as nat
                        } else {
                            request.limit
                        },
                        |i: int| chunk_name((group * request.limit + i) as nat, request.encoder),
                    ),
                    files[group],
                    None,
                    request.output_fps,
                ),
            )
        }),
{
    groups_fit(request.num_chunks, request.limit);
    let jobs = request.jobs(outputs);
    let size = request.limit as int;
    let sum = request.num_chunks + request.limit - 1;
    let count = group_count(request.num_chunks, request.limit) as int;
    vstd::arithmetic::div_mod::lemma_fundamental_div_mod(sum, size);
    assert(size * count == sum / size * size) by (nonlinear_arith)
        requires
            count == sum / size,
    ;
    assert((count - 1) * size == size * count - size) by (nonlinear_arith);
    assert(jobs.len() - 1 == count);
    let left = request.num_chunks - group * request.limit;
    assert(group * size + size <= size * count) by (nonlinear_arith)
        requires
            group + 1 <= count,
            size > 0,
    ;
    let inputs = Seq::new(
        if left < request.limit {
            left as nat
        } else {
            request.limit
        },
        |i: int| chunk_name((group * request.limit + i) as nat, request.encoder),
    );
    assert(request.chunks(group as nat) =~= inputs);
    assert forall|i: int| 0 <= i < inputs.len() implies needs_no_escape(#[trigger] inputs[i]) by {
        merged_names_need_no_escape((group * request.limit + i) as nat, request.encoder);
    }
    options_read_back(inputs, files[group], None, request.output_fps);
    assert(jobs[group] == request.group_job(group, outputs[group]));
    assert(optional_in_quotes(None) is None);
}

/// Each run is told where its options are, from the directory in which it is run. A run that merges
/// chunks is run among the chunks; one that merges groups, in the directory around them, where the
/// merged groups are. Only the last run is for the whole, and no two runs share a file of options.
pub proof fn runs_find_their_options(request: MergeView, outputs: Seq<Seq<char>>, at: int)
    requires
        request.num_chunks > 0,
        request.limit > 0,
        0 <= at < request.jobs(outputs).len(),
        request.jobs(outputs).len() <= usize::MAX,
    ensures
        ({
            let jobs = request.jobs(outputs);
            let job = jobs[at];
            &&& job.argument == match job.directory {
                MergeDirectory::Encode => "@../"@ + job.options_file,
                MergeDirectory::Temp => "@./"@ + job.options_file,
            }
            &&& job.directory == MergeDirectory::Temp <==> jobs.len() > 1 && at == jobs.len() - 1
            &&& jobs.len() == 1 <==> request.num_chunks <= request.limit
            &&& if at == jobs.len() - 1 {
                job.group is None && job.options_file == "options.json"@
            } else {
                job.group == Some(at as usize) && job.options_file == group_options_name(at as nat)
            }
        }),
{
    groups_fit(request.num_chunks, request.limit);
    lemma_options_literals();
}

proof fn lemma_options_literals()
    ensures
        "@../options.json"@ == "@../"@ + "options.json"@,
        "@./options.json"@ == "@./"@ + "options.json"@,
{
    reveal_strlit("@../options.json");
    reveal_strlit("@./options.json");
    reveal_strlit("@../");
    reveal_strlit("@./");
    reveal_strlit("options.json");
    assert("@../options.json"@ =~= "@../"@ + "options.json"@);
    assert("@./options.json"@ =~= "@./"@ + "options.json"@);
}

/// On Windows a verbatim path loses its prefix, and a verbatim network path becomes a plain one;
/// every other path, and every path elsewhere, stays as it is.
pub proof fn only_verbatim_paths_change(path: Seq<char>, rest: Seq<char>)
    ensures
        fixed_path(path, false) == path,
        (path.len() < 4 || path[0] != '\\' || path[1] != '\\' || path[2] != '?' || path[3] != '\\')
            ==> fixed_path(path, true) == path,
        (rest.len() < 3 || rest[0] != 'U' || rest[1] != 'N' || rest[2] != 'C') ==> fixed_path(
            seq!['\\', '\\', '?', '\\'] + rest,
            true,
        ) == rest,
        fixed_path(seq!['\\', '\\', '?', '\\', 'U', 'N', 'C'] + rest, true) == seq!['\\'] + rest,
{
    let verbatim = seq!['\\', '\\', '?', '\\'];
    let network = seq!['U', 'N', 'C'];
    if path.len() >= 4 && path.take(4) == verbatim {
        assert(path[0] == path.take(4)[0] && path[1] == path.take(4)[1] && path[2] == path.take(4)[2]
            && path[3] == path.take(4)[3]);
    }
    let plain = verbatim + rest;
    assert(plain.take(4) =~= verbatim);
    assert(plain.skip(4) =~= rest);
    if rest.len() >= 3 && rest.take(3) == network {
        assert(rest[0] == rest.take(3)[0] && rest[1] == rest.take(3)[1] && rest[2] == rest.take(3)[2]);
    }
    let shared = seq!['\\', '\\', '?', '\\', 'U', 'N', 'C'] + rest;
    assert(shared.take(4) =~= verbatim);
    assert(shared.skip(4).take(3) =~= network);
    assert(shared.skip(7) =~= rest);
}

/// How the options are put together, whatever the paths are: the output behind `-o`, the audio track
/// where there is one, the frame rate where it is set, and each input between quotes, in order.
pub proof fn options_are_put_together(
    front: Seq<Seq<char>>,
    input: Seq<char>,
    back: Seq<Seq<char>>,
    output: Seq<char>,
    audio: Seq<char>,
    fps: Rational64,
)
    ensures
        ({
            let inputs = front + back;
            let rate = ", \"--default-duration\", \"0:"@ + crate::decimal::signed_decimal(
                fps.numer as int,
            ) + "/"@ + crate::decimal::signed_decimal(fps.denom as int) + "fps\", \"[\""@;
            let close = ",\"]\"]"@;
            &&& input_list(inputs) == input_list(front) + input_list(back)
            &&& options_text(inputs, output, None, None) == "[\"-o\", "@ + output + ", \"[\""@
                + input_list(inputs) + close
            &&& options_text(inputs, output, Some(audio), None) == "[\"-o\", "@ + output + ", "@ + audio
                + ", \"[\""@ + input_list(inputs) + close
            &&& options_text(inputs, output, None, Some(fps)) == "[\"-o\", "@ + output + rate
                + input_list(inputs) + close
            &&& options_text(inputs, output, Some(audio), Some(fps)) == "[\"-o\", "@ + output + ", "@
                + audio + rate + input_list(inputs) + close
        }),
        input_list(Seq::empty()).len() == 0,
        input_list(seq![input]) == ", \""@ + input + "\""@,
    decreases back.len(),
{
    let one = seq![input];
    assert(one.drop_last() =~= Seq::empty());
    assert(input_list(one.drop_last()) =~= Seq::empty());
    assert(input_list(one) =~= ", \""@ + input + "\""@);
    if back.len() == 0 {
        assert(front + back =~= front);
        assert(input_list(front) + input_list(back) =~= input_list(front));
    } else {
        options_are_put_together(front, input, back.drop_last(), output, audio, fps);
        assert((front + back).drop_last() =~= front + back.drop_last());
        assert(input_list(front + back) =~= input_list(front) + input_list(back));
    }
    let begun = "[\"-o\", "@ + output;
    assert(begun + Seq::<char>::empty() =~= begun);
    assert(begun + (", "@ + audio) =~= begun + ", "@ + audio);
}

/// Every run is told what was asked for, whatever the paths are: the last one all chunks or all merged
/// groups, with the output, the audio track and the frame rate of the request, and each earlier one its
/// chunks, with the file of its group and the frame rate of the request.
pub proof fn runs_are_told_what_was_asked_for(
    request: MergeView,
    outputs: Seq<Seq<char>>,
    group: int,
)
    requires
        request.num_chunks > 0,
        request.limit > 0,
    ensures
        ({
            let jobs = request.jobs(outputs);
            let left = request.num_chunks - group * request.limit;
            &&& jobs.len() > 0
            &&& jobs[jobs.len() - 1].options == options_text(
                if request.num_chunks <= request.limit {
                    Seq::new(request.num_chunks, |i: int| chunk_name(i as nat, request.encoder))
                } else {
                    Seq::new((jobs.len() - 1) as nat, |i: int| group_output_name(i as nat))
                },
                request.output,
                request.audio,
                request.output_fps,
            )
            &&& 0 <= group < jobs.len() - 1 ==> jobs[group].options == options_text(
                Seq::new(
                    if left < request.limit {
                        left as nat
                    } else {
                        request.limit
                    },
                    |i: int| chunk_name((group * request.limit + i) as nat, request.encoder),
                ),
                outputs[group],
                None,
                request.output_fps,
            )
        }),
{
    groups_fit(request.num_chunks, request.limit);
    let jobs = request.jobs(outputs);
    if request.num_chunks <= request.limit {
        assert(group_start(0, request.limit) == 0) by (nonlinear_arith);
        assert(request.chunks(0) =~= Seq::new(
            request.num_chunks,
            |i: int| chunk_name(i as nat, request.encoder),
        ));
    } else {
        assert(group_outputs(request.groups()) =~= Seq::new(
            (jobs.len() - 1) as nat,
            |i: int| group_output_name(i as nat),
        ));
        if 0 <= group < jobs.len() - 1 {
            let left = request.num_chunks - group * request.limit;
            assert(jobs[group] == request.group_job(group, outputs[group]));
            assert(request.chunks(group as nat) =~= Seq::new(
                if left < request.limit {
                    left as nat
                } else {
                    request.limit
                },
                |i: int| chunk_name((group * request.limit + i) as nat, request.encoder),
            ));
        }
    }
}

/// The views of requests, runs and lists of texts show all that is in them, in order.
pub proof fn merge_views_show_everything(
    request: MergeRequest,
    jobs: Seq<MergeJob>,
    list: Seq<String>,
    audio: Option<&str>,
    at: int,
)
    ensures
        request@.output == request.output@,
        request.audio is None <==> request@.audio is None,
        request.audio matches Some(audio) ==> request@.audio == Some(audio@),
        request@.encoder == request.encoder,
        request@.num_chunks == request.num_chunks,
        request@.output_fps == request.output_fps,
        request@.limit == request.limit,
        texts(list).len() == list.len(),
        debug_texts(list).len() == list.len(),
        0 <= at < list.len() ==> texts(list)[at] == list[at]@ && debug_texts(list)[at] == debug_text(
            list[at]@,
        ),
        audio is None <==> optional_debug_text(audio) is None,
        audio matches Some(audio) ==> optional_debug_text(Some(audio)) == Some(debug_text(audio@)),
        job_views(jobs).len() == jobs.len(),
        0 <= at < jobs.len() ==> {
            let shown = job_views(jobs)[at];
            &&& shown.group == jobs[at].group
            &&& shown.options_file == jobs[at].options_file@
            &&& shown.options == jobs[at].options@
            &&& shown.directory == jobs[at].directory
            &&& shown.argument == jobs[at].argument@
        },
{
}

/// Every text that takes up no more than a twentieth of what can be addressed can be quoted.
pub proof fn short_texts_can_be_quoted(text: Seq<char>)
    ensures
        20 * text.len() + 4 <= isize::MAX ==> is_quotable(text),
{
}

} // verus!
