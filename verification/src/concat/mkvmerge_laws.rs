//! What holds of everything that mkvmerge is told.

use crate::concat::mkvmerge::{
    group_outputs, in_quotes, input_list, needs_escape, options_text, quote_escaped, rate_option,
    MergeView, Rational64,
};
use vstd::prelude::*;

verus! {

/// What is read from `text`, which follows an opening quote: the text up to the closing quote, and
/// what stands behind that. A backslash may stand in front of a quote or a backslash; control
/// characters may not stand there.
pub open spec fn read_string(text: Seq<char>) -> Option<(Seq<char>, Seq<char>)>
    decreases text.len(),
{
    if text.len() == 0 || !(' ' <= text[0]) {
        None
    } else if text[0] == '"' {
        Some((Seq::empty(), text.skip(1)))
    } else if text[0] != '\\' {
        match read_string(text.skip(1)) {
            Some((content, rest)) => Some((seq![text[0]] + content, rest)),
            None => None,
        }
    } else if text.len() >= 2 && needs_escape(text[1]) {
        match read_string(text.skip(2)) {
            Some((content, rest)) => Some((seq![text[1]] + content, rest)),
            None => None,
        }
    } else {
        None
    }
}

/// The strings of a JSON array, of which `text` begins with one.
pub open spec fn read_items(text: Seq<char>) -> Option<Seq<Seq<char>>>
    decreases text.len(),
{
    if text.len() == 0 || text[0] != '"' {
        None
    } else {
        match read_string(text.skip(1)) {
            Some((item, rest)) => if rest.len() < text.len() {
                match read_more(rest) {
                    Some(items) => Some(seq![item] + items),
                    None => None,
                }
            } else {
                None
            },
            None => None,
        }
    }
}

/// The strings of a JSON array, of which `text` is what stands behind one: the closing bracket, or a
/// comma, perhaps a space, and further strings.
pub open spec fn read_more(text: Seq<char>) -> Option<Seq<Seq<char>>>
    decreases text.len(),
{
    if text == seq![']'] {
        Some(Seq::empty())
    } else if text.len() == 0 || text[0] != ',' {
        None
    } else if text.len() >= 2 && text[1] == ' ' {
        read_items(text.skip(2))
    } else {
        read_items(text.skip(1))
    }
}

/// The strings of the JSON array that `text` is.
pub open spec fn read_array(text: Seq<char>) -> Option<Seq<Seq<char>>> {
    if text.len() > 0 && text[0] == '[' {
        read_items(text.skip(1))
    } else {
        None
    }
}

/// What mkvmerge is told about the frame rate.
pub open spec fn rate_arguments(output_fps: Option<Rational64>) -> Seq<Seq<char>> {
    match output_fps {
        Some(fps) => seq![
            "--default-duration"@,
            "0:"@ + crate::decimal::signed_decimal(fps.numer as int) + "/"@
                + crate::decimal::signed_decimal(fps.denom as int) + "fps"@,
        ],
        None => Seq::empty(),
    }
}

/// What mkvmerge is told: the output, the audio track where there is one, the frame rate where it is
/// set, and the inputs between brackets.
pub open spec fn merge_arguments(
    inputs: Seq<Seq<char>>,
    output: Seq<char>,
    audio: Option<Seq<char>>,
    output_fps: Option<Rational64>,
) -> Seq<Seq<char>> {
    seq!["-o"@, output] + audio_arguments(audio) + rate_arguments(output_fps) + seq!["["@] + inputs + seq!["]"@]
}

/// Whether `text` holds no control characters.
pub open spec fn has_no_controls(text: Seq<char>) -> bool {
    forall|i: int| 0 <= i < text.len() ==> #[trigger] text[i] >= ' '
}

/// Whether `text` can stand between quotes as it is.
pub open spec fn needs_no_escape(text: Seq<char>) -> bool {
    forall|i: int| 0 <= i < text.len() ==> #[trigger] text[i] >= ' ' && !needs_escape(text[i])
}

proof fn lemma_read_string(text: Seq<char>, rest: Seq<char>)
    requires
        has_no_controls(text),
    ensures
        read_string(quote_escaped(text) + seq!['"'] + rest) == Some((text, rest)),
    decreases text.len(),
{
    let whole = quote_escaped(text) + seq!['"'] + rest;
    if text.len() == 0 {
        assert(whole.skip(1) =~= rest);
        assert(text =~= Seq::empty());
    } else {
        let tail = text.skip(1);
        let shorter = quote_escaped(tail) + seq!['"'] + rest;
        assert forall|i: int| 0 <= i < tail.len() implies #[trigger] tail[i] >= ' ' by {
            assert(tail[i] == text[i + 1]);
        }
        lemma_read_string(tail, rest);
        if needs_escape(text[0]) {
            assert(whole.skip(2) =~= shorter);
            assert(whole[0] == '\\' && whole[1] == text[0]);
        } else {
            assert(whole.skip(1) =~= shorter);
            assert(whole[0] == text[0]);
        }
        assert(seq![text[0]] + tail =~= text);
    }
}

proof fn lemma_plain_is_unescaped(text: Seq<char>)
    requires
        needs_no_escape(text),
    ensures
        quote_escaped(text) == text,
    decreases text.len(),
{
    if text.len() > 0 {
        let tail = text.skip(1);
        assert forall|i: int| 0 <= i < tail.len() implies #[trigger] tail[i] >= ' ' && !needs_escape(
            tail[i],
        ) by {
            assert(tail[i] == text[i + 1]);
        }
        assert(!needs_escape(text[0]));
        lemma_plain_is_unescaped(tail);
        assert(seq![text[0]] + tail =~= text);
    } else {
        assert(quote_escaped(text) =~= text);
    }
}

/// Whether `items` are read from `text`, which stands behind a string of the array.
#[verifier::opaque]
spec fn continues_with(text: Seq<char>, items: Seq<Seq<char>>) -> bool {
    read_more(text) == Some(items)
}

proof fn lemma_read_item(item: Seq<char>, rest: Seq<char>, items: Seq<Seq<char>>)
    requires
        has_no_controls(item),
        continues_with(rest, items),
    ensures
        read_items(in_quotes(item) + rest) == Some(seq![item] + items),
{
    reveal(continues_with);
    let text = in_quotes(item) + rest;
    lemma_read_string(item, rest);
    assert(text.skip(1) =~= quote_escaped(item) + seq!['"'] + rest);
    assert(text[0] == '"');
}

proof fn lemma_read_more(
    separator: Seq<char>,
    item: Seq<char>,
    rest: Seq<char>,
    items: Seq<Seq<char>>,
)
    requires
        separator == seq![',', ' '] || separator == seq![','],
        has_no_controls(item),
        continues_with(rest, items),
    ensures
        continues_with(separator + in_quotes(item) + rest, seq![item] + items),
{
    let text = separator + in_quotes(item) + rest;
    lemma_read_item(item, rest, items);
    reveal(continues_with);
    assert(text[0] == ',');
    assert(text != seq![']']);
    let quote = in_quotes(item)[0];
    assert(quote == '"');
    if separator == seq![',', ' '] {
        assert(text[1] == ' ');
        assert(text.skip(2) =~= in_quotes(item) + rest);
    } else {
        assert(text[1] == quote);
        assert(text.skip(1) =~= in_quotes(item) + rest);
    }
}

proof fn lemma_input_text(front: Seq<char>, last: Seq<char>, rest: Seq<char>)
    requires
        needs_no_escape(last),
    ensures
        front + ", \""@ + last + "\""@ + rest == front + (seq![',', ' '] + in_quotes(last) + rest),
{
    reveal_strlit(", \"");
    reveal_strlit("\"");
    lemma_plain_is_unescaped(last);
    assert(front + ", \""@ + last + "\""@ + rest =~= front + (seq![',', ' '] + (seq!['"'] + last
        + seq!['"']) + rest));
}

proof fn lemma_read_inputs(inputs: Seq<Seq<char>>, rest: Seq<char>, items: Seq<Seq<char>>)
    requires
        forall|i: int| 0 <= i < inputs.len() ==> needs_no_escape(#[trigger] inputs[i]),
        continues_with(rest, items),
    ensures
        continues_with(input_list(inputs) + rest, inputs + items),
    decreases inputs.len(),
{
    if inputs.len() == 0 {
        assert(input_list(inputs) + rest =~= rest);
        assert(inputs + items =~= items);
    } else {
        let front = inputs.drop_last();
        let last = inputs.last();
        assert(needs_no_escape(inputs[inputs.len() - 1]));
        assert forall|i: int| 0 <= i < front.len() implies needs_no_escape(#[trigger] front[i]) by {
            assert(front[i] == inputs[i]);
        }
        lemma_read_more(seq![',', ' '], last, rest, items);
        lemma_read_inputs(front, seq![',', ' '] + in_quotes(last) + rest, seq![last] + items);
        lemma_input_text(input_list(front), last, rest);
        assert(front + (seq![last] + items) =~= inputs + items);
    }
}

proof fn lemma_number_needs_no_escape(n: int)
    ensures
        needs_no_escape(crate::decimal::signed_decimal(n)),
{
    let digits = crate::decimal::decimal(if n < 0 {
        (-n) as nat
    } else {
        n as nat
    });
    crate::decimal::lemma_decimal_digits(if n < 0 {
        (-n) as nat
    } else {
        n as nat
    });
    let text = crate::decimal::signed_decimal(n);
    assert forall|i: int| 0 <= i < text.len() implies #[trigger] text[i] >= ' ' && !needs_escape(
        text[i],
    ) by {
        let at = if n < 0 {
            i - 1
        } else {
            i
        };
        if at >= 0 {
            assert(text[i] == digits[at]);
            assert(crate::decimal::is_digit(digits[at]));
        }
    }
}

proof fn lemma_bracket(rest: Seq<char>, items: Seq<Seq<char>>)
    requires
        continues_with(rest, items),
    ensures
        continues_with(", \"[\""@ + rest, seq!["["@] + items),
{
    reveal_strlit("[");
    reveal_strlit(", \"[\"");
    lemma_plain_is_unescaped("["@);
    assert(", \"[\""@ =~= seq![',', ' '] + in_quotes("["@));
    lemma_read_more(seq![',', ' '], "["@, rest, items);
}

proof fn lemma_rate_literals()
    ensures
        ", \"--default-duration\", \"0:"@ == seq![',', ' '] + in_quotes("--default-duration"@) + seq![
            ',',
            ' ',
            '"',
        ] + "0:"@,
        "fps\", \"[\""@ == "fps"@ + seq!['"'] + ", \"[\""@,
        has_no_controls("--default-duration"@),
        needs_no_escape("0:"@),
        needs_no_escape("/"@),
        needs_no_escape("fps"@),
{
    reveal_strlit("--default-duration");
    reveal_strlit("0:");
    reveal_strlit("/");
    reveal_strlit("fps");
    reveal_strlit(", \"[\"");
    reveal_strlit(", \"--default-duration\", \"0:");
    reveal_strlit("fps\", \"[\"");
    lemma_plain_is_unescaped("--default-duration"@);
    assert(", \"--default-duration\", \"0:"@ =~= seq![',', ' '] + in_quotes("--default-duration"@)
        + seq![',', ' ', '"'] + "0:"@);
    assert("fps\", \"[\""@ =~= "fps"@ + seq!['"'] + ", \"[\""@);
}

proof fn lemma_plain_parts(front: Seq<char>, back: Seq<char>)
    requires
        needs_no_escape(front),
        needs_no_escape(back),
    ensures
        needs_no_escape(front + back),
{
    let text = front + back;
    assert forall|i: int| 0 <= i < text.len() implies #[trigger] text[i] >= ' ' && !needs_escape(
        text[i],
    ) by {
        if i < front.len() {
            assert(text[i] == front[i]);
        } else {
            assert(text[i] == back[i - front.len()]);
        }
    }
}

proof fn lemma_rate_is_plain(fps: Rational64)
    ensures
        needs_no_escape(
            "0:"@ + crate::decimal::signed_decimal(fps.numer as int) + "/"@
                + crate::decimal::signed_decimal(fps.denom as int) + "fps"@,
        ),
{
    let numer = crate::decimal::signed_decimal(fps.numer as int);
    let denom = crate::decimal::signed_decimal(fps.denom as int);
    lemma_rate_literals();
    lemma_number_needs_no_escape(fps.numer as int);
    lemma_number_needs_no_escape(fps.denom as int);
    lemma_plain_parts("0:"@, numer);
    lemma_plain_parts("0:"@ + numer, "/"@);
    lemma_plain_parts("0:"@ + numer + "/"@, denom);
    lemma_plain_parts("0:"@ + numer + "/"@ + denom, "fps"@);
}

proof fn lemma_read_rate(
    output_fps: Option<Rational64>,
    rest: Seq<char>,
    items: Seq<Seq<char>>,
)
    requires
        continues_with(rest, items),
    ensures
        continues_with(
            rate_option(output_fps) + rest,
            rate_arguments(output_fps) + (seq!["["@] + items),
        ),
{
    let bracket = seq!["["@] + items;
    lemma_bracket(rest, items);
    match output_fps {
        Some(fps) => {
            let comma = seq![',', ' '];
            let numer = crate::decimal::signed_decimal(fps.numer as int);
            let denom = crate::decimal::signed_decimal(fps.denom as int);
            let rate = "0:"@ + numer + "/"@ + denom + "fps"@;
            let opened = ", \"[\""@ + rest;
            let rated = comma + in_quotes(rate) + opened;
            lemma_rate_literals();
            lemma_rate_is_plain(fps);
            lemma_read_more(comma, rate, opened, bracket);
            lemma_read_more(comma, "--default-duration"@, rated, seq![rate] + bracket);
            lemma_rate_text(numer, denom, rest);
            assert(seq!["--default-duration"@] + (seq![rate] + bracket) =~= rate_arguments(
                output_fps,
            ) + bracket);
        },
        None => {
            assert(rate_arguments(output_fps) + bracket =~= bracket);
        },
    }
}

proof fn lemma_rate_text(numer: Seq<char>, denom: Seq<char>, rest: Seq<char>)
    requires
        needs_no_escape("0:"@ + numer + "/"@ + denom + "fps"@),
    ensures
        ", \"--default-duration\", \"0:"@ + numer + "/"@ + denom + "fps\", \"[\""@ + rest == seq![
            ',',
            ' ',
        ] + in_quotes("--default-duration"@) + (seq![',', ' '] + in_quotes(
            "0:"@ + numer + "/"@ + denom + "fps"@,
        ) + (", \"[\""@ + rest)),
{
    let rate = "0:"@ + numer + "/"@ + denom + "fps"@;
    let name = in_quotes("--default-duration"@);
    let open = ", \"[\""@;
    lemma_rate_literals();
    lemma_plain_is_unescaped(rate);
    assert(in_quotes(rate) == seq!['"'] + rate + seq!['"']);
    let left = seq![',', ' '] + name + seq![',', ' ', '"'] + "0:"@ + numer + "/"@ + denom + ("fps"@
        + seq!['"'] + open) + rest;
    let right = seq![',', ' '] + name + (seq![',', ' '] + (seq!['"'] + rate + seq!['"']) + (open
        + rest));
    assert(left =~= right);
}

/// The quoted form of `text`, where there is one.
pub open spec fn optional_in_quotes(text: Option<Seq<char>>) -> Option<Seq<char>> {
    match text {
        Some(text) => Some(in_quotes(text)),
        None => None,
    }
}

/// What mkvmerge is told about the audio track.
pub open spec fn audio_arguments(audio: Option<Seq<char>>) -> Seq<Seq<char>> {
    match audio {
        Some(audio) => seq![audio],
        None => Seq::empty(),
    }
}

/// The part of the options that names the audio track.
spec fn audio_option(audio: Option<Seq<char>>) -> Seq<char> {
    match audio {
        Some(audio) => seq![',', ' '] + audio,
        None => Seq::empty(),
    }
}

proof fn lemma_frame_literals()
    ensures
        "[\"-o\", "@ == seq!['['] + in_quotes("-o"@) + seq![',', ' '],
        ", "@ == seq![',', ' '],
        has_no_controls("-o"@),
        continues_with(",\"]\"]"@, seq!["]"@]),
{
    reveal_strlit("[\"-o\", ");
    reveal_strlit("-o");
    reveal_strlit(", ");
    reveal_strlit("]");
    reveal_strlit(",\"]\"]");
    lemma_plain_is_unescaped("-o"@);
    lemma_plain_is_unescaped("]"@);
    assert("[\"-o\", "@ =~= seq!['['] + in_quotes("-o"@) + seq![',', ' ']);
    assert(", "@ =~= seq![',', ' ']);
    assert(continues_with(seq![']'], Seq::empty())) by {
        reveal(continues_with);
    }
    lemma_read_more(seq![','], "]"@, seq![']'], Seq::empty());
    assert(seq![','] + in_quotes("]"@) + seq![']'] =~= ",\"]\"]"@);
    assert(seq!["]"@] + Seq::<Seq<char>>::empty() =~= seq!["]"@]);
}

/// What stands behind the output in the options.
proof fn lemma_read_behind_output(
    inputs: Seq<Seq<char>>,
    audio: Option<Seq<char>>,
    output_fps: Option<Rational64>,
)
    requires
        forall|i: int| 0 <= i < inputs.len() ==> needs_no_escape(#[trigger] inputs[i]),
        audio matches Some(audio) ==> has_no_controls(audio),
    ensures
        continues_with(
            audio_option(optional_in_quotes(audio)) + (rate_option(output_fps) + (input_list(inputs)
                + ",\"]\"]"@)),
            audio_arguments(audio) + (rate_arguments(output_fps) + (seq!["["@] + (inputs + seq![
                "]"@,
            ]))),
        ),
{
    let listed = input_list(inputs) + ",\"]\"]"@;
    let rated = rate_option(output_fps) + listed;
    let items = rate_arguments(output_fps) + (seq!["["@] + (inputs + seq!["]"@]));
    lemma_frame_literals();
    lemma_read_inputs(inputs, ",\"]\"]"@, seq!["]"@]);
    lemma_read_rate(output_fps, listed, inputs + seq!["]"@]);
    match audio {
        Some(audio) => lemma_read_more(seq![',', ' '], audio, rated, items),
        None => {
            assert(audio_option(None) + rated =~= rated);
            assert(audio_arguments(None) + items =~= items);
        },
    }
}

/// The options for a merge, taken apart: `option` is the quoted name of the first option, and
/// `output` and `audio` are quoted too.
proof fn lemma_options_text(
    inputs: Seq<Seq<char>>,
    option: Seq<char>,
    output: Seq<char>,
    audio: Option<Seq<char>>,
    output_fps: Option<Rational64>,
)
    requires
        "[\"-o\", "@ == seq!['['] + option + seq![',', ' '],
        ", "@ == seq![',', ' '],
    ensures
        options_text(inputs, output, audio, output_fps) == seq!['['] + (option + (seq![',', ' ']
            + output + (audio_option(audio) + (rate_option(output_fps) + (input_list(inputs)
            + ",\"]\"]"@))))),
{
    let text = options_text(inputs, output, audio, output_fps);
    let rate = rate_option(output_fps);
    let list = input_list(inputs);
    let close = ",\"]\"]"@;
    let comma = seq![',', ' '];
    let tail = audio_option(audio);
    assert(text =~= seq!['['] + option + comma + output + tail + rate + list + close);
    assert(seq!['['] + option + comma + output + tail + rate + list + close =~= seq!['['] + (option
        + (comma + output + (tail + (rate + (list + close))))));
}

/// The options for a merge are a JSON array, from which mkvmerge reads what it is told: every path as
/// it is, and the inputs in order. Control characters may stand in no string of such an array. Names of
/// inputs are written as they are, so they may hold no quote and no backslash either.
#[verifier::spinoff_prover]
pub proof fn options_read_back(
    inputs: Seq<Seq<char>>,
    output: Seq<char>,
    audio: Option<Seq<char>>,
    output_fps: Option<Rational64>,
)
    requires
        forall|i: int| 0 <= i < inputs.len() ==> needs_no_escape(#[trigger] inputs[i]),
        has_no_controls(output),
        audio matches Some(audio) ==> has_no_controls(audio),
    ensures
        read_array(
            options_text(inputs, in_quotes(output), optional_in_quotes(audio), output_fps),
        ) == Some(merge_arguments(inputs, output, audio, output_fps)),
{
    let behind = audio_option(optional_in_quotes(audio)) + (rate_option(output_fps) + (input_list(
        inputs,
    ) + ",\"]\"]"@));
    let items = audio_arguments(audio) + (rate_arguments(output_fps) + (seq!["["@] + (inputs + seq![
        "]"@,
    ])));
    let with_output = seq![',', ' '] + in_quotes(output) + behind;
    lemma_frame_literals();
    lemma_read_behind_output(inputs, audio, output_fps);
    lemma_read_more(seq![',', ' '], output, behind, items);
    lemma_read_item("-o"@, with_output, seq![output] + items);
    lemma_options_text(
        inputs,
        in_quotes("-o"@),
        in_quotes(output),
        optional_in_quotes(audio),
        output_fps,
    );
    lemma_opening_bracket(in_quotes("-o"@) + with_output);
    lemma_arguments(inputs, output, audio, output_fps);
}

proof fn lemma_opening_bracket(text: Seq<char>)
    ensures
        read_array(seq!['['] + text) == read_items(text),
{
    assert((seq!['['] + text).skip(1) =~= text);
}

proof fn lemma_arguments(
    inputs: Seq<Seq<char>>,
    output: Seq<char>,
    audio: Option<Seq<char>>,
    output_fps: Option<Rational64>,
)
    ensures
        seq!["-o"@] + (seq![output] + (audio_arguments(audio) + (rate_arguments(output_fps) + (seq![
            "["@,
        ] + (inputs + seq!["]"@]))))) == merge_arguments(inputs, output, audio, output_fps),
{
    let told = audio_arguments(audio);
    let rate = rate_arguments(output_fps);
    assert(seq!["-o"@] + (seq![output] + (told + (rate + (seq!["["@] + (inputs + seq!["]"@])))))
        =~= seq!["-o"@, output] + told + rate + seq!["["@] + inputs + seq!["]"@]);
}

/// The names of encodes and of merged groups may be written as they are.
pub proof fn merged_names_need_no_escape(index: nat, encoder: crate::encoder::Encoder)
    ensures
        needs_no_escape(crate::concat::names::chunk_name(index, encoder)),
        needs_no_escape(crate::concat::names::group_output_name(index)),
{
    let number = crate::concat::names::file_number(index);
    crate::decimal::lemma_padded_digits(index, 5);
    assert(needs_no_escape(number)) by {
        assert forall|i: int| 0 <= i < number.len() implies #[trigger] number[i] >= ' '
            && !needs_escape(number[i]) by {
            assert(crate::decimal::is_digit(number[i]));
        }
    }
    reveal_strlit(".");
    reveal_strlit("264");
    reveal_strlit("hevc");
    reveal_strlit("ivf");
    reveal_strlit("group_output_");
    reveal_strlit(".mkv");
    lemma_plain_parts(number, "."@);
    lemma_plain_parts(number + "."@, encoder.spec_extension());
    lemma_plain_parts("group_output_"@, number);
    lemma_plain_parts("group_output_"@ + number, ".mkv"@);
}

/// The whole is merged once, and last. Audio goes into that run and into no other.
pub proof fn audio_is_merged_once(request: MergeView, outputs: Seq<Seq<char>>)
    requires
        request.num_chunks > 0,
        request.limit > 0,
    ensures
        ({
            let jobs = request.jobs(outputs);
            &&& jobs.len() >= 1
            &&& jobs.last().group is None
            &&& exists|inputs: Seq<Seq<char>>|
                jobs.last().options == #[trigger] request.whole_options(inputs)
            &&& forall|i: int|
                0 <= i < jobs.len() - 1 ==> (#[trigger] jobs[i]).group is Some && jobs[i].options
                    == options_text(
                    request.chunks(i as nat),
                    outputs[i],
                    None,
                    request.output_fps,
                )
        }),
{
    crate::concat::merge_groups::groups_fit(request.num_chunks, request.limit);
    let jobs = request.jobs(outputs);
    if request.groups() == 1 {
        assert(jobs.last().options == request.whole_options(request.chunks(0)));
    } else {
        assert(jobs.last().options == request.whole_options(group_outputs(request.groups())));
    }
}

} // verus!
