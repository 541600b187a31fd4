//! The names of the files that chunks pass through.

use crate::decimal::push_padded_decimal;
use crate::encoder::Encoder;
use vstd::prelude::*;

verus! {

/// A number as it stands in file names.
pub open spec fn file_number(index: nat) -> Seq<char> {
    crate::decimal::padded_decimal(index, 5)
}

/// The name of the file with the encode of chunk `index`.
pub open spec fn chunk_name(index: nat, encoder: Encoder) -> Seq<char> {
    file_number(index) + "."@ + encoder.spec_extension()
}

/// The name of the file with the probe of chunk `index` at a quality, which is given in words.
pub open spec fn probe_name(index: nat, quality: Seq<char>, encoder: Encoder) -> Seq<char> {
    "v_"@ + file_number(index) + "_"@ + quality + "."@ + encoder.spec_extension()
}

/// The name of the file with the options for the merge of group `group`.
pub open spec fn group_options_name(group: nat) -> Seq<char> {
    "group_options_"@ + file_number(group) + ".json"@
}

/// The name of the file into which group `group` is merged.
pub open spec fn group_output_name(group: nat) -> Seq<char> {
    "group_output_"@ + file_number(group) + ".mkv"@
}

/// The name of the file with the encode of chunk `index`.
pub fn chunk_file_name(index: usize, encoder: Encoder) -> (name: String)
    ensures
        name@ == chunk_name(index as nat, encoder),
        name@ == crate::decimal::padded_decimal(index as nat, 5) + "."@ + encoder.spec_extension(),
{
    let mut name: String = String::new();
    push_padded_decimal(&mut name, index as u64, 5);
    assert(name@ =~= file_number(index as nat));
    name.append(".");
    name.append(encoder.extension());
    name
}

/// The name of the file with the probe of chunk `index` at a quality, which is given in words.
pub fn probe_file_name(index: usize, quality: &str, encoder: Encoder) -> (name: String)
    ensures
        name@ == probe_name(index as nat, quality@, encoder),
        name@ == "v_"@ + crate::decimal::padded_decimal(index as nat, 5) + "_"@ + quality@ + "."@
            + encoder.spec_extension(),
{
    let mut name: String = "v_".to_owned();
    push_padded_decimal(&mut name, index as u64, 5);
    name.append("_");
    name.append(quality);
    name.append(".");
    name.append(encoder.extension());
    name
}

/// The name of the file with the options for the merge of group `group`.
pub fn group_options_file_name(group: usize) -> (name: String)
    ensures
        name@ == group_options_name(group as nat),
        name@ == "group_options_"@ + crate::decimal::padded_decimal(group as nat, 5) + ".json"@,
{
    let mut name: String = "group_options_".to_owned();
    push_padded_decimal(&mut name, group as u64, 5);
    name.append(".json");
    name
}

/// The name of the file into which group `group` is merged.
pub fn group_output_file_name(group: usize) -> (name: String)
    ensures
        name@ == group_output_name(group as nat),
        name@ == "group_output_"@ + crate::decimal::padded_decimal(group as nat, 5) + ".mkv"@,
{
    let mut name: String = "group_output_".to_owned();
    push_padded_decimal(&mut name, group as u64, 5);
    name.append(".mkv");
    name
}

proof fn lemma_last_position_split(front: Seq<char>, c: char, back: Seq<char>)
    requires
        !back.contains(c),
    ensures
        crate::concat::files::last_position(front.push(c) + back, c) == front.len(),
{
    crate::concat::files::last_position_is_the_last(front, c, back);
}

/// The file of an encode is found by the number of its chunk, so sorting the files by their numbers
/// puts the chunks in order. The directory may be any whose path does not begin like that of a share.
pub proof fn chunk_file_is_found_by_its_number(directory: Seq<char>, index: u32, encoder: Encoder)
    requires
        !crate::concat::files::begins_like_a_share(directory.push('/')),
    ensures
        ({
            let path = directory.push('/') + chunk_name(index as nat, encoder);
            &&& crate::concat::files::is_plain_path(path)
            &&& crate::decimal::u32_number(
                crate::concat::files::stem_part(crate::concat::files::name_part(path)),
            ) == Some(index)
        }),
{
    let number = file_number(index as nat);
    let extension = encoder.spec_extension();
    let name = chunk_name(index as nat, encoder);
    let path = directory.push('/') + name;
    crate::decimal::padded_decimal_reads_back(index as nat, 5);
    assert(crate::decimal::number(number) == Some(index as nat));
    reveal_strlit(".");
    reveal_strlit("264");
    reveal_strlit("hevc");
    reveal_strlit("ivf");
    assert(number.len() > 0 && crate::decimal::is_digit(number[0])
        && crate::decimal::all_digits(number)) by {
        crate::decimal::lemma_padded_digits(index as nat, 5);
    }
    assert forall|i: int| 0 <= i < name.len() implies name[i] != '/' && name[i] != '\\'
        && name[i] != ':' by {
        if i < number.len() {
            assert(name[i] == number[i]);
            assert(crate::decimal::is_digit(number[i]));
        } else if i > number.len() {
            assert(name[i] == extension[i - number.len() - 1]);
        }
    }
    assert(name[0] == number[0]);
    lemma_last_position_split(directory, '/', name);
    assert(path.skip(directory.len() as int + 1) =~= name);
    assert(!crate::concat::files::begins_like_a_share(path)) by {
        let front = directory.push('/');
        assert(path[0] == front[0]);
        if directory.len() > 0 {
            assert(path[1] == front[1]);
        } else {
            assert(path[1] == name[0]);
        }
    }
    assert(name =~= number.push('.') + extension);
    assert(!extension.contains('.'));
    lemma_last_position_split(number, '.', extension);
    assert(name.take(number.len() as int) =~= number);
}

/// No two chunks share the file of an encode, and no two groups share a file, whatever their numbers
/// are. The names are those of the numbers in five digits or more.
pub proof fn file_names_differ(one: nat, other: nat, encoder: Encoder)
    requires
        one != other,
    ensures
        chunk_name(one, encoder) != chunk_name(other, encoder),
        group_options_name(one) != group_options_name(other),
        group_output_name(one) != group_output_name(other),
        chunk_name(one, encoder) == crate::decimal::padded_decimal(one, 5) + "."@
            + encoder.spec_extension(),
        group_options_name(one) == "group_options_"@ + crate::decimal::padded_decimal(one, 5)
            + ".json"@,
        group_output_name(one) == "group_output_"@ + crate::decimal::padded_decimal(one, 5) + ".mkv"@,
{
    crate::decimal_laws::same_text_means_same_number(one, other, 5);
    let left = file_number(one);
    let right = file_number(other);
    lemma_middle_differs(Seq::empty(), left, right, "."@ + encoder.spec_extension());
    lemma_middle_differs("group_options_"@, left, right, ".json"@);
    lemma_middle_differs("group_output_"@, left, right, ".mkv"@);
    assert(chunk_name(one, encoder) =~= Seq::empty() + left + ("."@ + encoder.spec_extension()));
    assert(chunk_name(other, encoder) =~= Seq::empty() + right + ("."@ + encoder.spec_extension()));
}

proof fn lemma_middle_differs(front: Seq<char>, one: Seq<char>, other: Seq<char>, back: Seq<char>)
    requires
        one != other,
    ensures
        front + one + back != front + other + back,
{
    let left = front + one + back;
    let right = front + other + back;
    if left == right {
        assert(left.len() == right.len());
        assert(left.subrange(front.len() as int, (front.len() + one.len()) as int) =~= one);
        assert(right.subrange(front.len() as int, (front.len() + other.len()) as int) =~= other);
    }
}

} // verus!
