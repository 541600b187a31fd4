//! The files that hold the chunks, and the order in which they are joined.

use crate::decimal::parse_u32;
use vstd::prelude::*;

verus! {

/// A file with an encoded chunk.
#[derive(Debug)]
pub struct ChunkFile {
    pub path: String,
    /// The file name without its extension, where the path has a file name.
    pub stem: Option<String>,
    /// Where the file stands in the listing of its directory.
    pub position: usize,
}

/// Where `c` stands last in `text`, or -1 where it does not.
pub open spec fn last_position(text: Seq<char>, c: char) -> int
    decreases text.len(),
{
    if text.len() == 0 {
        -1
    } else if text.last() == c {
        text.len() - 1
    } else {
        last_position(text.drop_last(), c)
    }
}

/// The part of a path behind its last slash.
pub open spec fn name_part(path: Seq<char>) -> Seq<char> {
    path.skip(last_position(path, '/') + 1)
}

/// Whether `path` begins as the paths of network shares and devices do on Windows: with two slashes
/// of either direction.
pub open spec fn begins_like_a_share(path: Seq<char>) -> bool {
    &&& path.len() >= 2
    &&& path[0] == '/' || path[0] == '\\'
    &&& path[1] == '/' || path[1] == '\\'
}

/// Whether what stands behind the last slash of `path` is the name of a file on every platform.
/// On Windows a backslash separates too, a colon may belong to a drive, and the whole of a path that
/// begins like a share may be the name of that share.
pub open spec fn is_plain_path(path: Seq<char>) -> bool {
    &&& !begins_like_a_share(path)
    &&& !name_part(path).contains('\\')
    &&& !name_part(path).contains(':')
    &&& name_part(path).len() > 0
    &&& name_part(path) != seq!['.']
    &&& name_part(path) != seq!['.', '.']
}

/// The part of a path behind its last slash of either direction.
pub open spec fn last_part(path: Seq<char>) -> Seq<char> {
    let slash = last_position(path, '/');
    let backslash = last_position(path, '\\');
    path.skip(
        1 + if slash > backslash {
            slash
        } else {
            backslash
        },
    )
}

/// Whether what stands behind the last slash of either direction can be the name of a file.
pub open spec fn ends_with_a_name(path: Seq<char>) -> bool {
    &&& !last_part(path).contains(':')
    &&& last_part(path).len() > 0
    &&& last_part(path) != seq!['.']
    &&& last_part(path) != seq!['.', '.']
}

/// Whether `stem` is that of `path` on some platform. Names are separated by slashes, or by slashes of
/// either direction or, in some paths that begin like a share, by backslashes alone. Only a path that
/// begins like a share may have no file name.
pub open spec fn is_possible_stem(path: Seq<char>, stem: Option<Seq<char>>) -> bool {
    match stem {
        Some(stem) => {
            ||| stem == stem_part(name_part(path))
            ||| stem == stem_part(last_part(path))
            ||| begins_like_a_share(path) && stem == stem_part(
                path.skip(last_position(path, '\\') + 1),
            )
        },
        None => begins_like_a_share(path),
    }
}

/// The text in `stem`, where there is one.
pub open spec fn stem_text(stem: Option<String>) -> Option<Seq<char>> {
    match stem {
        Some(stem) => Some(stem@),
        None => None,
    }
}

/// A file name without its extension: what stands in front of its last dot, unless that dot is the
/// first character.
pub open spec fn stem_part(name: Seq<char>) -> Seq<char> {
    if last_position(name, '.') > 0 {
        name.take(last_position(name, '.'))
    } else {
        name
    }
}

/// `std::path::Path::file_stem` gives the final component of a path without its extension. What the
/// final component is depends on the platform. The result is stated for paths in which it is the same
/// on all of them. Of other paths that end with a name it is stated which results there are; which of
/// them a platform gives is not said. Of the rest, where the part behind the last slash of either
/// direction holds a colon or is no file name, nothing is said.
#[verifier::external_body]
fn path_file_stem(path: &str) -> (stem: Option<String>)
    ensures
        is_plain_path(path@) ==> stem is Some && stem->0@ == stem_part(name_part(path@)),
        ends_with_a_name(path@) ==> is_possible_stem(path@, stem_text(stem)),
{
    std::path::Path::new(path).file_stem().map(|stem| stem.to_string_lossy().into_owned())
}

/// What is joined in the order of its numbers.
pub trait Numbered {
    /// The number, where there is one.
    spec fn spec_number(&self) -> Option<u32>;

    /// The number, where there is one.
    fn number(&self) -> (number: Option<u32>)
        ensures
            number == self.spec_number(),
    ;
}

impl ChunkFile {
    /// The file at `path`, which stands at `position` in the listing of its directory.
    pub fn new(path: String, position: usize) -> (file: ChunkFile)
        ensures
            file.path == path,
            file.position == position,
            is_plain_path(path@) ==> file.stem is Some && file.stem->0@ == stem_part(
                name_part(path@),
            ),
            ends_with_a_name(path@) ==> is_possible_stem(path@, stem_text(file.stem)),
    {
        let stem: Option<String> = path_file_stem(path.as_str());
        ChunkFile { path, stem, position }
    }
}

impl Numbered for ChunkFile {
    /// The number that the name of the file stands for.
    open spec fn spec_number(&self) -> Option<u32> {
        match self.stem {
            Some(stem) => crate::decimal::u32_number(stem@),
            None => None,
        }
    }

    fn number(&self) -> (number: Option<u32>) {
        match &self.stem {
            Some(stem) => parse_u32(stem.as_str()),
            None => None,
        }
    }
}

/// Whether all files have a number.
pub open spec fn all_numbered<T: Numbered>(files: Seq<T>) -> bool {
    forall|i: int| 0 <= i < files.len() ==> (#[trigger] files[i]).spec_number() is Some
}

/// Whether the numbers of the files never decrease.
pub open spec fn in_order<T: Numbered>(files: Seq<T>) -> bool {
    forall|i: int, j: int|
        0 <= i < j < files.len() ==> (#[trigger] files[i]).spec_number()->0 <= (
        #[trigger] files[j]).spec_number()->0
}

/// Whether `numbers` are the numbers of the first files.
spec fn numbers_of<T: Numbered>(numbers: Seq<u32>, files: Seq<T>) -> bool {
    forall|i: int|
        0 <= i < numbers.len() ==> (#[trigger] files[i]).spec_number() == Some(
            #[trigger] numbers[i],
        )
}

/// Sorts files by the number in their names: `00000.ivf`, `00001.ivf` and so on. A single file
/// needs no number.
pub fn sort_files_by_filename(files: &mut Vec<ChunkFile>)
    requires
        old(files)@.len() > 1 ==> all_numbered(old(files)@),
    ensures
        final(files)@.to_multiset() == old(files)@.to_multiset(),
        final(files)@.len() > 1 ==> all_numbered(final(files)@),
        in_order(final(files)@),
        forall|i: int, j: int|
            0 <= i < j < final(files)@.len() ==> {
                let front = (#[trigger] final(files)@[i]).stem;
                let back = (#[trigger] final(files)@[j]).stem;
                &&& front is Some && back is Some
                &&& crate::decimal::number(front->0@) is Some
                &&& crate::decimal::number(back->0@) is Some
                &&& crate::decimal::number(front->0@)->0 <= crate::decimal::number(back->0@)->0
            },
{
    sort_by_number(files);
    assert forall|i: int| 0 <= i < files@.len() && files@.len() > 1 implies {
        let stem = (#[trigger] files@[i]).stem;
        &&& stem is Some
        &&& crate::decimal::number(stem->0@) is Some
        &&& files@[i].spec_number()->0 == crate::decimal::number(stem->0@)->0
    } by {
        assert(files@[i].spec_number() is Some);
    }
}

/// Sorts files by their numbers. A single file needs no number.
pub fn sort_by_number<T: Numbered>(files: &mut Vec<T>)
    requires
        old(files)@.len() > 1 ==> all_numbered(old(files)@),
    ensures
        final(files)@.to_multiset() == old(files)@.to_multiset(),
        final(files)@.len() > 1 ==> all_numbered(final(files)@),
        in_order(final(files)@),
        forall|i: int, j: int|
            0 <= i < j < final(files)@.len() ==> (#[trigger] final(files)@[i]).spec_number()->0 <= (
            #[trigger] final(files)@[j]).spec_number()->0,
{
    if files.len() <= 1 {
        return;
    }
    let len: usize = files.len();
    let mut numbers: Vec<u32> = Vec::new();
    while numbers.len() < len
        invariant
            len == files@.len(),
            numbers@.len() <= len,
            all_numbered(files@),
            numbers_of(numbers@, files@),
        decreases len - numbers@.len(),
    {
        let number: Option<u32> = files[numbers.len()].number();
        assert(number is Some);
        match number {
            Some(number) => numbers.push(number),
            None => {},
        }
    }
    let mut sorted: usize = 0;
    while sorted < len
        invariant
            len == files@.len() == numbers@.len(),
            sorted <= len,
            files@.to_multiset() == old(files)@.to_multiset(),
            all_numbered(files@),
            numbers_of(numbers@, files@),
            in_order(files@.take(sorted as int)),
        decreases len - sorted,
    {
        let ghost before = files@;
        let number: u32 = numbers[sorted];
        let mut at: usize = sorted;
        while at > 0 && numbers[at - 1] > number
            invariant
                at <= sorted < len,
                len == numbers@.len(),
                forall|i: int| at <= i < sorted ==> #[trigger] numbers@[i] > number,
            decreases at,
        {
            at = at - 1;
        }
        let ghost known = numbers@;
        numbers.remove(sorted);
        numbers.insert(at, number);
        let file: T = files.remove(sorted);
        files.insert(at, file);
        proof {
            let after = files@;
            let moved = before[sorted as int];
            before.to_multiset_ensures();
            after.to_multiset_ensures();
            assert(after.remove(at as int) =~= before.remove(sorted as int));
            assert(before.contains(moved));
            assert(after.contains(moved)) by {
                assert(after[at as int] == moved);
            }
            assert(after.to_multiset() =~= before.to_multiset()) by {
                broadcast use vstd::multiset::group_multiset_axioms;

                assert(after.to_multiset() =~= after.remove(at as int).to_multiset().insert(moved));
                assert(before.to_multiset() =~= before.remove(sorted as int).to_multiset().insert(
                    moved,
                ));
            }
            assert forall|i: int| 0 <= i < after.len() implies (
            #[trigger] after[i]).spec_number() is Some by {
                assert(after[i] == before[if i < at {
                    i
                } else if i == at {
                    sorted as int
                } else if i <= sorted {
                    i - 1
                } else {
                    i
                }]);
            }
            assert(moved.spec_number() == Some(known[sorted as int]));
            let front = before.take(sorted as int);
            let next = after.take(sorted + 1);
            assert forall|i: int, j: int| 0 <= i < j < next.len() implies (
            #[trigger] next[i]).spec_number()->0 <= (#[trigger] next[j]).spec_number()->0 by {
                if j < at {
                    assert(next[i] == front[i] && next[j] == front[j]);
                } else if j == at {
                    assert(next[i] == front[i]);
                    assert(before[at - 1].spec_number() == Some(known[at - 1]));
                    if i < at - 1 {
                        assert(front[i].spec_number()->0 <= front[at - 1].spec_number()->0);
                    }
                } else if i < at {
                    assert(next[i] == front[i] && next[j] == front[j - 1]);
                } else if i == at {
                    assert(next[j] == before[j - 1]);
                    assert(before[j - 1].spec_number() == Some(known[j - 1]));
                } else {
                    assert(next[i] == front[i - 1] && next[j] == front[j - 1]);
                }
            }
        }
        sorted = sorted + 1;
    }
    assert(files@.take(len as int) =~= files@);
}

/// A character stands last where it stands and does not follow any more.
pub proof fn last_position_is_the_last(front: Seq<char>, c: char, back: Seq<char>)
    requires
        !back.contains(c),
    ensures
        last_position(front.push(c) + back, c) == front.len(),
        last_position(back, c) == -1,
    decreases back.len(),
{
    let text = front.push(c) + back;
    if back.len() == 0 {
        assert(text =~= front.push(c));
    } else {
        let rest = back.drop_last();
        assert(back[back.len() - 1] != c);
        assert(!rest.contains(c)) by {
            assert forall|i: int| 0 <= i < rest.len() implies rest[i] != c by {
                assert(back[i] == rest[i]);
                assert(back.contains(back[i]));
            }
        }
        assert(text.drop_last() =~= front.push(c) + rest);
        last_position_is_the_last(front, c, rest);
    }
}

/// The name of a file is what stands behind the last slash of its path, or the path where there is none.
pub proof fn name_stands_behind_the_directory(directory: Seq<char>, name: Seq<char>)
    requires
        !name.contains('/'),
    ensures
        name_part(directory.push('/') + name) == name,
        name_part(name) == name,
{
    last_position_is_the_last(directory, '/', name);
    assert((directory.push('/') + name).skip(directory.len() as int + 1) =~= name);
    assert(name.skip(0) =~= name);
}

/// A name loses what stands behind its last dot, and that dot. A name without a dot, or with just one in
/// front of all, stays as it is.
pub proof fn stem_stands_in_front_of_the_extension(stem: Seq<char>, extension: Seq<char>)
    requires
        !extension.contains('.'),
    ensures
        stem.len() > 0 ==> stem_part(stem.push('.') + extension) == stem,
        stem_part(extension) == extension,
        stem_part(seq!['.'] + extension) == seq!['.'] + extension,
{
    last_position_is_the_last(stem, '.', extension);
    last_position_is_the_last(Seq::empty(), '.', extension);
    assert((stem.push('.') + extension).take(stem.len() as int) =~= stem);
    assert(Seq::<char>::empty().push('.') =~= seq!['.']);
}

/// The number of a file is the one that its stem stands for, where that fits in 32 bits. Files have
/// numbers where each of them has one.
pub proof fn file_has_the_number_of_its_stem(files: Seq<ChunkFile>, at: int)
    requires
        0 <= at < files.len(),
    ensures
        match files[at].stem {
            Some(stem) => match files[at].spec_number() {
                Some(value) => crate::decimal::number(stem@) == Some(value as nat),
                None => crate::decimal::number(stem@) matches Some(value) ==> value > 0xFFFF_FFFF,
            },
            None => files[at].spec_number() is None,
        },
        all_numbered(files) <==> forall|i: int|
            0 <= i < files.len() ==> (#[trigger] files[i]).spec_number() is Some,
{
}

/// A path whose last part is a file name, behind a slash and without other separators, is one in which
/// every platform finds that name.
pub proof fn ordinary_path_is_plain(directory: Seq<char>, name: Seq<char>)
    requires
        !(directory.len() >= 1 && (directory[0] == '/' || directory[0] == '\\') && (directory.len() == 1
            || directory[1] == '/' || directory[1] == '\\')),
        !name.contains('/'),
        !name.contains('\\'),
        !name.contains(':'),
        name.len() > 0,
        name != seq!['.'],
        name != seq!['.', '.'],
    ensures
        is_plain_path(directory.push('/') + name),
{
    name_stands_behind_the_directory(directory, name);
    let path = directory.push('/') + name;
    if directory.len() == 0 {
        assert(path[1] == name[0]);
        assert(name.contains(name[0]));
    } else {
        assert(path[0] == directory[0]);
        if directory.len() > 1 {
            assert(path[1] == directory[1]);
        }
    }
}

} // verus!
