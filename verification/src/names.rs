//! The names that exported images and videos are saved under: the `[date]`
//! and `[time]` placeholders of a name, and the `(1)` added to a name until
//! no file of that name exists yet.

use vstd::prelude::*;

use crate::lines::{
    join_str, join_text, lacks, lemma_split_whole, split_str, split_text, string_views,
};
use crate::screen::{dimensions_text, str_equals, ScreenDimensions};

verus! {

broadcast use vstd::string::group_string_axioms;

/// `s` with every occurrence of `p` replaced by `r`, the occurrences found
/// from the left without overlapping, as `str::replace` does.
pub open spec fn replace_str(s: Seq<char>, p: Seq<char>, r: Seq<char>) -> Seq<char> {
    join_str(split_str(s, p), r)
}

/// A name with its `[date]` and then its `[time]` placeholders filled in.
pub open spec fn name_from_template(name: Seq<char>, date: Seq<char>, time: Seq<char>) -> Seq<char> {
    replace_str(replace_str(name, "[date]"@, date), "[time]"@, time)
}

/// `name` followed by `(1)`, `j` times.
pub open spec fn numbered_name(name: Seq<char>, j: nat) -> Seq<char>
    decreases j,
{
    if j == 0 {
        name
    } else {
        numbered_name(name, (j - 1) as nat) + "(1)"@
    }
}

/// The file an exported image is saved as: its name, `_`, the name of its
/// dimensions, and `.png`.
pub open spec fn image_file_name(name: Seq<char>, width: nat, height: nat) -> Seq<char> {
    name + seq!['_'] + dimensions_text(width, height) + ".png"@
}

/// The length of the longest text of `ss`.
pub open spec fn longest(ss: Seq<Seq<char>>) -> nat
    decreases ss.len(),
{
    if ss.len() == 0 {
        0
    } else if longest(ss.drop_last()) >= ss.last().len() {
        longest(ss.drop_last())
    } else {
        ss.last().len()
    }
}

/// `name` numbered `j` times is the first numbering of `name` whose file,
/// as `file` names it, is not among `existing`.
pub open spec fn first_free_numbering(
    name: Seq<char>,
    j: nat,
    existing: Seq<Seq<char>>,
    file: spec_fn(Seq<char>) -> Seq<char>,
) -> bool {
    &&& !existing.contains(file(numbered_name(name, j)))
    &&& forall|i: nat| i < j ==> existing.contains(#[trigger] file(numbered_name(name, i)))
}

/// A text of `ss` is no longer than the longest.
proof fn lemma_longest(ss: Seq<Seq<char>>, k: int)
    requires
        0 <= k < ss.len(),
    ensures
        ss[k].len() <= longest(ss),
    decreases ss.len(),
{
    if k < ss.len() - 1 {
        lemma_longest(ss.drop_last(), k);
    }
}

/// Returns `text` with every occurrence of `pattern` replaced by `with`, as
/// `text.replace(pattern, with)` does.
pub fn replace_text(text: &str, pattern: &str, with: &str) -> (s: String)
    requires
        pattern@.len() > 0,
    ensures
        s@ == replace_str(text@, pattern@, with@),
{
    let pieces = split_text(text, pattern);
    join_text(&pieces, with)
}

/// Returns the name with its `[date]` placeholders replaced by `date`, then
/// its `[time]` placeholders by `time`.
pub fn fill_name_template(name: &str, date: &str, time: &str) -> (s: String)
    ensures
        s@ == name_from_template(name@, date@, time@),
{
    proof {
        reveal_strlit("[date]");
        reveal_strlit("[time]");
    }
    let dated = replace_text(name, "[date]", date);
    replace_text(dated.as_str(), "[time]", time)
}

/// Whether one of `names` is `name`.
pub fn contains_text(names: &Vec<String>, name: &str) -> (b: bool)
    ensures
        b == string_views(names@).contains(name@),
{
    let ghost ns = string_views(names@);
    let mut i: usize = 0;
    while i < names.len()
        invariant
            ns == string_views(names@),
            ns.len() == names@.len(),
            i <= names@.len(),
            forall|k: int| 0 <= k < i ==> ns[k] != name@,
        decreases names@.len() - i,
    {
        assert(ns[i as int] == names@[i as int]@);
        if str_equals(names[i].as_str(), name) {
            assert(ns[i as int] == name@);
            return true;
        }
        i = i + 1;
    }
    false
}

/// Returns `name` followed by `(1)` as many times as it takes for the file
/// of the exported image, `{name}_{dimensions}.png`, to be none of the
/// `existing` file names.
pub fn get_unique_image_name(name: &str, dims: &ScreenDimensions, existing: &Vec<String>) -> (r:
    String)
    ensures
        exists|j: nat|
            r@ == numbered_name(name@, j) && first_free_numbering(
                name@,
                j,
                string_views(existing@),
                |n: Seq<char>| image_file_name(n, dims.width_spec(), dims.height_spec()),
            ),
{
    let ghost names = string_views(existing@);
    let ghost file = |n: Seq<char>| image_file_name(n, dims.width_spec(), dims.height_spec());
    let dims_name = dims.to_string();
    let mut current = String::from_str(name);
    let ghost mut j: nat = 0;
    proof {
        reveal_strlit("_");
        reveal_strlit(".png");
        reveal_strlit("(1)");
    }
    loop
        invariant
            names == string_views(existing@),
            file == (|n: Seq<char>| image_file_name(n, dims.width_spec(), dims.height_spec())),
            dims_name@ == dimensions_text(dims.width_spec(), dims.height_spec()),
            current@ == numbered_name(name@, j),
            forall|i: nat| i < j ==> names.contains(#[trigger] file(numbered_name(name@, i))),
            "(1)"@ =~= seq!['(', '1', ')'],
            "_"@ =~= seq!['_'],
        decreases longest(names) + 3 - current@.len(),
    {
        let mut file_name = current.clone();
        file_name.append("_");
        file_name.append(dims_name.as_str());
        file_name.append(".png");
        assert(file_name@ =~= file(current@));
        if !contains_text(existing, file_name.as_str()) {
            return current;
        }
        proof {
            let k = choose|k: int| 0 <= k < names.len() && names[k] == file_name@;
            lemma_longest(names, k);
            assert forall|i: nat| i < j + 1 implies names.contains(
                #[trigger] file(numbered_name(name@, i)),
            ) by {
                if i == j {
                    assert(file(numbered_name(name@, i)) == file_name@);
                }
            }
        }
        current.append("(1)");
        proof {
            j = j + 1;
        }
    }
}

/// Returns `name` followed by `(1)` as many times as it takes for it to be
/// none of the `existing` folder names.
pub fn get_unique_video_name(name: &str, existing: &Vec<String>) -> (r: String)
    ensures
        exists|j: nat|
            r@ == numbered_name(name@, j) && first_free_numbering(
                name@,
                j,
                string_views(existing@),
                |n: Seq<char>| n,
            ),
{
    let ghost names = string_views(existing@);
    let mut current = String::from_str(name);
    let ghost mut j: nat = 0;
    proof {
        reveal_strlit("(1)");
    }
    loop
        invariant
            names == string_views(existing@),
            current@ == numbered_name(name@, j),
            forall|i: nat| i < j ==> names.contains(#[trigger] numbered_name(name@, i)),
            "(1)"@ =~= seq!['(', '1', ')'],
        decreases longest(names) + 3 - current@.len(),
    {
        if !contains_text(existing, current.as_str()) {
            return current;
        }
        proof {
            let k = choose|k: int| 0 <= k < names.len() && names[k] == current@;
            lemma_longest(names, k);
            assert forall|i: nat| i < j + 1 implies names.contains(
                #[trigger] numbered_name(name@, i),
            ) by {}
        }
        current.append("(1)");
        proof {
            j = j + 1;
        }
    }
}

/// A name without placeholders is kept as it is.
pub proof fn lemma_template_without_placeholders(name: Seq<char>, date: Seq<char>, time: Seq<char>)
    requires
        lacks(name, "[date]"@),
        lacks(name, "[time]"@),
    ensures
        name_from_template(name, date, time) == name,
{
    reveal_strlit("[date]");
    reveal_strlit("[time]");
    lemma_split_whole(name, "[date]"@);
    lemma_split_whole(name, "[time]"@);
}

} // verus!
