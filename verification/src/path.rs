//! Paths as text: joining them, and taking file names apart.

use crate::text::{chars_of, find_last, same_chars, split_on, string_of};
use vstd::prelude::*;
use vstd::slice::slice_subrange;
use vstd::string::*;

verus! {

/// `base` with `path` adjoined: an absolute path replaces the base, and any other
/// follows it after one separator.
pub open spec fn joined(base: Seq<char>, path: Seq<char>) -> Seq<char> {
    if path.len() > 0 && path[0] == '/' {
        path
    } else if base.len() == 0 || base.last() == '/' {
        base + path
    } else {
        base.push('/') + path
    }
}

/// Neither an empty step of a path nor one that stays in place.
pub open spec fn is_name(step: Seq<char>) -> bool {
    step.len() > 0 && step != seq!['.']
}

/// The last name among the steps of a path.
pub open spec fn last_name(steps: Seq<Seq<char>>) -> Option<Seq<char>>
    decreases steps.len(),
{
    if steps.len() == 0 {
        None
    } else if is_name(steps.last()) {
        Some(steps.last())
    } else {
        last_name(steps.drop_last())
    }
}

/// The name at the end of a path; none where the path leads upwards.
pub open spec fn name_of(path: Seq<char>) -> Option<Seq<char>> {
    match last_name(crate::text::split(path, seq!['/'])) {
        Some(name) => if name == seq!['.', '.'] {
            None
        } else {
            Some(name)
        },
        None => None,
    }
}

/// Where the extension of a file name is parted from its stem: at the last dot,
/// unless the name begins with it.
pub open spec fn extension_dot(name: Seq<char>) -> Option<int> {
    match crate::text::last_of(name, '.') {
        Some(at) => if at > 0 {
            Some(at)
        } else {
            None
        },
        None => None,
    }
}

/// The extension of a path's file name.
pub open spec fn extension_of(path: Seq<char>) -> Option<Seq<char>> {
    match name_of(path) {
        Some(name) => match extension_dot(name) {
            Some(at) => Some(name.skip(at + 1)),
            None => None,
        },
        None => None,
    }
}

/// A path's file name without its extension.
pub open spec fn stem_of(path: Seq<char>) -> Option<Seq<char>> {
    match name_of(path) {
        Some(name) => match extension_dot(name) {
            Some(at) => Some(name.take(at)),
            None => Some(name),
        },
        None => None,
    }
}

/// `base` with `path` adjoined.
pub fn join_path(base: &str, path: &str) -> (whole: String)
    ensures
        whole@ == joined(base@, path@),
{
    let path_chars = chars_of(path);
    let base_chars = chars_of(base);
    if path_chars.len() > 0 && path_chars[0] == '/' {
        return path.to_owned();
    }
    let mut whole = base.to_owned();
    if base_chars.len() > 0 && base_chars[base_chars.len() - 1] != '/' {
        whole.push('/');
    }
    whole.append(path);
    whole
}

/// The name at the end of a path.
pub fn file_name(path: &str) -> (name: Option<String>)
    ensures
        crate::text::text_of(name) == name_of(path@),
{
    let chars = chars_of(path);
    let slash: [char; 1] = ['/'];
    let here: [char; 1] = ['.'];
    let up: [char; 2] = ['.', '.'];
    assert(slash@ =~= seq!['/']);
    assert(here@ =~= seq!['.']);
    assert(up@ =~= seq!['.', '.']);
    let steps = split_on(&chars, &slash);
    let ghost all = crate::text::split(path@, seq!['/']);
    let mut count: usize = steps.len();
    assert(all.take(count as int) =~= all);
    while count > 0
        invariant
            count <= steps@.len(),
            crate::text::pieces(steps@) == all,
            all == crate::text::split(path@, seq!['/']),
            here@ == seq!['.'],
            up@ == seq!['.', '.'],
            last_name(all) == last_name(all.take(count as int)),
        decreases count,
    {
        let step = steps[count - 1];
        assert(step@ == all[count - 1]);
        assert(all.take(count as int).drop_last() =~= all.take(count - 1));
        if step.len() > 0 && !same_chars(step, &here) {
            if same_chars(step, &up) {
                return None;
            }
            return Some(string_of(step));
        }
        count -= 1;
    }
    None
}

/// The extension of a path's file name.
pub fn extension(path: &str) -> (extension: Option<String>)
    ensures
        crate::text::text_of(extension) == extension_of(path@),
{
    match file_name(path) {
        Some(name) => {
            let chars = chars_of(name.as_str());
            let len = chars.len();
            match find_last(&chars, '.') {
                Some(at) => if at > 0 {
                    Some(string_of(slice_subrange(&chars, at + 1, len)))
                } else {
                    None
                },
                None => None,
            }
        },
        None => None,
    }
}

/// A path's file name without its extension.
pub fn file_stem(path: &str) -> (stem: Option<String>)
    ensures
        crate::text::text_of(stem) == stem_of(path@),
{
    match file_name(path) {
        Some(name) => {
            let chars = chars_of(name.as_str());
            match find_last(&chars, '.') {
                Some(at) => if at > 0 {
                    Some(string_of(slice_subrange(&chars, 0, at)))
                } else {
                    Some(name)
                },
                None => Some(name),
            }
        },
        None => None,
    }
}

/// A name that is adjoined to a path is the name at its end.
pub proof fn lemma_joined_name(base: Seq<char>, name: Seq<char>)
    requires
        is_name(name),
        name != seq!['.', '.'],
        crate::text::last_of(name, '/') is None,
    ensures
        name_of(joined(base, name)) == Some(name),
{
    let whole = joined(base, name);
    let steps = crate::text::split(whole, seq!['/']);
    crate::text::lemma_last_of(name, '/');
    crate::text::lemma_first_char(name, '/');
    assert(crate::text::split(name, seq!['/']) =~= seq![name]);
    if base.len() == 0 {
        assert(whole =~= name);
    } else if base.last() == '/' {
        assert(base =~= base.drop_last().push('/'));
        crate::text::lemma_split_concat(base.drop_last(), '/', name);
    } else {
        crate::text::lemma_split_concat(base, '/', name);
    }
    assert(steps.len() > 0 && steps.last() == name);
}

/// Different names that are adjoined to a path give different paths.
pub proof fn lemma_joined_injective(base: Seq<char>, a: Seq<char>, b: Seq<char>)
    requires
        a.len() > 0 ==> a[0] != '/',
        b.len() > 0 ==> b[0] != '/',
        joined(base, a) == joined(base, b),
    ensures
        a == b,
{
    let start = joined(base, a).len() - a.len();
    assert(joined(base, a).skip(start) =~= a);
    assert(joined(base, b).skip(start) =~= b);
}

/// An absolute path stands by itself; any other is put behind the base, with one
/// separator between them.
pub proof fn law_paths_are_joined_by_one_separator(base: Seq<char>, path: Seq<char>)
    ensures
        path.len() > 0 && path[0] == '/' ==> joined(base, path) == path,
        path.len() == 0 || path[0] != '/' ==> {
            &&& joined(Seq::empty(), path) == path
            &&& base.len() > 0 && base.last() != '/' ==> joined(base, path) == base + seq!['/']
                + path && joined(base.push('/'), path) == base + seq!['/'] + path
            &&& joined(seq!['/'], path) == seq!['/'] + path
        },
{
    assert(Seq::<char>::empty() + path =~= path);
    assert(base.push('/') + path =~= base + seq!['/'] + path);
}

proof fn lemma_last_step(path: Seq<char>, step: Seq<char>)
    requires
        forall|i: int| 0 <= i < step.len() ==> #[trigger] step[i] != '/',
    ensures
        crate::text::split(path.push('/') + step, seq!['/']) == crate::text::split(
            path,
            seq!['/'],
        ).push(step),
{
    crate::text::lemma_split_concat(path, '/', step);
    crate::text::lemma_first_char(step, '/');
    assert(crate::text::split(step, seq!['/']) =~= seq![step]);
    assert(crate::text::split(path.push('/') + step, seq!['/']) =~= crate::text::split(
        path,
        seq!['/'],
    ).push(step));
}

/// The name of a path is its last step; a separator or `.` at the end changes
/// nothing, and a path that ends with `..` has no name.
pub proof fn law_name_is_the_last_step(path: Seq<char>, name: Seq<char>)
    requires
        name.len() > 0,
        name != seq!['.'],
        name != seq!['.', '.'],
        forall|i: int| 0 <= i < name.len() ==> #[trigger] name[i] != '/',
    ensures
        name_of(name) == Some(name),
        name_of(path + seq!['/'] + name) == Some(name),
        name_of(path + seq!['/']) == name_of(path),
        name_of(path + seq!['/', '.']) == name_of(path),
        name_of(path + seq!['/', '.', '.']) is None,
        name_of(Seq::empty()) is None,
{
    let empty = Seq::<char>::empty();
    let here = seq!['.'];
    let up = seq!['.', '.'];
    lemma_last_step(path, name);
    lemma_last_step(path, empty);
    lemma_last_step(path, here);
    lemma_last_step(path, up);
    assert(path + seq!['/'] + name =~= path.push('/') + name);
    assert(path + seq!['/'] =~= path.push('/') + empty);
    assert(path + seq!['/', '.'] =~= path.push('/') + here);
    assert(path + seq!['/', '.', '.'] =~= path.push('/') + up);
    let steps = crate::text::split(path, seq!['/']);
    assert(steps.push(empty).drop_last() =~= steps);
    assert(steps.push(here).drop_last() =~= steps);
    assert(steps.push(name).last() == name);
    assert(up.len() == 2 && here.len() == 1);
    assert(steps.push(up).last() == up);
    crate::text::lemma_first_char(name, '/');
    assert(crate::text::split(name, seq!['/']) =~= seq![name]);
    assert(seq![name].last() == name);
    crate::text::lemma_first_char(empty, '/');
    assert(crate::text::split(empty, seq!['/']) =~= seq![empty]);
    assert(seq![empty].drop_last() =~= Seq::<Seq<char>>::empty());
    assert(last_name(Seq::<Seq<char>>::empty()) is None);
    assert(last_name(seq![empty]) is None);
}

/// A file name is parted at its last dot, unless it begins there: what stands before
/// is the stem, and what follows is the extension.
pub proof fn law_names_are_parted_at_the_last_dot(
    path: Seq<char>,
    stem: Seq<char>,
    extension: Seq<char>,
)
    requires
        name_of(path) == Some(stem + seq!['.'] + extension),
        forall|i: int| 0 <= i < extension.len() ==> #[trigger] extension[i] != '.',
    ensures
        stem.len() > 0 ==> stem_of(path) == Some(stem) && extension_of(path) == Some(extension),
        stem.len() == 0 ==> stem_of(path) == Some(seq!['.'] + extension) && extension_of(path)
            is None,
{
    let name = stem + seq!['.'] + extension;
    crate::text::lemma_last_of(name, '.');
    assert(name[stem.len() as int] == '.');
    let at = crate::text::last_of(name, '.')->Some_0;
    if at > stem.len() {
        assert(name[at] == extension[at - stem.len() - 1]);
    }
    assert(at == stem.len());
    assert(name.take(at) =~= stem);
    assert(name.skip(at + 1) =~= extension);
    assert(stem.len() == 0 ==> name =~= seq!['.'] + extension);
}

/// A file name without a dot is all stem.
pub proof fn law_names_without_dots_are_stems(path: Seq<char>, name: Seq<char>)
    requires
        name_of(path) == Some(name),
        forall|i: int| 0 <= i < name.len() ==> #[trigger] name[i] != '.',
    ensures
        stem_of(path) == Some(name),
        extension_of(path) is None,
{
    crate::text::lemma_last_of(name, '.');
}

} // verus!
