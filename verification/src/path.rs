//! Paths of files, as far as they are the same on every system.

use std::path::{Path, PathBuf};
use vstd::prelude::*;

verus! {

/// The part of a path behind its last slash.
pub open spec fn final_name(path: Seq<char>) -> Seq<char>
    decreases path.len(),
{
    if path.len() == 0 || path.last() == '/' {
        Seq::empty()
    } else {
        final_name(path.drop_last()).push(path.last())
    }
}

/// Whether `path` is read alike on every system: it holds no backslash, does not
/// begin with two slashes, and has no colon as its second character.
pub open spec fn is_plain_path(path: Seq<char>) -> bool {
    &&& !path.contains('\\')
    &&& !(path.len() >= 2 && path[0] == '/' && path[1] == '/')
    &&& !(path.len() >= 2 && path[1] == ':')
}

/// A path without the slashes at its end and the dots that stand there for the
/// directory itself.
pub open spec fn trimmed(path: Seq<char>) -> Seq<char>
    decreases path.len(),
{
    if path.len() == 0 {
        path
    } else if path.last() == '/' || (path.len() > 1 && final_name(path) == seq!['.']) {
        trimmed(path.drop_last())
    } else {
        path
    }
}

/// The file name of a plain path: what it ends in, unless that is nothing, or
/// stands for a directory relative to another.
pub open spec fn file_name_of(path: Seq<char>) -> Option<Seq<char>> {
    let name = final_name(trimmed(path));
    if name.len() == 0 || name == seq!['.'] || name == seq!['.', '.'] {
        None
    } else {
        Some(name)
    }
}

/// Whether a plain path ends right behind its file name.
pub open spec fn ends_in_name(path: Seq<char>) -> bool {
    file_name_of(path) is Some && trimmed(path) == path
}

/// The position of the last dot of a name, or -1.
pub open spec fn last_dot(name: Seq<char>) -> int
    decreases name.len(),
{
    if name.len() == 0 {
        -1
    } else if name.last() == '.' {
        name.len() - 1
    } else {
        last_dot(name.drop_last())
    }
}

/// The extension of a file name: what follows its last dot, unless that is the
/// only one and the name begins with it.
pub open spec fn name_extension(name: Seq<char>) -> Option<Seq<char>> {
    if last_dot(name) <= 0 {
        None
    } else {
        Some(name.skip(last_dot(name) + 1))
    }
}

/// The extension of the file name of a plain path.
pub open spec fn extension_of(path: Seq<char>) -> Option<Seq<char>> {
    match file_name_of(path) {
        Some(name) => name_extension(name),
        None => None,
    }
}

/// A file name without its extension.
pub open spec fn name_stem(name: Seq<char>) -> Seq<char> {
    if last_dot(name) <= 0 {
        name
    } else {
        name.take(last_dot(name))
    }
}

/// A path that ends in its file name, with the extension of that replaced, or
/// added.
pub open spec fn with_extension(path: Seq<char>, extension: Seq<char>) -> Seq<char> {
    path.take(path.len() - final_name(path).len()) + name_stem(final_name(path)) + seq!['.']
        + extension
}

/// Whether `extension` could be that of `path`: a part of it behind a dot, with
/// no dot in it.
pub open spec fn is_extension_of(extension: Seq<char>, path: Seq<char>) -> bool {
    &&& !extension.contains('.')
    &&& exists|k: int|
        {
            &&& 0 <= k
            &&& k + 1 + extension.len() <= path.len()
            &&& #[trigger] path[k] == '.'
            &&& path.subrange(k + 1, k + 1 + extension.len()) == extension
        }
}

/// An optional text as a mathematical value.
pub open spec fn opt_text(text: Option<String>) -> Option<Seq<char>> {
    match text {
        Some(text) => Some(text@),
        None => None,
    }
}

/// Whether a text is shown as it stands: it holds nothing but printable ASCII
/// characters, and of those neither quotes nor backslashes.
pub open spec fn is_simple_text(text: Seq<char>) -> bool {
    forall|i: int|
        0 <= i < text.len() ==> {
            &&& 32 <= #[trigger] text[i] as int <= 126
            &&& text[i] != '"'
            &&& text[i] != '\''
            &&& text[i] != '\\'
        }
}

/// Whether `path` may be shown to a reader as `shown`: in double quotes, where it
/// is simple. How other paths are shown depends on the system.
pub open spec fn shown_as(shown: Seq<char>, path: Seq<char>) -> bool {
    is_simple_text(path) ==> shown == seq!['"'] + path + seq!['"']
}

/// Whether `part` is a part of `whole`, without a gap.
pub open spec fn is_part_of(part: Seq<char>, whole: Seq<char>) -> bool {
    exists|k: int|
        0 <= k && k + part.len() <= whole.len() && #[trigger] whole.subrange(k, k + part.len())
            == part
}

/// Calls `format!` with `{:?}` on `path` as a `std::path::Path`: a simple path in
/// double quotes. How other paths are escaped depends on the system, so nothing is
/// claimed of them.
#[verifier::external_body]
pub(crate) fn path_debug(path: &str) -> (res: String)
    ensures
        shown_as(res@, path@),
{
    format!("{:?}", Path::new(path))
}

/// Calls `file_name` of `std::path::Path`: the last component of the path, if
/// that is a name; slashes at the end, and dots that stand there for the
/// directory itself, are passed over. What of other than plain paths is a
/// component depends on the system, so of them it is claimed only that the name
/// is a part of the path and not empty.
#[verifier::external_body]
pub(crate) fn path_file_name(path: &str) -> (res: Option<String>)
    ensures
        res matches Some(name) ==> name@.len() > 0 && is_part_of(name@, path@),
        is_plain_path(path@) ==> opt_text(res) == file_name_of(path@),
{
    match Path::new(path).file_name() {
        Some(name) => name.to_str().map(str::to_string),
        None => None,
    }
}

/// Calls `extension` of `std::path::Path`: the part of the file name behind its
/// last dot, unless the name begins with that dot. What of other than plain paths
/// is the file name depends on the system, so of them it is claimed only that the
/// extension is a part of the path behind a dot.
#[verifier::external_body]
pub(crate) fn path_extension(path: &str) -> (res: Option<String>)
    ensures
        res matches Some(extension) ==> is_extension_of(extension@, path@),
        is_plain_path(path@) ==> opt_text(res) == extension_of(path@),
{
    match Path::new(path).extension() {
        Some(extension) => extension.to_str().map(str::to_string),
        None => None,
    }
}

/// Calls `set_extension` of `std::path::PathBuf` on a buffer that holds `path`:
/// the extension of its file name is replaced, or added where it has none; a path
/// without a file name stays as it is. What of other than plain paths is the file
/// name depends on the system, and what becomes of slashes behind the name is not
/// documented; of such paths it is claimed only that they stay or end in the
/// extension. The call panics on an extension with a separator in it, and takes
/// the extension away where it is given none.
#[verifier::external_body]
pub(crate) fn path_set_extension(path: &str, extension: &str) -> (res: String)
    requires
        extension@.len() > 0,
        !extension@.contains('/'),
        !extension@.contains('\\'),
    ensures
        res@ == path@ || (seq!['.'] + extension@).is_suffix_of(res@),
        is_plain_path(path@) && ends_in_name(path@) ==> res@ == with_extension(path@, extension@),
        is_plain_path(path@) && file_name_of(path@) is None ==> res@ == path@,
{
    let mut buffer = PathBuf::from(path);
    buffer.set_extension(extension);
    buffer.to_string_lossy().into_owned()
}

/// The name behind the last slash is the end of the path and holds no slash.
proof fn lemma_final_name(path: Seq<char>)
    ensures
        final_name(path).len() <= path.len(),
        path.skip(path.len() - final_name(path).len()) == final_name(path),
        !final_name(path).contains('/'),
    decreases path.len(),
{
    if path.len() == 0 || path.last() == '/' {
        assert(path.skip(path.len() as int) =~= Seq::empty());
    } else {
        let rest = path.drop_last();
        lemma_final_name(rest);
        let k = path.len() - final_name(path).len();
        assert(path.skip(k) =~= rest.skip(k).push(path.last()));
        assert forall|i: int| 0 <= i < final_name(path).len() implies final_name(path)[i]
            != '/' by {
            if i < final_name(rest).len() {
                assert(final_name(rest).contains(final_name(rest)[i]));
            }
        }
    }
}

/// What is put behind the name of a path without a slash becomes part of the
/// name.
proof fn lemma_final_name_extends(path: Seq<char>, more: Seq<char>)
    requires
        !more.contains('/'),
    ensures
        final_name(path + more) == final_name(path) + more,
    decreases more.len(),
{
    if more.len() == 0 {
        assert(path + more =~= path);
        assert(final_name(path) + more =~= final_name(path));
    } else {
        let front = more.drop_last();
        assert forall|i: int| 0 <= i < front.len() implies front[i] != '/' by {
            assert(more.contains(more[i]));
        }
        lemma_final_name_extends(path, front);
        assert(more.contains(more.last()));
        assert((path + more).drop_last() =~= path + front);
        assert(final_name(path + more) =~= final_name(path) + more);
    }
}

/// The last dot of a name is in it, and no dot follows.
proof fn lemma_last_dot(name: Seq<char>)
    ensures
        -1 <= last_dot(name) < name.len(),
        last_dot(name) >= 0 ==> name[last_dot(name)] == '.',
        forall|i: int| last_dot(name) < i < name.len() ==> name[i] != '.',
    decreases name.len(),
{
    if name.len() > 0 && name.last() != '.' {
        lemma_last_dot(name.drop_last());
        assert forall|i: int| last_dot(name) < i < name.len() implies name[i] != '.' by {
            if i < name.len() - 1 {
                assert(name.drop_last()[i] == name[i]);
            }
        }
    }
}

/// A path that was given an extension has that extension.
pub proof fn law_given_extension_is_found(path: Seq<char>, extension: Seq<char>)
    requires
        is_plain_path(path),
        ends_in_name(path),
        extension.len() > 0,
        !extension.contains('.'),
        !extension.contains('/'),
        !extension.contains('\\'),
    ensures
        is_plain_path(with_extension(path, extension)),
        ends_in_name(with_extension(path, extension)),
        extension_of(with_extension(path, extension)) == Some(extension),
        final_name(with_extension(path, extension)) == name_stem(final_name(path)) + seq!['.']
            + extension,
        name_stem(final_name(with_extension(path, extension))) == name_stem(final_name(path)),
{
    let name = final_name(path);
    let dir = path.take(path.len() - name.len());
    let stem = name_stem(name);
    let end = seq!['.'] + extension;
    let whole = with_extension(path, extension);
    lemma_final_name(path);
    lemma_last_dot(name);
    assert(whole =~= dir + (stem + end));
    assert forall|i: int| 0 <= i < (stem + end).len() implies (stem + end)[i] != '/' by {
        if i < stem.len() {
            assert(name.contains(name[i]));
        } else if i > stem.len() {
            assert(extension.contains(extension[i - stem.len() - 1]));
        }
    }
    assert(final_name(dir) =~= Seq::empty()) by {
        if dir.len() > 0 && dir.last() != '/' {
            lemma_final_name_extends(dir, name);
            assert(dir + name =~= path);
            assert(final_name(dir).len() > 0);
        }
    }
    lemma_final_name_extends(dir, stem + end);
    assert(final_name(whole) =~= stem + end);
    lemma_last_dot(stem + end);
    assert(last_dot(stem + end) == stem.len()) by {
        let k = last_dot(stem + end);
        assert((stem + end)[stem.len() as int] == '.');
        if k > stem.len() {
            assert(extension.contains(extension[k - stem.len() - 1]));
        }
    }
    assert((stem + end).skip(stem.len() as int + 1) =~= extension);
    assert forall|i: int| 0 <= i < whole.len() implies whole[i] != '\\' by {
        if i < dir.len() + stem.len() {
            assert(whole[i] == path[i]);
            assert(path.contains(path[i]));
        } else if i > dir.len() + stem.len() {
            assert(extension.contains(extension[i - dir.len() - stem.len() - 1]));
        }
    }
    assert((stem + end).len() >= 3);
    assert(whole.last() == extension.last());
    assert(extension.contains(extension.last()));
    assert(!(whole[0] == '/' && whole[1] == '/') && whole[1] != ':') by {
        if dir.len() + stem.len() >= 2 {
            assert(whole[0] == path[0]);
            assert(whole[1] == path[1]);
        } else {
            assert(whole[1] == '.');
        }
    }
    assert(stem + end =~= stem + seq!['.'] + extension);
    assert((stem + end).take(stem.len() as int) =~= stem);
}

/// Where an extension is given twice, the second counts.
pub proof fn law_second_extension_counts(path: Seq<char>, first: Seq<char>, second: Seq<char>)
    requires
        is_plain_path(path),
        ends_in_name(path),
        first.len() > 0,
        !first.contains('.'),
        !first.contains('/'),
        !first.contains('\\'),
    ensures
        with_extension(with_extension(path, first), second) == with_extension(path, second),
{
    law_given_extension_is_found(path, first);
    lemma_final_name(path);
    let name = final_name(path);
    let dir = path.take(path.len() - name.len());
    let whole = with_extension(path, first);
    assert(whole =~= dir + (name_stem(name) + seq!['.'] + first));
    assert(whole.take(whole.len() - final_name(whole).len()) =~= dir);
}

/// A name with an extension is made of the part before it, a dot and the extension,
/// and has no dot in the extension.
pub proof fn law_name_is_stem_and_extension(name: Seq<char>)
    ensures
        match name_extension(name) {
            Some(extension) => {
                &&& name == name_stem(name) + seq!['.'] + extension
                &&& name_stem(name).len() > 0
                &&& forall|i: int| 0 <= i < extension.len() ==> #[trigger] extension[i] != '.'
            },
            None => {
                &&& name_stem(name) == name
                &&& forall|i: int| 0 < i < name.len() ==> #[trigger] name[i] != '.'
            },
        },
{
    lemma_last_dot(name);
    if last_dot(name) > 0 {
        let extension = name.skip(last_dot(name) + 1);
        assert(name =~= name_stem(name) + seq!['.'] + extension);
        assert forall|i: int| 0 <= i < extension.len() implies #[trigger] extension[i] != '.' by {
            assert(name[last_dot(name) + 1 + i] != '.');
        }
    }
}

/// The file name of a path that leads to a name through a directory is that name,
/// also where a slash or a dot for the directory itself follows.
pub proof fn law_file_name_is_the_last_part(dir: Seq<char>, name: Seq<char>)
    requires
        name.len() > 0,
        !name.contains('/'),
        name != seq!['.'],
        name != seq!['.', '.'],
    ensures
        file_name_of(name) == Some(name),
        file_name_of(dir + seq!['/'] + name) == Some(name),
        file_name_of(dir + seq!['/'] + name + seq!['/']) == Some(name),
        file_name_of(dir + seq!['/'] + name + seq!['/', '.']) == Some(name),
        file_name_of(dir + seq!['/', '.', '.']) is None,
{
    let none = Seq::<char>::empty();
    let slash = dir + seq!['/'];
    let path = slash + name;
    lemma_final_name_extends(none, name);
    assert(none + name =~= name);
    lemma_final_name_extends(slash, name);
    assert(final_name(slash) =~= none);
    assert(final_name(path) =~= name);
    assert(name.contains(name.last()));
    assert(path.last() == name.last());
    assert((path + seq!['/']).drop_last() =~= path);
    let dotted = path + seq!['/', '.'];
    assert(dotted.drop_last() =~= path + seq!['/']);
    lemma_final_name_extends(path + seq!['/'], seq!['.']);
    assert(path + seq!['/'] + seq!['.'] =~= dotted);
    assert(final_name(path + seq!['/']) =~= none);
    assert(final_name(dotted) =~= seq!['.']);
    let above = dir + seq!['/', '.', '.'];
    lemma_final_name_extends(slash, seq!['.', '.']);
    assert(slash + seq!['.', '.'] =~= above);
    assert(final_name(above) =~= seq!['.', '.']);
    assert(final_name(above).len() == 2);
    assert(trimmed(above) == above);
}

} // verus!
