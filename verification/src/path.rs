//! The grammar of paths: where the file name begins, what its stem and its
//! extension are, and how a directory and a name are joined.

use crate::platform::Platform;
use crate::text::chars_of;
use vstd::prelude::*;
use vstd::string::*;

verus! {

/// Index at which the file name of `path` begins: just behind the last
/// separator, or 0 where the path holds none.
pub open spec fn name_start(path: Seq<char>, platform: Platform) -> int
    decreases path.len(),
{
    if path.len() == 0 {
        0
    } else if platform.is_separator(path.last()) {
        path.len() as int
    } else {
        name_start(path.drop_last(), platform)
    }
}

/// The file name of `path`: what follows its last separator.
pub open spec fn file_name(path: Seq<char>, platform: Platform) -> Seq<char> {
    path.skip(name_start(path, platform))
}

/// Index of the last dot of `name`, or -1 where it holds none.
pub open spec fn last_dot(name: Seq<char>) -> int
    decreases name.len(),
{
    if name.len() == 0 {
        -1
    } else if name.last() == '.' {
        name.len() - 1
    } else {
        last_dot(name.drop_last())
    }
}

/// The extension of a file name: what follows its last dot, where that dot is
/// not the first character of the name.
pub open spec fn extension(name: Seq<char>) -> Option<Seq<char>> {
    let dot = last_dot(name);
    if dot > 0 {
        Some(name.skip(dot + 1))
    } else {
        None
    }
}

/// The stem of a file name: what precedes the dot of its extension, or the
/// whole name where it has no extension.
pub open spec fn stem(name: Seq<char>) -> Seq<char> {
    let dot = last_dot(name);
    if dot > 0 {
        name.take(dot)
    } else {
        name
    }
}

/// The extension of the file name of `path`.
pub open spec fn path_extension(path: Seq<char>, platform: Platform) -> Option<Seq<char>> {
    extension(file_name(path, platform))
}

/// The stem of the file name of `path`.
pub open spec fn path_stem(path: Seq<char>, platform: Platform) -> Seq<char> {
    stem(file_name(path, platform))
}

/// `dir` and `name` as one path: a separator stands between them unless
/// `dir` is empty or ends in one already.
pub open spec fn joined(dir: Seq<char>, name: Seq<char>, platform: Platform) -> Seq<char> {
    if dir.len() == 0 || platform.is_separator(dir.last()) {
        dir + name
    } else {
        dir + seq![platform.main_separator()] + name
    }
}

/// The file name begins inside the path, no separator stands in it, and one
/// stands just before it unless it begins the path.
pub proof fn lemma_name_start(path: Seq<char>, platform: Platform)
    ensures
        0 <= name_start(path, platform) <= path.len(),
        forall|i: int|
            name_start(path, platform) <= i < path.len() ==> !platform.is_separator(
                #[trigger] path[i],
            ),
        name_start(path, platform) > 0 ==> platform.is_separator(
            path[name_start(path, platform) - 1],
        ),
    decreases path.len(),
{
    if path.len() > 0 && !platform.is_separator(path.last()) {
        let shorter = path.drop_last();
        lemma_name_start(shorter, platform);
        assert forall|i: int| name_start(path, platform) <= i < path.len() implies !platform.is_separator(
            #[trigger] path[i],
        ) by {
            if i < shorter.len() {
                assert(path[i] == shorter[i]);
            }
        }
    }
}

/// The last dot is a dot of the name, and no dot follows it.
pub proof fn lemma_last_dot(name: Seq<char>)
    ensures
        -1 <= last_dot(name) < name.len(),
        last_dot(name) >= 0 ==> name[last_dot(name)] == '.',
        forall|i: int| last_dot(name) < i < name.len() ==> #[trigger] name[i] != '.',
    decreases name.len(),
{
    if name.len() > 0 && name.last() != '.' {
        let shorter = name.drop_last();
        lemma_last_dot(shorter);
        assert forall|i: int| last_dot(name) < i < name.len() implies #[trigger] name[i] != '.' by {
            if i < shorter.len() {
                assert(name[i] == shorter[i]);
            }
        }
    }
}

/// Where the file name has an extension, the name is its stem, a dot and the
/// extension, and the stem is not empty.
pub proof fn lemma_stem_dot_extension(name: Seq<char>)
    requires
        extension(name) is Some,
    ensures
        name == stem(name) + seq!['.'] + extension(name)->0,
        stem(name).len() > 0,
{
    lemma_last_dot(name);
    assert(name =~= stem(name) + seq!['.'] + extension(name)->0);
}

/// A path that ends in a name without separators has that name as its file
/// name, wherever it was joined to.
pub proof fn lemma_file_name_of_joined(dir: Seq<char>, name: Seq<char>, platform: Platform)
    requires
        forall|i: int| 0 <= i < name.len() ==> !platform.is_separator(#[trigger] name[i]),
    ensures
        file_name(joined(dir, name, platform), platform) == name,
    decreases name.len(),
{
    let path = joined(dir, name, platform);
    if name.len() == 0 {
        if dir.len() == 0 {
            assert(path =~= dir);
        } else if platform.is_separator(dir.last()) {
            assert(path =~= dir);
        } else {
            assert(path.last() == platform.main_separator());
        }
        assert(path.len() > 0 ==> platform.is_separator(path.last()));
        assert(file_name(path, platform) =~= name);
    } else {
        let shorter = name.drop_last();
        lemma_file_name_of_joined(dir, shorter, platform);
        let shorter_path = joined(dir, shorter, platform);
        assert(path.drop_last() =~= shorter_path);
        assert(path.last() == name.last());
        assert(name_start(path, platform) == name_start(shorter_path, platform));
        lemma_name_start(shorter_path, platform);
        assert(file_name(path, platform) =~= file_name(shorter_path, platform).push(name.last()));
        assert(shorter.push(name.last()) =~= name);
    }
}

/// Whether `path` lies under the directory `dir`: `dir` begins it, more
/// follows, and a separator stands between the two.
pub open spec fn lies_under(path: Seq<char>, dir: Seq<char>, platform: Platform) -> bool {
    &&& dir.is_prefix_of(path)
    &&& dir.len() < path.len()
    &&& (dir.len() == 0 || platform.is_separator(dir.last()) || platform.is_separator(
        path[dir.len() as int],
    ))
}

/// Whether `path` is the directory `dir` or lies under it.
pub open spec fn within(path: Seq<char>, dir: Seq<char>, platform: Platform) -> bool {
    path == dir || lies_under(path, dir, platform)
}

/// A joined path is within the directory it was joined to, and lies under it
/// where the name is not empty.
pub proof fn lemma_joined_within(dir: Seq<char>, name: Seq<char>, platform: Platform)
    ensures
        within(joined(dir, name, platform), dir, platform),
        name.len() > 0 ==> lies_under(joined(dir, name, platform), dir, platform),
{
    let path = joined(dir, name, platform);
    assert(path.subrange(0, dir.len() as int) =~= dir);
    if path.len() == dir.len() {
        assert(path =~= dir);
    }
}

/// A path with an extension does not end in a separator.
pub(crate) proof fn lemma_extension_needs_name(path: Seq<char>, platform: Platform)
    requires
        path_extension(path, platform) is Some,
    ensures
        path.len() > 0,
        !platform.is_separator(path.last()),
{
    if path.len() == 0 || platform.is_separator(path.last()) {
        assert(file_name(path, platform) =~= Seq::<char>::empty());
    }
}

/// What lies under a directory lies under every directory that this one is
/// within.
pub proof fn lemma_lies_under_transitive(
    path: Seq<char>,
    dir: Seq<char>,
    root: Seq<char>,
    platform: Platform,
)
    requires
        lies_under(path, dir, platform),
        within(dir, root, platform),
    ensures
        lies_under(path, root, platform),
{
    if dir != root {
        assert(root =~= path.subrange(0, root.len() as int)) by {
            assert(root == dir.subrange(0, root.len() as int));
            assert(dir == path.subrange(0, dir.len() as int));
        }
        assert(path[root.len() as int] == dir[root.len() as int]) by {
            assert(dir == path.subrange(0, dir.len() as int));
        }
    }
}

/// Two directories that a path lies under are nested: one is within the
/// other.
pub proof fn lemma_ancestors_nest(path: Seq<char>, a: Seq<char>, b: Seq<char>, platform: Platform)
    requires
        lies_under(path, a, platform),
        lies_under(path, b, platform),
    ensures
        within(a, b, platform) || within(b, a, platform),
{
    assert(a == path.subrange(0, a.len() as int));
    assert(b == path.subrange(0, b.len() as int));
    if a.len() == b.len() {
        assert(a =~= b);
    } else if a.len() < b.len() {
        assert(a =~= b.subrange(0, a.len() as int));
        assert(b[a.len() as int] == path[a.len() as int]);
    } else {
        assert(b =~= a.subrange(0, b.len() as int));
        assert(a[b.len() as int] == path[b.len() as int]);
    }
}

/// Executable form of [`name_start`].
pub fn find_name_start(chars: &Vec<char>, platform: Platform) -> (start: usize)
    ensures
        start == name_start(chars@, platform),
{
    let mut i: usize = chars.len();
    assert(chars@.take(i as int) =~= chars@);
    while i > 0 && !platform.separates(chars[i - 1])
        invariant
            i <= chars.len(),
            name_start(chars@, platform) == name_start(chars@.take(i as int), platform),
        decreases i,
    {
        assert(chars@.take(i as int).drop_last() =~= chars@.take(i - 1));
        i -= 1;
    }
    i
}

/// Finds the last dot of the file name that begins at `start`: its index in
/// `chars`, or `None` where the name holds no dot.
pub fn find_last_dot(chars: &Vec<char>, start: usize) -> (dot: Option<usize>)
    requires
        start <= chars.len(),
    ensures
        match dot {
            Some(i) => start <= i < chars.len() && last_dot(chars@.skip(start as int)) == i
                - start,
            None => last_dot(chars@.skip(start as int)) == -1,
        },
{
    let ghost name = chars@.skip(start as int);
    let mut i: usize = chars.len();
    assert(name.take(i - start) =~= name);
    while i > start && chars[i - 1] != '.'
        invariant
            start <= i <= chars.len(),
            name == chars@.skip(start as int),
            last_dot(name) == last_dot(name.take(i - start)),
        decreases i,
    {
        assert(name.take(i - start).drop_last() =~= name.take(i - start - 1));
        i -= 1;
    }
    if i > start {
        Some(i - 1)
    } else {
        None
    }
}

/// A file name split into its stem and its extension.
pub struct NameParts {
    pub stem: String,
    pub extension: Option<String>,
}

/// Splits the file name of `path` into stem and extension.
pub fn split_file_name(path: &str, platform: Platform) -> (parts: NameParts)
    ensures
        parts.stem@ == path_stem(path@, platform),
        match parts.extension {
            Some(e) => path_extension(path@, platform) == Some(e@),
            None => path_extension(path@, platform) is None,
        },
{
    let chars = chars_of(path);
    let start = find_name_start(&chars, platform);
    let end = chars.len();
    proof {
        lemma_name_start(path@, platform);
    }
    let ghost name = file_name(path@, platform);
    match find_last_dot(&chars, start) {
        Some(dot) if dot > start => {
            let stem = path.substring_char(start, dot).to_string();
            let extension = path.substring_char(dot + 1, end).to_string();
            assert(stem@ =~= name.take(dot - start));
            assert(extension@ =~= name.skip(dot - start + 1));
            NameParts { stem, extension: Some(extension) }
        },
        _ => {
            let stem = path.substring_char(start, end).to_string();
            assert(stem@ =~= name);
            NameParts { stem, extension: None }
        },
    }
}

/// Joins a directory and the name of one of its entries.
pub fn join_path(dir: &str, name: &str, platform: Platform) -> (path: String)
    ensures
        path@ == joined(dir@, name@, platform),
{
    let len = dir.unicode_len();
    let mut path = dir.to_string();
    if len > 0 && !platform.separates(dir.get_char(len - 1)) {
        proof {
            reveal_strlit("\\");
            reveal_strlit("/");
        }
        match platform {
            Platform::Windows => path.append("\\"),
            _ => path.append("/"),
        }
        assert(path@ =~= dir@ + seq![platform.main_separator()]);
    }
    path.append(name);
    path
}

} // verus!
