use crate::error::Error;
use crate::text::chars_of;
use vstd::prelude::*;
use vstd::string::*;

verus! {

/// The parent that `std::path::Path::parent` finds for a path, both as text,
/// by the rules for paths of the platform that the library is built for.
pub uninterp spec fn parent_of(path: Seq<char>) -> Option<Seq<char>>;

/// The final component that `std::path::Path::file_name` finds in a path, both
/// as text, by the rules for paths of the platform that the library is built for.
pub uninterp spec fn file_name_of(path: Seq<char>) -> Option<Seq<char>>;

/// Calls `std::path::Path::parent`, which gives the path without its final
/// component, and nothing for a path that ends in a root or is empty. Nothing is
/// proved of the call: the contract names its result, and says that the text
/// handed back is that result.
#[verifier::external_body]
fn path_parent(path: &str) -> (parent: Option<String>)
    ensures
        parent.is_some() == parent_of(path@).is_some(),
        parent matches Some(p) ==> parent_of(path@) == Some(p@),
{
    std::path::Path::new(path).parent().map(|p| p.to_string_lossy().into_owned())
}

/// Calls `std::path::Path::file_name`, which gives the final component of the
/// path, and nothing for a path that ends in `..` or has no component. Nothing
/// is proved of the call: the contract names its result, says that the text
/// handed back is that result, and claims that a component holds no `/`, which
/// parts components on every platform.
#[verifier::external_body]
fn path_file_name(path: &str) -> (name: Option<String>)
    ensures
        name.is_some() == file_name_of(path@).is_some(),
        name matches Some(n) ==> file_name_of(path@) == Some(n@) && !n@.contains('/'),
{
    std::path::Path::new(path).file_name().map(|n| n.to_string_lossy().into_owned())
}

/// Where the last `c` of `text` stands, or -1 where it has none.
pub open spec fn last_of(text: Seq<char>, c: char) -> int
    decreases text.len(),
{
    if text.len() == 0 {
        -1
    } else if text.last() == c {
        text.len() - 1
    } else {
        last_of(text.drop_last(), c)
    }
}

/// Where the last `.` of `name` stands, or -1 where it has none.
pub open spec fn last_dot(name: Seq<char>) -> int {
    last_of(name, '.')
}

/// The file name without its extension. A `.` at the very start begins no extension.
pub open spec fn stem_of(name: Seq<char>) -> Seq<char> {
    if last_dot(name) <= 0 {
        name
    } else {
        name.take(last_dot(name))
    }
}

/// What follows the last `.` of a file name, where that `.` is not its first character.
pub open spec fn extension_of(name: Seq<char>) -> Option<Seq<char>> {
    if last_dot(name) <= 0 {
        None
    } else {
        Some(name.skip(last_dot(name) + 1))
    }
}

/// `base` extended by `rel`: a `rel` that starts at the root replaces `base`,
/// otherwise one `/` parts the two unless `base` is empty or brings its own.
pub open spec fn joined(base: Seq<char>, rel: Seq<char>) -> Seq<char> {
    if rel.len() > 0 && rel[0] == '/' {
        rel
    } else if base.len() > 0 && base.last() != '/' {
        base + seq!['/'] + rel
    } else {
        base + rel
    }
}

/// `last_of` is the position of a `c` that no other `c` follows.
pub proof fn lemma_last_of(text: Seq<char>, c: char)
    ensures
        -1 <= last_of(text, c) < text.len(),
        last_of(text, c) >= 0 ==> text[last_of(text, c)] == c,
        forall|j: int| last_of(text, c) < j < text.len() ==> text[j] != c,
    decreases text.len(),
{
    if text.len() > 0 && text.last() != c {
        let front = text.drop_last();
        lemma_last_of(front, c);
        assert forall|j: int| last_of(text, c) < j < text.len() implies text[j] != c by {
            if j < front.len() {
                assert(front[j] == text[j]);
            }
        }
        if last_of(front, c) >= 0 {
            assert(front[last_of(front, c)] == text[last_of(front, c)]);
        }
    }
}

/// A `c` at `k` that no other `c` follows is the last one.
pub proof fn lemma_last_of_is(text: Seq<char>, c: char, k: int)
    requires
        -1 <= k < text.len(),
        k >= 0 ==> text[k] == c,
        forall|j: int| k < j < text.len() ==> text[j] != c,
    ensures
        last_of(text, c) == k,
{
    lemma_last_of(text, c);
}

/// What follows the last `/` of a joined path is the name that was joined on,
/// where that name holds no `/` itself.
pub proof fn lemma_joined_tail(base: Seq<char>, name: Seq<char>)
    requires
        !name.contains('/'),
    ensures
        joined(base, name).skip(last_of(joined(base, name), '/') + 1) == name,
{
    let path = joined(base, name);
    assert(name.len() > 0 ==> name[0] != '/') by {
        if name.len() > 0 && name[0] == '/' {
            assert(name.contains('/'));
        }
    }
    let lead: Seq<char> = if base.len() > 0 && base.last() != '/' {
        base + seq!['/']
    } else {
        base
    };
    assert(path =~= lead + name);
    assert forall|j: int| lead.len() - 1 < j < path.len() implies path[j] != '/' by {
        if name[j - lead.len()] == '/' {
            assert(name.contains('/'));
        }
    }
    lemma_last_of_is(path, '/', lead.len() - 1);
    assert(path.skip(lead.len() as int) =~= name);
}

/// The position of the last `.` among `chars`.
fn find_last_dot(chars: &Vec<char>) -> (k: Option<usize>)
    ensures
        match k {
            Some(k) => last_dot(chars@) == k && k < chars@.len(),
            None => last_dot(chars@) == -1,
        },
{
    let mut i: usize = chars.len();
    while i > 0
        invariant
            i <= chars.len(),
            forall|j: int| i <= j < chars.len() ==> chars@[j] != '.',
        decreases i,
    {
        i -= 1;
        if chars[i] == '.' {
            proof {
                lemma_last_of_is(chars@, '.', i as int);
            }
            return Some(i);
        }
    }
    proof {
        lemma_last_of_is(chars@, '.', -1);
    }
    None
}

/// The stem of the file name `name`.
pub fn stem(name: &str) -> (s: String)
    ensures
        s@ == stem_of(name@),
{
    let chars = chars_of(name);
    match find_last_dot(&chars) {
        Some(k) => {
            if k > 0 {
                name.substring_char(0, k).to_owned()
            } else {
                name.to_owned()
            }
        },
        None => name.to_owned(),
    }
}

/// The extension of the file name `name`, where it has one.
pub fn extension_in(name: &str) -> (e: Option<String>)
    ensures
        e is Some == extension_of(name@) is Some,
        e matches Some(x) ==> extension_of(name@) == Some(x@),
{
    let chars = chars_of(name);
    let len = chars.len();
    match find_last_dot(&chars) {
        Some(k) => {
            if k > 0 {
                Some(name.substring_char(k + 1, len).to_owned())
            } else {
                None
            }
        },
        None => None,
    }
}

/// The parent of `path`, or the error that names the path that has none.
pub fn parent(path: &str) -> (r: Result<String, Error>)
    ensures
        match r {
            Ok(p) => parent_of(path@) == Some(p@),
            Err(e) => parent_of(path@) is None && e.is_parent(path@),
        },
{
    match path_parent(path) {
        Some(p) => Ok(p),
        None => Err(Error::parent(path.to_owned())),
    }
}

/// The stem of the final component of `path`, or the error that names the path
/// that has no such component.
pub fn file_stem(path: &str) -> (r: Result<String, Error>)
    ensures
        match r {
            Ok(s) => file_name_of(path@) matches Some(n) && s@ == stem_of(n) && !n.contains('/'),
            Err(e) => file_name_of(path@) is None && e.is_no_file_name(path@),
        },
{
    match path_file_name(path) {
        Some(name) => Ok(stem(name.as_str())),
        None => Err(Error::filename(path.to_owned())),
    }
}

/// The extension of the final component of `path`, where it has both.
pub fn extension(path: &str) -> (e: Option<String>)
    ensures
        e is Some == (file_name_of(path@) matches Some(n) && extension_of(n) is Some),
        e matches Some(x) ==> extension_of(file_name_of(path@)->0) == Some(x@),
{
    match path_file_name(path) {
        Some(name) => extension_in(name.as_str()),
        None => None,
    }
}

/// The directory that has to exist before a file can be written at `path`:
/// its parent, where it has one.
pub fn prepare_parent(path: &str) -> (dir: Option<String>)
    ensures
        dir is Some == parent_of(path@) is Some,
        dir matches Some(d) ==> parent_of(path@) == Some(d@),
{
    path_parent(path)
}

/// Extends `base` by `rel`.
pub fn join(base: &str, rel: &str) -> (path: String)
    ensures
        path@ == joined(base@, rel@),
{
    let head = chars_of(rel);
    if head.len() > 0 && head[0] == '/' {
        return rel.to_owned();
    }
    let tail = chars_of(base);
    let mut path = base.to_owned();
    if tail.len() > 0 && tail[tail.len() - 1] != '/' {
        proof {
            reveal_strlit("/");
        }
        path.append("/");
        assert(path@ =~= base@ + seq!['/']);
    }
    path.append(rel);
    path
}

} // verus!
