use vstd::prelude::*;
use crate::fields::{is_first, lemma_split_at_first, lemma_split_free, split_on};
use crate::text::str_eq;

verus! {

/// Why a filename is refused.
#[derive(Debug, Clone, Copy, PartialEq, Eq, Structural)]
pub enum PathError {
    /// The filename begins with a separator.
    AbsolutePath,
    /// A component of the filename is `..`.
    Traversal,
    /// Nothing is left of the filename once it is cleaned.
    Invalid,
    /// The served directory cannot be canonicalized.
    Internal,
    /// The path does not lie under the served directory.
    Escape,
}

/// The filename with every `\` replaced by `/`.
pub open spec fn normalized(filename: Seq<char>) -> Seq<char> {
    Seq::new(
        filename.len(),
        |i: int|
            if filename[i] == '\\' {
                '/'
            } else {
                filename[i]
            },
    )
}

/// A component that is kept: not empty and not `.`.
pub open spec fn kept(part: Seq<char>) -> bool {
    part.len() > 0 && part != "."@
}

/// The components that are kept, in order.
pub open spec fn clean(parts: Seq<Seq<char>>) -> Seq<Seq<char>>
    decreases parts.len(),
{
    if parts.len() == 0 {
        Seq::empty()
    } else if kept(parts.last()) {
        clean(parts.drop_last()).push(parts.last())
    } else {
        clean(parts.drop_last())
    }
}

/// Some component is `..`.
pub open spec fn has_traversal(parts: Seq<Seq<char>>) -> bool {
    exists|i: int| 0 <= i < parts.len() && #[trigger] parts[i] == ".."@
}

/// The components of a filename under the served directory, or why the
/// filename is refused: `\` counts as `/`; a leading `/` is refused; so is
/// any component `..`; empty components and `.` are dropped, and a filename
/// of which nothing is left is refused.
pub open spec fn sanitized(filename: Seq<char>) -> Result<Seq<Seq<char>>, PathError> {
    let name = normalized(filename);
    let parts = split_on(name, '/');
    if name.len() > 0 && name[0] == '/' {
        Err(PathError::AbsolutePath)
    } else if has_traversal(parts) {
        Err(PathError::Traversal)
    } else if clean(parts).len() == 0 {
        Err(PathError::Invalid)
    } else {
        Ok(clean(parts))
    }
}

/// The texts that a list of strings holds.
pub open spec fn text_views(texts: Seq<String>) -> Seq<Seq<char>> {
    Seq::new(texts.len(), |i: int| texts[i]@)
}

/// The characters of a filename, with `/` for every `\`.
fn normalized_chars(filename: &str) -> (r: Vec<char>)
    ensures
        r@ == normalized(filename@),
{
    let mut out: Vec<char> = Vec::new();
    for c in it: filename.chars()
        invariant
            it.seq() == filename@,
            out@ == normalized(filename@).take(it.index() as int),
    {
        let d = if c == '\\' {
            '/'
        } else {
            c
        };
        assert(normalized(filename@).take(it.index() + 1) =~= normalized(filename@).take(
            it.index() as int,
        ).push(d));
        out.push(d);
    }
    assert(normalized(filename@).take(filename@.len() as int) =~= normalized(filename@));
    out
}

/// Ensure the requested filename stays inside the served directory: gives
/// the components of the path below it. Supports subdirectory paths
/// (e.g. `ios/config/router.cfg`) while rejecting any traversal attempt
/// (`..`) or absolute paths.
pub fn sanitize_path(filename: &str) -> (r: Result<Vec<String>, PathError>)
    ensures
        match r {
            Ok(parts) => sanitized(filename@) == Ok::<Seq<Seq<char>>, PathError>(
                text_views(parts@),
            ),
            Err(e) => sanitized(filename@) == Err::<Seq<Seq<char>>, PathError>(e),
        },
{
    let name = normalized_chars(filename);
    if name.len() > 0 && name[0] == '/' {
        return Err(PathError::AbsolutePath);
    }
    let mut cleaned: Vec<String> = Vec::new();
    let mut traversal = false;
    let mut current = String::new();
    let mut from: usize = 0;
    let mut i: usize = 0;
    let ghost mut done: Seq<Seq<char>> = Seq::empty();
    assert(name@.subrange(0, name@.len() as int) =~= name@);
    assert(text_views(cleaned@) =~= clean(done));
    while i < name.len()
        invariant
            from <= i <= name@.len(),
            forall|j: int| from <= j < i ==> name@[j] != '/',
            current@ == name@.subrange(from as int, i as int),
            split_on(name@, '/') == done + split_on(name@.subrange(from as int, name@.len() as int), '/'),
            text_views(cleaned@) == clean(done),
            traversal == has_traversal(done),
        decreases name@.len() - i,
    {
        let c = name[i];
        if c == '/' {
            proof {
                let tail = name@.subrange(from as int, name@.len() as int);
                assert(is_first(tail, '/', i - from));
                lemma_split_at_first(tail, '/', i - from);
                assert(tail.subrange(0, i - from) =~= current@);
                assert(tail.subrange(i - from + 1, tail.len() as int) =~= name@.subrange(
                    i + 1,
                    name@.len() as int,
                ));
            }
            let ghost before = done;
            proof {
                done = done.push(current@);
                assert(done.drop_last() =~= before);
                lemma_traversal_push(before, current@);
            }
            if str_eq(current.as_str(), "..") {
                traversal = true;
            }
            if !current.as_str().is_empty() && !str_eq(current.as_str(), ".") {
                proof {
                    assert(text_views(cleaned@.push(current)) =~= text_views(cleaned@).push(
                        current@,
                    ));
                }
                cleaned.push(current);
            }
            current = String::new();
            from = i + 1;
            assert(name@.subrange(from as int, from as int) =~= Seq::<char>::empty());
        } else {
            assert(name@.subrange(from as int, i + 1) =~= name@.subrange(from as int, i as int).push(
                c,
            ));
            current.push(c);
        }
        i += 1;
    }
    proof {
        let tail = name@.subrange(from as int, name@.len() as int);
        lemma_split_free(tail, '/');
        let before = done;
        done = done.push(current@);
        assert(done.drop_last() =~= before);
        lemma_traversal_push(before, current@);
        assert(split_on(name@, '/') =~= done);
    }
    if str_eq(current.as_str(), "..") {
        traversal = true;
    }
    if !current.as_str().is_empty() && !str_eq(current.as_str(), ".") {
        proof {
            assert(text_views(cleaned@.push(current)) =~= text_views(cleaned@).push(current@));
        }
        cleaned.push(current);
    }
    if traversal {
        Err(PathError::Traversal)
    } else if cleaned.len() == 0 {
        Err(PathError::Invalid)
    } else {
        Ok(cleaned)
    }
}

proof fn lemma_traversal_push(parts: Seq<Seq<char>>, part: Seq<char>)
    ensures
        has_traversal(parts.push(part)) == (has_traversal(parts) || part == ".."@),
{
    let all = parts.push(part);
    if has_traversal(parts) {
        let i = choose|i: int| 0 <= i < parts.len() && #[trigger] parts[i] == ".."@;
        assert(all[i] == ".."@);
    }
    if part == ".."@ {
        assert(all[parts.len() as int] == ".."@);
    }
    if has_traversal(all) {
        let i = choose|i: int| 0 <= i < all.len() && #[trigger] all[i] == ".."@;
        if i < parts.len() {
            assert(parts[i] == ".."@);
        }
    }
}

/// Each kept component is one of the components, and kept.
proof fn lemma_clean_members(parts: Seq<Seq<char>>, k: int)
    requires
        0 <= k < clean(parts).len(),
    ensures
        kept(clean(parts)[k]),
        exists|i: int| 0 <= i < parts.len() && #[trigger] parts[i] == clean(parts)[k],
    decreases parts.len(),
{
    if parts.len() > 0 {
        let front = parts.drop_last();
        if kept(parts.last()) && k == clean(front).len() {
            assert(parts[parts.len() - 1] == clean(parts)[k]);
        } else {
            lemma_clean_members(front, k);
            let i = choose|i: int| 0 <= i < front.len() && #[trigger] front[i] == clean(front)[k];
            assert(parts[i] == clean(parts)[k]);
        }
    }
}

/// A filename that is accepted names a path below the served directory:
/// there is at least one component, and each component is not empty, is
/// neither `.` nor `..`, and holds no separator.
pub proof fn lemma_sanitized_components(filename: Seq<char>)
    requires
        sanitized(filename) is Ok,
    ensures
        sanitized(filename)->Ok_0.len() > 0,
        forall|k: int|
            0 <= k < sanitized(filename)->Ok_0.len() ==> {
                let part = #[trigger] sanitized(filename)->Ok_0[k];
                &&& part.len() > 0
                &&& part != "."@
                &&& part != ".."@
                &&& forall|j: int| 0 <= j < part.len() ==> part[j] != '/' && part[j] != '\\'
            },
{
    let name = normalized(filename);
    let parts = split_on(name, '/');
    let cleaned = clean(parts);
    crate::fields::lemma_split_parts_free(name, '/');
    lemma_parts_free_of(name, '\\', '/');
    assert forall|k: int| 0 <= k < cleaned.len() implies {
        let part = #[trigger] cleaned[k];
        &&& part.len() > 0
        &&& part != "."@
        &&& part != ".."@
        &&& forall|j: int| 0 <= j < part.len() ==> part[j] != '/' && part[j] != '\\'
    } by {
        lemma_clean_members(parts, k);
        let i = choose|i: int| 0 <= i < parts.len() && #[trigger] parts[i] == cleaned[k];
        assert(crate::fields::free_of(parts[i], '/'));
        assert(crate::fields::free_of(parts[i], '\\'));
    }
}

/// A value that does not occur in a sequence occurs in none of its parts.
proof fn lemma_parts_free_of(s: Seq<char>, c: char, sep: char)
    requires
        crate::fields::free_of(s, c),
    ensures
        forall|k: int|
            0 <= k < split_on(s, sep).len() ==> crate::fields::free_of(
                #[trigger] split_on(s, sep)[k],
                c,
            ),
    decreases s.len(),
{
    if exists|i: int| is_first(s, sep, i) {
        let i = choose|i: int| is_first(s, sep, i);
        let rest = s.subrange(i + 1, s.len() as int);
        let head = s.subrange(0, i);
        assert(crate::fields::free_of(rest, c)) by {
            assert forall|j: int| 0 <= j < rest.len() implies rest[j] != c by {
                assert(rest[j] == s[i + 1 + j]);
            }
        }
        assert(crate::fields::free_of(head, c)) by {
            assert forall|j: int| 0 <= j < head.len() implies head[j] != c by {
                assert(head[j] == s[j]);
            }
        }
        lemma_parts_free_of(rest, c, sep);
        let parts = split_on(s, sep);
        assert forall|k: int| 0 <= k < parts.len() implies crate::fields::free_of(
            #[trigger] parts[k],
            c,
        ) by {
            if k > 0 {
                assert(parts[k] == split_on(rest, sep)[k - 1]);
            }
        }
    }
}

/// What the file system says of the candidate path, the cleaned filename
/// joined onto the served directory.
pub enum Located {
    /// The candidate exists; these are the components of its canonical form.
    Existing { canonical: Vec<String> },
    /// The candidate does not exist; these are the components of the
    /// canonical form of its deepest ancestor that exists.
    Missing { ancestor: Vec<String> },
    /// Neither the candidate nor any ancestor of it exists.
    Nowhere,
}

/// The path that a transfer works on.
#[derive(Debug, Clone, Copy, PartialEq, Eq, Structural)]
pub enum Target {
    /// The canonical form of the candidate: a file that exists.
    Canonical,
    /// The candidate as it was joined: a file that is yet to be made.
    Candidate,
}

/// Whether a path lies under a directory: its components begin with those
/// of the directory.
pub open spec fn lies_under(path: Seq<Seq<char>>, dir: Seq<Seq<char>>) -> bool {
    dir.is_prefix_of(path)
}

/// The path to work on, or `Escape` where the candidate is not contained in
/// the served directory: a candidate that exists must lie under it in
/// canonical form, one that does not exist must have its deepest existing
/// ancestor there. `Internal` where the served directory has no canonical
/// form.
pub open spec fn contained(root: Option<Seq<Seq<char>>>, located: Located) -> Result<Target, PathError> {
    match root {
        None => Err(PathError::Internal),
        Some(dir) => match located {
            Located::Existing { canonical } => if lies_under(text_views(canonical@), dir) {
                Ok(Target::Canonical)
            } else {
                Err(PathError::Escape)
            },
            Located::Missing { ancestor } => if lies_under(text_views(ancestor@), dir) {
                Ok(Target::Candidate)
            } else {
                Err(PathError::Escape)
            },
            Located::Nowhere => Err(PathError::Escape),
        },
    }
}

/// A candidate is worked on only where it is contained: where a target is
/// given, the canonical form of the candidate, or of its deepest ancestor
/// that exists where the candidate does not, begins with the canonical form
/// of the served directory.
pub proof fn lemma_contained_lies_under(root: Option<Seq<Seq<char>>>, located: Located)
    requires
        contained(root, located) is Ok,
    ensures
        root is Some,
        match located {
            Located::Existing { canonical } => contained(root, located) == Ok::<Target, PathError>(
                Target::Canonical,
            ) && lies_under(text_views(canonical@), root->0),
            Located::Missing { ancestor } => contained(root, located) == Ok::<Target, PathError>(
                Target::Candidate,
            ) && lies_under(text_views(ancestor@), root->0),
            Located::Nowhere => false,
        },
{
}

/// Whether a path lies under a directory, both given by their components.
pub fn path_starts_with(path: &Vec<String>, dir: &Vec<String>) -> (b: bool)
    ensures
        b == lies_under(text_views(path@), text_views(dir@)),
{
    if dir.len() > path.len() {
        return false;
    }
    let mut i: usize = 0;
    while i < dir.len()
        invariant
            i <= dir@.len() <= path@.len(),
            forall|j: int| 0 <= j < i ==> path@[j]@ == dir@[j]@,
        decreases dir@.len() - i,
    {
        if !str_eq(path[i].as_str(), dir[i].as_str()) {
            assert(text_views(path@)[i as int] != text_views(dir@)[i as int]);
            return false;
        }
        i += 1;
    }
    assert(text_views(path@).subrange(0, dir@.len() as int) =~= text_views(dir@));
    true
}

/// Decides on the candidate path from what the file system says of it.
/// `root` holds the components of the served directory in canonical form,
/// or nothing where it has none.
pub fn check_containment(root: Option<&Vec<String>>, located: &Located) -> (r: Result<
    Target,
    PathError,
>)
    ensures
        r == contained(
            match root {
                Some(dir) => Some(text_views(dir@)),
                None => None,
            },
            *located,
        ),
{
    match root {
        None => Err(PathError::Internal),
        Some(dir) => match located {
            Located::Existing { canonical } => {
                if path_starts_with(canonical, dir) {
                    Ok(Target::Canonical)
                } else {
                    Err(PathError::Escape)
                }
            },
            Located::Missing { ancestor } => {
                if path_starts_with(ancestor, dir) {
                    Ok(Target::Candidate)
                } else {
                    Err(PathError::Escape)
                }
            },
            Located::Nowhere => Err(PathError::Escape),
        },
    }
}

impl PathError {
    /// The refusal in words.
    pub fn message(&self) -> (r: String)
        ensures
            r@ == path_error_text(*self),
    {
        match self {
            PathError::AbsolutePath => "absolute paths are not allowed".to_owned(),
            PathError::Traversal => "path traversal is not allowed".to_owned(),
            PathError::Invalid => "invalid filename".to_owned(),
            PathError::Internal => "cannot canonicalize served directory".to_owned(),
            PathError::Escape => "path escapes served directory".to_owned(),
        }
    }
}

/// A refusal in words.
pub open spec fn path_error_text(e: PathError) -> Seq<char> {
    match e {
        PathError::AbsolutePath => "absolute paths are not allowed"@,
        PathError::Traversal => "path traversal is not allowed"@,
        PathError::Invalid => "invalid filename"@,
        PathError::Internal => "cannot canonicalize served directory"@,
        PathError::Escape => "path escapes served directory"@,
    }
}

} // verus!
