use tftp_rs::path::{check_containment, path_starts_with, sanitize_path, Located, PathError, Target};

fn parts(list: &[&str]) -> Vec<String> {
    list.iter().map(|s| s.to_string()).collect()
}

#[test]
fn sanitize_simple_file() {
    let result = sanitize_path("hello.txt").unwrap();
    assert!(result.ends_with(&parts(&["hello.txt"])));
    assert_eq!(result, parts(&["hello.txt"]));
}

#[test]
fn sanitize_subdirectory() {
    let result = sanitize_path("sub/deep/file.cfg").unwrap();
    assert!(result.ends_with(&parts(&["sub", "deep", "file.cfg"])));
    assert_eq!(result.len(), 3);
}

#[test]
fn sanitize_rejects_dotdot() {
    assert!(sanitize_path("../etc/passwd").is_err());
    assert!(sanitize_path("sub/../../etc/passwd").is_err());
    assert_eq!(sanitize_path("../etc/passwd"), Err(PathError::Traversal));
    assert_eq!(sanitize_path("sub/../../etc/passwd"), Err(PathError::Traversal));
}

#[test]
fn sanitize_rejects_absolute() {
    assert!(sanitize_path("/etc/passwd").is_err());
    assert_eq!(sanitize_path("/etc/passwd"), Err(PathError::AbsolutePath));
}

#[test]
fn sanitize_normalizes_backslashes() {
    let result = sanitize_path("ios\\config.cfg").unwrap();
    assert!(result.ends_with(&parts(&["ios", "config.cfg"])));
    assert_eq!(result, parts(&["ios", "config.cfg"]));
}

#[test]
fn sanitize_nonexistent_path_within_dir() {
    // New file in a non-existent subdirectory (for WRQ).
    let result = sanitize_path("new_dir/file.bin").unwrap();
    assert!(result.ends_with(&parts(&["new_dir", "file.bin"])));
    let root = parts(&["/", "srv", "tftp"]);
    let located = Located::Missing { ancestor: root.clone() };
    assert_eq!(check_containment(Some(&root), &located), Ok(Target::Candidate));
}

#[test]
fn sanitize_rejects_empty() {
    assert!(sanitize_path("").is_err());
    assert!(sanitize_path(".").is_err());
    assert!(sanitize_path("..").is_err());
    assert_eq!(sanitize_path(""), Err(PathError::Invalid));
    assert_eq!(sanitize_path("."), Err(PathError::Invalid));
    assert_eq!(sanitize_path(".."), Err(PathError::Traversal));
}

#[test]
fn sanitize_error_precedence() {
    // A leading separator is refused before anything else is looked at.
    assert_eq!(sanitize_path("/.."), Err(PathError::AbsolutePath));
    assert_eq!(sanitize_path("\\..\\x"), Err(PathError::AbsolutePath));
    assert_eq!(sanitize_path("/"), Err(PathError::AbsolutePath));
    // `..` anywhere is refused, also where nothing else is left.
    assert_eq!(sanitize_path("./.."), Err(PathError::Traversal));
    assert_eq!(sanitize_path("a/b/.."), Err(PathError::Traversal));
    assert_eq!(sanitize_path("a\\..\\b"), Err(PathError::Traversal));
    assert_eq!(sanitize_path("././/."), Err(PathError::Invalid));
    assert_eq!(sanitize_path("./"), Err(PathError::Invalid));
}

#[test]
fn sanitize_drops_empty_and_dot_components() {
    assert_eq!(sanitize_path("a//b/./c/").unwrap(), parts(&["a", "b", "c"]));
    assert_eq!(sanitize_path("./a").unwrap(), parts(&["a"]));
    assert_eq!(sanitize_path("a\\\\b").unwrap(), parts(&["a", "b"]));
    // Only a component that is exactly `..` or `.` is special.
    assert_eq!(sanitize_path("...").unwrap(), parts(&["..."]));
    assert_eq!(sanitize_path("a..b/.c/d.").unwrap(), parts(&["a..b", ".c", "d."]));
    assert_eq!(sanitize_path("..a").unwrap(), parts(&["..a"]));
    assert_eq!(sanitize_path("f\u{e9}/\u{4e2d}").unwrap(), parts(&["f\u{e9}", "\u{4e2d}"]));
}

#[test]
fn accepted_components_hold_no_separator() {
    for name in ["a/b", "x\\y\\z", "./q/./r", "deep/er//still.txt", "sp ace/t\tab"] {
        let result = sanitize_path(name).unwrap();
        assert!(!result.is_empty());
        for part in result {
            assert!(!part.is_empty());
            assert!(part != "." && part != "..");
            assert!(!part.contains('/') && !part.contains('\\'));
        }
    }
}

#[test]
fn containment_of_an_existing_file() {
    let root = parts(&["/", "srv", "tftp"]);
    let inside = Located::Existing { canonical: parts(&["/", "srv", "tftp", "a", "b.txt"]) };
    assert_eq!(check_containment(Some(&root), &inside), Ok(Target::Canonical));
    // A symlink that leads out of the served directory.
    let outside = Located::Existing { canonical: parts(&["/", "etc", "passwd"]) };
    assert_eq!(check_containment(Some(&root), &outside), Err(PathError::Escape));
    // Components are compared whole: `tftp2` is not under `tftp`.
    let sibling = Located::Existing { canonical: parts(&["/", "srv", "tftp2", "x"]) };
    assert_eq!(check_containment(Some(&root), &sibling), Err(PathError::Escape));
    let itself = Located::Existing { canonical: root.clone() };
    assert_eq!(check_containment(Some(&root), &itself), Ok(Target::Canonical));
}

#[test]
fn containment_of_a_file_to_be_made() {
    let root = parts(&["/", "srv", "tftp"]);
    let inside = Located::Missing { ancestor: parts(&["/", "srv", "tftp", "incoming"]) };
    assert_eq!(check_containment(Some(&root), &inside), Ok(Target::Candidate));
    let above = Located::Missing { ancestor: parts(&["/", "srv"]) };
    assert_eq!(check_containment(Some(&root), &above), Err(PathError::Escape));
    assert_eq!(check_containment(Some(&root), &Located::Nowhere), Err(PathError::Escape));
}

#[test]
fn containment_needs_a_canonical_root() {
    let located = Located::Existing { canonical: parts(&["/", "srv", "tftp", "a"]) };
    assert_eq!(check_containment(None, &located), Err(PathError::Internal));
    assert_eq!(check_containment(None, &Located::Nowhere), Err(PathError::Internal));
}

#[test]
fn path_prefix_is_by_component() {
    assert!(path_starts_with(&parts(&["a", "b"]), &parts(&[])));
    assert!(path_starts_with(&parts(&["a", "b"]), &parts(&["a"])));
    assert!(path_starts_with(&parts(&["a", "b"]), &parts(&["a", "b"])));
    assert!(!path_starts_with(&parts(&["a", "b"]), &parts(&["a", "b", "c"])));
    assert!(!path_starts_with(&parts(&["ab"]), &parts(&["a"])));
    assert!(!path_starts_with(&parts(&["a", "b"]), &parts(&["b"])));
}

#[test]
fn path_error_messages() {
    assert_eq!(PathError::AbsolutePath.message(), "absolute paths are not allowed");
    assert_eq!(PathError::Traversal.message(), "path traversal is not allowed");
    assert_eq!(PathError::Invalid.message(), "invalid filename");
    assert_eq!(PathError::Internal.message(), "cannot canonicalize served directory");
    assert_eq!(PathError::Escape.message(), "path escapes served directory");
}

#[test]
fn traversal_request_opens_no_transfer() {
    // The filename of `RRQ("../etc/passwd")` is refused before any file is
    // looked at, so no DATA can leave the server.
    assert_eq!(sanitize_path("../etc/passwd"), Err(PathError::Traversal));
}
