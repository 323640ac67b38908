use wasi_vfs::path::bytes_eq;
use wasi_vfs::path::components;
use wasi_vfs::path::file_name;
use wasi_vfs::path::is_cur;
use wasi_vfs::path::is_parent;
use wasi_vfs::path::is_root;
use wasi_vfs::path::join;
use wasi_vfs::path::join_range;
use wasi_vfs::path::parent;
use wasi_vfs::path::push;
use wasi_vfs::path::strip_prefix;

fn names(list: &[&[u8]]) -> Vec<Vec<u8>> {
    list.iter().map(|n| n.to_vec()).collect()
}

#[test]
fn components_of_an_absolute_path() {
    assert_eq!(components(b"/a/b"), names(&[b"/", b"a", b"b"]));
    assert_eq!(components(b"/"), names(&[b"/"]));
}

#[test]
fn components_drop_empty_segments_and_inner_dots() {
    assert_eq!(components(b"a//b/./c/"), names(&[b"a", b"b", b"c"]));
    assert_eq!(components(b"/./a"), names(&[b"/", b"a"]));
    assert_eq!(components(b""), Vec::<Vec<u8>>::new());
}

#[test]
fn components_keep_a_leading_dot_and_parents() {
    assert_eq!(components(b"./a"), names(&[b".", b"a"]));
    assert_eq!(components(b"."), names(&[b"."]));
    assert_eq!(components(b"a/../b"), names(&[b"a", b"..", b"b"]));
    assert_eq!(components(b".."), names(&[b".."]));
}

#[test]
fn parent_of_paths() {
    assert_eq!(parent(b"/path/to/file.txt"), Some(b"/path/to".to_vec()));
    assert_eq!(parent(b"/a"), Some(b"/".to_vec()));
    assert_eq!(parent(b"a"), Some(b"".to_vec()));
    assert_eq!(parent(b"/"), None);
    assert_eq!(parent(b""), None);
    assert_eq!(parent(b"/path/to/"), Some(b"/path".to_vec()));
}

#[test]
fn file_name_of_paths() {
    assert_eq!(file_name(b"/a/b.txt"), Some(b"b.txt".to_vec()));
    assert_eq!(file_name(b"dir/"), Some(b"dir".to_vec()));
    assert_eq!(file_name(b"/a/.."), None);
    assert_eq!(file_name(b"/"), None);
    assert_eq!(file_name(b""), None);
}

#[test]
fn strip_prefix_goes_by_components() {
    assert_eq!(strip_prefix(b"/a/b/c", b"/a"), Some(b"b/c".to_vec()));
    assert_eq!(strip_prefix(b"/a", b"/a"), Some(b"".to_vec()));
    assert_eq!(strip_prefix(b"/ab/c", b"/a"), None);
    assert_eq!(strip_prefix(b"/a/b", b"/x"), None);
    assert_eq!(strip_prefix(b"a", b"/"), None);
    assert_eq!(strip_prefix(b"/a//b", b"/a/"), Some(b"b".to_vec()));
}

#[test]
fn push_appends_or_replaces() {
    assert_eq!(join(b"/a", b"b"), b"/a/b".to_vec());
    assert_eq!(join(b"/a/", b"b"), b"/a/b".to_vec());
    assert_eq!(join(b"/a", b"/b"), b"/b".to_vec());
    assert_eq!(join(b"", b"b"), b"b".to_vec());
    assert_eq!(join(b"a", b""), b"a/".to_vec());
    let mut p = b"x".to_vec();
    push(&mut p, b"y");
    push(&mut p, b"z");
    assert_eq!(p, b"x/y/z".to_vec());
}

#[test]
fn join_range_pushes_the_components_in_order() {
    let c = components(b"/a/b/c");
    assert_eq!(join_range(&c, 0, 4), b"/a/b/c".to_vec());
    assert_eq!(join_range(&c, 1, 3), b"a/b".to_vec());
    assert_eq!(join_range(&c, 2, 2), b"".to_vec());
}

#[test]
fn special_names() {
    assert!(is_cur(b"."));
    assert!(!is_cur(b".."));
    assert!(is_parent(b".."));
    assert!(!is_parent(b"."));
    assert!(is_root(b"/"));
    assert!(!is_root(b"//"));
    assert!(bytes_eq(b"abc", b"abc"));
    assert!(!bytes_eq(b"abc", b"abd"));
    assert!(!bytes_eq(b"abc", b"ab"));
}
