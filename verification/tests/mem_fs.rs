use wasi_vfs::errors::FsError;
use wasi_vfs::mem_fs::MemFileSystem;
use wasi_vfs::vfs::create_dir_all;
use wasi_vfs::vfs::is_dir;
use wasi_vfs::vfs::is_file;
use wasi_vfs::vfs::path_exists;
use wasi_vfs::vfs::touch;
use wasi_vfs::vfs::FileSystem;
use wasi_vfs::vfs::FileType;
use wasi_vfs::vfs::OpenOptionsConfig;
use wasi_vfs::vfs::VirtualFile;

#[test]
fn the_root_is_a_directory() {
    let fs = MemFileSystem::new();
    let md = fs.metadata(b"/").unwrap();
    assert!(md.is_dir());
    assert!(!md.is_file());
    assert_eq!(md.file_type(), FileType::Dir);
    assert_eq!(md.len, 0);
}

#[test]
fn create_dir_then_remove_dir_round_trip() {
    let mut fs = MemFileSystem::new();
    assert_eq!(fs.create_dir(b"/p"), Ok(()));
    assert!(fs.metadata(b"/p").unwrap().is_dir());
    assert_eq!(fs.remove_dir(b"/p"), Ok(()));
    assert_eq!(fs.metadata(b"/p"), Err(FsError::EntryNotFound));
}

#[test]
fn create_dir_errors() {
    let mut fs = MemFileSystem::new();
    assert_eq!(fs.create_dir(b"/"), Err(FsError::AlreadyExists));
    assert_eq!(fs.create_dir(b"/a/b"), Err(FsError::EntryNotFound));
    fs.create_dir(b"/a").unwrap();
    assert_eq!(fs.create_dir(b"/a"), Err(FsError::AlreadyExists));
    fs.write_file(b"/a/f.txt", b"x").unwrap();
    assert_eq!(fs.create_dir(b"/a/f.txt/d"), Err(FsError::BaseNotDirectory));
}

#[test]
fn remove_dir_errors() {
    let mut fs = MemFileSystem::new();
    assert_eq!(fs.remove_dir(b"/"), Err(FsError::PermissionDenied));
    assert_eq!(fs.remove_dir(b"/nope"), Err(FsError::EntryNotFound));
    fs.create_dir(b"/a").unwrap();
    fs.write_file(b"/a/f.txt", b"x").unwrap();
    assert_eq!(fs.remove_dir(b"/a"), Err(FsError::DirectoryNotEmpty));
    assert_eq!(fs.remove_dir(b"/a/f.txt"), Err(FsError::BaseNotDirectory));
}

#[test]
fn remove_file_and_its_errors() {
    let mut fs = MemFileSystem::new();
    fs.create_dir(b"/a").unwrap();
    fs.write_file(b"/a/f.txt", b"x").unwrap();
    assert_eq!(fs.remove_file(b"/a"), Err(FsError::NotAFile));
    assert_eq!(fs.remove_file(b"/a/g.txt"), Err(FsError::EntryNotFound));
    assert_eq!(fs.remove_file(b"/"), Err(FsError::NotAFile));
    assert_eq!(fs.remove_file(b"/a/f.txt"), Ok(()));
    assert!(!path_exists(&fs, b"/a/f.txt"));
}

#[test]
fn write_file_then_open_gives_the_bytes() {
    let mut fs = MemFileSystem::new();
    fs.write_file(b"/f.txt", b"hello").unwrap();
    let conf = OpenOptionsConfig::new().read(true);
    let mut file = fs.open(b"/f.txt", &conf).unwrap();
    assert_eq!(file.size(), 5);
    let mut buf = vec![0u8; 3];
    assert_eq!(file.read(&mut buf), 3);
    assert_eq!(buf, b"hel".to_vec());
    assert_eq!(file.read(&mut buf), 2);
    assert_eq!(buf, b"lol".to_vec());
    assert_eq!(file.read(&mut buf), 0);
    assert_eq!(fs.metadata(b"/f.txt").unwrap().len, 5);
    assert_eq!(fs.write_file(b"/", b"x"), Err(FsError::NotAFile));
    assert_eq!(fs.write_file(b"/no/f", b"x"), Err(FsError::EntryNotFound));
}

#[test]
fn open_options_decide() {
    let mut fs = MemFileSystem::new();
    let read = OpenOptionsConfig::new().read(true);
    assert_eq!(fs.open(b"/f.txt", &read), Err(FsError::EntryNotFound));
    let create = OpenOptionsConfig::new().create(true).write(true);
    assert_eq!(fs.open(b"/f.txt", &create).unwrap().data, Vec::<u8>::new());
    assert!(is_file(&fs, b"/f.txt"));
    let create_new = OpenOptionsConfig::new().create_new(true).write(true);
    assert_eq!(fs.open(b"/f.txt", &create_new), Err(FsError::AlreadyExists));
    assert_eq!(fs.open(b"/", &read), Err(FsError::NotAFile));
    assert_eq!(fs.open(b"/d/f.txt", &create), Err(FsError::EntryNotFound));
    fs.write_file(b"/f.txt", b"abc").unwrap();
    let append = OpenOptionsConfig::new().append(true);
    assert_eq!(fs.open(b"/f.txt", &append).unwrap().cursor, 3);
    let truncate = OpenOptionsConfig::new().write(true).truncate(true);
    assert_eq!(fs.open(b"/f.txt", &truncate).unwrap().data, Vec::<u8>::new());
    assert_eq!(fs.metadata(b"/f.txt").unwrap().len, 0);
}

#[test]
fn rename_moves_an_entry() {
    let mut fs = MemFileSystem::new();
    fs.create_dir(b"/a").unwrap();
    fs.create_dir(b"/b").unwrap();
    fs.write_file(b"/a/f.txt", b"x").unwrap();
    assert_eq!(fs.rename(b"/a/f.txt", b"/b/g.txt"), Ok(()));
    assert!(!path_exists(&fs, b"/a/f.txt"));
    assert!(is_file(&fs, b"/b/g.txt"));
    assert_eq!(fs.rename(b"/nope", b"/x"), Err(FsError::EntryNotFound));
    assert_eq!(fs.rename(b"/a", b"/b"), Err(FsError::PermissionDenied));
    assert_eq!(fs.rename(b"/b", b"/c"), Err(FsError::PermissionDenied));
    assert_eq!(fs.rename(b"/a", b"/a/inner"), Err(FsError::PermissionDenied));
    assert_eq!(fs.rename(b"/a", b"/nope/a"), Err(FsError::EntryNotFound));
    assert_eq!(fs.rename(b"/a", b"/c"), Ok(()));
    assert!(is_dir(&fs, b"/c"));
}

#[test]
fn read_dir_lists_the_children_in_order() {
    let mut fs = MemFileSystem::new();
    fs.create_dir(b"/d").unwrap();
    fs.write_file(b"/d/z.txt", b"1").unwrap();
    fs.write_file(b"/d/a.txt", b"22").unwrap();
    fs.create_dir(b"/d/sub").unwrap();
    fs.write_file(b"/d/sub/deep.txt", b"").unwrap();
    let listing = fs.read_dir(b"/d").unwrap();
    let paths: Vec<Vec<u8>> = listing.iter().map(|e| e.path.clone()).collect();
    assert_eq!(paths, vec![b"/d/z.txt".to_vec(), b"/d/a.txt".to_vec(), b"/d/sub".to_vec()]);
    assert_eq!(listing[1].metadata.len, 2);
    assert!(listing[2].metadata.is_dir());
    assert_eq!(fs.read_dir(b"/nope").map(|l| l.len()), Err(FsError::EntryNotFound));
    assert_eq!(fs.read_dir(b"/d/z.txt").map(|l| l.len()), Err(FsError::BaseNotDirectory));
    assert_eq!(fs.read_dir(b"/").unwrap().len(), 1);
}

#[test]
fn links_are_reported_and_followed() {
    let mut fs = MemFileSystem::new();
    fs.create_dir(b"/d").unwrap();
    fs.write_file(b"/d/f.txt", b"abc").unwrap();
    assert_eq!(fs.symlink(b"/d/l", b"f.txt"), Ok(()));
    assert_eq!(fs.symlink(b"/d/l", b"f.txt"), Err(FsError::AlreadyExists));
    assert_eq!(fs.symlink(b"/q/l", b"f.txt"), Err(FsError::EntryNotFound));
    assert_eq!(fs.symlink_metadata(b"/d/l").unwrap().ft, FileType::Symlink);
    assert_eq!(fs.read_link(b"/d/l"), Ok(b"f.txt".to_vec()));
    assert_eq!(fs.read_link(b"/d/f.txt"), Err(FsError::InvalidInput));
    assert_eq!(fs.read_link(b"/d/none"), Err(FsError::EntryNotFound));
    let md = fs.metadata(b"/d/l").unwrap();
    assert_eq!(md.ft, FileType::File);
    assert_eq!(md.len, 3);
    fs.symlink(b"/d/abs", b"/d").unwrap();
    assert!(fs.metadata(b"/d/abs").unwrap().is_dir());
    fs.symlink(b"/d/x", b"y").unwrap();
    fs.symlink(b"/d/y", b"x").unwrap();
    assert_eq!(fs.metadata(b"/d/x"), Err(FsError::EntryNotFound));
}

#[test]
fn paths_are_normalised() {
    let mut fs = MemFileSystem::new();
    fs.create_dir(b"/a").unwrap();
    fs.create_dir(b"/a/b").unwrap();
    assert!(is_dir(&fs, b"/a/b/"));
    assert!(is_dir(&fs, b"/a/./b"));
    assert!(is_dir(&fs, b"/a/b/../b"));
    assert!(is_dir(&fs, b"a/b"));
    assert!(is_dir(&fs, b"/a/b/../.."));
}

#[test]
fn create_dir_all_makes_every_directory() {
    let mut fs = MemFileSystem::new();
    assert_eq!(create_dir_all(&mut fs, b"/x/y/z"), Ok(()));
    assert!(is_dir(&fs, b"/x"));
    assert!(is_dir(&fs, b"/x/y"));
    assert!(is_dir(&fs, b"/x/y/z"));
    assert_eq!(create_dir_all(&mut fs, b"/x/y"), Ok(()));
    fs.write_file(b"/x/f", b"").unwrap();
    assert_eq!(create_dir_all(&mut fs, b"/x/f/g"), Err(FsError::BaseNotDirectory));
}

#[test]
fn touch_makes_an_empty_file_once() {
    let mut fs = MemFileSystem::new();
    assert_eq!(touch(&mut fs, b"/t.txt"), Ok(()));
    assert!(is_file(&fs, b"/t.txt"));
    fs.write_file(b"/t.txt", b"kept").unwrap();
    assert_eq!(touch(&mut fs, b"/t.txt"), Ok(()));
    assert_eq!(fs.metadata(b"/t.txt").unwrap().len, 4);
    assert_eq!(touch(&mut fs, b"/no/t.txt"), Err(FsError::EntryNotFound));
}

#[test]
fn virtual_file_reads_writes_and_seeks() {
    let mut f = VirtualFile::new(b"hello".to_vec(), 1, 2, 3);
    assert_eq!(f.last_accessed(), 1);
    assert_eq!(f.last_modified(), 2);
    assert_eq!(f.created_time(), 3);
    assert_eq!(f.bytes_available_read(), Some(5));
    assert_eq!(f.seek(3), 3);
    assert_eq!(f.bytes_available_read(), Some(2));
    assert_eq!(f.write(b"LOWORLD"), 7);
    assert_eq!(f.data, b"helLOWORLD".to_vec());
    assert_eq!(f.cursor, 10);
    f.seek(0);
    let mut buf = vec![0u8; 4];
    assert_eq!(f.read(&mut buf), 4);
    assert_eq!(buf, b"helL".to_vec());
    assert_eq!(f.set_len(2), Ok(()));
    assert_eq!(f.data, b"he".to_vec());
    assert_eq!(f.set_len(4), Ok(()));
    assert_eq!(f.data, vec![b'h', b'e', 0, 0]);
    assert_eq!(f.unlink(), Ok(()));
    f.seek(9);
    assert_eq!(f.bytes_available_read(), Some(0));
    assert_eq!(f.read(&mut buf), 0);
}

#[test]
fn writing_behind_the_end_fills_the_gap_with_zeros() {
    let mut f = VirtualFile::new(b"ab".to_vec(), 0, 0, 0);
    f.seek(4);
    assert_eq!(f.write(b"Z"), 1);
    assert_eq!(f.data, vec![b'a', b'b', 0, 0, b'Z']);
    assert_eq!(f.cursor, 5);
    assert_eq!(f.size(), 5);
    f.seek(9);
    assert_eq!(f.write(b""), 0);
    assert_eq!(f.data.len(), 9);
}
