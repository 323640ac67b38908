use wasi_vfs::errors::FsError;
use wasi_vfs::mem_fs::MemFileSystem;
use wasi_vfs::overlay_fs::opening_would_require_mutations;
use wasi_vfs::overlay_fs::OverlayFileSystem;
use wasi_vfs::vfs::create_dir_all;
use wasi_vfs::vfs::DirEntry;
use wasi_vfs::vfs::is_dir;
use wasi_vfs::vfs::is_file;
use wasi_vfs::vfs::path_exists;
use wasi_vfs::vfs::touch;
use wasi_vfs::vfs::FileSystem;
use wasi_vfs::vfs::OpenOptionsConfig;

trait Store {
    fn list(&self, path: &[u8]) -> Result<Vec<DirEntry>, FsError>;
    fn make_dir(&mut self, path: &[u8]) -> Result<(), FsError>;
}

impl<F: FileSystem> Store for F {
    fn list(&self, path: &[u8]) -> Result<Vec<DirEntry>, FsError> {
        self.read_dir(path)
    }

    fn make_dir(&mut self, path: &[u8]) -> Result<(), FsError> {
        self.create_dir(path)
    }
}

fn takes_file_system<F: FileSystem + Send + Sync + 'static>(fs: F) -> Box<F> {
    Box::new(fs)
}

fn box_with_memfs(
    fs: OverlayFileSystem<MemFileSystem, MemFileSystem>,
) -> Box<dyn Store + Send + Sync + 'static> {
    Box::new(fs)
}

fn arc<A, S>(fs: OverlayFileSystem<A, S>) -> std::sync::Arc<dyn Store + 'static>
where
    A: FileSystem + 'static,
    S: FileSystem + Send + Sync + std::fmt::Debug + 'static,
{
    std::sync::Arc::new(fs)
}

fn read_all<F: FileSystem>(fs: &mut F, path: &[u8]) -> Result<Vec<u8>, FsError> {
    let conf = OpenOptionsConfig::new().read(true);
    fs.open(path, &conf).map(|f| f.data)
}

fn walk<F: FileSystem>(fs: &F, from: &[u8]) -> Vec<Vec<u8>> {
    let mut out = Vec::new();
    let mut stack = fs.read_dir(from).unwrap();
    while let Some(entry) = stack.pop() {
        if entry.metadata.is_dir() {
            stack.extend(fs.read_dir(&entry.path).unwrap());
        }
        out.push(entry.path);
    }
    out
}

#[test]
fn object_safe() {
    let fs: OverlayFileSystem<MemFileSystem, MemFileSystem> =
        OverlayFileSystem::new(MemFileSystem::new(), vec![MemFileSystem::new()]);
    let boxed = takes_file_system(fs);
    let shared = std::sync::Arc::new(*boxed);
    assert_eq!(shared.secondaries().len(), 1);

    let mut behind = box_with_memfs(OverlayFileSystem::new(MemFileSystem::new(), vec![MemFileSystem::new()]));
    assert_eq!(behind.make_dir(b"/d"), Ok(()));
    assert_eq!(behind.list(b"/").unwrap().len(), 1);
    let held = arc(OverlayFileSystem::new(MemFileSystem::new(), vec![MemFileSystem::new()]));
    assert_eq!(held.list(b"/"), Ok(Vec::new()));
}

#[test]
fn create_file_that_looks_like_it_is_in_a_secondary_filesystem_folder() {
    let primary = MemFileSystem::new();
    let mut secondary = MemFileSystem::new();
    create_dir_all(&mut secondary, b"/path/to/").unwrap();
    assert!(!is_dir(&primary, b"/path/to/"));
    let mut fs = OverlayFileSystem::new(primary, vec![secondary]);

    touch(&mut fs, b"/path/to/file.txt").unwrap();

    assert!(is_dir(fs.primary(), b"/path/to/"));
    assert!(is_file(fs.primary(), b"/path/to/file.txt"));
    assert!(!is_file(&fs.secondaries()[0], b"/path/to/file.txt"));
}

#[test]
fn remove_directory() {
    let mut primary = MemFileSystem::new();
    let mut secondary = MemFileSystem::new();
    let first = b"/first";
    let second = b"/second";
    let third = b"/third";
    primary.create_dir(first).unwrap();
    primary.create_dir(second).unwrap();
    primary.write_file(b"/second/file.txt", b"Hello, World!").unwrap();
    secondary.create_dir(third).unwrap();

    let mut overlay = OverlayFileSystem::new(primary, vec![secondary]);

    overlay.remove_dir(first).unwrap();
    assert_eq!(
        overlay.primary().metadata(first).unwrap_err(),
        FsError::EntryNotFound,
        "Deleted from primary"
    );
    assert!(!path_exists(&overlay.secondaries()[0], second));

    assert_eq!(overlay.remove_dir(second).unwrap_err(), FsError::DirectoryNotEmpty);

    assert_eq!(overlay.remove_dir(third).unwrap_err(), FsError::PermissionDenied);
    assert!(path_exists(&overlay.secondaries()[0], third));
}

#[test]
fn open_files() {
    let mut primary = MemFileSystem::new();
    let mut secondary = MemFileSystem::new();
    create_dir_all(&mut primary, b"/primary").unwrap();
    touch(&mut primary, b"/primary/read.txt").unwrap();
    touch(&mut primary, b"/primary/write.txt").unwrap();
    create_dir_all(&mut secondary, b"/secondary").unwrap();
    touch(&mut secondary, b"/secondary/read.txt").unwrap();
    touch(&mut secondary, b"/secondary/write.txt").unwrap();
    create_dir_all(&mut secondary, b"/primary").unwrap();
    secondary.write_file(b"/primary/read.txt", b"This is shadowed").unwrap();

    let mut fs = OverlayFileSystem::new(primary, vec![secondary]);

    let conf = fs.new_open_options().create(true).write(true);
    let _ = fs.open(b"/new.txt", &conf).unwrap();
    assert!(path_exists(fs.primary(), b"/new.txt"));
    assert!(!path_exists(&fs.secondaries()[0], b"/new.txt"));

    let conf = fs.new_open_options().create(false).write(true).read(true);
    let _ = fs.open(b"/primary/write.txt", &conf).unwrap();

    let content = read_all(&mut fs, b"/primary/read.txt").unwrap();
    assert_ne!(content, b"This is shadowed".to_vec());
    assert_eq!(content, Vec::<u8>::new());
}

#[test]
fn listed_files_appear_overlayed() {
    let mut primary = MemFileSystem::new();
    let mut secondary = MemFileSystem::new();
    let mut secondary_overlayed = MemFileSystem::new();
    create_dir_all(&mut primary, b"/primary").unwrap();
    touch(&mut primary, b"/primary/read.txt").unwrap();
    touch(&mut primary, b"/primary/write.txt").unwrap();
    create_dir_all(&mut secondary, b"/secondary").unwrap();
    touch(&mut secondary, b"/secondary/read.txt").unwrap();
    touch(&mut secondary, b"/secondary/write.txt").unwrap();
    create_dir_all(&mut secondary_overlayed, b"/secondary").unwrap();
    touch(&mut secondary_overlayed, b"/secondary/overlayed.txt").unwrap();

    let fs = OverlayFileSystem::new(primary, vec![secondary, secondary_overlayed]);

    let paths = walk(&fs, b"/");
    assert_eq!(
        paths,
        vec![
            b"/secondary".to_vec(),
            b"/secondary/write.txt".to_vec(),
            b"/secondary/read.txt".to_vec(),
            b"/secondary/overlayed.txt".to_vec(),
            b"/primary".to_vec(),
            b"/primary/write.txt".to_vec(),
            b"/primary/read.txt".to_vec(),
        ]
    );
}

#[test]
fn merged_listing_is_sorted_and_keeps_the_earlier_entry() {
    let mut primary = MemFileSystem::new();
    let mut secondary = MemFileSystem::new();
    primary.create_dir(b"/d").unwrap();
    secondary.create_dir(b"/d").unwrap();
    primary.write_file(b"/d/m.txt", b"primary").unwrap();
    primary.write_file(b"/d/b.txt", b"").unwrap();
    secondary.write_file(b"/d/m.txt", b"p").unwrap();
    secondary.write_file(b"/d/a.txt", b"").unwrap();
    secondary.write_file(b"/d/z.txt", b"").unwrap();
    let fs = OverlayFileSystem::new(primary, vec![secondary]);
    let listing = fs.read_dir(b"/d").unwrap();
    let paths: Vec<Vec<u8>> = listing.iter().map(|e| e.path.clone()).collect();
    assert_eq!(
        paths,
        vec![b"/d/a.txt".to_vec(), b"/d/b.txt".to_vec(), b"/d/m.txt".to_vec(), b"/d/z.txt".to_vec()]
    );
    assert_eq!(listing[2].metadata.len, 7);
}

#[test]
fn listing_sorts_by_components() {
    let mut primary = MemFileSystem::new();
    primary.create_dir(b"/a").unwrap();
    primary.create_dir(b"/a.b").unwrap();
    primary.create_dir(b"/a0").unwrap();
    let fs = OverlayFileSystem::new(primary, Vec::<MemFileSystem>::new());
    let paths: Vec<Vec<u8>> = fs.read_dir(b"/").unwrap().into_iter().map(|e| e.path).collect();
    assert_eq!(paths, vec![b"/a".to_vec(), b"/a.b".to_vec(), b"/a0".to_vec()]);
}

#[test]
fn read_dir_of_a_path_that_no_store_has() {
    let fs = OverlayFileSystem::new(MemFileSystem::new(), vec![MemFileSystem::new()]);
    assert_eq!(fs.read_dir(b"/nope").map(|l| l.len()), Err(FsError::BaseNotDirectory));
    let mut primary = MemFileSystem::new();
    primary.write_file(b"/f", b"").unwrap();
    let fs = OverlayFileSystem::new(primary, vec![MemFileSystem::new()]);
    assert_eq!(fs.read_dir(b"/f").map(|l| l.len()), Err(FsError::BaseNotDirectory));
}

#[test]
fn overlay_shadowing() {
    let mut primary = MemFileSystem::new();
    let mut secondary = MemFileSystem::new();
    primary.write_file(b"/a.txt", b"A").unwrap();
    secondary.write_file(b"/a.txt", b"B").unwrap();
    let mut fs = OverlayFileSystem::new(primary, vec![secondary]);
    assert_eq!(read_all(&mut fs, b"/a.txt"), Ok(b"A".to_vec()));
    assert_eq!(fs.remove_file(b"/a.txt"), Ok(()));
    assert_eq!(read_all(&mut fs, b"/a.txt"), Ok(b"B".to_vec()));
}

#[test]
fn file_on_a_secondary_is_read_only() {
    let primary = MemFileSystem::new();
    let mut secondary = MemFileSystem::new();
    secondary.write_file(b"/s.txt", b"B").unwrap();
    let mut fs = OverlayFileSystem::new(primary, vec![secondary]);
    assert_eq!(read_all(&mut fs, b"/s.txt"), Ok(b"B".to_vec()));
    let append = OpenOptionsConfig::new().append(true);
    assert_eq!(fs.open(b"/s.txt", &append).unwrap_err(), FsError::PermissionDenied);
    let write = OpenOptionsConfig::new().write(true);
    assert_eq!(fs.open(b"/s.txt", &write).unwrap_err(), FsError::PermissionDenied);
    assert_eq!(fs.remove_file(b"/s.txt"), Err(FsError::PermissionDenied));
    assert_eq!(fs.rename(b"/s.txt", b"/t.txt"), Err(FsError::PermissionDenied));
    assert_eq!(read_all(&mut fs, b"/s.txt"), Ok(b"B".to_vec()));
    assert_eq!(read_all(&mut fs, b"/none.txt"), Err(FsError::EntryNotFound));
}

#[test]
fn copy_up_on_create() {
    let primary = MemFileSystem::new();
    let mut secondary = MemFileSystem::new();
    create_dir_all(&mut secondary, b"/path/to").unwrap();
    let mut fs = OverlayFileSystem::new(primary, vec![secondary]);
    let conf = OpenOptionsConfig::new().create(true).write(true);
    assert!(fs.open(b"/path/to/f.txt", &conf).is_ok());
    assert!(is_dir(fs.primary(), b"/path"));
    assert!(is_dir(fs.primary(), b"/path/to"));
    assert!(is_file(fs.primary(), b"/path/to/f.txt"));
    assert!(!path_exists(&fs.secondaries()[0], b"/path/to/f.txt"));
    assert_eq!(fs.secondaries()[0].read_dir(b"/path/to").unwrap().len(), 0);
}

#[test]
fn create_needs_a_parent_on_some_store() {
    let primary = MemFileSystem::new();
    let mut secondary = MemFileSystem::new();
    create_dir_all(&mut secondary, b"/lib/collections").unwrap();
    let mut fs = OverlayFileSystem::new(primary, vec![secondary]);
    assert_eq!(
        touch(&mut fs, b"/lib/collections/this/doesnt/exist.txt").unwrap_err(),
        FsError::EntryNotFound
    );
    assert!(!path_exists(fs.primary(), b"/lib"));
}

#[test]
fn create_dir_goes_to_the_primary() {
    let mut primary = MemFileSystem::new();
    let mut secondary = MemFileSystem::new();
    primary.create_dir(b"/lib").unwrap();
    create_dir_all(&mut secondary, b"/lib/x").unwrap();
    create_dir_all(&mut secondary, b"/only/below").unwrap();
    let mut fs = OverlayFileSystem::new(primary, vec![secondary]);
    assert_eq!(fs.create_dir(b"/lib/new"), Ok(()));
    assert!(is_dir(fs.primary(), b"/lib/new"));
    assert!(!is_dir(&fs.secondaries()[0], b"/lib/new"));
    assert_eq!(fs.create_dir(b"/only/below"), Err(FsError::PermissionDenied));
    assert_eq!(fs.create_dir(b"/none/below"), Err(FsError::EntryNotFound));
    assert_eq!(fs.create_dir(b"/lib"), Err(FsError::AlreadyExists));
}

#[test]
fn overlay_round_trip_of_a_directory() {
    let mut fs = OverlayFileSystem::new(MemFileSystem::new(), vec![MemFileSystem::new()]);
    assert_eq!(fs.create_dir(b"/p"), Ok(()));
    assert!(fs.metadata(b"/p").unwrap().is_dir());
    assert_eq!(fs.remove_dir(b"/p"), Ok(()));
    assert_eq!(fs.metadata(b"/p"), Err(FsError::EntryNotFound));
}

#[test]
fn round_trip_of_a_directory_over_a_primary_that_is_an_overlay() {
    let mut below = MemFileSystem::new();
    below.create_dir(b"/kept").unwrap();
    let inner = OverlayFileSystem::new(MemFileSystem::new(), vec![below]);
    let mut fs = OverlayFileSystem::new(inner, vec![MemFileSystem::new()]);
    assert_eq!(fs.metadata(b"/p"), Err(FsError::EntryNotFound));
    assert_eq!(fs.create_dir(b"/p"), Ok(()));
    assert!(fs.metadata(b"/p").unwrap().is_dir());
    assert!(fs.primary().primary().metadata(b"/p").unwrap().is_dir());
    assert_eq!(fs.remove_dir(b"/p"), Ok(()));
    assert_eq!(fs.metadata(b"/p"), Err(FsError::EntryNotFound));
    assert_eq!(fs.create_dir(b"/kept"), Ok(()));
    assert!(fs.metadata(b"/kept").unwrap().is_dir());
    assert_eq!(fs.remove_dir(b"/kept"), Ok(()));
    assert!(fs.metadata(b"/kept").unwrap().is_dir());
}

#[test]
fn metadata_and_links_fall_through_to_the_secondaries() {
    let mut primary = MemFileSystem::new();
    let mut first = MemFileSystem::new();
    let mut second = MemFileSystem::new();
    primary.write_file(b"/p", b"1").unwrap();
    first.write_file(b"/f", b"22").unwrap();
    second.write_file(b"/f", b"333").unwrap();
    second.write_file(b"/g", b"4444").unwrap();
    second.symlink(b"/l", b"g").unwrap();
    let fs = OverlayFileSystem::new(primary, vec![first, second]);
    assert_eq!(fs.metadata(b"/p").unwrap().len, 1);
    assert_eq!(fs.metadata(b"/f").unwrap().len, 2);
    assert_eq!(fs.metadata(b"/g").unwrap().len, 4);
    assert_eq!(fs.symlink_metadata(b"/l").unwrap().len, 4);
    assert_eq!(fs.metadata(b"/none"), Err(FsError::EntryNotFound));
    assert_eq!(fs.read_link(b"/l"), Ok(b"g".to_vec()));
    assert_eq!(fs.read_link(b"/none"), Err(FsError::EntryNotFound));
    assert!(path_exists(&fs, b"/g"));
    assert_eq!(fs.permission_error_or_not_found(b"/g"), Err(FsError::PermissionDenied));
    assert_eq!(fs.permission_error_or_not_found(b"/p"), Err(FsError::EntryNotFound));
}

#[test]
fn which_openings_would_change_a_secondary() {
    let mut secondary = MemFileSystem::new();
    secondary.write_file(b"/f", b"").unwrap();
    secondary.create_dir(b"/d").unwrap();
    let secs = vec![secondary];
    let none = OpenOptionsConfig::new();
    assert!(!opening_would_require_mutations(&secs, b"/f", &none.read(true)));
    assert!(opening_would_require_mutations(&secs, b"/f", &none.append(true)));
    assert!(opening_would_require_mutations(&secs, b"/f", &none.write(true)));
    assert!(opening_would_require_mutations(&secs, b"/f", &none.create_new(true)));
    assert!(opening_would_require_mutations(&secs, b"/f", &none.truncate(true)));
    assert!(!opening_would_require_mutations(&secs, b"/f", &none.create(true)));
    assert!(opening_would_require_mutations(&secs, b"/g", &none.create(true)));
    assert!(opening_would_require_mutations(&secs, b"/d", &none.create(true)));
}

#[test]
fn overlay_parts_can_be_reached_and_taken() {
    let mut fs = OverlayFileSystem::new(MemFileSystem::new(), Vec::<MemFileSystem>::new());
    fs.primary_mut().create_dir(b"/made").unwrap();
    assert!(is_dir(&fs, b"/made"));
    let mut below = MemFileSystem::new();
    below.create_dir(b"/below").unwrap();
    fs.secondaries_mut().push(below);
    assert!(is_dir(&fs, b"/below"));
    let mut last = MemFileSystem::new();
    last.create_dir(b"/last").unwrap();
    fs.push_secondary(last);
    assert!(is_dir(&fs, b"/last"));
    let (primary, secondaries) = fs.into_inner();
    assert!(is_dir(&primary, b"/made"));
    assert_eq!(secondaries.len(), 2);
    assert!(is_dir(&secondaries[1], b"/last"));
}

#[test]
fn deduplicated_merged_listing() {
    let mut primary = MemFileSystem::new();
    let mut secondary = MemFileSystem::new();
    let mut secondary2 = MemFileSystem::new();
    primary.create_dir(b"/p").unwrap();
    primary.write_file(b"/p/w.txt", b"").unwrap();
    primary.write_file(b"/p/r.txt", b"").unwrap();
    secondary.create_dir(b"/s").unwrap();
    secondary.write_file(b"/s/w.txt", b"").unwrap();
    secondary.write_file(b"/s/r.txt", b"").unwrap();
    secondary2.create_dir(b"/s").unwrap();
    secondary2.write_file(b"/s/overlayed.txt", b"").unwrap();
    secondary2.write_file(b"/s/w.txt", b"later").unwrap();
    let fs = OverlayFileSystem::new(primary, vec![secondary, secondary2]);
    assert_eq!(
        walk(&fs, b"/"),
        vec![
            b"/s".to_vec(),
            b"/s/w.txt".to_vec(),
            b"/s/r.txt".to_vec(),
            b"/s/overlayed.txt".to_vec(),
            b"/p".to_vec(),
            b"/p/w.txt".to_vec(),
            b"/p/r.txt".to_vec(),
        ]
    );
    let listing = fs.read_dir(b"/s").unwrap();
    assert_eq!(listing.len(), 3);
    assert_eq!(listing[2].path, b"/s/w.txt".to_vec());
    assert_eq!(listing[2].metadata.len, 0);
}

#[test]
fn wasi_runner_use_case() {
    // a writable store with the usual folders, and two folders that stand
    // for mounts
    let mut primary = MemFileSystem::new();
    for dir in [&b"/bin"[..], b"/dev", b"/lib", b"/first", b"/second"] {
        primary.create_dir(dir).unwrap();
    }
    primary.write_file(b"/dev/stdin", b"").unwrap();
    primary.write_file(b"/dev/stdout", b"").unwrap();
    primary.write_file(b"/first/file.txt", b"First!").unwrap();
    // a read-only volume below it
    let mut volume = MemFileSystem::new();
    create_dir_all(&mut volume, b"/lib/python3.6/collections").unwrap();
    volume.write_file(b"/lib/python3.6/collections/__init__.py", b"# init").unwrap();

    let mut fs = OverlayFileSystem::new(primary, vec![volume]);

    // the folders of the primary are there
    assert!(is_dir(&fs, b"/lib"));
    assert!(is_dir(&fs, b"/bin"));
    assert!(is_file(&fs, b"/dev/stdin"));
    assert!(is_file(&fs, b"/dev/stdout"));
    // and so is what the volume has
    assert!(is_dir(&fs, b"/lib/python3.6"));
    assert!(is_file(&fs, b"/lib/python3.6/collections/__init__.py"));
    // files of the volume cannot be written
    assert_eq!(
        fs.open(b"/lib/python3.6/collections/__init__.py", &OpenOptionsConfig::new().append(true))
            .unwrap_err(),
        FsError::PermissionDenied,
    );
    // but files can be made in its folders
    touch(&mut fs, b"/lib/python3.6/collections/something-else.py").unwrap();
    // and are on the primary then
    assert!(is_file(fs.primary(), b"/lib/python3.6/collections/something-else.py"));
    assert!(!is_file(&fs.secondaries()[0], b"/lib/python3.6/collections/something-else.py"));
    // the same goes for folders
    fs.create_dir(b"/lib/python3.6/something-else").unwrap();
    assert!(is_dir(fs.primary(), b"/lib/python3.6/something-else"));
    assert!(!is_dir(&fs.secondaries()[0], b"/lib/python3.6/something-else"));
    // but only directly inside a folder that the volume has
    assert_eq!(
        touch(&mut fs, b"/lib/python3.6/collections/this/doesnt/exist.txt").unwrap_err(),
        FsError::EntryNotFound
    );
    // what is mounted can be read
    assert!(is_dir(&fs, b"/first"));
    assert!(is_file(&fs, b"/first/file.txt"));
    assert_eq!(read_all(&mut fs, b"/first/file.txt").unwrap(), b"First!".to_vec());
    // and changed
    fs.primary_mut().write_file(b"/first/file.txt", b"Updated").unwrap();
    assert_eq!(read_all(&mut fs, b"/first/file.txt").unwrap(), b"Updated".to_vec());
    // and what appears there later is seen
    fs.primary_mut().write_file(b"/second/another.txt", b"asdf").unwrap();
    assert_eq!(read_all(&mut fs, b"/second/another.txt").unwrap(), b"asdf".to_vec());
}
