use wasi_vfs::errors::fs_error_from_wasi_err;
use wasi_vfs::errors::fs_error_into_wasi_err;
use wasi_vfs::errors::net_error_into_wasi_err;
use wasi_vfs::errors::port_addr_add_answer;
use wasi_vfs::errors::NetworkError;
use wasi_vfs::errors::Errno;
use wasi_vfs::errors::FsError;
use wasi_vfs::mem_fs::MemFileSystem;
use wasi_vfs::state::entries::DirEntries;
use wasi_vfs::state::fd::Fd;
use wasi_vfs::state::fd::FdTable;
use wasi_vfs::state::fs::WasiFs;
use wasi_vfs::state::inodes::Inode;
use wasi_vfs::state::inodes::InodeVal;
use wasi_vfs::state::inodes::Kind;
use wasi_vfs::state::inodes::WasiInodes;
use wasi_vfs::state::preopen::PreopenError;
use wasi_vfs::state::preopen::PreopenedDir;
use wasi_vfs::state::types::Filestat;
use wasi_vfs::state::types::Filetype;
use wasi_vfs::state::types::ALL_RIGHTS;
use wasi_vfs::state::types::FDFLAGS_APPEND;
use wasi_vfs::state::types::PREOPEN_BASE_RIGHTS;
use wasi_vfs::state::types::PREOPEN_CREATE_RIGHTS;
use wasi_vfs::state::types::PREOPEN_READ_RIGHTS;
use wasi_vfs::state::types::PREOPEN_WRITE_RIGHTS;
use wasi_vfs::state::types::STDERR_DEFAULT_RIGHTS;
use wasi_vfs::state::types::STDIN_DEFAULT_RIGHTS;
use wasi_vfs::state::types::STDOUT_DEFAULT_RIGHTS;
use wasi_vfs::vfs::FileSystem;

fn store() -> MemFileSystem {
    let mut root = MemFileSystem::new();
    root.create_dir(b"/data").unwrap();
    root.create_dir(b"/data/sub").unwrap();
    root.write_file(b"/data/sub/f.txt", b"hi").unwrap();
    root.write_file(b"/data/top.txt", b"top").unwrap();
    root.create_dir(b"/other").unwrap();
    root
}

fn dir(path: &[u8], alias: Option<&[u8]>, read: bool, write: bool, create: bool) -> PreopenedDir {
    PreopenedDir { path: path.to_vec(), alias: alias.map(|a| a.to_vec()), read, write, create }
}

fn buffer_inode(name: &[u8]) -> InodeVal {
    InodeVal {
        stat: Filestat::default(),
        is_preopened: false,
        name: name.to_vec(),
        kind: Kind::Buffer { buffer: vec![1, 2, 3] },
    }
}

#[test]
fn error_codes_map_onto_each_other() {
    assert_eq!(fs_error_into_wasi_err(FsError::EntryNotFound), Errno::Noent);
    assert_eq!(fs_error_into_wasi_err(FsError::PermissionDenied), Errno::Perm);
    assert_eq!(fs_error_into_wasi_err(FsError::AlreadyExists), Errno::Exist);
    assert_eq!(fs_error_into_wasi_err(FsError::DirectoryNotEmpty), Errno::Notempty);
    assert_eq!(fs_error_into_wasi_err(FsError::BaseNotDirectory), Errno::Notdir);
    assert_eq!(fs_error_into_wasi_err(FsError::NotAFile), Errno::Inval);
    assert_eq!(fs_error_into_wasi_err(FsError::InvalidFd), Errno::Badf);
    assert_eq!(fs_error_into_wasi_err(FsError::InvalidInput), Errno::Inval);
    assert_eq!(fs_error_into_wasi_err(FsError::NoDevice), Errno::Nodev);
    assert_eq!(fs_error_into_wasi_err(FsError::Lock), Errno::Io);
    assert_eq!(fs_error_into_wasi_err(FsError::IOError), Errno::Io);
    assert_eq!(fs_error_into_wasi_err(FsError::TimedOut), Errno::Timedout);
    assert_eq!(fs_error_into_wasi_err(FsError::UnknownError), Errno::Io);
    assert_eq!(fs_error_from_wasi_err(Errno::Badf), FsError::InvalidFd);
    assert_eq!(fs_error_from_wasi_err(Errno::Noent), FsError::EntryNotFound);
    assert_eq!(fs_error_from_wasi_err(Errno::Exist), FsError::AlreadyExists);
    assert_eq!(fs_error_from_wasi_err(Errno::Io), FsError::IOError);
    assert_eq!(fs_error_from_wasi_err(Errno::Inval), FsError::InvalidInput);
    assert_eq!(fs_error_from_wasi_err(Errno::Nodev), FsError::NoDevice);
    assert_eq!(fs_error_from_wasi_err(Errno::Perm), FsError::PermissionDenied);
    assert_eq!(fs_error_from_wasi_err(Errno::Timedout), FsError::TimedOut);
    assert_eq!(fs_error_from_wasi_err(Errno::Notempty), FsError::DirectoryNotEmpty);
    assert_eq!(fs_error_from_wasi_err(Errno::Mlink), FsError::UnknownError);
    assert_eq!(fs_error_from_wasi_err(Errno::Access), FsError::UnknownError);
}

#[test]
fn rights_have_their_bits() {
    assert_eq!(STDIN_DEFAULT_RIGHTS, 0x8200093);
    assert_eq!(STDOUT_DEFAULT_RIGHTS, 0x82000d1);
    assert_eq!(STDERR_DEFAULT_RIGHTS, 0x82000d1);
    assert_eq!(PREOPEN_BASE_RIGHTS, 0xa4);
    assert_eq!(PREOPEN_READ_RIGHTS, 0x1825e802);
    assert_eq!(PREOPEN_WRITE_RIGHTS, 0x1eda2159);
    assert_eq!(PREOPEN_CREATE_RIGHTS, 0x1023600);
    assert_eq!(ALL_RIGHTS, (1u64 << 39) - 1);
}

#[test]
fn the_registry_keeps_inodes_under_their_handles() {
    let mut inodes = WasiInodes::new();
    let a = inodes.insert(buffer_inode(b"a"));
    let b = inodes.insert(buffer_inode(b"b"));
    assert_ne!(a, b);
    assert!(inodes.contains(a));
    assert_eq!(inodes.get_inodeval(a).unwrap().name, b"a".to_vec());
    assert_eq!(inodes.get_inodeval(b).unwrap().name, b"b".to_vec());
    inodes.get_inodeval_mut(a).unwrap().name = b"changed".to_vec();
    assert_eq!(inodes.get_inodeval(a).unwrap().name, b"changed".to_vec());
    assert_eq!(inodes.get_inodeval(b).unwrap().name, b"b".to_vec());
    let gone = inodes.remove(a).unwrap();
    assert_eq!(gone.name, b"changed".to_vec());
    assert!(inodes.remove(a).is_none());
    assert_eq!(inodes.get_inodeval(a).unwrap_err(), Errno::Badf);
    assert!(inodes.get_inodeval_mut(a).is_err());
    let c = inodes.insert(buffer_inode(b"c"));
    assert_ne!(c, a);
    assert_eq!(inodes.get_inodeval(c).unwrap().name, b"c".to_vec());
    assert_eq!(inodes.get_inodeval(Inode { index: 99, generation: 0 }).unwrap_err(), Errno::Badf);
}

#[test]
fn orphans_are_found_behind_the_inodes_in_use() {
    let mut inodes = WasiInodes::new();
    let lost = Inode { index: 40, generation: 7 };
    inodes.orphan_fds.push((lost, buffer_inode(b"orphan")));
    inodes.orphan_fds.push((lost, buffer_inode(b"second")));
    assert_eq!(inodes.get_inodeval(lost).unwrap().name, b"orphan".to_vec());
    inodes.get_inodeval_mut(lost).unwrap().is_preopened = true;
    assert!(inodes.orphan_fds[0].1.is_preopened);
    assert!(!inodes.orphan_fds[1].1.is_preopened);
    let used = inodes.insert(buffer_inode(b"used"));
    inodes.orphan_fds.push((used, buffer_inode(b"shadowed")));
    assert_eq!(inodes.get_inodeval(used).unwrap().name, b"used".to_vec());
}

#[test]
fn an_inode_hands_out_its_kind() {
    let mut iv = buffer_inode(b"x");
    assert!(matches!(iv.read(), Kind::Buffer { .. }));
    *iv.write() = Kind::EventNotifications { counter: 2, is_semaphore: true, immediate: false };
    assert!(matches!(iv.read(), Kind::EventNotifications { counter: 2, .. }));
}

#[test]
fn directory_entries_behave_like_a_map() {
    let mut e = DirEntries::new();
    let one = Inode { index: 1, generation: 0 };
    let two = Inode { index: 2, generation: 0 };
    assert_eq!(e.get(b"a"), None);
    assert_eq!(e.insert(b"a".to_vec(), one), None);
    assert_eq!(e.insert(b"b".to_vec(), two), None);
    assert_eq!(e.insert(b"a".to_vec(), two), Some(one));
    assert_eq!(e.get(b"a"), Some(two));
    assert!(e.contains_key(b"b"));
    let copy = e.duplicate();
    assert_eq!(e.remove(b"a"), Some(two));
    assert_eq!(e.remove(b"a"), None);
    assert!(!e.contains_key(b"a"));
    assert_eq!(e.get(b"b"), Some(two));
    assert_eq!(copy.get(b"a"), Some(two));
}

#[test]
fn the_descriptor_table_keeps_its_order() {
    let inode = Inode { index: 0, generation: 0 };
    let fd = |n: u64| Fd {
        ref_cnt: 0,
        rights: n,
        rights_inheriting: 0,
        flags: 0,
        offset: 0,
        open_flags: 0,
        inode,
    };
    let mut t = FdTable::new();
    assert_eq!(t.insert(7, fd(1)), None);
    assert_eq!(t.insert(3, fd(2)), None);
    assert_eq!(t.insert(9, fd(3)), None);
    assert_eq!(t.insert(3, fd(4)), Some(fd(2)));
    assert_eq!(t.keys(), vec![7, 3, 9]);
    assert_eq!(t.get(3), Some(fd(4)));
    assert!(t.contains_key(9));
    let copy = t.duplicate();
    assert_eq!(t.remove(7), Some(fd(1)));
    assert_eq!(t.remove(7), None);
    assert_eq!(t.keys(), vec![3, 9]);
    assert_eq!(t.get(7), None);
    assert_eq!(copy.keys(), vec![7, 3, 9]);
    assert_eq!(copy.get(7), Some(fd(1)));
}

#[test]
fn a_new_state_has_the_standard_streams_and_the_root() {
    let mut inodes = WasiInodes::new();
    let (fs, root_inode) = WasiFs::new_init(&mut inodes);
    assert_eq!(fs.preopen_fds, vec![3]);
    assert_eq!(fs.next_fd, 4);
    assert_eq!(fs.inode_counter, 1028);
    assert_eq!(fs.current_dir, b"/".to_vec());
    assert!(!fs.is_wasix);
    assert!(fs.has_unioned.is_empty());
    assert_eq!(fs.fd_map.keys(), vec![0, 1, 2, 3]);
    assert_eq!(inodes.ref_cnts, vec![1, 1, 1, 1]);
    assert_eq!(inodes.offsets, vec![0, 0, 0, 0]);

    let stdin = fs.get_fd(0).unwrap();
    assert_eq!(stdin.rights, STDIN_DEFAULT_RIGHTS);
    assert_eq!(stdin.rights_inheriting, 0);
    assert_eq!(stdin.flags, 0);
    assert_eq!(stdin.open_flags, 0);
    assert_eq!((stdin.ref_cnt, stdin.offset), (0, 0));
    let stdout = fs.get_fd(1).unwrap();
    assert_eq!(stdout.rights, STDOUT_DEFAULT_RIGHTS);
    assert_eq!(stdout.flags, FDFLAGS_APPEND);
    let stderr = fs.get_fd(2).unwrap();
    assert_eq!(stderr.rights, STDERR_DEFAULT_RIGHTS);
    assert_eq!(stderr.flags, FDFLAGS_APPEND);
    assert_eq!((stderr.ref_cnt, stderr.offset), (2, 2));
    let root = fs.get_fd(3).unwrap();
    assert_eq!(root.rights, ALL_RIGHTS);
    assert_eq!(root.rights_inheriting, ALL_RIGHTS);
    assert_eq!(root.open_flags, 1);
    assert_eq!(root.inode, root_inode);

    let iv = inodes.get_inodeval(stdin.inode).unwrap();
    assert_eq!(iv.name, b"stdin".to_vec());
    assert!(iv.is_preopened);
    assert_eq!(iv.stat.st_ino, 1024);
    assert_eq!(iv.stat.st_filetype, Filetype::CharacterDevice);
    assert!(matches!(&iv.kind, Kind::File { handle: Some(_), fd: Some(0), .. }));
    assert_eq!(inodes.get_inodeval(stdout.inode).unwrap().name, b"stdout".to_vec());
    assert_eq!(inodes.get_inodeval(stdout.inode).unwrap().stat.st_ino, 1025);
    assert_eq!(inodes.get_inodeval(stderr.inode).unwrap().name, b"stderr".to_vec());
    let riv = inodes.get_inodeval(root_inode).unwrap();
    assert_eq!(riv.name, b"/".to_vec());
    assert_eq!(riv.stat.st_ino, 1027);
    assert_eq!(riv.stat.st_filetype, Filetype::Directory);
    assert_eq!(riv.stat.st_nlink, 1);
    assert!(matches!(&riv.kind, Kind::Root { .. }));
}

#[test]
fn preopened_directories_get_rights_by_their_flags() {
    let root = store();
    let mut inodes = WasiInodes::new();
    let preopens = vec![
        dir(b"/data", Some(b"data"), true, true, true),
        dir(b"/other", None, true, false, false),
        dir(b"/data/sub", Some(b"bare"), false, false, false),
        dir(b"/data/sub", Some(b"maker"), false, false, true),
    ];
    let fs = WasiFs::new_with_preopen(&mut inodes, &root, &preopens, &vec![]).unwrap();
    assert_eq!(fs.preopen_fds, vec![3, 4, 5, 6, 7]);
    assert_eq!(fs.next_fd, 8);

    let full = fs.get_fd(4).unwrap();
    assert_eq!(full.rights, 0x1fffffff);
    assert_eq!(full.rights_inheriting, 0x1fffffff);
    assert_eq!(full.open_flags, 31);
    assert_eq!(full.flags, 0);
    let reader = fs.get_fd(5).unwrap();
    assert_eq!(reader.rights, 0x1825e8a6);
    assert_eq!(reader.open_flags, 1);
    let bare = fs.get_fd(6).unwrap();
    assert_eq!(bare.rights, 0xa4);
    assert_eq!(bare.open_flags, 0);
    let maker = fs.get_fd(7).unwrap();
    assert_eq!(maker.rights, 0xa4 | 0x1023600);
    assert_eq!(maker.open_flags, 16);

    let iv = inodes.get_inodeval(full.inode).unwrap();
    assert!(iv.is_preopened);
    assert_eq!(iv.name, b"data".to_vec());
    assert_eq!(iv.stat.st_ino, 1028);
    assert_eq!(iv.stat.st_filetype, Filetype::Directory);
    match &iv.kind {
        Kind::Dir { parent, path, .. } => {
            assert_eq!(*parent, Some(fs.get_fd(3).unwrap().inode));
            assert_eq!(path, &b"/data".to_vec());
        }
        other => panic!("not a directory: {:?}", other),
    }
    assert_eq!(inodes.get_inodeval(reader.inode).unwrap().name, b"/other".to_vec());
    match &inodes.get_inodeval(fs.get_fd(3).unwrap().inode).unwrap().kind {
        Kind::Root { entries } => {
            assert_eq!(entries.get(b"data"), Some(full.inode));
            assert_eq!(entries.get(b"/other"), Some(reader.inode));
            assert_eq!(entries.get(b"bare"), Some(bare.inode));
            assert_eq!(entries.get(b"nope"), None);
        }
        other => panic!("not the root: {:?}", other),
    }
    assert_eq!(fs.prestat_fd(&inodes, 4).unwrap().pr_name_len, 5);
    assert_eq!(fs.prestat_fd(&inodes, 5).unwrap().pr_name_len, 7);
    assert_eq!(fs.prestat_fd(&inodes, 3).unwrap().pr_name_len, 2);
    assert_eq!(fs.prestat_fd(&inodes, 44).unwrap_err(), Errno::Badf);
}

#[test]
fn directories_of_the_guests_own_filesystem_come_first() {
    let root = store();
    let mut inodes = WasiInodes::new();
    let preopens = vec![dir(b"/other", Some(b"o"), true, true, false)];
    let vfs = vec![b"/data".to_vec()];
    let fs = WasiFs::new_with_preopen(&mut inodes, &root, &preopens, &vfs).unwrap();
    assert_eq!(fs.preopen_fds, vec![3, 4, 5]);
    let first = fs.get_fd(4).unwrap();
    assert_eq!(first.rights, 0x1825e8a6);
    assert_eq!(first.open_flags, 1);
    assert_eq!(inodes.get_inodeval(first.inode).unwrap().name, b"/data".to_vec());
    let second = fs.get_fd(5).unwrap();
    assert_eq!(second.rights, 0xa4 | 0x1825e802 | 0x1eda2159);
    assert_eq!(second.open_flags, 15);
}

#[test]
fn preopening_fails_loudly() {
    let root = store();
    let mut inodes = WasiInodes::new();
    let twice = vec![
        dir(b"/data", Some(b"same"), true, false, false),
        dir(b"/other", Some(b"same"), true, false, false),
    ];
    assert_eq!(
        WasiFs::new_with_preopen(&mut inodes, &root, &twice, &vec![]).unwrap_err(),
        PreopenError::DuplicateEntry { alias: b"same".to_vec() }
    );
    let mut inodes = WasiInodes::new();
    let file = vec![dir(b"/data/top.txt", None, true, false, false)];
    assert_eq!(
        WasiFs::new_with_preopen(&mut inodes, &root, &file, &vec![]).unwrap_err(),
        PreopenError::NotDirectory { path: b"/data/top.txt".to_vec() }
    );
    let mut inodes = WasiInodes::new();
    let missing = vec![dir(b"/nowhere", None, true, false, false)];
    assert_eq!(
        WasiFs::new_with_preopen(&mut inodes, &root, &missing, &vec![]).unwrap_err(),
        PreopenError::Metadata { path: b"/nowhere".to_vec(), error: FsError::EntryNotFound }
    );
    let mut inodes = WasiInodes::new();
    let vfs = vec![b"/nowhere".to_vec()];
    assert_eq!(
        WasiFs::new_with_preopen(&mut inodes, &root, &vec![], &vfs).unwrap_err(),
        PreopenError::CreateInode { name: b"/nowhere".to_vec(), errno: Errno::Noent }
    );
    let mut inodes = WasiInodes::new();
    let vfs = vec![b"/data".to_vec(), b"/data".to_vec()];
    assert_eq!(
        WasiFs::new_with_preopen(&mut inodes, &root, &vec![], &vfs).unwrap_err(),
        PreopenError::DuplicateEntry { alias: b"/data".to_vec() }
    );
}

#[test]
fn the_uses_of_a_descriptor_have_their_bits() {
    assert_eq!(Fd::READ, 1);
    assert_eq!(Fd::WRITE, 2);
    assert_eq!(Fd::APPEND, 4);
    assert_eq!(Fd::TRUNCATE, 8);
    assert_eq!(Fd::CREATE, 16);
    assert_eq!(wasi_vfs::state::fd::READ | wasi_vfs::state::fd::CREATE, 17);
}

#[test]
fn setup_failures_say_what_went_wrong() {
    assert_eq!(
        PreopenError::DuplicateEntry { alias: b"same".to_vec() }.message(),
        b"Found duplicate entry for alias `same`".to_vec()
    );
    assert_eq!(
        PreopenError::NotDirectory { path: b"/data/top.txt".to_vec() }.message(),
        b"WASI only supports pre-opened directories right now; found \"/data/top.txt\"".to_vec()
    );
    assert_eq!(
        PreopenError::Metadata { path: b"/nowhere".to_vec(), error: FsError::EntryNotFound }.message(),
        b"Could not get metadata for file \"/nowhere\": entry not found".to_vec()
    );
    assert_eq!(
        PreopenError::CreateInode { name: b"n".to_vec(), errno: Errno::Noent }.message(),
        b"Failed to create inode for preopened dir (name `n`): WASI error code: noent".to_vec()
    );
    assert_eq!(FsError::PermissionDenied.words(), "permission denied");
    assert_eq!(Errno::Mlink.name(), "mlink");
}

#[test]
fn adding_an_address_answers_by_what_was_read_and_what_the_network_said() {
    assert_eq!(port_addr_add_answer(Ok(()), Some(Ok(()))), Errno::Success);
    assert_eq!(port_addr_add_answer(Err(Errno::Inval), None), Errno::Inval);
    assert_eq!(port_addr_add_answer(Err(Errno::Badf), Some(Ok(()))), Errno::Badf);
    assert_eq!(
        port_addr_add_answer(Ok(()), Some(Err(NetworkError::PermissionDenied))),
        Errno::Perm
    );
    assert_eq!(port_addr_add_answer(Ok(()), None), Errno::Io);
    assert_eq!(net_error_into_wasi_err(NetworkError::InvalidFd), Errno::Badf);
    assert_eq!(net_error_into_wasi_err(NetworkError::AlreadyExists), Errno::Exist);
    assert_eq!(net_error_into_wasi_err(NetworkError::Lock), Errno::Io);
    assert_eq!(net_error_into_wasi_err(NetworkError::IOError), Errno::Io);
    assert_eq!(net_error_into_wasi_err(NetworkError::InvalidInput), Errno::Inval);
    assert_eq!(net_error_into_wasi_err(NetworkError::NoDevice), Errno::Nodev);
    assert_eq!(net_error_into_wasi_err(NetworkError::TimedOut), Errno::Timedout);
    assert_eq!(net_error_into_wasi_err(NetworkError::Unsupported), Errno::Inval);
    assert_eq!(net_error_into_wasi_err(NetworkError::UnknownError), Errno::Io);
}
