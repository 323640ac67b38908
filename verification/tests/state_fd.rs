use wasi_vfs::errors::Errno;
use wasi_vfs::errors::FsError;
use wasi_vfs::mem_fs::MemFileSystem;
use wasi_vfs::overlay_fs::OverlayFileSystem;
use wasi_vfs::state::fd::Fd;
use wasi_vfs::state::fs::virtual_file_type_to_wasi_file_type;
use wasi_vfs::state::fs::WasiFs;
use wasi_vfs::state::inodes::Inode;
use wasi_vfs::state::inodes::InodeSocket;
use wasi_vfs::state::inodes::InodeSocketKind;
use wasi_vfs::state::inodes::InodeVal;
use wasi_vfs::state::inodes::Kind;
use wasi_vfs::state::inodes::WasiInodes;
use wasi_vfs::state::preopen::PreopenedDir;
use wasi_vfs::state::root::fd_fdstat_get;
use wasi_vfs::state::root::BinaryPackage;
use wasi_vfs::state::root::WasiFsRoot;
use wasi_vfs::state::types::Fdstat;
use wasi_vfs::state::types::Filestat;
use wasi_vfs::state::types::Filetype;
use wasi_vfs::state::types::ALL_RIGHTS;
use wasi_vfs::state::types::FDFLAGS_APPEND;
use wasi_vfs::state::types::FD_DATASYNC;
use wasi_vfs::state::types::FD_READ;
use wasi_vfs::state::types::STDIN_DEFAULT_RIGHTS;
use wasi_vfs::state::types::STDOUT_DEFAULT_RIGHTS;
use wasi_vfs::pipe::WasiBidirectionalPipePair;
use wasi_vfs::vfs::is_dir;
use wasi_vfs::vfs::FileSystem;
use wasi_vfs::vfs::FileType;
use wasi_vfs::vfs::VirtualFile;

fn store() -> MemFileSystem {
    let mut root = MemFileSystem::new();
    root.create_dir(b"/data").unwrap();
    root.create_dir(b"/data/sub").unwrap();
    root.write_file(b"/data/sub/f.txt", b"hi").unwrap();
    root.write_file(b"/data/top.txt", b"top").unwrap();
    root
}

fn guest(root: &MemFileSystem) -> (WasiInodes, WasiFs) {
    let mut inodes = WasiInodes::new();
    let preopens = vec![PreopenedDir {
        path: b"/data".to_vec(),
        alias: Some(b"data".to_vec()),
        read: true,
        write: true,
        create: true,
    }];
    let fs = WasiFs::new_with_preopen(&mut inodes, root, &preopens, &vec![]).unwrap();
    (inodes, fs)
}

fn handle_of(inodes: &WasiInodes, inode: Inode) -> Option<&VirtualFile> {
    match &inodes.get_inodeval(inode).unwrap().kind {
        Kind::File { handle, .. } => handle.as_ref(),
        other => panic!("not a file: {:?}", other),
    }
}

fn write_through(fs: &WasiFs, inodes: &mut WasiInodes, fd: u32, bytes: &[u8]) {
    let found = fs.get_fd(fd).unwrap();
    let at = inodes.offsets[found.offset] as usize;
    match &mut inodes.get_inodeval_mut(found.inode).unwrap().kind {
        Kind::File { handle: Some(file), .. } => {
            file.seek(at);
            file.write(bytes);
        }
        other => panic!("not an open file: {:?}", other),
    }
    inodes.offsets[found.offset] += bytes.len() as u64;
}

fn add_inode(fs: &mut WasiFs, inodes: &mut WasiInodes, kind: Kind) -> Inode {
    fs.create_inode_with_default_stat(inodes, kind, false, b"made".to_vec())
}

#[test]
fn a_descriptor_starts_with_a_count_of_one_and_an_offset_of_zero() {
    let root = store();
    let (mut inodes, mut fs) = guest(&root);
    let inode = fs.get_inode_at_path(&mut inodes, &root, 4, b"top.txt", true).unwrap();
    let fd = fs.create_fd(&mut inodes, FD_READ, 0, 1, 3, inode).unwrap();
    assert_eq!(fd, 5);
    assert_eq!(fs.next_fd, 6);
    let found = fs.get_fd(fd).unwrap();
    assert_eq!(
        found,
        Fd { ref_cnt: 5, rights: FD_READ, rights_inheriting: 0, flags: 1, offset: 5, open_flags: 3, inode }
    );
    assert_eq!(inodes.ref_cnts[5], 1);
    assert_eq!(inodes.offsets[5], 0);
    assert_eq!(fs.get_fd_inode(fd), Ok(inode));
    assert_eq!(fs.get_fd(77), Err(Errno::Badf));
    assert_eq!(fs.get_fd_inode(77), Err(Errno::Badf));
    assert_eq!(fs.create_fd_ext(&mut inodes, 7, 8, 0, 0, inode, 40), Ok(()));
    assert_eq!(fs.get_fd(40).unwrap().rights, 7);
    assert_eq!(fs.next_fd, 6);
    fs.next_fd = u32::MAX;
    assert_eq!(fs.create_fd(&mut inodes, 0, 0, 0, 0, inode), Ok(u32::MAX));
    assert_eq!(fs.next_fd, 0);
}

#[test]
fn a_cloned_descriptor_shares_count_and_offset() {
    let root = store();
    let (mut inodes, mut fs) = guest(&root);
    let inode = fs.get_inode_at_path(&mut inodes, &root, 4, b"top.txt", true).unwrap();
    let fd = fs.create_fd(&mut inodes, FD_READ, 0, 0, 1, inode).unwrap();
    let twin = fs.clone_fd(&mut inodes, fd).unwrap();
    assert_eq!(twin, 6);
    assert_eq!(fs.get_fd(twin), fs.get_fd(fd));
    assert_eq!(inodes.ref_cnts[fs.get_fd(fd).unwrap().ref_cnt], 2);
    assert_eq!(inodes.ref_cnts.len(), 6);
    assert_eq!(fs.clone_fd(&mut inodes, 99), Err(Errno::Badf));
    assert_eq!(fs.next_fd, 7);
}

#[test]
fn as_many_closes_as_the_count_says_before_the_inode_is_touched() {
    let root = store();
    let (mut inodes, mut fs) = guest(&root);
    let file = VirtualFile::new(b"data".to_vec(), 0, 0, 0);
    let fd = fs.open_file_at(&mut inodes, 4, file, 1, b"v.txt".to_vec(), FD_READ, 0, 0).unwrap();
    let second = fs.clone_fd(&mut inodes, fd).unwrap();
    let third = fs.clone_fd(&mut inodes, fd).unwrap();
    let found = fs.get_fd(fd).unwrap();
    assert_eq!(inodes.ref_cnts[found.ref_cnt], 3);

    assert_eq!(fs.close_fd(&mut inodes, second), Ok(()));
    assert_eq!(fs.get_fd(second), Err(Errno::Badf));
    assert_eq!(inodes.ref_cnts[found.ref_cnt], 2);
    assert!(handle_of(&inodes, found.inode).is_some());

    assert_eq!(fs.close_fd(&mut inodes, fd), Ok(()));
    assert_eq!(inodes.ref_cnts[found.ref_cnt], 1);
    assert!(handle_of(&inodes, found.inode).is_some());

    assert_eq!(fs.close_fd(&mut inodes, third), Ok(()));
    assert_eq!(inodes.ref_cnts[found.ref_cnt], 0);
    assert!(handle_of(&inodes, found.inode).is_none());
    assert_eq!(fs.get_fd(third), Ok(found));
    assert_eq!(fs.close_fd(&mut inodes, 1234), Err(Errno::Badf));
}

#[test]
fn closing_acts_by_the_kind_of_the_inode() {
    let root = store();
    let (mut inodes, mut fs) = guest(&root);
    assert_eq!(fs.close_fd(&mut inodes, 3), Err(Errno::Access));
    assert_eq!(inodes.ref_cnts[3], 0);
    assert!(fs.get_fd(3).is_ok());

    let socket = add_inode(
        &mut fs,
        &mut inodes,
        Kind::Socket { socket: InodeSocket { kind: InodeSocketKind::Open } },
    );
    let fd = fs.create_fd(&mut inodes, 0, 0, 0, 0, socket).unwrap();
    assert_eq!(fs.close_fd(&mut inodes, fd), Ok(()));
    assert!(matches!(
        &inodes.get_inodeval(socket).unwrap().kind,
        Kind::Socket { socket: InodeSocket { kind: InodeSocketKind::Closed } }
    ));

    let pair = WasiBidirectionalPipePair::new();
    let mut other = pair.send;
    let pipe = add_inode(&mut fs, &mut inodes, Kind::Pipe { pipe: pair.recv });
    let fd = fs.create_fd(&mut inodes, 0, 0, 0, 0, pipe).unwrap();
    assert_eq!(other.write(b"x"), Ok(1));
    assert_eq!(fs.close_fd(&mut inodes, fd), Ok(()));
    assert_eq!(other.write(b"x"), Err(Errno::Io));

    let buffer = add_inode(&mut fs, &mut inodes, Kind::Buffer { buffer: vec![] });
    let fd = fs.create_fd(&mut inodes, 0, 0, 0, 0, buffer).unwrap();
    assert_eq!(fs.close_fd(&mut inodes, fd), Err(Errno::Inval));

    let events = add_inode(
        &mut fs,
        &mut inodes,
        Kind::EventNotifications { counter: 0, is_semaphore: false, immediate: false },
    );
    let fd = fs.create_fd(&mut inodes, 0, 0, 0, 0, events).unwrap();
    assert_eq!(fs.close_fd(&mut inodes, fd), Ok(()));
    assert!(fs.get_fd(fd).is_ok());

    let link = add_inode(
        &mut fs,
        &mut inodes,
        Kind::Symlink { base_po_dir: 4, path_to_symlink: b"l".to_vec(), relative_path: b"t".to_vec() },
    );
    let fd = fs.create_fd(&mut inodes, 0, 0, 0, 0, link).unwrap();
    assert_eq!(fs.close_fd(&mut inodes, fd), Err(Errno::Inval));

    let gone = Inode { index: 900, generation: 1 };
    let fd = fs.create_fd(&mut inodes, 0, 0, 0, 0, gone).unwrap();
    assert_eq!(fs.close_fd(&mut inodes, fd), Err(Errno::Badf));
}

#[test]
fn closing_a_directory_takes_it_out_of_its_parent() {
    let root = store();
    let (mut inodes, mut fs) = guest(&root);
    let top = fs.get_fd_inode(3).unwrap();
    let data = fs.get_fd_inode(4).unwrap();
    let sub = fs.get_inode_at_path(&mut inodes, &root, 4, b"sub", true).unwrap();
    let fd = fs.create_fd(&mut inodes, 0, 0, 0, 0, sub).unwrap();
    assert_eq!(fs.close_fd(&mut inodes, fd), Ok(()));
    assert_eq!(fs.get_fd(fd), Err(Errno::Badf));
    match &inodes.get_inodeval(data).unwrap().kind {
        Kind::Dir { entries, .. } => assert_eq!(entries.get(b"sub"), None),
        other => panic!("not a directory: {:?}", other),
    }
    assert_eq!(fs.preopen_fds, vec![3, 4]);

    assert_eq!(fs.close_fd(&mut inodes, 4), Ok(()));
    assert_eq!(fs.preopen_fds, vec![3]);
    assert_eq!(fs.get_fd(4), Err(Errno::Badf));
    match &inodes.get_inodeval(top).unwrap().kind {
        Kind::Root { entries } => assert_eq!(entries.get(b"data"), None),
        other => panic!("not the root: {:?}", other),
    }

    let lonely = add_inode(
        &mut fs,
        &mut inodes,
        Kind::Dir { parent: None, path: b"/x".to_vec(), entries: wasi_vfs::state::entries::DirEntries::new() },
    );
    let fd = fs.create_fd(&mut inodes, 0, 0, 0, 0, lonely).unwrap();
    assert_eq!(fs.close_fd(&mut inodes, fd), Err(Errno::Inval));
    let nameless = add_inode(
        &mut fs,
        &mut inodes,
        Kind::Dir { parent: Some(top), path: b"/x/..".to_vec(), entries: wasi_vfs::state::entries::DirEntries::new() },
    );
    let fd = fs.create_fd(&mut inodes, 0, 0, 0, 0, nameless).unwrap();
    assert_eq!(fs.close_fd(&mut inodes, fd), Err(Errno::Inval));
    assert!(fs.get_fd(fd).is_ok());
}

#[test]
fn close_all_closes_every_descriptor_in_order() {
    let root = store();
    let (mut inodes, mut fs) = guest(&root);
    let file = VirtualFile::new(b"data".to_vec(), 0, 0, 0);
    let fd = fs.open_file_at(&mut inodes, 4, file, 1, b"v.txt".to_vec(), FD_READ, 0, 0).unwrap();
    let twin = fs.clone_fd(&mut inodes, fd).unwrap();
    let inode = fs.get_fd_inode(fd).unwrap();
    fs.close_all(&mut inodes);
    assert_eq!(fs.fd_map.keys(), vec![0, 1, 2, 3, twin]);
    assert_eq!(fs.preopen_fds, vec![3]);
    assert!(handle_of(&inodes, inode).is_none());
    assert!(handle_of(&inodes, fs.get_fd_inode(0).unwrap()).is_none());
    assert_eq!(inodes.ref_cnts[0], 0);
}

#[test]
fn a_fork_shares_counts_and_offsets() {
    let root = store();
    let (mut inodes, mut fs) = guest(&root);
    let file = VirtualFile::new(Vec::new(), 0, 0, 0);
    let fd = fs.open_file_at(&mut inodes, 4, file, 3, b"f".to_vec(), ALL_RIGHTS, 0, 0).unwrap();
    fs.set_current_dir(b"/somewhere");
    fs.has_unioned.push(b"pkg".to_vec());
    let before = inodes.ref_cnts.clone();
    let child = fs.fork(&mut inodes);
    assert_eq!(child.fd_map.keys(), fs.fd_map.keys());
    for n in fs.fd_map.keys() {
        assert_eq!(child.get_fd(n), fs.get_fd(n));
        let cell = fs.get_fd(n).unwrap().ref_cnt;
        assert_eq!(inodes.ref_cnts[cell], before[cell] + 1);
    }
    assert_eq!(child.preopen_fds, fs.preopen_fds);
    assert_eq!(child.next_fd, fs.next_fd);
    assert_eq!(child.inode_counter, fs.inode_counter);
    assert_eq!(child.current_dir, b"/somewhere".to_vec());
    assert!(child.has_unioned.is_empty());
    assert_eq!(fs.has_unioned, vec![b"pkg".to_vec()]);
    assert_eq!(inodes.ref_cnts[fs.get_fd(fd).unwrap().ref_cnt], 2);
}

#[test]
fn fork_share() {
    let root = store();
    let (mut inodes, mut fs) = guest(&root);
    fs.next_fd = 7;
    let file = VirtualFile::new(Vec::new(), 0, 0, 0);
    let fd = fs.open_file_at(&mut inodes, 4, file, 3, b"f".to_vec(), ALL_RIGHTS, 0, 0).unwrap();
    assert_eq!(fd, 7);
    write_through(&fs, &mut inodes, 7, b"PAPA");
    let child = fs.fork(&mut inodes);
    write_through(&child, &mut inodes, 7, b"kid!");
    let inode = fs.get_fd_inode(7).unwrap();
    let mut handle =
        VirtualFile::new(handle_of(&inodes, inode).unwrap().data.clone(), 0, 0, 0);
    let mut buf = vec![0u8; 8];
    assert_eq!(handle.read(&mut buf), 8);
    assert_eq!(buf, b"PAPAkid!".to_vec());
    assert_eq!(inodes.offsets[fs.get_fd(7).unwrap().offset], 8);
    assert_eq!(inodes.offsets[child.get_fd(7).unwrap().offset], 8);

    let mut child = child;
    assert_eq!(child.close_fd(&mut inodes, 7), Ok(()));
    assert!(handle_of(&inodes, inode).is_some());
    assert_eq!(fs.close_fd(&mut inodes, 7), Ok(()));
    assert!(handle_of(&inodes, inode).is_none());
}

#[test]
fn what_a_descriptor_is_and_may_do() {
    let root = store();
    let (mut inodes, mut fs) = guest(&root);
    assert_eq!(
        fs.fdstat(&inodes, 0),
        Ok(Fdstat {
            fs_filetype: Filetype::CharacterDevice,
            fs_flags: 0,
            fs_rights_base: STDIN_DEFAULT_RIGHTS,
            fs_rights_inheriting: 0,
        })
    );
    assert_eq!(
        fs.fdstat(&inodes, 1),
        Ok(Fdstat {
            fs_filetype: Filetype::CharacterDevice,
            fs_flags: FDFLAGS_APPEND,
            fs_rights_base: STDOUT_DEFAULT_RIGHTS,
            fs_rights_inheriting: 0,
        })
    );
    assert_eq!(fs.fdstat(&inodes, 2), fs.fdstat(&inodes, 1));
    assert_eq!(
        fs.fdstat(&inodes, 3),
        Ok(Fdstat {
            fs_filetype: Filetype::Directory,
            fs_flags: 0,
            fs_rights_base: ALL_RIGHTS,
            fs_rights_inheriting: ALL_RIGHTS,
        })
    );
    assert_eq!(
        fs.fdstat(&inodes, 4),
        Ok(Fdstat {
            fs_filetype: Filetype::Directory,
            fs_flags: 0,
            fs_rights_base: 0x1fffffff,
            fs_rights_inheriting: 0x1fffffff,
        })
    );
    let inode = fs.get_inode_at_path(&mut inodes, &root, 4, b"top.txt", true).unwrap();
    let fd = fs.create_fd(&mut inodes, 6, 2, 4, 1, inode).unwrap();
    assert_eq!(
        fs.fdstat(&inodes, fd),
        Ok(Fdstat {
            fs_filetype: Filetype::RegularFile,
            fs_flags: 4,
            fs_rights_base: 6,
            fs_rights_inheriting: 2,
        })
    );
    assert_eq!(fs.fdstat(&inodes, 99), Err(Errno::Badf));
    let buffer = add_inode(&mut fs, &mut inodes, Kind::Buffer { buffer: vec![] });
    let fd = fs.create_fd(&mut inodes, 0, 0, 0, 0, buffer).unwrap();
    assert_eq!(fs.fdstat(&inodes, fd).unwrap().fs_filetype, Filetype::Unknown);

    let mut buf = Fdstat { fs_filetype: Filetype::Unknown, fs_flags: 9, fs_rights_base: 9, fs_rights_inheriting: 9 };
    assert_eq!(fd_fdstat_get(&fs, &inodes, 99, &mut buf), Errno::Badf);
    assert_eq!(buf.fs_flags, 9);
    assert_eq!(fd_fdstat_get(&fs, &inodes, 3, &mut buf), Errno::Success);
    assert_eq!(Ok(buf), fs.fdstat(&inodes, 3));
}

#[test]
fn statistics_by_kind() {
    let root = store();
    let (mut inodes, mut fs) = guest(&root);
    let dir = Kind::Dir {
        parent: None,
        path: b"/data/sub".to_vec(),
        entries: wasi_vfs::state::entries::DirEntries::new(),
    };
    let stat = fs.get_stat_for_kind(&inodes, &root, &dir).unwrap();
    assert_eq!(stat.st_filetype, Filetype::Directory);
    assert_eq!(stat.st_nlink, 1);
    let closed = Kind::File { handle: None, path: b"/data/top.txt".to_vec(), fd: None };
    let stat = fs.get_stat_for_kind(&inodes, &root, &closed).unwrap();
    assert_eq!((stat.st_filetype, stat.st_size), (Filetype::RegularFile, 3));
    let open = Kind::File {
        handle: Some(VirtualFile::new(b"12345".to_vec(), 7, 8, 9)),
        path: Vec::new(),
        fd: None,
    };
    assert_eq!(
        fs.get_stat_for_kind(&inodes, &root, &open),
        Ok(Filestat {
            st_dev: 0,
            st_ino: 0,
            st_filetype: Filetype::RegularFile,
            st_nlink: 1,
            st_size: 5,
            st_atim: 7,
            st_mtim: 8,
            st_ctim: 9,
        })
    );
    let missing = Kind::File { handle: None, path: b"/nope".to_vec(), fd: None };
    assert_eq!(fs.get_stat_for_kind(&inodes, &root, &missing), Err(Errno::Noent));
    assert_eq!(
        fs.get_stat_for_kind(&inodes, &root, &Kind::Buffer { buffer: vec![] }),
        Err(Errno::Io)
    );
    let link = |base: u32| Kind::Symlink {
        base_po_dir: base,
        path_to_symlink: b"top.txt".to_vec(),
        relative_path: b"x".to_vec(),
    };
    assert_eq!(fs.get_stat_for_kind(&inodes, &root, &link(4)).unwrap().st_size, 3);
    assert_eq!(fs.get_stat_for_kind(&inodes, &root, &link(3)), Err(Errno::Noent));
    assert_eq!(fs.get_stat_for_kind(&inodes, &root, &link(0)), Err(Errno::Inval));
    assert_eq!(fs.get_stat_for_kind(&inodes, &root, &link(70)), Err(Errno::Badf));

    let inode = fs.create_inode(&mut inodes, &root, closed, false, b"n".to_vec()).unwrap();
    assert_eq!(inodes.get_inodeval(inode).unwrap().stat.st_ino, 1029);
    assert_eq!(fs.create_inode(&mut inodes, &root, missing, false, b"n".to_vec()), Err(Errno::Noent));
    assert_eq!(fs.get_next_inode_index(), 1030);
    assert_eq!(fs.get_next_inode_index(), 1031);
    let made = fs.create_inode_with_stat(
        &mut inodes,
        Kind::Buffer { buffer: vec![] },
        true,
        b"b".to_vec(),
        Filestat { st_ino: 5, st_size: 44, ..Filestat::default() },
    );
    let iv = inodes.get_inodeval(made).unwrap();
    assert_eq!((iv.stat.st_ino, iv.stat.st_size, iv.is_preopened), (1032, 44, true));
    assert_eq!(fs.filestat_fd(&inodes, 4).unwrap().st_ino, 1028);
    assert_eq!(fs.filestat_fd(&inodes, 99), Err(Errno::Badf));
    let removed: Option<InodeVal> = fs.remove_inode(&mut inodes, made);
    assert_eq!(removed.unwrap().name, b"b".to_vec());
    assert!(fs.remove_inode(&mut inodes, made).is_none());

    assert_eq!(virtual_file_type_to_wasi_file_type(FileType::Dir), Filetype::Directory);
    assert_eq!(virtual_file_type_to_wasi_file_type(FileType::File), Filetype::RegularFile);
    assert_eq!(virtual_file_type_to_wasi_file_type(FileType::Symlink), Filetype::SymbolicLink);
    assert_eq!(virtual_file_type_to_wasi_file_type(FileType::Socket), Filetype::Unknown);
    assert_eq!(virtual_file_type_to_wasi_file_type(FileType::CharDevice), Filetype::Unknown);
}

#[test]
fn virtual_directories_are_made_one_in_the_other() {
    let root = store();
    let (mut inodes, mut fs) = guest(&root);
    let fd = fs.open_dir_all(&mut inodes, 4, b"x/y", 5, 6, 0).unwrap();
    assert_eq!(fd, 5);
    let found = fs.get_fd(fd).unwrap();
    assert_eq!((found.rights, found.rights_inheriting, found.open_flags), (5, 6, 3));
    let y = fs.get_inode_at_path(&mut inodes, &root, 4, b"x/y", true).unwrap();
    assert_eq!(y, found.inode);
    let x = fs.get_inode_at_path(&mut inodes, &root, 4, b"x", true).unwrap();
    let iv = inodes.get_inodeval(y).unwrap();
    assert_eq!(iv.name, b"y".to_vec());
    assert_eq!(iv.stat.st_filetype, Filetype::Unknown);
    assert!(matches!(&iv.kind, Kind::Dir { parent: Some(p), .. } if *p == x));
    assert_eq!(fs.open_dir_all(&mut inodes, 4, b"x/z", 0, 0, 0), Err(FsError::AlreadyExists));
    assert_eq!(fs.open_dir_all(&mut inodes, 99, b"q", 0, 0, 0), Err(FsError::InvalidFd));
    assert_eq!(fs.open_dir_all(&mut inodes, 0, b"q", 0, 0, 0), Err(FsError::BaseNotDirectory));
    assert_eq!(fs.open_dir_all(&mut inodes, 3, b"mount/point", 0, 0, 0), Ok(6));
    assert_eq!(fs.open_dir_all(&mut inodes, fd, b"", 0, 0, 0), Ok(7));
    assert_eq!(fs.get_fd_inode(7), Ok(y));
}

#[test]
fn a_file_of_the_host_is_put_into_a_directory() {
    let root = store();
    let (mut inodes, mut fs) = guest(&root);
    let file = VirtualFile::new(b"given".to_vec(), 1, 2, 3);
    let fd = fs.open_file_at(&mut inodes, 4, file, 1, b"virt.txt".to_vec(), 9, 8, 2).unwrap();
    assert_eq!(fd, 5);
    let found = fs.get_fd(fd).unwrap();
    assert_eq!((found.rights, found.rights_inheriting, found.flags, found.open_flags), (9, 8, 2, 1));
    let iv = inodes.get_inodeval(found.inode).unwrap();
    assert_eq!(iv.name, b"virt.txt".to_vec());
    assert_eq!(iv.stat.st_size, 5);
    assert_eq!((iv.stat.st_atim, iv.stat.st_mtim, iv.stat.st_ctim), (1, 2, 3));
    assert!(matches!(&iv.kind, Kind::File { handle: Some(_), fd: Some(5), .. }));
    assert_eq!(fs.get_inode_at_path(&mut inodes, &root, 4, b"virt.txt", true), Ok(found.inode));
    let again = VirtualFile::new(Vec::new(), 0, 0, 0);
    assert_eq!(
        fs.open_file_at(&mut inodes, 4, again, 1, b"virt.txt".to_vec(), 0, 0, 0),
        Err(FsError::AlreadyExists)
    );
    let again = VirtualFile::new(Vec::new(), 0, 0, 0);
    assert_eq!(
        fs.open_file_at(&mut inodes, fd, again, 1, b"x".to_vec(), 0, 0, 0),
        Err(FsError::BaseNotDirectory)
    );
    let again = VirtualFile::new(Vec::new(), 0, 0, 0);
    assert_eq!(
        fs.open_file_at(&mut inodes, 99, again, 1, b"x".to_vec(), 0, 0, 0),
        Err(FsError::InvalidFd)
    );
}

#[test]
fn the_file_behind_a_descriptor_can_be_swapped() {
    let root = store();
    let (mut inodes, mut fs) = guest(&root);
    let old = fs.swap_file(&mut inodes, 0, VirtualFile::new(b"typed".to_vec(), 0, 0, 0)).unwrap();
    assert_eq!(old, Some(VirtualFile::new(Vec::new(), 0, 0, 0)));
    assert_eq!(inodes.stdin(&fs.fd_map).unwrap().data, b"typed".to_vec());
    assert_eq!(inodes.stdout(&fs.fd_map).unwrap().data, Vec::<u8>::new());
    assert_eq!(inodes.stderr(&fs.fd_map).unwrap().data, Vec::<u8>::new());
    assert_eq!(inodes.std_dev_get(&fs.fd_map, 4).unwrap_err(), FsError::NotAFile);
    assert_eq!(inodes.std_dev_get(&fs.fd_map, 99).unwrap_err(), FsError::NoDevice);

    let inode = fs.get_inode_at_path(&mut inodes, &root, 4, b"top.txt", true).unwrap();
    let fd = fs.create_fd(&mut inodes, 0, 0, 0, 1, inode).unwrap();
    assert_eq!(fs.filestat_resync_size(&mut inodes, fd), Err(Errno::Badf));
    assert_eq!(fs.swap_file(&mut inodes, fd, VirtualFile::new(b"1234567".to_vec(), 0, 0, 0)), Ok(None));
    assert_eq!(fs.filestat_fd(&inodes, fd).unwrap().st_size, 3);
    assert_eq!(fs.filestat_resync_size(&mut inodes, fd), Ok(7));
    assert_eq!(fs.filestat_fd(&inodes, fd).unwrap().st_size, 7);
    assert_eq!(
        fs.swap_file(&mut inodes, fd, VirtualFile::new(b"x".to_vec(), 0, 0, 0)),
        Ok(Some(VirtualFile::new(b"1234567".to_vec(), 0, 0, 0)))
    );
    assert_eq!(
        fs.swap_file(&mut inodes, 4, VirtualFile::new(Vec::new(), 0, 0, 0)),
        Err(FsError::NotAFile)
    );
    assert_eq!(
        fs.swap_file(&mut inodes, 99, VirtualFile::new(Vec::new(), 0, 0, 0)),
        Err(FsError::InvalidFd)
    );
    assert_eq!(fs.filestat_resync_size(&mut inodes, 4), Err(Errno::Isdir));
    assert_eq!(fs.filestat_resync_size(&mut inodes, 3), Err(Errno::Isdir));
    assert_eq!(fs.filestat_resync_size(&mut inodes, 99), Err(Errno::Badf));
    fs.close_fd(&mut inodes, 1).unwrap();
    assert_eq!(inodes.stdout(&fs.fd_map).unwrap_err(), FsError::NotAFile);
    assert_eq!(
        fs.swap_file(&mut inodes, 1, VirtualFile::new(Vec::new(), 0, 0, 0)),
        Err(FsError::NotAFile)
    );
}

#[test]
fn flushing_answers_by_descriptor() {
    let root = store();
    let (mut inodes, mut fs) = guest(&root);
    assert_eq!(fs.flush(&inodes, 0), Ok(()));
    assert_eq!(fs.flush(&inodes, 1), Ok(()));
    assert_eq!(fs.flush(&inodes, 2), Ok(()));
    assert_eq!(fs.flush(&inodes, 4), Err(Errno::Access));
    assert_eq!(fs.flush(&inodes, 99), Err(Errno::Badf));
    let data = fs.get_fd_inode(4).unwrap();
    let fd = fs.create_fd(&mut inodes, FD_READ, 0, 0, 0, data).unwrap();
    assert_eq!(fs.flush(&inodes, fd), Err(Errno::Isdir));
    let fd = fs.create_fd(&mut inodes, FD_READ | FD_DATASYNC, 0, 0, 0, data).unwrap();
    assert_eq!(fs.flush(&inodes, fd), Err(Errno::Access));
    let closed = fs.get_inode_at_path(&mut inodes, &root, 4, b"top.txt", true).unwrap();
    let fd = fs.create_fd(&mut inodes, 0, 0, 0, 0, closed).unwrap();
    assert_eq!(fs.flush(&inodes, fd), Err(Errno::Io));
    fs.swap_file(&mut inodes, fd, VirtualFile::new(Vec::new(), 0, 0, 0)).unwrap();
    assert_eq!(fs.flush(&inodes, fd), Ok(()));
    let buffer = add_inode(&mut fs, &mut inodes, Kind::Buffer { buffer: vec![] });
    let fd = fs.create_fd(&mut inodes, 0, 0, 0, 0, buffer).unwrap();
    assert_eq!(fs.flush(&inodes, fd), Ok(()));
    fs.close_fd(&mut inodes, 2).unwrap();
    assert_eq!(fs.flush(&inodes, 2), Err(Errno::Inval));
}

#[test]
fn a_package_is_united_with_a_sandbox_once() {
    let root = store();
    let (_inodes, mut fs) = guest(&root);
    let mut sandbox: WasiFsRoot<OverlayFileSystem<MemFileSystem, MemFileSystem>, MemFileSystem> =
        WasiFsRoot::Sandbox(OverlayFileSystem::new(MemFileSystem::new(), Vec::new()));
    let mut pkg_fs = MemFileSystem::new();
    pkg_fs.create_dir(b"/pkg").unwrap();
    let pkg = BinaryPackage { package_name: b"tool".to_vec(), webc_fs: Some(pkg_fs) };
    assert!(!is_dir(&sandbox, b"/pkg"));
    assert!(fs.conditional_union(&mut sandbox, pkg));
    assert!(is_dir(&sandbox, b"/pkg"));
    assert_eq!(fs.has_unioned, vec![b"tool".to_vec()]);

    let mut other = MemFileSystem::new();
    other.create_dir(b"/again").unwrap();
    let again = BinaryPackage { package_name: b"tool".to_vec(), webc_fs: Some(other) };
    assert!(fs.conditional_union(&mut sandbox, again));
    assert!(!is_dir(&sandbox, b"/again"));
    assert_eq!(fs.has_unioned, vec![b"tool".to_vec()]);

    let bare = BinaryPackage { package_name: b"bare".to_vec(), webc_fs: None };
    assert!(fs.conditional_union(&mut sandbox, bare));
    assert_eq!(fs.has_unioned, vec![b"tool".to_vec(), b"bare".to_vec()]);
    match &sandbox {
        WasiFsRoot::Sandbox(overlay) => assert_eq!(overlay.secondaries().len(), 1),
        WasiFsRoot::Backing(_) => panic!("not a sandbox"),
    }

    let mut backing: WasiFsRoot<OverlayFileSystem<MemFileSystem, MemFileSystem>, MemFileSystem> =
        WasiFsRoot::Backing(MemFileSystem::new());
    let mut pkg_fs = MemFileSystem::new();
    pkg_fs.create_dir(b"/pkg").unwrap();
    let pkg = BinaryPackage { package_name: b"new".to_vec(), webc_fs: Some(pkg_fs) };
    assert!(!fs.conditional_union(&mut backing, pkg));
    assert!(!is_dir(&backing, b"/pkg"));
    assert_eq!(fs.has_unioned.len(), 2);
}

#[test]
fn a_root_filesystem_hands_every_operation_on() {
    let mut root: WasiFsRoot<MemFileSystem, MemFileSystem> = WasiFsRoot::Backing(store());
    assert!(root.metadata(b"/data").unwrap().is_dir());
    assert_eq!(root.symlink_metadata(b"/data/top.txt").unwrap().len, 3);
    assert_eq!(root.read_dir(b"/data").unwrap().len(), 2);
    assert_eq!(root.create_dir(b"/new"), Ok(()));
    assert_eq!(root.rename(b"/new", b"/newer"), Ok(()));
    assert_eq!(root.remove_dir(b"/newer"), Ok(()));
    assert_eq!(root.remove_file(b"/data/top.txt"), Ok(()));
    assert_eq!(root.read_link(b"/data"), Err(FsError::InvalidInput));
    let conf = wasi_vfs::vfs::OpenOptionsConfig::new().read(true);
    assert_eq!(root.open(b"/data/sub/f.txt", &conf).unwrap().data, b"hi".to_vec());
    let mut guest_fs = guest(&store());
    let sandbox: WasiFsRoot<MemFileSystem, MemFileSystem> = WasiFsRoot::Sandbox(store());
    assert!(guest_fs.1.get_inode_at_path(&mut guest_fs.0, &sandbox, 4, b"sub/f.txt", true).is_ok());
}

#[test]
fn the_handles_of_the_standard_streams_can_be_changed() {
    let root = store();
    let (mut inodes, mut fs) = guest(&root);
    inodes.stdout_mut(&fs.fd_map).unwrap().write(b"out");
    inodes.stderr_mut(&fs.fd_map).unwrap().write(b"err!");
    inodes.stdin_mut(&fs.fd_map).unwrap().set_len(2).unwrap();
    assert_eq!(inodes.stdout(&fs.fd_map).unwrap().data, b"out".to_vec());
    assert_eq!(inodes.stderr(&fs.fd_map).unwrap().data, b"err!".to_vec());
    assert_eq!(inodes.stdin(&fs.fd_map).unwrap().data, vec![0u8, 0]);
    assert_eq!(inodes.std_dev_get_mut(&fs.fd_map, 4).unwrap_err(), FsError::NotAFile);
    assert_eq!(inodes.std_dev_get_mut(&fs.fd_map, 99).unwrap_err(), FsError::NoDevice);
    fs.close_fd(&mut inodes, 1).unwrap();
    assert_eq!(inodes.stdout_mut(&fs.fd_map).unwrap_err(), FsError::NotAFile);
}
