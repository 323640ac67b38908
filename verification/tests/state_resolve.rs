use wasi_vfs::errors::Errno;
use wasi_vfs::mem_fs::MemFileSystem;
use wasi_vfs::state::fs::WasiFs;
use wasi_vfs::state::inodes::Inode;
use wasi_vfs::state::inodes::Kind;
use wasi_vfs::state::inodes::WasiInodes;
use wasi_vfs::state::preopen::PreopenedDir;
use wasi_vfs::state::resolve::StepOut;
use wasi_vfs::state::types::Filetype;
use wasi_vfs::vfs::FileSystem;

fn store() -> MemFileSystem {
    let mut root = MemFileSystem::new();
    root.create_dir(b"/data").unwrap();
    root.create_dir(b"/data/sub").unwrap();
    root.write_file(b"/data/sub/f.txt", b"hi").unwrap();
    root.write_file(b"/data/top.txt", b"top").unwrap();
    root.create_dir(b"/other").unwrap();
    root
}

fn guest(root: &MemFileSystem) -> (WasiInodes, WasiFs) {
    let mut inodes = WasiInodes::new();
    let preopens = vec![PreopenedDir {
        path: b"/data".to_vec(),
        alias: Some(b"data".to_vec()),
        read: true,
        write: true,
        create: true,
    }];
    let fs = WasiFs::new_with_preopen(&mut inodes, root, &preopens, &vec![]).unwrap();
    (inodes, fs)
}

fn path_of(inodes: &WasiInodes, inode: Inode) -> Vec<u8> {
    match &inodes.get_inodeval(inode).unwrap().kind {
        Kind::File { path, .. } => path.clone(),
        Kind::Dir { path, .. } => path.clone(),
        other => panic!("no path: {:?}", other),
    }
}

#[test]
fn a_path_leads_through_directories_to_a_file() {
    let root = store();
    let (mut inodes, mut fs) = guest(&root);
    let file = fs.get_inode_at_path(&mut inodes, &root, 4, b"sub/f.txt", true).unwrap();
    let iv = inodes.get_inodeval(file).unwrap();
    assert!(matches!(&iv.kind, Kind::File { handle: None, fd: None, .. }));
    assert_eq!(path_of(&inodes, file), b"/data/sub/f.txt".to_vec());
    assert_eq!(iv.name, b"/data/sub/f.txt".to_vec());
    assert!(!iv.is_preopened);
    assert_eq!(iv.stat.st_filetype, Filetype::RegularFile);
    assert_eq!(iv.stat.st_size, 2);
    assert_eq!(iv.stat.st_ino, 1030);
    let sub = fs.get_inode_at_path(&mut inodes, &root, 4, b"sub", true).unwrap();
    assert_eq!(inodes.get_inodeval(sub).unwrap().stat.st_ino, 1029);
    assert_eq!(fs.inode_counter, 1031);
}

#[test]
fn what_was_found_once_is_kept() {
    let root = store();
    let (mut inodes, mut fs) = guest(&root);
    let first = fs.get_inode_at_path(&mut inodes, &root, 4, b"sub/f.txt", true).unwrap();
    let counter = fs.inode_counter;
    let second = fs.get_inode_at_path(&mut inodes, &root, 4, b"sub/f.txt", true).unwrap();
    assert_eq!(first, second);
    assert_eq!(fs.inode_counter, counter);
    let sub = fs.get_inode_at_path(&mut inodes, &root, 4, b"sub", true).unwrap();
    match &inodes.get_inodeval(sub).unwrap().kind {
        Kind::Dir { parent, entries, .. } => {
            assert_eq!(*parent, Some(fs.get_fd_inode(4).unwrap()));
            assert_eq!(entries.get(b"f.txt"), Some(first));
        }
        other => panic!("not a directory: {:?}", other),
    }
}

#[test]
fn every_prefix_of_a_path_leads_to_the_directory_above() {
    let root = store();
    let (mut inodes, mut fs) = guest(&root);
    let file = fs.get_inode_at_path(&mut inodes, &root, 3, b"data/sub/f.txt", true).unwrap();
    let sub = fs.get_inode_at_path(&mut inodes, &root, 3, b"data/sub", true).unwrap();
    let data = fs.get_inode_at_path(&mut inodes, &root, 3, b"data", true).unwrap();
    let top = fs.get_inode_at_path(&mut inodes, &root, 3, b"", true).unwrap();
    assert_eq!(top, fs.get_fd_inode(3).unwrap());
    assert_eq!(data, fs.get_fd_inode(4).unwrap());
    assert_eq!(fs.path_depth_from_fd(&inodes, 4, sub), Ok(1));
    assert_eq!(fs.path_depth_from_fd(&inodes, 4, data), Ok(0));
    assert_eq!(fs.path_depth_from_fd(&inodes, 4, file), Err(Errno::Inval));
    assert_eq!(fs.path_depth_from_fd(&inodes, 3, sub), Ok(2));
    assert_eq!(fs.path_depth_from_fd(&inodes, 0, sub), Err(Errno::Inval));
    assert_eq!(fs.path_depth_from_fd(&inodes, 77, sub), Err(Errno::Badf));
    match &inodes.get_inodeval(sub).unwrap().kind {
        Kind::Dir { entries, parent, .. } => {
            assert_eq!(entries.get(b"f.txt"), Some(file));
            assert_eq!(*parent, Some(data));
        }
        other => panic!("not a directory: {:?}", other),
    }
}

#[test]
fn dots_stay_and_step_back() {
    let root = store();
    let (mut inodes, mut fs) = guest(&root);
    let data = fs.get_fd_inode(4).unwrap();
    let top = fs.get_fd_inode(3).unwrap();
    assert_eq!(fs.get_inode_at_path(&mut inodes, &root, 4, b".", true), Ok(data));
    assert_eq!(fs.get_inode_at_path(&mut inodes, &root, 4, b"sub/..", true), Ok(data));
    assert_eq!(fs.get_inode_at_path(&mut inodes, &root, 4, b"sub/../sub/./..", true), Ok(data));
    assert_eq!(fs.get_inode_at_path(&mut inodes, &root, 4, b"..", true), Ok(top));
    assert_eq!(fs.get_inode_at_path(&mut inodes, &root, 4, b"../..", true), Ok(top));
    assert_eq!(fs.get_inode_at_path(&mut inodes, &root, 3, b"./data", true), Ok(data));
    assert_eq!(fs.get_inode_at_path(&mut inodes, &root, 4, b"../data/sub/..", true), Ok(data));
}

#[test]
fn the_walk_fails_where_it_cannot_go_on() {
    let root = store();
    let (mut inodes, mut fs) = guest(&root);
    assert_eq!(fs.get_inode_at_path(&mut inodes, &root, 4, b"nope", true), Err(Errno::Noent));
    assert_eq!(fs.get_inode_at_path(&mut inodes, &root, 4, b"sub/nope/x", true), Err(Errno::Noent));
    assert_eq!(fs.get_inode_at_path(&mut inodes, &root, 4, b"top.txt/x", true), Err(Errno::Notdir));
    assert_eq!(fs.get_inode_at_path(&mut inodes, &root, 3, b"other", true), Err(Errno::Notcapable));
    assert_eq!(fs.get_inode_at_path(&mut inodes, &root, 3, b"/data", true), Err(Errno::Notcapable));
    assert_eq!(fs.get_inode_at_path(&mut inodes, &root, 9, b"sub", true), Err(Errno::Badf));
    assert_eq!(fs.get_inode_at_path(&mut inodes, &root, 0, b"x", true), Err(Errno::Notdir));
    let missing = Inode { index: 500, generation: 3 };
    assert_eq!(
        fs.get_inode_at_path_inner(&mut inodes, &root, missing, b"x", 0, true),
        Err(Errno::Badf)
    );
    assert_eq!(fs.get_inode_at_path_inner(&mut inodes, &root, missing, b"", 0, true), Ok(missing));
    let data = fs.get_fd_inode(4).unwrap();
    assert_eq!(
        fs.get_inode_at_path_inner(&mut inodes, &root, data, b"sub", 129, true),
        Err(Errno::Mlink)
    );
    assert!(fs.get_inode_at_path_inner(&mut inodes, &root, data, b"sub", 128, true).is_ok());
}

#[test]
fn one_step_of_a_walk() {
    let root = store();
    let (mut inodes, mut fs) = guest(&root);
    let data = fs.get_fd_inode(4).unwrap();
    let top = fs.get_fd_inode(3).unwrap();
    assert_eq!(fs.walk_component(&mut inodes, &root, top, b"data"), StepOut::Next(data));
    assert_eq!(fs.walk_component(&mut inodes, &root, top, b".."), StepOut::Next(top));
    assert_eq!(fs.walk_component(&mut inodes, &root, top, b"x"), StepOut::Fail(Errno::Notcapable));
    assert_eq!(fs.walk_component(&mut inodes, &root, data, b".."), StepOut::Next(top));
    assert_eq!(fs.walk_component(&mut inodes, &root, data, b"no"), StepOut::Fail(Errno::Noent));
    let sub = match fs.walk_component(&mut inodes, &root, data, b"sub") {
        StepOut::Next(i) => i,
        other => panic!("no step: {:?}", other),
    };
    assert_eq!(fs.walk_component(&mut inodes, &root, data, b"sub"), StepOut::Next(sub));
    let stdin = fs.get_fd_inode(0).unwrap();
    assert_eq!(fs.walk_component(&mut inodes, &root, stdin, b"x"), StepOut::Fail(Errno::Notdir));
}

#[test]
fn a_link_is_followed_to_its_target() {
    let mut root = store();
    root.symlink(b"/data/link", b"sub/f.txt").unwrap();
    root.symlink(b"/data/sub/up", b"../top.txt").unwrap();
    let (mut inodes, mut fs) = guest(&root);
    let file = fs.get_inode_at_path(&mut inodes, &root, 4, b"link", true).unwrap();
    assert_eq!(path_of(&inodes, file), b"/data/sub/f.txt".to_vec());
    let direct = fs.get_inode_at_path(&mut inodes, &root, 4, b"sub/f.txt", true).unwrap();
    assert_eq!(file, direct);
    let up = fs.get_inode_at_path(&mut inodes, &root, 4, b"sub/up", true).unwrap();
    assert_eq!(path_of(&inodes, up), b"/data/top.txt".to_vec());
}

#[test]
fn a_link_that_is_not_followed_is_the_result() {
    let mut root = store();
    root.symlink(b"/data/link", b"sub/f.txt").unwrap();
    let (mut inodes, mut fs) = guest(&root);
    let link = fs.get_inode_at_path(&mut inodes, &root, 4, b"link", false).unwrap();
    let iv = inodes.get_inodeval(link).unwrap();
    assert_eq!(iv.stat.st_filetype, Filetype::SymbolicLink);
    match &iv.kind {
        Kind::Symlink { base_po_dir, path_to_symlink, relative_path } => {
            assert_eq!(*base_po_dir, 4);
            assert_eq!(path_to_symlink, &b"link".to_vec());
            assert_eq!(relative_path, &b"sub/f.txt".to_vec());
        }
        other => panic!("not a link: {:?}", other),
    }
    let data = fs.get_fd_inode(4).unwrap();
    match &inodes.get_inodeval(data).unwrap().kind {
        Kind::Dir { entries, .. } => assert_eq!(entries.get(b"link"), None),
        other => panic!("not a directory: {:?}", other),
    }
    let again = fs.get_inode_at_path(&mut inodes, &root, 4, b"link", false).unwrap();
    assert_ne!(again, link);
}

#[test]
fn a_link_in_the_middle_of_a_path_is_always_followed() {
    let mut root = store();
    root.symlink(b"/data/dlink", b"sub").unwrap();
    root.symlink(b"/data/abs", b"/data/sub").unwrap();
    let (mut inodes, mut fs) = guest(&root);
    let direct = fs.get_inode_at_path(&mut inodes, &root, 4, b"sub/f.txt", true).unwrap();
    assert_eq!(fs.get_inode_at_path(&mut inodes, &root, 4, b"dlink/f.txt", false), Ok(direct));
    assert_eq!(fs.get_inode_at_path(&mut inodes, &root, 4, b"dlink/f.txt", true), Ok(direct));
    assert_eq!(fs.get_inode_at_path(&mut inodes, &root, 4, b"abs/f.txt", true), Ok(direct));
    let sub = fs.get_inode_at_path(&mut inodes, &root, 4, b"sub", true).unwrap();
    assert_eq!(fs.get_inode_at_path(&mut inodes, &root, 4, b"dlink", true), Ok(sub));
    assert_eq!(fs.get_inode_at_path(&mut inodes, &root, 4, b"dlink/..", true), Ok(fs.get_fd_inode(4).unwrap()));
}

#[test]
fn links_in_a_circle_end_with_mlink() {
    let mut root = store();
    root.symlink(b"/data/a", b"b").unwrap();
    root.symlink(b"/data/b", b"a").unwrap();
    root.symlink(b"/data/self", b"self").unwrap();
    let (mut inodes, mut fs) = guest(&root);
    assert_eq!(fs.get_inode_at_path(&mut inodes, &root, 4, b"a", true), Err(Errno::Mlink));
    assert_eq!(fs.get_inode_at_path(&mut inodes, &root, 4, b"self/x", false), Err(Errno::Mlink));
    let data = fs.get_fd_inode(4).unwrap();
    assert_eq!(fs.resolve_counted(&mut inodes, &root, data, b"a", 0, true), (Err(Errno::Mlink), 128));
    assert_eq!(fs.resolve_counted(&mut inodes, &root, data, b"self", 0, true), (Err(Errno::Mlink), 128));
    assert!(fs.get_inode_at_path(&mut inodes, &root, 4, b"a", false).is_ok());
    assert!(fs.get_inode_at_path(&mut inodes, &root, 4, b"sub/f.txt", true).is_ok());
}

#[test]
fn a_chain_of_links_within_the_bound_resolves() {
    let mut root = store();
    root.symlink(b"/data/l0", b"sub/f.txt").unwrap();
    for i in 1..128u32 {
        let name = format!("/data/l{}", i).into_bytes();
        let target = format!("l{}", i - 1).into_bytes();
        root.symlink(&name, &target).unwrap();
    }
    let (mut inodes, mut fs) = guest(&root);
    let direct = fs.get_inode_at_path(&mut inodes, &root, 4, b"sub/f.txt", true).unwrap();
    assert_eq!(fs.get_inode_at_path(&mut inodes, &root, 4, b"l127", true), Ok(direct));
    root.symlink(b"/data/l128", b"l127").unwrap();
    assert_eq!(fs.get_inode_at_path(&mut inodes, &root, 4, b"l128", true), Err(Errno::Mlink));
}

#[test]
fn every_target_counts_towards_the_bound() {
    let mut root = store();
    root.symlink(b"/data/d0", b"sub").unwrap();
    for i in 1..50u32 {
        let name = format!("/data/d{}", i).into_bytes();
        let target = format!("d{}", i - 1).into_bytes();
        root.symlink(&name, &target).unwrap();
    }
    let (mut inodes, mut fs) = guest(&root);
    let data = fs.get_fd_inode(4).unwrap();
    let sub = fs.get_inode_at_path(&mut inodes, &root, 4, b"sub", true).unwrap();
    assert_eq!(fs.resolve_counted(&mut inodes, &root, data, b"sub/f.txt", 0, true).1, 0);
    assert_eq!(fs.resolve_counted(&mut inodes, &root, data, b"d0", 0, true), (Ok(sub), 1));
    assert_eq!(fs.resolve_counted(&mut inodes, &root, data, b"d49", 0, true), (Ok(sub), 50));
    assert_eq!(fs.resolve_counted(&mut inodes, &root, data, b"d49", 7, true), (Ok(sub), 57));
    assert_eq!(fs.resolve_counted(&mut inodes, &root, data, b"d49/../d49", 0, true), (Ok(sub), 100));
    assert_eq!(
        fs.resolve_counted(&mut inodes, &root, data, b"d49/../d49/../d49", 0, true),
        (Err(Errno::Mlink), 128)
    );
    assert_eq!(fs.get_inode_at_path(&mut inodes, &root, 4, b"d49/../d49/../d49/f.txt", true), Err(Errno::Mlink));
    assert_eq!(
        fs.resolve_counted(&mut inodes, &root, data, b"d49/../d49/../d27", 0, true),
        (Ok(sub), 128)
    );
    assert_eq!(fs.resolve_counted(&mut inodes, &root, data, b"sub", 129, true), (Err(Errno::Mlink), 129));
}

#[test]
fn the_best_preopened_directory_is_the_longest_and_latest() {
    let root = store();
    let mut inodes = WasiInodes::new();
    let dir = |path: &[u8], alias: &[u8]| PreopenedDir {
        path: path.to_vec(),
        alias: Some(alias.to_vec()),
        read: true,
        write: false,
        create: false,
    };
    let preopens = vec![dir(b"/data", b"a"), dir(b"/data/sub", b"b"), dir(b"/data", b"c")];
    let fs = WasiFs::new_with_preopen(&mut inodes, &root, &preopens, &vec![]).unwrap();
    assert_eq!(
        fs.path_into_pre_open_and_relative_path(&inodes, b"/data/sub/f.txt"),
        Ok((5, b"f.txt".to_vec()))
    );
    assert_eq!(
        fs.path_into_pre_open_and_relative_path(&inodes, b"/data/top.txt"),
        Ok((6, b"top.txt".to_vec()))
    );
    assert_eq!(
        fs.path_into_pre_open_and_relative_path(&inodes, b"/elsewhere/x"),
        Ok((3, b"elsewhere/x".to_vec()))
    );
    assert_eq!(fs.path_into_pre_open_and_relative_path(&inodes, b"/data"), Ok((6, b"".to_vec())));
    assert_eq!(
        fs.path_into_pre_open_and_relative_path(&inodes, b"relative/x"),
        Err(Errno::Inval)
    );
}

#[test]
fn a_broken_preopened_descriptor_fails_the_search() {
    let root = store();
    let (inodes, mut fs) = guest(&root);
    fs.preopen_fds.push(99);
    assert_eq!(fs.path_into_pre_open_and_relative_path(&inodes, b"/data/x"), Err(Errno::Badf));
    fs.preopen_fds.pop();
    fs.preopen_fds.push(0);
    assert_eq!(fs.path_into_pre_open_and_relative_path(&inodes, b"/data/x"), Err(Errno::Inval));
}

#[test]
fn the_parent_and_the_last_name() {
    let root = store();
    let (mut inodes, mut fs) = guest(&root);
    let sub = fs.get_inode_at_path(&mut inodes, &root, 4, b"sub", true).unwrap();
    assert_eq!(
        fs.get_parent_inode_at_path(&mut inodes, &root, 4, b"sub/new.txt", true),
        Ok((sub, b"new.txt".to_vec()))
    );
    assert_eq!(
        fs.get_parent_inode_at_path(&mut inodes, &root, 4, b"new.txt", true),
        Ok((fs.get_fd_inode(4).unwrap(), b"new.txt".to_vec()))
    );
    assert_eq!(fs.get_parent_inode_at_path(&mut inodes, &root, 4, b"", true), Err(Errno::Inval));
    assert_eq!(
        fs.get_parent_inode_at_path(&mut inodes, &root, 4, b"nope/new.txt", true),
        Err(Errno::Noent)
    );
}

#[test]
fn the_working_directory_starts_relative_paths() {
    let root = store();
    let (mut inodes, mut fs) = guest(&root);
    let direct = fs.get_inode_at_path(&mut inodes, &root, 4, b"sub/f.txt", true).unwrap();
    let sub = fs.get_inode_at_path(&mut inodes, &root, 4, b"sub", true).unwrap();
    fs.set_current_dir(b"data/sub");
    assert_eq!(fs.current_dir, b"data/sub".to_vec());
    assert_eq!(fs.get_current_dir(&mut inodes, &root, 3), Ok((sub, b"data/sub".to_vec())));
    assert_eq!(fs.get_current_dir_inner(&mut inodes, &root, 3, 129), Err(Errno::Mlink));
    assert_eq!(fs.get_current_dir(&mut inodes, &root, 50), Err(Errno::Badf));
    assert_eq!(fs.get_inode_at_path(&mut inodes, &root, 3, b"f.txt", true), Err(Errno::Notcapable));
    fs.is_wasix = true;
    assert_eq!(fs.get_inode_at_path(&mut inodes, &root, 3, b"f.txt", true), Ok(direct));
    assert_eq!(fs.get_inode_at_path(&mut inodes, &root, 3, b"/f.txt", true), Err(Errno::Notcapable));
    fs.set_current_dir(b"nowhere");
    assert_eq!(fs.get_inode_at_path(&mut inodes, &root, 3, b"f.txt", true), Err(Errno::Notcapable));
}

#[test]
fn paths_with_a_leading_dot_become_absolute() {
    let root = store();
    let (_inodes, mut fs) = guest(&root);
    fs.set_current_dir(b"/home/");
    assert_eq!(fs.relative_path_to_absolute(b"./x//y".to_vec()), b"/home/x/y".to_vec());
    assert_eq!(fs.relative_path_to_absolute(b"x/./y".to_vec()), b"x/./y".to_vec());
    assert_eq!(fs.relative_path_to_absolute(b".".to_vec()), b".".to_vec());
    fs.set_current_dir(b"/");
    assert_eq!(fs.relative_path_to_absolute(b"./a".to_vec()), b"/a".to_vec());
    fs.set_current_dir(b"/w");
    assert_eq!(fs.relative_path_to_absolute(b".///a".to_vec()), b"/w//a".to_vec());
}

#[test]
fn an_absolute_path_does_not_lead_out_of_a_directory() {
    let root = store();
    let (mut inodes, mut fs) = guest(&root);
    assert_eq!(fs.get_inode_at_path(&mut inodes, &root, 4, b"/sub", true), Err(Errno::Notcapable));
    assert_eq!(fs.get_inode_at_path(&mut inodes, &root, 4, b"/", true), Err(Errno::Notcapable));
    let data = fs.get_fd_inode(4).unwrap();
    assert_eq!(fs.walk_component(&mut inodes, &root, data, b"/"), StepOut::Fail(Errno::Notcapable));
    match &inodes.get_inodeval(data).unwrap().kind {
        Kind::Dir { entries, .. } => assert_eq!(entries.get(b"/"), None),
        other => panic!("not a directory: {:?}", other),
    }
}
