use wasi_vfs::errors::Errno;
use wasi_vfs::errors::FsError;
use wasi_vfs::state::fs::WasiFs;
use wasi_vfs::state::inodes::Kind;
use wasi_vfs::state::inodes::WasiInodes;
use wasi_vfs::state::preopen::PreopenedDir;
use wasi_vfs::state::types::Filetype;
use vstd::seq::Seq;
use wasi_vfs::vfs::DirEntry;
use wasi_vfs::vfs::DirEntryView;
use wasi_vfs::vfs::FileSystem;
use wasi_vfs::vfs::FileType;
use wasi_vfs::vfs::Metadata;
use wasi_vfs::vfs::OpenOptionsConfig;
use wasi_vfs::vfs::VirtualFile;
use wasi_vfs::vfs::VirtualFileView;

/// A store that has one directory, `/dev`, with entries of every type.
struct Devices;

fn kind_of(path: &[u8]) -> Option<FileType> {
    match path {
        b"/dev" => Some(FileType::Dir),
        b"/dev/tty" => Some(FileType::CharDevice),
        b"/dev/disk" => Some(FileType::BlockDevice),
        b"/dev/fifo" => Some(FileType::Fifo),
        b"/dev/sock" => Some(FileType::Socket),
        b"/dev/odd" => Some(FileType::Unknown),
        b"/dev/broken" => Some(FileType::Symlink),
        _ => None,
    }
}

impl FileSystem for Devices {
    type V = ();

    fn view(&self) {}

    fn inv(&self) -> bool {
        true
    }

    fn law_made_dir_is_dir(&self, _: Seq<u8>) {}

    fn law_dir_round_trip(&self, _: Seq<u8>) {}

    fn read_dir_spec(_: (), _: Seq<u8>) -> Result<Seq<DirEntryView>, FsError> {
        unreachable!()
    }

    fn metadata_spec(_: (), _: Seq<u8>) -> Result<Metadata, FsError> {
        unreachable!()
    }

    fn symlink_metadata_spec(_: (), _: Seq<u8>) -> Result<Metadata, FsError> {
        unreachable!()
    }

    fn read_link_spec(_: (), _: Seq<u8>) -> Result<Seq<u8>, FsError> {
        unreachable!()
    }

    fn create_dir_spec(_: (), _: Seq<u8>) -> (Result<(), FsError>, ()) {
        unreachable!()
    }

    fn remove_dir_spec(_: (), _: Seq<u8>) -> (Result<(), FsError>, ()) {
        unreachable!()
    }

    fn rename_spec(_: (), _: Seq<u8>, _: Seq<u8>) -> (Result<(), FsError>, ()) {
        unreachable!()
    }

    fn remove_file_spec(_: (), _: Seq<u8>) -> (Result<(), FsError>, ()) {
        unreachable!()
    }

    fn open_spec(_: (), _: Seq<u8>, _: OpenOptionsConfig) -> (Result<VirtualFileView, FsError>, ()) {
        unreachable!()
    }

    fn read_dir(&self, _path: &[u8]) -> Result<Vec<DirEntry>, FsError> {
        Err(FsError::PermissionDenied)
    }

    fn create_dir(&mut self, _path: &[u8]) -> Result<(), FsError> {
        Err(FsError::PermissionDenied)
    }

    fn remove_dir(&mut self, _path: &[u8]) -> Result<(), FsError> {
        Err(FsError::PermissionDenied)
    }

    fn rename(&mut self, _from: &[u8], _to: &[u8]) -> Result<(), FsError> {
        Err(FsError::PermissionDenied)
    }

    fn metadata(&self, path: &[u8]) -> Result<Metadata, FsError> {
        self.symlink_metadata(path)
    }

    fn symlink_metadata(&self, path: &[u8]) -> Result<Metadata, FsError> {
        match kind_of(path) {
            Some(ft) => Ok(Metadata { ft, accessed: 1, created: 2, modified: 3, len: 4 }),
            None => Err(FsError::EntryNotFound),
        }
    }

    fn read_link(&self, _path: &[u8]) -> Result<Vec<u8>, FsError> {
        Err(FsError::PermissionDenied)
    }

    fn remove_file(&mut self, _path: &[u8]) -> Result<(), FsError> {
        Err(FsError::PermissionDenied)
    }

    fn open(&mut self, _path: &[u8], _conf: &OpenOptionsConfig) -> Result<VirtualFile, FsError> {
        Err(FsError::PermissionDenied)
    }
}

fn guest() -> (WasiInodes, WasiFs) {
    let mut inodes = WasiInodes::new();
    let preopens = vec![PreopenedDir {
        path: b"/dev".to_vec(),
        alias: Some(b"dev".to_vec()),
        read: true,
        write: false,
        create: false,
    }];
    let fs = WasiFs::new_with_preopen(&mut inodes, &Devices, &preopens, &vec![]).unwrap();
    (inodes, fs)
}

#[test]
fn special_files_are_files_with_their_type_in_the_statistics() {
    let (mut inodes, mut fs) = guest();
    let cases: Vec<(&[u8], Filetype)> = vec![
        (b"tty", Filetype::CharacterDevice),
        (b"disk", Filetype::BlockDevice),
        (b"fifo", Filetype::Unknown),
        (b"sock", Filetype::SocketStream),
    ];
    for (name, filetype) in cases {
        let inode = fs.get_inode_at_path(&mut inodes, &Devices, 4, name, true).unwrap();
        let iv = inodes.get_inodeval(inode).unwrap();
        assert_eq!(iv.stat.st_filetype, filetype);
        assert_eq!(iv.stat.st_size, 0);
        assert!(matches!(&iv.kind, Kind::File { handle: None, fd: None, .. }));
        assert_eq!(fs.get_inode_at_path(&mut inodes, &Devices, 4, name, true), Ok(inode));
    }
    assert_eq!(fs.get_inode_at_path(&mut inodes, &Devices, 4, b"tty/x", true), Err(Errno::Notdir));
}

#[test]
fn what_a_store_cannot_name_or_read_fails_the_walk() {
    let (mut inodes, mut fs) = guest();
    assert_eq!(fs.get_inode_at_path(&mut inodes, &Devices, 4, b"odd", true), Err(Errno::Inval));
    assert_eq!(fs.get_inode_at_path(&mut inodes, &Devices, 4, b"broken", true), Err(Errno::Perm));
    assert_eq!(fs.get_inode_at_path(&mut inodes, &Devices, 4, b"none", true), Err(Errno::Noent));
    let dev = fs.get_inode_at_path(&mut inodes, &Devices, 3, b"dev", true).unwrap();
    let stat = inodes.get_inodeval(dev).unwrap().stat;
    assert_eq!((stat.st_size, stat.st_atim, stat.st_mtim, stat.st_ctim), (4, 1, 3, 2));
}
