use replfs::repl::{Action, Event, Repl, SessionError};
use replfs::replfs::attr::{root_dir_attr, FileType};
use replfs::replfs::literal::ParseError;
use replfs::replfs::{
    child_path, content_command, listing_command, Answer, DirEntry, FsError, ReplFS, Signal,
};

const STATUS: &[u8] = b"(4096, 4096, 1000, 500, 500, 200, 100, 100, 0, 255)";
const ROOT_LISTING: &[u8] = b"[(\"boot.py\", 32768, 2, 128), (\"lib\", 16384, 3), (\"main.py\", 32768, 4, 5000)]";
const LIB_LISTING: &[u8] = b"[(\"util.py\", 32768, 9, 4096)]";

/// A device that answers the requests it knows, in chunks of three bytes.
struct Device {
    written: Vec<u8>,
    pending: Vec<Vec<u8>>,
    requests: Vec<Vec<u8>>,
}

impl Device {
    fn new() -> Device {
        Device { written: Vec::new(), pending: Vec::new(), requests: Vec::new() }
    }

    fn answer(code: &[u8]) -> Vec<u8> {
        let body: &[u8] = if code == b"os.statvfs()" {
            STATUS
        } else if code == b"list(os.ilistdir(\"/\"))" {
            ROOT_LISTING
        } else if code == b"list(os.ilistdir(\"/lib\"))" {
            LIB_LISTING
        } else if code == b"open(\"/boot.py\").read()" {
            b"import machine\n"
        } else {
            return b"Traceback\r\n\x04>".to_vec();
        };
        let mut raw = b"OK".to_vec();
        raw.extend_from_slice(body);
        raw.extend_from_slice(b"\r\n\x04>");
        raw
    }

    fn perform(&mut self, action: &Action) -> Event {
        match action {
            Action::Open { .. } => Event::Opened,
            Action::Write(bytes) => {
                for byte in bytes {
                    if *byte == 0x04 {
                        let code = std::mem::take(&mut self.written);
                        self.pending =
                            Device::answer(&code).chunks(3).map(|c| c.to_vec()).collect();
                        self.requests.push(code);
                    } else if *byte != 0x03 && *byte != 0x01 {
                        self.written.push(*byte);
                    }
                }
                Event::Written
            }
            Action::Read => {
                if self.pending.is_empty() {
                    Event::TimedOut
                } else {
                    Event::Received(self.pending.remove(0))
                }
            }
            Action::Finished(_) => panic!("nothing to perform"),
        }
    }

    fn drive(&mut self, repl: &mut Repl, first: Action) -> Result<Vec<u8>, SessionError> {
        let mut action = first;
        loop {
            if let Action::Finished(outcome) = action {
                return outcome;
            }
            let event = self.perform(&action);
            action = repl.resume(event);
        }
    }

    fn run(&mut self, repl: &mut Repl, code: &[u8]) -> Result<Vec<u8>, SessionError> {
        let first = repl.run(code);
        self.drive(repl, first)
    }
}

fn mounted() -> (Device, Repl, ReplFS) {
    let mut device = Device::new();
    let (mut repl, open) = Repl::from_path("/dev/ttyACM0");
    device.drive(&mut repl, open).unwrap();
    let mut fs = ReplFS::new();
    let response = device.run(&mut repl, &ReplFS::vfs_info_command());
    fs.start(response).unwrap();
    (device, repl, fs)
}

fn lines(fs: &mut ReplFS, device: &mut Device, repl: &mut Repl, ino: u64, offset: i64) -> Vec<DirEntry> {
    loop {
        match fs.readdir(ino, offset).unwrap() {
            Answer::Ready(entries) => return entries,
            Answer::Fetch(code) => {
                let response = device.run(repl, &code);
                fs.build_inodes(ino, response).unwrap();
            }
        }
    }
}

fn names_of(entries: &[DirEntry]) -> Vec<Vec<u8>> {
    entries.iter().map(|e| e.name.clone()).collect()
}

#[test]
fn commands_are_written_as_the_device_expects() {
    assert_eq!(ReplFS::vfs_info_command(), b"os.statvfs()".to_vec());
    assert_eq!(listing_command(b"/"), b"list(os.ilistdir(\"/\"))".to_vec());
    assert_eq!(listing_command(b"/lib"), b"list(os.ilistdir(\"/lib\"))".to_vec());
    assert_eq!(content_command(b"/boot.py"), b"open(\"/boot.py\").read()".to_vec());
}

#[test]
fn child_paths_drop_the_trailing_slash() {
    assert_eq!(child_path(b"/", b"boot.py"), b"/boot.py".to_vec());
    assert_eq!(child_path(b"/lib", b"util.py"), b"/lib/util.py".to_vec());
    assert_eq!(child_path(b"/lib//", b"util.py"), b"/lib/util.py".to_vec());
    assert_eq!(child_path(b"", b"x"), b"/x".to_vec());
}

#[test]
fn new_bridge_knows_only_the_root() {
    let fs = ReplFS::new();
    assert!(!fs.is_started());
    assert!(fs.filesystem_status().is_none());
    assert_eq!(fs.inode_count(), 1);
    assert_eq!(fs.getattr(1).unwrap(), root_dir_attr());
    assert!(matches!(fs.getattr(0), Err(FsError::NotFound)));
    assert!(matches!(fs.getattr(2), Err(FsError::NotFound)));
}

#[test]
fn start_takes_the_status_once() {
    let mut fs = ReplFS::new();
    fs.start(Ok(STATUS.to_vec())).unwrap();
    assert!(fs.is_started());
    assert_eq!(fs.filesystem_status().unwrap().bsize, 4096);
    assert_eq!(fs.filesystem_status().unwrap().blocks, 1000);
    assert_eq!(fs.filesystem_status().unwrap().ffree, 100);
    fs.start(Ok(b"(512, 1, 1, 1, 1, 1, 1, 1, 1, 1)".to_vec())).unwrap();
    assert_eq!(fs.filesystem_status().unwrap().bsize, 4096);
    fs.start(Err(SessionError::Transport)).unwrap();
    assert_eq!(fs.filesystem_status().unwrap().bsize, 4096);
}

#[test]
fn start_fails_when_the_device_gives_no_answer() {
    let mut fs = ReplFS::new();
    assert!(matches!(
        fs.start(Err(SessionError::Transport)),
        Err(FsError::Session(SessionError::Transport))
    ));
    assert!(matches!(
        fs.start(Err(SessionError::Protocol(b"boom".to_vec()))),
        Err(FsError::Session(SessionError::Protocol(_)))
    ));
    assert!(!fs.is_started());
    fs.start(Ok(STATUS.to_vec())).unwrap();
    assert!(fs.is_started());
}

#[test]
fn malformed_status_is_fatal() {
    let mut fs = ReplFS::new();
    assert!(matches!(
        fs.start(Ok(b"(1, 2, 3)".to_vec())),
        Err(FsError::Parse(ParseError::FieldCount))
    ));
    assert!(!fs.is_started());
    assert!(matches!(
        fs.start(Ok(STATUS.to_vec())),
        Err(FsError::Parse(ParseError::FieldCount))
    ));
    assert!(matches!(
        fs.start(Err(SessionError::Transport)),
        Err(FsError::Parse(ParseError::FieldCount))
    ));
    assert!(!fs.is_started());

    let mut fs = ReplFS::new();
    assert!(matches!(
        fs.start(Ok(b"(1, 2, 3, a, 5, 6, 7, 8, 9, 10)".to_vec())),
        Err(FsError::Parse(ParseError::Integer))
    ));
    assert!(matches!(
        fs.start(Ok(STATUS.to_vec())),
        Err(FsError::Parse(ParseError::Integer))
    ));
    assert_eq!(fs.getattr(1).unwrap(), root_dir_attr());
}

#[test]
fn mounting_against_a_simulated_device() {
    let (mut device, mut repl, mut fs) = mounted();
    assert_eq!(device.requests, vec![b"os.statvfs()".to_vec()]);
    let root = fs.getattr(1).unwrap();
    assert_eq!(root.kind, FileType::Directory);
    assert_eq!(root.ino, 1);
    let entries = lines(&mut fs, &mut device, &mut repl, 1, 0);
    assert_eq!(
        names_of(&entries),
        vec![
            b".".to_vec(),
            b"..".to_vec(),
            b"boot.py".to_vec(),
            b"lib".to_vec(),
            b"main.py".to_vec()
        ]
    );
    assert_eq!(entries.iter().map(|e| e.ino).collect::<Vec<u64>>(), vec![1, 1, 2, 3, 4]);
    assert_eq!(entries.iter().map(|e| e.offset).collect::<Vec<i64>>(), vec![1, 2, 3, 4, 5]);
    assert_eq!(
        entries.iter().map(|e| e.kind).collect::<Vec<FileType>>(),
        vec![
            FileType::Directory,
            FileType::Directory,
            FileType::RegularFile,
            FileType::Directory,
            FileType::RegularFile
        ]
    );
    assert_eq!(
        device.requests,
        vec![b"os.statvfs()".to_vec(), b"list(os.ilistdir(\"/\"))".to_vec()]
    );
    let again = lines(&mut fs, &mut device, &mut repl, 1, 0);
    assert_eq!(names_of(&again), names_of(&entries));
    assert_eq!(device.requests.len(), 2);
    assert_eq!(fs.inode_count(), 4);
}

#[test]
fn readdir_from_offset_one_begins_with_dotdot() {
    let (mut device, mut repl, mut fs) = mounted();
    let entries = lines(&mut fs, &mut device, &mut repl, 1, 1);
    assert_eq!(
        names_of(&entries),
        vec![b"..".to_vec(), b"boot.py".to_vec(), b"lib".to_vec(), b"main.py".to_vec()]
    );
    assert!(entries.iter().all(|e| e.name != b".".to_vec()));
    assert!(entries.iter().all(|e| e.offset > 1));
    assert_eq!(entries[0].offset, 2);
}

#[test]
fn readdir_resumes_from_any_returned_offset() {
    let (mut device, mut repl, mut fs) = mounted();
    let whole = lines(&mut fs, &mut device, &mut repl, 1, 0);
    for entry in &whole {
        let rest = lines(&mut fs, &mut device, &mut repl, 1, entry.offset);
        assert_eq!(names_of(&rest), names_of(&whole[entry.offset as usize..]));
    }
    assert!(lines(&mut fs, &mut device, &mut repl, 1, 5).is_empty());
    assert!(lines(&mut fs, &mut device, &mut repl, 1, 6).is_empty());
    assert!(lines(&mut fs, &mut device, &mut repl, 1, i64::MAX).is_empty());
    assert!(lines(&mut fs, &mut device, &mut repl, 1, -1).is_empty());
}

#[test]
fn readdir_of_a_subdirectory() {
    let (mut device, mut repl, mut fs) = mounted();
    lines(&mut fs, &mut device, &mut repl, 1, 0);
    let entries = lines(&mut fs, &mut device, &mut repl, 3, 0);
    assert_eq!(names_of(&entries), vec![b".".to_vec(), b"..".to_vec(), b"util.py".to_vec()]);
    assert_eq!(entries.iter().map(|e| e.ino).collect::<Vec<u64>>(), vec![3, 1, 5]);
    assert_eq!(device.requests.last().unwrap(), &b"list(os.ilistdir(\"/lib\"))".to_vec());
    let root = lines(&mut fs, &mut device, &mut repl, 1, 0);
    assert_eq!(root.len(), 5);
    let util = fs.getattr(5).unwrap();
    assert_eq!(util.size, 4096);
    assert_eq!(util.blocks, 1);
}

#[test]
fn readdir_of_unknown_or_file_is_not_found() {
    let (mut device, mut repl, mut fs) = mounted();
    lines(&mut fs, &mut device, &mut repl, 1, 0);
    assert!(matches!(fs.readdir(0, 0), Err(FsError::NotFound)));
    assert!(matches!(fs.readdir(2, 0), Err(FsError::NotFound)));
    assert!(matches!(fs.readdir(99, 0), Err(FsError::NotFound)));
}

#[test]
fn inode_numbers_follow_traversal_order() {
    let (mut device, mut repl, mut fs) = mounted();
    lines(&mut fs, &mut device, &mut repl, 1, 0);
    let boot = fs.getattr(2).unwrap();
    assert_eq!(boot.ino, 2);
    assert_eq!(boot.kind, FileType::RegularFile);
    assert_eq!(boot.size, 128);
    assert_eq!(boot.blocks, 1);
    assert_eq!(boot.perm, 0o755);
    assert_eq!(boot.nlink, 1);
    let lib = fs.getattr(3).unwrap();
    assert_eq!(lib.ino, 3);
    assert_eq!(lib.kind, FileType::Directory);
    assert_eq!(lib.size, 0);
    assert_eq!(lib.blocks, 0);
    let main = fs.getattr(4).unwrap();
    assert_eq!(main.size, 5000);
    assert_eq!(main.blocks, 2);
    assert!(matches!(fs.getattr(5), Err(FsError::NotFound)));
    lines(&mut fs, &mut device, &mut repl, 3, 0);
    assert_eq!(fs.getattr(2).unwrap(), boot);
    assert_eq!(fs.getattr(3).unwrap(), lib);
    assert_eq!(fs.getattr(5).unwrap().ino, 5);
}

#[test]
fn lookup_expands_the_parent_first() {
    let (mut device, mut repl, mut fs) = mounted();
    let code = match fs.lookup(1, b"boot.py").unwrap() {
        Answer::Fetch(code) => code,
        other => panic!("unexpected answer {:?}", other),
    };
    assert_eq!(code, b"list(os.ilistdir(\"/\"))".to_vec());
    let response = device.run(&mut repl, &code);
    fs.build_inodes(1, response).unwrap();
    match fs.lookup(1, b"boot.py").unwrap() {
        Answer::Ready(attr) => {
            assert_eq!(attr.ino, 2);
            assert_eq!(attr.size, 128);
        }
        other => panic!("unexpected answer {:?}", other),
    }
    match fs.lookup(1, b"lib").unwrap() {
        Answer::Ready(attr) => assert_eq!(attr, fs.getattr(3).unwrap()),
        other => panic!("unexpected answer {:?}", other),
    }
    assert!(matches!(fs.lookup(1, b"missing"), Err(FsError::NotFound)));
    assert!(matches!(fs.lookup(1, b"util.py"), Err(FsError::NotFound)));
    assert!(matches!(fs.lookup(2, b"x"), Err(FsError::NotFound)));
    assert!(matches!(fs.lookup(0, b"x"), Err(FsError::NotFound)));
    assert!(matches!(fs.lookup(77, b"x"), Err(FsError::NotFound)));
    assert!(matches!(fs.lookup(3, b"util.py"), Ok(Answer::Fetch(_))));
    lines(&mut fs, &mut device, &mut repl, 3, 0);
    match fs.lookup(3, b"util.py").unwrap() {
        Answer::Ready(attr) => assert_eq!(attr.ino, 5),
        other => panic!("unexpected answer {:?}", other),
    }
    assert!(matches!(fs.lookup(1, b"util.py"), Err(FsError::NotFound)));
}

#[test]
fn build_inodes_fails_without_changing_the_table() {
    let mut fs = ReplFS::new();
    fs.start(Ok(STATUS.to_vec())).unwrap();
    assert!(matches!(
        fs.build_inodes(1, Err(SessionError::Transport)),
        Err(FsError::Session(SessionError::Transport))
    ));
    assert!(matches!(
        fs.build_inodes(1, Ok(b"[(\"a\", 32768)]".to_vec())),
        Err(FsError::Parse(ParseError::FieldCount))
    ));
    assert!(matches!(
        fs.build_inodes(1, Ok(b"[(\"a\", 32768, 1), (\"b\", x, 2)]".to_vec())),
        Err(FsError::Parse(ParseError::Integer))
    ));
    assert!(matches!(fs.build_inodes(9, Ok(b"[]".to_vec())), Err(FsError::NotFound)));
    assert!(matches!(fs.build_inodes(0, Ok(b"[]".to_vec())), Err(FsError::NotFound)));
    assert_eq!(fs.inode_count(), 1);
    assert!(matches!(fs.readdir(1, 0), Ok(Answer::Fetch(_))));
    fs.build_inodes(1, Ok(b"[(\"a\", 32768, 1, 1)]".to_vec())).unwrap();
    assert_eq!(fs.inode_count(), 2);
    assert!(matches!(fs.build_inodes(2, Ok(b"[]".to_vec())), Err(FsError::NotFound)));
    fs.build_inodes(1, Ok(b"[(\"b\", 32768, 1, 1)]".to_vec())).unwrap();
    fs.build_inodes(1, Err(SessionError::Transport)).unwrap();
    assert_eq!(fs.inode_count(), 2);
}

#[test]
fn empty_directory_lists_only_the_dots() {
    let mut fs = ReplFS::new();
    fs.start(Ok(STATUS.to_vec())).unwrap();
    fs.build_inodes(1, Ok(b"[]".to_vec())).unwrap();
    match fs.readdir(1, 0).unwrap() {
        Answer::Ready(entries) => {
            assert_eq!(names_of(&entries), vec![b".".to_vec(), b"..".to_vec()])
        }
        other => panic!("unexpected answer {:?}", other),
    }
}

#[test]
fn read_fetches_the_content_once() {
    let (mut device, mut repl, mut fs) = mounted();
    lines(&mut fs, &mut device, &mut repl, 1, 0);
    let code = match fs.read(2, 0, 4).unwrap() {
        Answer::Fetch(code) => code,
        other => panic!("unexpected answer {:?}", other),
    };
    assert_eq!(code, b"open(\"/boot.py\").read()".to_vec());
    let response = device.run(&mut repl, &code);
    fs.store_content(2, response).unwrap();
    let content: &[u8] = b"import machine\n";
    let read = |fs: &ReplFS, offset: i64, size: u32| match fs.read(2, offset, size).unwrap() {
        Answer::Ready(bytes) => bytes,
        other => panic!("unexpected answer {:?}", other),
    };
    assert_eq!(read(&fs, 0, 6), b"import".to_vec());
    assert_eq!(read(&fs, 7, 7), b"machine".to_vec());
    assert_eq!(read(&fs, 7, 4096), b"machine\n".to_vec());
    assert_eq!(read(&fs, 0, u32::MAX), content.to_vec());
    assert_eq!(read(&fs, 0, 0), Vec::<u8>::new());
    assert_eq!(read(&fs, 15, 10), Vec::<u8>::new());
    assert_eq!(read(&fs, 14, 10), b"\n".to_vec());
    assert_eq!(read(&fs, 100, 10), Vec::<u8>::new());
    assert_eq!(read(&fs, -1, 10), Vec::<u8>::new());
    fs.store_content(2, Ok(b"other".to_vec())).unwrap();
    assert_eq!(read(&fs, 0, 6), b"import".to_vec());
}

#[test]
fn read_is_for_regular_files_only() {
    let (mut device, mut repl, mut fs) = mounted();
    lines(&mut fs, &mut device, &mut repl, 1, 0);
    assert!(matches!(fs.read(1, 0, 10), Err(FsError::NotFound)));
    assert!(matches!(fs.read(3, 0, 10), Err(FsError::NotFound)));
    assert!(matches!(fs.read(0, 0, 10), Err(FsError::NotFound)));
    assert!(matches!(fs.read(50, 0, 10), Err(FsError::NotFound)));
    assert!(matches!(fs.store_content(3, Ok(Vec::new())), Err(FsError::NotFound)));
    assert!(matches!(fs.store_content(50, Ok(Vec::new())), Err(FsError::NotFound)));
    assert!(matches!(
        fs.store_content(2, Err(SessionError::Transport)),
        Err(FsError::Session(SessionError::Transport))
    ));
    assert!(matches!(fs.read(2, 0, 10), Ok(Answer::Fetch(_))));
}

#[test]
fn device_failure_reaches_the_caller() {
    let (mut device, mut repl, mut fs) = mounted();
    lines(&mut fs, &mut device, &mut repl, 1, 0);
    let code = match fs.read(4, 0, 4).unwrap() {
        Answer::Fetch(code) => code,
        other => panic!("unexpected answer {:?}", other),
    };
    let response = device.run(&mut repl, &code);
    assert!(matches!(response, Err(SessionError::Protocol(_))));
    assert!(matches!(
        fs.store_content(4, response),
        Err(FsError::Session(SessionError::Protocol(_)))
    ));
}

#[test]
fn failures_are_signalled_as_not_found_or_io() {
    assert_eq!(FsError::NotFound.signal(), Signal::NotFound);
    assert_eq!(FsError::Parse(ParseError::Integer).signal(), Signal::Io);
    assert_eq!(FsError::Parse(ParseError::FieldCount).signal(), Signal::Io);
    assert_eq!(FsError::Session(SessionError::Transport).signal(), Signal::Io);
    assert_eq!(FsError::Session(SessionError::Connect).signal(), Signal::Io);
    assert_eq!(FsError::Session(SessionError::Protocol(Vec::new())).signal(), Signal::Io);
    assert_eq!(FsError::TableFull.signal(), Signal::Io);
}
