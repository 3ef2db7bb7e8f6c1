use arch_run::sandbox_io::{
    blocked_report, read_report, write_report, Backend, IoAction, IoEvent, IoRequest, IoTask, PIECE_SIZE,
    QUEUE_CAPACITY,
};

fn go(task: IoTask, backend: Backend, event: IoEvent) -> (IoTask, IoAction) {
    assert!(task.expects(backend, &event), "{task:?} {event:?}");
    task.advance(backend, event)
}

fn read() -> IoRequest {
    IoRequest::Read { path: b"f".to_vec() }
}

fn write() -> IoRequest {
    IoRequest::Write { path: b"f".to_vec(), data: b"hello".to_vec() }
}

fn piece(buffer: &[u8], count: usize) -> IoEvent {
    IoEvent::Piece { buffer: buffer.to_vec(), count }
}

#[test]
fn a_ring_reads_piece_by_piece() {
    let (task, action) = IoTask::begin(read());
    assert!(matches!(&action, IoAction::Open { path } if path == b"f"));
    let (task, action) = go(task, Backend::Ring, IoEvent::Opened);
    assert!(matches!(action, IoAction::ReadAt { offset: 0, len: 8192 }));
    let (task, action) = go(task, Backend::Ring, piece(b"abc---", 3));
    assert!(matches!(action, IoAction::ReadAt { offset: 3, len: PIECE_SIZE }));
    let (task, action) = go(task, Backend::Ring, piece(b"de", 2));
    assert!(matches!(action, IoAction::ReadAt { offset: 5, len: PIECE_SIZE }));
    let (task, action) = go(task, Backend::Ring, piece(b"zz", 0));
    match action {
        IoAction::DeliverRead { path, data } => {
            assert_eq!(path, b"f");
            assert_eq!(data, b"abcde");
        }
        other => panic!("{other:?}"),
    }
    assert!(matches!(task, IoTask::Over));
    assert!(!task.expects(Backend::Ring, &IoEvent::Opened));
}

#[test]
fn a_ring_delivers_what_it_has_on_failure() {
    let (task, _) = IoTask::begin(read());
    let (task, _) = go(task, Backend::Ring, IoEvent::Opened);
    let (task, _) = go(task, Backend::Ring, piece(b"abc", 3));
    let (_, action) = go(task, Backend::Ring, IoEvent::ReadFailed);
    assert!(matches!(&action, IoAction::DeliverRead { data, .. } if data == b"abc"));
}

#[test]
fn a_stream_reads_all_or_nothing() {
    let (task, _) = IoTask::begin(read());
    let (task, action) = go(task, Backend::Stream, IoEvent::Opened);
    assert!(matches!(action, IoAction::ReadAll));
    assert!(!task.expects(Backend::Stream, &piece(b"a", 1)));
    let (_, action) = go(task, Backend::Stream, IoEvent::All { data: b"abc".to_vec() });
    assert!(matches!(&action, IoAction::DeliverRead { data, .. } if data == b"abc"));
    let (task, _) = IoTask::begin(read());
    let (task, _) = go(task, Backend::Stream, IoEvent::Opened);
    let (_, action) = go(task, Backend::Stream, IoEvent::ReadFailed);
    assert!(matches!(action, IoAction::Ignore));
}

#[test]
fn a_write_reports_its_count() {
    let (task, action) = IoTask::begin(write());
    assert!(matches!(&action, IoAction::Create { path } if path == b"f"));
    let (task, action) = go(task, Backend::Ring, IoEvent::Opened);
    assert!(matches!(&action, IoAction::WriteAt { data } if data == b"hello"));
    let (task, action) = go(task, Backend::Ring, IoEvent::Written { count: 5 });
    assert!(matches!(&action, IoAction::DeliverWrite { path, count: 5, short: false } if path == b"f"));
    assert!(matches!(task, IoTask::Over));
    let (task, _) = IoTask::begin(write());
    let (task, _) = go(task, Backend::Ring, IoEvent::Opened);
    let (_, action) = go(task, Backend::Ring, IoEvent::Written { count: 2 });
    assert!(matches!(action, IoAction::DeliverWrite { count: 2, short: true, .. }));
    let (task, _) = IoTask::begin(write());
    let (task, action) = go(task, Backend::Stream, IoEvent::Opened);
    assert!(matches!(&action, IoAction::WriteAll { data } if data == b"hello"));
    assert!(!task.expects(Backend::Stream, &IoEvent::Written { count: 2 }));
    let (_, action) = go(task, Backend::Stream, IoEvent::Written { count: 5 });
    assert!(matches!(action, IoAction::DeliverWrite { count: 5, short: false, .. }));
}

#[test]
fn a_failed_write_is_not_delivered() {
    for backend in [Backend::Ring, Backend::Stream] {
        let (task, _) = IoTask::begin(write());
        let (task, _) = go(task, backend, IoEvent::Opened);
        let (task, action) = go(task, backend, IoEvent::WriteFailed);
        assert!(matches!(action, IoAction::Ignore));
        assert!(matches!(task, IoTask::Over));
    }
}

#[test]
fn a_refused_request_goes_no_further() {
    for backend in [Backend::Ring, Backend::Stream] {
        let (task, _) = IoTask::begin(IoRequest::Read { path: b"../../../etc/passwd".to_vec() });
        let (task, action) = go(task, backend, IoEvent::Refused);
        assert!(matches!(&action, IoAction::Blocked { path, writing: false } if path == b"../../../etc/passwd"));
        assert!(matches!(task, IoTask::Over));
        let (task, _) = IoTask::begin(write());
        let (_, action) = go(task, backend, IoEvent::Refused);
        assert!(matches!(action, IoAction::Blocked { writing: true, .. }));
    }
}

#[test]
fn reports_read_as_they_should() {
    assert_eq!(
        read_report("\"secure_data.txt\"", 38),
        "[Actor] Read completed for \"secure_data.txt\". Received 38 bytes."
    );
    assert_eq!(write_report("\"x\"", 0), "[Actor] Write completed for \"x\". Wrote 0 bytes.");
    assert_eq!(blocked_report("\"x\"", false), "Sandbox isolation blocked read access to \"x\"");
    assert_eq!(blocked_report("\"x\"", true), "Sandbox isolation blocked write access to \"x\"");
    assert_eq!(QUEUE_CAPACITY, 1024);
}

fn serve(backend: Backend, content: &[u8], size: usize) -> Vec<u8> {
    let (mut task, mut action) = IoTask::begin(read());
    loop {
        let event = match action {
            IoAction::Open { .. } => IoEvent::Opened,
            IoAction::ReadAt { offset, .. } => {
                let from = offset as usize;
                let to = content.len().min(from + size);
                piece(&content[from..to], to - from)
            }
            IoAction::ReadAll => IoEvent::All { data: content.to_vec() },
            IoAction::DeliverRead { data, .. } => return data,
            other => panic!("{other:?}"),
        };
        (task, action) = go(task, backend, event);
    }
}

#[test]
fn a_read_gives_back_the_whole_file() {
    for content in [b"".as_slice(), b"x", b"hello world"] {
        for size in [1, 3, 100] {
            assert_eq!(serve(Backend::Ring, content, size), content);
        }
        assert_eq!(serve(Backend::Stream, content, 1), content);
    }
}
