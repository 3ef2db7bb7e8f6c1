use arch_run::engine::CoreEngine;
use arch_run::fetch::{
    fetch_progress, refusal_message, reply_fits, FetchError, FetchReply, FetchStep, FetchTask, FetchProgress,
};
use arch_run::layers::PackageLayer;

fn engine() -> CoreEngine {
    CoreEngine { cache_root: b"/c".to_vec() }
}

fn layers() -> Vec<PackageLayer> {
    engine().layers_in("a 1 http://m/a\nb 2 http://m/b\nc 3 http://m/c\n")
}

fn task() -> FetchTask {
    engine().fetch_layers(&layers(), &[true, false, true]).remove(0)
}

fn go(task: &FetchTask, step: FetchStep, reply: FetchReply) -> FetchStep {
    assert!(reply_fits(&step, &reply), "{step:?} {reply:?}");
    task.advance(step, reply)
}

#[test]
fn only_missing_layers_are_fetched() {
    let tasks = engine().fetch_layers(&layers(), &[false, true, false]);
    let names: Vec<&str> = tasks.iter().map(|t| t.layer.name.as_str()).collect();
    assert_eq!(names, vec!["a", "c"]);
    assert_eq!(tasks[0].part, b"/c/a-1.part");
    assert_eq!(tasks[1].part, b"/c/c-3.part");
    assert_eq!(tasks[1].layer.path, b"/c/c-3");
    assert!(engine().fetch_layers(&layers(), &[true, true, true]).is_empty());
    assert!(engine().fetch_layers(&[], &[]).is_empty());
}

#[test]
fn a_download_goes_through_its_steps() {
    let task = task();
    let step = task.begin();
    assert!(matches!(&step, FetchStep::Request { url } if url == "http://m/b"));
    let step = go(&task, step, FetchReply::Status { code: 200 });
    assert!(matches!(&step, FetchStep::OpenPart { path } if path == b"/c/b-2.part"));
    let mut step = go(&task, step, FetchReply::Done);
    for chunk in [&b"one"[..], b"", b"two"] {
        assert!(matches!(step, FetchStep::Receive));
        step = go(&task, step, FetchReply::Chunk { data: chunk.to_vec() });
        assert!(matches!(&step, FetchStep::Write { data } if data == chunk));
        step = go(&task, step, FetchReply::Done);
    }
    let step = go(&task, step, FetchReply::End);
    assert!(matches!(step, FetchStep::Flush));
    let step = go(&task, step, FetchReply::Done);
    assert!(matches!(&step, FetchStep::MakeDir { path } if path == b"/c/b-2"));
    let step = go(&task, step, FetchReply::Done);
    assert!(matches!(&step, FetchStep::Reopen { path } if path == b"/c/b-2.part"));
    let step = go(&task, step, FetchReply::Done);
    assert!(matches!(step, FetchStep::Decode));
    let step = go(&task, step, FetchReply::Done);
    assert!(matches!(&step, FetchStep::Unpack { into } if into == b"/c/b-2"));
    let step = go(&task, step, FetchReply::Done);
    assert!(matches!(&step, FetchStep::RemovePart { path } if path == b"/c/b-2.part"));
    let step = go(&task, step, FetchReply::Done);
    assert!(matches!(step, FetchStep::Finish));
    assert!(!reply_fits(&step, &FetchReply::Done));
}

#[test]
fn a_bad_status_ends_the_download() {
    let task = task();
    for code in [100, 199, 300, 404, 500, 999] {
        match go(&task, task.begin(), FetchReply::Status { code }) {
            FetchStep::Fail { error } => assert_eq!(error, FetchError::Status { code }),
            other => panic!("{other:?}"),
        }
    }
    for code in [200, 206, 299] {
        assert!(matches!(go(&task, task.begin(), FetchReply::Status { code }), FetchStep::OpenPart { .. }));
    }
    assert!(!reply_fits(&task.begin(), &FetchReply::Status { code: 99 }));
    assert!(!reply_fits(&task.begin(), &FetchReply::Status { code: 1000 }));
    assert_eq!(task.refused(404), "Failed to download b (status 404 Not Found): http://m/b");
    assert_eq!(task.refused(299), "Failed to download b (status 299 <unknown status code>): http://m/b");
    assert_eq!(refusal_message("n", "s", "u"), "Failed to download n (status s): u");
}

#[test]
fn a_failed_step_ends_the_download() {
    let task = task();
    let cases = vec![
        (FetchStep::Request { url: "u".to_string() }, FetchError::Request),
        (FetchStep::OpenPart { path: vec![] }, FetchError::OpenPart),
        (FetchStep::Receive, FetchError::Receive),
        (FetchStep::Write { data: vec![] }, FetchError::Write),
        (FetchStep::Flush, FetchError::Flush),
        (FetchStep::MakeDir { path: vec![] }, FetchError::MakeDir),
        (FetchStep::Reopen { path: vec![] }, FetchError::Reopen),
        (FetchStep::Decode, FetchError::Decode),
        (FetchStep::Unpack { into: vec![] }, FetchError::Unpack),
        (FetchStep::RemovePart { path: vec![] }, FetchError::RemovePart),
    ];
    for (step, expected) in cases {
        match go(&task, step, FetchReply::Failed) {
            FetchStep::Fail { error } => {
                assert_eq!(error, expected);
                assert!(!reply_fits(&FetchStep::Fail { error }, &FetchReply::Failed));
            }
            other => panic!("{other:?}"),
        }
    }
}

#[test]
fn downloads_stand_beside_their_layers() {
    let engine = engine();
    let layers = engine.layers_in("foo 1 u\nbar 2-1 v\n");
    let tasks = engine.fetch_layers(&layers, &[false, false]);
    for task in &tasks {
        let beside = [task.layer.path.as_slice(), b".part"].concat();
        assert_eq!(task.part, beside);
    }
    assert_ne!(tasks[0].part, tasks[1].part);
}

#[test]
fn the_first_failure_decides() {
    assert_eq!(fetch_progress(&[], 0), FetchProgress::Finished);
    assert_eq!(fetch_progress(&[], 2), FetchProgress::Await { index: 0 });
    assert_eq!(fetch_progress(&[true], 2), FetchProgress::Await { index: 1 });
    assert_eq!(fetch_progress(&[true, true], 2), FetchProgress::Finished);
    assert_eq!(fetch_progress(&[true, false], 3), FetchProgress::Failed { index: 1 });
    assert_eq!(fetch_progress(&[true, false, false], 3), FetchProgress::Failed { index: 1 });
}
