//! Fetching: which layers are missing, and the steps that bring one of them.
//!
//! A package is downloaded into a file beside the layers, chunk by chunk, then unpacked
//! into the layer's directory, and the file is removed.

use crate::engine::CoreEngine;
use crate::layers::{layer_dir_name, layer_under, LayerView, PackageLayer};
use crate::outside::{status_reason, status_text};
use crate::paths::{is_absolute, join, join_path, lemma_encode_concat};
use crate::text::decimal;
use vstd::prelude::*;
use vstd::slice::slice_to_vec;
use vstd::utf8::encode_utf8;

verus! {

/// A layer that is to be fetched.
#[derive(Debug)]
pub struct FetchTask {
    pub layer: PackageLayer,
    /// The file that the package is downloaded into.
    pub part: Vec<u8>,
}

/// What a task holds.
pub struct FetchView {
    pub layer: LayerView,
    pub part: Seq<u8>,
}

impl View for FetchTask {
    type V = FetchView;

    open spec fn view(&self) -> FetchView {
        FetchView { layer: self.layer@, part: self.part@ }
    }
}

/// The contents of a list of tasks.
pub open spec fn task_views(list: Seq<FetchTask>) -> Seq<FetchView> {
    list.map_values(|t: FetchTask| t@)
}

/// The task that brings a layer.
pub open spec fn task_for(root: Seq<u8>, layer: LayerView) -> FetchView {
    FetchView {
        layer,
        part: join(root, encode_utf8(layer_dir_name(layer.name, layer.version) + ".part"@)),
    }
}

/// The tasks for the layers that are not cached, in their order.
pub open spec fn pending(root: Seq<u8>, layers: Seq<PackageLayer>, cached: Seq<bool>) -> Seq<
    FetchView,
>
    decreases layers.len(),
{
    if layers.len() == 0 {
        seq![]
    } else {
        let before = pending(root, layers.drop_last(), cached);
        if cached[layers.len() - 1] {
            before
        } else {
            before.push(task_for(root, layers.last()@))
        }
    }
}

/// What is to be done next to bring a layer.
#[derive(Debug)]
pub enum FetchStep {
    /// Ask for the package.
    Request { url: String },
    /// Create the file for the package, or empty it.
    OpenPart { path: Vec<u8> },
    /// Wait for the next chunk of the package.
    Receive,
    /// Append a chunk to the file.
    Write { data: Vec<u8> },
    /// Flush and close the file.
    Flush,
    /// Create the layer's directory, with its parents.
    MakeDir { path: Vec<u8> },
    /// Open the file to read it.
    Reopen { path: Vec<u8> },
    /// Start to decompress the file.
    Decode,
    /// Unpack the archive.
    Unpack { into: Vec<u8> },
    /// Remove the file.
    RemovePart { path: Vec<u8> },
    /// The layer is there.
    Finish,
    /// The layer could not be brought.
    Fail { error: FetchError },
}

/// What came of a step.
#[derive(Debug)]
pub enum FetchReply {
    /// The server answered, with this status.
    Status { code: u16 },
    /// The step was done.
    Done,
    /// A chunk of the package.
    Chunk { data: Vec<u8> },
    /// The package is complete.
    End,
    /// The step failed.
    Failed,
}

/// Where a fetch failed.
#[derive(Debug, Clone, Copy, PartialEq, Eq, Structural)]
pub enum FetchError {
    Request,
    Status { code: u16 },
    OpenPart,
    Receive,
    Write,
    Flush,
    MakeDir,
    Reopen,
    Decode,
    Unpack,
    RemovePart,
}

/// What a step holds.
pub enum StepView {
    Request { url: Seq<char> },
    OpenPart { path: Seq<u8> },
    Receive,
    Write { data: Seq<u8> },
    Flush,
    MakeDir { path: Seq<u8> },
    Reopen { path: Seq<u8> },
    Decode,
    Unpack { into: Seq<u8> },
    RemovePart { path: Seq<u8> },
    Finish,
    Fail { error: FetchError },
}

/// What a reply holds.
pub enum ReplyView {
    Status { code: u16 },
    Done,
    Chunk { data: Seq<u8> },
    End,
    Failed,
}

impl View for FetchStep {
    type V = StepView;

    open spec fn view(&self) -> StepView {
        match self {
            FetchStep::Request { url } => StepView::Request { url: url@ },
            FetchStep::OpenPart { path } => StepView::OpenPart { path: path@ },
            FetchStep::Receive => StepView::Receive,
            FetchStep::Write { data } => StepView::Write { data: data@ },
            FetchStep::Flush => StepView::Flush,
            FetchStep::MakeDir { path } => StepView::MakeDir { path: path@ },
            FetchStep::Reopen { path } => StepView::Reopen { path: path@ },
            FetchStep::Decode => StepView::Decode,
            FetchStep::Unpack { into } => StepView::Unpack { into: into@ },
            FetchStep::RemovePart { path } => StepView::RemovePart { path: path@ },
            FetchStep::Finish => StepView::Finish,
            FetchStep::Fail { error } => StepView::Fail { error: *error },
        }
    }
}

impl View for FetchReply {
    type V = ReplyView;

    open spec fn view(&self) -> ReplyView {
        match self {
            FetchReply::Status { code } => ReplyView::Status { code: *code },
            FetchReply::Done => ReplyView::Done,
            FetchReply::Chunk { data } => ReplyView::Chunk { data: data@ },
            FetchReply::End => ReplyView::End,
            FetchReply::Failed => ReplyView::Failed,
        }
    }
}

/// Whether a status says that the request was met.
pub open spec fn is_success(code: u16) -> bool {
    200 <= code < 300
}

/// Whether a reply can come of a step.
pub open spec fn fits(step: StepView, reply: ReplyView) -> bool {
    match step {
        StepView::Request { .. } => match reply {
            ReplyView::Status { code } => 100 <= code <= 999,
            _ => reply is Failed,
        },
        StepView::Receive => reply is Chunk || reply is End || reply is Failed,
        StepView::Finish => false,
        StepView::Fail { .. } => false,
        _ => reply is Done || reply is Failed,
    }
}

/// The error for a step that failed. A task that is at its end has no such step.
pub open spec fn failure_of(step: StepView) -> FetchError {
    match step {
        StepView::Request { .. } => FetchError::Request,
        StepView::OpenPart { .. } => FetchError::OpenPart,
        StepView::Receive => FetchError::Receive,
        StepView::Write { .. } => FetchError::Write,
        StepView::Flush => FetchError::Flush,
        StepView::MakeDir { .. } => FetchError::MakeDir,
        StepView::Reopen { .. } => FetchError::Reopen,
        StepView::Decode => FetchError::Decode,
        StepView::Unpack { .. } => FetchError::Unpack,
        StepView::RemovePart { .. } => FetchError::RemovePart,
        StepView::Finish => FetchError::Request,
        StepView::Fail { error } => error,
    }
}

/// The step after a reply.
pub open spec fn step_after(task: FetchView, step: StepView, reply: ReplyView) -> StepView {
    match (step, reply) {
        (_, ReplyView::Failed) => StepView::Fail { error: failure_of(step) },
        (StepView::Request { .. }, ReplyView::Status { code }) => if is_success(code) {
            StepView::OpenPart { path: task.part }
        } else {
            StepView::Fail { error: FetchError::Status { code } }
        },
        (StepView::Receive, ReplyView::Chunk { data }) => StepView::Write { data },
        (StepView::Receive, _) => StepView::Flush,
        (StepView::OpenPart { .. }, _) => StepView::Receive,
        (StepView::Write { .. }, _) => StepView::Receive,
        (StepView::Flush, _) => StepView::MakeDir { path: task.layer.path },
        (StepView::MakeDir { .. }, _) => StepView::Reopen { path: task.part },
        (StepView::Reopen { .. }, _) => StepView::Decode,
        (StepView::Decode, _) => StepView::Unpack { into: task.layer.path },
        (StepView::Unpack { .. }, _) => StepView::RemovePart { path: task.part },
        (StepView::RemovePart { .. }, _) => StepView::Finish,
        _ => step,
    }
}

/// The message for a package that the server did not give.
pub open spec fn refusal(name: Seq<char>, status: Seq<char>, url: Seq<char>) -> Seq<char> {
    "Failed to download "@ + name + " (status "@ + status + "): "@ + url
}

/// The message for a package that the server did not give.
pub fn refusal_message(name: &str, status: &str, url: &str) -> (m: String)
    ensures
        m@ == refusal(name@, status@, url@),
{
    let mut m = "Failed to download ".to_owned();
    m.append(name);
    m.append(" (status ");
    m.append(status);
    m.append("): ");
    m.append(url);
    m
}

/// Whether a reply can come of a step.
pub fn reply_fits(step: &FetchStep, reply: &FetchReply) -> (r: bool)
    ensures
        r == fits(step@, reply@),
{
    match step {
        FetchStep::Request { .. } => match reply {
            FetchReply::Status { code } => 100 <= *code && *code <= 999,
            FetchReply::Failed => true,
            _ => false,
        },
        FetchStep::Receive => match reply {
            FetchReply::Chunk { .. } => true,
            FetchReply::End => true,
            FetchReply::Failed => true,
            _ => false,
        },
        FetchStep::Finish => false,
        FetchStep::Fail { .. } => false,
        _ => match reply {
            FetchReply::Done => true,
            FetchReply::Failed => true,
            _ => false,
        },
    }
}

fn error_at(step: &FetchStep) -> (error: FetchError)
    ensures
        error == failure_of(step@),
{
    match step {
        FetchStep::Request { .. } => FetchError::Request,
        FetchStep::OpenPart { .. } => FetchError::OpenPart,
        FetchStep::Receive => FetchError::Receive,
        FetchStep::Write { .. } => FetchError::Write,
        FetchStep::Flush => FetchError::Flush,
        FetchStep::MakeDir { .. } => FetchError::MakeDir,
        FetchStep::Reopen { .. } => FetchError::Reopen,
        FetchStep::Decode => FetchError::Decode,
        FetchStep::Unpack { .. } => FetchError::Unpack,
        FetchStep::RemovePart { .. } => FetchError::RemovePart,
        FetchStep::Finish => FetchError::Request,
        FetchStep::Fail { error } => *error,
    }
}

impl FetchTask {
    /// The first step.
    pub fn begin(&self) -> (step: FetchStep)
        ensures
            step@ == (StepView::Request { url: self@.layer.url }),
    {
        FetchStep::Request { url: self.layer.url.clone() }
    }

    /// The step after a reply.
    pub fn advance(&self, step: FetchStep, reply: FetchReply) -> (next: FetchStep)
        requires
            fits(step@, reply@),
        ensures
            next@ == step_after(self@, step@, reply@),
    {
        match reply {
            FetchReply::Failed => FetchStep::Fail { error: error_at(&step) },
            FetchReply::Status { code } => if 200 <= code && code < 300 {
                FetchStep::OpenPart { path: slice_to_vec(self.part.as_slice()) }
            } else {
                FetchStep::Fail { error: FetchError::Status { code } }
            },
            FetchReply::Chunk { data } => FetchStep::Write { data },
            FetchReply::End => FetchStep::Flush,
            FetchReply::Done => match step {
                FetchStep::OpenPart { .. } => FetchStep::Receive,
                FetchStep::Write { .. } => FetchStep::Receive,
                FetchStep::Flush => FetchStep::MakeDir {
                    path: slice_to_vec(self.layer.path.as_slice()),
                },
                FetchStep::MakeDir { .. } => FetchStep::Reopen {
                    path: slice_to_vec(self.part.as_slice()),
                },
                FetchStep::Reopen { .. } => FetchStep::Decode,
                FetchStep::Decode => FetchStep::Unpack {
                    into: slice_to_vec(self.layer.path.as_slice()),
                },
                FetchStep::Unpack { .. } => FetchStep::RemovePart {
                    path: slice_to_vec(self.part.as_slice()),
                },
                FetchStep::RemovePart { .. } => FetchStep::Finish,
                other => other,
            },
        }
    }

    /// The message for a status that says that the package is not to be had.
    pub fn refused(&self, code: u16) -> (m: String)
        requires
            100 <= code <= 999,
        ensures
            m@ == refusal(
                self.layer.name@,
                decimal(code as nat) + " "@ + status_reason(code),
                self.layer.url@,
            ),
    {
        let status = status_text(code);
        refusal_message(self.layer.name.as_str(), status.as_str(), self.layer.url.as_str())
    }
}

impl CoreEngine {
    /// The tasks that bring the missing layers, where `cached` says which layers' own
    /// directories exist.
    pub fn fetch_layers(&self, layers: &[PackageLayer], cached: &[bool]) -> (tasks: Vec<FetchTask>)
        requires
            layers@.len() == cached@.len(),
        ensures
            task_views(tasks@) == pending(self.cache_root@, layers@, cached@),
    {
        let mut tasks: Vec<FetchTask> = Vec::new();
        let ghost root = self.cache_root@;
        assert(task_views(tasks@) == Seq::<FetchView>::empty());
        for i in 0..layers.len()
            invariant
                root == self.cache_root@,
                layers@.len() == cached@.len(),
                task_views(tasks@) == pending(root, layers@.take(i as int), cached@),
        {
            assert(layers@.take(i + 1).drop_last() == layers@.take(i as int));
            if !cached[i] {
                let ghost before = task_views(tasks@);
                let task = self.fetch_task(&layers[i]);
                tasks.push(task);
                assert(task_views(tasks@) == before.push(task@));
            }
        }
        assert(layers@.take(layers@.len() as int) == layers@);
        tasks
    }

    fn fetch_task(&self, layer: &PackageLayer) -> (task: FetchTask)
        ensures
            task@ == task_for(self.cache_root@, layer@),
    {
        let file = layer.name.clone().concat("-").concat(layer.version.as_str()).concat(".part");
        FetchTask {
            layer: layer.clone(),
            part: join_path(self.cache_root.as_slice(), file.as_str().as_bytes()),
        }
    }
}

/// What the tasks of a run come to so far.
#[derive(Debug, Clone, Copy, PartialEq, Eq, Structural)]
pub enum FetchProgress {
    /// What comes of the fetch at `index` decides next.
    Await { index: usize },
    /// All layers are there.
    Finished,
    /// The run fails with the error of the fetch at `index`.
    Failed { index: usize },
}

/// Whether the task is the first of those that are over to have failed.
pub open spec fn is_first_failure(finished: Seq<bool>, index: int) -> bool {
    &&& 0 <= index < finished.len()
    &&& !finished[index]
    &&& forall|k: int| 0 <= k < index ==> #[trigger] finished[k]
}

/// What `total` tasks come to, where `finished` says of the first ones, in the order of
/// the layers, which of them ended well. The run succeeds exactly if all did, and fails
/// with the error of the first one that did not.
pub fn fetch_progress(finished: &[bool], total: usize) -> (progress: FetchProgress)
    requires
        finished@.len() <= total,
    ensures
        match progress {
            FetchProgress::Failed { index } => is_first_failure(finished@, index as int),
            FetchProgress::Finished => finished@.len() == total && forall|k: int|
                0 <= k < total ==> #[trigger] finished@[k],
            FetchProgress::Await { index } => index == finished@.len() && index < total && forall|
                k: int,
            |
                0 <= k < index ==> #[trigger] finished@[k],
        },
{
    for i in 0..finished.len()
        invariant
            forall|k: int| 0 <= k < i ==> #[trigger] finished@[k],
    {
        if !finished[i] {
            return FetchProgress::Failed { index: i };
        }
    }
    if finished.len() < total {
        FetchProgress::Await { index: finished.len() }
    } else {
        FetchProgress::Finished
    }
}

/// The first failure in the order of the layers is the only one that counts: there is
/// at most one such, whatever the tasks behind it came to.
pub proof fn law_one_failure_decides(
    finished: Seq<bool>,
    more: Seq<bool>,
    index: int,
    other: int,
)
    requires
        is_first_failure(finished, index),
        is_first_failure(finished + more, other),
    ensures
        other == index,
{
    assert((finished + more)[index] == finished[index]);
    if other < index {
        assert((finished + more)[other] == finished[other]);
    }
}

/// A layer is fetched exactly if it is not cached.
pub proof fn law_only_missing_layers_are_fetched(
    root: Seq<u8>,
    layers: Seq<PackageLayer>,
    cached: Seq<bool>,
    task: FetchView,
)
    requires
        layers.len() <= cached.len(),
    ensures
        pending(root, layers, cached).contains(task) <==> exists|i: int|
            0 <= i < layers.len() && !cached[i] && task == task_for(
                root,
                (#[trigger] layers[i])@,
            ),
    decreases layers.len(),
{
    let all = pending(root, layers, cached);
    if layers.len() > 0 {
        let n = layers.len() - 1;
        let front = layers.drop_last();
        let before = pending(root, front, cached);
        law_only_missing_layers_are_fetched(root, front, cached, task);
        if all.contains(task) {
            let k = choose|k: int| 0 <= k < all.len() && all[k] == task;
            if k < before.len() {
                assert(before[k] == task);
                assert(before.contains(task));
                let i = choose|i: int|
                    0 <= i < front.len() && !cached[i] && task == task_for(
                        root,
                        (#[trigger] front[i])@,
                    );
                assert(layers[i] == front[i]);
            } else {
                assert(layers[n]@ == layers.last()@);
            }
        }
        if exists|i: int|
            0 <= i < layers.len() && !cached[i] && task == task_for(root, (#[trigger] layers[i])@) {
            let i = choose|i: int|
                0 <= i < layers.len() && !cached[i] && task == task_for(
                    root,
                    (#[trigger] layers[i])@,
                );
            if i < n {
                assert(front[i] == layers[i]);
                assert(before.contains(task));
                let k = choose|k: int| 0 <= k < before.len() && before[k] == task;
                assert(all[k] == task);
            } else {
                assert(all[all.len() - 1] == task);
            }
        }
    }
}

/// A package is downloaded into a file beside the layer's directory, under that
/// directory's name and `.part`.
pub proof fn law_download_stands_beside_the_layer(
    root: Seq<u8>,
    name: Seq<char>,
    version: Seq<char>,
    url: Seq<char>,
)
    ensures
        ({
            let layer = layer_under(root, name, version, url);
            task_for(root, layer).part == layer.path + encode_utf8(".part"@)
        }),
{
    reveal_strlit("-");
    let dir = layer_dir_name(name, version);
    let bytes = encode_utf8(dir);
    let suffix = encode_utf8(".part"@);
    lemma_encode_concat(dir, ".part"@);
    assert(dir[name.len() as int] == '-');
    assert(bytes.len() > 0);
    assert(is_absolute(bytes + suffix) == is_absolute(bytes));
    assert(join(root, bytes + suffix) =~= join(root, bytes) + suffix);
}

/// Layers with directories of their own are downloaded into files of their own, so
/// that they can be fetched at the same time.
pub proof fn law_downloads_do_not_share_a_file(
    root: Seq<u8>,
    name: Seq<char>,
    version: Seq<char>,
    url: Seq<char>,
    other_name: Seq<char>,
    other_version: Seq<char>,
    other_url: Seq<char>,
)
    requires
        layer_under(root, name, version, url).path != layer_under(
            root,
            other_name,
            other_version,
            other_url,
        ).path,
    ensures
        task_for(root, layer_under(root, name, version, url)).part != task_for(
            root,
            layer_under(root, other_name, other_version, other_url),
        ).part,
{
    law_download_stands_beside_the_layer(root, name, version, url);
    law_download_stands_beside_the_layer(root, other_name, other_version, other_url);
    let a = layer_under(root, name, version, url).path;
    let b = layer_under(root, other_name, other_version, other_url).path;
    let suffix = encode_utf8(".part"@);
    if a + suffix == b + suffix {
        assert((a + suffix).len() == (b + suffix).len());
        assert(a =~= (a + suffix).take(a.len() as int));
        assert(b =~= (b + suffix).take(b.len() as int));
    }
}

/// The step that a task has come to with these replies.
pub open spec fn step_with(task: FetchView, replies: Seq<ReplyView>) -> StepView
    decreases replies.len(),
{
    if replies.len() == 0 {
        StepView::Request { url: task.layer.url }
    } else {
        step_after(task, step_with(task, replies.drop_last()), replies.last())
    }
}

/// Whether each reply can come of the step it follows.
pub open spec fn is_run(task: FetchView, replies: Seq<ReplyView>) -> bool
    decreases replies.len(),
{
    replies.len() == 0 || (is_run(task, replies.drop_last()) && fits(
        step_with(task, replies.drop_last()),
        replies.last(),
    ))
}

/// The bytes that were received.
pub open spec fn received(replies: Seq<ReplyView>) -> Seq<u8>
    decreases replies.len(),
{
    if replies.len() == 0 {
        seq![]
    } else {
        match replies.last() {
            ReplyView::Chunk { data } => received(replies.drop_last()) + data,
            _ => received(replies.drop_last()),
        }
    }
}

/// The bytes that were written to the file.
pub open spec fn written(task: FetchView, replies: Seq<ReplyView>) -> Seq<u8>
    decreases replies.len(),
{
    if replies.len() == 0 {
        seq![]
    } else {
        let before = written(task, replies.drop_last());
        match (step_with(task, replies.drop_last()), replies.last()) {
            (StepView::Write { data }, ReplyView::Done) => before + data,
            _ => before,
        }
    }
}

/// Whether a step comes after the download.
pub open spec fn is_downloaded(step: StepView) -> bool {
    match step {
        StepView::MakeDir { .. } => true,
        StepView::Reopen { .. } => true,
        StepView::Decode => true,
        StepView::Unpack { .. } => true,
        StepView::RemovePart { .. } => true,
        StepView::Finish => true,
        _ => false,
    }
}

/// Nothing is received before the server met the request, and what is received is
/// written, in order and once.
pub proof fn law_file_holds_what_was_received(task: FetchView, replies: Seq<ReplyView>)
    requires
        is_run(task, replies),
        !(step_with(task, replies) is Fail),
    ensures
        received(replies) == written(task, replies) + match step_with(task, replies) {
            StepView::Write { data } => data,
            _ => seq![],
        },
        !(step_with(task, replies) is Request) ==> replies.len() > 0 && (
        replies[0] matches ReplyView::Status { code } && is_success(code)),
        step_with(task, replies) is Request ==> replies.len() == 0,
    decreases replies.len(),
{
    if replies.len() > 0 {
        let before = replies.drop_last();
        assert(!(step_with(task, before) is Fail));
        law_file_holds_what_was_received(task, before);
        assert(received(replies) =~= written(task, replies) + match step_with(task, replies) {
            StepView::Write { data } => data,
            _ => seq![],
        });
        if before.len() > 0 {
            assert(replies[0] == before[0]);
        }
    } else {
        assert(received(replies) =~= written(task, replies) + Seq::<u8>::empty());
    }
}

/// What is unpacked is a file that holds all that was received, from a request that
/// was met; and the task ends well only once the file is removed again.
pub proof fn law_unpacks_the_whole_download(task: FetchView, replies: Seq<ReplyView>)
    requires
        is_run(task, replies),
        is_downloaded(step_with(task, replies)),
    ensures
        received(replies) == written(task, replies),
        replies[0] matches ReplyView::Status { code } && is_success(code),
        step_with(task, replies) is Finish ==> {
            &&& replies.last() is Done
            &&& step_with(task, replies.drop_last()) == (StepView::RemovePart { path: task.part })
        },
{
    law_file_holds_what_was_received(task, replies);
    assert(written(task, replies) + Seq::<u8>::empty() == written(task, replies));
}

/// A failed step ends the task with that step's error, and nothing follows.
pub proof fn law_failure_ends_the_task(
    task: FetchView,
    replies: Seq<ReplyView>,
    reply: ReplyView,
)
    requires
        is_run(task, replies),
        replies.len() > 0,
        replies.last() is Failed,
    ensures
        step_with(task, replies) == (StepView::Fail {
            error: failure_of(step_with(task, replies.drop_last())),
        }),
        !fits(step_with(task, replies), reply),
{
}

/// A task holds the whole layer, and the file of the layer's name and version and `.part`
/// in the cache.
pub proof fn law_task_holds_the_layer(root: Seq<u8>, layer: LayerView, list: Seq<FetchTask>, i: int)
    requires
        0 <= i < list.len(),
    ensures
        task_for(root, layer).layer == layer,
        task_for(root, layer).part == join(
            root,
            encode_utf8(layer.name + "-"@ + layer.version + ".part"@),
        ),
        task_views(list).len() == list.len(),
        task_views(list)[i].layer == list[i].layer@,
        task_views(list)[i].part == list[i].part@,
{
}

/// A further layer adds its own task behind the others, once, exactly if it is not cached.
pub proof fn law_missing_layer_adds_a_task(
    root: Seq<u8>,
    layers: Seq<PackageLayer>,
    layer: PackageLayer,
    cached: Seq<bool>,
)
    requires
        layers.len() < cached.len(),
    ensures
        pending(root, Seq::<PackageLayer>::empty(), cached).len() == 0,
        cached[layers.len() as int] ==> pending(root, layers.push(layer), cached) == pending(
            root,
            layers,
            cached,
        ),
        !cached[layers.len() as int] ==> {
            let before = pending(root, layers, cached);
            let after = pending(root, layers.push(layer), cached);
            let n = before.len() as int;
            &&& after.len() == n + 1
            &&& after.take(n) == before
            &&& after[n].layer == layer@
            &&& after[n].part == join(
                root,
                encode_utf8(layer.name@ + "-"@ + layer.version@ + ".part"@),
            )
        },
{
    let before = pending(root, layers, cached);
    assert(layers.push(layer).drop_last() =~= layers);
    if !cached[layers.len() as int] {
        assert(pending(root, layers.push(layer), cached).take(before.len() as int) =~= before);
    }
}

/// The server's answer is taken exactly if its status says that the request was met;
/// then the file is opened, and any other status ends the task with that status.
pub proof fn law_status_decides(task: FetchView, url: Seq<char>, code: u16)
    ensures
        200 <= code <= 299 ==> step_after(
            task,
            StepView::Request { url },
            ReplyView::Status { code },
        ) == (StepView::OpenPart { path: task.part }),
        code < 200 || code > 299 ==> step_after(
            task,
            StepView::Request { url },
            ReplyView::Status { code },
        ) == (StepView::Fail { error: FetchError::Status { code } }),
{
}

/// Each chunk is written whole before the next one is waited for, whatever its size, and
/// the end of the package leads to the end of the file.
pub proof fn law_chunk_is_written_whole(task: FetchView, data: Seq<u8>, path: Seq<u8>)
    ensures
        step_after(task, StepView::OpenPart { path }, ReplyView::Done) is Receive,
        step_after(task, StepView::Receive, ReplyView::Chunk { data }) == (StepView::Write { data }),
        step_after(task, StepView::Write { data }, ReplyView::Done) is Receive,
        step_after(task, StepView::Receive, ReplyView::End) is Flush,
{
}

/// What was downloaded is unpacked into the layer's directory, which is made first, from
/// the file that it was written to, and that file is removed.
pub proof fn law_download_is_unpacked(task: FetchView)
    ensures
        ({
            let make = StepView::MakeDir { path: task.layer.path };
            let reopen = StepView::Reopen { path: task.part };
            let unpack = StepView::Unpack { into: task.layer.path };
            let remove = StepView::RemovePart { path: task.part };
            &&& step_after(task, StepView::Flush, ReplyView::Done) == make
            &&& step_after(task, make, ReplyView::Done) == reopen
            &&& step_after(task, reopen, ReplyView::Done) is Decode
            &&& step_after(task, StepView::Decode, ReplyView::Done) == unpack
            &&& step_after(task, unpack, ReplyView::Done) == remove
            &&& step_after(task, remove, ReplyView::Done) is Finish
        }),
{
}

/// A step that fails ends the task with the error of that step.
pub proof fn law_error_names_the_step(
    task: FetchView,
    url: Seq<char>,
    data: Seq<u8>,
    path: Seq<u8>,
)
    ensures
        step_after(task, StepView::Request { url }, ReplyView::Failed) == (StepView::Fail {
            error: FetchError::Request,
        }),
        step_after(task, StepView::OpenPart { path }, ReplyView::Failed) == (StepView::Fail {
            error: FetchError::OpenPart,
        }),
        step_after(task, StepView::Receive, ReplyView::Failed) == (StepView::Fail {
            error: FetchError::Receive,
        }),
        step_after(task, StepView::Write { data }, ReplyView::Failed) == (StepView::Fail {
            error: FetchError::Write,
        }),
        step_after(task, StepView::Flush, ReplyView::Failed) == (StepView::Fail {
            error: FetchError::Flush,
        }),
        step_after(task, StepView::MakeDir { path }, ReplyView::Failed) == (StepView::Fail {
            error: FetchError::MakeDir,
        }),
        step_after(task, StepView::Reopen { path }, ReplyView::Failed) == (StepView::Fail {
            error: FetchError::Reopen,
        }),
        step_after(task, StepView::Decode, ReplyView::Failed) == (StepView::Fail {
            error: FetchError::Decode,
        }),
        step_after(task, StepView::Unpack { into: path }, ReplyView::Failed) == (StepView::Fail {
            error: FetchError::Unpack,
        }),
        step_after(task, StepView::RemovePart { path }, ReplyView::Failed) == (StepView::Fail {
            error: FetchError::RemovePart,
        }),
{
}

/// Which replies can come of which steps: a failure of each, but not of the end.
pub proof fn law_replies_of_steps(
    url: Seq<char>,
    data: Seq<u8>,
    path: Seq<u8>,
    error: FetchError,
    code: u16,
    reply: ReplyView,
)
    ensures
        fits(StepView::Request { url }, ReplyView::Status { code }) <==> 100 <= code <= 999,
        fits(StepView::Request { url }, ReplyView::Failed),
        fits(StepView::Receive, reply) <==> reply is Chunk || reply is End || reply is Failed,
        fits(StepView::OpenPart { path }, reply) <==> reply is Done || reply is Failed,
        fits(StepView::Write { data }, reply) <==> reply is Done || reply is Failed,
        fits(StepView::Flush, reply) <==> reply is Done || reply is Failed,
        fits(StepView::MakeDir { path }, reply) <==> reply is Done || reply is Failed,
        fits(StepView::Reopen { path }, reply) <==> reply is Done || reply is Failed,
        fits(StepView::Decode, reply) <==> reply is Done || reply is Failed,
        fits(StepView::Unpack { into: path }, reply) <==> reply is Done || reply is Failed,
        fits(StepView::RemovePart { path }, reply) <==> reply is Done || reply is Failed,
        !fits(StepView::Finish, reply),
        !fits(StepView::Fail { error }, reply),
{
}

/// The message for a refused package holds its name, the status and the address.
pub proof fn law_refusal_message(name: Seq<char>, status: Seq<char>, url: Seq<char>)
    ensures
        refusal(name, status, url) == "Failed to download "@ + name + " (status "@ + status
            + "): "@ + url,
{
}

/// A step and a reply are known by all that they hold.
pub proof fn law_steps_are_known_by_all_they_hold(
    url: String,
    bytes: Vec<u8>,
    code: u16,
    error: FetchError,
)
    ensures
        (FetchStep::Request { url })@ == (StepView::Request { url: url@ }),
        (FetchStep::OpenPart { path: bytes })@ == (StepView::OpenPart { path: bytes@ }),
        FetchStep::Receive@ is Receive,
        (FetchStep::Write { data: bytes })@ == (StepView::Write { data: bytes@ }),
        FetchStep::Flush@ is Flush,
        (FetchStep::MakeDir { path: bytes })@ == (StepView::MakeDir { path: bytes@ }),
        (FetchStep::Reopen { path: bytes })@ == (StepView::Reopen { path: bytes@ }),
        FetchStep::Decode@ is Decode,
        (FetchStep::Unpack { into: bytes })@ == (StepView::Unpack { into: bytes@ }),
        (FetchStep::RemovePart { path: bytes })@ == (StepView::RemovePart { path: bytes@ }),
        FetchStep::Finish@ is Finish,
        (FetchStep::Fail { error })@ == (StepView::Fail { error }),
        (FetchReply::Status { code })@ == (ReplyView::Status { code }),
        FetchReply::Done@ is Done,
        (FetchReply::Chunk { data: bytes })@ == (ReplyView::Chunk { data: bytes@ }),
        FetchReply::End@ is End,
        FetchReply::Failed@ is Failed,
{
}

} // verus!
