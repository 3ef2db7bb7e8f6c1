//! Sandboxed I/O: what becomes of a request to read or write a file below one directory.
//!
//! A request is opened below the directory first; one that is refused there goes no
//! further. A ring reads a file in pieces, each at its offset, until there is nothing
//! left; a stream reads or writes a file as a whole.

use crate::text::{decimal, decimal_text};
use vstd::prelude::*;
use vstd::slice::slice_to_vec;

verus! {

/// How many requests can wait.
pub const QUEUE_CAPACITY: usize = 1024;

/// The size of the pieces that a ring reads.
pub const PIECE_SIZE: usize = 8192;

/// Represents an I/O request initiated by the userspace actor.
#[derive(Debug)]
pub enum IoRequest {
    Read { path: Vec<u8> },
    Write { path: Vec<u8>, data: Vec<u8> },
}

/// How the files are read and written.
#[derive(Debug, Clone, Copy, PartialEq, Eq, Structural)]
pub enum Backend {
    /// Through a completion queue, piece by piece.
    Ring,
    /// As a whole.
    Stream,
}

/// How far a request has come.
#[derive(Debug)]
pub enum IoTask {
    Opening { request: IoRequest },
    Reading { path: Vec<u8>, data: Vec<u8> },
    Writing { path: Vec<u8>, len: usize },
    Over,
}

/// What is to be done next.
#[derive(Debug)]
pub enum IoAction {
    /// Open a file below the directory.
    Open { path: Vec<u8> },
    /// Create a file below the directory.
    Create { path: Vec<u8> },
    /// Read a piece of the file.
    ReadAt { offset: u64, len: usize },
    /// Read the file.
    ReadAll,
    /// Write to the start of the file.
    WriteAt { data: Vec<u8> },
    /// Write the file.
    WriteAll { data: Vec<u8> },
    /// Hand what was read to the actor.
    DeliverRead { path: Vec<u8>, data: Vec<u8> },
    /// Tell the actor how much was written, and warn of a short write.
    DeliverWrite { path: Vec<u8>, count: usize, short: bool },
    /// Report that the directory's bounds were about to be crossed.
    Blocked { path: Vec<u8>, writing: bool },
    /// Nothing.
    Ignore,
}

/// What came of an action.
#[derive(Debug)]
pub enum IoEvent {
    Opened,
    Refused,
    /// A piece was read: the first `count` bytes of the buffer.
    Piece { buffer: Vec<u8>, count: usize },
    /// The file was read.
    All { data: Vec<u8> },
    ReadFailed,
    /// So much was written.
    Written { count: usize },
    WriteFailed,
}

pub enum RequestView {
    Read { path: Seq<u8> },
    Write { path: Seq<u8>, data: Seq<u8> },
}

pub enum TaskView {
    Opening { request: RequestView },
    Reading { path: Seq<u8>, data: Seq<u8> },
    Writing { path: Seq<u8>, len: nat },
    Over,
}

pub enum ActionView {
    Open { path: Seq<u8> },
    Create { path: Seq<u8> },
    ReadAt { offset: nat, len: nat },
    ReadAll,
    WriteAt { data: Seq<u8> },
    WriteAll { data: Seq<u8> },
    DeliverRead { path: Seq<u8>, data: Seq<u8> },
    DeliverWrite { path: Seq<u8>, count: nat, short: bool },
    Blocked { path: Seq<u8>, writing: bool },
    Ignore,
}

pub enum EventView {
    Opened,
    Refused,
    Piece { buffer: Seq<u8>, count: nat },
    All { data: Seq<u8> },
    ReadFailed,
    Written { count: nat },
    WriteFailed,
}

impl View for IoRequest {
    type V = RequestView;

    open spec fn view(&self) -> RequestView {
        match self {
            IoRequest::Read { path } => RequestView::Read { path: path@ },
            IoRequest::Write { path, data } => RequestView::Write { path: path@, data: data@ },
        }
    }
}

impl View for IoTask {
    type V = TaskView;

    open spec fn view(&self) -> TaskView {
        match self {
            IoTask::Opening { request } => TaskView::Opening { request: request@ },
            IoTask::Reading { path, data } => TaskView::Reading { path: path@, data: data@ },
            IoTask::Writing { path, len } => TaskView::Writing { path: path@, len: *len as nat },
            IoTask::Over => TaskView::Over,
        }
    }
}

impl View for IoAction {
    type V = ActionView;

    open spec fn view(&self) -> ActionView {
        match self {
            IoAction::Open { path } => ActionView::Open { path: path@ },
            IoAction::Create { path } => ActionView::Create { path: path@ },
            IoAction::ReadAt { offset, len } => ActionView::ReadAt {
                offset: *offset as nat,
                len: *len as nat,
            },
            IoAction::ReadAll => ActionView::ReadAll,
            IoAction::WriteAt { data } => ActionView::WriteAt { data: data@ },
            IoAction::WriteAll { data } => ActionView::WriteAll { data: data@ },
            IoAction::DeliverRead { path, data } => ActionView::DeliverRead {
                path: path@,
                data: data@,
            },
            IoAction::DeliverWrite { path, count, short } => ActionView::DeliverWrite {
                path: path@,
                count: *count as nat,
                short: *short,
            },
            IoAction::Blocked { path, writing } => ActionView::Blocked {
                path: path@,
                writing: *writing,
            },
            IoAction::Ignore => ActionView::Ignore,
        }
    }
}

impl View for IoEvent {
    type V = EventView;

    open spec fn view(&self) -> EventView {
        match self {
            IoEvent::Opened => EventView::Opened,
            IoEvent::Refused => EventView::Refused,
            IoEvent::Piece { buffer, count } => EventView::Piece {
                buffer: buffer@,
                count: *count as nat,
            },
            IoEvent::All { data } => EventView::All { data: data@ },
            IoEvent::ReadFailed => EventView::ReadFailed,
            IoEvent::Written { count } => EventView::Written { count: *count as nat },
            IoEvent::WriteFailed => EventView::WriteFailed,
        }
    }
}

/// What a request starts with.
pub open spec fn begun(request: RequestView) -> (TaskView, ActionView) {
    (
        TaskView::Opening { request },
        match request {
            RequestView::Read { path } => ActionView::Open { path },
            RequestView::Write { path, data } => ActionView::Create { path },
        },
    )
}

/// Whether an event can come of what a task waits for.
pub open spec fn fits(backend: Backend, task: TaskView, event: EventView) -> bool {
    match (task, event) {
        (TaskView::Opening { .. }, EventView::Opened) => true,
        (TaskView::Opening { .. }, EventView::Refused) => true,
        (TaskView::Reading { .. }, EventView::Piece { buffer, count }) => backend == Backend::Ring
            && count <= buffer.len(),
        (TaskView::Reading { .. }, EventView::All { .. }) => backend == Backend::Stream,
        (TaskView::Reading { .. }, EventView::ReadFailed) => true,
        (TaskView::Writing { len, .. }, EventView::Written { count }) => backend == Backend::Ring
            || count == len,
        (TaskView::Writing { .. }, EventView::WriteFailed) => true,
        _ => false,
    }
}

/// Reading on, behind what has been read.
pub open spec fn read_on(path: Seq<u8>, data: Seq<u8>) -> (TaskView, ActionView) {
    (
        TaskView::Reading { path, data },
        ActionView::ReadAt { offset: data.len(), len: PIECE_SIZE as nat },
    )
}

/// What follows an event. A ring hands over what it has when a later piece cannot be
/// read; a stream hands over a file that was read as a whole, or nothing.
pub open spec fn moved(backend: Backend, task: TaskView, event: EventView) -> (
    TaskView,
    ActionView,
) {
    match (task, event) {
        (TaskView::Opening { request: RequestView::Read { path } }, EventView::Opened) =>
            match backend {
                Backend::Ring => read_on(path, seq![]),
                Backend::Stream => (
                    TaskView::Reading { path, data: seq![] },
                    ActionView::ReadAll,
                ),
            },
        (TaskView::Opening { request: RequestView::Write { path, data } }, EventView::Opened) => (
            TaskView::Writing { path, len: data.len() },
            match backend {
                Backend::Ring => ActionView::WriteAt { data },
                Backend::Stream => ActionView::WriteAll { data },
            },
        ),
        (TaskView::Opening { request: RequestView::Read { path } }, EventView::Refused) => (
            TaskView::Over,
            ActionView::Blocked { path, writing: false },
        ),
        (TaskView::Opening { request: RequestView::Write { path, .. } }, EventView::Refused) => (
            TaskView::Over,
            ActionView::Blocked { path, writing: true },
        ),
        (TaskView::Reading { path, data }, EventView::Piece { buffer, count }) => if count == 0 {
            (TaskView::Over, ActionView::DeliverRead { path, data })
        } else {
            read_on(path, data + buffer.take(count as int))
        },
        (TaskView::Reading { path, .. }, EventView::All { data }) => (
            TaskView::Over,
            ActionView::DeliverRead { path, data },
        ),
        (TaskView::Reading { path, data }, EventView::ReadFailed) => (
            TaskView::Over,
            match backend {
                Backend::Ring => ActionView::DeliverRead { path, data },
                Backend::Stream => ActionView::Ignore,
            },
        ),
        (TaskView::Writing { path, len }, EventView::Written { count }) => (
            TaskView::Over,
            ActionView::DeliverWrite { path, count, short: count < len },
        ),
        _ => (TaskView::Over, ActionView::Ignore),
    }
}

fn copy_bytes(v: &Vec<u8>) -> (copy: Vec<u8>)
    ensures
        copy@ == v@,
{
    slice_to_vec(v.as_slice())
}

impl IoTask {
    /// What a request starts with.
    pub fn begin(request: IoRequest) -> (r: (IoTask, IoAction))
        ensures
            (r.0@, r.1@) == begun(request@),
    {
        let action = match &request {
            IoRequest::Read { path } => IoAction::Open { path: copy_bytes(path) },
            IoRequest::Write { path, .. } => IoAction::Create { path: copy_bytes(path) },
        };
        (IoTask::Opening { request }, action)
    }

    /// Whether an event can come of what the task waits for.
    pub fn expects(&self, backend: Backend, event: &IoEvent) -> (r: bool)
        ensures
            r == fits(backend, self@, event@),
    {
        match (self, event) {
            (IoTask::Opening { .. }, IoEvent::Opened) => true,
            (IoTask::Opening { .. }, IoEvent::Refused) => true,
            (IoTask::Reading { .. }, IoEvent::Piece { buffer, count }) => backend == Backend::Ring
                && *count <= buffer.len(),
            (IoTask::Reading { .. }, IoEvent::All { .. }) => backend == Backend::Stream,
            (IoTask::Reading { .. }, IoEvent::ReadFailed) => true,
            (IoTask::Writing { len, .. }, IoEvent::Written { count }) => backend == Backend::Ring
                || *count == *len,
            (IoTask::Writing { .. }, IoEvent::WriteFailed) => true,
            _ => false,
        }
    }

    /// What follows an event.
    pub fn advance(self, backend: Backend, event: IoEvent) -> (r: (IoTask, IoAction))
        requires
            fits(backend, self@, event@),
        ensures
            (r.0@, r.1@) == moved(backend, self@, event@),
    {
        match self {
            IoTask::Opening { request } => match event {
                IoEvent::Opened => IoTask::opened(backend, request),
                _ => match request {
                    IoRequest::Read { path } => (
                        IoTask::Over,
                        IoAction::Blocked { path, writing: false },
                    ),
                    IoRequest::Write { path, .. } => (
                        IoTask::Over,
                        IoAction::Blocked { path, writing: true },
                    ),
                },
            },
            IoTask::Reading { path, data } => match event {
                IoEvent::Piece { buffer, count } => IoTask::piece(path, data, buffer, count),
                IoEvent::All { data: whole } => (
                    IoTask::Over,
                    IoAction::DeliverRead { path, data: whole },
                ),
                _ => match backend {
                    Backend::Ring => (IoTask::Over, IoAction::DeliverRead { path, data }),
                    Backend::Stream => (IoTask::Over, IoAction::Ignore),
                },
            },
            IoTask::Writing { path, len } => match event {
                IoEvent::Written { count } => (
                    IoTask::Over,
                    IoAction::DeliverWrite { path, count, short: count < len },
                ),
                _ => (IoTask::Over, IoAction::Ignore),
            },
            IoTask::Over => (IoTask::Over, IoAction::Ignore),
        }
    }

    fn opened(backend: Backend, request: IoRequest) -> (r: (IoTask, IoAction))
        ensures
            (r.0@, r.1@) == moved(
                backend,
                TaskView::Opening { request: request@ },
                EventView::Opened,
            ),
    {
        match request {
            IoRequest::Read { path } => {
                let data: Vec<u8> = Vec::new();
                let action = match backend {
                    Backend::Ring => IoAction::ReadAt { offset: 0, len: PIECE_SIZE },
                    Backend::Stream => IoAction::ReadAll,
                };
                (IoTask::Reading { path, data }, action)
            },
            IoRequest::Write { path, data } => {
                let len: usize = data.len();
                let action = match backend {
                    Backend::Ring => IoAction::WriteAt { data },
                    Backend::Stream => IoAction::WriteAll { data },
                };
                (IoTask::Writing { path, len }, action)
            },
        }
    }

    fn piece(path: Vec<u8>, data: Vec<u8>, buffer: Vec<u8>, count: usize) -> (r: (IoTask, IoAction))
        requires
            count <= buffer@.len(),
        ensures
            (r.0@, r.1@) == moved(
                Backend::Ring,
                TaskView::Reading { path: path@, data: data@ },
                EventView::Piece { buffer: buffer@, count: count as nat },
            ),
    {
        if count == 0 {
            return (IoTask::Over, IoAction::DeliverRead { path, data });
        }
        let mut piece = buffer;
        piece.truncate(count);
        let mut so_far = data;
        so_far.append(&mut piece);
        assert(so_far@ == data@ + buffer@.take(count as int));
        let offset: u64 = so_far.len() as u64;
        (IoTask::Reading { path, data: so_far }, IoAction::ReadAt { offset, len: PIECE_SIZE })
    }
}

/// The actor's report of a read, for a path that reads as `shown`.
pub fn read_report(shown: &str, len: usize) -> (m: String)
    ensures
        m@ == "[Actor] Read completed for "@ + shown@ + ". Received "@ + decimal(len as nat)
            + " bytes."@,
{
    let mut m = "[Actor] Read completed for ".to_owned();
    m.append(shown);
    m.append(". Received ");
    m.append(decimal_text(len).as_str());
    m.append(" bytes.");
    m
}

/// The actor's report of a write.
pub fn write_report(shown: &str, count: usize) -> (m: String)
    ensures
        m@ == "[Actor] Write completed for "@ + shown@ + ". Wrote "@ + decimal(count as nat)
            + " bytes."@,
{
    let mut m = "[Actor] Write completed for ".to_owned();
    m.append(shown);
    m.append(". Wrote ");
    m.append(decimal_text(count).as_str());
    m.append(" bytes.");
    m
}

/// The report of a request that was refused.
pub fn blocked_report(shown: &str, writing: bool) -> (m: String)
    ensures
        m@ == "Sandbox isolation blocked "@ + (if writing {
            "write"@
        } else {
            "read"@
        }) + " access to "@ + shown@,
{
    let mut m = "Sandbox isolation blocked ".to_owned();
    m.append(
        if writing {
            "write"
        } else {
            "read"
        },
    );
    m.append(" access to ");
    m.append(shown);
    m
}

/// The task and the action that a request has come to with these events.
pub open spec fn state_with(
    backend: Backend,
    request: RequestView,
    events: Seq<EventView>,
) -> (TaskView, ActionView)
    decreases events.len(),
{
    if events.len() == 0 {
        begun(request)
    } else {
        moved(backend, state_with(backend, request, events.drop_last()).0, events.last())
    }
}

/// Whether each event can come of what the task waits for.
pub open spec fn is_run(backend: Backend, request: RequestView, events: Seq<EventView>) -> bool
    decreases events.len(),
{
    events.len() == 0 || (is_run(backend, request, events.drop_last()) && fits(
        backend,
        state_with(backend, request, events.drop_last()).0,
        events.last(),
    ))
}

/// The pieces that were read, one behind the other.
pub open spec fn gathered(events: Seq<EventView>) -> Seq<u8>
    decreases events.len(),
{
    if events.len() == 0 {
        seq![]
    } else {
        match events.last() {
            EventView::Piece { buffer, count } => gathered(events.drop_last()) + buffer.take(
                count as int,
            ),
            _ => gathered(events.drop_last()),
        }
    }
}

/// While a ring reads, it has all the pieces so far, and asks for the next one behind
/// them; what it hands over is all of them.
pub proof fn law_ring_delivers_every_piece(path: Seq<u8>, events: Seq<EventView>)
    requires
        is_run(Backend::Ring, RequestView::Read { path }, events),
    ensures
        match state_with(Backend::Ring, RequestView::Read { path }, events).0 {
            TaskView::Opening { request } => events.len() == 0 && request == (RequestView::Read {
                path,
            }),
            TaskView::Reading { path: p, data } => p == path && data == gathered(events)
                && state_with(Backend::Ring, RequestView::Read { path }, events).1 == (
            ActionView::ReadAt { offset: gathered(events).len(), len: PIECE_SIZE as nat }),
            TaskView::Writing { .. } => false,
            TaskView::Over => match state_with(
                Backend::Ring,
                RequestView::Read { path },
                events,
            ).1 {
                ActionView::DeliverRead { path: p, data } => p == path && data == gathered(events),
                ActionView::Blocked { path: p, writing } => p == path && !writing
                    && events == seq![EventView::Refused],
                _ => false,
            },
        },
    decreases events.len(),
{
    if events.len() > 0 {
        let before = events.drop_last();
        law_ring_delivers_every_piece(path, before);
        if before.len() == 0 {
            assert(gathered(before) == Seq::<u8>::empty());
            if events.last() is Refused {
                assert(events =~= seq![EventView::Refused]);
            }
        }
        if let EventView::Piece { buffer, count } = events.last() {
            if count == 0 {
                assert(gathered(before) + buffer.take(0) =~= gathered(before));
            }
        }
    }
}

/// Whether an action reaches the actor.
pub open spec fn is_delivery(action: ActionView) -> bool {
    action is DeliverRead || action is DeliverWrite
}

/// A request that is refused is over: no file is touched and the actor hears nothing.
pub proof fn law_refused_request_goes_no_further(
    backend: Backend,
    request: RequestView,
    event: EventView,
)
    ensures
        state_with(backend, request, seq![EventView::Refused]).0 is Over,
        state_with(backend, request, seq![EventView::Refused]).1 is Blocked,
        !fits(backend, state_with(backend, request, seq![EventView::Refused]).0, event),
{
    reveal_with_fuel(state_with, 2);
    assert(seq![EventView::Refused].drop_last() =~= Seq::<EventView>::empty());
}

/// The actor hears of a request at most once: what reaches it ends the request.
pub proof fn law_delivered_once(
    backend: Backend,
    request: RequestView,
    events: Seq<EventView>,
    event: EventView,
)
    requires
        is_run(backend, request, events),
        is_delivery(state_with(backend, request, events).1),
    ensures
        !fits(backend, state_with(backend, request, events).0, event),
{
}

/// The actor is told what the write reported, of the path that was asked for, and a
/// write of less than the data is marked.
pub proof fn law_write_reports_its_count(
    backend: Backend,
    path: Seq<u8>,
    data: Seq<u8>,
    count: nat,
)
    ensures
        state_with(
            backend,
            RequestView::Write { path, data },
            seq![EventView::Opened, EventView::Written { count }],
        ) == (
            TaskView::Over,
            ActionView::DeliverWrite { path, count, short: count < data.len() },
        ),
{
    reveal_with_fuel(state_with, 3);
    let request = RequestView::Write { path, data };
    let events = seq![EventView::Opened, EventView::Written { count }];
    assert(events.drop_last() =~= seq![EventView::Opened]);
    assert(seq![EventView::Opened].drop_last() =~= Seq::<EventView>::empty());
}

/// Whether an event is what a file of this content gives for an action: a piece is
/// what stands at its offset, and is empty only at the end of the file.
pub open spec fn is_true_to(content: Seq<u8>, action: ActionView, event: EventView) -> bool {
    match (action, event) {
        (ActionView::Open { .. }, EventView::Opened) => true,
        (ActionView::ReadAt { offset, len }, EventView::Piece { buffer, count }) => {
            &&& count <= buffer.len()
            &&& count <= len
            &&& offset + count <= content.len()
            &&& buffer.take(count as int) == content.subrange(
                offset as int,
                (offset + count) as int,
            )
            &&& count == 0 ==> offset == content.len()
        },
        (ActionView::ReadAll, EventView::All { data }) => data == content,
        _ => false,
    }
}

/// Whether the events are what a file of this content gives for a read, without errors.
pub open spec fn reads_file(
    backend: Backend,
    path: Seq<u8>,
    content: Seq<u8>,
    events: Seq<EventView>,
) -> bool
    decreases events.len(),
{
    events.len() == 0 || {
        let before = state_with(backend, RequestView::Read { path }, events.drop_last());
        &&& reads_file(backend, path, content, events.drop_last())
        &&& fits(backend, before.0, events.last())
        &&& is_true_to(content, before.1, events.last())
    }
}

/// Where a read of a file stands: it has a front part of the file, each event but the
/// first one made that longer, and once it is over the actor got the whole file.
pub open spec fn is_reading(
    backend: Backend,
    path: Seq<u8>,
    content: Seq<u8>,
    events: Seq<EventView>,
) -> bool {
    let state = state_with(backend, RequestView::Read { path }, events);
    match state.0 {
        TaskView::Opening { request } => events.len() == 0 && request == (RequestView::Read {
            path,
        }),
        TaskView::Reading { path: p, data } => {
            &&& p == path
            &&& data.len() <= content.len()
            &&& data == content.take(data.len() as int)
            &&& events.len() <= data.len() + 1
            &&& state.1 == match backend {
                Backend::Ring => ActionView::ReadAt { offset: data.len(), len: PIECE_SIZE as nat },
                Backend::Stream => ActionView::ReadAll,
            }
        },
        TaskView::Writing { .. } => false,
        TaskView::Over => {
            &&& state.1 == (ActionView::DeliverRead { path, data: content })
            &&& events.len() <= content.len() + 2
        },
    }
}

/// A read without errors hands the whole file to the actor, whatever pieces it comes
/// in, and comes to its end after at most as many events as the file has bytes, and two.
pub proof fn law_read_hands_over_the_whole_file(
    backend: Backend,
    path: Seq<u8>,
    content: Seq<u8>,
    events: Seq<EventView>,
)
    requires
        reads_file(backend, path, content, events),
    ensures
        is_reading(backend, path, content, events),
        events.len() <= content.len() + 2,
    decreases events.len(),
{
    if events.len() > 0 {
        let before = events.drop_last();
        law_read_hands_over_the_whole_file(backend, path, content, before);
        let state = state_with(backend, RequestView::Read { path }, before);
        if let TaskView::Opening { request } = state.0 {
            assert(content.take(0) =~= Seq::<u8>::empty());
        }
        if let TaskView::Reading { path: p, data } = state.0 {
            if let EventView::Piece { buffer, count } = events.last() {
                let more = data.len() + count;
                if count == 0 {
                    assert(content.take(data.len() as int) =~= content);
                } else {
                    assert(data + buffer.take(count as int) =~= content.take(more as int));
                }
            }
        }
    }
}

/// What a file that was just created holds after a write of which so much was done.
pub open spec fn content_after(data: Seq<u8>, count: nat) -> Seq<u8> {
    data.take(count as int)
}

/// The data that an action hands to a file.
pub open spec fn handed_over(action: ActionView) -> Seq<u8> {
    match action {
        ActionView::WriteAt { data } => data,
        ActionView::WriteAll { data } => data,
        _ => seq![],
    }
}

/// What is handed to the file that was created is the request's data, all of it, however
/// much that is.
pub proof fn law_write_hands_over_all_data(backend: Backend, path: Seq<u8>, data: Seq<u8>)
    ensures
        ({
            let begun = state_with(backend, RequestView::Write { path, data }, seq![]).1;
            let action = state_with(
                backend,
                RequestView::Write { path, data },
                seq![EventView::Opened],
            ).1;
            &&& begun == (ActionView::Create { path })
            &&& action is WriteAt || action is WriteAll
            &&& action is WriteAt <==> backend == Backend::Ring
            &&& handed_over(action) == data
        }),
{
    reveal_with_fuel(state_with, 2);
    assert(seq![EventView::Opened].drop_last() =~= Seq::<EventView>::empty());
}

/// A read gives back all data of a write request of which nothing was left out, through
/// whichever backend each of them goes: the file holds what the write handed to it.
pub proof fn law_read_gives_back_the_write(
    writer: Backend,
    reader: Backend,
    path: Seq<u8>,
    data: Seq<u8>,
    count: nat,
    events: Seq<EventView>,
)
    requires
        count <= data.len(),
        state_with(
            writer,
            RequestView::Write { path, data },
            seq![EventView::Opened, EventView::Written { count }],
        ).1 == (ActionView::DeliverWrite { path, count, short: false }),
        reads_file(
            reader,
            path,
            content_after(
                handed_over(
                    state_with(
                        writer,
                        RequestView::Write { path, data },
                        seq![EventView::Opened],
                    ).1,
                ),
                count,
            ),
            events,
        ),
        state_with(reader, RequestView::Read { path }, events).0 is Over,
    ensures
        state_with(reader, RequestView::Read { path }, events).1 == (ActionView::DeliverRead {
            path,
            data,
        }),
{
    law_write_reports_its_count(writer, path, data, count);
    law_write_hands_over_all_data(writer, path, data);
    assert(content_after(data, count) =~= data);
    law_read_hands_over_the_whole_file(reader, path, data, events);
}

/// Without errors the two backends hand over the same.
pub proof fn law_backends_agree(
    path: Seq<u8>,
    content: Seq<u8>,
    ring_events: Seq<EventView>,
    stream_events: Seq<EventView>,
)
    requires
        reads_file(Backend::Ring, path, content, ring_events),
        reads_file(Backend::Stream, path, content, stream_events),
        state_with(Backend::Ring, RequestView::Read { path }, ring_events).0 is Over,
        state_with(Backend::Stream, RequestView::Read { path }, stream_events).0 is Over,
    ensures
        state_with(Backend::Ring, RequestView::Read { path }, ring_events) == state_with(
            Backend::Stream,
            RequestView::Read { path },
            stream_events,
        ),
{
    law_read_hands_over_the_whole_file(Backend::Ring, path, content, ring_events);
    law_read_hands_over_the_whole_file(Backend::Stream, path, content, stream_events);
}

/// A request starts by opening or creating the file of its own path, and is refused under
/// that path.
pub proof fn law_request_is_about_its_path(backend: Backend, path: Seq<u8>, data: Seq<u8>)
    ensures
        begun(RequestView::Read { path }) == (
            TaskView::Opening { request: RequestView::Read { path } },
            ActionView::Open { path },
        ),
        begun(RequestView::Write { path, data }) == (
            TaskView::Opening { request: RequestView::Write { path, data } },
            ActionView::Create { path },
        ),
        moved(
            backend,
            TaskView::Opening { request: RequestView::Read { path } },
            EventView::Refused,
        ) == (TaskView::Over, ActionView::Blocked { path, writing: false }),
        moved(
            backend,
            TaskView::Opening { request: RequestView::Write { path, data } },
            EventView::Refused,
        ) == (TaskView::Over, ActionView::Blocked { path, writing: true }),
{
}

/// What has been read is kept: a ring adds each piece behind it and asks for the next one
/// there, in pieces of 8192 bytes, and hands over all that it has at the end of the file
/// or when a piece cannot be read; a stream hands over the file, or nothing.
pub proof fn law_what_was_read_is_kept(
    path: Seq<u8>,
    data: Seq<u8>,
    buffer: Seq<u8>,
    count: nat,
)
    requires
        0 < count <= buffer.len(),
    ensures
        ({
            let task = TaskView::Reading { path, data };
            let more = data + buffer.take(count as int);
            let asked = moved(
                Backend::Ring,
                TaskView::Opening { request: RequestView::Read { path } },
                EventView::Opened,
            );
            let all = (TaskView::Over, ActionView::DeliverRead { path, data });
            &&& asked.0 == (TaskView::Reading { path, data: Seq::empty() })
            &&& asked.1 == (ActionView::ReadAt { offset: 0, len: 8192 })
            &&& moved(Backend::Ring, task, EventView::Piece { buffer, count }) == (
                TaskView::Reading { path, data: more },
                ActionView::ReadAt { offset: data.len() + count, len: 8192 },
            )
            &&& moved(Backend::Ring, task, EventView::Piece { buffer, count: 0 }) == all
            &&& moved(Backend::Ring, task, EventView::ReadFailed) == all
            &&& moved(Backend::Stream, task, EventView::ReadFailed) == (
                TaskView::Over,
                ActionView::Ignore,
            )
            &&& moved(Backend::Stream, task, EventView::All { data: buffer }) == (
                TaskView::Over,
                ActionView::DeliverRead { path, data: buffer },
            )
            &&& moved(
                Backend::Stream,
                TaskView::Opening { request: RequestView::Read { path } },
                EventView::Opened,
            ).1 is ReadAll
            &&& QUEUE_CAPACITY == 1024
        }),
{
}

/// The actor is told the count that a write came to, of the path that was written, and a
/// count below the length of the data is marked as short; it hears nothing of a write that
/// failed.
pub proof fn law_write_ends(backend: Backend, path: Seq<u8>, len: nat, count: nat)
    ensures
        moved(backend, TaskView::Writing { path, len }, EventView::Written { count }) == (
            TaskView::Over,
            ActionView::DeliverWrite { path, count, short: count < len },
        ),
        moved(backend, TaskView::Writing { path, len }, EventView::WriteFailed) == (
            TaskView::Over,
            ActionView::Ignore,
        ),
{
}

/// Which events can come of what a task waits for.
pub proof fn law_events_of_tasks(
    backend: Backend,
    request: RequestView,
    path: Seq<u8>,
    data: Seq<u8>,
    count: nat,
    event: EventView,
)
    ensures
        fits(backend, TaskView::Opening { request }, event) <==> event is Opened || event is Refused,
        fits(backend, TaskView::Reading { path, data }, EventView::ReadFailed),
        fits(backend, TaskView::Reading { path, data }, EventView::Piece { buffer: data, count })
            <==> backend == Backend::Ring && count <= data.len(),
        fits(backend, TaskView::Reading { path, data }, EventView::All { data }) <==> backend
            == Backend::Stream,
        fits(backend, TaskView::Writing { path, len: data.len() }, EventView::Written { count })
            <==> backend == Backend::Ring || count == data.len(),
        fits(backend, TaskView::Writing { path, len: data.len() }, EventView::WriteFailed),
        !fits(backend, TaskView::Over, event),
{
}

/// A request, a task, an action and an event are known by all that they hold.
pub proof fn law_steps_are_known_by_all_they_hold(
    request: IoRequest,
    a: Vec<u8>,
    b: Vec<u8>,
    n: usize,
    offset: u64,
    flag: bool,
)
    ensures
        (IoRequest::Read { path: a })@ == (RequestView::Read { path: a@ }),
        (IoRequest::Write { path: a, data: b })@ == (RequestView::Write { path: a@, data: b@ }),
        (IoTask::Opening { request })@ == (TaskView::Opening { request: request@ }),
        (IoTask::Reading { path: a, data: b })@ == (TaskView::Reading { path: a@, data: b@ }),
        (IoTask::Writing { path: a, len: n })@ == (TaskView::Writing { path: a@, len: n as nat }),
        IoTask::Over@ is Over,
        (IoAction::Open { path: a })@ == (ActionView::Open { path: a@ }),
        (IoAction::Create { path: a })@ == (ActionView::Create { path: a@ }),
        (IoAction::ReadAt { offset, len: n })@ == (ActionView::ReadAt {
            offset: offset as nat,
            len: n as nat,
        }),
        IoAction::ReadAll@ is ReadAll,
        (IoAction::WriteAt { data: a })@ == (ActionView::WriteAt { data: a@ }),
        (IoAction::WriteAll { data: a })@ == (ActionView::WriteAll { data: a@ }),
        (IoAction::DeliverRead { path: a, data: b })@ == (ActionView::DeliverRead {
            path: a@,
            data: b@,
        }),
        (IoAction::DeliverWrite { path: a, count: n, short: flag })@ == (
        ActionView::DeliverWrite { path: a@, count: n as nat, short: flag }),
        (IoAction::Blocked { path: a, writing: flag })@ == (ActionView::Blocked {
            path: a@,
            writing: flag,
        }),
        IoAction::Ignore@ is Ignore,
        IoEvent::Opened@ is Opened,
        IoEvent::Refused@ is Refused,
        (IoEvent::Piece { buffer: a, count: n })@ == (EventView::Piece {
            buffer: a@,
            count: n as nat,
        }),
        (IoEvent::All { data: a })@ == (EventView::All { data: a@ }),
        IoEvent::ReadFailed@ is ReadFailed,
        (IoEvent::Written { count: n })@ == (EventView::Written { count: n as nat }),
        IoEvent::WriteFailed@ is WriteFailed,
{
}

} // verus!
