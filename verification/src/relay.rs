//! What is forwarded from a running process: its output cut at line feeds,
//! and the events of a command that runs to completion.
use crate::text::{drop_empty, lemma_split_first, lemma_split_unbroken, split, split_from};
use vstd::prelude::*;

verus! {

/// The line feed.
pub const LINE_FEED: u8 = 10;

/// The views of a sequence of byte vectors.
pub open spec fn byte_views(v: Seq<Vec<u8>>) -> Seq<Seq<u8>> {
    Seq::new(v.len(), |i: int| v[i]@)
}

/// What one chunk of output is forwarded as: its non-empty pieces between
/// line feeds, each as it was read, carriage returns included.
pub open spec fn output_segments(chunk: Seq<u8>) -> Seq<Seq<u8>> {
    drop_empty(split(chunk, LINE_FEED))
}

/// The pieces of `chunk` between line feeds, empty pieces included.
pub fn split_at_line_feeds(chunk: &[u8]) -> (parts: Vec<Vec<u8>>)
    ensures
        byte_views(parts@) == split(chunk@, LINE_FEED),
{
    let mut parts: Vec<Vec<u8>> = Vec::new();
    let mut cur: Vec<u8> = Vec::new();
    let mut start: usize = 0;
    let mut i: usize = 0;
    while i < chunk.len()
        invariant
            start <= i <= chunk.len(),
            cur@ == chunk@.subrange(start as int, i as int),
            split(chunk@, LINE_FEED) == byte_views(parts@) + split_from(
                chunk@,
                LINE_FEED,
                start as int,
                i as int,
            ),
        decreases chunk.len() - i,
    {
        if chunk[i] == LINE_FEED {
            let ghost before = byte_views(parts@);
            parts.push(cur);
            assert(byte_views(parts@) == before.push(chunk@.subrange(start as int, i as int)));
            assert(byte_views(parts@) + split_from(chunk@, LINE_FEED, i + 1, i + 1) == before + (
            seq![chunk@.subrange(start as int, i as int)] + split_from(
                chunk@,
                LINE_FEED,
                i + 1,
                i + 1,
            )));
            cur = Vec::new();
            start = i + 1;
        } else {
            cur.push(chunk[i]);
        }
        i += 1;
    }
    let ghost before = byte_views(parts@);
    parts.push(cur);
    assert(byte_views(parts@) == before + seq![chunk@.subrange(start as int, chunk@.len() as int)]);
    parts
}

/// What the chunk `chunk` of a process's output is forwarded as, one event
/// for each member, in order.
pub fn split_output_chunk(chunk: &[u8]) -> (events: Vec<Vec<u8>>)
    ensures
        byte_views(events@) == output_segments(chunk@),
        events@.len() == output_segments(chunk@).len(),
{
    let parts = split_at_line_feeds(chunk);
    let mut events: Vec<Vec<u8>> = Vec::new();
    let mut i: usize = 0;
    while i < parts.len()
        invariant
            i <= parts.len(),
            byte_views(events@) == drop_empty(byte_views(parts@).take(i as int)),
        decreases parts.len() - i,
    {
        let ghost before = byte_views(events@);
        let ghost next = byte_views(parts@).take(i + 1);
        assert(next.drop_last() == byte_views(parts@).take(i as int));
        assert(next.last() == parts@[i as int]@);
        if parts[i].len() > 0 {
            events.push(parts[i].clone());
            assert(byte_views(events@) == before.push(parts@[i as int]@));
        }
        i += 1;
    }
    assert(byte_views(parts@).take(parts@.len() as int) == byte_views(parts@));
    assert(byte_views(events@).len() == events@.len());
    events
}

/// Output without a line feed is forwarded whole: a chunk that is not empty
/// and holds no line feed gives exactly one event, the chunk itself, with any
/// carriage returns in it.
pub proof fn lemma_unbroken_chunk_is_one_event(chunk: Seq<u8>)
    requires
        chunk.len() > 0,
        forall|j: int| 0 <= j < chunk.len() ==> chunk[j] != LINE_FEED,
    ensures
        output_segments(chunk) == seq![chunk],
{
    lemma_split_unbroken(chunk, LINE_FEED);
    let parts = seq![chunk];
    assert(parts.drop_last() == Seq::<Seq<u8>>::empty());
    assert(drop_empty(parts.drop_last()) == Seq::<Seq<u8>>::empty());
    assert(drop_empty(parts) == Seq::<Seq<u8>>::empty().push(chunk));
}

/// A chunk with two line feeds gives the non-empty ones of its three pieces:
/// where the first two are not empty, they are two events, and the third
/// piece is one more unless it is empty.
pub proof fn lemma_two_line_feeds(a: Seq<u8>, b: Seq<u8>, c: Seq<u8>)
    requires
        forall|j: int| 0 <= j < a.len() ==> a[j] != LINE_FEED,
        forall|j: int| 0 <= j < b.len() ==> b[j] != LINE_FEED,
        forall|j: int| 0 <= j < c.len() ==> c[j] != LINE_FEED,
    ensures
        split(a + seq![LINE_FEED] + (b + seq![LINE_FEED] + c), LINE_FEED) == seq![a, b, c],
        output_segments(a + seq![LINE_FEED] + (b + seq![LINE_FEED] + c)) == drop_empty(
            seq![a, b, c],
        ),
        a.len() > 0 && b.len() > 0 && c.len() == 0 ==> output_segments(
            a + seq![LINE_FEED] + (b + seq![LINE_FEED] + c),
        ) == seq![a, b],
        a.len() > 0 && b.len() > 0 && c.len() > 0 ==> output_segments(
            a + seq![LINE_FEED] + (b + seq![LINE_FEED] + c),
        ) == seq![a, b, c],
{
    lemma_split_unbroken(c, LINE_FEED);
    lemma_split_first(b, c, LINE_FEED);
    lemma_split_first(a, b + seq![LINE_FEED] + c, LINE_FEED);
    let three = seq![a, b, c];
    assert(seq![a] + (seq![b] + seq![c]) == three);
    let two = three.drop_last();
    assert(two == seq![a, b]);
    let one = two.drop_last();
    assert(one == seq![a]);
    assert(one.drop_last() == Seq::<Seq<u8>>::empty());
    assert(drop_empty(one.drop_last()) == Seq::<Seq<u8>>::empty());
    if a.len() > 0 && b.len() > 0 {
        assert(drop_empty(one) == Seq::<Seq<u8>>::empty().push(a));
        assert(drop_empty(one) == seq![a]);
        assert(drop_empty(two) == seq![a].push(b));
        assert(drop_empty(two) == seq![a, b]);
        if c.len() > 0 {
            assert(drop_empty(three) == seq![a, b].push(c));
            assert(drop_empty(three) == seq![a, b, c]);
        } else {
            assert(drop_empty(three) == seq![a, b]);
        }
    }
}

/// An event of a running command.
#[derive(Debug, Clone, PartialEq, Eq)]
pub enum CommandEvent {
    /// A line of standard output.
    OutputLine(String),
    /// A line of standard error.
    ErrorLine(String),
    /// The process has started.
    Spawned,
    /// The process could not be run.
    Failed(String),
    /// The process has ended, with its exit code if it has one.
    Terminated(Option<i32>),
}

/// What the consumer of an install, update or removal is told.
#[derive(Debug, Clone, PartialEq, Eq)]
pub enum InstallEvent {
    /// A line of progress.
    Output(String),
    /// A failure of the command itself.
    Error(String),
    /// The command has ended with this exit code.
    Completed(i32),
}

/// An install event as plain values.
pub enum InstallEventView {
    Output(Seq<char>),
    Error(Seq<char>),
    Completed(i32),
}

impl View for InstallEvent {
    type V = InstallEventView;

    open spec fn view(&self) -> InstallEventView {
        match self {
            InstallEvent::Output(s) => InstallEventView::Output(s@),
            InstallEvent::Error(s) => InstallEventView::Error(s@),
            InstallEvent::Completed(c) => InstallEventView::Completed(*c),
        }
    }
}

/// What is passed on for an event, and whether the event was the last.
#[derive(Debug, Clone, PartialEq, Eq)]
pub struct Forward {
    pub emit: Option<InstallEvent>,
    pub done: bool,
}

/// The exit code that is reported for a process that ended without one.
pub const NO_EXIT_CODE: i32 = -1;

/// What is passed on for `event`. Lines of both streams are progress; the end
/// of the process is reported with its exit code and is the last event.
pub open spec fn forwarded(event: CommandEvent) -> (Option<InstallEventView>, bool) {
    match event {
        CommandEvent::OutputLine(s) => (Some(InstallEventView::Output(s@)), false),
        CommandEvent::ErrorLine(s) => (Some(InstallEventView::Output(s@)), false),
        CommandEvent::Spawned => (None, false),
        CommandEvent::Failed(m) => (Some(InstallEventView::Error(m@)), false),
        CommandEvent::Terminated(Some(code)) => (Some(InstallEventView::Completed(code)), true),
        CommandEvent::Terminated(None) => (Some(InstallEventView::Completed(NO_EXIT_CODE)), true),
    }
}

/// The view of an optional install event.
pub open spec fn opt_event_view(o: Option<InstallEvent>) -> Option<InstallEventView> {
    match o {
        Some(e) => Some(e@),
        None => None,
    }
}

/// What is passed on for `event`, and whether it was the last.
pub fn forward_event(event: CommandEvent) -> (f: Forward)
    ensures
        (opt_event_view(f.emit), f.done) == forwarded(event),
        f.done <==> event is Terminated,
{
    match event {
        CommandEvent::OutputLine(s) => Forward { emit: Some(InstallEvent::Output(s)), done: false },
        CommandEvent::ErrorLine(s) => Forward { emit: Some(InstallEvent::Output(s)), done: false },
        CommandEvent::Spawned => Forward { emit: None, done: false },
        CommandEvent::Failed(m) => Forward { emit: Some(InstallEvent::Error(m)), done: false },
        CommandEvent::Terminated(Some(code)) => Forward {
            emit: Some(InstallEvent::Completed(code)),
            done: true,
        },
        CommandEvent::Terminated(None) => Forward {
            emit: Some(InstallEvent::Completed(NO_EXIT_CODE)),
            done: true,
        },
    }
}

} // verus!
