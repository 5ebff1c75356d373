//! Following the live snapshot file written by the game overlay: which file
//! system events concern it, when a read of it is stable, and which reads
//! are queued for processing (every changed snapshot, each once).

use vstd::prelude::*;

verus! {

/// Reads of the live file tried before giving up.
pub const READ_STABLE_ATTEMPTS: usize = 10;

/// Kind of a file system event.
#[derive(Debug, Clone, Copy, PartialEq, Eq, Structural)]
pub enum WatchKind {
    /// A file was created.
    Create,
    /// A file was modified.
    Modify,
    /// Anything else (removal, access, ...).
    Other,
}

/// Whether a path's file name is the target's.
pub open spec fn is_target_name(name: Option<String>, target: Seq<char>) -> bool {
    match name {
        Some(n) => n@ == target,
        None => false,
    }
}

/// Whether some path of the event has the target's file name.
pub open spec fn names_target(file_names: Seq<Option<String>>, target: Seq<char>) -> bool {
    exists|k: int| 0 <= k < file_names.len() && #[trigger] is_target_name(file_names[k], target)
}

/// Whether a file system event concerns the watched file: a creation or a
/// modification of a path whose file name is the target's (`None` for a
/// path without a file name).
pub fn is_target_event(kind: WatchKind, file_names: &[Option<String>], target: &String) -> (b: bool)
    ensures
        b == ((kind == WatchKind::Create || kind == WatchKind::Modify) && names_target(file_names@, target@)),
{
    if !(kind == WatchKind::Create || kind == WatchKind::Modify) {
        return false;
    }
    let mut k: usize = 0;
    while k < file_names.len()
        invariant
            k <= file_names@.len(),
            kind == WatchKind::Create || kind == WatchKind::Modify,
            forall|j: int| 0 <= j < k ==> !#[trigger] is_target_name(file_names@[j], target@),
        decreases file_names@.len() - k,
    {
        match &file_names[k] {
            Some(n) => {
                if *n == *target {
                    assert(is_target_name(file_names@[k as int], target@));
                    return true;
                }
            },
            None => {},
        }
        k = k + 1;
    }
    false
}

/// What the watcher hands the reader.
#[derive(Debug, Clone)]
pub enum WatchInput {
    /// A file system event.
    Event { kind: WatchKind, file_names: Vec<Option<String>> },
    /// The watcher reported an error (events may have been lost).
    Error,
    /// The watcher is gone.
    Closed,
}

/// What the reader does next.
#[derive(Debug, Clone, Copy, PartialEq, Eq, Structural)]
pub enum ReaderAction {
    /// Read the live file and queue it if it changed.
    ReadTarget,
    /// Nothing to do.
    Ignore,
    /// Stop reading.
    Stop,
}

/// The reader's reaction: read the file on an event that concerns it, and
/// also after a watcher error (an event may have been lost); ignore other
/// events; stop once the watcher is gone.
pub fn reader_action(input: &WatchInput, target: &String) -> (a: ReaderAction)
    ensures
        a == match input {
            WatchInput::Event { kind, file_names } => if (*kind == WatchKind::Create || *kind == WatchKind::Modify)
                && names_target(file_names@, target@) {
                ReaderAction::ReadTarget
            } else {
                ReaderAction::Ignore
            },
            WatchInput::Error => ReaderAction::ReadTarget,
            WatchInput::Closed => ReaderAction::Stop,
        },
{
    match input {
        WatchInput::Event { kind, file_names } => if is_target_event(*kind, file_names.as_slice(), target) {
            ReaderAction::ReadTarget
        } else {
            ReaderAction::Ignore
        },
        WatchInput::Error => ReaderAction::ReadTarget,
        WatchInput::Closed => ReaderAction::Stop,
    }
}

/// The queue's memory after a read `c`, and what it queues: a read equal to
/// the last queued one is dropped, any other is queued and remembered.
pub open spec fn queue_step(last: Option<Seq<char>>, c: Seq<char>) -> (Option<Seq<char>>, Option<Seq<char>>) {
    if last == Some(c) {
        (last, None)
    } else {
        (Some(c), Some(c))
    }
}

/// The reads that get queued, in order, from the memory `last` on.
pub open spec fn queued(last: Option<Seq<char>>, reads: Seq<Seq<char>>) -> Seq<Seq<char>>
    decreases reads.len(),
{
    if reads.len() == 0 {
        Seq::empty()
    } else {
        let (next, out) = queue_step(last, reads[0]);
        match out {
            Some(c) => seq![c] + queued(next, reads.drop_first()),
            None => queued(next, reads.drop_first()),
        }
    }
}

/// Queues a read unless it equals the last queued one (see [`queue_step`]);
/// returns what is queued.
pub fn push_if_new(last_pushed: &mut Option<String>, contents: String) -> (r: Option<String>)
    ensures
        ({
            let (next, out) = queue_step(
                match *old(last_pushed) {
                    Some(s) => Some(s@),
                    None => None,
                },
                contents@,
            );
            &&& next == match *final(last_pushed) {
                Some(s) => Some(s@),
                None => None::<Seq<char>>,
            }
            &&& out == match r {
                Some(s) => Some(s@),
                None => None::<Seq<char>>,
            }
        }),
{
    let same = match &*last_pushed {
        Some(prev) => *prev == contents,
        None => false,
    };
    if same {
        None
    } else {
        let queued_copy = contents.clone();
        *last_pushed = Some(contents);
        Some(queued_copy)
    }
}

/// No two neighbours of `s` are equal.
pub open spec fn no_adjacent_repeats(s: Seq<Seq<char>>) -> bool {
    forall|i: int| 0 <= i < s.len() - 1 ==> #[trigger] s[i] != s[i + 1]
}

/// Nothing distinct is lost: where no read equals the one before it (nor
/// the first the last queued one), every read is queued, in order.
pub proof fn lemma_distinct_reads_all_queued(last: Option<Seq<char>>, reads: Seq<Seq<char>>)
    requires
        no_adjacent_repeats(reads),
        reads.len() > 0 ==> last != Some(reads[0]),
    ensures
        queued(last, reads) == reads,
    decreases reads.len(),
{
    if reads.len() > 0 {
        let rest = reads.drop_first();
        assert forall|i: int| 0 <= i < rest.len() - 1 implies #[trigger] rest[i] != rest[i + 1] by {
            assert(rest[i] == reads[i + 1] && rest[i + 1] == reads[i + 2]);
        }
        if rest.len() > 0 {
            assert(rest[0] == reads[1]);
        }
        lemma_distinct_reads_all_queued(Some(reads[0]), rest);
        assert(seq![reads[0]] + rest =~= reads);
    }
}

/// Repeats are dropped: the queue never holds the same snapshot twice in a
/// row, nor first the one queued last.
pub proof fn lemma_queue_has_no_repeats(last: Option<Seq<char>>, reads: Seq<Seq<char>>)
    ensures
        no_adjacent_repeats(queued(last, reads)),
        queued(last, reads).len() > 0 ==> last != Some(queued(last, reads)[0]),
    decreases reads.len(),
{
    if reads.len() > 0 {
        let (next, out) = queue_step(last, reads[0]);
        let rest = queued(next, reads.drop_first());
        lemma_queue_has_no_repeats(next, reads.drop_first());
        if out is Some {
            let q = seq![reads[0]] + rest;
            assert forall|i: int| 0 <= i < q.len() - 1 implies #[trigger] q[i] != q[i + 1] by {
                if i > 0 {
                    assert(q[i] == rest[i - 1] && q[i + 1] == rest[i]);
                } else {
                    assert(q[1] == rest[0]);
                }
            }
        }
    }
}

/// What one attempt of a stable read leads to.
#[derive(Debug, Clone, PartialEq, Eq)]
pub enum StableStep {
    /// Two reads in a row agree: the snapshot is complete.
    Done(String),
    /// Read again.
    Again,
}

/// One attempt of a stable read (`read` is the file's contents, `None` where
/// the read failed): a failed or empty read (the file is being rewritten)
/// changes nothing; a read equal to the previous good one is the
/// complete snapshot; any other becomes the previous good one.
pub fn read_stable_step(last_ok: &mut Option<String>, read: Option<String>) -> (r: StableStep)
    ensures
        read is None ==> r is Again && *final(last_ok) == *old(last_ok),
        read is Some && read->0@.len() == 0 ==> r is Again && *final(last_ok) == *old(last_ok),
        read is Some && read->0@.len() > 0 && (*old(last_ok) matches Some(p) && p@ == read->0@) ==> (r matches StableStep::Done(
            d,
        ) && d@ == read->0@) && *final(last_ok) == *old(last_ok),
        read is Some && read->0@.len() > 0 && !(*old(last_ok) matches Some(p) && p@ == read->0@) ==> r is Again && (
        *final(last_ok) matches Some(p) && p@ == read->0@),
{
    if read.is_none() {
        return StableStep::Again;
    }
    let c = read.unwrap();
    let empty = String::new();
    if c == empty {
        return StableStep::Again;
    }
    proof {
        if c@.len() == 0 {
            assert(c@ =~= empty@);
        }
    }
    let same = match &*last_ok {
        Some(p) => *p == c,
        None => false,
    };
    if same {
        StableStep::Done(c)
    } else {
        *last_ok = Some(c);
        StableStep::Again
    }
}

/// Why the live file could not be read.
#[derive(Debug, Clone, Copy, PartialEq, Eq, Structural)]
pub enum ReadError {
    /// No attempt read anything.
    Unreadable,
}

/// The outcome once the attempts are used up: the last good read (a late
/// snapshot is better than none), or an error where nothing was read.
pub fn read_stable_give_up(last_ok: Option<String>) -> (r: Result<String, ReadError>)
    ensures
        match last_ok {
            Some(c) => (r matches Ok(s) && s@ == c@),
            None => r == Err::<String, ReadError>(ReadError::Unreadable),
        },
{
    match last_ok {
        Some(c) => Ok(c),
        None => Err(ReadError::Unreadable),
    }
}

} // verus!
