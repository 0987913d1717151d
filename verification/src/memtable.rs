//! The in-memory table of write-ahead log entries.
use vstd::prelude::*;
use std::collections::VecDeque;
use crate::row::{Log, LogError, log_step};

verus! {

/// The write-ahead log entries read so far, oldest first.
#[derive(Debug)]
pub struct MemTable {
    pub logs: VecDeque<Log>,
}

/// Reading entries from `pos` until the end marker: `None` where a read
/// panics, else the tag and timestamp of each entry in order, or the first
/// error. At the end of the input the key length reads as zero.
pub open spec fn entries_from(input: Seq<u8>, pos: int) -> Option<Result<Seq<(u8, u64)>, LogError>>
    decreases input.len() - pos,
{
    if pos >= input.len() || pos < 0 {
        Some(Ok(Seq::empty()))
    } else {
        match log_step(input, pos) {
            None => None,
            Some(Err(e)) => Some(Err(e)),
            Some(Ok(None)) => Some(Ok(Seq::empty())),
            Some(Ok(Some((tag, ts, next)))) => match entries_from(input, next) {
                None => None,
                Some(Err(e)) => Some(Err(e)),
                Some(Ok(rest)) => Some(Ok(seq![(tag, ts)] + rest)),
            },
        }
    }
}

/// The action tag and timestamp of each entry.
pub open spec fn summaries(logs: Seq<Log>) -> Seq<(u8, u64)> {
    logs.map_values(|l: Log| (l.action.tag(), l.timestamp))
}

impl MemTable {
    /// Reads entries from the start of `input` until the end marker.
    pub fn from_reader(input: &[u8]) -> (r: Result<Self, LogError>)
        requires
            entries_from(input@, 0) is Some,
        ensures
            match r {
                Ok(t) => {
                    &&& entries_from(input@, 0) == Some(Ok::<Seq<(u8, u64)>, LogError>(
                        summaries(t.logs@),
                    ))
                    &&& forall|i: int|
                        0 <= i < t.logs@.len() ==> (#[trigger] t.logs@[i]).key@.len() == 0
                            && t.logs@[i].action.payload_empty()
                },
                Err(e) => entries_from(input@, 0) == Some(Err::<Seq<(u8, u64)>, LogError>(e)),
            },
    {
        let mut logs: VecDeque<Log> = VecDeque::new();
        let mut pos: usize = 0;
        loop
            invariant
                pos <= input@.len(),
                entries_from(input@, pos as int) is Some,
                entries_from(input@, 0) is Some,
                forall|i: int|
                    0 <= i < logs@.len() ==> (#[trigger] logs@[i]).key@.len() == 0
                        && logs@[i].action.payload_empty(),
                match entries_from(input@, pos as int) {
                    Some(Ok(rest)) => entries_from(input@, 0) == Some(
                        Ok::<Seq<(u8, u64)>, LogError>(summaries(logs@) + rest),
                    ),
                    Some(Err(e)) => entries_from(input@, 0) == Some(
                        Err::<Seq<(u8, u64)>, LogError>(e),
                    ),
                    None => true,
                },
            ensures
                entries_from(input@, 0) == Some(Ok::<Seq<(u8, u64)>, LogError>(summaries(logs@))),
                forall|i: int|
                    0 <= i < logs@.len() ==> (#[trigger] logs@[i]).key@.len() == 0
                        && logs@[i].action.payload_empty(),
            decreases input@.len() - pos,
        {
            if pos >= input.len() {
                proof {
                    assert(summaries(logs@) + Seq::<(u8, u64)>::empty() =~= summaries(logs@));
                    assert(entries_from(input@, pos as int) == Some(
                        Ok::<Seq<(u8, u64)>, LogError>(Seq::empty()),
                    ));
                }
                break;
            }
            match Log::from_reader(input, pos) {
                Ok(Some((log, next))) => {
                    let ghost before = logs@;
                    let ghost item = (log.action.tag(), log.timestamp);
                    assert(next > pos);
                    logs.push_back(log);
                    proof {
                        assert(summaries(logs@) =~= summaries(before) + seq![item]);
                        if let Some(Ok(rest)) = entries_from(input@, next as int) {
                            assert(summaries(before) + (seq![item] + rest)
                                =~= summaries(logs@) + rest);
                        }
                    }
                    pos = next;
                },
                Ok(None) => {
                    proof {
                        assert(summaries(logs@) + Seq::<(u8, u64)>::empty() =~= summaries(logs@));
                        assert(entries_from(input@, pos as int) == Some(
                            Ok::<Seq<(u8, u64)>, LogError>(Seq::empty()),
                        ));
                    }
                    break;
                },
                Err(e) => {
                    return Err(e);
                },
            }
        }
        Ok(MemTable { logs })
    }
}

} // verus!
