//! The application log: the most recent lines, at most a hundred.
use vstd::prelude::*;

use std::collections::VecDeque;

verus! {

/// The most lines the log keeps.
pub const LOG_CAPACITY: usize = 100usize;

/// The log after `text` is written to `log`: the oldest lines are dropped
/// so that the newest `LOG_CAPACITY - 1` stay, then `text` is appended.
pub open spec fn logged(log: Seq<String>, text: String) -> Seq<String> {
    let keep = if log.len() > LOG_CAPACITY - 1 {
        log.len() - (LOG_CAPACITY - 1)
    } else {
        0
    };
    log.skip(keep).push(text)
}

/// Appends a line to the log, dropping the oldest lines beyond the
/// capacity.
pub fn log_text(log: &mut VecDeque<String>, text: String)
    ensures
        final(log)@ == logged(old(log)@, text),
{
    let ghost start = log@;
    let mut dropped: usize = 0;
    assert(start.len() == log.len());
    while log.len() > LOG_CAPACITY - 1
        invariant
            dropped <= start.len(),
            start.len() <= usize::MAX,
            log@ == start.skip(dropped as int),
            log@.len() == start.len() - dropped,
            start.len() > LOG_CAPACITY - 1 ==> log@.len() >= LOG_CAPACITY - 1,
            start.len() <= LOG_CAPACITY - 1 ==> dropped == 0,
        decreases log.len(),
    {
        log.pop_front();
        dropped += 1;
        assert(log@ =~= start.skip(dropped as int));
    }
    log.push_back(text);
}

/// Writing to the log never lets it hold more than `LOG_CAPACITY` lines,
/// and the line written is the newest.
pub proof fn lemma_log_bounded(log: Seq<String>, text: String)
    ensures
        logged(log, text).len() <= LOG_CAPACITY,
        logged(log, text).last() == text,
        log.len() < LOG_CAPACITY ==> logged(log, text) == log.push(text),
{
    if log.len() < LOG_CAPACITY {
        assert(log.skip(0) =~= log);
    }
}

} // verus!
