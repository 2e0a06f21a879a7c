use vstd::prelude::*;

use crate::failure::{classify, failure_of, ConnectionFailure, Recovery};
use crate::record::{newer_than, SlowlogRecord};
use crate::uptime::UptimeError;

verus! {

/// The watermark of a reader that has reported nothing yet. It is below every
/// identifier that a server gives out.
pub const SENTINEL: i64 = -1;

/// The number of entries a reader asks for in one poll.
pub const DEFAULT_LENGTH: u32 = 128;

/// What a reader knows between two polls.
pub struct ReaderState {
    /// The highest identifier already reported, or [`SENTINEL`].
    pub watermark: int,
    /// The server's uptime in seconds as the last successful poll saw it; 0
    /// before the first.
    pub last_uptime: int,
    /// The number of entries asked for in one poll.
    pub fetch_length: int,
}

impl ReaderState {
    /// The watermark is an identifier that was reported, or [`SENTINEL`]: it
    /// never lies below that.
    pub open spec fn valid(self) -> bool {
        self.watermark >= SENTINEL
    }

    /// A server that reports less uptime than it did before has restarted.
    pub open spec fn restarted(self, uptime: int) -> bool {
        uptime < self.last_uptime
    }

    /// The state once `uptime` was observed: a restart puts the watermark back
    /// to [`SENTINEL`], and `uptime` is the new baseline either way.
    pub open spec fn observe(self, uptime: int) -> ReaderState {
        ReaderState {
            watermark: if self.restarted(uptime) {
                SENTINEL as int
            } else {
                self.watermark
            },
            last_uptime: uptime,
            fetch_length: self.fetch_length,
        }
    }

    /// The entries of `records` that this state has not reported.
    pub open spec fn fresh(self, records: Seq<SlowlogRecord>) -> Seq<SlowlogRecord> {
        newer_than(records, self.watermark)
    }

    /// The state once `fresh` was reported: its first entry, if there is one,
    /// gives the new watermark.
    pub open spec fn advance(self, fresh: Seq<SlowlogRecord>) -> ReaderState {
        ReaderState {
            watermark: if fresh.len() > 0 {
                fresh[0].id as int
            } else {
                self.watermark
            },
            last_uptime: self.last_uptime,
            fetch_length: self.fetch_length,
        }
    }

    /// What a poll reports that found the server up for `uptime` seconds and
    /// listing `records`.
    pub open spec fn reported(self, uptime: int, records: Seq<SlowlogRecord>) -> Seq<
        SlowlogRecord,
    > {
        self.observe(uptime).fresh(records)
    }

    /// The state after that poll.
    pub open spec fn polled(self, uptime: int, records: Seq<SlowlogRecord>) -> ReaderState {
        self.observe(uptime).advance(self.reported(uptime, records))
    }
}

/// How one round of queries against the server ended.
pub enum Poll {
    /// A query did not come back.
    Failed(redis::RedisError),
    /// The server answered `INFO SERVER` with nothing an uptime could be read
    /// from. The log was not asked for.
    Malformed(UptimeError),
    /// Both queries were answered.
    Fetched {
        /// The server's uptime in seconds.
        uptime: u64,
        /// The entries the server listed, newest first.
        records: Vec<SlowlogRecord>,
    },
}

/// Reports each entry of a server's slow log once, over any number of polls.
pub struct SlowlogReader {
    last_id: i64,
    length: u32,
    uptime: u64,
}

impl View for SlowlogReader {
    type V = ReaderState;

    closed spec fn view(&self) -> ReaderState {
        ReaderState {
            watermark: self.last_id as int,
            last_uptime: self.uptime as int,
            fetch_length: self.length as int,
        }
    }
}

impl SlowlogReader {
    #[verifier::type_invariant]
    spec fn above_sentinel(self) -> bool {
        self.last_id >= SENTINEL
    }

    /// A reader that has reported nothing and seen no uptime.
    pub fn new() -> (reader: SlowlogReader)
        ensures
            reader@ == (ReaderState {
                watermark: SENTINEL as int,
                last_uptime: 0,
                fetch_length: DEFAULT_LENGTH as int,
            }),
            reader@.valid(),
    {
        SlowlogReader { last_id: SENTINEL, length: DEFAULT_LENGTH, uptime: 0 }
    }

    /// The highest identifier reported so far, or [`SENTINEL`].
    pub fn watermark(&self) -> (watermark: i64)
        ensures
            watermark == self@.watermark,
            self@.valid(),
    {
        proof {
            use_type_invariant(self);
        }
        self.last_id
    }

    /// The uptime in seconds that the last successful poll saw.
    pub fn uptime(&self) -> (uptime: u64)
        ensures
            uptime == self@.last_uptime,
    {
        self.uptime
    }

    /// The number of entries to ask the server for in one poll.
    pub fn length(&self) -> (length: u32)
        ensures
            length == self@.fetch_length,
    {
        self.length
    }

    /// Takes in the outcome of one poll and hands back the entries that no
    /// earlier poll has reported, in the order the server listed them.
    pub fn get(&mut self, poll: Poll) -> (result: Result<Vec<SlowlogRecord>, ConnectionFailure>)
        ensures
            final(self)@.valid(),
            match poll {
                Poll::Failed(e) => {
                    &&& result == Err::<Vec<SlowlogRecord>, ConnectionFailure>(failure_of(e))
                    &&& final(self)@ == old(self)@
                },
                Poll::Malformed(_) => {
                    &&& result == Err::<Vec<SlowlogRecord>, ConnectionFailure>(
                        ConnectionFailure::ProtocolParse,
                    )
                    &&& final(self)@ == old(self)@
                },
                Poll::Fetched { uptime, records } => {
                    &&& result matches Ok(fresh)
                    &&& fresh@ == old(self)@.reported(uptime as int, records@)
                    &&& final(self)@ == old(self)@.polled(uptime as int, records@)
                },
            },
    {
        proof {
            use_type_invariant(&*self);
        }
        match poll {
            Poll::Failed(e) => Err(classify(&e)),
            Poll::Malformed(_) => Err(ConnectionFailure::ProtocolParse),
            Poll::Fetched { uptime, records } => {
                self.check_for_restart(uptime);
                let fresh = keep_newer(records, self.last_id);
                if fresh.len() > 0 {
                    proof {
                        use_type_invariant(&*self);
                        records@.lemma_filter_pred(|r: SlowlogRecord| r.id > self.last_id as int, 0);
                    }
                    self.last_id = fresh[0].id;
                }
                Ok(fresh)
            },
        }
    }

    /// Decides what is done about a failure that [`SlowlogReader::get`]
    /// returned. The reader itself is left as it is.
    pub fn redis_error_handler(&self, failure: ConnectionFailure) -> (recovery: Recovery)
        ensures
            recovery == failure.remedy(),
    {
        match failure {
            ConnectionFailure::Transient => Recovery::Reconnect,
            _ => Recovery::Surface(failure),
        }
    }

    /// Sets the watermark back if `uptime` shows a restart, and takes `uptime`
    /// as the new baseline.
    fn check_for_restart(&mut self, uptime: u64)
        ensures
            final(self)@ == old(self)@.observe(uptime as int),
    {
        proof {
            use_type_invariant(&*self);
        }
        if uptime < self.uptime {
            self.last_id = SENTINEL;
        }
        self.uptime = uptime;
    }
}

/// The entries of `records` above `mark`, in their order.
fn keep_newer(records: Vec<SlowlogRecord>, mark: i64) -> (kept: Vec<SlowlogRecord>)
    ensures
        kept@ == newer_than(records@, mark as int),
{
    let ghost all = records@;
    let ghost newer = |r: SlowlogRecord| r.id > mark as int;
    let mut kept: Vec<SlowlogRecord> = Vec::new();
    for record in it: records
        invariant
            it.seq() == all,
            newer == |r: SlowlogRecord| r.id > mark as int,
            kept@ == all.take(it.index()).filter(newer),
    {
        proof {
            assert(all.take(it.index() + 1) =~= all.take(it.index()).push(record));
            all.take(it.index()).lemma_filter_push(record, newer);
        }
        if record.id > mark {
            kept.push(record);
        }
    }
    assert(all.take(all.len() as int) =~= all);
    kept
}

} // verus!
