use vstd::prelude::*;

use crate::reader::{ReaderState, SENTINEL};
use crate::record::{
    embeds, highest, lemma_highest_is_first, lemma_highest_is_greatest, lemma_highest_of_both,
    lemma_newer_than_keeps_all, lemma_newer_than_keeps_none, lemma_newer_than_keeps_order,
    lemma_newer_than_starts_with_first, lemma_newer_than_stays_newest_first, newer_than,
    newest_first, SlowlogRecord,
};

verus! {

/// A poll of a listing that is newest first leaves as watermark the highest
/// identifier of the listing, or the watermark it filtered by where the
/// listing holds nothing above it.
pub proof fn lemma_poll_leaves_highest(s: ReaderState, uptime: int, records: Seq<SlowlogRecord>)
    requires
        newest_first(records),
    ensures
        s.polled(uptime, records).watermark == highest(records, s.observe(uptime).watermark),
{
    let mark = s.observe(uptime).watermark;
    lemma_newer_than_starts_with_first(records, mark);
    lemma_highest_is_first(records, mark);
}

/// Of two polls in a row with no restart between them, the second reports
/// exactly the entries above the watermark that the first one left, and
/// leaves as watermark the highest identifier that either poll listed (or the
/// watermark that the first poll filtered by, where neither listed one above
/// it).
pub proof fn lemma_second_poll_reports_only_unseen(
    s: ReaderState,
    first_uptime: int,
    first: Seq<SlowlogRecord>,
    second_uptime: int,
    second: Seq<SlowlogRecord>,
)
    requires
        first_uptime <= second_uptime,
        newest_first(first),
        newest_first(second),
    ensures
        ({
            let between = s.polled(first_uptime, first);
            &&& between.reported(second_uptime, second) == newer_than(second, between.watermark)
            &&& between.polled(second_uptime, second).watermark == highest(
                first + second,
                s.observe(first_uptime).watermark,
            )
        }),
{
    let between = s.polled(first_uptime, first);
    lemma_poll_leaves_highest(s, first_uptime, first);
    lemma_poll_leaves_highest(between, second_uptime, second);
    lemma_highest_of_both(first, second, s.observe(first_uptime).watermark);
}

/// A second poll, with no restart before it, that finds no identifier above
/// the highest of the poll before reports nothing and leaves the watermark
/// where it was. A log that did not change between the two polls is the
/// plainest case.
pub proof fn lemma_unchanged_log_reports_nothing(
    s: ReaderState,
    first_uptime: int,
    first: Seq<SlowlogRecord>,
    second_uptime: int,
    second: Seq<SlowlogRecord>,
)
    requires
        s.valid(),
        first_uptime <= second_uptime,
        newest_first(first),
        highest(second, SENTINEL as int) == highest(first, SENTINEL as int),
    ensures
        ({
            let between = s.polled(first_uptime, first);
            &&& between.reported(second_uptime, second).len() == 0
            &&& between.polled(second_uptime, second).watermark == between.watermark
        }),
{
    let between = s.polled(first_uptime, first);
    let mark = s.observe(first_uptime).watermark;
    lemma_poll_leaves_highest(s, first_uptime, first);
    lemma_highest_is_first(first, mark);
    lemma_highest_is_first(first, SENTINEL as int);
    lemma_highest_is_greatest(second, SENTINEL as int);
    lemma_newer_than_keeps_none(second, between.watermark);
}

/// A poll that finds the server restarted forgets the old watermark before
/// it filters. What it reports is what a reader that never reported anything
/// would report, whatever the old watermark was: the whole listing, where
/// no identifier in it is below 0.
pub proof fn lemma_restart_reports_afresh(
    s: ReaderState,
    uptime: int,
    records: Seq<SlowlogRecord>,
)
    requires
        s.restarted(uptime),
    ensures
        s.observe(uptime).watermark == SENTINEL,
        s.reported(uptime, records) == newer_than(records, SENTINEL as int),
        (forall|i: int| 0 <= i < records.len() ==> records[i].id >= 0) ==> s.reported(
            uptime,
            records,
        ) == records,
{
    if forall|i: int| 0 <= i < records.len() ==> records[i].id >= 0 {
        lemma_newer_than_keeps_all(records, SENTINEL as int);
    }
}

/// What a poll reports stands in the order of the listing: it is made of
/// entries of the listing, none twice, in the order in which the server
/// listed them. So a listing that is newest first gives a report that is
/// newest first.
pub proof fn lemma_report_keeps_order(s: ReaderState, uptime: int, records: Seq<SlowlogRecord>)
    ensures
        exists|at: Seq<int>| embeds(s.reported(uptime, records), records, at),
        newest_first(records) ==> newest_first(s.reported(uptime, records)),
{
    let mark = s.observe(uptime).watermark;
    lemma_newer_than_keeps_order(records, mark);
    let at = choose|at: Seq<int>| embeds(newer_than(records, mark), records, at);
    assert(embeds(s.reported(uptime, records), records, at));
    if newest_first(records) {
        lemma_newer_than_stays_newest_first(records, mark);
    }
}

/// Where no restart is seen, a poll lowers neither the watermark nor the
/// uptime it goes by. Restart or not, the state stays valid, the uptime seen
/// is the new baseline and the number of entries asked for stays what it was.
pub proof fn lemma_poll_moves_forward(s: ReaderState, uptime: int, records: Seq<SlowlogRecord>)
    requires
        s.valid(),
    ensures
        s.polled(uptime, records).valid(),
        s.polled(uptime, records).last_uptime == uptime,
        s.polled(uptime, records).fetch_length == s.fetch_length,
        !s.restarted(uptime) ==> s.polled(uptime, records).watermark >= s.watermark,
        !s.restarted(uptime) ==> s.polled(uptime, records).last_uptime >= s.last_uptime,
{
    let mark = s.observe(uptime).watermark;
    let fresh = newer_than(records, mark);
    if fresh.len() > 0 {
        records.lemma_filter_pred(|r: SlowlogRecord| r.id > mark, 0);
    }
}

} // verus!
