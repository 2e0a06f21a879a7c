use vstd::prelude::*;

verus! {

/// One entry of the server's slow-command log, as the server reported it.
///
/// A record is a value: nothing in this crate changes one after it was made.
#[derive(Debug, Clone, PartialEq, Eq)]
pub struct SlowlogRecord {
    /// Identifier of the entry. The server numbers its entries upwards from 0
    /// and starts again at 0 when it restarts.
    pub id: i64,
    /// When the command ran, in seconds since the Unix epoch.
    pub time: i64,
    /// How long the command ran, in microseconds.
    pub duration: u64,
    /// Address and port of the client that sent the command.
    pub client_socket: String,
    /// Name the client gave itself, empty if it gave none.
    pub client_name: String,
    /// The command and its arguments, in the order they were sent.
    pub command: Vec<String>,
}

/// The entries of `records` whose identifier is above `mark`, in the order
/// in which `records` holds them.
pub open spec fn newer_than(records: Seq<SlowlogRecord>, mark: int) -> Seq<SlowlogRecord> {
    records.filter(|r: SlowlogRecord| r.id > mark)
}

/// The order in which a server lists its log: each entry has a higher
/// identifier than every entry after it.
pub open spec fn newest_first(records: Seq<SlowlogRecord>) -> bool {
    forall|i: int, j: int| 0 <= i < j < records.len() ==> records[i].id > records[j].id
}

/// `part` is made of entries of `whole` in the order in which `whole` holds
/// them: `at` gives, for each entry of `part`, its place in `whole`, and the
/// places go upwards.
pub open spec fn embeds(part: Seq<SlowlogRecord>, whole: Seq<SlowlogRecord>, at: Seq<int>) -> bool {
    &&& at.len() == part.len()
    &&& forall|k: int| 0 <= k < part.len() ==> 0 <= #[trigger] at[k] < whole.len() && part[k] == whole[at[k]]
    &&& forall|k: int, l: int| 0 <= k < l < part.len() ==> at[k] < at[l]
}

/// The greatest of `floor` and the identifiers in `records`.
pub open spec fn highest(records: Seq<SlowlogRecord>, floor: int) -> int
    decreases records.len(),
{
    if records.len() == 0 {
        floor
    } else {
        let rest = highest(records.drop_last(), floor);
        if records.last().id > rest {
            records.last().id as int
        } else {
            rest
        }
    }
}

/// [`highest`] is an upper bound of `floor` and of every identifier, and is
/// one of them.
pub proof fn lemma_highest_is_greatest(records: Seq<SlowlogRecord>, floor: int)
    ensures
        highest(records, floor) >= floor,
        forall|i: int| 0 <= i < records.len() ==> highest(records, floor) >= records[i].id,
        highest(records, floor) == floor || exists|i: int|
            0 <= i < records.len() && records[i].id == highest(records, floor),
    decreases records.len(),
{
    if records.len() > 0 {
        let front = records.drop_last();
        lemma_highest_is_greatest(front, floor);
        assert forall|i: int| 0 <= i < records.len() implies highest(records, floor)
            >= records[i].id by {
            if i < front.len() {
                assert(front[i] == records[i]);
            }
        }
        if highest(records, floor) != floor {
            if highest(records, floor) == records.last().id {
                assert(records[records.len() - 1].id == highest(records, floor));
            } else {
                let i = choose|i: int| 0 <= i < front.len() && front[i].id == highest(front, floor);
                assert(records[i].id == highest(records, floor));
            }
        }
    }
}

/// The highest identifier of two listings is found by going through one
/// after the other.
pub proof fn lemma_highest_of_both(
    first: Seq<SlowlogRecord>,
    second: Seq<SlowlogRecord>,
    floor: int,
)
    ensures
        highest(first + second, floor) == highest(second, highest(first, floor)),
    decreases second.len(),
{
    if second.len() == 0 {
        assert(first + second =~= first);
    } else {
        lemma_highest_of_both(first, second.drop_last(), floor);
        assert((first + second).drop_last() =~= first + second.drop_last());
    }
}

/// In a listing that is newest first, the first entry has the highest
/// identifier.
pub proof fn lemma_highest_is_first(records: Seq<SlowlogRecord>, floor: int)
    requires
        newest_first(records),
    ensures
        highest(records, floor) == if records.len() > 0 && records[0].id > floor {
            records[0].id as int
        } else {
            floor
        },
    decreases records.len(),
{
    if records.len() > 0 {
        let front = records.drop_last();
        lemma_highest_is_first(front, floor);
        if front.len() > 0 {
            assert(front[0] == records[0]);
            assert(records[0].id > records[records.len() - 1].id);
        }
    }
}

/// Of a listing that is newest first, either the first entry is above `mark`
/// and comes first among those kept, or no entry is kept.
pub proof fn lemma_newer_than_starts_with_first(records: Seq<SlowlogRecord>, mark: int)
    requires
        newest_first(records),
    ensures
        records.len() > 0 && records[0].id > mark ==> newer_than(records, mark).len() > 0
            && newer_than(records, mark)[0] == records[0],
        !(records.len() > 0 && records[0].id > mark) ==> newer_than(records, mark).len() == 0,
    decreases records.len(),
{
    reveal(Seq::filter);
    if records.len() > 0 {
        let front = records.drop_last();
        lemma_newer_than_starts_with_first(front, mark);
        if front.len() > 0 {
            assert(front[0] == records[0]);
        }
    }
}

/// Where every entry is above `mark`, all are kept.
pub proof fn lemma_newer_than_keeps_all(records: Seq<SlowlogRecord>, mark: int)
    requires
        forall|i: int| 0 <= i < records.len() ==> records[i].id > mark,
    ensures
        newer_than(records, mark) == records,
    decreases records.len(),
{
    reveal(Seq::filter);
    if records.len() > 0 {
        let front = records.drop_last();
        assert forall|i: int| 0 <= i < front.len() implies front[i].id > mark by {
            assert(front[i] == records[i]);
        }
        lemma_newer_than_keeps_all(front, mark);
        assert(front.push(records.last()) =~= records);
    }
}

/// Where no entry is above `mark`, none is kept.
pub proof fn lemma_newer_than_keeps_none(records: Seq<SlowlogRecord>, mark: int)
    requires
        forall|i: int| 0 <= i < records.len() ==> records[i].id <= mark,
    ensures
        newer_than(records, mark).len() == 0,
    decreases records.len(),
{
    reveal(Seq::filter);
    if records.len() > 0 {
        let front = records.drop_last();
        assert forall|i: int| 0 <= i < front.len() implies front[i].id <= mark by {
            assert(front[i] == records[i]);
        }
        lemma_newer_than_keeps_none(front, mark);
    }
}

/// The entries kept stand in the order in which the listing held them: each
/// is an entry of the listing, and of two that are kept the one that the
/// listing held first comes first.
pub proof fn lemma_newer_than_keeps_order(records: Seq<SlowlogRecord>, mark: int)
    ensures
        exists|at: Seq<int>| embeds(newer_than(records, mark), records, at),
    decreases records.len(),
{
    reveal(Seq::filter);
    let kept = newer_than(records, mark);
    if records.len() == 0 {
        assert(embeds(kept, records, Seq::<int>::empty()));
    } else {
        let front = records.drop_last();
        lemma_newer_than_keeps_order(front, mark);
        let at = choose|at: Seq<int>| embeds(newer_than(front, mark), front, at);
        if records.last().id > mark {
            let longer = at.push(records.len() - 1);
            assert(embeds(kept, records, longer));
        } else {
            assert(embeds(kept, records, at));
        }
    }
}

/// A listing that is newest first is still so after the entries at or below
/// `mark` were taken out.
pub proof fn lemma_newer_than_stays_newest_first(records: Seq<SlowlogRecord>, mark: int)
    requires
        newest_first(records),
    ensures
        newest_first(newer_than(records, mark)),
{
    lemma_newer_than_keeps_order(records, mark);
    let kept = newer_than(records, mark);
    let at = choose|at: Seq<int>| embeds(kept, records, at);
    assert forall|i: int, j: int| 0 <= i < j < kept.len() implies kept[i].id > kept[j].id by {
        assert(kept[i] == records[at[i]]);
        assert(kept[j] == records[at[j]]);
    }
}

} // verus!
