//! The delivery guarantees of the extraction protocol, stated over runs
//! of successful requests: the persisted cursor never decreases, and —
//! as long as every batch honours the row-source contract — repeated
//! requests deliver each eligible row exactly once.

use vstd::prelude::*;
use crate::digits::dec_rep;
use crate::digits::dec_val;
use crate::digits::is_dec_digit;
use crate::digits::is_space;
use crate::digits::is_u64_text;
use crate::digits::lemma_dec_rep_digits;
use crate::digits::lemma_dec_rep_val;
use crate::digits::trim_back;
use crate::digits::trim_front;
use crate::digits::trimmed;
use crate::handler::next_cursor;
use crate::handler::lemma_next_cursor_lower;
use crate::handler::lemma_next_cursor_bound;
use crate::record::SourceRow;

verus! {

/// Store/load round trip: the decimal rendering of a cursor value is a
/// well-formed cursor file (non-empty, digits only, nothing to trim) and
/// parses back to exactly the value that was stored.
pub proof fn lemma_cursor_round_trip(n: u64)
    ensures
        trimmed(dec_rep(n as nat)) == dec_rep(n as nat),
        is_u64_text(dec_rep(n as nat)),
        dec_val(dec_rep(n as nat)) == n,
{
    lemma_dec_rep_digits(n as nat);
    lemma_dec_rep_val(n as nat);
    let s = dec_rep(n as nat);
    assert(is_dec_digit(s[0]));
    assert(is_dec_digit(s[s.len() - 1]));
    assert(!is_space(s.first()));
    assert(!is_space(s.last()));
    assert(trim_front(s) == s);
    assert(trim_back(s) == s);
}

/// The set of row identifiers appearing in one batch.
pub open spec fn batch_ids(rows: Seq<SourceRow>) -> Set<u64> {
    Set::new(|id: u64| exists|i: int| 0 <= i < rows.len() && rows[i].id == id)
}

/// The cursor persisted after a run of successful requests that started
/// at `c0` and delivered `batches`, one batch per request.
pub open spec fn cursor_after(c0: u64, batches: Seq<Seq<SourceRow>>) -> u64
    decreases batches.len(),
{
    if batches.len() == 0 {
        c0
    } else {
        next_cursor(cursor_after(c0, batches.drop_last()), batches.last())
    }
}

/// The identifiers eligible for delivery at cursor `c`: those of the
/// source lying above `c`.
pub open spec fn eligible(source: Set<u64>, c: u64) -> Set<u64> {
    source.filter(|id: u64| id > c)
}

/// Whether a batch honours the row-source contract at cursor `c`: every
/// delivered identifier is an eligible one of the source, and no
/// eligible identifier at or below the delivered maximum is skipped
/// (the source returns the lowest eligible rows, in ascending order).
pub open spec fn batch_honest(source: Set<u64>, c: u64, rows: Seq<SourceRow>) -> bool {
    &&& forall|i: int|
        0 <= i < rows.len() ==> source.contains(#[trigger] rows[i].id) && rows[i].id > c
    &&& forall|id: u64|
        #[trigger] source.contains(id) && c < id && id <= next_cursor(c, rows) ==> batch_ids(
            rows,
        ).contains(id)
}

/// All identifiers delivered across a run, one batch per request.
pub open spec fn delivered_ids(batches: Seq<Seq<SourceRow>>) -> Set<u64>
    decreases batches.len(),
{
    if batches.len() == 0 {
        Set::empty()
    } else {
        delivered_ids(batches.drop_last()).union(batch_ids(batches.last()))
    }
}

/// A run of successful requests never moves the cursor below its start.
pub proof fn lemma_cursor_after_lower(c0: u64, batches: Seq<Seq<SourceRow>>)
    ensures
        cursor_after(c0, batches) >= c0,
    decreases batches.len(),
{
    if batches.len() > 0 {
        lemma_cursor_after_lower(c0, batches.drop_last());
        lemma_next_cursor_lower(cursor_after(c0, batches.drop_last()), batches.last());
    }
}

/// Monotonicity: across any run of successful requests, the persisted
/// cursor value is non-decreasing — after any later request it is at
/// least what it was after any earlier one.
pub proof fn lemma_cursor_monotonic(c0: u64, batches: Seq<Seq<SourceRow>>, i: int, j: int)
    requires
        0 <= i <= j <= batches.len(),
    ensures
        cursor_after(c0, batches.take(i)) <= cursor_after(c0, batches.take(j)),
    decreases j - i,
{
    if i < j {
        lemma_cursor_monotonic(c0, batches, i, j - 1);
        assert(batches.take(j).drop_last() =~= batches.take(j - 1));
        lemma_next_cursor_lower(cursor_after(c0, batches.take(j - 1)), batches.take(j).last());
    }
}

/// The identifiers delivered by one honest batch are exactly the source
/// identifiers in the half-open range from the cursor before it to the
/// cursor after it.
proof fn lemma_batch_range(source: Set<u64>, c: u64, rows: Seq<SourceRow>)
    requires
        batch_honest(source, c, rows),
    ensures
        batch_ids(rows) =~= Set::new(
            |id: u64| source.contains(id) && c < id && id <= next_cursor(c, rows),
        ),
{
    assert forall|id: u64| batch_ids(rows).contains(id) implies source.contains(id) && c < id && id
        <= next_cursor(c, rows) by {
        let i = choose|i: int| 0 <= i < rows.len() && rows[i].id == id;
        lemma_next_cursor_bound(c, rows, i);
    }
}

/// Across a run of honest batches, the delivered identifiers are exactly
/// the source identifiers between the initial and the final cursor.
proof fn lemma_delivered_range(source: Set<u64>, c0: u64, batches: Seq<Seq<SourceRow>>)
    requires
        forall|k: int|
            0 <= k < batches.len() ==> batch_honest(
                source,
                cursor_after(c0, batches.take(k)),
                #[trigger] batches[k],
            ),
    ensures
        delivered_ids(batches) =~= Set::new(
            |id: u64| source.contains(id) && c0 < id && id <= cursor_after(c0, batches),
        ),
    decreases batches.len(),
{
    if batches.len() == 0 {
        assert(delivered_ids(batches) =~= Set::<u64>::empty());
    } else {
        let front = batches.drop_last();
        let last = batches.last();
        assert forall|k: int| 0 <= k < front.len() implies batch_honest(
            source,
            cursor_after(c0, front.take(k)),
            #[trigger] front[k],
        ) by {
            assert(front.take(k) =~= batches.take(k));
            assert(front[k] == batches[k]);
        }
        lemma_delivered_range(source, c0, front);
        let c_mid = cursor_after(c0, front);
        let c_fin = cursor_after(c0, batches);
        assert(batches.take(batches.len() - 1) =~= front);
        assert(batch_honest(source, c_mid, last));
        lemma_batch_range(source, c_mid, last);
        lemma_cursor_after_lower(c0, front);
        lemma_next_cursor_lower(c_mid, last);
        assert(c_fin == next_cursor(c_mid, last));
        assert(delivered_ids(batches) =~= delivered_ids(front).union(batch_ids(last)));
    }
}

/// Exactly-once delivery under serialized requests: against a fixed
/// source, if every batch honours the row-source contract at the cursor
/// its request loaded, and the run continues until nothing is eligible,
/// then the identifiers delivered across the run are exactly those above
/// the initial cursor — and no identifier appears in two batches.
pub proof fn lemma_exactly_once(source: Set<u64>, c0: u64, batches: Seq<Seq<SourceRow>>)
    requires
        forall|k: int|
            0 <= k < batches.len() ==> batch_honest(
                source,
                cursor_after(c0, batches.take(k)),
                #[trigger] batches[k],
            ),
        eligible(source, cursor_after(c0, batches)).is_empty(),
    ensures
        delivered_ids(batches) =~= eligible(source, c0),
        forall|k1: int, k2: int|
            0 <= k1 < k2 < batches.len() ==> batch_ids(#[trigger] batches[k1]).disjoint(
                batch_ids(#[trigger] batches[k2]),
            ),
{
    lemma_delivered_range(source, c0, batches);
    let c_fin = cursor_after(c0, batches);
    assert forall|id: u64| eligible(source, c0).contains(id) implies delivered_ids(
        batches,
    ).contains(id) by {
        assert(!eligible(source, c_fin).contains(id));
    }
    assert forall|k1: int, k2: int| 0 <= k1 < k2 < batches.len() implies batch_ids(
        #[trigger] batches[k1],
    ).disjoint(batch_ids(#[trigger] batches[k2])) by {
        let c1 = cursor_after(c0, batches.take(k1));
        let c1p = cursor_after(c0, batches.take(k1 + 1));
        let c2 = cursor_after(c0, batches.take(k2));
        assert(batches.take(k1 + 1).drop_last() =~= batches.take(k1));
        assert(c1p == next_cursor(c1, batches[k1]));
        lemma_cursor_monotonic(c0, batches, k1 + 1, k2);
        assert forall|id: u64| batch_ids(batches[k1]).contains(id) implies !batch_ids(
            batches[k2],
        ).contains(id) by {
            let i = choose|i: int| 0 <= i < batches[k1].len() && batches[k1][i].id == id;
            lemma_next_cursor_bound(c1, batches[k1], i);
            assert(id <= c2);
            if batch_ids(batches[k2]).contains(id) {
                let j = choose|j: int| 0 <= j < batches[k2].len() && batches[k2][j].id == id;
                assert(batches[k2][j].id > c2);
            }
        }
    }
}

} // verus!
