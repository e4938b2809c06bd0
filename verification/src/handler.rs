//! The extraction pipeline: load the cursor, render the fetched batch,
//! decide the new cursor and whether it is persisted, or fail without
//! touching it.  The surrounding application performs the file and
//! database I/O and hands the outcomes in as plain values; every
//! decision between those steps is made and verified here.

use vstd::prelude::*;
use vstd::string::StringExecFns;
use crate::config::LINE_DELIMITER;
use crate::digits::dec_val;
use crate::digits::is_u64_text;
use crate::digits::parse_u64;
use crate::digits::trimmed;
use crate::record::SourceRow;
use crate::record::line_of_row;
use crate::record::row_time_fits;
use crate::record::pihole_entry_to_ilp;
use crate::record::process_individual_value;
use crate::record::lemma_line_of_row;

verus! {

/// What the application found when it tried to read the cursor file.
pub enum CursorFile {
    /// The file does not exist: no cursor has ever been persisted.
    Absent,
    /// The file exists but reading it failed, with the I/O detail.
    Unreadable { detail: String },
    /// The file was read whole.
    Contents { text: String },
}

/// The verdict of one extraction request: either the response body
/// together with the cursor to persist, or the failure message.  On
/// `Failure` no new cursor value is ever produced, so a failed request
/// leaves the persisted cursor untouched.
pub enum Outcome {
    Success { body: String, next: u64, persist: bool },
    Failure { message: String },
}

/// Joins an error header and its detail as `header: detail`.
pub fn format_error(hdr: &'static str, msg: String) -> (r: String)
    ensures
        r@ == hdr@ + ": "@ + msg@,
{
    let mut out = hdr.to_owned();
    out.append(": ");
    out.append(msg.as_str());
    proof {
        assert(out@ =~= hdr@ + ": "@ + msg@);
    }
    out
}

/// The cursor denoted by the cursor file: 0 where the file is absent,
/// its trimmed decimal contents where they are well-formed, and a
/// stage-labelled error otherwise.  A malformed file is a hard failure,
/// never silently reset to 0.
pub fn load_cursor(file: CursorFile) -> (r: Result<u64, String>)
    ensures
        file is Absent ==> r == Ok::<u64, String>(0u64),
        file matches CursorFile::Unreadable { detail } ==> r matches Err(m) && m@
            == "Failed to read lock file"@ + ": "@ + detail@,
        file matches CursorFile::Contents { text } ==> if is_u64_text(trimmed(text@)) {
            r == Ok::<u64, String>(dec_val(trimmed(text@)) as u64)
        } else {
            r matches Err(m) && m@ == "Failed to parse last ID"@ + ": "@
                + "not a decimal integer in range"@
        },
{
    match file {
        CursorFile::Absent => Ok(0),
        CursorFile::Unreadable { detail } => Err(format_error("Failed to read lock file", detail)),
        CursorFile::Contents { text } => match parse_u64(text.as_str()) {
            Some(v) => Ok(v),
            None => Err(
                format_error("Failed to parse last ID", "not a decimal integer in range".to_owned()),
            ),
        },
    }
}

/// The batch actually delivered: the fetched rows, capped at `limit`.
pub open spec fn capped(rows: Seq<SourceRow>, limit: u64) -> Seq<SourceRow> {
    if rows.len() <= limit {
        rows
    } else {
        rows.take(limit as int)
    }
}

/// The response body of a batch: the line of each row, in order, each
/// terminated by the newline delimiter.
pub open spec fn body_of(rows: Seq<SourceRow>) -> Seq<char>
    decreases rows.len(),
{
    if rows.len() == 0 {
        Seq::empty()
    } else {
        body_of(rows.drop_last()) + line_of_row(rows.last()) + "\n"@
    }
}

/// The cursor after delivering a batch: the starting cursor, advanced
/// to every delivered row identifier in turn.
pub open spec fn next_cursor(cursor: u64, rows: Seq<SourceRow>) -> u64
    decreases rows.len(),
{
    if rows.len() == 0 {
        cursor
    } else {
        let p = next_cursor(cursor, rows.drop_last());
        if p <= rows.last().id {
            rows.last().id
        } else {
            p
        }
    }
}

/// Delivering a batch never moves the cursor backwards.
pub proof fn lemma_next_cursor_lower(cursor: u64, rows: Seq<SourceRow>)
    ensures
        next_cursor(cursor, rows) >= cursor,
    decreases rows.len(),
{
    if rows.len() > 0 {
        lemma_next_cursor_lower(cursor, rows.drop_last());
    }
}

/// The cursor after a batch is at or above every delivered identifier.
pub proof fn lemma_next_cursor_bound(cursor: u64, rows: Seq<SourceRow>, i: int)
    requires
        0 <= i < rows.len(),
    ensures
        rows[i].id <= next_cursor(cursor, rows),
    decreases rows.len(),
{
    if i < rows.len() - 1 {
        lemma_next_cursor_bound(cursor, rows.drop_last(), i);
    }
}

/// One extraction request, after the cursor is known and the query has
/// run: renders at most `limit` of the fetched rows as the response
/// body and computes the cursor to persist, or turns a query failure
/// into the response message.  `persist` is set exactly when something
/// was delivered; an empty batch leaves the cursor where it was.
pub fn extract(cursor: u64, limit: u64, fetched: Result<Vec<SourceRow>, String>) -> (r: Outcome)
    requires
        fetched matches Ok(rows) ==> forall|i: int|
            0 <= i < rows@.len() ==> row_time_fits(#[trigger] rows@[i]),
    ensures
        fetched matches Err(detail) ==> r matches Outcome::Failure { message } && message@
            == "Failed to execute query"@ + ": "@ + detail@,
        fetched matches Ok(rows) ==> r matches Outcome::Success { body, next, persist } && {
            &&& body@ == body_of(capped(rows@, limit))
            &&& next == next_cursor(cursor, capped(rows@, limit))
            &&& next >= cursor
            &&& persist == (capped(rows@, limit).len() > 0)
            &&& rows@.len() == 0 ==> next == cursor && body@ == Seq::<char>::empty() && !persist
        },
{
    let mut rows = match fetched {
        Ok(rows) => rows,
        Err(detail) => {
            return Outcome::Failure { message: format_error("Failed to execute query", detail) };
        },
    };
    let ghost all_rows = rows@;
    if (rows.len() as u64) > limit {
        rows.truncate(limit as usize);
    }
    proof {
        assert(rows@ =~= capped(all_rows, limit));
    }
    let ghost batch = rows@;
    let mut body = String::new();
    let mut next: u64 = cursor;
    let mut i: usize = 0;
    while i < rows.len()
        invariant
            i <= rows@.len(),
            rows@ == batch,
            forall|k: int| 0 <= k < batch.len() ==> row_time_fits(#[trigger] batch[k]),
            body@ == body_of(batch.take(i as int)),
            next == next_cursor(cursor, batch.take(i as int)),
        decreases rows@.len() - i,
    {
        let entry = process_individual_value(&rows[i]);
        proof {
            lemma_line_of_row(batch[i as int], entry);
        }
        let (line, id) = pihole_entry_to_ilp(entry);
        body.append(line.as_str());
        body.append(LINE_DELIMITER);
        if next <= id {
            next = id;
        }
        proof {
            assert(batch.take(i + 1).drop_last() =~= batch.take(i as int));
            assert(batch.take(i + 1).last() == batch[i as int]);
            assert(body@ =~= body_of(batch.take(i + 1)));
        }
        i = i + 1;
    }
    proof {
        assert(batch.take(batch.len() as int) =~= batch);
        lemma_next_cursor_lower(cursor, batch);
    }
    let persist = rows.len() > 0;
    Outcome::Success { body, next, persist }
}

} // verus!
