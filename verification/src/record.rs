//! Records of the query log: the raw row handed in from the source, the
//! normalized entry, and the rendering of an entry as one output line.

use vstd::prelude::*;
use vstd::string::StringExecFns;
use crate::digits::dec_rep;
use crate::digits::u64_to_dec;

verus! {

/// A normalized query-log record, ready to be rendered as a line.
#[derive(Debug)]
pub struct PiholeEntry {
    pub id: u64,
    pub time: u64,
    pub query_type: u64,
    pub domain: String,
    pub client: String,
    pub status: u64,
    pub upstream: String,
    pub reply_type: u64,
}

/// One row as fetched from the source database, before normalization:
/// the timestamp still lacks its sub-second digits and the upstream
/// field may be absent.
#[derive(Debug)]
pub struct SourceRow {
    pub id: u64,
    pub timestamp: u64,
    pub query_type: u64,
    pub status: u64,
    pub domain: String,
    pub client: String,
    pub upstream: Option<String>,
    pub reply_type: u64,
}

/// The placeholder written in place of an absent upstream field.
pub open spec fn null_upstream() -> Seq<char> {
    "null"@
}

/// The upstream text of a row after normalization: the field itself, or
/// the placeholder where the source had none.
pub open spec fn upstream_text(row: SourceRow) -> Seq<char> {
    match row.upstream {
        Some(u) => u@,
        None => null_upstream(),
    }
}

/// The record timestamp reconstructed from the source timestamp and the
/// three low-order decimal digits of the row identifier, the workaround
/// for a source whose timestamp column lacks sub-second precision.
pub open spec fn spliced_time(timestamp: u64, id: u64) -> int {
    timestamp * 1000 + (id % 1000)
}

/// Whether the reconstructed timestamp of a row fits in a `u64`.
pub open spec fn row_time_fits(row: SourceRow) -> bool {
    spliced_time(row.timestamp, row.id) <= u64::MAX
}

/// Whether `e` is the normalized entry induced by the source row `row`.
pub open spec fn entry_matches_row(row: SourceRow, e: PiholeEntry) -> bool {
    &&& e.id == row.id
    &&& e.time == spliced_time(row.timestamp, row.id)
    &&& e.query_type == row.query_type
    &&& e.status == row.status
    &&& e.domain@ == row.domain@
    &&& e.client@ == row.client@
    &&& e.upstream@ == upstream_text(row)
    &&& e.reply_type == row.reply_type
}

/// The output line of an entry: its numeric fields in decimal and its
/// text fields, comma-separated, in the order id, time, query type,
/// status, reply type, client, domain, upstream.
pub open spec fn line_of(e: PiholeEntry) -> Seq<char> {
    dec_rep(e.id as nat) + ","@ + dec_rep(e.time as nat) + ","@ + dec_rep(e.query_type as nat)
        + ","@ + dec_rep(e.status as nat) + ","@ + dec_rep(e.reply_type as nat) + ","@ + e.client@
        + ","@ + e.domain@ + ","@ + e.upstream@
}

/// The output line induced by a source row.
pub open spec fn line_of_row(row: SourceRow) -> Seq<char> {
    dec_rep(row.id as nat) + ","@ + dec_rep(spliced_time(row.timestamp, row.id) as nat) + ","@
        + dec_rep(row.query_type as nat) + ","@ + dec_rep(row.status as nat) + ","@ + dec_rep(
        row.reply_type as nat,
    ) + ","@ + row.client@ + ","@ + row.domain@ + ","@ + upstream_text(row)
}

/// A row and its normalized entry render as the same line.
pub proof fn lemma_line_of_row(row: SourceRow, e: PiholeEntry)
    requires
        row_time_fits(row),
        entry_matches_row(row, e),
    ensures
        line_of(e) == line_of_row(row),
{
}

/// Null normalization: a row with an absent upstream field renders as a
/// line whose upstream position (the final field) holds the literal
/// placeholder, never an empty or missing token.
pub proof fn lemma_null_normalization(row: SourceRow)
    requires
        row.upstream is None,
    ensures
        line_of_row(row).len() >= 4,
        line_of_row(row).subrange(
            line_of_row(row).len() - 4,
            line_of_row(row).len() as int,
        ) == "null"@,
{
    reveal_strlit("null");
    let l = line_of_row(row);
    assert(l.subrange(l.len() - 4, l.len() as int) =~= "null"@);
}

/// The hundreds, tens and ones decimal digits of `id`.
pub fn extract_places(id: u64) -> (r: (u64, u64, u64))
    ensures
        r.0 == id / 100 % 10,
        r.1 == id / 10 % 10,
        r.2 == id % 10,
{
    let hundreds_place = (id / 100) % 10;
    let tens_place = (id / 10) % 10;
    let ones_place = id % 10;
    (hundreds_place, tens_place, ones_place)
}

/// The three low digits spliced on the end of a timestamp are its value
/// modulo 1000.
proof fn lemma_places_splice(id: u64)
    ensures
        (id / 100 % 10) * 100 + (id / 10 % 10) * 10 + id % 10 == id % 1000,
{
    vstd::arithmetic::div_mod::lemma_mod_breakdown(id as int, 100, 10);
    vstd::arithmetic::div_mod::lemma_mod_breakdown(id as int, 10, 10);
}

/// Normalizes one fetched row into an entry: reconstructs the timestamp
/// from the row identifier's low digits and substitutes the placeholder
/// for an absent upstream field.
pub fn process_individual_value(row: &SourceRow) -> (e: PiholeEntry)
    requires
        row_time_fits(*row),
    ensures
        entry_matches_row(*row, e),
{
    let (hundreds, tens, ones) = extract_places(row.id);
    proof {
        lemma_places_splice(row.id);
    }
    let time: u64 = row.timestamp * 1000 + hundreds * 100 + tens * 10 + ones;
    let upstream: String = match &row.upstream {
        Some(u) => u.clone(),
        None => "null".to_owned(),
    };
    PiholeEntry {
        time,
        query_type: row.query_type,
        status: row.status,
        domain: row.domain.clone(),
        client: row.client.clone(),
        upstream,
        reply_type: row.reply_type,
        id: row.id,
    }
}

/// Renders an entry as its output line, returning the record's own
/// identifier alongside it.
pub fn pihole_entry_to_ilp(pihole_entry: PiholeEntry) -> (r: (String, u64))
    ensures
        r.0@ == line_of(pihole_entry),
        r.1 == pihole_entry.id,
{
    let id = pihole_entry.id;
    let mut out = u64_to_dec(pihole_entry.id);
    out.append(",");
    let part = u64_to_dec(pihole_entry.time);
    out.append(part.as_str());
    out.append(",");
    let part = u64_to_dec(pihole_entry.query_type);
    out.append(part.as_str());
    out.append(",");
    let part = u64_to_dec(pihole_entry.status);
    out.append(part.as_str());
    out.append(",");
    let part = u64_to_dec(pihole_entry.reply_type);
    out.append(part.as_str());
    out.append(",");
    out.append(pihole_entry.client.as_str());
    out.append(",");
    out.append(pihole_entry.domain.as_str());
    out.append(",");
    out.append(pihole_entry.upstream.as_str());
    proof {
        assert(out@ =~= line_of(pihole_entry));
    }
    (out, id)
}

} // verus!
