//! Metric rows: one timestamped row per successful poll.
//!
//! A row holds the poll's timestamp, the device's name, and one numeric
//! value per field of the device's field map that extracted successfully
//! this cycle.  Fields that failed to extract are omitted from the row, not
//! written as zero or null: the insert statement names exactly the columns
//! the row holds, and the store's default fills the rest.  A poll that
//! yields no extractable field still produces a row with the timestamp and
//! device columns populated.

use vstd::prelude::*;

use crate::clock::now_rfc3339;
use crate::json::{extract, spec_extract_path, JsonDoc};

verus! {

/// One row to be persisted: timestamp, device name, and the successfully
/// extracted `(column, value)` pairs, values as binary64 bit patterns.
pub struct MetricRow {
    pub timestamp: String,
    pub device: String,
    pub columns: Vec<(String, u64)>,
}

/// The views of a field map's `(path, column)` pairs.
pub open spec fn spec_field_views(fields: Seq<(String, String)>) -> Seq<(Seq<char>, Seq<char>)> {
    fields.map_values(|f: (String, String)| (f.0@, f.1@))
}

/// The views of a row's `(column, value)` pairs.
pub open spec fn spec_column_views(cols: Seq<(String, u64)>) -> Seq<(Seq<char>, u64)> {
    cols.map_values(|c: (String, u64)| (c.0@, c.1))
}

/// The column names of a row's pairs, in row order.
pub open spec fn spec_column_names(cols: Seq<(String, u64)>) -> Seq<Seq<char>> {
    cols.map_values(|c: (String, u64)| c.0@)
}

/// The `(column, value)` pairs a poll of `doc` yields for a field map: one
/// pair per field whose path extracts a numeric leaf, in field-map order.
pub open spec fn spec_row_columns(fields: Seq<(Seq<char>, Seq<char>)>, doc: JsonDoc) -> Seq<
    (Seq<char>, u64),
>
    decreases fields.len(),
{
    if fields.len() == 0 {
        Seq::<(Seq<char>, u64)>::empty()
    } else {
        let rest = spec_row_columns(fields.drop_last(), doc);
        match spec_extract_path(doc, fields.last().0) {
            Option::Some(bits) => rest.push((fields.last().1, bits)),
            Option::None => rest,
        }
    }
}

/// The paths of a field map that fail to extract from `doc`, in field-map
/// order: reported for diagnostics, never as an error.
pub open spec fn spec_missing_paths(fields: Seq<(Seq<char>, Seq<char>)>, doc: JsonDoc) -> Seq<
    Seq<char>,
>
    decreases fields.len(),
{
    if fields.len() == 0 {
        Seq::<Seq<char>>::empty()
    } else {
        let rest = spec_missing_paths(fields.drop_last(), doc);
        match spec_extract_path(doc, fields.last().0) {
            Option::Some(bits) => rest,
            Option::None => rest.push(fields.last().0),
        }
    }
}

/// Builds the row a successful poll persists: the given timestamp and
/// device name, and one `(column, value)` pair per field of the field map
/// whose path extracts a numeric leaf from `doc`.  Also returns the paths
/// that failed to extract, for diagnostic logging.  With no extractable
/// field the row still carries timestamp and device, and its column list
/// is empty.
pub fn build_row(
    timestamp: String,
    device: String,
    fields: &Vec<(String, String)>,
    doc: &JsonDoc,
) -> (r: (MetricRow, Vec<String>))
    ensures
        r.0.timestamp == timestamp,
        r.0.device == device,
        spec_column_views(r.0.columns@) == spec_row_columns(spec_field_views(fields@), *doc),
        r.1@.map_values(|p: String| p@) == spec_missing_paths(spec_field_views(fields@), *doc),
{
    let ghost fviews = spec_field_views(fields@);
    let mut columns: Vec<(String, u64)> = Vec::new();
    let mut misses: Vec<String> = Vec::new();
    let n = fields.len();
    let mut i: usize = 0;
    proof {
        assert(spec_column_views(columns@) =~= spec_row_columns(fviews.take(0), *doc));
        assert(misses@.map_values(|p: String| p@) =~= spec_missing_paths(fviews.take(0), *doc));
    }
    while i < n
        invariant
            i <= n,
            n == fields@.len(),
            fviews == spec_field_views(fields@),
            spec_column_views(columns@) == spec_row_columns(fviews.take(i as int), *doc),
            misses@.map_values(|p: String| p@) == spec_missing_paths(fviews.take(i as int), *doc),
        decreases n - i,
    {
        proof {
            assert(fviews.take(i + 1).drop_last() =~= fviews.take(i as int));
            assert(fviews.take(i + 1).last() == fviews[i as int]);
        }
        match extract(doc, fields[i].0.as_str()) {
            Option::Some(bits) => {
                columns.push((fields[i].1.clone(), bits));
                proof {
                    assert(spec_column_views(columns@) =~= spec_row_columns(
                        fviews.take(i + 1),
                        *doc,
                    ));
                }
            },
            Option::None => {
                misses.push(fields[i].0.clone());
                proof {
                    assert(misses@.map_values(|p: String| p@) =~= spec_missing_paths(
                        fviews.take(i + 1),
                        *doc,
                    ));
                }
            },
        }
        i = i + 1;
    }
    proof {
        assert(fviews.take(n as int) =~= fviews);
    }
    (MetricRow { timestamp, device, columns }, misses)
}

/// Builds the row a successful poll persists, stamped with the current
/// wall-clock time; otherwise exactly as `build_row`.
pub fn stamped_row(device: String, fields: &Vec<(String, String)>, doc: &JsonDoc) -> (r: (
    MetricRow,
    Vec<String>,
))
    ensures
        r.0.timestamp@.len() > 0,
        r.0.device == device,
        spec_column_views(r.0.columns@) == spec_row_columns(spec_field_views(fields@), *doc),
        r.1@.map_values(|p: String| p@) == spec_missing_paths(spec_field_views(fields@), *doc),
{
    let timestamp = now_rfc3339();
    build_row(timestamp, device, fields, doc)
}

/// The column names of an insert statement beyond timestamp and device:
/// `, <name>` for each row column.
pub open spec fn spec_insert_cols(cols: Seq<Seq<char>>) -> Seq<char>
    decreases cols.len(),
{
    if cols.len() == 0 {
        Seq::<char>::empty()
    } else {
        spec_insert_cols(cols.drop_last()) + ", "@ + cols.last()
    }
}

/// One `, ?` placeholder per row column, beyond the two fixed ones.
pub open spec fn spec_placeholders(n: nat) -> Seq<char>
    decreases n,
{
    if n == 0 {
        Seq::<char>::empty()
    } else {
        spec_placeholders((n - 1) as nat) + ", ?"@
    }
}

/// The insert statement for one row: it names the timestamp column, the
/// device column, and exactly the columns the row holds, in row order,
/// with one placeholder for each named column.
pub open spec fn spec_insert_sql(table: Seq<char>, cols: Seq<Seq<char>>) -> Seq<char> {
    "INSERT INTO "@ + table + " (timestamp, device"@ + spec_insert_cols(cols) + ") VALUES (?, ?"@
        + spec_placeholders(cols.len()) + ");"@
}

/// Composes the insert statement for `row`.  The statement's parameters
/// are, in order: the timestamp, the device name, then the row's values in
/// row-column order.
pub fn insert_sql(table: &String, row: &MetricRow) -> (sql: String)
    ensures
        sql@ == spec_insert_sql(table@, spec_column_names(row.columns@)),
{
    let ghost names = spec_column_names(row.columns@);
    let mut cols_part = String::new();
    let mut ph_part = String::new();
    let n = row.columns.len();
    let mut i: usize = 0;
    proof {
        assert(cols_part@ =~= spec_insert_cols(names.take(0)));
        assert(ph_part@ =~= spec_placeholders(0));
    }
    while i < n
        invariant
            i <= n,
            n == row.columns@.len(),
            names == spec_column_names(row.columns@),
            cols_part@ == spec_insert_cols(names.take(i as int)),
            ph_part@ == spec_placeholders(i as nat),
        decreases n - i,
    {
        cols_part.append(", ");
        cols_part.append(row.columns[i].0.as_str());
        ph_part.append(", ?");
        proof {
            assert(names.take(i + 1).drop_last() =~= names.take(i as int));
            assert(names.take(i + 1).last() == names[i as int]);
            assert(cols_part@ =~= spec_insert_cols(names.take(i + 1)));
        }
        i = i + 1;
    }
    let mut sql = String::from_str("INSERT INTO ");
    sql.append(table.as_str());
    sql.append(" (timestamp, device");
    sql.append(cols_part.as_str());
    sql.append(") VALUES (?, ?");
    sql.append(ph_part.as_str());
    sql.append(");");
    proof {
        assert(names.take(n as int) =~= names);
        assert(sql@ =~= spec_insert_sql(table@, names));
    }
    sql
}

} // verus!
