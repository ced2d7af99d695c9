//! The registry refresh pipeline: parse the authoritative delimited
//! tabular registry, check every row against the 4-field schema, and turn
//! the rows into store entries and a snapshot.
//!
//! Parsing is specified as a character-by-character state machine
//! (`csv_step`) folded over the content (`csv_run`); the executable parser
//! mirrors it step for step. Fields are separated by commas, records by a
//! line break (`\n`, `\r` or `\r\n`); a field may be enclosed in double
//! quotes, inside which commas and line breaks are literal and a doubled
//! quote stands for one quote character. Blank lines carry no record. A
//! stray character after a closing quote fails the whole parse: a
//! malformed registry must never produce a partial mapping.

use vstd::prelude::*;
use crate::errors::VendorError;
use crate::hex::{hex_seq, hex_val, is_hex, oui_hex, oui_key, pow16, lemma_hex_seq_of_val,
    lemma_hex_seq_val, lemma_hex_val_bound, lemma_pow16_values, parse_hex};
use crate::snapshot::{encode_snapshot, lemma_snapshot_round_trip};
use crate::store::{map_of_pairs, pair_views, store_of_snapshot, Vendor};

verus! {

/// Where in a record the parser stands.
#[derive(Clone, Copy, Debug, PartialEq, Eq, Structural)]
pub enum CsvMode {
    /// At the start of a field.
    FieldStart,
    /// Inside an unquoted field.
    Unquoted,
    /// Inside a quoted field.
    Quoted,
    /// Just after a quote character inside a quoted field.
    QuoteSeen,
    /// Just after a bare carriage return; a following line feed belongs to
    /// the same record break.
    AfterCr,
}

/// The parser state: finished rows, finished fields of the open row, the
/// open field, the mode, and whether the content has been rejected.
pub ghost struct CsvState {
    pub rows: Seq<Seq<Seq<char>>>,
    pub fields: Seq<Seq<char>>,
    pub cur: Seq<char>,
    pub mode: CsvMode,
    pub failed: bool,
}

pub open spec fn csv_init() -> CsvState {
    CsvState {
        rows: Seq::empty(),
        fields: Seq::empty(),
        cur: Seq::empty(),
        mode: CsvMode::FieldStart,
        failed: false,
    }
}

/// Close the open field.
pub open spec fn spec_end_field(st: CsvState) -> CsvState {
    CsvState {
        rows: st.rows,
        fields: st.fields.push(st.cur),
        cur: Seq::empty(),
        mode: CsvMode::FieldStart,
        failed: st.failed,
    }
}

/// Close the open record; a record break on a blank line carries no
/// record.
pub open spec fn spec_end_record(st: CsvState, next: CsvMode) -> CsvState {
    if st.fields.len() == 0 && st.cur.len() == 0 {
        CsvState { rows: st.rows, fields: Seq::empty(), cur: Seq::empty(), mode: next, failed: st.failed }
    } else {
        CsvState {
            rows: st.rows.push(st.fields.push(st.cur)),
            fields: Seq::empty(),
            cur: Seq::empty(),
            mode: next,
            failed: st.failed,
        }
    }
}

/// Append a character to the open field and move to mode `m`.
pub open spec fn spec_push_cur(st: CsvState, c: char, m: CsvMode) -> CsvState {
    CsvState { rows: st.rows, fields: st.fields, cur: st.cur.push(c), mode: m, failed: st.failed }
}

pub open spec fn spec_set_mode(st: CsvState, m: CsvMode) -> CsvState {
    CsvState { rows: st.rows, fields: st.fields, cur: st.cur, mode: m, failed: st.failed }
}

pub open spec fn spec_fail(st: CsvState) -> CsvState {
    CsvState { rows: st.rows, fields: st.fields, cur: st.cur, mode: st.mode, failed: true }
}

/// One character in every mode but `AfterCr`.
pub open spec fn spec_step_main(st: CsvState, c: char) -> CsvState {
    match st.mode {
        CsvMode::FieldStart => if c == '"' {
            spec_set_mode(st, CsvMode::Quoted)
        } else if c == ',' {
            spec_end_field(st)
        } else if c == '\n' {
            spec_end_record(st, CsvMode::FieldStart)
        } else if c == '\r' {
            spec_end_record(st, CsvMode::AfterCr)
        } else {
            spec_push_cur(st, c, CsvMode::Unquoted)
        },
        CsvMode::Unquoted => if c == ',' {
            spec_end_field(st)
        } else if c == '\n' {
            spec_end_record(st, CsvMode::FieldStart)
        } else if c == '\r' {
            spec_end_record(st, CsvMode::AfterCr)
        } else {
            spec_push_cur(st, c, CsvMode::Unquoted)
        },
        CsvMode::Quoted => if c == '"' {
            spec_set_mode(st, CsvMode::QuoteSeen)
        } else {
            spec_push_cur(st, c, CsvMode::Quoted)
        },
        CsvMode::QuoteSeen => if c == '"' {
            spec_push_cur(st, '"', CsvMode::Quoted)
        } else if c == ',' {
            spec_end_field(st)
        } else if c == '\n' {
            spec_end_record(st, CsvMode::FieldStart)
        } else if c == '\r' {
            spec_end_record(st, CsvMode::AfterCr)
        } else {
            spec_fail(st)
        },
        CsvMode::AfterCr => st,
    }
}

/// One character of content: rejection latches, and after a bare carriage
/// return a line feed is part of the same record break.
pub open spec fn csv_step(st: CsvState, c: char) -> CsvState {
    if st.failed {
        st
    } else if st.mode is AfterCr {
        if c == '\n' {
            spec_set_mode(st, CsvMode::FieldStart)
        } else {
            spec_step_main(spec_set_mode(st, CsvMode::FieldStart), c)
        }
    } else {
        spec_step_main(st, c)
    }
}

/// The parser state after the first `n` characters of `s`.
pub open spec fn csv_run(s: Seq<char>, n: int) -> CsvState
    decreases n,
{
    if n <= 0 {
        csv_init()
    } else {
        csv_step(csv_run(s, n - 1), s[n - 1])
    }
}

/// Close the final record at end of input; content ending inside a quoted
/// field is rejected.
pub open spec fn spec_finalize(st: CsvState) -> Option<Seq<Seq<Seq<char>>>> {
    if st.failed {
        None
    } else if st.mode is Quoted {
        None
    } else {
        Some(spec_end_record(st, CsvMode::FieldStart).rows)
    }
}

/// The rows of fields that a delimited tabular content denotes, or `None`
/// when the content is rejected.
pub open spec fn csv_rows(s: Seq<char>) -> Option<Seq<Seq<Seq<char>>>> {
    spec_finalize(csv_run(s, s.len() as int))
}

pub proof fn lemma_csv_failed_latches(s: Seq<char>, i: int, j: int)
    requires
        0 <= i <= j,
        csv_run(s, i).failed,
    ensures
        csv_run(s, j).failed,
    decreases j - i,
{
    if i < j {
        lemma_csv_failed_latches(s, i, j - 1);
    }
}

/// The fields of a row viewed as character sequences.
pub open spec fn fields_view(fs: Seq<String>) -> Seq<Seq<char>> {
    fs.map_values(|f: String| f@)
}

/// Parsed rows viewed as sequences of character sequences.
pub open spec fn rows_view(rs: Seq<Vec<String>>) -> Seq<Seq<Seq<char>>> {
    rs.map_values(|r: Vec<String>| fields_view(r@))
}

/// The executable parser state, mirroring `CsvState` before rejection.
struct CsvAcc {
    rows: Vec<Vec<String>>,
    fields: Vec<String>,
    cur: String,
    mode: CsvMode,
}

impl CsvAcc {
    spec fn as_state(&self) -> CsvState {
        CsvState {
            rows: rows_view(self.rows@),
            fields: fields_view(self.fields@),
            cur: self.cur@,
            mode: self.mode,
            failed: false,
        }
    }

    fn end_field(&mut self)
        ensures
            final(self).as_state() == spec_end_field(old(self).as_state()),
    {
        let mut f = String::new();
        core::mem::swap(&mut f, &mut self.cur);
        self.fields.push(f);
        self.mode = CsvMode::FieldStart;
        proof {
            assert(fields_view(self.fields@) =~= fields_view(old(self).fields@).push(
                old(self).cur@,
            ));
        }
    }

    fn end_record(&mut self, next: CsvMode)
        ensures
            final(self).as_state() == spec_end_record(old(self).as_state(), next),
    {
        if self.fields.len() == 0 && self.cur.unicode_len() == 0 {
            self.mode = next;
            proof {
                assert(fields_view(self.fields@) =~= Seq::<Seq<char>>::empty());
                assert(self.cur@ =~= Seq::<char>::empty());
            }
        } else {
            let mut f = String::new();
            core::mem::swap(&mut f, &mut self.cur);
            self.fields.push(f);
            let mut row: Vec<String> = Vec::new();
            core::mem::swap(&mut row, &mut self.fields);
            self.rows.push(row);
            self.mode = next;
            proof {
                assert(fields_view(row@) =~= fields_view(old(self).fields@).push(old(self).cur@));
                assert(rows_view(self.rows@) =~= rows_view(old(self).rows@).push(
                    fields_view(old(self).fields@).push(old(self).cur@),
                ));
                assert(fields_view(self.fields@) =~= Seq::<Seq<char>>::empty());
            }
        }
    }

    fn step_main(&mut self, c: char) -> (ok: bool)
        ensures
            ok == !spec_step_main(old(self).as_state(), c).failed,
            ok ==> final(self).as_state() == spec_step_main(old(self).as_state(), c),
    {
        match self.mode {
            CsvMode::FieldStart => {
                if c == '"' {
                    self.mode = CsvMode::Quoted;
                } else if c == ',' {
                    self.end_field();
                } else if c == '\n' {
                    self.end_record(CsvMode::FieldStart);
                } else if c == '\r' {
                    self.end_record(CsvMode::AfterCr);
                } else {
                    self.cur.push(c);
                    self.mode = CsvMode::Unquoted;
                }
                true
            },
            CsvMode::Unquoted => {
                if c == ',' {
                    self.end_field();
                } else if c == '\n' {
                    self.end_record(CsvMode::FieldStart);
                } else if c == '\r' {
                    self.end_record(CsvMode::AfterCr);
                } else {
                    self.cur.push(c);
                    self.mode = CsvMode::Unquoted;
                }
                true
            },
            CsvMode::Quoted => {
                if c == '"' {
                    self.mode = CsvMode::QuoteSeen;
                } else {
                    self.cur.push(c);
                }
                true
            },
            CsvMode::QuoteSeen => {
                if c == '"' {
                    self.cur.push('"');
                    self.mode = CsvMode::Quoted;
                    true
                } else if c == ',' {
                    self.end_field();
                    true
                } else if c == '\n' {
                    self.end_record(CsvMode::FieldStart);
                    true
                } else if c == '\r' {
                    self.end_record(CsvMode::AfterCr);
                    true
                } else {
                    false
                }
            },
            CsvMode::AfterCr => true,
        }
    }
}

/// Parse delimited tabular content into its rows of fields; `None` exactly
/// when the content is rejected, so that no partial table is ever used.
pub fn parse_csv(content: &str) -> (r: Option<Vec<Vec<String>>>)
    ensures
        match r {
            Some(rows) => csv_rows(content@) == Some(rows_view(rows@)),
            None => csv_rows(content@) is None,
        },
{
    let n = content.unicode_len();
    let mut acc = CsvAcc {
        rows: Vec::new(),
        fields: Vec::new(),
        cur: String::new(),
        mode: CsvMode::FieldStart,
    };
    let mut i: usize = 0;
    proof {
        assert(rows_view(acc.rows@) =~= Seq::<Seq<Seq<char>>>::empty());
        assert(fields_view(acc.fields@) =~= Seq::<Seq<char>>::empty());
    }
    while i < n
        invariant
            i <= n,
            n == content@.len(),
            acc.as_state() == csv_run(content@, i as int),
        decreases n - i,
    {
        let c = content.get_char(i);
        let ghost st = csv_run(content@, i as int);
        let ok = match acc.mode {
            CsvMode::AfterCr => {
                if c == '\n' {
                    acc.mode = CsvMode::FieldStart;
                    true
                } else {
                    acc.mode = CsvMode::FieldStart;
                    acc.step_main(c)
                }
            },
            _ => acc.step_main(c),
        };
        proof {
            assert(csv_run(content@, i as int + 1) == csv_step(st, content@[i as int]));
        }
        if !ok {
            proof {
                lemma_csv_failed_latches(content@, i as int + 1, content@.len() as int);
            }
            return None;
        }
        i = i + 1;
    }
    match acc.mode {
        CsvMode::Quoted => None,
        _ => {
            acc.end_record(CsvMode::FieldStart);
            Some(acc.rows)
        },
    }
}

/// A well-formed registry row: the 4-field schema (block identifier, key,
/// name, address) with the key column a 6-character uppercase hex prefix.
pub open spec fn row_wf(row: Seq<Seq<char>>) -> bool {
    row.len() == 4 && row[1].len() == 6 && is_hex(row[1])
}

/// The rows that carry records: every row but the header row.
pub open spec fn data_rows(rows: Seq<Seq<Seq<char>>>) -> Seq<Seq<Seq<char>>> {
    if rows.len() == 0 {
        rows
    } else {
        rows.drop_first()
    }
}

/// The store entry a well-formed row denotes: its key column read as a
/// 24-bit number, and its name and address concatenated.
pub open spec fn entry_of_row(row: Seq<Seq<char>>) -> (u32, Seq<char>)
    recommends
        row_wf(row),
{
    (hex_val(row[1]) as u32, row[2] + row[3])
}

pub open spec fn entries_of_rows(rows: Seq<Seq<Seq<char>>>) -> Seq<(u32, Seq<char>)> {
    rows.map_values(|row: Seq<Seq<char>>| entry_of_row(row))
}

/// The store entries a registry content denotes, in registry order, or
/// `None` when the content is rejected or some data row is malformed.
pub open spec fn registry_entries(content: Seq<char>) -> Option<Seq<(u32, Seq<char>)>> {
    match csv_rows(content) {
        Some(rows) => if forall|i: int|
            0 <= i < data_rows(rows).len() ==> row_wf(#[trigger] data_rows(rows)[i]) {
            Some(entries_of_rows(data_rows(rows)))
        } else {
            None
        },
        None => None,
    }
}

/// The mapping a registry content denotes: its entries inserted in order,
/// a later row with the same key overwriting an earlier one.
pub open spec fn registry_map(content: Seq<char>) -> Option<Map<u32, Seq<char>>> {
    match registry_entries(content) {
        Some(es) => Some(map_of_pairs(es)),
        None => None,
    }
}

/// A lookup for a hardware address hits exactly the rows whose key column
/// is the formatted form of the address's first three bytes: two
/// zero-padded uppercase hex characters per byte, concatenated.
pub proof fn lemma_key_matches_hex(row: Seq<Seq<char>>, b0: u8, b1: u8, b2: u8)
    requires
        row_wf(row),
    ensures
        entry_of_row(row).0 == oui_key(b0, b1, b2) <==> row[1] == oui_hex(oui_key(b0, b1, b2)),
{
    lemma_pow16_values();
    let key = oui_key(b0, b1, b2);
    lemma_hex_val_bound(row[1]);
    lemma_hex_seq_of_val(row[1]);
    if entry_of_row(row).0 == key {
        assert(hex_val(row[1]) == key as int);
        assert(row[1] == hex_seq(key as int, 6));
    }
    if row[1] == oui_hex(key) {
        lemma_hex_seq_val(key as int, 6);
        assert(hex_val(row[1]) == key as int);
    }
}

/// Turn parsed rows into store entries, skipping the header row; any data
/// row off the schema is fatal for the whole batch.
fn build_entries(rows: &Vec<Vec<String>>) -> (r: Result<Vec<(u32, String)>, VendorError>)
    ensures
        match r {
            Ok(entries) => {
                &&& forall|i: int|
                    0 <= i < data_rows(rows_view(rows@)).len() ==> row_wf(
                        #[trigger] data_rows(rows_view(rows@))[i],
                    )
                &&& pair_views(entries@) == entries_of_rows(data_rows(rows_view(rows@)))
                &&& forall|i: int| 0 <= i < entries@.len() ==> (#[trigger] entries@[i]).0 < 0x1000000
            },
            Err(e) => {
                &&& e == VendorError::MalformedRecord
                &&& !(forall|i: int|
                    0 <= i < data_rows(rows_view(rows@)).len() ==> row_wf(
                        #[trigger] data_rows(rows_view(rows@))[i],
                    ))
            },
        },
{
    proof {
        lemma_pow16_values();
    }
    let ghost data = data_rows(rows_view(rows@));
    let mut entries: Vec<(u32, String)> = Vec::new();
    if rows.len() == 0 {
        proof {
            assert(pair_views(entries@) =~= entries_of_rows(data));
        }
        return Ok(entries);
    }
    let mut i: usize = 1;
    proof {
        assert(data.len() == rows@.len() - 1);
        assert(forall|j: int| 0 <= j < data.len() ==> data[j] == rows_view(rows@)[j + 1]);
        assert(pair_views(entries@) =~= entries_of_rows(data.take(0)));
    }
    while i < rows.len()
        invariant
            1 <= i <= rows@.len(),
            data == data_rows(rows_view(rows@)),
            data.len() == rows@.len() - 1,
            forall|j: int| 0 <= j < data.len() ==> data[j] == rows_view(rows@)[j + 1],
            forall|j: int| 0 <= j < i - 1 ==> row_wf(#[trigger] data[j]),
            pair_views(entries@) == entries_of_rows(data.take(i - 1)),
            forall|j: int| 0 <= j < entries@.len() ==> (#[trigger] entries@[j]).0 < 0x1000000,
            pow16(6) == 0x1000000,
        decreases rows@.len() - i,
    {
        let ghost drow = data[i as int - 1];
        proof {
            assert(drow == fields_view(rows@[i as int]@));
        }
        let row = &rows[i];
        if row.len() != 4 {
            return Err(VendorError::MalformedRecord);
        }
        let key_s = &row[1];
        if key_s.unicode_len() != 6 {
            return Err(VendorError::MalformedRecord);
        }
        let k = match parse_hex(key_s.as_str(), 0, 6) {
            Some(k) => k,
            None => {
                proof {
                    assert(key_s@.subrange(0, 6) =~= drow[1]);
                }
                return Err(VendorError::MalformedRecord);
            },
        };
        proof {
            assert(key_s@.subrange(0, 6) =~= drow[1]);
            assert(row_wf(drow));
        }
        let value = row[2].clone().concat(row[3].as_str());
        entries.push((k as u32, value));
        proof {
            assert(entry_of_row(drow) == (k as u32, value@));
            assert(data.take(i as int) =~= data.take(i as int - 1).push(drow));
            assert(entries_of_rows(data.take(i as int)) =~= entries_of_rows(
                data.take(i as int - 1),
            ).push(entry_of_row(drow)));
            assert(pair_views(entries@) =~= pair_views(entries@.drop_last()).push(
                (k as u32, value@),
            ));
        }
        i = i + 1;
    }
    proof {
        assert(data.take(i as int - 1) =~= data);
    }
    Ok(entries)
}

/// Refresh from the text of a registry: parse it, reject it whole if any
/// row is off the schema, and otherwise return the populated store
/// together with the snapshot text whose later load yields that same
/// store.
pub fn refresh_from_content(content: &str) -> (r: Result<(Vendor, String), VendorError>)
    ensures
        match r {
            Ok((store, snap)) => {
                &&& registry_map(content@) == Some(store@)
                &&& store_of_snapshot(snap@) == Some(store@)
            },
            Err(e) => {
                &&& e == VendorError::MalformedRecord
                &&& registry_map(content@) is None
            },
        },
{
    let rows = match parse_csv(content) {
        Some(rows) => rows,
        None => {
            return Err(VendorError::MalformedRecord);
        },
    };
    let entries = match build_entries(&rows) {
        Ok(entries) => entries,
        Err(e) => {
            return Err(e);
        },
    };
    let snap = encode_snapshot(&entries);
    let store = Vendor::from_entries(&entries);
    proof {
        lemma_snapshot_round_trip(pair_views(entries@));
    }
    Ok((store, snap))
}

} // verus!
