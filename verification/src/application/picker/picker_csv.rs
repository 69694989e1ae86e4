//! picker.csv: groups of keys, each a header line (name, columns, key width)
//! followed by one line per key (name, top text, bottom text), with an empty
//! line between groups.

use vstd::prelude::*;
use vstd::string::StrSliceExecFns;

use crate::text::{parse_i32, parsed_i32};

verus! {

/// The records that the csv crate reads from a text without a header line,
/// each a sequence of fields; `None` where it fails to read one of them.
pub uninterp spec fn csv_records(text: Seq<char>) -> Option<Seq<Seq<Seq<char>>>>;

/// Records of strings as character sequences.
pub open spec fn records_view(v: Seq<Vec<String>>) -> Seq<Seq<Seq<char>>> {
    v.map_values(|r: Vec<String>| r@.map_values(|f: String| f@))
}

/// Reads CSV records with `csv::ReaderBuilder` (no header line). The
/// contract names the csv crate's result and claims nothing else about it.
#[verifier::external_body]
pub(crate) fn read_csv_records(text: &str) -> (r: Option<Vec<Vec<String>>>)
    ensures
        r matches Some(v) ==> csv_records(text@) == Some(records_view(v@)),
        r is None <==> csv_records(text@) is None,
{
    let mut reader = csv::ReaderBuilder::new().has_headers(false).from_reader(text.as_bytes());
    let mut records = Vec::new();
    for record in reader.records() {
        match record {
            Ok(record) => records.push(record.iter().map(|field| field.to_string()).collect()),
            Err(_) => return None,
        }
    }
    Some(records)
}

/// Field `k` of a record, or the empty text where the record is shorter.
pub open spec fn field(record: Seq<Seq<char>>, k: int) -> Seq<char> {
    if 0 <= k < record.len() {
        record[k]
    } else {
        seq![]
    }
}

pub(crate) fn get_field(record: &Vec<String>, k: usize) -> (f: String)
    ensures
        f@ == field(record@.map_values(|s: String| s@), k as int),
{
    if k < record.len() {
        record[k].clone()
    } else {
        String::new()
    }
}

/// An entry of picker.csv: a group header, or a key with its top and bottom
/// text.
pub enum PickerCsv {
    Group { name: String, cols: i32, width: i32 },
    Key { name: String, top: String, bottom: String },
}

/// A picker.csv entry as character sequences.
pub enum PickerCsvView {
    Group { name: Seq<char>, cols: i32, width: i32 },
    Key { name: Seq<char>, top: Seq<char>, bottom: Seq<char> },
}

impl View for PickerCsv {
    type V = PickerCsvView;

    open spec fn view(&self) -> PickerCsvView {
        match self {
            PickerCsv::Group { name, cols, width } => PickerCsvView::Group { name: name@, cols: *cols, width: *width },
            PickerCsv::Key { name, top, bottom } => PickerCsvView::Key { name: name@, top: top@, bottom: bottom@ },
        }
    }
}

/// Reading picker.csv line by line: whether the next line starts a group,
/// the entries so far, and whether every group header so far had readable
/// numbers.
pub struct CsvWalk {
    pub is_group: bool,
    pub entries: Seq<PickerCsvView>,
    pub ok: bool,
}

/// An empty name ends a group; the first line after that is a group header,
/// whose column count and key width must read as numbers; the others are keys.
pub open spec fn csv_step(s: CsvWalk, record: Seq<Seq<char>>) -> CsvWalk {
    let name = field(record, 0);
    if name.len() == 0 {
        CsvWalk { is_group: true, ..s }
    } else if s.is_group {
        let cols = parsed_i32(field(record, 1));
        let width = parsed_i32(field(record, 2));
        CsvWalk {
            is_group: false,
            entries: s.entries.push(
                PickerCsvView::Group {
                    name,
                    cols: match cols { Some(c) => c, None => 0 },
                    width: match width { Some(w) => w, None => 0 },
                },
            ),
            ok: s.ok && cols is Some && width is Some,
        }
    } else {
        CsvWalk {
            entries: s.entries.push(PickerCsvView::Key { name, top: field(record, 1), bottom: field(record, 2) }),
            ..s
        }
    }
}

/// Reading picker.csv after the first `n` records.
pub open spec fn csv_walk(records: Seq<Seq<Seq<char>>>, n: int) -> CsvWalk
    decreases n,
{
    if n <= 0 {
        CsvWalk { is_group: true, entries: seq![], ok: true }
    } else {
        csv_step(csv_walk(records, n - 1), records[n - 1])
    }
}

/// Whether picker.csv reads: its records read, and every group header's
/// column count and key width are numbers.
pub open spec fn picker_csv_readable(text: Seq<char>) -> bool {
    &&& csv_records(text) is Some
    &&& csv_walk(csv_records(text).unwrap(), csv_records(text).unwrap().len() as int).ok
}

proof fn lemma_csv_ok_prefix(records: Seq<Seq<Seq<char>>>, n: int, i: int)
    requires
        0 <= i <= n,
        csv_walk(records, n).ok,
    ensures
        csv_walk(records, i).ok,
    decreases n - i,
{
    if i < n {
        lemma_csv_ok_prefix(records, n - 1, i);
    }
}

/// The groups and keys of picker.csv's records, in order; every group
/// header's column count and key width must read as numbers.
pub fn picker_csv_from_records(records: &Vec<Vec<String>>) -> (entries: Vec<PickerCsv>)
    requires
        csv_walk(records_view(records@), records@.len() as int).ok,
    ensures
        entries@.map_values(|e: PickerCsv| e@) == csv_walk(records_view(records@), records@.len() as int).entries,
{
    let ghost rv = records_view(records@);
    let mut entries: Vec<PickerCsv> = Vec::new();
    let mut is_group = true;
    let mut i: usize = 0;
    assert(entries@.map_values(|e: PickerCsv| e@) =~= Seq::<PickerCsvView>::empty());
    while i < records.len()
        invariant
            rv == records_view(records@),
            i <= records@.len(),
            csv_walk(rv, rv.len() as int).ok,
            is_group == csv_walk(rv, i as int).is_group,
            entries@.map_values(|e: PickerCsv| e@) == csv_walk(rv, i as int).entries,
        decreases records@.len() - i,
    {
        let record = &records[i];
        assert(rv[i as int] == record@.map_values(|s: String| s@));
        proof {
            lemma_csv_ok_prefix(rv, rv.len() as int, i + 1);
        }
        let name = get_field(record, 0);
        let ghost before = entries@;
        if name.unicode_len() == 0 {
            is_group = true;
        } else if is_group {
            is_group = false;
            let cols = parse_i32(get_field(record, 1).as_str()).unwrap();
            let width = parse_i32(get_field(record, 2).as_str()).unwrap();
            let e = PickerCsv::Group { name, cols, width };
            let ghost ev = e@;
            entries.push(e);
            assert(entries@.map_values(|e: PickerCsv| e@) =~= before.map_values(|e: PickerCsv| e@).push(ev));
        } else {
            let top = get_field(record, 1);
            let bottom = get_field(record, 2);
            let e = PickerCsv::Key { name, top, bottom };
            let ghost ev = e@;
            entries.push(e);
            assert(entries@.map_values(|e: PickerCsv| e@) =~= before.map_values(|e: PickerCsv| e@).push(ev));
        }
        i = i + 1;
    }
    entries
}

/// The groups and keys of a picker.csv text, in order.
pub fn picker_csv(text: &str) -> (entries: Vec<PickerCsv>)
    requires
        picker_csv_readable(text@),
    ensures
        entries@.map_values(|e: PickerCsv| e@) == csv_walk(
            csv_records(text@).unwrap(),
            csv_records(text@).unwrap().len() as int,
        ).entries,
{
    let records = read_csv_records(text).unwrap();
    picker_csv_from_records(&records)
}

/// Whether every group header among picker.csv's records has a column count
/// and a key width that read as numbers.
pub fn records_readable(records: &Vec<Vec<String>>) -> (b: bool)
    ensures
        b == csv_walk(records_view(records@), records@.len() as int).ok,
{
    let ghost rv = records_view(records@);
    let mut is_group = true;
    let mut ok = true;
    let mut i: usize = 0;
    while i < records.len()
        invariant
            rv == records_view(records@),
            i <= records@.len(),
            is_group == csv_walk(rv, i as int).is_group,
            ok == csv_walk(rv, i as int).ok,
        decreases records@.len() - i,
    {
        let record = &records[i];
        assert(rv[i as int] == record@.map_values(|s: String| s@));
        let name = get_field(record, 0);
        if name.unicode_len() == 0 {
            is_group = true;
        } else if is_group {
            is_group = false;
            let cols = parse_i32(get_field(record, 1).as_str());
            let width = parse_i32(get_field(record, 2).as_str());
            ok = ok && cols.is_some() && width.is_some();
        }
        i = i + 1;
    }
    ok
}

/// Whether a picker.csv text reads: see `picker_csv_readable`.
pub fn picker_csv_is_readable(text: &str) -> (b: bool)
    ensures
        b == picker_csv_readable(text@),
{
    match read_csv_records(text) {
        Some(records) => records_readable(&records),
        None => false,
    }
}

/// The groups and keys of a picker.csv text, or `None` where it does not
/// read (see `picker_csv_readable`).
pub fn try_picker_csv(text: &str) -> (r: Option<Vec<PickerCsv>>)
    ensures
        r is Some <==> picker_csv_readable(text@),
        r matches Some(entries) ==> entries@.map_values(|e: PickerCsv| e@) == csv_walk(
            csv_records(text@).unwrap(),
            csv_records(text@).unwrap().len() as int,
        ).entries,
{
    if picker_csv_is_readable(text) {
        Some(picker_csv(text))
    } else {
        None
    }
}

} // verus!
