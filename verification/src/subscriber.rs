//! Subscribers by DMR ID, from a RadioID.net `user.csv`.
//!
//! The table's header names the columns `RADIO_ID`, `CALLSIGN`, `FIRST_NAME`,
//! `LAST_NAME`, `CITY`, `STATE` and `COUNTRY`; the first two have to be there.
//! Other columns are ignored.  Rows that cannot be used are skipped.

use std::collections::HashMap;

use vstd::prelude::*;
use vstd::std_specs::hash::*;
use vstd::string::*;
use vstd::utf8::*;

use crate::bytes::MAX_24BIT;
use crate::text::{cut, law_cut, prefix};
use crate::types::SubscriberId;

verus! {

/// Most bytes of a text.
pub const MAX_FIELD_LEN: usize = 64;

/// Age, in seconds, beyond which a table counts as stale: 30 days.
pub const STALE_AGE_SECS: u64 = 2_592_000;

/// Columns of the table that are used.
pub const COLUMNS: usize = 7;

/// What is known of a subscriber.  Texts other than the callsign are often
/// empty.
#[derive(Debug, Clone)]
pub struct Subscriber {
    pub dmr_id: SubscriberId,
    pub callsign: String,
    pub first_name: String,
    pub last_name: String,
    pub city: String,
    pub state: String,
    pub country: String,
}

/// How many rows were not taken as they are.
#[derive(Debug, Clone, Copy, PartialEq, Eq, Structural)]
pub struct LoadCounts {
    /// Rows skipped.
    pub bad_rows: usize,
    /// Rows with a text that was cut.
    pub capped_rows: usize,
}

/// Subscribers by DMR ID.
#[derive(Debug, Clone)]
pub struct Subscribers {
    by_id: HashMap<u32, Subscriber>,
}

// ---------------------------------------------------------------------------
// Model
// ---------------------------------------------------------------------------

/// The name of column `i`.
pub open spec fn column_name(i: int) -> Seq<char> {
    if i == 0 {
        "RADIO_ID"@
    } else if i == 1 {
        "CALLSIGN"@
    } else if i == 2 {
        "FIRST_NAME"@
    } else if i == 3 {
        "LAST_NAME"@
    } else if i == 4 {
        "CITY"@
    } else if i == 5 {
        "STATE"@
    } else {
        "COUNTRY"@
    }
}

/// The header holds the name.
pub open spec fn has_name(header: Seq<Seq<char>>, name: Seq<char>) -> bool {
    exists|i: int| 0 <= i < header.len() && #[trigger] header[i] == name
}

/// The header holds the name twice.
pub open spec fn has_twice(header: Seq<Seq<char>>, name: Seq<char>) -> bool {
    exists|i: int, j: int|
        0 <= i < j < header.len() && #[trigger] header[i] == name && #[trigger] header[j] == name
}

/// `at[i]` is the place of column `i`, or the header's length where it is
/// missing.  A table without a readable header has the columns in order.
pub open spec fn is_layout(header: Option<Seq<Seq<char>>>, at: Seq<usize>) -> bool {
    &&& at.len() == COLUMNS
    &&& match header {
        Some(h) => forall|i: int|
            0 <= i < 7 ==> {
                &&& #[trigger] at[i] <= h.len()
                &&& at[i] < h.len() ==> h[at[i] as int] == column_name(i)
                &&& at[i] == h.len() ==> !has_name(h, column_name(i))
            },
        None => forall|i: int| 0 <= i < 7 ==> #[trigger] at[i] == i,
    }
}

/// The table has the columns that it must have, and none of them twice.
pub open spec fn is_usable(header: Option<Seq<Seq<char>>>) -> bool {
    match header {
        Some(h) => {
            &&& has_name(h, column_name(0))
            &&& has_name(h, column_name(1))
            &&& forall|i: int| 0 <= i < 7 ==> !has_twice(h, #[trigger] column_name(i))
        },
        None => true,
    }
}

/// Fewest fields of a row.
pub open spec fn least_fields(header: Option<Seq<Seq<char>>>) -> int {
    match header {
        Some(h) => h.len() as int,
        None => 2,
    }
}

/// Columns that the header, or its absence, gives a place to.  What a row has
/// beyond them is ignored.
pub open spec fn table_width(header: Option<Seq<Seq<char>>>) -> int {
    match header {
        Some(h) => h.len() as int,
        None => COLUMNS as int,
    }
}

/// The text at a place of a row; empty where the table, of the given width, or
/// the row has no such place.
pub open spec fn text_at(width: int, fields: Seq<Seq<char>>, place: int) -> Seq<char> {
    if place < width && place < fields.len() {
        fields[place]
    } else {
        seq![]
    }
}

/// The six texts of a row, cut to the limit.
pub open spec fn row_texts(width: int, at: Seq<usize>, fields: Seq<Seq<char>>) -> Seq<Seq<u8>> {
    Seq::new(6, |i: int| cut(text_at(width, fields, at[i + 1] as int), MAX_FIELD_LEN as int))
}

/// A row is used: it is whole and its ID is a subscriber's.
pub open spec fn row_used(
    header: Option<Seq<Seq<char>>>,
    at: Seq<usize>,
    row: Option<Seq<Seq<char>>>,
) -> bool {
    &&& is_usable(header)
    &&& row matches Some(fields)
    &&& fields.len() >= least_fields(header)
    &&& csv_number(fields[at[0] as int]) matches Some(id)
    &&& 0 < id <= MAX_24BIT
}

/// The subscribers of the first `n` rows: later rows replace earlier ones.
pub open spec fn table_entries(
    header: Option<Seq<Seq<char>>>,
    at: Seq<usize>,
    rows: Seq<Option<Seq<Seq<char>>>>,
    n: int,
) -> Map<u32, Seq<Seq<u8>>>
    decreases n,
{
    if n <= 0 {
        Map::empty()
    } else {
        let before = table_entries(header, at, rows, n - 1);
        if row_used(header, at, rows[n - 1]) {
            let fields = rows[n - 1]->0;
            before.insert(
                csv_number(fields[at[0] as int])->0,
                row_texts(table_width(header), at, fields),
            )
        } else {
            before
        }
    }
}

/// Rows, among the first `n`, that are not used.
pub open spec fn unused_rows(
    header: Option<Seq<Seq<char>>>,
    at: Seq<usize>,
    rows: Seq<Option<Seq<Seq<char>>>>,
    n: int,
) -> int
    decreases n,
{
    if n <= 0 {
        0
    } else {
        unused_rows(header, at, rows, n - 1) + if row_used(header, at, rows[n - 1]) {
            0int
        } else {
            1
        }
    }
}

/// A used row has a text longer than the limit.
pub open spec fn row_capped(width: int, at: Seq<usize>, fields: Seq<Seq<char>>) -> bool {
    exists|i: int|
        1 <= i < 7 && encode_utf8(text_at(width, fields, #[trigger] at[i] as int)).len()
            > MAX_FIELD_LEN
}

/// Rows, among the first `n`, that are used with a text cut.
pub open spec fn capped_rows(
    header: Option<Seq<Seq<char>>>,
    at: Seq<usize>,
    rows: Seq<Option<Seq<Seq<char>>>>,
    n: int,
) -> int
    decreases n,
{
    if n <= 0 {
        0
    } else {
        capped_rows(header, at, rows, n - 1) + if row_used(header, at, rows[n - 1]) && row_capped(
            table_width(header),
            at,
            rows[n - 1]->0,
        ) {
            1int
        } else {
            0
        }
    }
}

/// A table with this header and these rows gives these subscribers, with
/// `bad` rows skipped and `capped` rows cut.
pub open spec fn loads(
    header: Option<Seq<Seq<char>>>,
    rows: Seq<Option<Seq<Seq<char>>>>,
    entries: Map<u32, Seq<Seq<u8>>>,
    bad: int,
    capped: int,
) -> bool {
    exists|at: Seq<usize>| #[trigger]
        is_layout(header, at) && {
            &&& entries == table_entries(header, at, rows, rows.len() as int)
            &&& bad == unused_rows(header, at, rows, rows.len() as int)
            &&& capped == capped_rows(header, at, rows, rows.len() as int)
        }
}

/// A table with this header and these rows gives these subscribers.
pub open spec fn gives(
    header: Option<Seq<Seq<char>>>,
    rows: Seq<Option<Seq<Seq<char>>>>,
    entries: Map<u32, Seq<Seq<u8>>>,
) -> bool {
    exists|bad: int, capped: int| loads(header, rows, entries, bad, capped)
}

/// The bytes of the six texts of a subscriber.
pub open spec fn texts_of(s: Subscriber) -> Seq<Seq<u8>> {
    seq![
        encode_utf8(s.callsign@),
        encode_utf8(s.first_name@),
        encode_utf8(s.last_name@),
        encode_utf8(s.city@),
        encode_utf8(s.state@),
        encode_utf8(s.country@),
    ]
}

impl Subscribers {
    /// The subscribers.
    pub closed spec fn map(self) -> Map<u32, Subscriber> {
        self.by_id@
    }

    /// The texts of the subscribers.
    pub open spec fn entries(self) -> Map<u32, Seq<Seq<u8>>> {
        self.map().map_values(|s: Subscriber| texts_of(s))
    }

    /// Every entry stands under its own, valid ID.
    pub open spec fn wf(self) -> bool {
        forall|k: u32| #[trigger]
            self.map().contains_key(k) ==> 0 < k <= MAX_24BIT && self.map()[k].dmr_id.id() == k
    }
}

// ---------------------------------------------------------------------------
// The CSV reader
// ---------------------------------------------------------------------------

/// The header of a CSV table: `None` where it is not UTF-8.
pub uninterp spec fn csv_header(data: Seq<u8>) -> Option<Seq<Seq<char>>>;

/// The rows of a CSV table below its header: `None` for one that is not UTF-8.
pub uninterp spec fn csv_rows(data: Seq<u8>) -> Seq<Option<Seq<Seq<char>>>>;

/// The value of a digit; no digit has a value of 16 or more.
pub open spec fn digit_value(c: char) -> int {
    if '0' <= c <= '9' {
        c as int - '0' as int
    } else if 'a' <= c <= 'f' {
        c as int - 'a' as int + 10
    } else if 'A' <= c <= 'F' {
        c as int - 'A' as int + 10
    } else {
        16
    }
}

/// The value of digits.
pub open spec fn digits_value(s: Seq<char>, radix: int) -> int
    decreases s.len(),
{
    if s.len() == 0 {
        0
    } else {
        radix * digits_value(s.drop_last(), radix) + digit_value(s.last())
    }
}

/// The unsigned 32-bit integer that digits spell; there is at least one.
pub open spec fn unsigned_digits(digits: Seq<char>, radix: int) -> Option<u32> {
    if digits.len() > 0 && (forall|i: int|
        0 <= i < digits.len() ==> digit_value(#[trigger] digits[i]) < radix) && digits_value(
        digits,
        radix,
    ) <= u32::MAX {
        Some(digits_value(digits, radix) as u32)
    } else {
        None
    }
}

/// The unsigned 32-bit integer that a text spells, with or without a plus sign
/// before its digits.
pub open spec fn unsigned(s: Seq<char>, radix: int) -> Option<u32> {
    if s.len() > 0 && s[0] == '+' {
        unsigned_digits(s.skip(1), radix)
    } else {
        unsigned_digits(s, radix)
    }
}

/// The number that a CSV field spells as an unsigned 32-bit integer, if any:
/// hexadecimal behind `0x`, decimal otherwise.
pub open spec fn csv_number(field: Seq<char>) -> Option<u32> {
    if field.len() >= 2 && field[0] == '0' && field[1] == 'x' {
        unsigned(field.skip(2), 16)
    } else {
        unsigned(field, 10)
    }
}

/// The texts of strings.
pub open spec fn texts(v: Seq<String>) -> Seq<Seq<char>> {
    v.map_values(|s: String| s@)
}

/// The texts of a record.
pub open spec fn record_view(r: Option<Vec<String>>) -> Option<Seq<Seq<char>>> {
    match r {
        Some(v) => Some(texts(v@)),
        None => None,
    }
}

/// The texts of records.
pub open spec fn records_view(v: Seq<Option<Vec<String>>>) -> Seq<Option<Seq<Seq<char>>>> {
    v.map_values(|r: Option<Vec<String>>| record_view(r))
}

/// An error of the CSV reader.
#[verifier::external_type_specification]
#[verifier::external_body]
pub struct ExCsvError(csv::Error);

/// Reads the header of a CSV table.
///
/// Calls `csv::Reader::headers` on a reader of a table with a header row and
/// rows of any length.  What it gives is named `csv_header`; the reader works
/// on the bytes alone.
#[verifier::external_body]
fn read_header(data: &[u8]) -> (r: Option<Vec<String>>)
    ensures
        record_view(r) == csv_header(data@),
{
    let mut rdr = csv::ReaderBuilder::new().has_headers(true).flexible(true).from_reader(data);
    rdr.headers().ok().map(|h| h.iter().map(String::from).collect())
}

/// Reads the rows of a CSV table.
///
/// Calls `csv::Reader::records` on a reader of a table with a header row and
/// rows of any length.  What it gives is named `csv_rows`; the reader works on
/// the bytes alone.
#[verifier::external_body]
fn read_rows(data: &[u8]) -> (r: Vec<Option<Vec<String>>>)
    ensures
        records_view(r@) == csv_rows(data@),
{
    let mut rdr = csv::ReaderBuilder::new().has_headers(true).flexible(true).from_reader(data);
    let rows = rdr.records().map(|r| r.ok().map(|f| f.iter().map(String::from).collect()));
    rows.collect()
}

/// Reads a field as an unsigned 32-bit integer.
///
/// Calls `csv::StringRecord::deserialize` on a record of the one field.  It
/// parses what follows `0x` as hexadecimal digits and any other field as decimal
/// ones, as `u32::from_str_radix` does: a plus sign may come first, nothing else
/// may stand around the digits, and the number has to fit.
#[verifier::external_body]
fn read_number(field: &str) -> (r: Option<u32>)
    ensures
        r == csv_number(field@),
{
    csv::StringRecord::from(vec![field]).deserialize::<u32>(None).ok()
}

// ---------------------------------------------------------------------------
// Loading
// ---------------------------------------------------------------------------

/// Text cut to the limit, and whether it had to be.
pub fn cap_field(s: String) -> (r: (String, bool))
    ensures
        encode_utf8(r.0@) == cut(s@, MAX_FIELD_LEN as int),
        r.1 == (encode_utf8(s@).len() > MAX_FIELD_LEN),
{
    proof {
        law_cut(s@, MAX_FIELD_LEN as int);
    }
    if s.as_str().as_bytes().len() <= MAX_FIELD_LEN {
        return (s, false);
    }
    (prefix(s.as_str(), MAX_FIELD_LEN).to_owned(), true)
}

/// The place of a name in the header, or the header's length; and whether the
/// name is there twice.
fn find_name(header: &Vec<String>, name: &str) -> (r: (usize, bool))
    ensures
        r.0 <= header@.len(),
        r.0 < header@.len() ==> header@[r.0 as int]@ == name@,
        r.0 == header@.len() ==> !has_name(texts(header@), name@),
        r.1 == has_twice(texts(header@), name@),
{
    let wanted = name.to_owned();
    let n: usize = header.len();
    let ghost h = texts(header@);
    let mut first: usize = n;
    let mut twice = false;
    let mut i: usize = 0;
    while i < n
        invariant
            i <= n,
            n == header@.len(),
            h == texts(header@),
            wanted@ == name@,
            first == n || first < i,
            first < n ==> h[first as int] == name@,
            first == n ==> forall|k: int| 0 <= k < i ==> h[k] != name@,
            first < n ==> forall|k: int| 0 <= k < first ==> h[k] != name@,
            twice ==> has_twice(h, name@),
            !twice ==> forall|k: int| 0 <= k < i && k != first ==> h[k] != name@,
        decreases n - i,
    {
        assert(h[i as int] == header@[i as int]@);
        if header[i] == wanted {
            if first == n {
                first = i;
            } else {
                assert(h[first as int] == name@ && h[i as int] == name@);
                twice = true;
            }
        }
        i += 1;
    }
    (first, twice)
}

/// The places of the columns, and whether the table can be used.
fn find_columns(header: &Option<Vec<String>>) -> (r: ([usize; COLUMNS], bool))
    ensures
        is_layout(record_view(*header), r.0@),
        r.1 == is_usable(record_view(*header)),
{
    match header {
        Some(h) => {
            let a = find_name(h, "RADIO_ID");
            let b = find_name(h, "CALLSIGN");
            let c = find_name(h, "FIRST_NAME");
            let d = find_name(h, "LAST_NAME");
            let e = find_name(h, "CITY");
            let f = find_name(h, "STATE");
            let g = find_name(h, "COUNTRY");
            let n: usize = h.len();
            let at: [usize; COLUMNS] = [a.0, b.0, c.0, d.0, e.0, f.0, g.0];
            let unique = !a.1 && !b.1 && !c.1 && !d.1 && !e.1 && !f.1 && !g.1;
            let usable = a.0 < n && b.0 < n && unique;
            proof {
                let t = texts(h@);
                assert(a.0 < n ==> t[a.0 as int] == column_name(0));
                assert(b.0 < n ==> t[b.0 as int] == column_name(1));
                if unique {
                    assert forall|i: int| 0 <= i < 7 implies !has_twice(
                        t,
                        #[trigger] column_name(i),
                    ) by {}
                } else {
                    assert(has_twice(t, column_name(0)) || has_twice(t, column_name(1)) || has_twice(
                        t,
                        column_name(2),
                    ) || has_twice(t, column_name(3)) || has_twice(t, column_name(4)) || has_twice(
                        t,
                        column_name(5),
                    ) || has_twice(t, column_name(6)));
                }
            }
            (at, usable)
        },
        None => {
            let at: [usize; COLUMNS] = [0, 1, 2, 3, 4, 5, 6];
            (at, true)
        },
    }
}

/// The text at a place of a row.
fn get_text(width: usize, fields: &Vec<String>, place: usize) -> (r: String)
    ensures
        r@ == text_at(width as int, texts(fields@), place as int),
{
    if place < width && place < fields.len() {
        fields[place].clone()
    } else {
        String::new()
    }
}

/// The subscriber of a row with a valid ID, in a table of the given width, and
/// whether a text was cut.
pub fn row_subscriber(
    width: usize,
    at: &[usize; COLUMNS],
    fields: &Vec<String>,
    dmr_id: SubscriberId,
) -> (r: (Subscriber, bool))
    ensures
        r.0.dmr_id == dmr_id,
        texts_of(r.0) == row_texts(width as int, at@, texts(fields@)),
        r.1 == row_capped(width as int, at@, texts(fields@)),
{
    let (callsign, c1) = cap_field(get_text(width, fields, at[1]));
    let (first_name, c2) = cap_field(get_text(width, fields, at[2]));
    let (last_name, c3) = cap_field(get_text(width, fields, at[3]));
    let (city, c4) = cap_field(get_text(width, fields, at[4]));
    let (state, c5) = cap_field(get_text(width, fields, at[5]));
    let (country, c6) = cap_field(get_text(width, fields, at[6]));
    let capped = c1 || c2 || c3 || c4 || c5 || c6;
    let s = Subscriber { dmr_id, callsign, first_name, last_name, city, state, country };
    proof {
        let f = texts(fields@);
        assert(texts_of(s) =~= row_texts(width as int, at@, f));
        if capped {
            let k: int = if c1 {
                1
            } else if c2 {
                2
            } else if c3 {
                3
            } else if c4 {
                4
            } else if c5 {
                5
            } else {
                6
            };
            assert(encode_utf8(text_at(width as int, f, at@[k] as int)).len() > MAX_FIELD_LEN);
        } else {
            assert forall|i: int| 1 <= i < 7 implies encode_utf8(
                text_at(width as int, f, #[trigger] at@[i] as int),
            ).len() <= MAX_FIELD_LEN by {}
        }
    }
    (s, capped)
}

impl Subscribers {
    /// No subscribers.
    pub fn new() -> (r: Self)
        ensures
            r.wf(),
            r.map() == Map::<u32, Subscriber>::empty(),
    {
        Subscribers { by_id: HashMap::new() }
    }

    /// The subscribers of a table, and how many rows were not taken as they
    /// are.
    pub fn from_table(header: &Option<Vec<String>>, rows: &Vec<Option<Vec<String>>>) -> (r: (
        Self,
        LoadCounts,
    ))
        ensures
            r.0.wf(),
            loads(
                record_view(*header),
                records_view(rows@),
                r.0.entries(),
                r.1.bad_rows as int,
                r.1.capped_rows as int,
            ),
    {
        let (at, usable) = find_columns(header);
        let ghost h = record_view(*header);
        let ghost t = records_view(rows@);
        let (width, least): (usize, usize) = match header {
            Some(v) => (v.len(), v.len()),
            None => (COLUMNS, 2),
        };
        let mut out = Subscribers::new();
        let mut bad_rows: usize = 0;
        let mut capped: usize = 0;
        let mut i: usize = 0;
        assert(out.entries() =~= Map::<u32, Seq<Seq<u8>>>::empty());
        while i < rows.len()
            invariant
                i <= rows@.len(),
                h == record_view(*header),
                t == records_view(rows@),
                is_layout(h, at@),
                usable == is_usable(h),
                width == table_width(h),
                least == least_fields(h),
                out.wf(),
                out.entries() == table_entries(h, at@, t, i as int),
                bad_rows == unused_rows(h, at@, t, i as int),
                bad_rows <= i,
                capped == capped_rows(h, at@, t, i as int),
                capped <= i,
            decreases rows@.len() - i,
        {
            assert(t[i as int] == record_view(rows@[i as int]));
            let mut used = false;
            if usable {
                match &rows[i] {
                    Some(fields) => {
                        if fields.len() >= least {
                            proof {
                                if header is Some {
                                    let hh = h->0;
                                    if at@[0] == hh.len() {
                                        assert(!has_name(hh, column_name(0)));
                                    }
                                }
                            }
                            match read_number(fields[at[0]].as_str()) {
                                Some(id) => {
                                    match SubscriberId::try_from(id) {
                                        Ok(dmr_id) => {
                                            let (sub, cut_short) = row_subscriber(
                                                width,
                                                &at,
                                                fields,
                                                dmr_id,
                                            );
                                            out.add_row(id, sub);
                                            if cut_short {
                                                capped += 1;
                                            }
                                            used = true;
                                        },
                                        Err(_) => {},
                                    }
                                },
                                None => {},
                            }
                        }
                    },
                    None => {},
                }
            }
            if !used {
                bad_rows += 1;
            }
            i += 1;
        }
        assert(is_layout(h, at@));
        (out, LoadCounts { bad_rows, capped_rows: capped })
    }

    /// Adds or replaces a subscriber.
    fn add_row(&mut self, id: u32, sub: Subscriber)
        requires
            old(self).wf(),
            0 < id <= MAX_24BIT,
            sub.dmr_id.id() == id,
        ensures
            final(self).wf(),
            final(self).entries() == old(self).entries().insert(id, texts_of(sub)),
    {
        broadcast use vstd::std_specs::hash::group_hash_axioms;

        let ghost before = self.map();
        self.by_id.insert(id, sub);
        assert(self.map() == before.insert(id, sub));
        assert(self.entries() =~= old(self).entries().insert(id, texts_of(sub)));
    }

    /// The subscribers of a CSV table, and how many rows were not taken as
    /// they are.
    pub fn from_reader_counted(data: &[u8]) -> (r: (Self, LoadCounts))
        ensures
            r.0.wf(),
            loads(
                csv_header(data@),
                csv_rows(data@),
                r.0.entries(),
                r.1.bad_rows as int,
                r.1.capped_rows as int,
            ),
    {
        Subscribers::from_table(&read_header(data), &read_rows(data))
    }

    /// The subscribers of a CSV table.  Never fails: what cannot be used is
    /// skipped.
    pub fn from_reader(data: &[u8]) -> (r: Result<Self, csv::Error>)
        ensures
            r is Ok,
            r->Ok_0.wf(),
            gives(csv_header(data@), csv_rows(data@), r->Ok_0.entries()),
    {
        let (subs, counts) = Subscribers::from_reader_counted(data);
        assert(loads(
            csv_header(data@),
            csv_rows(data@),
            subs.entries(),
            counts.bad_rows as int,
            counts.capped_rows as int,
        ));
        Ok(subs)
    }

    /// The subscriber with an ID, if known.
    #[must_use]
    pub fn get(&self, dmr_id: u32) -> (r: Option<&Subscriber>)
        requires
            self.wf(),
        ensures
            r is Some <==> self.map().contains_key(dmr_id),
            r matches Some(s) ==> *s == self.map()[dmr_id] && s.dmr_id.id() == dmr_id,
    {
        broadcast use vstd::std_specs::hash::group_hash_axioms;

        match SubscriberId::try_from(dmr_id) {
            Ok(_) => self.by_id.get(&dmr_id),
            Err(_) => None,
        }
    }

    /// How many subscribers are known.
    #[must_use]
    pub fn len(&self) -> (r: usize)
        ensures
            r == self.map().dom().len(),
    {
        broadcast use vstd::std_specs::hash::group_hash_axioms;

        self.by_id.len()
    }

    /// Whether none is known.
    #[must_use]
    pub fn is_empty(&self) -> (r: bool)
        ensures
            r == (self.map().dom().len() == 0),
    {
        broadcast use vstd::std_specs::hash::group_hash_axioms;

        self.by_id.is_empty()
    }
}

impl Default for Subscribers {
    fn default() -> (r: Self)
        ensures
            r.wf(),
            r.map() == Map::<u32, Subscriber>::empty(),
    {
        Subscribers::new()
    }
}

/// Law: no stored text is longer than the limit, every stored ID is a
/// subscriber's, and every row is either skipped or stored.
pub proof fn law_entries_bounded(
    header: Option<Seq<Seq<char>>>,
    rows: Seq<Option<Seq<Seq<char>>>>,
    entries: Map<u32, Seq<Seq<u8>>>,
    bad: int,
    capped: int,
)
    requires
        loads(header, rows, entries, bad, capped),
    ensures
        forall|id: u32| #[trigger] entries.contains_key(id) ==> 0 < id <= MAX_24BIT,
        forall|id: u32, i: int|
            entries.contains_key(id) && 0 <= i < 6 ==> (#[trigger] entries[id][i]).len()
                <= MAX_FIELD_LEN,
        0 <= capped <= rows.len() - bad,
        entries.dom().finite(),
        entries.dom().len() <= rows.len() - bad,
{
    let at = choose|at: Seq<usize>| #[trigger]
        is_layout(header, at) && {
            &&& entries == table_entries(header, at, rows, rows.len() as int)
            &&& bad == unused_rows(header, at, rows, rows.len() as int)
            &&& capped == capped_rows(header, at, rows, rows.len() as int)
        };
    lemma_entries_bounded(header, at, rows, rows.len() as int);
}

proof fn lemma_entries_bounded(
    header: Option<Seq<Seq<char>>>,
    at: Seq<usize>,
    rows: Seq<Option<Seq<Seq<char>>>>,
    n: int,
)
    requires
        0 <= n <= rows.len(),
    ensures
        forall|id: u32| #[trigger]
            table_entries(header, at, rows, n).contains_key(id) ==> 0 < id <= MAX_24BIT,
        forall|id: u32, i: int|
            table_entries(header, at, rows, n).contains_key(id) && 0 <= i < 6 ==> (
            #[trigger] table_entries(header, at, rows, n)[id][i]).len() <= MAX_FIELD_LEN,
        0 <= capped_rows(header, at, rows, n) <= n - unused_rows(header, at, rows, n),
        table_entries(header, at, rows, n).dom().finite(),
        table_entries(header, at, rows, n).dom().len() <= n - unused_rows(header, at, rows, n),
    decreases n,
{
    if n > 0 {
        lemma_entries_bounded(header, at, rows, n - 1);
        if row_used(header, at, rows[n - 1]) {
            let fields = rows[n - 1]->0;
            let width = table_width(header);
            let id = csv_number(fields[at[0] as int])->0;
            let before = table_entries(header, at, rows, n - 1);
            assert(table_entries(header, at, rows, n).dom() =~= before.dom().insert(id));
            assert forall|i: int| 0 <= i < 6 implies (#[trigger] row_texts(width, at, fields)[i]).len()
                <= MAX_FIELD_LEN by {
                law_cut(text_at(width, fields, at[i + 1] as int), MAX_FIELD_LEN as int);
            }
        }
    }
}

/// Law: a column that the header does not name is empty in every subscriber,
/// whatever else a row holds.
pub proof fn law_missing_column_is_empty(
    header: Seq<Seq<char>>,
    at: Seq<usize>,
    fields: Seq<Seq<char>>,
    i: int,
)
    requires
        is_layout(Some(header), at),
        1 <= i < 7,
        !has_name(header, column_name(i)),
    ensures
        row_texts(table_width(Some(header)), at, fields)[i - 1] == Seq::<u8>::empty(),
{
    if at[i] < header.len() {
        assert(header[at[i] as int] == column_name(i));
    }
    let text = text_at(table_width(Some(header)), fields, at[i - 1 + 1] as int);
    assert(text =~= Seq::<char>::empty());
    law_cut(text, MAX_FIELD_LEN as int);
    assert(encode_utf8(text) =~= Seq::<u8>::empty());
    assert(cut(text, MAX_FIELD_LEN as int) =~= Seq::<u8>::empty());
}

/// Law: the last row that is used for an ID is the one that is found.
pub proof fn law_last_row_wins(
    header: Option<Seq<Seq<char>>>,
    rows: Seq<Option<Seq<Seq<char>>>>,
    at: Seq<usize>,
    k: int,
)
    requires
        is_layout(header, at),
        0 <= k < rows.len(),
        row_used(header, at, rows[k]),
        forall|j: int|
            k < j < rows.len() && row_used(header, at, #[trigger] rows[j]) ==> csv_number(
                rows[j]->0[at[0] as int],
            ) != csv_number(rows[k]->0[at[0] as int]),
    ensures
        ({
            let id = csv_number(rows[k]->0[at[0] as int])->0;
            let entries = table_entries(header, at, rows, rows.len() as int);
            entries.contains_key(id) && entries[id] == row_texts(
                table_width(header),
                at,
                rows[k]->0,
            )
        }),
{
    lemma_row_stays(header, rows, at, k, rows.len() as int);
}

proof fn lemma_row_stays(
    header: Option<Seq<Seq<char>>>,
    rows: Seq<Option<Seq<Seq<char>>>>,
    at: Seq<usize>,
    k: int,
    n: int,
)
    requires
        0 <= k < n <= rows.len(),
        row_used(header, at, rows[k]),
        forall|j: int|
            k < j < n && row_used(header, at, #[trigger] rows[j]) ==> csv_number(
                rows[j]->0[at[0] as int],
            ) != csv_number(rows[k]->0[at[0] as int]),
    ensures
        ({
            let id = csv_number(rows[k]->0[at[0] as int])->0;
            let entries = table_entries(header, at, rows, n);
            entries.contains_key(id) && entries[id] == row_texts(
                table_width(header),
                at,
                rows[k]->0,
            )
        }),
    decreases n,
{
    if n - 1 > k {
        lemma_row_stays(header, rows, at, k, n - 1);
    }
}

/// Whether a table of the given age, in seconds, is stale.
pub fn is_stale(age_secs: u64) -> (r: bool)
    ensures
        r == (age_secs > STALE_AGE_SECS),
{
    age_secs > STALE_AGE_SECS
}

proof fn lemma_column(header: Seq<Seq<char>>, at: Seq<usize>, i: int, name: Seq<char>)
    requires
        is_layout(Some(header), at),
        0 <= i < 7,
        name == column_name(i),
    ensures
        at[i] < header.len() ==> header[at[i] as int] == name,
        at[i] >= header.len() ==> forall|j: int|
            0 <= j < header.len() ==> #[trigger] header[j] != name,
{
    if at[i] >= header.len() {
        assert(!has_name(header, name));
    }
}

/// Law: the columns are found by their names; one that is not there has a place
/// beyond the header.
pub proof fn law_columns(header: Seq<Seq<char>>, at: Seq<usize>)
    requires
        is_layout(Some(header), at),
    ensures
        at.len() == 7,
        at[0] < header.len() ==> header[at[0] as int] == "RADIO_ID"@,
        at[0] >= header.len() ==> forall|j: int|
            0 <= j < header.len() ==> #[trigger] header[j] != "RADIO_ID"@,
        at[1] < header.len() ==> header[at[1] as int] == "CALLSIGN"@,
        at[1] >= header.len() ==> forall|j: int|
            0 <= j < header.len() ==> #[trigger] header[j] != "CALLSIGN"@,
        at[2] < header.len() ==> header[at[2] as int] == "FIRST_NAME"@,
        at[2] >= header.len() ==> forall|j: int|
            0 <= j < header.len() ==> #[trigger] header[j] != "FIRST_NAME"@,
        at[3] < header.len() ==> header[at[3] as int] == "LAST_NAME"@,
        at[3] >= header.len() ==> forall|j: int|
            0 <= j < header.len() ==> #[trigger] header[j] != "LAST_NAME"@,
        at[4] < header.len() ==> header[at[4] as int] == "CITY"@,
        at[4] >= header.len() ==> forall|j: int|
            0 <= j < header.len() ==> #[trigger] header[j] != "CITY"@,
        at[5] < header.len() ==> header[at[5] as int] == "STATE"@,
        at[5] >= header.len() ==> forall|j: int|
            0 <= j < header.len() ==> #[trigger] header[j] != "STATE"@,
        at[6] < header.len() ==> header[at[6] as int] == "COUNTRY"@,
        at[6] >= header.len() ==> forall|j: int|
            0 <= j < header.len() ==> #[trigger] header[j] != "COUNTRY"@,
{
    lemma_column(header, at, 0, "RADIO_ID"@);
    lemma_column(header, at, 1, "CALLSIGN"@);
    lemma_column(header, at, 2, "FIRST_NAME"@);
    lemma_column(header, at, 3, "LAST_NAME"@);
    lemma_column(header, at, 4, "CITY"@);
    lemma_column(header, at, 5, "STATE"@);
    lemma_column(header, at, 6, "COUNTRY"@);
}

/// Law: a table without a header has the columns in order, and its rows at
/// least two fields; the rows of any other have a field for each of its columns.
pub proof fn law_no_header(header: Seq<Seq<char>>, at: Seq<usize>, i: int)
    requires
        is_layout(None, at),
        0 <= i < 7,
    ensures
        at.len() == 7,
        at[i] == i,
        is_usable(None),
        least_fields(None) == 2,
        table_width(None) == 7,
        least_fields(Some(header)) == header.len(),
        table_width(Some(header)) == header.len(),
{
}

proof fn lemma_once(header: Seq<Seq<char>>, name: Seq<char>)
    ensures
        !has_twice(header, name) <==> forall|i: int, j: int|
            0 <= i < j < header.len() && #[trigger] header[i] == name ==> #[trigger] header[j] != name,
{
}

/// Law: a table is used if its header names the ID and the callsign, and names
/// no column twice.
pub proof fn law_usable(header: Seq<Seq<char>>)
    ensures
        is_usable(Some(header)) <==> {
            &&& exists|i: int| 0 <= i < header.len() && #[trigger] header[i] == "RADIO_ID"@
            &&& exists|i: int| 0 <= i < header.len() && #[trigger] header[i] == "CALLSIGN"@
            &&& forall|i: int, j: int|
                0 <= i < j < header.len() && #[trigger] header[i] == "RADIO_ID"@ ==> #[trigger] header[j]
                    != "RADIO_ID"@
            &&& forall|i: int, j: int|
                0 <= i < j < header.len() && #[trigger] header[i] == "CALLSIGN"@ ==> #[trigger] header[j]
                    != "CALLSIGN"@
            &&& forall|i: int, j: int|
                0 <= i < j < header.len() && #[trigger] header[i] == "FIRST_NAME"@ ==> #[trigger] header[j]
                    != "FIRST_NAME"@
            &&& forall|i: int, j: int|
                0 <= i < j < header.len() && #[trigger] header[i] == "LAST_NAME"@ ==> #[trigger] header[j]
                    != "LAST_NAME"@
            &&& forall|i: int, j: int|
                0 <= i < j < header.len() && #[trigger] header[i] == "CITY"@ ==> #[trigger] header[j]
                    != "CITY"@
            &&& forall|i: int, j: int|
                0 <= i < j < header.len() && #[trigger] header[i] == "STATE"@ ==> #[trigger] header[j]
                    != "STATE"@
            &&& forall|i: int, j: int|
                0 <= i < j < header.len() && #[trigger] header[i] == "COUNTRY"@ ==> #[trigger] header[j]
                    != "COUNTRY"@
        },
{
    lemma_once(header, "RADIO_ID"@);
    lemma_once(header, "CALLSIGN"@);
    lemma_once(header, "FIRST_NAME"@);
    lemma_once(header, "LAST_NAME"@);
    lemma_once(header, "CITY"@);
    lemma_once(header, "STATE"@);
    lemma_once(header, "COUNTRY"@);
    assert(column_name(0) == "RADIO_ID"@);
    assert(column_name(1) == "CALLSIGN"@);
    assert(column_name(2) == "FIRST_NAME"@);
    assert(column_name(3) == "LAST_NAME"@);
    assert(column_name(4) == "CITY"@);
    assert(column_name(5) == "STATE"@);
    assert(column_name(6) == "COUNTRY"@);
    if !has_twice(header, "RADIO_ID"@) && !has_twice(header, "CALLSIGN"@) && !has_twice(header, "FIRST_NAME"@) && !has_twice(header, "LAST_NAME"@) && !has_twice(header, "CITY"@) && !has_twice(header, "STATE"@) && !has_twice(header, "COUNTRY"@) {
        assert forall|i: int| 0 <= i < 7 implies !has_twice(header, #[trigger] column_name(i)) by {
            assert(i == 0 || i == 1 || i == 2 || i == 3 || i == 4 || i == 5 || i == 6);
        }
    }
}

/// Law: a row is used if the table is, the row has all its fields, and its ID is
/// a number from one to 16777215.
pub proof fn law_row_used(header: Option<Seq<Seq<char>>>, at: Seq<usize>, fields: Seq<Seq<char>>)
    ensures
        !row_used(header, at, None),
        row_used(header, at, Some(fields)) <==> {
            let id = csv_number(fields[at[0] as int]);
            &&& is_usable(header)
            &&& fields.len() >= (if header is Some {
                header->0.len()
            } else {
                2
            })
            &&& id is Some
            &&& 1 <= id->0 <= 16777215
        },
{
}

/// Law: each text of a subscriber comes from its own column, cut to 64 bytes; it
/// is empty where the table or the row has no such column.
pub proof fn law_subscriber_texts(
    width: int,
    at: Seq<usize>,
    fields: Seq<Seq<char>>,
    s: Subscriber,
)
    requires
        texts_of(s) == row_texts(width, at, fields),
    ensures
        encode_utf8(s.callsign@) == cut(
            if at[1] < width && at[1] < fields.len() {
                fields[at[1] as int]
            } else {
                Seq::<char>::empty()
            },
            64,
        ),
        encode_utf8(s.first_name@) == cut(
            if at[2] < width && at[2] < fields.len() {
                fields[at[2] as int]
            } else {
                Seq::<char>::empty()
            },
            64,
        ),
        encode_utf8(s.last_name@) == cut(
            if at[3] < width && at[3] < fields.len() {
                fields[at[3] as int]
            } else {
                Seq::<char>::empty()
            },
            64,
        ),
        encode_utf8(s.city@) == cut(
            if at[4] < width && at[4] < fields.len() {
                fields[at[4] as int]
            } else {
                Seq::<char>::empty()
            },
            64,
        ),
        encode_utf8(s.state@) == cut(
            if at[5] < width && at[5] < fields.len() {
                fields[at[5] as int]
            } else {
                Seq::<char>::empty()
            },
            64,
        ),
        encode_utf8(s.country@) == cut(
            if at[6] < width && at[6] < fields.len() {
                fields[at[6] as int]
            } else {
                Seq::<char>::empty()
            },
            64,
        ),
{
    let a = texts_of(s);
    let b = row_texts(width, at, fields);
    assert(a[0] == b[0]);
    assert(a[1] == b[1]);
    assert(a[2] == b[2]);
    assert(a[3] == b[3]);
    assert(a[4] == b[4]);
    assert(a[5] == b[5]);
}

/// Law: a row counts as cut if one of its six texts has more than 64 bytes.
pub proof fn law_row_capped(width: int, at: Seq<usize>, fields: Seq<Seq<char>>, i: int)
    requires
        1 <= i < 7,
        at.len() == 7,
    ensures
        at[i] < width && at[i] < fields.len() && encode_utf8(fields[at[i] as int]).len() > 64
            ==> row_capped(width, at, fields),
        row_capped(width, at, fields) ==> exists|k: int|
            1 <= k < 7 && #[trigger] at[k] < width && at[k] < fields.len() && encode_utf8(
                fields[at[k] as int],
            ).len() > 64,
{
    assert(encode_utf8(Seq::<char>::empty()) =~= Seq::<u8>::empty());
    if row_capped(width, at, fields) {
        let k = choose|k: int|
            1 <= k < 7 && encode_utf8(text_at(width, fields, #[trigger] at[k] as int)).len()
                > MAX_FIELD_LEN;
        assert(at[k] < width && at[k] < fields.len());
    }
}

/// Law: rows are taken one after the other.  One that is used stores its texts
/// under its ID, in place of what was there, and counts if a text of it was cut;
/// one that is not used changes nothing and counts as bad.
pub proof fn law_rows_taken(
    header: Option<Seq<Seq<char>>>,
    at: Seq<usize>,
    rows: Seq<Option<Seq<Seq<char>>>>,
    n: int,
    id: u32,
)
    requires
        0 <= n < rows.len(),
    ensures
        table_entries(header, at, rows, 0).dom().is_empty(),
        unused_rows(header, at, rows, 0) == 0,
        capped_rows(header, at, rows, 0) == 0,
        !row_used(header, at, rows[n]) ==> {
            &&& table_entries(header, at, rows, n + 1) == table_entries(header, at, rows, n)
            &&& unused_rows(header, at, rows, n + 1) == unused_rows(header, at, rows, n) + 1
            &&& capped_rows(header, at, rows, n + 1) == capped_rows(header, at, rows, n)
        },
        row_used(header, at, rows[n]) ==> {
            let before = table_entries(header, at, rows, n);
            let after = table_entries(header, at, rows, n + 1);
            let fields = rows[n]->0;
            let width = if header is Some {
                header->0.len() as int
            } else {
                7
            };
            &&& if csv_number(fields[at[0] as int]) == Some(id) {
                after.contains_key(id) && after[id] == row_texts(width, at, fields)
            } else {
                after.contains_key(id) == before.contains_key(id) && (before.contains_key(id)
                    ==> after[id] == before[id])
            }
            &&& unused_rows(header, at, rows, n + 1) == unused_rows(header, at, rows, n)
            &&& capped_rows(header, at, rows, n + 1) == capped_rows(header, at, rows, n) + if row_capped(
                width,
                at,
                fields,
            ) {
                1int
            } else {
                0
            }
        },
{
    assert(table_entries(header, at, rows, 0).dom() =~= Set::empty());
}

proof fn lemma_value(s: Seq<char>, radix: int)
    requires
        radix > 0,
    ensures
        digits_value(s, radix) >= 0,
    decreases s.len(),
{
    if s.len() > 0 {
        lemma_value(s.drop_last(), radix);
        let v = digits_value(s.drop_last(), radix);
        assert(radix * v >= 0) by (nonlinear_arith)
            requires
                radix > 0,
                v >= 0,
        ;
    }
}

/// Law: a number is read digit by digit, in decimal, or in hexadecimal behind
/// `0x`; a plus sign before it does not count.
pub proof fn law_number_read(s: Seq<char>, c: char, radix: int)
    requires
        radix > 0,
    ensures
        0x30 <= c as int <= 0x39 ==> digit_value(c) == c as int - 0x30,
        0x41 <= c as int <= 0x46 ==> digit_value(c) == c as int - 0x41 + 10,
        0x61 <= c as int <= 0x66 ==> digit_value(c) == c as int - 0x61 + 10,
        digits_value(Seq::empty(), radix) == 0,
        digits_value(s.push(c), radix) == digits_value(s, radix) * radix + digit_value(c),
        s.len() == 0 || s[0] != '+' ==> unsigned(seq!['+'] + s, radix) == unsigned(s, radix),
        csv_number(seq!['0', 'x'] + s) == unsigned(s, 16),
        s.len() < 2 || s[0] != '0' || s[1] != 'x' ==> csv_number(s) == unsigned(s, 10),
        unsigned(Seq::empty(), radix) is None,
        s.len() > 0 && s[0] != '+' ==> (unsigned(s, radix) is Some <==> digits_value(s, radix)
            < 0x1_0000_0000 && forall|i: int|
            0 <= i < s.len() ==> digit_value(#[trigger] s[i]) < radix),
        unsigned(s, radix) is Some && s[0] != '+' ==> unsigned(s, radix)->0 == digits_value(s, radix),
{
    assert(s.push(c).drop_last() =~= s);
    assert((seq!['+'] + s).skip(1) =~= s);
    lemma_value(s, radix);
    assert((seq!['0', 'x'] + s).skip(2) =~= s);
    assert(radix * digits_value(s, radix) == digits_value(s, radix) * radix) by (nonlinear_arith);
}

/// Law: a table is stale after 30 days, and a text has at most 64 bytes.
pub proof fn law_table_limits()
    ensures
        STALE_AGE_SECS == 30 * 24 * 60 * 60,
        MAX_FIELD_LEN == 64,
        COLUMNS == 7,
{
}

} // verus!
