//! Subscriber tables.

use asl_dmr_bridge::subscriber::{
    cap_field, is_stale, LoadCounts, Subscribers, MAX_FIELD_LEN, STALE_AGE_SECS,
};

const SAMPLE: &str = "\
RADIO_ID,CALLSIGN,FIRST_NAME,LAST_NAME,CITY,STATE,COUNTRY
1234567,N0CALL,Test,User,Springfield,Illinois,United States
3151238,W6XYZ,Jane,Doe,,California,United States
5201886,GB7TST,,,Manchester,,United Kingdom
";

#[test]
fn load_parses_radioid_format() {
    let subs = Subscribers::from_reader(SAMPLE.as_bytes()).unwrap();
    assert_eq!(subs.len(), 3);

    let s = subs.get(1234567).expect("N0CALL present");
    assert_eq!(s.callsign, "N0CALL");
    assert_eq!(s.first_name, "Test");
    assert_eq!(s.country, "United States");
}

#[test]
fn load_tolerates_blank_optional_fields() {
    let subs = Subscribers::from_reader(SAMPLE.as_bytes()).unwrap();
    let s = subs.get(5201886).expect("GB7TST present");
    assert_eq!(s.callsign, "GB7TST");
    assert!(s.first_name.is_empty());
    assert!(s.last_name.is_empty());
    assert_eq!(s.country, "United Kingdom");
}

#[test]
fn lookup_miss_returns_none() {
    let subs = Subscribers::from_reader(SAMPLE.as_bytes()).unwrap();
    assert!(subs.get(9999999).is_none());
}

#[test]
fn caps_over_length_fields() {
    let huge = "X".repeat(10_000);
    let csv = format!(
        "RADIO_ID,CALLSIGN,FIRST_NAME,LAST_NAME,CITY,STATE,COUNTRY\n\
         7654321,{huge},Test,User,City,ST,USA\n"
    );
    let subs = Subscribers::from_reader(csv.as_bytes()).unwrap();
    let s = subs.get(7654321).expect("present");
    assert_eq!(s.callsign.len(), MAX_FIELD_LEN);
    assert!(s.callsign.chars().all(|c| c == 'X'));
}

#[test]
fn caps_at_utf8_char_boundary() {
    let big = "é".repeat(40); // 2 bytes each, 80 bytes total > MAX_FIELD_LEN
    let csv = format!(
        "RADIO_ID,CALLSIGN,FIRST_NAME,LAST_NAME,CITY,STATE,COUNTRY\n\
         7654321,N0CALL,{big},User,City,ST,USA\n"
    );
    let subs = Subscribers::from_reader(csv.as_bytes()).unwrap();
    let s = subs.get(7654321).unwrap();
    assert!(s.first_name.len() <= MAX_FIELD_LEN);
    assert!(s.first_name.is_char_boundary(s.first_name.len()));
}

#[test]
fn empty_csv_yields_empty_db() {
    let subs = Subscribers::from_reader("RADIO_ID,CALLSIGN\n".as_bytes()).unwrap();
    assert!(subs.is_empty());
    assert_eq!(subs.len(), 0);
}

#[test]
fn extra_trailing_columns_are_tolerated() {
    let csv = "\
RADIO_ID,CALLSIGN,FIRST_NAME,LAST_NAME,CITY,STATE,COUNTRY,REMARKS,EXTRA
1,N0CALL,Test,User,City,ST,US,note,more
";
    let subs = Subscribers::from_reader(csv.as_bytes()).unwrap();
    assert_eq!(subs.len(), 1);
    assert_eq!(subs.get(1).unwrap().callsign, "N0CALL");
}

fn load(csv: &str) -> (Subscribers, LoadCounts) {
    Subscribers::from_reader_counted(csv.as_bytes())
}

#[test]
fn bad_rows_are_skipped_and_counted() {
    let csv = "RADIO_ID,CALLSIGN,FIRST_NAME\n\
               1,A,x\n\
               none,B,x\n\
               0,C,x\n\
               16777216,D,x\n\
               -5,E,x\n\
               2\n\
               16777215,F,x\n";
    let (subs, counts) = load(csv);
    assert_eq!(counts, LoadCounts { bad_rows: 5, capped_rows: 0 });
    assert_eq!(subs.len(), 2);
    assert_eq!(subs.get(1).unwrap().callsign, "A");
    assert_eq!(subs.get(16777215).unwrap().callsign, "F");
    assert!(subs.get(0).is_none());
    assert!(subs.get(16777216).is_none());
}

#[test]
fn rows_shorter_than_the_header_do_not_deserialize() {
    let header = csv::StringRecord::from(vec!["A", "B", "C"]);
    let row = csv::StringRecord::from(vec!["1", "2"]);
    let map: Result<std::collections::HashMap<String, String>, _> = row.deserialize(Some(&header));
    assert!(map.is_err());
}

#[test]
fn later_rows_replace_earlier_ones() {
    let (subs, counts) = load("RADIO_ID,CALLSIGN\n7,A\n8,B\n7,C\n");
    assert_eq!(counts.bad_rows, 0);
    assert_eq!(subs.len(), 2);
    assert_eq!(subs.get(7).unwrap().callsign, "C");
}

#[test]
fn columns_are_found_by_name() {
    let (subs, _) = load("COUNTRY,X,CALLSIGN,RADIO_ID\nUS,-,N0CALL,42\n");
    let s = subs.get(42).unwrap();
    assert_eq!(s.dmr_id.as_u32(), 42);
    assert_eq!((s.callsign.as_str(), s.country.as_str(), s.city.as_str()), ("N0CALL", "US", ""));
    assert_eq!((s.first_name.as_str(), s.last_name.as_str(), s.state.as_str()), ("", "", ""));
}

#[test]
fn a_table_without_its_columns_gives_nothing() {
    for header in ["radio_id,CALLSIGN", "RADIO_ID,CALL", "RADIO_ID,CALLSIGN,CITY,CITY"] {
        let (subs, counts) = load(&format!("{header}\n1,A,b,c\n2,B,b,c\n"));
        assert!(subs.is_empty(), "{header}");
        assert_eq!(counts.bad_rows, 2);
    }
    // Columns that are not used may come twice.
    let (subs, _) = load("RADIO_ID,CALLSIGN,Z,Z\n1,A,b,c\n");
    assert_eq!(subs.len(), 1);
}

#[test]
fn quoted_fields_and_broken_text() {
    let (subs, _) = load("RADIO_ID,CALLSIGN,CITY\n3,N0CALL,\"A, \"\"B\"\"\"\n");
    assert_eq!(subs.get(3).unwrap().city, "A, \"B\"");
    let mut data = b"RADIO_ID,CALLSIGN\n4,".to_vec();
    data.extend_from_slice(&[0xFF, 0xFE]);
    data.extend_from_slice(b"\n5,OK\n");
    let (subs, counts) = Subscribers::from_reader_counted(&data);
    assert_eq!(counts.bad_rows, 1);
    assert_eq!(subs.get(5).unwrap().callsign, "OK");
}

#[test]
fn long_texts_are_counted() {
    let long = "x".repeat(65);
    let (subs, counts) = load(&format!("RADIO_ID,CALLSIGN,STATE\n1,A,{long}\n2,B,{}\n", &long[1..]));
    assert_eq!(counts.capped_rows, 1);
    assert_eq!(subs.get(1).unwrap().state.len(), MAX_FIELD_LEN);
    assert_eq!(subs.get(2).unwrap().state.len(), MAX_FIELD_LEN);
    assert_eq!(cap_field("ab".to_string()), ("ab".to_string(), false));
}

#[test]
fn tables_get_stale() {
    assert!(!is_stale(STALE_AGE_SECS));
    assert!(is_stale(STALE_AGE_SECS + 1));
    assert_eq!(STALE_AGE_SECS, 30 * 24 * 60 * 60);
}

#[test]
fn tables_in_parts() {
    let header = Some(vec!["CALLSIGN".to_string(), "RADIO_ID".to_string()]);
    let row = |call: &str, id: &str| Some(vec![call.to_string(), id.to_string()]);
    let rows = vec![row("A", "1"), None, row("B", "x"), row("C", "2")];
    let (subs, counts) = Subscribers::from_table(&header, &rows);
    assert_eq!(counts, LoadCounts { bad_rows: 2, capped_rows: 0 });
    assert_eq!(subs.get(2).unwrap().callsign, "C");
    // Without a header the columns are in order.
    let rows = vec![row("9", "N0CALL"), Some(vec!["10".to_string()])];
    let (subs, counts) = Subscribers::from_table(&None, &rows);
    assert_eq!(subs.get(9).unwrap().callsign, "N0CALL");
    assert_eq!(counts.bad_rows, 1);
    assert!(Subscribers::default().is_empty());
}

#[test]
fn columns_beyond_the_header_are_ignored() {
    let (subs, counts) = load("RADIO_ID,CALLSIGN\n1,N0CALL,X,Y,Z,V,W,U\n");
    assert_eq!(counts, LoadCounts { bad_rows: 0, capped_rows: 0 });
    let s = subs.get(1).unwrap();
    assert_eq!(s.callsign, "N0CALL");
    for text in [&s.first_name, &s.last_name, &s.city, &s.state, &s.country] {
        assert!(text.is_empty(), "{text}");
    }
    // A long field that is ignored is not cut either.
    let (_, counts) = load(&format!("RADIO_ID,CALLSIGN\n1,N0CALL,{}\n", "x".repeat(65)));
    assert_eq!(counts.capped_rows, 0);
}

#[test]
fn ids_are_decimal_or_hexadecimal() {
    for (text, id) in [("7", 7), ("+7", 7), ("007", 7), ("0x1F", 31), ("0xff", 255), ("0x+a", 10)] {
        let (subs, _) = load(&format!("RADIO_ID,CALLSIGN\n{text},N0CALL\n"));
        assert_eq!(subs.len(), 1, "{text}");
        assert_eq!(subs.get(id).unwrap().dmr_id.as_u32(), id, "{text}");
    }
    for text in ["", "+", "-7", " 7", "7 ", "1_0", "1f", "0X1F", "0x", "0xg", "4294967297"] {
        let (subs, counts) = load(&format!("RADIO_ID,CALLSIGN\n{text},N0CALL\n"));
        assert!(subs.is_empty(), "{text}");
        assert_eq!(counts.bad_rows, 1, "{text}");
    }
}
