use frame_export::csv::csv_bytes;
use frame_export::error::{delivery_outcome, encode_outcome, file_outcome, ExportError};
use frame_export::frame::{Frame, Record};

fn record(m0: &str, m1: &str, fa: &str, cl: u64) -> Record {
    Record {
        mode_first: Some(m0.to_string()),
        mode_second: Some(m1.to_string()),
        fatty_acid: Some(fa.to_string()),
        chain_length: Some(cl),
    }
}

fn frame(records: Vec<Record>) -> Frame {
    Frame::new("Tag".to_string(), "Index".to_string(), "Length".to_string(), records)
}

fn text(f: &Frame) -> String {
    String::from_utf8(csv_bytes(f)).unwrap()
}

#[test]
fn one_row_example() {
    let f = frame(vec![record("A", "1", "Omega3", 18)]);
    assert_eq!(text(&f), "Tag,Index,FattyAcid,Length\nA,1,Omega3,18\n");
}

#[test]
fn empty_frame_is_header_only() {
    let f = frame(Vec::new());
    let t = text(&f);
    assert_eq!(t, "Tag,Index,FattyAcid,Length\n");
    assert_eq!(t.lines().count(), 1);
}

#[test]
fn line_and_field_counts() {
    let f = frame(vec![
        record("A", "1", "Omega3", 18),
        record("B", "2", "Omega6", 20),
        record("C", "3", "Saturated", 7),
    ]);
    let t = text(&f);
    assert_eq!(t.lines().count(), 4);
    for l in t.lines() {
        assert_eq!(l.split(',').count(), 4);
    }
}

#[test]
fn rows_keep_their_order() {
    let f = frame(vec![record("B", "2", "x", 1), record("A", "1", "y", 2)]);
    assert_eq!(text(&f), "Tag,Index,FattyAcid,Length\nB,2,x,1\nA,1,y,2\n");
}

#[test]
fn null_cells_are_empty_fields() {
    let f = frame(vec![Record { mode_first: None, mode_second: Some("1".to_string()), fatty_acid: None, chain_length: None }]);
    assert_eq!(text(&f), "Tag,Index,FattyAcid,Length\n,1,,\n");
}

#[test]
fn special_characters_are_quoted() {
    let f = frame(vec![record("a,b", "say \"hi\"", "two\nlines", 0)]);
    assert_eq!(
        text(&f),
        "Tag,Index,FattyAcid,Length\n\"a,b\",\"say \"\"hi\"\"\",\"two\nlines\",0\n"
    );
}

#[test]
fn chain_length_in_decimal() {
    let f = frame(vec![record("A", "1", "x", 1234567890), record("A", "1", "x", u64::MAX)]);
    assert_eq!(
        text(&f),
        "Tag,Index,FattyAcid,Length\nA,1,x,1234567890\nA,1,x,18446744073709551615\n"
    );
}

#[test]
fn non_ascii_text_is_utf8() {
    let f = frame(vec![record("α", "β", "ω-3", 22)]);
    assert_eq!(text(&f), "Tag,Index,FattyAcid,Length\nα,β,ω-3,22\n");
}

#[test]
fn unwritable_path_gives_io_error() {
    let r = file_outcome(Err("No such file or directory".to_string()));
    match r {
        Err(ExportError::Io(m)) => assert_eq!(m, "No such file or directory"),
        other => panic!("unexpected {:?}", other),
    }
    assert!(file_outcome(Ok(())).is_ok());
}

#[test]
fn delivery_failure_keeps_message() {
    let r = delivery_outcome(Err("download blocked".to_string()));
    match &r {
        Err(e @ ExportError::Delivery(_)) => assert_eq!(e.message(), "download blocked"),
        other => panic!("unexpected {:?}", other),
    }
    assert!(delivery_outcome(Ok(())).is_ok());
}

#[test]
fn encode_failure_and_success() {
    match encode_outcome(Err("bad column".to_string())) {
        Err(ExportError::Encode(m)) => assert_eq!(m, "bad column"),
        other => panic!("unexpected {:?}", other),
    }
    assert_eq!(encode_outcome(Ok(vec![1, 2, 3])).unwrap(), vec![1, 2, 3]);
}
