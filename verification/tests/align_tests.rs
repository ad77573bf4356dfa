use std::collections::HashSet;
use wikidump::align::{
    next_line, next_update, read_file, read_revisions, update_entry, AlignError, Aligner,
    UpdateError,
};
use wikidump::date_index::DateRevisions;
use wikidump::json::{read_update_fields, UpdateFields};
use wikidump::text::{LineError, ReadError};

fn lines(v: &[&str]) -> Vec<String> {
    v.iter().map(|s| s.to_string()).collect()
}

fn pair(a: &str, b: &str) -> (String, String) {
    (a.to_string(), b.to_string())
}

#[test]
fn read_file_collects_entity_ids() {
    let mut ids = HashSet::new();
    assert_eq!(read_file(&mut ids, &lines(&["Q1,5", "P2,x", "L3,", "Q1,9"])), Ok(()));
    let expected: HashSet<u64> = [4, 9, 14].into_iter().collect();
    assert_eq!(ids, expected);
}

#[test]
fn read_file_reports_the_first_bad_line() {
    let mut ids = HashSet::new();
    let r = read_file(&mut ids, &lines(&["Q1,5", "Q2", "X,1"]));
    assert_eq!(r, Err(ReadError { line: 1, kind: LineError::MissingField }));
    assert_eq!(ids, [4].into_iter().collect());
    let mut ids = HashSet::new();
    let r = read_file(&mut ids, &lines(&["Q1,5", "X3,1"]));
    assert_eq!(r, Err(ReadError { line: 1, kind: LineError::InvalidEntity }));
}

#[test]
fn law_read_file_in_chunks_on_example() {
    let all = lines(&["Q1,a", "P5,b", "L9,c", "Q1,d", "Q77,e"]);
    let mut whole = HashSet::new();
    read_file(&mut whole, &all).unwrap();
    let mut chunked = HashSet::new();
    read_file(&mut chunked, &all[..2].to_vec()).unwrap();
    read_file(&mut chunked, &all[2..].to_vec()).unwrap();
    assert_eq!(whole, chunked);
}

#[test]
fn read_revisions_and_lookup() {
    let mut revs = DateRevisions::new();
    let r = read_revisions(&mut revs, &lines(&["10,2020-01-01", "11,2020-01-01", "12,2020-02-01"]));
    assert_eq!(r, Ok(()));
    assert_eq!(revs.lookup("2020-01-01", 10), Some(true));
    assert_eq!(revs.lookup("2020-01-01", 11), Some(true));
    assert_eq!(revs.lookup("2020-01-01", 12), Some(false));
    assert_eq!(revs.lookup("2020-02-01", 12), Some(true));
    assert_eq!(revs.lookup("2020-03-01", 12), None);
    assert!(revs.has_date("2020-02-01"));
    assert!(!revs.has_date("2020-02-0"));
}

#[test]
fn read_revisions_errors() {
    let mut revs = DateRevisions::new();
    let r = read_revisions(&mut revs, &lines(&["10,d", "x,d"]));
    assert_eq!(r, Err(ReadError { line: 1, kind: LineError::InvalidNumber }));
    assert_eq!(revs.lookup("d", 10), Some(true));
    let r = read_revisions(&mut revs, &lines(&["10"]));
    assert_eq!(r, Err(ReadError { line: 0, kind: LineError::MissingField }));
}

#[test]
fn law_added_revision_is_known_on_example() {
    let mut revs = DateRevisions::new();
    revs.add("a", 1);
    revs.add("b", 2);
    revs.add("a", 3);
    assert_eq!(revs.lookup("a", 1), Some(true));
    assert_eq!(revs.lookup("a", 3), Some(true));
    assert_eq!(revs.lookup("b", 3), Some(false));
    assert_eq!(revs.lookup("b", 2), Some(true));
}

#[test]
fn next_line_splits_and_ends() {
    assert_eq!(next_line(None), Ok(None));
    assert_eq!(next_line(Some("Q1,2,3".to_string())), Ok(Some(pair("Q1", "2"))));
    assert_eq!(next_line(Some("Q1".to_string())), Err(LineError::MissingField));
}

#[test]
fn next_update_keeps_lines_under_their_id() {
    let line = r#"{"id":"Q42","claims":{}}"#;
    assert_eq!(next_update(Some(line.to_string())), Ok(Some(pair("Q42", line))));
    assert_eq!(next_update(None), Ok(None));
}

#[test]
fn next_update_turns_redirects_into_skips() {
    let line = r#"{"redirect":null,"entity":"Q7","id":"Q8"}"#;
    assert_eq!(
        next_update(Some(line.to_string())),
        Ok(Some(pair("Q7", r#"{"type":"skip_json","id":"Q7"}"#)))
    );
}

#[test]
fn next_update_errors() {
    assert_eq!(next_update(Some("not json".to_string())), Err(UpdateError::InvalidJson));
    assert_eq!(next_update(Some(r#"{"redirect":1,"id":"Q1"}"#.to_string())), Err(UpdateError::MissingEntity));
    assert_eq!(next_update(Some(r#"{"id":5}"#.to_string())), Err(UpdateError::MissingId));
    assert_eq!(next_update(Some("[1,2]".to_string())), Err(UpdateError::MissingId));
}

#[test]
fn update_entry_on_given_fields() {
    let f = UpdateFields { redirect: false, entity: None, id: Some("Q3".to_string()) };
    assert_eq!(update_entry("line".to_string(), f), Ok(pair("Q3", "line")));
    let f = UpdateFields { redirect: true, entity: Some("Q4".to_string()), id: None };
    assert_eq!(update_entry("line".to_string(), f), Ok(pair("Q4", r#"{"type":"skip_json","id":"Q4"}"#)));
    let f = UpdateFields { redirect: true, entity: None, id: Some("Q4".to_string()) };
    assert_eq!(update_entry("line".to_string(), f), Err(UpdateError::MissingEntity));
}

fn aligner() -> Aligner {
    let mut json_ids = HashSet::new();
    read_file(&mut json_ids, &lines(&["Q1,1", "Q2,1", "Q3,1"])).unwrap();
    let mut nt_ids = HashSet::new();
    read_file(&mut nt_ids, &lines(&["Q1,d", "Q3,d", "Q4,d"])).unwrap();
    let mut date_revs = DateRevisions::new();
    read_revisions(&mut date_revs, &lines(&["100,d1", "101,d2"])).unwrap();
    Aligner { json_ids, nt_ids, date_revs }
}

#[test]
fn step_with_matching_ids_and_current_revision() {
    let a = aligner();
    let s = a.step(&pair("Q1", "100"), &pair("Q1", "d1"), &None).unwrap();
    assert!(s.records.is_empty());
    assert!(s.advance_json && s.advance_nt && !s.advance_update);
}

#[test]
fn step_needs_update() {
    let a = aligner();
    let s = a.step(&pair("Q1", "99"), &pair("Q1", "d1"), &None).unwrap();
    assert_eq!(s.records, vec![r#"{"type":"need_update","id":"Q1","date":"d1"}"#.to_string()]);
    let upd = Some(pair("Q1", "UPDATE"));
    let s = a.step(&pair("Q1", "99"), &pair("Q1", "d1"), &upd).unwrap();
    assert_eq!(s.records, vec!["UPDATE".to_string()]);
    assert!(s.advance_update);
    // The update stream moves on at this entity even when no update is needed.
    let s = a.step(&pair("Q1", "100"), &pair("Q1", "d1"), &upd).unwrap();
    assert!(s.records.is_empty());
    assert!(s.advance_update);
    let other = Some(pair("Q2", "UPDATE"));
    let s = a.step(&pair("Q1", "99"), &pair("Q1", "d1"), &other).unwrap();
    assert!(!s.advance_update);
}

#[test]
fn step_with_unknown_date_moves_on_silently() {
    let a = aligner();
    let s = a.step(&pair("Q1", "not a number"), &pair("Q1", "d9"), &None).unwrap();
    assert!(s.records.is_empty());
    assert!(s.advance_json && s.advance_nt);
}

#[test]
fn step_skips_nt_entity_and_reports_misorder() {
    let a = aligner();
    // JSON at Q3 (which the NT dump holds), NT at Q1 (which the JSON dump holds).
    let s = a.step(&pair("Q3", "1"), &pair("Q1", "d1"), &None).unwrap();
    assert_eq!(
        s.records,
        vec![
            r#"{"type":"misorder","nt":"Q1", "json":"Q3"}"#.to_string(),
            r#"{"type":"skip_nt","id":"Q1"}"#.to_string(),
        ]
    );
    assert!(!s.advance_json && s.advance_nt);
    // NT at Q4, which the JSON dump lacks: no misorder.
    let s = a.step(&pair("Q3", "1"), &pair("Q4", "d1"), &None).unwrap();
    assert_eq!(s.records, vec![r#"{"type":"skip_nt","id":"Q4"}"#.to_string()]);
}

#[test]
fn step_skips_json_entity() {
    let a = aligner();
    let s = a.step(&pair("Q2", "1"), &pair("Q3", "d1"), &None).unwrap();
    assert_eq!(s.records, vec![r#"{"type":"skip_json","id":"Q2"}"#.to_string()]);
    assert!(s.advance_json && !s.advance_nt);
}

#[test]
fn step_errors() {
    let a = aligner();
    assert_eq!(a.step(&pair("X", "1"), &pair("Q1", "d1"), &None).err(), Some(AlignError::InvalidJsonId));
    assert_eq!(a.step(&pair("Q1", "1"), &pair("X", "d1"), &None).err(), Some(AlignError::InvalidNtId));
    assert_eq!(a.step(&pair("Q1", "x"), &pair("Q1", "d1"), &None).err(), Some(AlignError::InvalidRevision));
}

#[test]
fn law_step_moves_on_on_examples() {
    let a = aligner();
    let heads = [pair("Q1", "100"), pair("Q2", "7"), pair("Q3", "101"), pair("Q4", "100")];
    let dates = [pair("Q1", "d1"), pair("Q3", "d2"), pair("Q4", "d3"), pair("Q2", "d1")];
    for j in &heads {
        for n in &dates {
            let s = a.step(j, n, &Some(pair("Q3", "U"))).unwrap();
            assert!(s.advance_json || s.advance_nt);
            assert!(s.records.len() <= 2);
            if j.0 == n.0 {
                assert!(s.advance_json && s.advance_nt);
            } else {
                assert!(s.advance_json != s.advance_nt);
            }
            if s.advance_update {
                assert_eq!(n.0, "Q3");
            }
        }
    }
}

#[test]
fn read_update_fields_takes_the_members_it_needs() {
    let f = read_update_fields(r#"{"redirect":null,"entity":"Q7","id":"Q8"}"#).unwrap();
    assert!(f.redirect);
    assert_eq!(f.entity, Some("Q7".to_string()));
    assert_eq!(f.id, None);
    let f = read_update_fields(r#"{"id":"Q8","entity":"Q7"}"#).unwrap();
    assert!(!f.redirect);
    assert_eq!(f.entity, None);
    assert_eq!(f.id, Some("Q8".to_string()));
    let f = read_update_fields(r#"{"id":8}"#).unwrap();
    assert_eq!(f.id, None);
    assert!(read_update_fields("{").is_none());
}

#[test]
fn law_mapper_last_call_wins_on_example() {
    // The id reader keeps each key once, whatever line gave it last.
    let mut ids = HashSet::new();
    read_file(&mut ids, &lines(&["Q1,a", "Q1,b", "P1,c"])).unwrap();
    assert_eq!(ids, [4, 5].into_iter().collect());
}
