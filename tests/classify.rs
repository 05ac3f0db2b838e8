use mail_archiver::archive::{archive_request, batch_plan, BatchOp};
use mail_archiver::classify::{
    check_record, classify, classify_now, ClassifyError, FetchedRecord, YearGroup,
};
use mail_archiver::text::create_uidset;

fn rec(uid: u32, year: &str) -> FetchedRecord {
    FetchedRecord { uid: Some(uid), year_text: Some(year.to_string()) }
}

fn group(year: u32, uids: &[u32]) -> YearGroup {
    YearGroup { year, uids: uids.to_vec() }
}

fn sorted(mut g: Vec<YearGroup>) -> Vec<YearGroup> {
    g.sort_by_key(|x| x.year);
    g
}

#[test]
fn three_messages_in_two_years() {
    let recs = vec![rec(11, "2019"), rec(12, "2019"), rec(13, "2021")];
    let groups = classify(&recs, 2024).unwrap();
    assert_eq!(sorted(groups.clone()), vec![group(2019, &[11, 12]), group(2021, &[13])]);
    let plan = batch_plan(&groups);
    assert_eq!(plan.len(), 4);
    for pair in plan.chunks(2) {
        match (&pair[0], &pair[1]) {
            (BatchOp::EnsureFolder(y), BatchOp::Archive(m)) => {
                let expected = if *y == 2019 { "11,12" } else { "13" };
                assert_eq!(m.uid_set, expected);
                assert_eq!(m.folder, format!("Archives/{}", y));
            }
            _ => panic!("each year's folder is made sure of before its move"),
        }
    }
}

#[test]
fn current_year_message_is_never_moved() {
    let recs = vec![rec(1, "2020"), rec(2, "2024"), rec(3, "2022")];
    let groups = classify(&recs, 2024).unwrap();
    assert_eq!(sorted(groups.clone()), vec![group(2020, &[1]), group(2022, &[3])]);
    for op in batch_plan(&groups) {
        if let BatchOp::Archive(m) = op {
            assert!(m.uid_set.split(',').all(|u| u != "2"));
        }
    }
}

#[test]
fn all_current_year_gives_no_groups() {
    let recs = vec![rec(1, "2024"), rec(2, "2024")];
    assert_eq!(classify(&recs, 2024), Ok(vec![]));
    assert_eq!(classify(&[], 2024), Ok(vec![]));
}

#[test]
fn groups_keep_first_seen_order_and_drop_repeats() {
    let recs = vec![rec(5, "2018"), rec(3, "2017"), rec(5, "2018"), rec(4, "2018")];
    assert_eq!(classify(&recs, 2024), Ok(vec![group(2018, &[5, 4]), group(2017, &[3])]));
}

#[test]
fn missing_date_fails() {
    let recs = vec![rec(1, "2019"), FetchedRecord { uid: Some(2), year_text: None }];
    assert_eq!(classify(&recs, 2024), Err(ClassifyError::MissingDate));
}

#[test]
fn missing_identifier_fails() {
    let recs = vec![rec(1, "2019"), FetchedRecord { uid: None, year_text: Some("2019".to_string()) }];
    assert_eq!(classify(&recs, 2024), Err(ClassifyError::MissingIdentifier));
}

#[test]
fn missing_identifier_fails_in_current_year_too() {
    let recs = vec![FetchedRecord { uid: None, year_text: Some("2024".to_string()) }];
    assert_eq!(classify(&recs, 2024), Err(ClassifyError::MissingIdentifier));
}

#[test]
fn unreadable_year_fails() {
    let recs = vec![rec(1, "20a9")];
    assert_eq!(classify(&recs, 2024), Err(ClassifyError::DateParseError));
    assert_eq!(classify(&[rec(1, "-0001")], 2024), Err(ClassifyError::DateParseError));
}

#[test]
fn first_bad_record_decides_the_error() {
    let recs = vec![
        rec(1, "2019"),
        FetchedRecord { uid: None, year_text: Some("2019".to_string()) },
        FetchedRecord { uid: Some(3), year_text: None },
    ];
    assert_eq!(classify(&recs, 2024), Err(ClassifyError::MissingIdentifier));
    let neither = FetchedRecord { uid: None, year_text: None };
    assert_eq!(check_record(&neither), Err(ClassifyError::MissingDate));
}

#[test]
fn record_entries() {
    assert_eq!(check_record(&rec(9, "+2019")), Ok((2019, 9)));
    let bad = FetchedRecord { uid: None, year_text: Some("x".to_string()) };
    assert_eq!(check_record(&bad), Err(ClassifyError::DateParseError));
}

#[test]
fn clock_year_is_left_alone() {
    let recs = vec![rec(1, "1999"), rec(2, "1999")];
    assert_eq!(classify_now(&recs), Ok(vec![group(1999, &[1, 2])]));
    assert_eq!(classify_now(&[rec(1, "x")]), Err(ClassifyError::DateParseError));
}

#[test]
fn move_request_for_a_year() {
    let m = archive_request(2019, &[101, 102, 205]);
    assert_eq!(m.uid_set, "101,102,205");
    assert_eq!(m.folder, "Archives/2019");
    assert_eq!(create_uidset(&[101, 102, 205]), m.uid_set);
}
