use status_report::date::Date;
use status_report::report::{compile_report, Field, ReportError};

fn day(text: &str) -> Date {
    Date::parse(text).unwrap()
}

#[test]
fn date_parse_gives_year_and_day_number() {
    assert_eq!(day("0001-01-01"), Date { year: 1, day_number: 1 });
    assert_eq!(day("2024-01-01"), Date { year: 2024, day_number: 738886 });
    assert_eq!(Date::parse("2024-02-30"), None);
    assert_eq!(Date::parse("yesterday"), None);
}

#[test]
fn whole_report_text() {
    let doc = r#"{
        "memberDidNotSend": [
            {"fullName": "Asha", "userID": "101", "lastStatusUpdate": "2025-03-05", "admissionYear": "2023"},
            {"fullName": "Ben", "userID": "102", "lastStatusUpdate": "2025-03-14", "admissionYear": "2024"}
        ],
        "memberDidSend": [
            {"fullName": "Cy", "streak": "4"},
            {"fullName": "Di", "streak": "9"}
        ]
    }"#;
    let (report, ids) = compile_report(doc, &day("2025-03-15")).unwrap();
    assert_eq!(
        report,
        "**DAILY REPORT**\n\n**Did Not Send :scream:**\n\n**First Year Batch**\n1. Ben - 1D \n\n**Second Year Batch**\n1. Asha - 1W+ \n\n**Streaks! :fire:**\n1. Di - 9\n2. Cy - 4\n\n**Kicked :x: **\n1. Asha\n"
    );
    assert_eq!(ids, vec![101]);
}

#[test]
fn second_year_member_silent_ten_days() {
    let doc = r#"{"memberDidNotSend": [{"fullName": "Name", "userID": "555", "lastStatusUpdate": "2025-03-05", "admissionYear": "2023"}], "memberDidSend": []}"#;
    let (report, ids) = compile_report(doc, &day("2025-03-15")).unwrap();
    assert!(report.contains("**Second Year Batch**\n1. Name - 1W+"));
    assert_eq!(ids, vec![555]);
}

#[test]
fn board_keeps_five_in_streak_order() {
    let doc = r#"{"memberDidNotSend": [], "memberDidSend": [
        {"fullName": "A", "streak": "10"},
        {"fullName": "B", "streak": "10"},
        {"fullName": "C", "streak": "9"},
        {"fullName": "D", "streak": "8"},
        {"fullName": "E", "streak": "7"},
        {"fullName": "F", "streak": "6"},
        {"fullName": "G", "streak": "5"}
    ]}"#;
    let (report, ids) = compile_report(doc, &day("2025-03-15")).unwrap();
    assert!(report.contains(
        "**Streaks! :fire:**\n1. A - 10\n2. B - 10\n3. C - 9\n4. D - 8\n5. E - 7\n\nNo one was kicked today!"
    ));
    assert!(!report.contains("F - 6"));
    assert!(ids.is_empty());
}

#[test]
fn board_sorts_numerically_and_keeps_ties_in_order() {
    let doc = r#"{"memberDidNotSend": [], "memberDidSend": [
        {"fullName": "P", "streak": "9"},
        {"fullName": "Q", "streak": "+10"},
        {"fullName": "R", "streak": "9"},
        {"fullName": "S", "streak": "-1"}
    ]}"#;
    let (report, _) = compile_report(doc, &day("2025-03-15")).unwrap();
    assert!(report.contains("1. Q - +10\n2. P - 9\n3. R - 9\n4. S - -1\n"));
}

#[test]
fn two_days_silent_is_kept_three_is_removed() {
    let doc = r#"{"memberDidNotSend": [
        {"fullName": "Two", "userID": "2", "lastStatusUpdate": "2025-03-13", "admissionYear": "2024"},
        {"fullName": "Three", "userID": "3", "lastStatusUpdate": "2025-03-12", "admissionYear": "2024"}
    ], "memberDidSend": []}"#;
    let (report, ids) = compile_report(doc, &day("2025-03-15")).unwrap();
    assert_eq!(ids, vec![3]);
    assert!(report.contains("1. Two - 2D \n\n2. Three - 3D \n\n"));
    assert!(report.ends_with("**Kicked :x: **\n1. Three\n"));
}

#[test]
fn missing_silent_list_is_an_error() {
    let doc = r#"{"memberDidSend": []}"#;
    assert_eq!(
        compile_report(doc, &day("2025-03-15")),
        Err(ReportError::MissingField(Field::MemberDidNotSend))
    );
}

#[test]
fn silent_list_of_wrong_type_is_an_error() {
    let doc = r#"{"memberDidNotSend": {}, "memberDidSend": []}"#;
    assert_eq!(
        compile_report(doc, &day("2025-03-15")),
        Err(ReportError::MissingField(Field::MemberDidNotSend))
    );
}

#[test]
fn missing_sent_list_is_an_error() {
    let doc = r#"{"memberDidNotSend": []}"#;
    assert_eq!(
        compile_report(doc, &day("2025-03-15")),
        Err(ReportError::MissingField(Field::MemberDidSend))
    );
}

#[test]
fn text_that_is_not_json_is_an_error() {
    assert_eq!(
        compile_report("{\"memberDidNotSend\": [", &day("2025-03-15")),
        Err(ReportError::MalformedInput)
    );
    assert_eq!(compile_report("", &day("2025-03-15")), Err(ReportError::MalformedInput));
}

#[test]
fn member_without_status_date_is_skipped() {
    let doc = r#"{"memberDidNotSend": [
        {"fullName": "Nodate", "userID": "7", "admissionYear": "2024"},
        {"fullName": "Baddate", "userID": "8", "lastStatusUpdate": "soon", "admissionYear": "2024"}
    ], "memberDidSend": []}"#;
    let (report, ids) = compile_report(doc, &day("2025-03-15")).unwrap();
    assert_eq!(
        report,
        "**DAILY REPORT**\n\n**Did Not Send :scream:**\n\n**Streaks! :fire:**\n\nNo one was kicked today!"
    );
    assert!(ids.is_empty());
}

#[test]
fn empty_lists_give_the_bare_report() {
    let doc = r#"{"memberDidNotSend": [], "memberDidSend": []}"#;
    let (report, ids) = compile_report(doc, &day("2025-03-15")).unwrap();
    assert_eq!(
        report,
        "**DAILY REPORT**\n\n**Did Not Send :scream:**\n\n**Streaks! :fire:**\n\nNo one was kicked today!"
    );
    assert!(ids.is_empty());
}

#[test]
fn batch_outside_one_to_four_is_left_out_but_still_removed() {
    let doc = r#"{"memberDidNotSend": [
        {"fullName": "Alum", "userID": "9", "lastStatusUpdate": "2025-01-01", "admissionYear": "2019"},
        {"fullName": "Fourth", "userID": "10", "lastStatusUpdate": "2025-03-15", "admissionYear": "2021"}
    ], "memberDidSend": []}"#;
    let (report, ids) = compile_report(doc, &day("2025-03-15")).unwrap();
    assert!(!report.contains("Alum - "));
    assert!(report.contains("**Fourth Year Batch**\n1. Fourth - 0D \n\n"));
    assert!(report.contains("**Kicked :x: **\n1. Alum\n"));
    assert_eq!(ids, vec![9]);
}

#[test]
fn bad_admission_year_is_an_error() {
    let doc = r#"{"memberDidNotSend": [
        {"fullName": "Ok", "userID": "1", "lastStatusUpdate": "2025-03-15", "admissionYear": "2024"},
        {"fullName": "X", "userID": "2", "lastStatusUpdate": "2025-03-15", "admissionYear": "twenty"}
    ], "memberDidSend": []}"#;
    assert_eq!(
        compile_report(doc, &day("2025-03-15")),
        Err(ReportError::MalformedRecord(Field::AdmissionYear, 1))
    );
}

#[test]
fn batch_member_without_name_is_an_error() {
    let doc = r#"{"memberDidNotSend": [
        {"userID": "2", "lastStatusUpdate": "2025-03-15", "admissionYear": "2024"}
    ], "memberDidSend": []}"#;
    assert_eq!(
        compile_report(doc, &day("2025-03-15")),
        Err(ReportError::MalformedRecord(Field::FullName, 0))
    );
}

#[test]
fn removed_member_without_id_is_an_error() {
    let doc = r#"{"memberDidNotSend": [
        {"fullName": "Y", "userID": "-5", "lastStatusUpdate": "2025-03-01", "admissionYear": "2024"}
    ], "memberDidSend": []}"#;
    assert_eq!(
        compile_report(doc, &day("2025-03-15")),
        Err(ReportError::MalformedRecord(Field::UserId, 0))
    );
}

#[test]
fn sender_without_streak_is_an_error() {
    let doc = r#"{"memberDidNotSend": [], "memberDidSend": [
        {"fullName": "A", "streak": "3"},
        {"fullName": "B", "streak": "many"}
    ]}"#;
    assert_eq!(
        compile_report(doc, &day("2025-03-15")),
        Err(ReportError::MalformedRecord(Field::Streak, 1))
    );
}

#[test]
fn sender_without_name_is_an_error() {
    let doc = r#"{"memberDidNotSend": [], "memberDidSend": [{"streak": "3"}]}"#;
    assert_eq!(
        compile_report(doc, &day("2025-03-15")),
        Err(ReportError::MalformedRecord(Field::FullName, 0))
    );
}

#[test]
fn removal_names_come_from_the_first_matching_id() {
    let doc = r#"{"memberDidNotSend": [
        {"fullName": "First", "userID": "42"},
        {"fullName": "Second", "userID": "42", "lastStatusUpdate": "2025-03-01", "admissionYear": "2000"},
        {"fullName": "Third", "userID": "042", "lastStatusUpdate": "2025-03-01", "admissionYear": "2000"}
    ], "memberDidSend": []}"#;
    let (report, ids) = compile_report(doc, &day("2025-03-15")).unwrap();
    assert_eq!(ids, vec![42, 42]);
    assert!(report.ends_with("**Kicked :x: **\n1. First\n2. First\n"));
}

#[test]
fn unmatched_removal_keeps_its_number() {
    let doc = r#"{"memberDidNotSend": [
        {"fullName": "Padded", "userID": "007", "lastStatusUpdate": "2025-03-01", "admissionYear": "2000"},
        {"fullName": "Plain", "userID": "8", "lastStatusUpdate": "2025-03-01", "admissionYear": "2000"}
    ], "memberDidSend": []}"#;
    let (report, ids) = compile_report(doc, &day("2025-03-15")).unwrap();
    assert_eq!(ids, vec![7, 8]);
    assert!(report.ends_with("**Kicked :x: **\n2. Plain\n"));
}

#[test]
fn same_input_gives_same_output() {
    let doc = r#"{"memberDidNotSend": [
        {"fullName": "Asha", "userID": "101", "lastStatusUpdate": "2024-01-01", "admissionYear": "2022"}
    ], "memberDidSend": [{"fullName": "Cy", "streak": "4"}]}"#;
    let today = day("2025-03-15");
    let first = compile_report(doc, &today);
    let second = compile_report(doc, &today);
    assert_eq!(first, second);
    assert!(first.unwrap().0.contains("1. Asha - 1Y+ \n"));
}
