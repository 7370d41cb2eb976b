use student_analyzer::form::StudentForm;
use student_analyzer::grade::{average_of, Verdict};
use student_analyzer::mark::parse_mark;

fn sheet(marks: [&str; 7]) -> StudentForm {
    let mut f = StudentForm::new();
    f.name = "Asha".to_string();
    f.roll_no = "17".to_string();
    for i in 0..7 {
        f.marks[i] = marks[i].to_string();
    }
    f
}

#[test]
fn passing_sheet_averages_sixty() {
    let mut f = sheet(["50", "60", "70", "80", "90", "40", "30"]);
    let lines = f.calculate(true).expect("valid marks");
    assert_eq!(f.average.as_ref().unwrap().total(), 420_000_000);
    assert_eq!(f.average_shown().unwrap(), "60.00");
    assert_eq!(f.result, Some(Verdict::Pass));
    assert_eq!(f.result_shown().unwrap(), "Pass");
    assert_eq!(lines.len(), 1);
    assert_eq!(lines[0], "Asha,17,50,60,70,80,90,40,30,60.00,Pass\n");
    assert!(lines[0].ends_with(",60.00,Pass\n"));
}

#[test]
fn failing_sheet_averages_ten() {
    let mut f = sheet(["10", "10", "10", "10", "10", "10", "10"]);
    assert!(f.calculate(true).is_some());
    assert_eq!(f.average_shown().unwrap(), "10.00");
    assert_eq!(f.result_shown().unwrap(), "Fail");
}

#[test]
fn empty_last_mark_is_invalid() {
    let mut f = sheet(["50", "60", "70", "80", "90", "40", ""]);
    assert!(f.calculate(false).is_none());
    assert!(f.average.is_none());
    assert_eq!(f.result, Some(Verdict::Invalid));
    assert_eq!(f.result_shown().unwrap(), "Invalid input!");
    assert!(f.average_shown().is_none());
}

#[test]
fn word_mark_is_invalid() {
    let mut f = sheet(["abc", "60", "70", "80", "90", "40", "30"]);
    assert!(f.calculate(false).is_none());
    assert_eq!(f.result_shown().unwrap(), "Invalid input!");
}

#[test]
fn invalid_after_valid_drops_average() {
    let mut f = sheet(["50", "60", "70", "80", "90", "40", "30"]);
    assert!(f.calculate(true).is_some());
    f.marks[3] = "x".to_string();
    assert!(f.calculate(true).is_none());
    assert!(f.average.is_none());
    assert_eq!(f.result, Some(Verdict::Invalid));
}

#[test]
fn average_of_exactly_forty_passes() {
    let mut f = sheet(["40", "40", "40", "40", "40", "40", "40"]);
    f.calculate(true).unwrap();
    assert_eq!(f.average_shown().unwrap(), "40.00");
    assert_eq!(f.result, Some(Verdict::Pass));
}

#[test]
fn average_just_under_forty_fails() {
    let mut f = sheet(["40", "40", "40", "40", "40", "40", "39.999999"]);
    f.calculate(true).unwrap();
    assert_eq!(f.average_shown().unwrap(), "40.00");
    assert_eq!(f.result, Some(Verdict::Fail));
}

#[test]
fn new_log_gets_header_then_row() {
    let mut f = sheet(["50", "60", "70", "80", "90", "40", "30"]);
    f.selected_subjects = [0, 1, 2, 3, 4, 5, 6];
    let lines = f.calculate(false).unwrap();
    assert_eq!(lines.len(), 2);
    assert_eq!(
        lines[0],
        "Name,Roll No.,Math,Science,English,Social,Computer,Hindi,Tamil,Average,Result\n"
    );
    assert_eq!(lines[1], "Asha,17,50,60,70,80,90,40,30,60.00,Pass\n");
}

#[test]
fn header_repeats_chosen_subjects() {
    let f = sheet(["1", "1", "1", "1", "1", "1", "1"]);
    assert_eq!(
        f.header_line(),
        "Name,Roll No.,Math,Math,Math,Math,Math,Math,Math,Average,Result\n"
    );
}

#[test]
fn each_valid_calculation_adds_one_row() {
    let mut f = sheet(["50", "60", "70", "80", "90", "40", "30"]);
    let mut log: Vec<String> = Vec::new();
    for _ in 0..3 {
        let exists = !log.is_empty();
        log.extend(f.calculate(exists).unwrap());
    }
    assert_eq!(log.len(), 4);
    assert!(log[0].starts_with("Name,Roll No."));
    assert!(log[1..].iter().all(|l| l.starts_with("Asha,17,")));
}

#[test]
fn duplicate_subjects_do_not_change_average() {
    let mut a = sheet(["50", "60", "70", "80", "90", "40", "30"]);
    let mut b = sheet(["50", "60", "70", "80", "90", "40", "30"]);
    b.selected_subjects = [0, 1, 2, 3, 4, 5, 6];
    a.calculate(true).unwrap();
    b.calculate(true).unwrap();
    assert_eq!(
        a.average.as_ref().unwrap().total(),
        b.average.as_ref().unwrap().total()
    );
    assert_eq!(a.result, b.result);
}

#[test]
fn marks_are_trimmed() {
    let mut f = sheet([" 50", "60 ", "\t70", "80", "90", "40", "30  "]);
    let lines = f.calculate(true).unwrap();
    assert_eq!(lines[0], "Asha,17,50,60,70,80,90,40,30,60.00,Pass\n");
}

#[test]
fn clear_resets_everything_but_catalog() {
    let mut f = sheet(["50", "60", "70", "80", "90", "40", "30"]);
    f.selected_subjects = [6, 5, 4, 3, 2, 1, 0];
    f.calculate(true).unwrap();
    f.clear();
    assert_eq!(f.name, "");
    assert_eq!(f.roll_no, "");
    assert!(f.marks.iter().all(|m| m.is_empty()));
    assert_eq!(f.selected_subjects, [0; 7]);
    assert!(f.average.is_none());
    assert!(f.result.is_none());
    assert_eq!(f.subjects.len(), 7);
    assert_eq!(f.subjects[6], "Tamil");
}

#[test]
fn clear_after_invalid_forgets_result() {
    let mut f = sheet(["", "", "", "", "", "", ""]);
    assert!(f.calculate(true).is_none());
    f.clear();
    assert!(f.result.is_none());
}

#[test]
fn default_sheet_is_blank() {
    let f = StudentForm::default();
    assert_eq!(f.subjects, vec!["Math", "Science", "English", "Social", "Computer", "Hindi", "Tamil"]);
    assert_eq!(f.selected_subjects, [0; 7]);
    assert!(f.marks.iter().all(|m| m.is_empty()));
    assert!(f.result_shown().is_none());
}

#[test]
fn rounding_to_two_decimals() {
    let mut f = sheet(["1", "0", "0", "0", "0", "0", "0"]);
    f.calculate(true).unwrap();
    assert_eq!(f.average_shown().unwrap(), "0.14");
    let mut g = sheet(["2", "0", "0", "0", "0", "0", "0"]);
    g.calculate(true).unwrap();
    assert_eq!(g.average_shown().unwrap(), "0.29");
    let mut h = sheet(["-1", "0", "0", "0", "0", "0", "0"]);
    h.calculate(true).unwrap();
    assert_eq!(h.average_shown().unwrap(), "-0.14");
    assert_eq!(h.result, Some(Verdict::Fail));
    let mut k = sheet(["100", "100", "100", "100", "100", "100", "99.5"]);
    k.calculate(true).unwrap();
    assert_eq!(k.average_shown().unwrap(), "99.93");
}

#[test]
fn rounding_ties_go_to_even() {
    // 0.035 / 7 = 0.005, a tie between 0.00 and 0.01
    let a = average_of(&["0.035", "0", "0", "0", "0", "0", "0"].map(String::from)).unwrap();
    assert_eq!(a.text(), "0.00");
    // 0.105 / 7 = 0.015, a tie between 0.01 and 0.02
    let b = average_of(&["0.105", "0", "0", "0", "0", "0", "0"].map(String::from)).unwrap();
    assert_eq!(b.text(), "0.02");
}

#[test]
fn average_of_stops_on_bad_mark() {
    assert!(average_of(&["1", "2", "x", "4", "5", "6", "7"].map(String::from)).is_none());
    let a = average_of(&["1", "2", "3", "4", "5", "6", "7"].map(String::from)).unwrap();
    assert_eq!(a.total(), 28_000_000);
    assert_eq!(a.text(), "4.00");
    assert_eq!(a.verdict(), Verdict::Fail);
    assert!(!a.passes());
}

#[test]
fn parse_plain_numerals() {
    assert_eq!(parse_mark("50"), Some(50_000_000));
    assert_eq!(parse_mark("0"), Some(0));
    assert_eq!(parse_mark("-2.5"), Some(-2_500_000));
    assert_eq!(parse_mark("+7"), Some(7_000_000));
    assert_eq!(parse_mark("5."), Some(5_000_000));
    assert_eq!(parse_mark(".25"), Some(250_000));
    assert_eq!(parse_mark("12.345678"), Some(12_345_678));
    assert_eq!(parse_mark("007"), Some(7_000_000));
    assert_eq!(parse_mark("1000000000000000000"), Some(1_000_000_000_000_000_000_000_000));
}

#[test]
fn parse_rejects_non_numerals() {
    assert_eq!(parse_mark(""), None);
    assert_eq!(parse_mark("abc"), None);
    assert_eq!(parse_mark("."), None);
    assert_eq!(parse_mark("-"), None);
    assert_eq!(parse_mark("+."), None);
    assert_eq!(parse_mark("12a"), None);
    assert_eq!(parse_mark("1.2.3"), None);
    assert_eq!(parse_mark("1e2"), None);
    assert_eq!(parse_mark(" 5"), None);
    assert_eq!(parse_mark("--5"), None);
}

#[test]
fn parse_rejects_out_of_bounds() {
    assert_eq!(parse_mark("1.2345678"), None);
    assert_eq!(parse_mark("1000000000000000001"), None);
    assert_eq!(parse_mark("99999999999999999999999"), None);
}

#[test]
fn verdict_texts() {
    assert_eq!(Verdict::Pass.text(), "Pass");
    assert_eq!(Verdict::Fail.text(), "Fail");
    assert_eq!(Verdict::Invalid.text(), "Invalid input!");
}
