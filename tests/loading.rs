use scigui::{load_pairs, next_step, split_records, succeeded_after, LoadError, LoadStep, PickOutcome};

fn parse_f64(s: &str) -> Option<f64> {
    s.parse::<f64>().ok()
}

fn pairs(v: &[(&str, &str)]) -> Vec<(String, String)> {
    v.iter().map(|(x, y)| (x.to_string(), y.to_string())).collect()
}

#[test]
fn well_formed_file_loads_in_order() {
    let r = load_pairs(",", "1.0,2.0\n3.0,4.0", parse_f64);
    assert_eq!(r, Ok(vec![[1.0, 2.0], [3.0, 4.0]]));
}

#[test]
fn empty_file_fails() {
    assert_eq!(load_pairs(",", "", parse_f64), Err(LoadError::EmptyFileError));
    assert_eq!(split_records(",", ""), Err(LoadError::EmptyFileError));
}

#[test]
fn lines_without_delimiter_fail_with_empty_result() {
    assert_eq!(
        load_pairs(",", "1.0 2.0\n3.0 4.0\n", parse_f64),
        Err(LoadError::EmptyResultError)
    );
    assert_eq!(split_records(";", "a,b"), Err(LoadError::EmptyResultError));
    assert_eq!(split_records(",", "\n\n"), Err(LoadError::EmptyResultError));
}

#[test]
fn delimiter_free_line_is_skipped() {
    assert_eq!(load_pairs(",", "1.0,2.0\nnothing here", parse_f64), Ok(vec![[1.0, 2.0]]));
    assert_eq!(load_pairs(",", "nothing here\n5.5,-1", parse_f64), Ok(vec![[5.5, -1.0]]));
    assert_eq!(
        load_pairs(",", "1,2\nskip\n3,4", parse_f64),
        Ok(vec![[1.0, 2.0], [3.0, 4.0]])
    );
}

#[test]
fn non_numeric_field_fails_with_parse_error() {
    assert_eq!(load_pairs(",", "a,2.0", parse_f64), Err(LoadError::ParseError));
    assert_eq!(
        load_pairs(",", "1.0,2.0\na,2.0\n3.0,4.0", parse_f64),
        Err(LoadError::ParseError)
    );
    assert_eq!(load_pairs(",", "1.0,", parse_f64), Err(LoadError::ParseError));
}

#[test]
fn whitespace_around_fields_is_ignored() {
    assert_eq!(
        load_pairs(",", " 1.0 , 2.0 ", parse_f64),
        load_pairs(",", "1.0,2.0", parse_f64)
    );
    assert_eq!(split_records(",", " 1.0 , 2.0 "), Ok(pairs(&[("1.0", "2.0")])));
    assert_eq!(
        split_records(",", "\t1\u{a0}, \u{3000}2\t"),
        Ok(pairs(&[("1", "2")]))
    );
}

#[test]
fn split_happens_at_first_occurrence() {
    assert_eq!(split_records(",", "1,2,3"), Ok(pairs(&[("1", "2,3")])));
    assert_eq!(load_pairs(",", "1,2,3", parse_f64), Err(LoadError::ParseError));
}

#[test]
fn longer_delimiter_is_matched_whole() {
    assert_eq!(split_records("::", "1:2::3"), Ok(pairs(&[("1:2", "3")])));
    assert_eq!(split_records("ab", "xaybz"), Err(LoadError::EmptyResultError));
    assert_eq!(load_pairs("; ", "7; 8\n9;10", parse_f64), Ok(vec![[7.0, 8.0]]));
}

#[test]
fn line_endings_follow_str_lines() {
    assert_eq!(
        split_records(",", "1,2\r\n3,4\r\n"),
        Ok(pairs(&[("1", "2"), ("3", "4")]))
    );
    assert_eq!(split_records(",", "1,2\n"), Ok(pairs(&[("1", "2")])));
    assert_eq!(split_records(",", "x,y\n\n\nz,w"), Ok(pairs(&[("x", "y"), ("z", "w")])));
}

#[test]
fn non_ascii_text_is_kept() {
    assert_eq!(split_records("→", "ä → ö"), Ok(pairs(&[("ä", "ö")])));
}

#[test]
fn empty_delimiter_splits_at_start() {
    assert_eq!(split_records("", "12"), Ok(pairs(&[("", "12")])));
    assert_eq!(load_pairs("", "12", parse_f64), Err(LoadError::ParseError));
}

#[test]
fn integers_parse_as_points() {
    let r = load_pairs(",", "1,2\n3,4", |s: &str| s.parse::<i64>().ok());
    assert_eq!(r, Ok(vec![[1, 2], [3, 4]]));
}

#[test]
fn next_step_follows_outcome() {
    assert_eq!(next_step(PickOutcome::Cancelled), LoadStep::Stop);
    assert_eq!(next_step(PickOutcome::Loaded), LoadStep::ShowLoaded);
    assert_eq!(
        next_step(PickOutcome::Failed(LoadError::EmptyResultError)),
        LoadStep::ShowDefault
    );
    assert_eq!(next_step(PickOutcome::Failed(LoadError::ParseError)), LoadStep::PickAgain);
    assert_eq!(next_step(PickOutcome::Failed(LoadError::IoError)), LoadStep::PickAgain);
    assert_eq!(
        next_step(PickOutcome::Failed(LoadError::EmptyFileError)),
        LoadStep::PickAgain
    );
}

#[test]
fn success_flag_follows_outcome() {
    assert!(!succeeded_after(true, PickOutcome::Cancelled));
    assert!(succeeded_after(false, PickOutcome::Loaded));
    assert!(succeeded_after(true, PickOutcome::Failed(LoadError::EmptyResultError)));
    assert!(!succeeded_after(false, PickOutcome::Failed(LoadError::ParseError)));
}
