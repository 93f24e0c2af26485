use aco_tardiness::parser::{parse_header, parse_record, ParseError};
use aco_tardiness::problem::Problem;

fn lines(text: &str) -> Vec<Vec<u8>> {
    text.split('\n').map(|l| l.as_bytes().to_vec()).collect()
}

#[test]
fn parses_a_small_instance() {
    let input = lines("3\n0 0 0\n4 7 2\n2 5 9");
    let p = Problem::parse(&input).unwrap();
    assert_eq!(p.n, 3);
    assert_eq!(p.processing_time, vec![0, 4, 2]);
    assert_eq!(p.due_date, vec![0, 7, 5]);
    assert_eq!(p.weight, vec![0, 2, 9]);
}

#[test]
fn accepts_extra_blanks_and_carriage_returns() {
    let input = lines("2\r\n 0  0  0 \r\n  3 1 2\r");
    let p = Problem::parse(&input).unwrap();
    assert_eq!(p.n, 2);
    assert_eq!(p.processing_time, vec![0, 3]);
    assert_eq!(p.due_date, vec![0, 1]);
    assert_eq!(p.weight, vec![0, 2]);
}

#[test]
fn ignores_lines_past_the_announced_count() {
    let input = lines("1\n0 0 0\nthis line is never read");
    let p = Problem::parse(&input).unwrap();
    assert_eq!(p.n, 1);
}

#[test]
fn rejects_empty_input() {
    let input: Vec<Vec<u8>> = Vec::new();
    assert_eq!(Problem::parse(&input).unwrap_err(), ParseError::MissingCount);
}

#[test]
fn rejects_non_numeric_count() {
    assert_eq!(
        Problem::parse(&lines("abc\n0 0 0")).unwrap_err(),
        ParseError::InvalidCount
    );
    assert_eq!(Problem::parse(&lines("")).unwrap_err(), ParseError::InvalidCount);
    assert_eq!(
        Problem::parse(&lines("2 3\n0 0 0")).unwrap_err(),
        ParseError::InvalidCount
    );
}

#[test]
fn rejects_missing_records() {
    assert_eq!(
        Problem::parse(&lines("3\n0 0 0\n1 2 3")).unwrap_err(),
        ParseError::MissingRecord
    );
}

#[test]
fn rejects_short_records() {
    assert_eq!(
        Problem::parse(&lines("1\n0 0")).unwrap_err(),
        ParseError::ShortRecord
    );
    assert_eq!(Problem::parse(&lines("1\n")).unwrap_err(), ParseError::ShortRecord);
}

#[test]
fn rejects_bad_fields() {
    assert_eq!(
        Problem::parse(&lines("1\n0 x 0")).unwrap_err(),
        ParseError::InvalidField
    );
    assert_eq!(
        Problem::parse(&lines("1\n0 0 99999999999999999999")).unwrap_err(),
        ParseError::InvalidField
    );
    assert_eq!(
        Problem::parse(&lines("1\n0 -1 0")).unwrap_err(),
        ParseError::InvalidField
    );
}

#[test]
fn rejects_trailing_fields() {
    assert_eq!(
        Problem::parse(&lines("1\n0 0 0 7")).unwrap_err(),
        ParseError::TrailingField
    );
}

#[test]
fn rejects_out_of_range_instances() {
    // A zero job count.
    assert_eq!(Problem::parse(&lines("0")).unwrap_err(), ParseError::InvalidProblem);
    // A value beyond the instance bound.
    assert_eq!(
        Problem::parse(&lines("1\n2000000 0 0")).unwrap_err(),
        ParseError::InvalidProblem
    );
    // A zero processing time outside the start job.
    assert_eq!(
        Problem::parse(&lines("2\n0 0 0\n0 1 1")).unwrap_err(),
        ParseError::InvalidProblem
    );
}

#[test]
fn first_bad_record_wins() {
    let input = lines("3\n0 0 0\n1 2\n1 x 3");
    assert_eq!(Problem::parse(&input).unwrap_err(), ParseError::ShortRecord);
}

#[test]
fn parse_header_reads_one_number() {
    assert_eq!(parse_header(&b"  40 ".to_vec()), Ok(40));
    assert_eq!(parse_header(&b"40 1".to_vec()), Err(ParseError::InvalidCount));
}

#[test]
fn parse_record_reads_three_numbers() {
    assert_eq!(parse_record(&b" 4  7 2 ".to_vec()), Ok((4, 7, 2)));
    assert_eq!(parse_record(&b"4 7".to_vec()), Err(ParseError::ShortRecord));
    assert_eq!(parse_record(&b"4 7 q".to_vec()), Err(ParseError::InvalidField));
    assert_eq!(parse_record(&b"4 7 2 9".to_vec()), Err(ParseError::TrailingField));
}
