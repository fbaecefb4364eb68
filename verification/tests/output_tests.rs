use judgekit::checker::parse_answer;
use judgekit::output::write_output;
use judgekit::text::parse_i64;

#[test]
fn write_output_is_canonical_decimal_plus_newline() {
    assert_eq!(write_output(5), "5\n");
    assert_eq!(write_output(0), "0\n");
    assert_eq!(write_output(-42), "-42\n");
    assert_eq!(write_output(i64::MAX), "9223372036854775807\n");
    assert_eq!(write_output(i64::MIN), "-9223372036854775808\n");
}

#[test]
fn written_output_reparses_to_the_same_integer() {
    let values: Vec<i64> = vec![0, 1, -1, 7, -42, 1000, i64::MAX, i64::MIN];
    for &v in &values {
        let line = write_output(v);
        assert_eq!(parse_i64(line.trim()), Some(v));
        assert_eq!(parse_answer(&line), Some(v));
    }
}
