use at_commands::parser::CommandParser;
use golioth_rs::get_signal_strength;

fn last_number(response: &[u8]) -> Option<i32> {
    CommandParser::parse(response)
        .expect_identifier(b"+CESQ:")
        .expect_int_parameter()
        .expect_int_parameter()
        .expect_int_parameter()
        .expect_int_parameter()
        .expect_int_parameter()
        .expect_int_parameter()
        .expect_identifier(b"\r\n")
        .finish()
        .ok()
        .map(|numbers| numbers.5)
}

#[test]
fn known_strength_counts_from_minus_140() {
    assert_eq!(get_signal_strength(b"+CESQ: 99,99,255,255,31,62\r\nOK\r\n"), Some(-78));
    assert_eq!(get_signal_strength(b"+CESQ: 99,99,255,255,31,0\r\n"), Some(-140));
    assert_eq!(get_signal_strength(b"+CESQ: 99,99,255,255,31,97\r\n"), Some(-43));
}

#[test]
fn unknown_strength_is_255() {
    assert_eq!(get_signal_strength(b"+CESQ: 99,99,255,255,255,255\r\n"), Some(255));
}

#[test]
fn neighbours_of_255_are_known() {
    assert_eq!(get_signal_strength(b"+CESQ: 99,99,255,255,255,254\r\n"), Some(114));
    assert_eq!(get_signal_strength(b"+CESQ: 99,99,255,255,255,256\r\n"), Some(116));
}

#[test]
fn spaces_and_signs_are_accepted() {
    assert_eq!(get_signal_strength(b"+CESQ:   1, -2,  +3,4 ,5,6\r\n"), None);
    assert_eq!(get_signal_strength(b"+CESQ:   1, -2,  +3,4, 5,-6 \r\n"), Some(-146));
}

#[test]
fn other_responses_are_no_report() {
    for response in [
        &b""[..],
        b"OK\r\n",
        b"+CESQ",
        b"+CESQ:",
        b"+CESQ: 1,2,3,4,5\r\n",
        b"+CESQ: 1,2,3,4,5,6",
        b"+CESQ: 1,2,3,4,5,6\n",
        b"+CESQ: 1,2,3,4,5,6,7\r\n",
        b"+CESQ: 1,2,,4,5,6\r\n",
        b"+CESQ: 1,2,x,4,5,6\r\n",
        b"+CESQ: 1,2,3,4,5,6-7\r\n",
        b"+CESQ: 1,2,3,4,5,+\r\n",
        b"+CESQ: 1,2,3,4,5,000000000001\r\n",
        b" +CESQ: 1,2,3,4,5,6\r\n",
    ] {
        assert_eq!(get_signal_strength(response), None);
    }
}

#[test]
fn numbers_out_of_range_are_refused() {
    assert_eq!(get_signal_strength(b"+CESQ: 1,2,3,4,5,2147483648\r\n"), None);
    assert_eq!(get_signal_strength(b"+CESQ: 1,2,3,4,5,99999999999\r\n"), None);
    assert_eq!(get_signal_strength(b"+CESQ: -9999999999,2,3,4,5,6\r\n"), None);
    assert_eq!(get_signal_strength(b"+CESQ: 1,2,3,4,5,-2147483648\r\n"), None);
}

#[test]
fn numbers_at_the_edge_of_the_range_are_accepted() {
    assert_eq!(get_signal_strength(b"+CESQ: 1,2,3,4,5,2147483647\r\n"), Some(2147483507));
    assert_eq!(get_signal_strength(b"+CESQ: 1,2,3,4,5,-2147483508\r\n"), Some(i32::MIN));
    assert_eq!(get_signal_strength(b"+CESQ: 1,2,3,4,5,-2147483509\r\n"), None);
}

#[test]
fn reports_are_read_as_the_command_parser_reads_them() {
    for response in [
        &b"+CESQ: 99,99,255,255,31,62\r\n"[..],
        b"+CESQ:1,2,3,4,5,6\r\n",
        b"+CESQ: 1,2,3,4,5,6\r\nOK\r\n",
        b"+CESQ: 1,2,3,4,5,-\r\n",
        b"+CESQ: 1,2,3,4,5,+\r\n",
        b"+CESQ: 1,2,3,4,5,+-7\r\n",
        b"+CESQ: 1,2,3,4,5,--7\r\n",
        b"+CESQ: 1,2,3,4,5,-+7\r\n",
        b"+CESQ: 1 2 3 4 5 6\r\n",
        b"+CESQ: 1,2,3,4,5,6 \r\n",
        b"+CESQ: 1,2,3,4,5,6, \r\n",
        b"+CESQ: 1,2,3,4,5,6,,\r\n",
        b"+CESQ: 1 ,2,3,4,5,6\r\n",
        b"+CESQ: 1,2,3,4,5,00000000042\r\n",
        b"+CESQ: 1,2,3,4,5,+00000000042\r\n",
        b"+CESQ: 1,2,3,4,5,000000000042\r\n",
        b"+CESQ: 1,2,3,4,5,6\r",
        b"+CESQ: 1,2,3,4,5,",
        b"+CESQ: 1,2,3,4,5",
        b"+CESQ",
        b"",
        b"+CSQ: 1,2,3,4,5,6\r\n",
    ] {
        let expected = last_number(response).map(|n| if n == 255 { n } else { n - 140 });
        assert_eq!(get_signal_strength(response), expected);
    }
}
