use hypewwisoww::serial::{
    init, log_hex, log_line, log_record, write_byte, LogRecord, WriteStep, SPIN_LIMIT,
};

#[test]
fn controller_is_set_up_in_order() {
    assert_eq!(
        init(),
        vec![
            (0x3f9, 0x00),
            (0x3fb, 0x80),
            (0x3f8, 0x01),
            (0x3f9, 0x00),
            (0x3fb, 0x03),
            (0x3fa, 0xc7),
            (0x3fc, 0x0b),
        ]
    );
}

#[test]
fn lines_end_with_return_and_newline() {
    assert_eq!(log_line("guest halted"), b"guest halted\r\n".to_vec());
    assert_eq!(log_line(""), b"\r\n".to_vec());
}

#[test]
fn newlines_inside_a_message_get_a_return() {
    assert_eq!(log_line("one\ntwo\n"), b"one\r\ntwo\r\n\r\n".to_vec());
    assert_eq!(log_line("tab\there\r"), b"tab\there\r\r\n".to_vec());
}

#[test]
fn bytes_beyond_ascii_are_sent_as_they_are() {
    assert_eq!(log_line("\u{e9}"), vec![0xc3, 0xa9, 13, 10]);
}

#[test]
fn numbers_have_sixteen_digits() {
    assert_eq!(log_hex("rip=", 0x4000), b"rip=0x0000000000004000\r\n".to_vec());
    assert_eq!(
        log_hex("", 0x0123_4567_89ab_cdef),
        b"0x0123456789abcdef\r\n".to_vec()
    );
    assert_eq!(log_hex("all=", u64::MAX), b"all=0xffffffffffffffff\r\n".to_vec());
}

#[test]
fn digits_stand_for_the_number() {
    for value in [0, 1, 15, 16, 0xdead_beef, 0x8000_0000_0000_0000, u64::MAX] {
        let line = log_hex("", value);
        let text = String::from_utf8(line[2..18].to_vec()).unwrap();
        assert_eq!(u64::from_str_radix(&text, 16), Ok(value));
    }
}

#[test]
fn messages_join_on_the_line() {
    let mut both = log_line("one\n");
    both.extend(log_line("two"));
    assert_eq!(log_line("one\n\ntwo"), both);
}

#[test]
fn records_are_lines_and_numbers() {
    assert_eq!(log_record(LogRecord::Line("x")), log_line("x"));
    assert_eq!(log_record(LogRecord::Hex("x=", 9)), log_hex("x=", 9));
}

#[test]
fn byte_waits_for_the_line() {
    assert_eq!(write_byte(0, 0x20), WriteStep::Send);
    assert_eq!(write_byte(7, 0xff), WriteStep::Send);
    assert_eq!(write_byte(0, 0xdf), WriteStep::Wait(1));
    assert_eq!(write_byte(SPIN_LIMIT - 2, 0), WriteStep::Wait(SPIN_LIMIT - 1));
}

#[test]
fn byte_is_dropped_when_the_line_stays_busy() {
    assert_eq!(SPIN_LIMIT, 1_000_000);
    assert_eq!(write_byte(SPIN_LIMIT - 1, 0), WriteStep::GiveUp);
    let mut polls = 0;
    let mut asked = 1;
    while let WriteStep::Wait(next) = write_byte(polls, 0) {
        polls = next;
        asked += 1;
    }
    assert_eq!(asked, SPIN_LIMIT);
}
