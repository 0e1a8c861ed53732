use iorate::counters::{parse_rchar_wchar, CounterError};

#[test]
fn counters_in_usual_order() {
    assert_eq!(parse_rchar_wchar("rchar: 100\nwchar: 200\n"), Ok((100, 200)));
}

#[test]
fn counters_in_reverse_order() {
    assert_eq!(parse_rchar_wchar("wchar: 200\nrchar: 100\n"), Ok((100, 200)));
}

#[test]
fn counters_missing_wchar() {
    assert_eq!(parse_rchar_wchar("rchar: 100\nsyscr: 5\n"), Err(CounterError::NotFound));
}

#[test]
fn counters_missing_rchar() {
    assert_eq!(parse_rchar_wchar("wchar: 7"), Err(CounterError::NotFound));
}

#[test]
fn counters_empty_record() {
    assert_eq!(parse_rchar_wchar(""), Err(CounterError::NotFound));
}

#[test]
fn counters_full_record() {
    let record = "rchar: 323934931\nwchar: 323929600\nsyscr: 632687\nsyscw: 632675\n\
                  read_bytes: 0\nwrite_bytes: 323932160\ncancelled_write_bytes: 0\n";
    assert_eq!(parse_rchar_wchar(record), Ok((323934931, 323929600)));
}

#[test]
fn counters_stop_once_both_found() {
    assert_eq!(parse_rchar_wchar("rchar: 1\nwchar: 2\nrchar: 9\nwchar: x\n"), Ok((1, 2)));
    assert_eq!(parse_rchar_wchar("wchar: 2\nrchar: 1\nwchar: 9\n"), Ok((1, 2)));
}

#[test]
fn counters_later_line_overrides_earlier() {
    assert_eq!(parse_rchar_wchar("rchar: 5\nrchar: 6\nwchar: 3\n"), Ok((6, 3)));
    assert_eq!(parse_rchar_wchar("rchar: 5\nrchar: bad\nwchar: 3\n"), Err(CounterError::NotFound));
}

#[test]
fn counters_tolerate_white_space() {
    assert_eq!(parse_rchar_wchar("  rchar:\t100  \r\nwchar:   200 extra\n"), Ok((100, 200)));
}

#[test]
fn counters_need_a_value() {
    assert_eq!(parse_rchar_wchar("rchar:\nwchar: 1\n"), Err(CounterError::NotFound));
    assert_eq!(parse_rchar_wchar("rchar:100\nwchar: 1\n"), Err(CounterError::NotFound));
}

#[test]
fn counters_read_numbers_as_u64() {
    assert_eq!(parse_rchar_wchar("rchar: +5\nwchar: 007\n"), Ok((5, 7)));
    assert_eq!(parse_rchar_wchar("rchar: -5\nwchar: 7\n"), Err(CounterError::NotFound));
    assert_eq!(parse_rchar_wchar("rchar: +\nwchar: 7\n"), Err(CounterError::NotFound));
    assert_eq!(parse_rchar_wchar("rchar: 1x\nwchar: 7\n"), Err(CounterError::NotFound));
}

#[test]
fn counters_largest_values() {
    assert_eq!(
        parse_rchar_wchar("rchar: 18446744073709551615\nwchar: 0\n"),
        Ok((u64::MAX, 0))
    );
    assert_eq!(
        parse_rchar_wchar("rchar: 18446744073709551616\nwchar: 0\n"),
        Err(CounterError::NotFound)
    );
}

#[test]
fn counters_keys_are_exact() {
    assert_eq!(parse_rchar_wchar("xrchar: 1\nwchar: 2\n"), Err(CounterError::NotFound));
    assert_eq!(parse_rchar_wchar("rchar 1\nwchar: 2\n"), Err(CounterError::NotFound));
}
