use iorate::elapsed::{fmt_duration_as_secs, Elapsed};
use iorate::rate::bytes_per_second;
use number_prefix::{binary_prefix, Prefixed, Standalone};

fn secs(s: u64) -> Elapsed {
    Elapsed::new(s, 0)
}

fn render_rate(rate: u64) -> String {
    match binary_prefix(rate as f64) {
        Standalone(b) => format!("{} B/s", b),
        Prefixed(prefix, n) => format!("{:.0} {}B/s", n, prefix),
    }
}

#[test]
fn duration_one_and_a_half_seconds() {
    assert_eq!(fmt_duration_as_secs(&Elapsed::from_millis(1500)), "1.500 s");
}

#[test]
fn duration_just_under_a_second() {
    assert_eq!(fmt_duration_as_secs(&Elapsed::from_millis(999)), "0.999 s");
}

#[test]
fn duration_exactly_one_second() {
    assert_eq!(fmt_duration_as_secs(&Elapsed::from_millis(1000)), "1.000 s");
}

#[test]
fn duration_zero() {
    assert_eq!(fmt_duration_as_secs(&Elapsed::new(0, 0)), "0.000 s");
}

#[test]
fn duration_truncates_sub_millisecond_part() {
    assert_eq!(fmt_duration_as_secs(&Elapsed::new(2, 1_999_999)), "2.001 s");
    assert_eq!(fmt_duration_as_secs(&Elapsed::new(0, 999_999_999)), "0.999 s");
}

#[test]
fn duration_pads_milliseconds() {
    assert_eq!(fmt_duration_as_secs(&Elapsed::from_millis(61_007)), "61.007 s");
    assert_eq!(fmt_duration_as_secs(&Elapsed::from_millis(12_050)), "12.050 s");
}

#[test]
fn duration_largest_seconds() {
    assert_eq!(
        fmt_duration_as_secs(&Elapsed::new(u64::MAX, 123_000_000)),
        "18446744073709551615.123 s"
    );
}

#[test]
fn duration_text_reads_back() {
    for ms in [0u64, 1, 999, 1000, 1001, 1500, 59_999, 3_600_123] {
        let text = fmt_duration_as_secs(&Elapsed::from_millis(ms));
        let (whole, rest) = text.split_once('.').unwrap();
        assert_eq!(whole.parse::<u64>().unwrap(), ms / 1000);
        assert_eq!(rest[..3].parse::<u64>().unwrap(), ms % 1000);
        assert_eq!(&rest[3..], " s");
    }
}

#[test]
fn elapsed_from_millis_splits() {
    let e = Elapsed::from_millis(2_345);
    assert_eq!(e.secs, 2);
    assert_eq!(e.nanos, 345_000_000);
}

#[test]
fn rate_512_bytes_over_one_second() {
    let r = bytes_per_second(512, &secs(1));
    assert_eq!(r, 512);
    assert_eq!(render_rate(r), "512 B/s");
}

#[test]
fn rate_2048_bytes_over_one_second() {
    let r = bytes_per_second(2048, &secs(1));
    assert_eq!(r, 2048);
    assert_eq!(render_rate(r), "2 KiB/s");
}

#[test]
fn rate_zero_bytes_over_any_span() {
    for ms in [0u64, 1, 500, 1000, 1500, 2_999, 100_000] {
        let r = bytes_per_second(0, &Elapsed::from_millis(ms));
        assert_eq!(r, 0);
        assert_eq!(render_rate(r), "0 B/s");
    }
}

#[test]
fn rate_sub_second_span_is_zero() {
    assert_eq!(bytes_per_second(1_000_000, &Elapsed::from_millis(999)), 0);
    assert_eq!(bytes_per_second(u64::MAX, &Elapsed::new(0, 999_999_999)), 0);
}

#[test]
fn rate_divides_by_whole_seconds() {
    assert_eq!(bytes_per_second(3000, &Elapsed::from_millis(2500)), 1500);
    assert_eq!(bytes_per_second(10, &secs(3)), 3);
    assert_eq!(bytes_per_second(u64::MAX, &secs(1)), u64::MAX);
}

#[test]
fn rate_just_under_one_kibibyte() {
    assert_eq!(render_rate(bytes_per_second(1023, &secs(1))), "1023 B/s");
    assert_eq!(render_rate(bytes_per_second(1024, &secs(1))), "1 KiB/s");
    assert_eq!(render_rate(bytes_per_second(3 * 1024 * 1024, &secs(1))), "3 MiB/s");
}
