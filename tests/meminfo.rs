use procinfo::{parse_meminfo, Field, MemInfo, ParseError};

fn parse(text: &str) -> Result<MemInfo, ParseError> {
    parse_meminfo(text.as_bytes())
}

const ALL_FIELDS: [Field; 14] = [
    Field::Total,
    Field::Free,
    Field::Available,
    Field::Buffers,
    Field::Cached,
    Field::SwapCached,
    Field::Active,
    Field::Inactive,
    Field::HighTotal,
    Field::HighFree,
    Field::LowTotal,
    Field::LowFree,
    Field::SwapTotal,
    Field::SwapFree,
];

const FULL_TEXT: &str = "MemTotal:\t16384000\n\
MemFree:\t512000\n\
MemAvailable:\t8000000\n\
Buffers:\t20000\n\
Cached:\t3000000\n\
SwapCached:\t100\n\
Active:\t4000000\n\
Inactive:\t2000000\n\
HighTotal:\t11\n\
HighFree:\t12\n\
LowTotal:\t13\n\
LowFree:\t14\n\
SwapTotal:\t2097148\n\
SwapFree:\t2097000\n";

fn full_record() -> MemInfo {
    MemInfo {
        total: 16384000,
        free: 512000,
        available: 8000000,
        buffers: 20000,
        cached: 3000000,
        swap_cached: 100,
        active: 4000000,
        inactive: 2000000,
        high_total: 11,
        high_free: 12,
        low_total: 13,
        low_free: 14,
        swap_total: 2097148,
        swap_free: 2097000,
    }
}

#[test]
fn three_fields_scenario() {
    let r = parse("MemTotal:\t16384000\nMemFree:\t512000\nBuffers:\t20000\n").unwrap();
    let mut expected = MemInfo::zero();
    expected.total = 16384000;
    expected.free = 512000;
    expected.buffers = 20000;
    assert_eq!(r, expected);
    assert_eq!(r.cached, 0);
    assert_eq!(r.swap_free, 0);
}

#[test]
fn duplicate_key_last_occurrence_wins() {
    let r = parse("MemFree:\t100\nMemTotal:\t900\nMemFree:\t250\n").unwrap();
    assert_eq!(r.free, 250);
    assert_eq!(r.total, 900);
}

#[test]
fn empty_buffer_gives_zero_record() {
    assert_eq!(parse(""), Ok(MemInfo::zero()));
    assert_eq!(parse_meminfo(&[]), Ok(MemInfo::default()));
}

#[test]
fn non_numeric_value_is_rejected() {
    assert_eq!(parse("MemTotal:\tabc\n"), Err(ParseError::MalformedLine));
}

#[test]
fn every_key_in_any_order() {
    assert_eq!(parse(FULL_TEXT), Ok(full_record()));
    let mut lines: Vec<&str> = FULL_TEXT.lines().collect();
    lines.reverse();
    let reversed = lines.join("\n") + "\n";
    assert_eq!(parse(&reversed), Ok(full_record()));
    lines.rotate_left(5);
    let rotated = lines.join("\n") + "\n";
    assert_eq!(parse(&rotated), Ok(full_record()));
}

#[test]
fn missing_keys_stay_zero() {
    let r = parse("SwapTotal:\t77\nActive:\t5\n").unwrap();
    for f in ALL_FIELDS {
        let expected = match f {
            Field::SwapTotal => 77,
            Field::Active => 5,
            _ => 0,
        };
        assert_eq!(r.field(f), expected);
    }
}

#[test]
fn unknown_lines_have_no_effect() {
    let with_extra = "Dirty:\t12 kB\nMemTotal:\t16384000\nHugePages_Total:\t0\n\
MemFree:\t512000\nnot a meminfo line\n\nBuffers:\t20000\nVmallocUsed:\tlots\n";
    let plain = "MemTotal:\t16384000\nMemFree:\t512000\nBuffers:\t20000\n";
    assert!(parse(with_extra).is_ok());
    assert_eq!(parse(with_extra), parse(plain));
}

#[test]
fn parsing_twice_gives_identical_records() {
    let a = parse(FULL_TEXT);
    let b = parse(FULL_TEXT);
    assert_eq!(a, b);
    assert_eq!(a, Ok(full_record()));
}

#[test]
fn kernel_format_with_unit_suffix() {
    let text = "MemTotal:       16384000 kB\nMemFree:         512000 kB\n\
MemAvailable:   8000000 kB\nHugePages_Free:        0\nSwapFree:              0 kB\n";
    let r = parse(text).unwrap();
    assert_eq!(r.total, 16384000);
    assert_eq!(r.free, 512000);
    assert_eq!(r.available, 8000000);
    assert_eq!(r.swap_free, 0);
}

#[test]
fn trailing_blanks_after_unit_are_accepted() {
    let r = parse("Cached:\t42 kB \t\nSwapCached:\t7\t\n").unwrap();
    assert_eq!(r.cached, 42);
    assert_eq!(r.swap_cached, 7);
}

#[test]
fn missing_value_is_rejected() {
    assert_eq!(parse("MemFree:\t\n"), Err(ParseError::MalformedLine));
    assert_eq!(parse("MemFree:"), Err(ParseError::MalformedLine));
    assert_eq!(parse("Buffers:   kB\n"), Err(ParseError::MalformedLine));
}

#[test]
fn other_text_after_value_is_rejected() {
    assert_eq!(parse("MemTotal:\t12 MB\n"), Err(ParseError::MalformedLine));
    assert_eq!(parse("MemTotal:\t12kBx\n"), Err(ParseError::MalformedLine));
    assert_eq!(parse("MemTotal:\t12 kB kB\n"), Err(ParseError::MalformedLine));
    assert_eq!(parse("MemTotal:\t-12\n"), Err(ParseError::MalformedLine));
}

#[test]
fn error_stops_at_malformed_line_anywhere() {
    let text = "MemTotal:\t100\nMemFree:\t1 2\nBuffers:\t3\n";
    assert_eq!(parse(text), Err(ParseError::MalformedLine));
}

#[test]
fn largest_value_is_accepted() {
    let text = format!("MemTotal:\t{}\n", usize::MAX);
    assert_eq!(parse(&text).unwrap().total, usize::MAX);
}

#[test]
fn value_over_usize_is_rejected() {
    let text = format!("MemTotal:\t{}0\n", usize::MAX);
    assert_eq!(parse(&text), Err(ParseError::MalformedLine));
    let text = format!("SwapFree:\t{}\n", (usize::MAX as u128) + 1);
    assert_eq!(parse(&text), Err(ParseError::MalformedLine));
}

#[test]
fn leading_zeros_are_read_as_decimal() {
    assert_eq!(parse("LowFree:\t000123\n").unwrap().low_free, 123);
}

#[test]
fn last_line_without_newline_is_read() {
    let r = parse("MemTotal:\t10\nMemFree:\t20").unwrap();
    assert_eq!(r.total, 10);
    assert_eq!(r.free, 20);
}

#[test]
fn key_must_match_whole_name() {
    let r = parse("MemTotalX:\t5\nmemtotal:\t6\nXMemTotal:\t7\nSwapCachedExtra: 9\n").unwrap();
    assert_eq!(r, MemInfo::zero());
}

#[test]
fn similar_keys_fill_their_own_fields() {
    let r = parse("SwapCached:\t1\nCached:\t2\nHighFree:\t3\nLowFree:\t4\nMemFree:\t5\nSwapFree:\t6\n")
        .unwrap();
    assert_eq!(r.swap_cached, 1);
    assert_eq!(r.cached, 2);
    assert_eq!(r.high_free, 3);
    assert_eq!(r.low_free, 4);
    assert_eq!(r.free, 5);
    assert_eq!(r.swap_free, 6);
}

#[test]
fn crlf_line_is_rejected_for_recognized_key() {
    assert_eq!(parse("MemTotal:\t5\r\n"), Err(ParseError::MalformedLine));
}

#[test]
fn field_keys_and_accessors() {
    let mut r = MemInfo::zero();
    for (k, f) in ALL_FIELDS.iter().enumerate() {
        assert_eq!(Field::from_index(k), *f);
        let key = f.key();
        assert_eq!(key.last(), Some(&b':'));
        let line = format!("{}\t{}\n", std::str::from_utf8(key).unwrap(), k + 1);
        assert_eq!(parse(&line).unwrap().field(*f), k + 1);
        r.set(*f, k + 100);
    }
    for (k, f) in ALL_FIELDS.iter().enumerate() {
        assert_eq!(r.field(*f), k + 100);
    }
    assert_eq!(Field::Total.key(), b"MemTotal:");
    assert_eq!(Field::SwapCached.key(), b"SwapCached:");
}
