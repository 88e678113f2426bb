use driftwatch::device::{parse_dev, push_dev, target_dev, DevError, NumberError};
use driftwatch::event::{
    decode_event, DiskEvent, DiskKey, EVENT_LEN, RW_OTHER, RW_READ, RW_WRITE,
};

#[test]
fn device_number_is_major_shifted_and_minor() {
    assert_eq!(parse_dev("259:0"), Ok(259 << 20));
    assert_eq!(parse_dev("253:16"), Ok((253 << 20) | 16));
    assert_eq!(parse_dev("0:0"), Ok(0));
    assert_eq!(parse_dev(" 8 :\t1\u{2003}"), Ok((8 << 20) | 1));
    assert_eq!(parse_dev("+8:+1"), Ok((8 << 20) | 1));
    assert_eq!(parse_dev("4096:5"), Ok(5));
    assert_eq!(parse_dev("1:1048576"), Ok(1 << 20));
}

#[test]
fn device_errors() {
    assert_eq!(parse_dev(""), Err(DevError::MissingColon));
    assert_eq!(parse_dev("259"), Err(DevError::MissingColon));
    assert_eq!(parse_dev(":"), Err(DevError::Number(NumberError::Empty)));
    assert_eq!(parse_dev("259:"), Err(DevError::Number(NumberError::Empty)));
    assert_eq!(parse_dev("a:b"), Err(DevError::Number(NumberError::InvalidDigit)));
    assert_eq!(parse_dev("1:2:3"), Err(DevError::Number(NumberError::InvalidDigit)));
    assert_eq!(parse_dev("-1:0"), Err(DevError::Number(NumberError::InvalidDigit)));
    assert_eq!(parse_dev("4294967296:0"), Err(DevError::Number(NumberError::TooLarge)));
    assert_eq!(parse_dev("99999999999x:0"), Err(DevError::Number(NumberError::TooLarge)));
    assert_eq!(DevError::MissingColon.message(), "--dev wants major:minor, e.g. 259:0");
    assert_eq!(
        DevError::Number(NumberError::Empty).message(),
        "cannot parse integer from empty string"
    );
    assert_eq!(
        DevError::Number(NumberError::InvalidDigit).message(),
        "invalid digit found in string"
    );
    assert_eq!(
        DevError::Number(NumberError::TooLarge).message(),
        "number too large to fit in target type"
    );
}

#[test]
fn numbers_are_read_as_std_reads_them() {
    let samples = [
        "", "0", "00", "7", "+7", "++7", "+", "-", "-0", "-7", "4294967295", "4294967296",
        "42949672950", "429496729x", "4294967296x", "1_000", "0x10", "٣", "1 2", "12µ", "000000000001",
        "00000000004294967296", " 5", "5\u{a0}", "\u{85}6\u{3000}", "\u{200b}6", "\u{feff}1",
    ];
    for s in samples {
        let mine = parse_dev(&format!("0:{s}"));
        match s.trim().parse::<u32>() {
            Ok(n) => assert_eq!(mine, Ok(n)),
            Err(e) => assert_eq!(mine.unwrap_err().message(), e.to_string()),
        }
    }
}

#[test]
fn every_white_space_character_is_trimmed() {
    for c in (0..=0x10ffffu32).filter_map(char::from_u32) {
        if c.is_whitespace() {
            assert_eq!(parse_dev(&format!("{c}8:{c}1{c}")), Ok((8 << 20) | 1));
        } else if c as u32 > 0x7f && (c as u32) < 0x3100 {
            assert!(parse_dev(&format!("8:{c}1")).is_err());
        }
    }
}

#[test]
fn device_text_and_number_are_inverse() {
    for dev in [0u32, 1, 0xf_ffff, 0x10_0000, (259 << 20) | 7, u32::MAX] {
        let mut s = String::new();
        push_dev(&mut s, dev);
        assert_eq!(s, format!("{}:{}", dev >> 20, dev & 0xf_ffff));
        assert_eq!(parse_dev(&s), Ok(dev));
    }
}

#[test]
fn no_device_means_all() {
    assert_eq!(target_dev(&None), Ok(0));
    assert_eq!(target_dev(&Some("253:16".to_string())), Ok((253 << 20) | 16));
    assert_eq!(target_dev(&Some("sda".to_string())), Err(DevError::MissingColon));
}

fn record(big_endian: bool, ev: &DiskEvent) -> Vec<u8> {
    let mut b: Vec<u8> = Vec::new();
    if big_endian {
        b.extend(ev.sector.to_be_bytes());
        b.extend(ev.latency_ns.to_be_bytes());
        b.extend(ev.dev.to_be_bytes());
        b.extend(ev.bytes.to_be_bytes());
        b.extend(ev.error.to_be_bytes());
    } else {
        b.extend(ev.sector.to_le_bytes());
        b.extend(ev.latency_ns.to_le_bytes());
        b.extend(ev.dev.to_le_bytes());
        b.extend(ev.bytes.to_le_bytes());
        b.extend(ev.error.to_le_bytes());
    }
    b.push(ev.rw);
    b.extend(ev._pad);
    b
}

#[test]
fn event_reads_back_in_both_byte_orders() {
    for error in [0i32, -5, i32::MIN, i32::MAX, -1] {
        let ev = DiskEvent {
            sector: 0x0102_0304_0506_0708,
            latency_ns: u64::MAX - 3,
            dev: (259 << 20) | 1,
            bytes: 0xdead_beef,
            error,
            rw: RW_OTHER,
            _pad: [9, 8, 7],
        };
        for big_endian in [false, true] {
            let bytes = record(big_endian, &ev);
            assert_eq!(bytes.len(), EVENT_LEN);
            let got = decode_event(&bytes, big_endian).unwrap();
            assert_eq!(got.sector, ev.sector);
            assert_eq!(got.latency_ns, ev.latency_ns);
            assert_eq!(got.dev, ev.dev);
            assert_eq!(got.bytes, ev.bytes);
            assert_eq!(got.error, ev.error);
            assert_eq!(got.rw, ev.rw);
            assert_eq!(got._pad, ev._pad);
        }
    }
}

#[test]
fn short_record_is_no_event() {
    assert!(decode_event(&[0; 31], false).is_none());
    assert!(decode_event(&[], true).is_none());
    assert!(decode_event(&[0; 40], false).is_some());
}

#[test]
fn keys_compare_by_their_fields() {
    let k = DiskKey { sector: 7, dev: 1 };
    assert_eq!(k, DiskKey { sector: 7, dev: 1 });
    assert_ne!(k, DiskKey { sector: 8, dev: 1 });
    assert_eq!((RW_READ, RW_WRITE, RW_OTHER), (0, 1, 2));
}
