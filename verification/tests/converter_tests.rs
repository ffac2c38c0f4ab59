use rnc::build_char;
use rnc::convert;
use rnc::ByteOrder;
use rnc::ConversionError;
use rnc::Conversion;
use rnc::Converter;
use rnc::CR;
use rnc::LF;

#[test]
fn basic_conversion() {
    let dos2unix = Converter::utf8(Conversion::Dos2unix);
    let unix2dos = Converter::utf8(Conversion::Unix2dos);
    assert_eq!(dos2unix.convert(b"foo\r\nbar").unwrap(), b"foo\nbar");
    assert_eq!(unix2dos.convert(b"foo\nbar").unwrap(), b"foo\r\nbar");
}

#[test]
fn lib_advanced() {
    let dos2unix = Converter::utf8(Conversion::Dos2unix);
    let unix2dos = Converter::utf8(Conversion::Unix2dos);
    assert_eq!(
        unix2dos.convert(b"\rfoo\r\nbar\n").unwrap(),
        b"\rfoo\r\nbar\r\n"
    );
    assert_eq!(dos2unix.convert(b"\nfoo\rbar\r\n").unwrap(), b"\nfoo\rbar\n");
    let utf16_le_dos: [u8; 8] = [0x00, 0x42, 0x00, 0x0D, 0x00, 0x0A, 0x00, 0x41];
    let utf16_le_unix: [u8; 6] = [0x00, 0x42, 0x00, 0x0A, 0x00, 0x41];
    let dos2unix_utf16le = Converter::utf16le(Conversion::Dos2unix);
    let unix2dos_utf16le = Converter::utf16le(Conversion::Unix2dos);
    assert_eq!(
        unix2dos_utf16le.convert(&utf16_le_dos).unwrap(),
        utf16_le_dos
    );
    assert_eq!(
        dos2unix_utf16le.convert(&utf16_le_dos).unwrap(),
        utf16_le_unix
    );
}

#[test]
fn errors() {
    let converter_3 = Converter::new(Conversion::Dos2unix, 3, ByteOrder::LittleEndian);
    let converter_0 = Converter::new(Conversion::Dos2unix, 3, ByteOrder::LittleEndian);
    converter_3
        .convert(&[0x00, 0x00, 0x00, 0x00, 0x00, 0x00, 0x00, 0x00])
        .unwrap_err();
    converter_0
        .convert(&[0x00, 0x00, 0x00, 0x00, 0x00, 0x00, 0x00, 0x00])
        .unwrap_err();
}

#[test]
fn free_convert() {
    assert_eq!(
        convert(
            b"foo\r\nbar",
            &Conversion::Dos2unix,
            1,
            &ByteOrder::LittleEndian
        )
        .unwrap(),
        b"foo\nbar"
    );
    assert_eq!(
        convert(
            b"foo\nbar",
            &Conversion::Unix2dos,
            1,
            &ByteOrder::LittleEndian
        )
        .unwrap(),
        b"foo\r\nbar"
    );
}

#[test]
fn utf16_variants() {
    let d = Converter::utf16le(Conversion::Dos2unix);
    assert_eq!(
        d.convert(b"\0f\0o\0o\0\r\0\n\0b\0a\0r").unwrap(),
        b"\0f\0o\0o\0\n\0b\0a\0r"
    );
    let d = Converter::utf16be(Conversion::Dos2unix);
    assert_eq!(
        d.convert(b"f\0o\0o\0\r\0\n\0b\0a\0r\0").unwrap(),
        b"f\0o\0o\0\n\0b\0a\0r\0"
    );
}

#[test]
fn utf32_variants() {
    let d = Converter::utf32le(Conversion::Dos2unix);
    assert_eq!(
        d.convert(b"\0\0\0f\0\0\0\r\0\0\0\n\0\0\0b").unwrap(),
        b"\0\0\0f\0\0\0\n\0\0\0b"
    );
    let d = Converter::utf32be(Conversion::Dos2unix);
    assert_eq!(
        d.convert(b"f\0\0\0\r\0\0\0\n\0\0\0b\0\0\0").unwrap(),
        b"f\0\0\0\n\0\0\0b\0\0\0"
    );
}

#[test]
fn misaligned_input_every_width() {
    // every width in {2, 3, 4} and every misaligned length up to 20 fails
    // with the misalignment error carrying the exact length and width
    for width in [2usize, 3, 4] {
        for len in 0usize..=20 {
            let buf = vec![0x41u8; len];
            let c = Converter::new(Conversion::Dos2unix, width, ByteOrder::BigEndian);
            let r = c.convert(&buf);
            if len % width == 0 {
                assert!(r.is_ok());
            } else {
                match r {
                    Err(ConversionError::WrongInputLen(e)) => {
                        assert_eq!(e.input_len, len);
                        assert_eq!(e.char_size, width);
                    }
                    _ => panic!("expected a misalignment error"),
                }
            }
        }
    }
}

#[test]
fn width_three_any_content() {
    let c = Converter::new(Conversion::Unix2dos, 3, ByteOrder::LittleEndian);
    for len in [1usize, 2, 4, 5, 7, 8, 10] {
        let buf = vec![0x0Au8; len];
        match c.convert(&buf) {
            Err(ConversionError::WrongInputLen(e)) => {
                assert_eq!(e.input_len, len);
                assert_eq!(e.char_size, 3);
            }
            _ => panic!("expected a misalignment error"),
        }
    }
}

#[test]
fn char_size_zero_rejected() {
    let c = Converter::new(Conversion::Dos2unix, 0, ByteOrder::BigEndian);
    match c.convert(b"anything") {
        Err(ConversionError::CharSizeZero(_)) => {}
        _ => panic!("expected the zero-width configuration error"),
    }
    match convert(b"", &Conversion::Unix2dos, 0, &ByteOrder::LittleEndian) {
        Err(ConversionError::CharSizeZero(_)) => {}
        _ => panic!("expected the zero-width configuration error"),
    }
}

#[test]
fn error_descriptions() {
    let e = rnc::WrongInputLen {
        input_len: 7,
        char_size: 2,
    };
    assert_eq!(
        e.description(),
        "input length was not valid for given char size"
    );
    assert_eq!(
        rnc::CharSizeZero.description(),
        "Character size has to be non-zero"
    );
}

#[test]
fn build_char_patterns() {
    assert_eq!(build_char(CR, 1, &ByteOrder::BigEndian), vec![0x0D]);
    assert_eq!(build_char(CR, 1, &ByteOrder::LittleEndian), vec![0x0D]);
    assert_eq!(build_char(CR, 2, &ByteOrder::BigEndian), vec![0x0D, 0x00]);
    assert_eq!(
        build_char(CR, 2, &ByteOrder::LittleEndian),
        vec![0x00, 0x0D]
    );
    assert_eq!(
        build_char(LF, 4, &ByteOrder::BigEndian),
        vec![0x0A, 0x00, 0x00, 0x00]
    );
    assert_eq!(
        build_char(LF, 4, &ByteOrder::LittleEndian),
        vec![0x00, 0x00, 0x00, 0x0A]
    );
}

#[test]
fn byte_converter_no_op_forms() {
    // input already in target form passes through unchanged
    let d = Converter::utf8(Conversion::Dos2unix);
    assert_eq!(d.convert(b"a\nb\rc").unwrap(), b"a\nb\rc");
    let u = Converter::utf8(Conversion::Unix2dos);
    assert_eq!(u.convert(b"a\r\nb\rc").unwrap(), b"a\r\nb\rc");
    // empty input stays empty in both directions
    assert_eq!(d.convert(b"").unwrap(), b"");
    assert_eq!(u.convert(b"").unwrap(), b"");
}

#[test]
fn leading_lf_gains_cr() {
    // a LF as the very first unit has no predecessor and gains a CR
    let u = Converter::utf8(Conversion::Unix2dos);
    assert_eq!(u.convert(b"\nfoo").unwrap(), b"\r\nfoo");
    let u16 = Converter::utf16le(Conversion::Unix2dos);
    assert_eq!(u16.convert(b"\0\n\0A").unwrap(), b"\0\r\0\n\0A");
}

#[test]
fn crude_capacity_inputs_stay_safe() {
    // raw CR bytes inside unrelated units make the capacity pre-count
    // imprecise; the conversion must still be exact
    let d = Converter::utf16le(Conversion::Dos2unix);
    assert_eq!(d.convert(&[0x0D, 0x0D]).unwrap(), vec![0x0D, 0x0D]);
    let u = Converter::utf16le(Conversion::Unix2dos);
    assert_eq!(u.convert(&[0x0A, 0x0A]).unwrap(), vec![0x0A, 0x0A]);
}
