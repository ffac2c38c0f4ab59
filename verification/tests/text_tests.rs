use std::borrow::Cow;

use rnc::dos2unix;
use rnc::unix2dos;
use rnc::AsRefStrExt;

#[test]
fn middle() {
    assert_eq!(dos2unix("foo\r\nbar"), "foo\nbar".to_dos().to_unix());
    assert_eq!(unix2dos("foo\nbar"), "foo\r\nbar");
}

#[test]
fn beginning() {
    assert_eq!(dos2unix("\r\nfoobar"), "\nfoobar");
    assert_eq!(unix2dos("\nfoobar"), "\r\nfoobar");
}

#[test]
fn end() {
    assert_eq!(dos2unix("foobar\r\n"), "foobar\n");
    assert_eq!(unix2dos("foobar\n"), "foobar\r\n");
}

#[test]
fn all() {
    assert_eq!(dos2unix("\r\nfoo\r\nbar\r\n"), "\nfoo\nbar\n");
    assert_eq!(unix2dos("\nfoo\nbar\n"), "\r\nfoo\r\nbar\r\n");
}

#[test]
fn advanced() {
    assert_eq!(unix2dos("\rfoo\r\nbar\n"), "\rfoo\r\nbar\r\n");
    assert_eq!(dos2unix("\nfoo\rbar\r\n"), "\nfoo\rbar\n");
}

#[test]
fn not_mutated_dos2unix() {
    let converted = dos2unix("\nfoo\nbar\n");
    assert_eq!(converted, Cow::Borrowed("\nfoo\nbar\n") as Cow<str>);
}

#[test]
fn mutated_dos2unix() {
    let converted = dos2unix("\r\nfoo\r\nbar\r\n");
    assert_eq!(
        converted,
        Cow::Owned(String::from("\nfoo\nbar\n")) as Cow<str>
    );
}

#[test]
fn not_mutated_unix2dos() {
    let converted = unix2dos("\r\nfoo\r\nbar\r\n");
    assert_eq!(converted, Cow::Borrowed("\r\nfoo\r\nbar\r\n") as Cow<str>);
}

#[test]
fn mutated_unix2dos() {
    let converted = unix2dos("\nfoo\nbar\n");
    assert_eq!(
        converted,
        Cow::Owned(String::from("\r\nfoo\r\nbar\r\n")) as Cow<str>
    );
}

#[test]
fn non_ascii_characters_unix2dos() {
    assert_eq!(
        unix2dos("Zażółć\ngęślą\njaźń\n"),
        "Zażółć\r\ngęślą\r\njaźń\r\n"
    );
}

#[test]
fn non_ascii_characters_dos2unix() {
    assert_eq!(
        dos2unix("Zażółć\r\ngęślą\r\njaźń\r\n"),
        "Zażółć\ngęślą\njaźń\n"
    );
}

#[test]
fn panics_in_0_2_1_unix2dos() {
    assert_eq!(unix2dos("ä\n"), "ä\r\n");
}

#[test]
fn panics_in_0_2_1_dos2unix() {
    assert_eq!(dos2unix("ä\r\n"), "ä\n");
}

#[test]
fn just_linebreak_dos2unix() {
    assert_eq!(dos2unix("\r\n"), "\n");
}

#[test]
fn just_linebreak_unix2dos() {
    assert_eq!(unix2dos("\r\n"), "\r\n");
}

#[test]
fn lazy_no_copy_dos2unix() {
    // input already in UNIX form: the result borrows the input's storage
    let input = "line one\nline two\rstill two\n";
    let converted = dos2unix(input);
    assert!(matches!(converted, Cow::Borrowed(_)));
    // a single pair forces exactly one owned buffer
    let converted = dos2unix("line one\r\n");
    assert!(matches!(converted, Cow::Owned(_)));
}

#[test]
fn lazy_no_copy_unix2dos() {
    // input already in DOS form: the result borrows the input's storage
    let input = "\r\nline one\r\nline two\r";
    let converted = unix2dos(input);
    assert!(matches!(converted, Cow::Borrowed(_)));
    // one bare LF forces exactly one owned buffer
    let converted = unix2dos("line one\n");
    assert!(matches!(converted, Cow::Owned(_)));
}

#[test]
fn empty_input() {
    assert_eq!(dos2unix(""), "");
    assert_eq!(unix2dos(""), "");
    assert!(matches!(dos2unix(""), Cow::Borrowed(_)));
    assert!(matches!(unix2dos(""), Cow::Borrowed(_)));
}

#[test]
fn all_cr_and_all_lf() {
    assert_eq!(dos2unix("\r\r\r"), "\r\r\r");
    assert_eq!(unix2dos("\r\r\r"), "\r\r\r");
    assert_eq!(dos2unix("\n\n\n"), "\n\n\n");
    assert_eq!(unix2dos("\n\n\n"), "\r\n\r\n\r\n");
}

#[test]
fn round_trip_unix_first() {
    // for text with no CRLF pair, converting to UNIX form is a no-op and
    // the DOS form equals each LF gaining a CR
    let x = "a\rb\nc\n";
    let unix = dos2unix(x);
    assert_eq!(unix, x);
    assert_eq!(unix2dos(&unix), "a\rb\r\nc\r\n");
}

#[test]
fn round_trip_dos_first() {
    // dos2unix(unix2dos(x)) == dos2unix(x) for any x
    for x in ["", "\n", "\r\n", "a\rb\n", "x\r\ny\nz\r", "\r\r\n"] {
        let there = unix2dos(x).into_owned();
        let back = dos2unix(&there).into_owned();
        assert_eq!(back, dos2unix(x).into_owned());
    }
}

#[test]
fn no_unpaired_lf_after_unix2dos() {
    for x in ["", "\n", "\n\n", "a\nb\r\nc", "\r\r\n", "\rx\n"] {
        let dos = unix2dos(x).into_owned();
        let lf = dos.matches('\n').count();
        let crlf = dos.matches("\r\n").count();
        assert_eq!(lf, crlf);
    }
}

#[test]
fn no_crlf_after_dos2unix() {
    for x in ["", "\r\n", "a\r\nb\r\n", "\r x\n", "lone\rcr"] {
        let unix = dos2unix(x).into_owned();
        assert!(!unix.contains("\r\n"));
    }
    // the one shape that keeps a CR directly before an LF: a CR CR LF run,
    // whose middle CR is the one that is dropped
    assert_eq!(dos2unix("\r\r\n"), "\r\n");
}

#[test]
fn extension_trait() {
    assert_eq!("foo\r\nbar", "foo\nbar".to_dos());
    assert_eq!("foo\nbar", "foo\r\nbar".to_unix());
    let owned = String::from("a\nb");
    assert_eq!("a\r\nb", owned.to_dos());
    assert_eq!("a\nb", owned.to_unix());
}
