//! The output sink and the input source, exercised over byte buffers.

use pickup::printer::{Print, Printer};
use pickup::reader::{ReadInput, Reader};
use pickup::PickupError;

#[test]
fn write_works() {
    let txt = "Make some noise!";
    let mut writer = Vec::new();
    let mut printer = Printer::new(&mut writer);

    let result = printer.print(txt);
    assert!(result.is_ok());

    let actual = String::from_utf8(writer.clone()).expect("not utf8");
    let expected = txt;

    assert_eq!(actual, expected);
}

#[test]
fn println_adds_one_terminator() {
    let mut writer = Vec::new();
    let mut printer = Printer::new(&mut writer);

    printer.println("hello").unwrap();

    let actual = String::from_utf8(writer.clone()).expect("not utf8");
    assert_eq!(actual, "hello\n");
}

#[test]
fn gives_back_trimmed_string() {
    let bytes = b"  I have spaces in this string  ";
    let mut reader = Reader::new(&bytes[..]);

    let actual = reader.read_input().unwrap();
    let expected = "I have spaces in this string".to_string();
    assert_eq!(actual, expected);
}

#[test]
fn reader_returns_lines_then_empty() {
    let bytes = b"first\n\tsecond \n";
    let mut reader = Reader::new(&bytes[..]);

    assert_eq!(reader.read_input().unwrap(), "first");
    assert_eq!(reader.read_input().unwrap(), "second");
    assert_eq!(reader.read_input().unwrap(), "");
    assert_eq!(reader.read_input().unwrap(), "");
}

#[test]
fn trim_handles_tabs_and_newlines() {
    assert_eq!(pickup::text::trim_str("\t\n  a b\tc \r\n"), "a b\tc");
    assert_eq!(pickup::text::trim_str(""), "");
    assert_eq!(pickup::text::trim_str(" \t "), "");
    assert_eq!(pickup::text::trim_str("plain"), "plain");
}

struct FailSink;

impl pickup::printer::SinkStream for FailSink {
    fn send(&mut self, _text: &str) -> Result<(), PickupError> {
        Err(PickupError::IoFailure)
    }
}

#[test]
fn print_failure_surfaces_as_io_failure() {
    let mut printer = Printer::new(FailSink);
    assert_eq!(printer.print("x"), Err(PickupError::IoFailure));
    assert_eq!(printer.println("x"), Err(PickupError::IoFailure));
}
