//! The JSON codec: the canonical form, the accepted grammar, and the
//! round trip.

use pickup::decode::json_to_items;
use pickup::encode::items_to_json;
use pickup::storage::{FileStorage, Item, Store};
use pickup::text::{parse_usize, u64_to_string};
use pickup::PickupError;

fn item(id: u64, name: &str, obtained: bool, created_at: &str) -> Item {
    Item { id, name: String::from(name), obtained, created_at: String::from(created_at) }
}

fn assert_items_eq(actual: &[Item], expected: &[Item]) {
    assert_eq!(actual.len(), expected.len());
    for i in 0..actual.len() {
        assert_eq!(actual[i].id, expected[i].id);
        assert_eq!(actual[i].name, expected[i].name);
        assert_eq!(actual[i].obtained, expected[i].obtained);
        assert_eq!(actual[i].created_at, expected[i].created_at);
    }
}

#[test]
fn canonical_form_is_compact() {
    let items = vec![item(1, "milk", false, "2021-04-30T05:23:39Z")];
    assert_eq!(
        items_to_json(&items),
        "[{\"id\":1,\"name\":\"milk\",\"obtained\":false,\"created_at\":\"2021-04-30T05:23:39Z\"}]"
    );
    let empty: Vec<Item> = Vec::new();
    assert_eq!(items_to_json(&empty), "[]");
}

#[test]
fn round_trip_restores_every_field() {
    let items = vec![
        item(1, "plain", false, "2021-04-30T05:23:39Z"),
        item(u64::MAX, "quote \" backslash \\ slash /", true, ""),
        item(3, "control \u{1} tab \t newline \n", false, "t"),
        item(4, "unicode \u{e9}\u{4e2d}\u{1f600}", true, "later"),
    ];
    let json = items_to_json(&items);
    let back = json_to_items(&json).expect("canonical text must parse");
    assert_items_eq(&back, &items);
}

#[test]
fn empty_array_parses_to_no_items() {
    assert_items_eq(&json_to_items("[]").unwrap(), &[]);
    assert_items_eq(&json_to_items("  [ ]  ").unwrap(), &[]);
}

#[test]
fn whitespace_and_field_order_do_not_matter() {
    let json = " [ { \"name\" : \"x\" ,\n \"created_at\" : \"t\" ,\
                 \t\"obtained\" : true , \"id\" : 3 } ] ";
    let got = json_to_items(json).unwrap();
    assert_items_eq(&got, &[item(3, "x", true, "t")]);
}

#[test]
fn escapes_are_decoded() {
    let json = "[{\"id\":1,\"name\":\"a\\\"b\\\\c\\/d\\u0041\\n\\t\\r\\b\\f\",\
                 \"obtained\":false,\"created_at\":\"\\u0009\"}]";
    let got = json_to_items(json).unwrap();
    assert_eq!(got[0].name, "a\"b\\c/dA\n\t\r\u{8}\u{c}");
    assert_eq!(got[0].created_at, "\t");
}

#[test]
fn unicode_escapes_cover_the_whole_range() {
    // a non-ASCII code unit, and a supplementary code point as a surrogate pair
    let json = "[{\"id\":1,\"name\":\"caf\\u00e9 \\u4e2d \\ud83d\\ude00\",\
                 \"obtained\":false,\"created_at\":\"\"}]";
    let got = json_to_items(json).unwrap();
    assert_eq!(got[0].name, "caf\u{e9} \u{4e2d} \u{1f600}");

    // a lone high surrogate, a lone low surrogate, and a broken pair
    assert!(json_to_items(
        "[{\"id\":1,\"name\":\"\\ud83d\",\"obtained\":false,\"created_at\":\"\"}]"
    )
    .is_none());
    assert!(json_to_items(
        "[{\"id\":1,\"name\":\"\\ude00\",\"obtained\":false,\"created_at\":\"\"}]"
    )
    .is_none());
    assert!(json_to_items(
        "[{\"id\":1,\"name\":\"\\ud83d\\u0041\",\"obtained\":false,\"created_at\":\"\"}]"
    )
    .is_none());
}

#[test]
fn id_must_fit_in_u64() {
    let max = "[{\"id\":18446744073709551615,\"name\":\"a\",\"obtained\":false,\"created_at\":\"\"}]";
    assert_eq!(json_to_items(max).unwrap()[0].id, u64::MAX);

    let over = "[{\"id\":18446744073709551616,\"name\":\"a\",\"obtained\":false,\"created_at\":\"\"}]";
    assert!(json_to_items(over).is_none());
}

#[test]
fn malformed_text_is_rejected() {
    assert!(json_to_items("").is_none());
    assert!(json_to_items("{}").is_none());
    assert!(json_to_items("[{}]").is_none());
    assert!(json_to_items("[{\"id\":1}]").is_none());
    assert!(json_to_items("not json").is_none());
    assert!(json_to_items("[,]").is_none());
    assert!(
        json_to_items("[{\"id\":1,\"name\":\"a\",\"obtained\":false,\"created_at\":\"\"}")
            .is_none()
    );
    assert!(
        json_to_items("[{\"id\":1,\"name\":\"a\",\"obtained\":false,\"created_at\":\"\"}] x")
            .is_none()
    );
    // a repeated field
    assert!(
        json_to_items("[{\"id\":1,\"id\":2,\"name\":\"a\",\"obtained\":false,\"created_at\":\"\"}]")
            .is_none()
    );
    // a field outside the schema
    assert!(
        json_to_items(
            "[{\"id\":1,\"name\":\"a\",\"obtained\":false,\"created_at\":\"\",\"extra\":1}]"
        )
        .is_none()
    );
    // a raw control character inside a string
    assert!(json_to_items("[{\"id\":1,\"name\":\"a\u{1}b\",\"obtained\":false,\"created_at\":\"\"}]")
        .is_none());
    // a negative id is not an unsigned number
    assert!(
        json_to_items("[{\"id\":-1,\"name\":\"a\",\"obtained\":false,\"created_at\":\"\"}]")
            .is_none()
    );
}

#[test]
fn load_reports_parse_error_and_keeps_the_collection() {
    let mut storage = FileStorage::new();
    storage
        .load_from_json("[{\"id\":1,\"name\":\"keep\",\"obtained\":false,\"created_at\":\"\"}]")
        .unwrap();
    assert_eq!(storage.load_from_json("broken"), Err(PickupError::ParseError));
    assert_eq!(storage.get_items().unwrap().len(), 1);
    assert_eq!(storage.get_item(1).unwrap().name, "keep");
}

#[test]
fn numbers_render_in_decimal() {
    assert_eq!(u64_to_string(0), "0");
    assert_eq!(u64_to_string(10), "10");
    assert_eq!(u64_to_string(18446744073709551615), "18446744073709551615");
}

#[test]
fn id_tokens_parse_as_plain_numbers() {
    assert_eq!(parse_usize("0"), Some(0));
    assert_eq!(parse_usize("42"), Some(42));
    assert_eq!(parse_usize("007"), Some(7));
    assert_eq!(parse_usize(""), None);
    assert_eq!(parse_usize("12a"), None);
    assert_eq!(parse_usize("-1"), None);
    assert_eq!(parse_usize("99999999999999999999999999"), None);
}
