//! Whole-program scenarios: the store over its persisted form, and the
//! command interpreter over scripted input.

use pickup::printer::Printer;
use pickup::reader::Reader;
use pickup::storage::{FileStorage, Store};
use pickup::{Pickup, PickupError, PickupOpts};

fn no_opts() -> PickupOpts {
    PickupOpts {
        list_items: false,
        add_item: (false, String::new()),
        show_item: (false, 0),
        remove_item: (false, 0),
    }
}

#[test]
fn stored_milk_is_found_removed_and_persisted_empty() {
    let mut storage = FileStorage::new();
    storage
        .load_from_json(
            "[{\"id\":1,\"name\":\"milk\",\"obtained\":false,\"created_at\":\"2021-04-30T05:23:39Z\"}]",
        )
        .unwrap();
    assert_eq!(storage.get_items().unwrap().len(), 1);

    let item = storage.get_item(1).unwrap();
    assert_eq!(item.name, "milk");

    storage.remove_item(1).unwrap();
    assert_eq!(storage.get_items().unwrap().len(), 0);
    assert_eq!(storage.to_json(), "[]");
    assert!(matches!(storage.get_item(1), Err(PickupError::NotFound)));
}

#[test]
fn interactive_add_then_list_then_exit() {
    let input = b"add\nbread\nlist\nexit\n";
    let mut out: Vec<u8> = Vec::new();
    {
        let mut pickup =
            Pickup::new(Reader::new(&input[..]), Printer::new(&mut out), FileStorage::new());
        let res = pickup.run(no_opts());
        assert!(res.is_ok());

        let items = pickup.storage.get_items().unwrap();
        assert_eq!(items.len(), 1);
        assert_eq!(items[0].name, "bread");
        assert_eq!(items[0].id, 1);
        assert_eq!(items[0].obtained, false);
    }
    let printed = String::from_utf8(out).unwrap();
    assert!(printed.contains("Added item"));
    assert!(printed.contains("1: bread [ ]"));
}

#[test]
fn interactive_bogus_reports_and_exit_ends_cleanly() {
    let input = b"bogus\nexit\n";
    let mut out: Vec<u8> = Vec::new();
    {
        let mut pickup =
            Pickup::new(Reader::new(&input[..]), Printer::new(&mut out), FileStorage::new());
        let res = pickup.run(no_opts());
        assert!(res.is_ok());
    }
    let printed = String::from_utf8(out).unwrap();
    assert!(printed.contains("That was an invalid command."));
    assert_eq!(printed.matches("add: Add item").count(), 2);
}

#[test]
fn interactive_loop_ends_at_the_end_of_the_stream() {
    let input = b"list\n";
    let mut out: Vec<u8> = Vec::new();
    let mut pickup =
        Pickup::new(Reader::new(&input[..]), Printer::new(&mut out), FileStorage::new());
    let res = pickup.run(no_opts());
    assert!(res.is_ok());
}

#[test]
fn interactive_bad_id_reprompts() {
    let input = b"remove\nnot-a-number\nexit\n";
    let mut out: Vec<u8> = Vec::new();
    {
        let mut pickup =
            Pickup::new(Reader::new(&input[..]), Printer::new(&mut out), FileStorage::new());
        let res = pickup.run(no_opts());
        assert!(res.is_ok());
    }
    let printed = String::from_utf8(out).unwrap();
    assert!(printed.contains("That was an invalid command."));
}

#[test]
fn interactive_remove_of_missing_id_keeps_the_loop_going() {
    let input = b"remove\n9\nexit\n";
    let mut out: Vec<u8> = Vec::new();
    {
        let mut pickup =
            Pickup::new(Reader::new(&input[..]), Printer::new(&mut out), FileStorage::new());
        let res = pickup.run(no_opts());
        assert!(res.is_ok());
    }
    let printed = String::from_utf8(out).unwrap();
    assert!(printed.contains("No item has that id."));
}

#[test]
fn flags_run_without_the_interactive_loop() {
    let input = b"";
    let mut out: Vec<u8> = Vec::new();
    {
        let mut pickup =
            Pickup::new(Reader::new(&input[..]), Printer::new(&mut out), FileStorage::new());
        let opts = PickupOpts {
            list_items: true,
            add_item: (true, String::from("milk")),
            show_item: (false, 0),
            remove_item: (false, 0),
        };
        let res = pickup.run(opts);
        assert!(res.is_ok());

        let items = pickup.storage.get_items().unwrap();
        assert_eq!(items.len(), 1);
        assert_eq!(items[0].name, "milk");
    }
    let printed = String::from_utf8(out).unwrap();
    assert!(printed.contains("1: milk [ ]"));
    assert!(!printed.contains("What would you like to do?"));
}

const MENU: &str =
    "add: Add item\nlist: List items\nitem: Show item\nremove: Remove item\nexit: exit pickup\n";

#[test]
fn interactive_add_session_prints_exactly_this() {
    let input = b"add\nbread\nlist\nexit\n";
    let mut out: Vec<u8> = Vec::new();
    {
        let mut pickup =
            Pickup::new(Reader::new(&input[..]), Printer::new(&mut out), FileStorage::new());
        assert!(pickup.run(no_opts()).is_ok());
    }
    let expected = format!(
        "What would you like to do?\n{}> Added item\n1: bread [ ]\n\n{}> 1: bread [ ]\n\n{}> ",
        MENU, MENU, MENU
    );
    assert_eq!(String::from_utf8(out).unwrap(), expected);
}

#[test]
fn interactive_bogus_session_prints_exactly_this() {
    let input = b"bogus\nexit\n";
    let mut out: Vec<u8> = Vec::new();
    {
        let mut pickup =
            Pickup::new(Reader::new(&input[..]), Printer::new(&mut out), FileStorage::new());
        assert!(pickup.run(no_opts()).is_ok());
    }
    let expected = format!(
        "What would you like to do?\n{}> That was an invalid command.\n{}> ",
        MENU, MENU
    );
    assert_eq!(String::from_utf8(out).unwrap(), expected);
}

struct FailSink;

impl pickup::printer::SinkStream for FailSink {
    fn send(&mut self, _text: &str) -> Result<(), PickupError> {
        Err(PickupError::IoFailure)
    }
}

#[test]
fn failing_sink_surfaces_io_failure() {
    let input = b"exit\n";
    let mut pickup =
        Pickup::new(Reader::new(&input[..]), Printer::new(FailSink), FileStorage::new());
    let res = pickup.run(no_opts());
    assert_eq!(res, Err(PickupError::IoFailure));
}

#[test]
fn flag_remove_of_missing_id_aborts_with_not_found() {
    let input = b"";
    let mut out: Vec<u8> = Vec::new();
    let mut pickup =
        Pickup::new(Reader::new(&input[..]), Printer::new(&mut out), FileStorage::new());
    let opts = PickupOpts {
        list_items: false,
        add_item: (false, String::new()),
        show_item: (false, 0),
        remove_item: (true, 3),
    };
    let res = pickup.run(opts);
    assert_eq!(res, Err(PickupError::NotFound));
}
