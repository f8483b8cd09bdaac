//! The in-memory store: loading, lookups, mutations, and the persisted
//! form.

use pickup::storage::{FileStorage, Item, Store, next_id};
use pickup::PickupError;

fn storage_with_item() -> FileStorage {
    let mut storage = FileStorage::new();
    let json = "[{
        \"id\": 1,
        \"name\": \"foo item\",
        \"obtained\": false,
        \"created_at\": \"2021-04-30T05:23:39.821Z\"
    }]";
    storage.load_from_json(json).unwrap();
    storage
}

#[test]
fn test_load_items() {
    let storage = storage_with_item();
    assert_eq!(storage.get_items().unwrap().len(), 1);
}

#[test]
fn test_add_item() {
    let mut storage = storage_with_item();
    let item: Item = Item {
        id: 2,
        name: String::from("sup"),
        obtained: true,
        created_at: String::from("foo date"),
    };
    storage.add_item(item).unwrap();

    assert_eq!(storage.get_items().unwrap().len(), 2);
}

#[test]
fn test_get_item() {
    let storage = storage_with_item();
    let item = storage.get_item(1).unwrap();

    assert_eq!(item.name, "foo item");
    assert_eq!(item.obtained, false);
}

#[test]
fn test_remove_item() {
    let mut storage = storage_with_item();
    storage.remove_item(1).unwrap();

    assert_eq!(storage.get_items().unwrap().len(), 0);
}

#[test]
fn add_then_persist_and_load_keeps_the_size() {
    let mut storage = storage_with_item();
    let item = Item {
        id: 2,
        name: String::from("sup"),
        obtained: true,
        created_at: String::from("foo date"),
    };
    storage.add_item(item).unwrap();
    let n = storage.get_items().unwrap().len();

    let json = storage.to_json();
    let mut reloaded = FileStorage::new();
    reloaded.load_from_json(&json).unwrap();
    assert_eq!(reloaded.get_items().unwrap().len(), n);
    let last = reloaded.get_item(2).unwrap();
    assert_eq!(last.name, "sup");
    assert_eq!(last.obtained, true);
    assert_eq!(last.created_at, "foo date");
}

#[test]
fn get_returns_the_first_of_duplicate_ids() {
    let mut storage = FileStorage::new();
    let json = "[{\"id\":7,\"name\":\"first\",\"obtained\":false,\"created_at\":\"a\"},\
                 {\"id\":7,\"name\":\"second\",\"obtained\":true,\"created_at\":\"b\"}]";
    storage.load_from_json(json).unwrap();

    let item = storage.get_item(7).unwrap();
    assert_eq!(item.name, "first");
}

#[test]
fn get_missing_id_is_not_found() {
    let storage = storage_with_item();
    assert!(matches!(storage.get_item(2), Err(PickupError::NotFound)));
}

#[test]
fn remove_missing_id_fails_and_changes_nothing() {
    let mut storage = storage_with_item();
    assert!(matches!(storage.remove_item(2), Err(PickupError::NotFound)));
    assert_eq!(storage.get_items().unwrap().len(), 1);
    assert_eq!(storage.get_item(1).unwrap().name, "foo item");
}

#[test]
fn remove_takes_the_first_of_duplicate_ids() {
    let mut storage = FileStorage::new();
    let json = "[{\"id\":7,\"name\":\"first\",\"obtained\":false,\"created_at\":\"a\"},\
                 {\"id\":7,\"name\":\"second\",\"obtained\":true,\"created_at\":\"b\"}]";
    storage.load_from_json(json).unwrap();

    storage.remove_item(7).unwrap();
    let items = storage.get_items().unwrap();
    assert_eq!(items.len(), 1);
    assert_eq!(items[0].name, "second");
}

#[test]
fn listing_twice_gives_identical_sequences() {
    let storage = storage_with_item();
    let first: Vec<Item> = storage.get_items().unwrap().clone();
    let second: Vec<Item> = storage.get_items().unwrap().clone();
    assert_eq!(first.len(), second.len());
    for i in 0..first.len() {
        assert_eq!(first[i].id, second[i].id);
        assert_eq!(first[i].name, second[i].name);
        assert_eq!(first[i].obtained, second[i].obtained);
        assert_eq!(first[i].created_at, second[i].created_at);
    }
}

#[test]
fn next_id_is_one_past_the_largest() {
    let empty: Vec<Item> = Vec::new();
    assert_eq!(next_id(&empty), Some(1));

    let mut storage = FileStorage::new();
    let json = "[{\"id\":5,\"name\":\"a\",\"obtained\":false,\"created_at\":\"\"},\
                 {\"id\":2,\"name\":\"b\",\"obtained\":false,\"created_at\":\"\"}]";
    storage.load_from_json(json).unwrap();
    assert_eq!(next_id(storage.get_items().unwrap()), Some(6));

    let biggest = vec![Item {
        id: u64::MAX,
        name: String::from("edge"),
        obtained: false,
        created_at: String::new(),
    }];
    assert_eq!(next_id(&biggest), None);
}

#[test]
fn item_renders_as_one_line() {
    let open_item = Item {
        id: 1,
        name: String::from("milk"),
        obtained: false,
        created_at: String::from("2021-04-30T05:23:39Z"),
    };
    assert_eq!(open_item.to_line(), "1: milk [ ]");

    let done_item = Item {
        id: 42,
        name: String::from("bread"),
        obtained: true,
        created_at: String::new(),
    };
    assert_eq!(done_item.to_line(), "42: bread [X]");
}

#[test]
fn config_paths_end_as_expected() {
    let storage = FileStorage::new();
    if let Ok(dir) = storage.config_dir_path() {
        assert!(dir.ends_with("/.pickup"));
    }
    if let Ok(file) = storage.json_file_path() {
        assert!(file.ends_with("/.pickup/items.json"));
    }
}
