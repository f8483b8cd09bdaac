//! Items, the store interface, and the in-memory store that backs it.
//!
//! A [`Store`] owns the authoritative list of items. [`FileStorage`] keeps
//! that list in memory; reading the backing file and writing it back are left
//! to the caller, who exchanges JSON text with the store through
//! [`FileStorage::load_from_json`] and [`FileStorage::to_json`].

use vstd::prelude::*;
use vstd::string::StringExecFns;
use crate::PickupError;
use crate::text;

verus! {

/// One thing to pick up. `created_at` is a timestamp string supplied by
/// whoever creates the item; the store does not interpret it.
#[derive(Clone)]
pub struct Item {
    pub id: u64,
    pub name: String,
    pub obtained: bool,
    pub created_at: String,
}

/// The mathematical value of an [`Item`]: the same four fields with the
/// strings replaced by their character sequences.
pub ghost struct ItemView {
    pub id: u64,
    pub name: Seq<char>,
    pub obtained: bool,
    pub created_at: Seq<char>,
}

impl View for Item {
    type V = ItemView;

    open spec fn view(&self) -> ItemView {
        ItemView {
            id: self.id,
            name: self.name@,
            obtained: self.obtained,
            created_at: self.created_at@,
        }
    }
}

impl DeepView for Item {
    type V = ItemView;

    open spec fn deep_view(&self) -> ItemView {
        self.view()
    }
}

impl Item {
    /// The one-line rendering of an item: its id, its name, and a checkbox
    /// that is ticked when the item was obtained.
    pub open spec fn line_view(self_v: ItemView) -> Seq<char> {
        text::dec_str(self_v.id as nat) + ": "@ + self_v.name + (if self_v.obtained {
            " [X]"@
        } else {
            " [ ]"@
        })
    }

    /// Renders the item for display, as `id: name [X]` or `id: name [ ]`.
    pub fn to_line(&self) -> (r: String)
        ensures
            r@ == Item::line_view(self@),
    {
        let mut s = crate::text::u64_to_string(self.id);
        s.append(": ");
        s.append(self.name.as_str());
        if self.obtained {
            s.append(" [X]");
        } else {
            s.append(" [ ]");
        }
        s
    }
}

/// Some item of the collection carries this id.
pub open spec fn has_id(items: Seq<ItemView>, id: u64) -> bool {
    exists|i: int| 0 <= i < items.len() && (#[trigger] items[i]).id == id
}

/// The index of the first item with this id; meaningful only when
/// `has_id(items, id)` holds.
pub open spec fn find_idx(items: Seq<ItemView>, id: u64) -> int
    decreases items.len(),
{
    if items.len() == 0 {
        0
    } else if items[0].id == id {
        0
    } else {
        1 + find_idx(items.drop_first(), id)
    }
}

/// When an id is present, `find_idx` points at its first occurrence.
pub proof fn lemma_find_idx(items: Seq<ItemView>, id: u64)
    requires
        has_id(items, id),
    ensures
        0 <= find_idx(items, id) < items.len(),
        items[find_idx(items, id)].id == id,
        forall|j: int| 0 <= j < find_idx(items, id) ==> (#[trigger] items[j]).id != id,
    decreases items.len(),
{
    if items[0].id == id {
    } else {
        let i = choose|i: int| 0 <= i < items.len() && (#[trigger] items[i]).id == id;
        assert(items.drop_first()[i - 1] == items[i]);
        assert(has_id(items.drop_first(), id));
        lemma_find_idx(items.drop_first(), id);
        let k = find_idx(items, id);
        assert(items[k] == items.drop_first()[k - 1]);
        assert forall|j: int| 0 <= j < k implies (#[trigger] items[j]).id != id by {
            if j > 0 {
                assert(items[j] == items.drop_first()[j - 1]);
            }
        }
    }
}

/// The largest id in use, or zero for an empty collection.
pub open spec fn max_id(items: Seq<ItemView>) -> nat
    decreases items.len(),
{
    if items.len() == 0 {
        0
    } else {
        let m = max_id(items.drop_last());
        if items.last().id as nat > m {
            items.last().id as nat
        } else {
            m
        }
    }
}

/// No id in the collection exceeds `max_id`.
pub proof fn lemma_max_id_ge(items: Seq<ItemView>, i: int)
    requires
        0 <= i < items.len(),
    ensures
        items[i].id as nat <= max_id(items),
    decreases items.len(),
{
    if i < items.len() - 1 {
        assert(items.drop_last()[i] == items[i]);
        lemma_max_id_ge(items.drop_last(), i);
    }
}

/// The next unused id: one past the largest id in use, so no item carries
/// it yet. `None` only when an item already carries the largest id a `u64`
/// can hold.
pub fn next_id(items: &Vec<Item>) -> (r: Option<u64>)
    ensures
        match r {
            Some(v) => v as nat == max_id(items.deep_view()) + 1 && forall|i: int|
                0 <= i < items.deep_view().len() ==> (#[trigger] items.deep_view()[i]).id != v,
            None => max_id(items.deep_view()) == u64::MAX as nat,
        },
{
    let ghost dv = items.deep_view();
    let n = items.len();
    let mut m: u64 = 0;
    let mut i: usize = 0;
    while i < n
        invariant
            i <= n,
            n == items@.len(),
            dv == items.deep_view(),
            m as nat == max_id(dv.take(i as int)),
        decreases n - i,
    {
        let id = items[i].id;
        proof {
            assert(dv.take(i + 1).drop_last() =~= dv.take(i as int));
            assert(dv.take(i + 1).last() == dv[i as int]);
            assert(dv[i as int].id == id);
        }
        if id > m {
            m = id;
        }
        i = i + 1;
    }
    proof {
        assert(dv.take(n as int) =~= dv);
    }
    if m == u64::MAX {
        None
    } else {
        proof {
            assert forall|j: int| 0 <= j < dv.len() implies (#[trigger] dv[j]).id != m + 1 by {
                lemma_max_id_ge(dv, j);
            }
        }
        Some(m + 1)
    }
}

/// The store interface: point lookups and mutations over the owned item
/// collection, and the load/persist pair that exchanges it with whatever
/// backing the implementation has. Implementations whose persistence can
/// fail report `IoFailure` after a mutation has already taken effect in
/// memory; nothing is rolled back.
pub trait Store: Sized {
    /// The current in-memory collection, in file order. An implementation
    /// defines it; the default — no items — stands only for implementations
    /// outside the library, which nothing verified resolves.
    open spec fn items(&self) -> Seq<ItemView> {
        Seq::<ItemView>::empty()
    }

    /// Whether this store can never fail on its own account: its backing
    /// cannot break, so the only error left is a missing id. The in-memory
    /// store qualifies; a file-backed one does not. The default — it can
    /// fail — stands for implementations outside the library.
    open spec fn never_fails(&self) -> bool {
        false
    }

    /// Replaces the collection with what the backing holds. What that is
    /// depends on the backing, so nothing is promised of the new contents;
    /// a failure is a missing backing, text it cannot parse, or a failed
    /// read.
    fn load_items(&mut self) -> (r: Result<(), PickupError>)
        ensures
            r matches Err(e) ==> e == PickupError::NotFound || e == PickupError::ParseError || e
                == PickupError::IoFailure,
            (*old(self)).never_fails() ==> r is Ok && (*final(self)).never_fails()
                && (*final(self)).items() == (*old(self)).items(),
    ;

    /// Writes the collection out to the backing; a failure is a failed
    /// write.
    fn persist_items(&self) -> (r: Result<(), PickupError>)
        ensures
            r matches Err(e) ==> e == PickupError::IoFailure,
            self.never_fails() ==> r is Ok,
    ;

    /// The collection itself, in order.
    fn get_items(&self) -> (r: Result<&Vec<Item>, PickupError>)
        ensures
            match r {
                Ok(v) => v.deep_view() == self.items(),
                Err(_) => false,
            },
    ;

    /// The first item with the given id, or `NotFound`.
    fn get_item(&self, id: u64) -> (r: Result<&Item, PickupError>)
        ensures
            match r {
                Ok(item) => {
                    &&& has_id(self.items(), id)
                    &&& item@ == self.items()[find_idx(self.items(), id)]
                },
                Err(e) => !has_id(self.items(), id) && e == PickupError::NotFound,
            },
    ;

    /// Appends the item and persists. The append always takes effect; an
    /// error can only be a persist failure.
    fn add_item(&mut self, item: Item) -> (r: Result<(), PickupError>)
        ensures
            final(self).items() == old(self).items().push(item@),
            r matches Err(e) ==> e == PickupError::IoFailure,
            (*old(self)).never_fails() ==> r is Ok && (*final(self)).never_fails(),
    ;

    /// Removes the first item with the given id and persists, or fails with
    /// `NotFound` leaving the collection unchanged. As with `add_item`, a
    /// persist failure surfaces as `IoFailure` with the removal kept.
    fn remove_item(&mut self, id: u64) -> (r: Result<(), PickupError>)
        ensures
            match r {
                Ok(()) => {
                    &&& has_id(old(self).items(), id)
                    &&& final(self).items() == old(self).items().remove(
                        find_idx(old(self).items(), id),
                    )
                },
                Err(e) => {
                    ||| {
                        &&& e == PickupError::NotFound
                        &&& !has_id(old(self).items(), id)
                        &&& final(self).items() == old(self).items()
                    }
                    ||| {
                        &&& e == PickupError::IoFailure
                        &&& has_id(old(self).items(), id)
                        &&& final(self).items() == old(self).items().remove(
                            find_idx(old(self).items(), id),
                        )
                    }
                },
            },
            (*old(self)).never_fails() ==> (*final(self)).never_fails() && (r matches Err(e)
                ==> e == PickupError::NotFound),
    ;
}

/// Listing is idempotent: two calls of `get_items` with no mutation between
/// them return identical sequences, because each returns exactly the
/// store's collection (the `ensures` of [`Store::get_items`]).
pub proof fn lemma_list_idempotent(items: Seq<ItemView>, first: Seq<ItemView>, second: Seq<ItemView>)
    requires
        first == items,
        second == items,
    ensures
        first == second,
{
}

/// The in-memory item collection. Its JSON text is produced and consumed
/// here; moving that text to and from a file on disk is the caller's part.
pub struct FileStorage {
    items: Vec<Item>,
}

impl Default for FileStorage {
    fn default() -> (r: Self)
        ensures
            r.items() == Seq::<ItemView>::empty(),
    {
        let r = Self { items: Vec::new() };
        proof {
            assert(r.items.deep_view() =~= Seq::<ItemView>::empty());
        }
        r
    }
}

impl FileStorage {
    /// An empty store.
    pub fn new() -> (r: Self)
        ensures
            r.items() == Seq::<ItemView>::empty(),
    {
        FileStorage::default()
    }

    /// The path of the backing file, `<home>/.pickup/items.json`: the
    /// resolved home directory with the fixed tail appended by
    /// [`items_file_of`]. Fails with `NotFound` exactly when no home
    /// directory can be resolved.
    pub fn json_file_path(&self) -> (r: Result<String, PickupError>)
        ensures
            match r {
                Ok(p) => exists|home: Seq<char>| p@ == home + "/.pickup/items.json"@,
                Err(e) => e == PickupError::NotFound,
            },
    {
        let config_path = self.config_dir_path()?;
        let ghost c: Seq<char> = config_path@;
        let p = items_file_of(config_path.as_str());
        proof {
            let home = choose|home: Seq<char>| c == home + "/.pickup"@;
            assert(p@ =~= home + ("/.pickup"@ + "/items.json"@));
            reveal_strlit("/.pickup");
            reveal_strlit("/items.json");
            reveal_strlit("/.pickup/items.json");
            assert("/.pickup"@ + "/items.json"@ =~= "/.pickup/items.json"@);
            assert(p@ == home + "/.pickup/items.json"@);
        }
        Ok(p)
    }

    /// Replaces the collection with the items parsed from JSON text, as read
    /// from the backing file. Text that the grammar rejects leaves the
    /// collection untouched and reports `ParseError`.
    pub fn load_from_json(&mut self, text: &str) -> (r: Result<(), PickupError>)
        ensures
            match r {
                Ok(()) => crate::codec::parse_top(text@) == Some(final(self).items()),
                Err(e) => {
                    &&& e == PickupError::ParseError
                    &&& crate::codec::parse_top(text@) is None
                    &&& final(self).items() == old(self).items()
                },
            },
    {
        match crate::decode::json_to_items(text) {
            Some(v) => {
                self.items = v;
                Ok(())
            },
            None => Err(PickupError::ParseError),
        }
    }

    /// The collection as JSON text, ready to be written to the backing file.
    /// Loading this text back restores the collection exactly
    /// ([`crate::codec::lemma_parse_of_ser_items`]).
    pub fn to_json(&self) -> (r: String)
        ensures
            r@ == crate::codec::ser_items(self.items()),
    {
        crate::encode::items_to_json(&self.items)
    }

    /// The configuration directory, `<home>/.pickup`: the resolved home
    /// directory with the fixed name appended by [`config_dir_of`]. Fails
    /// with `NotFound` exactly when no home directory can be resolved.
    pub fn config_dir_path(&self) -> (r: Result<String, PickupError>)
        ensures
            match r {
                Ok(p) => exists|home: Seq<char>| p@ == home + "/.pickup"@,
                Err(e) => e == PickupError::NotFound,
            },
    {
        match home_dir_string() {
            Some(home) => {
                let p = config_dir_of(home.as_str());
                proof {
                    assert(p@ == home@ + "/.pickup"@);
                }
                Ok(p)
            },
            None => Err(PickupError::NotFound),
        }
    }
}

/// The configuration directory under the given home directory: exactly the
/// home with `/.pickup` appended.
pub fn config_dir_of(home: &str) -> (r: String)
    ensures
        r@ == home@ + "/.pickup"@,
{
    let mut p = String::from_str(home);
    p.append("/.pickup");
    p
}

/// The items file under the given configuration directory: exactly the
/// directory with `/items.json` appended.
pub fn items_file_of(config_dir: &str) -> (r: String)
    ensures
        r@ == config_dir@ + "/items.json"@,
{
    let mut p = String::from_str(config_dir);
    p.append("/items.json");
    p
}

/// Relies on `dirs::home_dir`: the user's home directory, if the system
/// reports one. The answer depends on the environment, so nothing is
/// promised of the value.
#[verifier::external_body]
fn home_dir_string() -> (r: Option<String>)
{
    match dirs::home_dir() {
        Some(home) => Some(format!("{}", home.display())),
        None => None,
    }
}

impl Store for FileStorage {
    closed spec fn items(&self) -> Seq<ItemView> {
        self.items.deep_view()
    }

    /// The in-memory store has nothing that can break.
    open spec fn never_fails(&self) -> bool {
        true
    }

    /// The in-memory store has no separate backing: loading changes nothing.
    fn load_items(&mut self) -> (r: Result<(), PickupError>)
        ensures
            final(self).items() == old(self).items(),
            r is Ok,
    {
        Ok(())
    }

    /// The in-memory store has no separate backing: persisting is complete
    /// as soon as the collection is in memory.
    fn persist_items(&self) -> (r: Result<(), PickupError>)
        ensures
            r is Ok,
    {
        Ok(())
    }

    fn get_items(&self) -> (r: Result<&Vec<Item>, PickupError>)
        ensures
            r matches Ok(v) && v.deep_view() == self.items(),
    {
        Ok(&self.items)
    }

    fn get_item(&self, id: u64) -> (r: Result<&Item, PickupError>) {
        let n = self.items.len();
        let mut i: usize = 0;
        while i < n
            invariant
                i <= n,
                n == self.items@.len(),
                forall|j: int| 0 <= j < i ==> (#[trigger] self.items.deep_view()[j]).id != id,
            decreases n - i,
        {
            if self.items[i].id == id {
                proof {
                    assert(self.items.deep_view()[i as int].id == id);
                    lemma_find_idx(self.items(), id);
                    assert(find_idx(self.items(), id) == i as int);
                }
                return Ok(&self.items[i]);
            }
            i = i + 1;
        }
        Err(PickupError::NotFound)
    }

    fn add_item(&mut self, item: Item) -> (r: Result<(), PickupError>)
        ensures
            r is Ok,
    {
        self.items.push(item);
        proof {
            assert(self.items.deep_view() =~= old(self).items.deep_view().push(item@));
        }
        Ok(())
    }

    fn remove_item(&mut self, id: u64) -> (r: Result<(), PickupError>)
        ensures
            r is Ok <==> has_id(old(self).items(), id),
    {
        let n = self.items.len();
        let mut i: usize = 0;
        while i < n
            invariant
                i <= n,
                n == self.items@.len(),
                self == old(self),
                forall|j: int| 0 <= j < i ==> (#[trigger] self.items.deep_view()[j]).id != id,
            decreases n - i,
        {
            if self.items[i].id == id {
                proof {
                    assert(self.items.deep_view()[i as int].id == id);
                    lemma_find_idx(self.items(), id);
                    assert(find_idx(self.items(), id) == i as int);
                }
                self.items.remove(i);
                proof {
                    assert(self.items.deep_view() =~= old(self).items.deep_view().remove(i as int));
                }
                return Ok(());
            }
            i = i + 1;
        }
        Err(PickupError::NotFound)
    }
}

} // verus!
