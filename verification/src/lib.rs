//! A small command-line reminder list: items to pick up are kept in memory,
//! loaded from and saved to a JSON array, and manipulated through a command
//! interpreter. The storage operations, the JSON codec and the command
//! dispatch are verified; file and stream I/O stay behind narrow trait seams.

use vstd::prelude::*;
use vstd::string::StringExecFns;
use vstd::utf8::encode_utf8;

pub mod codec;
pub mod decode;
pub mod encode;
pub mod printer;
pub mod reader;
pub mod storage;
pub mod text;

use crate::printer::Print;
use crate::reader::{ReadInput, line_split};
use crate::storage::{Store, Item, ItemView, has_id, find_idx, max_id, next_id};
use crate::text::{str_eq, parse_usize, u64_to_string, trimmed, spec_parse_usize};
use vstd::utf8::{decode_utf8, valid_utf8};
use vstd::string::StringSliceAdditionalSpecFns;

verus! {

/// The error taxonomy of the library.
///
/// - `NotFound`: a missing item id, storage file or home directory.
/// - `ParseError`: text that is not a valid JSON item list, or an id token
///   that is not an unsigned integer.
/// - `InvalidInput`: an interactive command token outside the vocabulary.
/// - `IoFailure`: a failed read or write on an underlying stream.
#[derive(Debug, Clone, Copy, PartialEq, Eq, Structural)]
pub enum PickupError {
    NotFound,
    ParseError,
    InvalidInput,
    IoFailure,
}

/// One operation against the store.
#[derive(Debug)]
pub enum PickupCommand {
    ListItems,
    AddItem(String),
    ShowItem(usize),
    RemoveItem(usize),
    Exit,
}

/// The mathematical value of a [`PickupCommand`].
pub ghost enum CommandView {
    ListItems,
    AddItem(Seq<char>),
    ShowItem(usize),
    RemoveItem(usize),
    Exit,
}

impl DeepView for PickupCommand {
    type V = CommandView;

    open spec fn deep_view(&self) -> CommandView {
        match self {
            PickupCommand::ListItems => CommandView::ListItems,
            PickupCommand::AddItem(name) => CommandView::AddItem(name@),
            PickupCommand::ShowItem(id) => CommandView::ShowItem(*id),
            PickupCommand::RemoveItem(id) => CommandView::RemoveItem(*id),
            PickupCommand::Exit => CommandView::Exit,
        }
    }
}

/// Pre-parsed command-line intent: each flag asks for zero or one command.
#[derive(Debug)]
pub struct PickupOpts {
    pub list_items: bool,
    pub add_item: (bool, String),
    pub show_item: (bool, usize),
    pub remove_item: (bool, usize),
}

/// The commands that a set of options asks for, in the fixed order: add,
/// then list, then show, then remove.
pub open spec fn opts_cmds(opts: PickupOpts) -> Seq<CommandView> {
    (if opts.add_item.0 {
        seq![CommandView::AddItem(opts.add_item.1@)]
    } else {
        Seq::<CommandView>::empty()
    }) + (if opts.list_items {
        seq![CommandView::ListItems]
    } else {
        Seq::<CommandView>::empty()
    }) + (if opts.show_item.0 {
        seq![CommandView::ShowItem(opts.show_item.1)]
    } else {
        Seq::<CommandView>::empty()
    }) + (if opts.remove_item.0 {
        seq![CommandView::RemoveItem(opts.remove_item.1)]
    } else {
        Seq::<CommandView>::empty()
    })
}

/// What the first token of a line asks for.
pub enum TokenAction {
    Add,
    List,
    Show,
    Remove,
    Exit,
    Invalid,
}

/// The command vocabulary: exact, case-sensitive tokens. An empty line —
/// the end of the input stream — asks to leave, so that a drained stream
/// ends the loop gracefully.
pub open spec fn token_action(t: Seq<char>) -> TokenAction {
    if t == "add"@ {
        TokenAction::Add
    } else if t == "list"@ || t == "ls"@ || t == "items"@ {
        TokenAction::List
    } else if t == "item"@ {
        TokenAction::Show
    } else if t == "remove"@ {
        TokenAction::Remove
    } else if t == "exit"@ || t.len() == 0 {
        TokenAction::Exit
    } else {
        TokenAction::Invalid
    }
}

/// Classifies one trimmed input token against the vocabulary.
pub fn classify_token(t: &String) -> (k: TokenAction)
    ensures
        k == token_action(t@),
{
    if str_eq(t, "add") {
        TokenAction::Add
    } else if str_eq(t, "list") || str_eq(t, "ls") || str_eq(t, "items") {
        TokenAction::List
    } else if str_eq(t, "item") {
        TokenAction::Show
    } else if str_eq(t, "remove") {
        TokenAction::Remove
    } else if str_eq(t, "exit") || t.as_str().is_empty() {
        TokenAction::Exit
    } else {
        TokenAction::Invalid
    }
}

/// What adding an item named `name` does to a collection: it gets the next
/// unused id, an unticked checkbox and an empty timestamp. When no id is
/// free — an item already holds the largest possible one — the collection
/// stays as it is.
pub open spec fn add_by_name(items: Seq<ItemView>, name: Seq<char>) -> Seq<ItemView> {
    if max_id(items) < u64::MAX as nat {
        items.push(added_item(items, name))
    } else {
        items
    }
}

/// The item an add with this name appends.
pub open spec fn added_item(items: Seq<ItemView>, name: Seq<char>) -> ItemView {
    ItemView {
        id: (max_id(items) + 1) as u64,
        name,
        obtained: false,
        created_at: Seq::<char>::empty(),
    }
}

/// What one command does to a collection: an add appends as
/// [`add_by_name`] says, a remove drops the first item with the id when it
/// is present, and everything else leaves the collection alone.
pub open spec fn apply_cmd(items: Seq<ItemView>, c: CommandView) -> Seq<ItemView> {
    match c {
        CommandView::AddItem(name) => add_by_name(items, name),
        CommandView::RemoveItem(id) => if has_id(items, id as u64) {
            items.remove(find_idx(items, id as u64))
        } else {
            items
        },
        _ => items,
    }
}

/// A sequence of commands applied in order.
pub open spec fn apply_cmds(items: Seq<ItemView>, cs: Seq<CommandView>) -> Seq<ItemView>
    decreases cs.len(),
{
    if cs.len() == 0 {
        items
    } else {
        apply_cmds(apply_cmd(items, cs.first()), cs.drop_first())
    }
}

/// Applying one more command takes up where the previous ones left off.
pub proof fn lemma_apply_cmds_snoc(items: Seq<ItemView>, cs: Seq<CommandView>, c: CommandView)
    ensures
        apply_cmds(items, cs.push(c)) == apply_cmd(apply_cmds(items, cs), c),
    decreases cs.len(),
{
    if cs.len() == 0 {
        assert(cs.push(c).drop_first() =~= Seq::<CommandView>::empty());
        assert(cs.push(c).first() == c);
        assert(apply_cmds(apply_cmd(items, c), Seq::<CommandView>::empty()) == apply_cmd(items, c));
        assert(apply_cmds(items, cs) == items);
    } else {
        assert(cs.push(c).first() == cs.first());
        assert(cs.push(c).drop_first() =~= cs.drop_first().push(c));
        lemma_apply_cmds_snoc(apply_cmd(items, cs.first()), cs.drop_first(), c);
    }
}

/// A sequence is a prefix of itself extended by anything.
pub broadcast proof fn lemma_prefix_append(a: Seq<u8>, b: Seq<u8>)
    ensures
        a.is_prefix_of(#[trigger] (a + b)),
{
    assert((a + b).subrange(0, a.len() as int) =~= a);
}

/// Being a prefix carries across a longer prefix.
pub broadcast proof fn lemma_prefix_trans(a: Seq<u8>, b: Seq<u8>, c: Seq<u8>)
    requires
        a.is_prefix_of(b),
        b.is_prefix_of(c),
    ensures
        #![trigger a.is_prefix_of(b), b.is_prefix_of(c)]
        a.is_prefix_of(c),
{
    assert(a =~= c.subrange(0, a.len() as int));
}

/// The bytes one printed line hands the sink: the text and one line
/// terminator.
pub open spec fn line_bytes(text: Seq<char>) -> Seq<u8> {
    encode_utf8(text + seq!['\n'])
}

/// The bytes of the greeting line that opens the interactive loop.
pub open spec fn intro_bytes() -> Seq<u8> {
    line_bytes("What would you like to do?"@)
}

/// The bytes of the command menu: its five lines in order.
pub open spec fn menu_bytes() -> Seq<u8> {
    line_bytes("add: Add item"@) + line_bytes("list: List items"@) + line_bytes("item: Show item"@)
        + line_bytes("remove: Remove item"@) + line_bytes("exit: exit pickup"@)
}

/// The bytes of a listed collection: one line per item, in order.
pub open spec fn listing_bytes(items: Seq<ItemView>) -> Seq<u8>
    decreases items.len(),
{
    if items.len() == 0 {
        Seq::<u8>::empty()
    } else {
        listing_bytes(items.drop_last()) + line_bytes(Item::line_view(items.last()))
    }
}

/// The bytes the dispatcher prints for one command when it goes through:
/// the add report, the listing, the shown line, or the removal notice.
/// A failed command prints nothing before its error surfaces.
pub open spec fn response_bytes(items: Seq<ItemView>, c: CommandView) -> Seq<u8> {
    match c {
        CommandView::AddItem(name) => if max_id(items) < u64::MAX as nat {
            line_bytes("Added item"@) + line_bytes(Item::line_view(added_item(items, name)))
        } else {
            line_bytes("No id is left for a new item."@)
        },
        CommandView::ListItems => listing_bytes(items),
        CommandView::ShowItem(id) => if has_id(items, id as u64) {
            line_bytes(Item::line_view(items[find_idx(items, id as u64)]))
        } else {
            Seq::<u8>::empty()
        },
        CommandView::RemoveItem(id) => if has_id(items, id as u64) {
            line_bytes("Item with id "@ + crate::text::dec_str(id as nat) + " removed."@)
        } else {
            Seq::<u8>::empty()
        },
        CommandView::Exit => Seq::<u8>::empty(),
    }
}

/// The bytes of the id prompt that precedes reading an id.
pub open spec fn id_prompt_bytes() -> Seq<u8> {
    line_bytes("Which ID?"@) + encode_utf8(">"@)
}

/// The first line of a modeled input, as `read_input` hands it back:
/// decoded and trimmed.
pub open spec fn first_line(bytes: Seq<u8>) -> Seq<char> {
    trimmed(decode_utf8(bytes.take(line_split(bytes))))
}

/// A modeled input with its first line consumed.
pub open spec fn after_line(bytes: Seq<u8>) -> Seq<u8> {
    bytes.skip(line_split(bytes))
}

/// What reading one command from the head of a modeled input comes to.
pub ghost enum ReadCmd {
    /// A command was read; the rest of the input follows it.
    Cmd(CommandView, Seq<u8>),
    /// The input was recoverably invalid — a token outside the vocabulary
    /// or an id that is not a number; the rest of the input follows it.
    Bad(Seq<u8>),
    /// The stream failed: a line that is not valid UTF-8.
    Fail,
}

/// Reads one command from the head of a modeled input, as `get_command`
/// does: the first line names the command; an add takes a name from the
/// next line, and a show or remove takes an id from it.
pub open spec fn read_command(b0: Seq<u8>) -> ReadCmd {
    if !valid_utf8(b0.take(line_split(b0))) {
        ReadCmd::Fail
    } else {
        let tok = first_line(b0);
        let b1 = after_line(b0);
        match token_action(tok) {
            TokenAction::Add => if !valid_utf8(b1.take(line_split(b1))) {
                ReadCmd::Fail
            } else {
                ReadCmd::Cmd(CommandView::AddItem(first_line(b1)), after_line(b1))
            },
            TokenAction::List => ReadCmd::Cmd(CommandView::ListItems, b1),
            TokenAction::Show => if !valid_utf8(b1.take(line_split(b1))) {
                ReadCmd::Fail
            } else {
                match spec_parse_usize(first_line(b1)) {
                    Some(id) => ReadCmd::Cmd(CommandView::ShowItem(id), after_line(b1)),
                    None => ReadCmd::Bad(after_line(b1)),
                }
            },
            TokenAction::Remove => if !valid_utf8(b1.take(line_split(b1))) {
                ReadCmd::Fail
            } else {
                match spec_parse_usize(first_line(b1)) {
                    Some(id) => ReadCmd::Cmd(CommandView::RemoveItem(id), after_line(b1)),
                    None => ReadCmd::Bad(after_line(b1)),
                }
            },
            TokenAction::Exit => ReadCmd::Cmd(CommandView::Exit, b1),
            TokenAction::Invalid => ReadCmd::Bad(b1),
        }
    }
}

/// The bytes `get_command` prints while reading from the head of `b0`: the
/// id prompt when the first line asks to show or remove, nothing else.
pub open spec fn read_out(b0: Seq<u8>) -> Seq<u8> {
    if valid_utf8(b0.take(line_split(b0))) && (token_action(first_line(b0)) is Show
        || token_action(first_line(b0)) is Remove) {
        id_prompt_bytes()
    } else {
        Seq::<u8>::empty()
    }
}

/// The end of an interactive session: the store it leaves, the bytes it
/// printed, and whether it ended by itself — an exit, the end of input, or
/// the step bound — rather than on a stream failure.
pub ghost struct SessionEnd {
    pub items: Seq<ItemView>,
    pub out: Seq<u8>,
    pub ok: bool,
}

/// The interactive loop as a function of the store and the input: each
/// round prints the menu and the prompt, reads one command, applies it to
/// the store and prints its response — with the invalid-input and
/// missing-id notices in place of a response where they are due — until an
/// exit command, a failure of the stream, or the step bound.
pub open spec fn session(items: Seq<ItemView>, input: Seq<u8>, fuel: nat) -> SessionEnd
    decreases fuel,
{
    if fuel == 0 {
        SessionEnd { items, out: Seq::<u8>::empty(), ok: true }
    } else {
        let head = menu_bytes() + encode_utf8("> "@) + read_out(input);
        match read_command(input) {
            ReadCmd::Fail => SessionEnd { items, out: head, ok: false },
            ReadCmd::Bad(rest) => {
                let tail = session(items, rest, (fuel - 1) as nat);
                SessionEnd {
                    items: tail.items,
                    out: head + line_bytes("That was an invalid command."@) + tail.out,
                    ok: tail.ok,
                }
            },
            ReadCmd::Cmd(cv, rest) => {
                if cv is Exit {
                    SessionEnd { items, out: head, ok: true }
                } else {
                    let missing = match cv {
                        CommandView::ShowItem(id) => !has_id(items, id as u64),
                        CommandView::RemoveItem(id) => !has_id(items, id as u64),
                        _ => false,
                    };
                    let resp = if missing {
                        line_bytes("No item has that id."@)
                    } else {
                        response_bytes(items, cv) + line_bytes(""@)
                    };
                    let tail = session(apply_cmd(items, cv), rest, (fuel - 1) as nat);
                    SessionEnd { items: tail.items, out: head + resp + tail.out, ok: tail.ok }
                }
            },
        }
    }
}

/// The orchestrator: reads commands, applies them to the store, reports
/// through the sink.
pub struct Pickup<R, P, S> where R: ReadInput, P: Print, S: Store {
    pub reader: R,
    pub printer: P,
    pub storage: S,
}

/// Whether an orchestrator's three ports are fully modeled: the input is
/// readable, the output is inspectable, and neither the sink nor the store
/// can fail of itself. The test doubles qualify; the terminal and the disk
/// do not.
pub open spec fn models_session<R: ReadInput, P: Print, S: Store>(p: Pickup<R, P, S>) -> bool {
    &&& p.reader.in_models()
    &&& p.printer.out_models()
    &&& p.printer.out_never_fails()
    &&& p.storage.never_fails()
}

impl<R: ReadInput, P: Print, S: Store> Pickup<R, P, S> {
    /// An orchestrator over the given source, sink and store.
    pub fn new(reader: R, printer: P, storage: S) -> (r: Self)
        ensures
            r.reader == reader,
            r.printer == printer,
            r.storage == storage,
    {
        Pickup { reader, printer, storage }
    }

    /// Loads the store, then either drains the commands that the options
    /// ask for — aborting at the first failure — or runs the interactive
    /// loop until an exit command or the end of the input stream. In the
    /// loop an invalid input is reported and recovered from, so it never
    /// comes out as the result. When the options ask for commands, the
    /// store ends up as some prefix of them — all of them on success —
    /// applied in the fixed order to whatever the load left behind; with no
    /// options and fully modeled ports, the whole run equals [`session`].
    pub fn run(&mut self, opts: PickupOpts) -> (r: Result<(), PickupError>)
        ensures
            r matches Err(e) ==> e != PickupError::InvalidInput,
            opts_cmds(opts).len() > 0 ==> exists|loaded: Seq<ItemView>, k: int|
                {
                    &&& 0 <= k <= opts_cmds(opts).len()
                    &&& final(self).storage.items() == #[trigger] apply_cmds(
                        loaded,
                        opts_cmds(opts).take(k),
                    )
                    &&& (r is Ok ==> k == opts_cmds(opts).len())
                },
            opts_cmds(opts).len() == 0 ==> exists|loaded: Seq<ItemView>, cs: Seq<CommandView>|
                final(self).storage.items() == #[trigger] apply_cmds(loaded, cs),
            opts_cmds(opts).len() == 0 && models_session(*old(self)) ==> {
                let s = session(
                    (*old(self)).storage.items(),
                    (*old(self)).reader.in_remaining(),
                    u64::MAX as nat,
                );
                &&& final(self).storage.items() == s.items
                &&& (*final(self)).printer.out_taken() == (*old(self)).printer.out_taken()
                    + intro_bytes() + s.out
                &&& (r is Ok <==> s.ok)
            },
            (*old(self)).printer.out_models() ==> (*final(self)).printer.out_models() && (*old(
                self,
            )).printer.out_taken().is_prefix_of((*final(self)).printer.out_taken()),
    {
        broadcast use lemma_prefix_append, lemma_prefix_trans;

        let ghost cs = opts_cmds(opts);
        match self.storage.load_items() {
            Ok(()) => {},
            Err(e) => {
                proof {
                    assert(cs.take(0) =~= Seq::<CommandView>::empty());
                    assert(self.storage.items() == apply_cmds(
                        self.storage.items(),
                        opts_cmds(opts).take(0),
                    ));
                }
                return Err(e);
            },
        }
        let ghost loaded = self.storage.items();
        let mut cmds_from_opts = self.process_opts(opts);
        if cmds_from_opts.len() > 0 {
            let ghost mut k: int = 0;
            proof {
                assert(cs.take(0) =~= Seq::<CommandView>::empty());
                assert(cmds_from_opts.deep_view() =~= cs.skip(0));
            }
            while cmds_from_opts.len() > 0
                invariant
                    cs == opts_cmds(opts),
                    0 <= k <= cs.len(),
                    cmds_from_opts.deep_view() == cs.skip(k),
                    self.storage.items() == apply_cmds(loaded, cs.take(k)),
                    (*old(self)).printer.out_models() ==> self.printer.out_models() && (*old(
                        self,
                    )).printer.out_taken().is_prefix_of(self.printer.out_taken()),
                decreases cmds_from_opts.len(),
            {
                broadcast use lemma_prefix_append, lemma_prefix_trans;

                let ghost prev = self.storage.items();
                let ghost ov = cmds_from_opts@;
                let ghost dvp = cmds_from_opts.deep_view();
                let cmd = cmds_from_opts.remove(0);
                let ghost cv = cmd.deep_view();
                proof {
                    assert(ov.len() == cs.skip(k).len());
                    assert(cmds_from_opts@.len() == ov.len() - 1);
                    assert(cmd == ov[0]);
                    assert(dvp[0] == ov[0].deep_view());
                    assert(dvp == cs.skip(k));
                    assert(cs.skip(k)[0] == cs[k]);
                    assert(cv == cs[k]);
                    assert forall|i: int|
                        0 <= i < cmds_from_opts.deep_view().len() implies #[trigger] cmds_from_opts.deep_view()[i]
                        == cs.skip(k + 1)[i] by {
                        assert(cmds_from_opts@[i] == ov[i + 1]);
                        assert(dvp[i + 1] == ov[i + 1].deep_view());
                        assert(cs.skip(k)[i + 1] == cs[k + 1 + i]);
                        assert(cs.skip(k + 1)[i] == cs[k + 1 + i]);
                    }
                    assert(cmds_from_opts.deep_view() =~= cs.skip(k + 1));
                    lemma_apply_cmds_snoc(loaded, cs.take(k), cs[k]);
                    assert(cs.take(k).push(cs[k]) =~= cs.take(k + 1));
                }
                match self.process_command(cmd) {
                    Ok(_) => {},
                    Err(e) => {
                        proof {
                            assert(self.storage.items() == apply_cmd(prev, cv));
                            k = k + 1;
                            assert(self.storage.items() == apply_cmds(loaded, cs.take(k)));
                            assert(self.storage.items() == apply_cmds(
                                loaded,
                                opts_cmds(opts).take(k),
                            ));
                        }
                        return Err(e);
                    },
                }
                proof {
                    assert(self.storage.items() == apply_cmd(prev, cv));
                    k = k + 1;
                    assert(self.storage.items() == apply_cmds(loaded, cs.take(k)));
                }
            }
            proof {
                assert(cs.skip(k).len() == 0);
                assert(k == cs.len());
                assert(self.storage.items() == apply_cmds(loaded, opts_cmds(opts).take(k)));
                assert(k == opts_cmds(opts).len());
            }
        } else {
            proof {
                assert(cs.len() == 0);
            }
            let ghost before_loop = self.storage.items();
            match self.run_with_no_opts() {
                Ok(()) => {
                    proof {
                        let wcs = choose|wcs: Seq<CommandView>|
                            self.storage.items() == apply_cmds(before_loop, wcs);
                        assert(self.storage.items() == apply_cmds(before_loop, wcs));
                    }
                },
                Err(e) => {
                    proof {
                        let wcs = choose|wcs: Seq<CommandView>|
                            self.storage.items() == apply_cmds(before_loop, wcs);
                        assert(self.storage.items() == apply_cmds(before_loop, wcs));
                    }
                    return Err(e);
                },
            }
        }
        Ok(())
    }

    /// The commands that the options ask for, in the fixed order.
    fn process_opts(&mut self, opts: PickupOpts) -> (cmds: Vec<PickupCommand>)
        ensures
            cmds.deep_view() == opts_cmds(opts),
            final(self).storage == old(self).storage,
            final(self).printer == old(self).printer,
            final(self).reader == old(self).reader,
    {
        let mut cmds: Vec<PickupCommand> = Vec::new();
        let PickupOpts { list_items, add_item, show_item, remove_item } = opts;
        if add_item.0 {
            cmds.push(PickupCommand::AddItem(add_item.1));
        }
        if list_items {
            cmds.push(PickupCommand::ListItems);
        }
        if show_item.0 {
            cmds.push(PickupCommand::ShowItem(show_item.1));
        }
        if remove_item.0 {
            cmds.push(PickupCommand::RemoveItem(remove_item.1));
        }
        proof {
            assert(cmds.deep_view() =~= opts_cmds(opts));
        }
        cmds
    }

    /// Reads one command: the token, then — depending on it — a name or an
    /// id on a following line. A token outside the vocabulary, or an id
    /// that is not a number, is `InvalidInput`.
    fn get_command(&mut self) -> (r: Result<PickupCommand, PickupError>)
        ensures
            final(self).storage == old(self).storage,
            r matches Err(e) ==> e == PickupError::InvalidInput || e == PickupError::IoFailure,
            (*old(self)).printer.out_models() ==> (*final(self)).printer.out_models() && (*old(
                self,
            )).printer.out_taken().is_prefix_of((*final(self)).printer.out_taken()),
            (*old(self)).reader.in_models() && (*old(self)).printer.out_never_fails() ==> {
                let b0 = (*old(self)).reader.in_remaining();
                match read_command(b0) {
                    ReadCmd::Cmd(cv, rest) => {
                        &&& r matches Ok(cmd) && cmd.deep_view() == cv
                        &&& (*final(self)).reader.in_models()
                        &&& (*final(self)).reader.in_remaining() == rest
                    },
                    ReadCmd::Bad(rest) => {
                        &&& r == Err::<PickupCommand, PickupError>(PickupError::InvalidInput)
                        &&& (*final(self)).reader.in_models()
                        &&& (*final(self)).reader.in_remaining() == rest
                    },
                    ReadCmd::Fail => r == Err::<PickupCommand, PickupError>(
                        PickupError::IoFailure,
                    ),
                }
            },
            (*old(self)).printer.out_never_fails() ==> (*final(self)).printer.out_never_fails(),
            (*old(self)).reader.in_models() && (*old(self)).printer.out_models()
                && (*old(self)).printer.out_never_fails() ==> (*final(self)).printer.out_taken()
                == (*old(self)).printer.out_taken() + read_out((*old(self)).reader.in_remaining()),
    {
        let user_input = self.reader.read_input()?;
        match classify_token(&user_input) {
            TokenAction::Add => {
                let name = self.reader.read_input()?;
                Ok(PickupCommand::AddItem(name))
            },
            TokenAction::List => Ok(PickupCommand::ListItems),
            TokenAction::Show => {
                let id = self.get_id()?;
                Ok(PickupCommand::ShowItem(id))
            },
            TokenAction::Remove => {
                let id = self.get_id()?;
                Ok(PickupCommand::RemoveItem(id))
            },
            TokenAction::Exit => Ok(PickupCommand::Exit),
            TokenAction::Invalid => Err(PickupError::InvalidInput),
        }
    }

    /// The menu of commands. A sink that models its output receives
    /// exactly the five menu lines.
    fn print_options(&mut self) -> (r: Result<(), PickupError>)
        ensures
            final(self).storage == old(self).storage,
            final(self).reader == old(self).reader,
            r matches Err(e) ==> e == PickupError::IoFailure,
            (*old(self)).printer.out_models() ==> (*final(self)).printer.out_models() && (*old(
                self,
            )).printer.out_taken().is_prefix_of((*final(self)).printer.out_taken()),
            (*old(self)).printer.out_models() && r is Ok ==> (*final(self)).printer.out_taken()
                == (*old(self)).printer.out_taken() + menu_bytes(),
            (*old(self)).printer.out_never_fails() ==> r is Ok
                && (*final(self)).printer.out_never_fails(),
    {
        self.printer.println("add: Add item")?;
        self.printer.println("list: List items")?;
        self.printer.println("item: Show item")?;
        self.printer.println("remove: Remove item")?;
        self.printer.println("exit: exit pickup")?;
        proof {
            if (*old(self)).printer.out_models() {
                assert(self.printer.out_taken() =~= (*old(self)).printer.out_taken()
                    + menu_bytes());
            }
        }
        Ok(())
    }

    /// Prompts for and reads an id. A line that is not a plain decimal
    /// number that fits is `InvalidInput`, and the caller reprompts.
    fn get_id(&mut self) -> (r: Result<usize, PickupError>)
        ensures
            final(self).storage == old(self).storage,
            r matches Err(e) ==> e == PickupError::InvalidInput || e == PickupError::IoFailure,
            (*old(self)).printer.out_models() ==> (*final(self)).printer.out_models() && (*old(
                self,
            )).printer.out_taken().is_prefix_of((*final(self)).printer.out_taken()),
            (*old(self)).reader.in_models() ==> {
                let b0 = (*old(self)).reader.in_remaining();
                &&& (r matches Ok(id) ==> {
                    &&& (*final(self)).reader.in_models()
                    &&& (*final(self)).reader.in_remaining() == after_line(b0)
                    &&& spec_parse_usize(first_line(b0)) == Some(id)
                })
                &&& (r == Err::<usize, PickupError>(PickupError::InvalidInput) ==> {
                    &&& (*final(self)).reader.in_models()
                    &&& (*final(self)).reader.in_remaining() == after_line(b0)
                    &&& spec_parse_usize(first_line(b0)) is None
                })
                &&& ((*old(self)).printer.out_never_fails() ==> (r == Err::<usize, PickupError>(
                    PickupError::IoFailure,
                ) <==> !valid_utf8(b0.take(line_split(b0)))))
            },
            (*old(self)).printer.out_never_fails() ==> (*final(self)).printer.out_never_fails(),
            (*old(self)).printer.out_models() && (*old(self)).printer.out_never_fails()
                ==> (*final(self)).printer.out_taken() == (*old(self)).printer.out_taken()
                + id_prompt_bytes(),
    {
        self.printer.println("Which ID?")?;
        self.printer.print(">")?;
        let id_input = self.reader.read_input()?;
        match parse_usize(id_input.as_str()) {
            Some(id) => Ok(id),
            None => Err(PickupError::InvalidInput),
        }
    }

    /// Prints every item, one line each, in file order: a sink that models
    /// its output receives exactly the collection's listing.
    fn list_items(&mut self) -> (r: Result<(), PickupError>)
        ensures
            final(self).storage == old(self).storage,
            final(self).reader == old(self).reader,
            r matches Err(e) ==> e == PickupError::IoFailure,
            (*old(self)).printer.out_models() ==> (*final(self)).printer.out_models() && (*old(
                self,
            )).printer.out_taken().is_prefix_of((*final(self)).printer.out_taken()),
            (*old(self)).printer.out_models() && r is Ok ==> (*final(self)).printer.out_taken()
                == (*old(self)).printer.out_taken() + listing_bytes((*old(self)).storage.items()),
            (*old(self)).printer.out_never_fails() ==> r is Ok
                && (*final(self)).printer.out_never_fails(),
    {
        let ghost items0 = self.storage.items();
        let n = match self.storage.get_items() {
            Ok(v) => v.len(),
            Err(_) => 0,
        };
        let mut i: usize = 0;
        while i < n
            invariant
                i <= n,
                self.storage == old(self).storage,
                items0 == (*old(self)).storage.items(),
                n == self.storage.items().len(),
                (*old(self)).printer.out_models() ==> self.printer.out_models()
                    && self.printer.out_taken() == (*old(self)).printer.out_taken()
                    + listing_bytes(items0.take(i as int)),
                (*old(self)).printer.out_never_fails() ==> self.printer.out_never_fails(),
                self.reader == (*old(self)).reader,
            decreases n - i,
        {
            let line = match self.storage.get_items() {
                Ok(v) => v[i].to_line(),
                Err(_) => String::new(),
            };
            self.printer.println(line.as_str())?;
            proof {
                if (*old(self)).printer.out_models() {
                    assert(items0.take(i + 1).drop_last() =~= items0.take(i as int));
                    assert(items0.take(i + 1).last() == items0[i as int]);
                    assert(line@ == Item::line_view(items0[i as int]));
                    assert(self.printer.out_taken() =~= (*old(self)).printer.out_taken()
                        + listing_bytes(items0.take(i + 1)));
                }
            }
            i = i + 1;
        }
        proof {
            if (*old(self)).printer.out_models() {
                assert(items0.take(n as int) =~= items0);
            }
        }
        Ok(())
    }

    /// The interactive read-eval loop: menu, prompt, one command. An
    /// unrecognized token or bad id is reported and the loop goes on; a
    /// missing item id likewise; an exit command — or the end of the input
    /// stream — ends the loop; a stream failure surfaces. Whatever the
    /// stream held, the store ends up as some command sequence applied to
    /// its starting collection; and over fully modeled ports the loop
    /// equals [`session`] exactly: the store it leaves, every byte it
    /// prints, and how it ends are those of the session of its input. The
    /// loop carries a step bound so that it provably ends; no session comes
    /// anywhere near it.
    #[verifier::rlimit(100)]
    fn run_with_no_opts(&mut self) -> (r: Result<(), PickupError>)
        ensures
            r matches Err(e) ==> e == PickupError::IoFailure,
            exists|cs: Seq<CommandView>|
                final(self).storage.items() == apply_cmds(old(self).storage.items(), cs),
            (*old(self)).printer.out_models() ==> (*final(self)).printer.out_models() && (*old(
                self,
            )).printer.out_taken().is_prefix_of((*final(self)).printer.out_taken()),
            (*old(self)).printer.out_models() && r is Ok ==> ((*old(self)).printer.out_taken()
                + intro_bytes()).is_prefix_of((*final(self)).printer.out_taken()),
            models_session(*old(self)) ==> {
                let s = session(
                    (*old(self)).storage.items(),
                    (*old(self)).reader.in_remaining(),
                    u64::MAX as nat,
                );
                &&& final(self).storage.items() == s.items
                &&& (*final(self)).printer.out_taken() == (*old(self)).printer.out_taken()
                    + intro_bytes() + s.out
                &&& (r is Ok <==> s.ok)
            },
    {
        broadcast use lemma_prefix_append, lemma_prefix_trans;

        let ghost mut gcs: Seq<CommandView> = Seq::empty();
        proof {
            assert(self.storage.items() == apply_cmds(old(self).storage.items(), gcs));
        }
        self.printer.println("What would you like to do?")?;
        let mut fuel: u64 = u64::MAX;
        loop
            invariant
                self.storage.items() == apply_cmds(old(self).storage.items(), gcs),
                (*old(self)).printer.out_models() ==> self.printer.out_models() && ((*old(
                    self,
                )).printer.out_taken() + intro_bytes()).is_prefix_of(self.printer.out_taken()),
                models_session(*old(self)) ==> {
                    let s0 = session(
                        (*old(self)).storage.items(),
                        (*old(self)).reader.in_remaining(),
                        u64::MAX as nat,
                    );
                    let sc = session(
                        self.storage.items(),
                        self.reader.in_remaining(),
                        fuel as nat,
                    );
                    &&& models_session(*self)
                    &&& s0.items == sc.items
                    &&& s0.ok == sc.ok
                    &&& (*old(self)).printer.out_taken() + intro_bytes() + s0.out
                        == self.printer.out_taken() + sc.out
                },
            decreases fuel,
        {
            broadcast use lemma_prefix_append, lemma_prefix_trans;

            if fuel == 0 {
                return Ok(());
            }
            let ghost icur = self.storage.items();
            let ghost bcur = self.reader.in_remaining();
            let ghost ocur = self.printer.out_taken();
            let ghost fcur = fuel as nat;
            let ghost shead = session(icur, bcur, fcur);
            fuel = fuel - 1;
            self.print_options()?;
            self.printer.print("> ")?;
            match self.get_command() {
                Ok(command) => {
                    let ghost prev = self.storage.items();
                    let ghost cv = command.deep_view();
                    proof {
                        if models_session(*old(self)) {
                            assert(read_command(bcur) matches ReadCmd::Cmd(c, _rest) && c == cv);
                        }
                    }
                    match self.process_command(command) {
                        Ok(true) => {
                            proof {
                                assert(self.storage.items() == apply_cmd(prev, cv));
                                lemma_apply_cmds_snoc(old(self).storage.items(), gcs, cv);
                                gcs = gcs.push(cv);
                            }
                            self.printer.println("")?;
                            proof {
                                if models_session(*old(self)) {
                                    let rest = read_command(bcur)->Cmd_1;
                                    let tail = session(
                                        apply_cmd(icur, cv),
                                        rest,
                                        (fcur - 1) as nat,
                                    );
                                    assert(shead.out =~= (menu_bytes() + encode_utf8("> "@)
                                        + read_out(bcur)) + (response_bytes(icur, cv)
                                        + line_bytes(""@)) + tail.out);
                                    assert(self.printer.out_taken() + tail.out =~= ocur
                                        + shead.out);
                                }
                            }
                        },
                        Ok(false) => {
                            proof {
                                assert(self.storage.items() == apply_cmd(prev, cv));
                                lemma_apply_cmds_snoc(old(self).storage.items(), gcs, cv);
                                gcs = gcs.push(cv);
                                if models_session(*old(self)) {
                                    assert(cv is Exit);
                                    assert(shead.out =~= menu_bytes() + encode_utf8("> "@)
                                        + read_out(bcur));
                                    assert(self.printer.out_taken() =~= ocur + shead.out);
                                }
                            }
                            return Ok(());
                        },
                        Err(e) => {
                            proof {
                                assert(self.storage.items() == apply_cmd(prev, cv));
                                lemma_apply_cmds_snoc(old(self).storage.items(), gcs, cv);
                                gcs = gcs.push(cv);
                            }
                            match e {
                                PickupError::NotFound => {
                                    self.printer.println("No item has that id.")?;
                                    proof {
                                        if models_session(*old(self)) {
                                            let rest = read_command(bcur)->Cmd_1;
                                            let tail = session(
                                                apply_cmd(icur, cv),
                                                rest,
                                                (fcur - 1) as nat,
                                            );
                                            assert(shead.out =~= (menu_bytes() + encode_utf8(
                                                "> "@,
                                            ) + read_out(bcur)) + line_bytes(
                                                "No item has that id."@,
                                            ) + tail.out);
                                            assert(self.printer.out_taken() + tail.out =~= ocur
                                                + shead.out);
                                        }
                                    }
                                },
                                _ => {
                                    return Err(e);
                                },
                            }
                        },
                    }
                },
                Err(e) => {
                    match e {
                        PickupError::InvalidInput => {
                            self.printer.println("That was an invalid command.")?;
                            proof {
                                if models_session(*old(self)) {
                                    let rest = read_command(bcur)->Bad_0;
                                    let tail = session(icur, rest, (fcur - 1) as nat);
                                    assert(shead.out =~= (menu_bytes() + encode_utf8("> "@)
                                        + read_out(bcur)) + line_bytes(
                                        "That was an invalid command."@,
                                    ) + tail.out);
                                    assert(self.printer.out_taken() + tail.out =~= ocur
                                        + shead.out);
                                }
                            }
                        },
                        _ => {
                            proof {
                                if models_session(*old(self)) {
                                    assert(read_command(bcur) is Fail);
                                    assert(shead.out =~= menu_bytes() + encode_utf8("> "@)
                                        + read_out(bcur));
                                    assert(self.printer.out_taken() =~= ocur + shead.out);
                                }
                            }
                            return Err(e);
                        },
                    }
                },
            }
        }
    }

    /// Applies one command to the store and reports the outcome. The result
    /// is `false` exactly for the exit command, which asks the caller to
    /// stop. The store changes as the command demands — an append for an
    /// add, a removal for a remove when the id is present — whatever the
    /// sink then does.
    fn process_command(&mut self, command: PickupCommand) -> (r: Result<bool, PickupError>)
        ensures
            ({
                let items0 = old(self).storage.items();
                let items1 = final(self).storage.items();
                &&& (r matches Ok(b) ==> b == !(command is Exit))
                &&& (r matches Err(e) ==> e == PickupError::NotFound || e
                    == PickupError::IoFailure)
                &&& (command is Exit ==> r == Ok::<bool, PickupError>(false) && items1 == items0)
                &&& (command is ListItems ==> items1 == items0 && (r matches Err(e) ==> e
                    == PickupError::IoFailure))
                &&& (command matches PickupCommand::ShowItem(id) ==> items1 == items0 && (r
                    == Err::<bool, PickupError>(PickupError::NotFound) <==> !has_id(
                    items0,
                    id as u64,
                )))
                &&& (command matches PickupCommand::AddItem(name) ==> items1 == add_by_name(
                    items0,
                    name@,
                ) && (r matches Err(e) ==> e == PickupError::IoFailure))
                &&& (command matches PickupCommand::RemoveItem(id) ==> {
                    &&& (has_id(items0, id as u64) ==> items1 == items0.remove(
                        find_idx(items0, id as u64),
                    ))
                    &&& (!has_id(items0, id as u64) ==> items1 == items0 && r == Err::<
                        bool,
                        PickupError,
                    >(PickupError::NotFound))
                    &&& (r == Err::<bool, PickupError>(PickupError::NotFound) ==> !has_id(
                        items0,
                        id as u64,
                    ))
                })
            }),
            (*old(self)).printer.out_models() ==> (*final(self)).printer.out_models() && (*old(
                self,
            )).printer.out_taken().is_prefix_of((*final(self)).printer.out_taken()),
            (*old(self)).printer.out_models() && r is Ok ==> (*final(self)).printer.out_taken()
                == (*old(self)).printer.out_taken() + response_bytes(
                (*old(self)).storage.items(),
                command.deep_view(),
            ),
            (*old(self)).printer.out_models() && r == Err::<bool, PickupError>(
                PickupError::NotFound,
            ) ==> (*final(self)).printer.out_taken() == (*old(self)).printer.out_taken(),
            (*old(self)).printer.out_never_fails() && (*old(self)).storage.never_fails() ==> (r
                is Ok || r == Err::<bool, PickupError>(PickupError::NotFound))
                && (*final(self)).printer.out_never_fails()
                && (*final(self)).storage.never_fails(),
            final(self).reader == old(self).reader,
    {
        let ghost items0 = self.storage.items();
        match command {
            PickupCommand::AddItem(name) => {
                let nid_opt = match self.storage.get_items() {
                    Ok(items) => next_id(items),
                    Err(e) => {
                        return Err(e);
                    },
                };
                match nid_opt {
                    None => {
                        self.printer.println("No id is left for a new item.")?;
                        Ok(true)
                    },
                    Some(nid) => {
                        let item = Item {
                            id: nid,
                            name,
                            obtained: false,
                            created_at: String::new(),
                        };
                        let line = item.to_line();
                        self.storage.add_item(item)?;
                        self.printer.println("Added item")?;
                        self.printer.println(line.as_str())?;
                        Ok(true)
                    },
                }
            },
            PickupCommand::ListItems => {
                self.list_items()?;
                Ok(true)
            },
            PickupCommand::ShowItem(id) => {
                let line = match self.storage.get_item(id as u64) {
                    Ok(item) => item.to_line(),
                    Err(e) => {
                        return Err(e);
                    },
                };
                self.printer.println(line.as_str())?;
                Ok(true)
            },
            PickupCommand::RemoveItem(id) => {
                match self.storage.remove_item(id as u64) {
                    Ok(()) => {},
                    Err(e) => {
                        return Err(e);
                    },
                }
                let mut msg = String::from_str("Item with id ");
                let ds = u64_to_string(id as u64);
                msg.append(ds.as_str());
                msg.append(" removed.");
                self.printer.println(msg.as_str())?;
                Ok(true)
            },
            PickupCommand::Exit => Ok(false),
        }
    }
}

} // verus!
