//! The JSON codec for the item collection.
//!
//! The backing file holds one JSON array of objects, each with the four item
//! fields. The grammar accepted here is specified by the `parse_*` spec
//! functions: whitespace may stand between tokens, an object may give its
//! four fields in any order (each exactly once, and no others), strings use
//! the usual JSON escapes — `\uXXXX` over the whole range, with surrogate
//! pairs for supplementary code points — and
//! numbers are plain decimal digit runs that must fit in a `u64`. The
//! serializer writes the canonical compact form, and
//! [`lemma_parse_of_ser_items`] proves that parsing it back restores the
//! collection exactly.

use vstd::prelude::*;
use crate::storage::ItemView;
use crate::text::{is_ws, is_digit, digit_val, is_control, dec_str, digits_val};

verus! {

// ---------------------------------------------------------------------------
// Fixed words of the grammar.
// ---------------------------------------------------------------------------
/// The characters of the key `id`.
pub open spec fn key_id() -> Seq<char> {
    seq!['i', 'd']
}

/// The characters of the key `name`.
pub open spec fn key_name() -> Seq<char> {
    seq!['n', 'a', 'm', 'e']
}

/// The characters of the key `obtained`.
pub open spec fn key_obtained() -> Seq<char> {
    seq!['o', 'b', 't', 'a', 'i', 'n', 'e', 'd']
}

/// The characters of the key `created_at`.
pub open spec fn key_created_at() -> Seq<char> {
    seq!['c', 'r', 'e', 'a', 't', 'e', 'd', '_', 'a', 't']
}

/// The characters of the literal `true`.
pub open spec fn lit_true() -> Seq<char> {
    seq!['t', 'r', 'u', 'e']
}

/// The characters of the literal `false`.
pub open spec fn lit_false() -> Seq<char> {
    seq!['f', 'a', 'l', 's', 'e']
}

/// A hexadecimal digit (either case).
pub open spec fn is_hex(c: char) -> bool {
    is_digit(c) || (97 <= c as int && c as int <= 102) || (65 <= c as int && c as int <= 70)
}

/// The value of a hexadecimal digit character.
pub open spec fn hex_val(c: char) -> nat {
    if is_digit(c) {
        digit_val(c)
    } else if 97 <= c as int && c as int <= 102 {
        (c as int - 87) as nat
    } else {
        (c as int - 55) as nat
    }
}

/// The lower-case character for a hexadecimal digit value below sixteen.
pub open spec fn hex_char(d: nat) -> char {
    if d < 10 {
        ((d + 48) as u8) as char
    } else {
        ((d + 87) as u8) as char
    }
}

/// `s` begins with the characters of `p`.
pub open spec fn starts_with(s: Seq<char>, p: Seq<char>) -> bool {
    s.len() >= p.len() && s.take(p.len() as int) == p
}

// ---------------------------------------------------------------------------
// The serializer.
// ---------------------------------------------------------------------------
/// How one character is written inside a JSON string: quotes and backslashes
/// get a backslash escape, control characters a `\u00XX` escape, and
/// everything else stands as itself.
pub open spec fn escape_char(c: char) -> Seq<char> {
    if c == '"' {
        seq!['\\', '"']
    } else if c == '\\' {
        seq!['\\', '\\']
    } else if is_control(c) {
        seq!['\\', 'u', '0', '0', hex_char((c as int / 16) as nat), hex_char(
            (c as int % 16) as nat,
        )]
    } else {
        seq![c]
    }
}

/// The escaped body of a JSON string.
pub open spec fn escape(s: Seq<char>) -> Seq<char>
    decreases s.len(),
{
    if s.len() == 0 {
        Seq::empty()
    } else {
        escape_char(s.first()) + escape(s.drop_first())
    }
}

/// A JSON string: the escaped body between two quotes.
pub open spec fn ser_string(s: Seq<char>) -> Seq<char> {
    seq!['"'] + escape(s) + seq!['"']
}

/// A JSON boolean.
pub open spec fn ser_bool(b: bool) -> Seq<char> {
    if b {
        lit_true()
    } else {
        lit_false()
    }
}

/// One item as a JSON object, fields in canonical order, no whitespace.
pub open spec fn ser_item(it: ItemView) -> Seq<char> {
    seq!['{'] + ser_string(key_id()) + seq![':'] + dec_str(it.id as nat) + seq![','] + ser_string(
        key_name(),
    ) + seq![':'] + ser_string(it.name) + seq![','] + ser_string(key_obtained()) + seq![':']
        + ser_bool(it.obtained) + seq![','] + ser_string(key_created_at()) + seq![':'] + ser_string(
        it.created_at,
    ) + seq!['}']
}

/// The items of the array, separated by commas.
pub open spec fn ser_list(items: Seq<ItemView>) -> Seq<char>
    decreases items.len(),
{
    if items.len() == 0 {
        Seq::empty()
    } else if items.len() == 1 {
        ser_item(items.first())
    } else {
        ser_item(items.first()) + seq![','] + ser_list(items.drop_first())
    }
}

/// The whole collection as a JSON array.
pub open spec fn ser_items(items: Seq<ItemView>) -> Seq<char> {
    seq!['['] + ser_list(items) + seq![']']
}

// ---------------------------------------------------------------------------
// The parser. Each function consumes a prefix of its input and hands back
// the rest; `None` rejects the input.
// ---------------------------------------------------------------------------
/// Drops leading whitespace.
pub open spec fn skip_ws(s: Seq<char>) -> Seq<char>
    decreases s.len(),
{
    if s.len() > 0 && is_ws(s.first()) {
        skip_ws(s.drop_first())
    } else {
        s
    }
}

/// The number of leading decimal digits.
pub open spec fn digit_run(s: Seq<char>) -> int
    decreases s.len(),
{
    if s.len() > 0 && is_digit(s.first()) {
        1 + digit_run(s.drop_first())
    } else {
        0
    }
}

/// A decimal number: the longest run of leading digits, which must be
/// non-empty and fit in a `u64`.
pub open spec fn parse_u64(s: Seq<char>) -> Option<(u64, Seq<char>)> {
    let k = digit_run(s);
    if k == 0 {
        None
    } else if digits_val(s.take(k)) > u64::MAX {
        None
    } else {
        Some(((digits_val(s.take(k)) as u64), s.skip(k)))
    }
}

/// The value of four hexadecimal digits starting at `i`; meaningful only
/// when all four are hexadecimal digits.
pub open spec fn hex4_val(s: Seq<char>, i: int) -> int {
    (hex_val(s[i]) * 4096 + hex_val(s[i + 1]) * 256 + hex_val(s[i + 2]) * 16 + hex_val(
        s[i + 3],
    )) as int
}

/// Whether four hexadecimal digits start at `i`.
pub open spec fn hex4_at(s: Seq<char>, i: int) -> bool {
    s.len() >= i + 4 && is_hex(s[i]) && is_hex(s[i + 1]) && is_hex(s[i + 2]) && is_hex(s[i + 3])
}

/// One escape after a backslash. A `\uXXXX` escape covers the whole range:
/// a plain code unit stands for itself, a high surrogate must be followed
/// by a low one — the pair gives the supplementary code point — and a
/// lone surrogate is rejected.
pub open spec fn parse_escape(s: Seq<char>) -> Option<(char, Seq<char>)> {
    if s.len() == 0 {
        None
    } else {
        let c = s.first();
        if c == '"' {
            Some(('"', s.drop_first()))
        } else if c == '\\' {
            Some(('\\', s.drop_first()))
        } else if c == '/' {
            Some(('/', s.drop_first()))
        } else if c == 'b' {
            Some(('\u{8}', s.drop_first()))
        } else if c == 'f' {
            Some(('\u{c}', s.drop_first()))
        } else if c == 'n' {
            Some(('\n', s.drop_first()))
        } else if c == 'r' {
            Some(('\r', s.drop_first()))
        } else if c == 't' {
            Some(('\t', s.drop_first()))
        } else if c == 'u' {
            if hex4_at(s, 1) {
                let v = hex4_val(s, 1);
                if v < 0xD800 || 0xE000 <= v {
                    Some((v as char, s.skip(5)))
                } else if v < 0xDC00 {
                    if s.len() >= 11 && s[5] == '\\' && s[6] == 'u' && hex4_at(s, 7) {
                        let w = hex4_val(s, 7);
                        if 0xDC00 <= w && w < 0xE000 {
                            let code = 0x10000 + (v - 0xD800) * 0x400 + (w - 0xDC00);
                            Some((code as char, s.skip(11)))
                        } else {
                            None
                        }
                    } else {
                        None
                    }
                } else {
                    None
                }
            } else {
                None
            }
        } else {
            None
        }
    }
}

/// The body of a JSON string, after its opening quote: characters and
/// escapes up to the closing quote. Raw control characters are rejected.
pub open spec fn parse_str_body(s: Seq<char>) -> Option<(Seq<char>, Seq<char>)>
    decreases s.len(),
{
    if s.len() == 0 {
        None
    } else if s.first() == '"' {
        Some((Seq::empty(), s.drop_first()))
    } else if s.first() == '\\' {
        match parse_escape(s.drop_first()) {
            Some((c, r)) => if r.len() < s.len() {
                match parse_str_body(r) {
                    Some((v, r2)) => Some((seq![c] + v, r2)),
                    None => None,
                }
            } else {
                None
            },
            None => None,
        }
    } else if is_control(s.first()) {
        None
    } else {
        match parse_str_body(s.drop_first()) {
            Some((v, r)) => Some((seq![s.first()] + v, r)),
            None => None,
        }
    }
}

/// A JSON string with its quotes.
pub open spec fn parse_string(s: Seq<char>) -> Option<(Seq<char>, Seq<char>)> {
    if s.len() > 0 && s.first() == '"' {
        parse_str_body(s.drop_first())
    } else {
        None
    }
}

/// A JSON boolean.
pub open spec fn parse_bool(s: Seq<char>) -> Option<(bool, Seq<char>)> {
    if starts_with(s, lit_true()) {
        Some((true, s.skip(4)))
    } else if starts_with(s, lit_false()) {
        Some((false, s.skip(5)))
    } else {
        None
    }
}

/// The partly gathered fields of one object.
pub ghost struct Fields {
    pub id: Option<u64>,
    pub name: Option<Seq<char>>,
    pub obtained: Option<bool>,
    pub created_at: Option<Seq<char>>,
}

/// The value after one key: each key picks its field's type, an unknown or
/// repeated key rejects the object.
pub open spec fn parse_member_value(key: Seq<char>, s: Seq<char>, f: Fields) -> Option<
    (Fields, Seq<char>),
> {
    if key == key_id() {
        if f.id is None {
            match parse_u64(s) {
                Some((v, r)) => Some(
                    (
                        Fields {
                            id: Some(v),
                            name: f.name,
                            obtained: f.obtained,
                            created_at: f.created_at,
                        },
                        r,
                    ),
                ),
                None => None,
            }
        } else {
            None
        }
    } else if key == key_name() {
        if f.name is None {
            match parse_string(s) {
                Some((v, r)) => Some(
                    (
                        Fields {
                            id: f.id,
                            name: Some(v),
                            obtained: f.obtained,
                            created_at: f.created_at,
                        },
                        r,
                    ),
                ),
                None => None,
            }
        } else {
            None
        }
    } else if key == key_obtained() {
        if f.obtained is None {
            match parse_bool(s) {
                Some((v, r)) => Some(
                    (
                        Fields {
                            id: f.id,
                            name: f.name,
                            obtained: Some(v),
                            created_at: f.created_at,
                        },
                        r,
                    ),
                ),
                None => None,
            }
        } else {
            None
        }
    } else if key == key_created_at() {
        if f.created_at is None {
            match parse_string(s) {
                Some((v, r)) => Some(
                    (
                        Fields {
                            id: f.id,
                            name: f.name,
                            obtained: f.obtained,
                            created_at: Some(v),
                        },
                        r,
                    ),
                ),
                None => None,
            }
        } else {
            None
        }
    } else {
        None
    }
}

/// The members of one object, from the first key on: `key: value` pairs
/// separated by commas, closed by `}`, with all four fields present in
/// the end.
pub open spec fn parse_members(s: Seq<char>, f: Fields) -> Option<(ItemView, Seq<char>)>
    decreases s.len(),
{
    match parse_string(s) {
        Some((key, r1)) => {
            let r2 = skip_ws(r1);
            if r2.len() > 0 && r2.first() == ':' {
                let r3 = skip_ws(r2.drop_first());
                match parse_member_value(key, r3, f) {
                    Some((f2, r4)) => {
                        let r5 = skip_ws(r4);
                        if r5.len() > 0 && r5.first() == ',' {
                            let r6 = skip_ws(r5.drop_first());
                            if r6.len() < s.len() {
                                parse_members(r6, f2)
                            } else {
                                None
                            }
                        } else if r5.len() > 0 && r5.first() == '}' {
                            match f2 {
                                Fields {
                                    id: Some(id),
                                    name: Some(name),
                                    obtained: Some(obtained),
                                    created_at: Some(created_at),
                                } => Some(
                                    (ItemView { id, name, obtained, created_at }, r5.drop_first()),
                                ),
                                _ => None,
                            }
                        } else {
                            None
                        }
                    },
                    None => None,
                }
            } else {
                None
            }
        },
        None => None,
    }
}

/// The empty gathering of fields.
pub open spec fn no_fields() -> Fields {
    Fields { id: None, name: None, obtained: None, created_at: None }
}

/// One item: an object with the four fields.
pub open spec fn parse_item(s: Seq<char>) -> Option<(ItemView, Seq<char>)> {
    if s.len() > 0 && s.first() == '{' {
        parse_members(skip_ws(s.drop_first()), no_fields())
    } else {
        None
    }
}

/// The remainder of the array after one item: either `]` or `, item ...`.
pub open spec fn parse_list_rest(s: Seq<char>) -> Option<(Seq<ItemView>, Seq<char>)>
    decreases s.len(),
{
    let r = skip_ws(s);
    if r.len() > 0 && r.first() == ']' {
        Some((Seq::empty(), r.drop_first()))
    } else if r.len() > 0 && r.first() == ',' {
        match parse_item(skip_ws(r.drop_first())) {
            Some((it, r2)) => if r2.len() < s.len() {
                match parse_list_rest(r2) {
                    Some((v, r3)) => Some((seq![it] + v, r3)),
                    None => None,
                }
            } else {
                None
            },
            None => None,
        }
    } else {
        None
    }
}

/// A whole input: one array of items and nothing after it.
pub open spec fn parse_top(s: Seq<char>) -> Option<Seq<ItemView>> {
    let r = skip_ws(s);
    if r.len() > 0 && r.first() == '[' {
        let r1 = skip_ws(r.drop_first());
        if r1.len() > 0 && r1.first() == ']' {
            if skip_ws(r1.drop_first()).len() == 0 {
                Some(Seq::empty())
            } else {
                None
            }
        } else {
            match parse_item(r1) {
                Some((it, r2)) => match parse_list_rest(r2) {
                    Some((rest, r3)) => if skip_ws(r3).len() == 0 {
                        Some(seq![it] + rest)
                    } else {
                        None
                    },
                    None => None,
                },
                None => None,
            }
        }
    } else {
        None
    }
}

// ---------------------------------------------------------------------------
// The canonical form parses back to what was serialized.
// ---------------------------------------------------------------------------
/// Skipping whitespace does nothing when none leads.
pub proof fn lemma_skip_ws_id(s: Seq<char>)
    requires
        s.len() == 0 || !is_ws(s.first()),
    ensures
        skip_ws(s) == s,
{
}

/// A run of `k` digits with a non-digit (or the end) after it is exactly
/// what `digit_run` counts.
pub proof fn lemma_digit_run_exact(s: Seq<char>, k: int)
    requires
        0 <= k <= s.len(),
        forall|j: int| 0 <= j < k ==> is_digit(#[trigger] s[j]),
        k == s.len() || !is_digit(s[k]),
    ensures
        digit_run(s) == k,
    decreases s.len(),
{
    if k == 0 {
    } else {
        assert(is_digit(s[0]));
        let t = s.drop_first();
        assert(forall|j: int| 0 <= j < k - 1 ==> is_digit(#[trigger] t[j]));
        lemma_digit_run_exact(t, k - 1);
    }
}

/// The decimal rendering of `n`, followed by anything that does not start
/// with a digit, parses back to `n`.
pub proof fn lemma_parse_u64_of_dec(n: u64, rest: Seq<char>)
    requires
        rest.len() == 0 || !is_digit(rest.first()),
    ensures
        parse_u64(dec_str(n as nat) + rest) == Some((n, rest)),
{
    let d = dec_str(n as nat);
    crate::text::lemma_dec_str(n as nat);
    let s = d + rest;
    assert(forall|j: int| 0 <= j < d.len() ==> is_digit(#[trigger] s[j])) by {
        assert(forall|j: int| 0 <= j < d.len() ==> s[j] == #[trigger] d[j]);
    }
    lemma_digit_run_exact(s, d.len() as int);
    assert(s.take(d.len() as int) =~= d);
    assert(s.skip(d.len() as int) =~= rest);
}

/// A serialized boolean, followed by anything, parses back to itself.
pub proof fn lemma_parse_bool_of_ser(b: bool, rest: Seq<char>)
    ensures
        parse_bool(ser_bool(b) + rest) == Some((b, rest)),
{
    let s = ser_bool(b) + rest;
    if b {
        assert(s.take(4) =~= lit_true());
        assert(s.skip(4) =~= rest);
    } else {
        assert(s[0] == 'f');
        assert(!starts_with(s, lit_true()));
        assert(s.take(5) =~= lit_false());
        assert(s.skip(5) =~= rest);
    }
}

/// The `\u00XX` escape of a control character parses back to it.
pub proof fn lemma_parse_escape_control(c: char, tail: Seq<char>)
    requires
        is_control(c),
    ensures
        parse_escape(
            seq!['u', '0', '0', hex_char((c as int / 16) as nat), hex_char((c as int % 16) as nat)]
                + tail,
        ) == Some((c, tail)),
{
    let h1 = hex_char((c as int / 16) as nat);
    let h2 = hex_char((c as int % 16) as nat);
    let e = seq!['u', '0', '0', h1, h2] + tail;
    assert(e.first() == 'u');
    assert(e.len() >= 5);
    assert(e[1] == '0' && e[2] == '0' && e[3] == h1 && e[4] == h2);
    assert(is_hex('0') && hex_val('0') == 0);
    assert(0 <= (c as int) && (c as int) < 32);
    assert(is_hex(h1) && hex_val(h1) == (c as int) / 16) by {
        let d = (c as int / 16) as nat;
        assert(d < 10);
        assert(h1 == ((d + 48) as u8) as char);
        assert(48 <= h1 as int <= 57);
    }
    assert(is_hex(h2) && hex_val(h2) == (c as int) % 16) by {
        let d = (c as int % 16) as nat;
        if d < 10 {
            assert(h2 == ((d + 48) as u8) as char);
            assert(48 <= h2 as int <= 57);
        } else {
            assert(h2 == ((d + 87) as u8) as char);
            assert(97 <= h2 as int <= 102);
        }
    }
    let code = hex_val(e[1]) * 4096 + hex_val(e[2]) * 256 + hex_val(e[3]) * 16 + hex_val(e[4]);
    assert(code == ((c as int) / 16) * 16 + (c as int) % 16);
    assert(code == c as int);
    assert(code < 128);
    assert((code as char) == c);
    assert(e.skip(5) =~= tail);
}

/// The escaped body of a string, a closing quote, and anything after parse
/// back to the original characters.
#[verifier::rlimit(50)]
pub proof fn lemma_parse_body_of_escape(v: Seq<char>, rest: Seq<char>)
    ensures
        parse_str_body(escape(v) + seq!['"'] + rest) == Some((v, rest)),
    decreases v.len(),
{
    let s = escape(v) + seq!['"'] + rest;
    if v.len() == 0 {
        assert(s =~= seq!['"'] + rest);
        assert(s.first() == '"');
        assert(s.drop_first() =~= rest);
        assert(Seq::<char>::empty() + rest == rest) by {
            assert(Seq::<char>::empty() + rest =~= rest);
        }
    } else {
        let c = v.first();
        let v2 = v.drop_first();
        let tail = escape(v2) + seq!['"'] + rest;
        assert(s =~= escape_char(c) + tail);
        lemma_parse_body_of_escape(v2, rest);
        if c == '"' {
            assert(s.first() == '\\');
            assert(s.drop_first() =~= seq!['"'] + tail);
            let e = s.drop_first();
            assert(e.first() == '"');
            assert(e.drop_first() =~= tail);
            assert(parse_escape(e) == Some(('"', e.drop_first())));
            assert(seq![c] + v2 =~= v);
        } else if c == '\\' {
            assert(s.first() == '\\');
            assert(s.drop_first() =~= seq!['\\'] + tail);
            let e = s.drop_first();
            assert(e.first() == '\\');
            assert(e.drop_first() =~= tail);
            assert(parse_escape(e) == Some(('\\', e.drop_first())));
            assert(seq![c] + v2 =~= v);
        } else if is_control(c) {
            assert(s.first() == '\\');
            let e = s.drop_first();
            assert(e =~= seq!['u', '0', '0', hex_char((c as int / 16) as nat), hex_char(
                (c as int % 16) as nat,
            )] + tail);
            lemma_parse_escape_control(c, tail);
            assert(parse_escape(e) == Some((c, tail)));
            assert(seq![c] + v2 =~= v);
        } else {
            assert(escape_char(c) =~= seq![c]);
            assert(s.first() == c);
            assert(s.drop_first() =~= tail);
            assert(seq![c] + v2 =~= v);
        }
    }
}

/// A serialized string, followed by anything, parses back to itself.
pub proof fn lemma_parse_string_of_ser(v: Seq<char>, rest: Seq<char>)
    ensures
        parse_string(ser_string(v) + rest) == Some((v, rest)),
{
    let s = ser_string(v) + rest;
    assert(s.first() == '"');
    assert(s.drop_first() =~= escape(v) + seq!['"'] + rest);
    lemma_parse_body_of_escape(v, rest);
}

// The members of a serialized item, each taken up where the previous one
// left off.
/// The text of an item's last member and the closing brace.
pub open spec fn seg_created(it: ItemView) -> Seq<char> {
    ser_string(key_created_at()) + seq![':'] + ser_string(it.created_at) + seq!['}']
}

/// The text of an item's last two members and the closing brace.
pub open spec fn seg_obtained(it: ItemView) -> Seq<char> {
    ser_string(key_obtained()) + seq![':'] + ser_bool(it.obtained) + seq![','] + seg_created(it)
}

/// The text of an item's last three members and the closing brace.
pub open spec fn seg_name(it: ItemView) -> Seq<char> {
    ser_string(key_name()) + seq![':'] + ser_string(it.name) + seq![','] + seg_obtained(it)
}

/// The text of an item's members and the closing brace.
pub open spec fn seg_id(it: ItemView) -> Seq<char> {
    ser_string(key_id()) + seq![':'] + dec_str(it.id as nat) + seq![','] + seg_name(it)
}

/// The serialized item is the opening brace followed by its members.
pub proof fn lemma_ser_item_seg(it: ItemView)
    ensures
        ser_item(it) == seq!['{'] + seg_id(it),
{
    assert(ser_item(it) =~= seq!['{'] + seg_id(it));
}

/// Parsing members from the `created_at` member finishes the item.
#[verifier::rlimit(50)]
pub proof fn lemma_members_created(it: ItemView, rest: Seq<char>, f: Fields)
    requires
        f == (Fields {
            id: Some(it.id),
            name: Some(it.name),
            obtained: Some(it.obtained),
            created_at: None::<Seq<char>>,
        }),
    ensures
        parse_members(seg_created(it) + rest, f) == Some((it, rest)),
{
    let s = seg_created(it) + rest;
    let r1 = seq![':'] + ser_string(it.created_at) + seq!['}'] + rest;
    assert(s =~= ser_string(key_created_at()) + r1);
    lemma_parse_string_of_ser(key_created_at(), r1);
    assert(parse_string(s) == Some((key_created_at(), r1)));
    lemma_skip_ws_id(r1);
    assert(r1.first() == ':');
    let r3 = ser_string(it.created_at) + (seq!['}'] + rest);
    assert(r1.drop_first() =~= r3);
    lemma_skip_ws_id(r3);
    assert(r3.first() == '"');
    assert(key_created_at() != key_id());
    assert(key_created_at() != key_name());
    assert(key_created_at() != key_obtained());
    lemma_parse_string_of_ser(it.created_at, seq!['}'] + rest);
    let r4 = seq!['}'] + rest;
    lemma_skip_ws_id(r4);
    assert(r4.first() == '}');
    assert(r4.drop_first() =~= rest);
}

/// Parsing members from the `obtained` member onward finishes the item.
#[verifier::rlimit(50)]
pub proof fn lemma_members_obtained(it: ItemView, rest: Seq<char>, f: Fields)
    requires
        f == (Fields {
            id: Some(it.id),
            name: Some(it.name),
            obtained: None::<bool>,
            created_at: None::<Seq<char>>,
        }),
    ensures
        parse_members(seg_obtained(it) + rest, f) == Some((it, rest)),
{
    let s = seg_obtained(it) + rest;
    let r1 = seq![':'] + ser_bool(it.obtained) + seq![','] + seg_created(it) + rest;
    assert(s =~= ser_string(key_obtained()) + r1);
    lemma_parse_string_of_ser(key_obtained(), r1);
    lemma_skip_ws_id(r1);
    assert(r1.first() == ':');
    let r3 = ser_bool(it.obtained) + (seq![','] + seg_created(it) + rest);
    assert(r1.drop_first() =~= r3);
    lemma_skip_ws_id(r3);
    assert(key_obtained() != key_id());
    assert(key_obtained() != key_name());
    lemma_parse_bool_of_ser(it.obtained, seq![','] + seg_created(it) + rest);
    let r4 = seq![','] + seg_created(it) + rest;
    lemma_skip_ws_id(r4);
    assert(r4.first() == ',');
    let r6 = seg_created(it) + rest;
    assert(r4.drop_first() =~= r6);
    assert(r6.first() == '"');
    lemma_skip_ws_id(r6);
    assert(r6.len() < s.len());
    lemma_members_created(
        it,
        rest,
        Fields {
            id: Some(it.id),
            name: Some(it.name),
            obtained: Some(it.obtained),
            created_at: None::<Seq<char>>,
        },
    );
}

/// Parsing members from the `name` member onward finishes the item.
#[verifier::rlimit(50)]
pub proof fn lemma_members_name(it: ItemView, rest: Seq<char>, f: Fields)
    requires
        f == (Fields {
            id: Some(it.id),
            name: None::<Seq<char>>,
            obtained: None::<bool>,
            created_at: None::<Seq<char>>,
        }),
    ensures
        parse_members(seg_name(it) + rest, f) == Some((it, rest)),
{
    let s = seg_name(it) + rest;
    let r1 = seq![':'] + ser_string(it.name) + seq![','] + seg_obtained(it) + rest;
    assert(s =~= ser_string(key_name()) + r1);
    lemma_parse_string_of_ser(key_name(), r1);
    lemma_skip_ws_id(r1);
    assert(r1.first() == ':');
    let r3 = ser_string(it.name) + (seq![','] + seg_obtained(it) + rest);
    assert(r1.drop_first() =~= r3);
    lemma_skip_ws_id(r3);
    assert(r3.first() == '"');
    assert(key_name() != key_id());
    lemma_parse_string_of_ser(it.name, seq![','] + seg_obtained(it) + rest);
    let r4 = seq![','] + seg_obtained(it) + rest;
    lemma_skip_ws_id(r4);
    assert(r4.first() == ',');
    let r6 = seg_obtained(it) + rest;
    assert(r4.drop_first() =~= r6);
    assert(r6.first() == '"');
    lemma_skip_ws_id(r6);
    assert(r6.len() < s.len());
    lemma_members_obtained(
        it,
        rest,
        Fields {
            id: Some(it.id),
            name: Some(it.name),
            obtained: None::<bool>,
            created_at: None::<Seq<char>>,
        },
    );
}

/// Parsing members from the first member onward yields the whole item.
#[verifier::rlimit(50)]
pub proof fn lemma_members_id(it: ItemView, rest: Seq<char>)
    ensures
        parse_members(seg_id(it) + rest, no_fields()) == Some((it, rest)),
{
    let s = seg_id(it) + rest;
    let r1 = seq![':'] + dec_str(it.id as nat) + seq![','] + seg_name(it) + rest;
    assert(s =~= ser_string(key_id()) + r1);
    lemma_parse_string_of_ser(key_id(), r1);
    lemma_skip_ws_id(r1);
    assert(r1.first() == ':');
    let r3 = dec_str(it.id as nat) + (seq![','] + seg_name(it) + rest);
    assert(r1.drop_first() =~= r3);
    crate::text::lemma_dec_str(it.id as nat);
    assert(is_digit(r3.first()));
    assert(!is_ws(r3.first()));
    lemma_skip_ws_id(r3);
    lemma_parse_u64_of_dec(it.id, seq![','] + seg_name(it) + rest);
    let r4 = seq![','] + seg_name(it) + rest;
    lemma_skip_ws_id(r4);
    assert(r4.first() == ',');
    let r6 = seg_name(it) + rest;
    assert(r4.drop_first() =~= r6);
    assert(r6.first() == '"');
    lemma_skip_ws_id(r6);
    assert(r6.len() < s.len());
    lemma_members_name(
        it,
        rest,
        Fields {
            id: Some(it.id),
            name: None::<Seq<char>>,
            obtained: None::<bool>,
            created_at: None::<Seq<char>>,
        },
    );
}

/// A serialized item, followed by anything, parses back to itself.
#[verifier::rlimit(50)]
pub proof fn lemma_parse_item_of_ser(it: ItemView, rest: Seq<char>)
    ensures
        parse_item(ser_item(it) + rest) == Some((it, rest)),
{
    let s = ser_item(it) + rest;
    lemma_ser_item_seg(it);
    assert(s =~= seq!['{'] + (seg_id(it) + rest));
    assert(s.first() == '{');
    assert(s.drop_first() =~= seg_id(it) + rest);
    assert((seg_id(it) + rest).first() == '"');
    lemma_skip_ws_id(seg_id(it) + rest);
    lemma_members_id(it, rest);
}

/// The array text after one item: a comma and an item for each later item,
/// then the closing bracket.
pub open spec fn list_tail(items: Seq<ItemView>) -> Seq<char>
    decreases items.len(),
{
    if items.len() == 0 {
        seq![']']
    } else {
        seq![','] + ser_item(items.first()) + list_tail(items.drop_first())
    }
}

/// The serialized list with its closing bracket splits into the first item
/// and the tail text.
pub proof fn lemma_ser_list_split(items: Seq<ItemView>)
    requires
        items.len() >= 1,
    ensures
        ser_list(items) + seq![']'] == ser_item(items.first()) + list_tail(items.drop_first()),
    decreases items.len(),
{
    if items.len() == 1 {
        assert(ser_list(items) + seq![']'] =~= ser_item(items.first()) + list_tail(
            items.drop_first(),
        ));
    } else {
        lemma_ser_list_split(items.drop_first());
        assert(ser_list(items) + seq![']'] =~= ser_item(items.first()) + (seq![','] + (ser_list(
            items.drop_first(),
        ) + seq![']'])));
        assert(seq![','] + (ser_list(items.drop_first()) + seq![']']) =~= list_tail(
            items.drop_first(),
        ));
    }
}

/// The tail text of the remaining items, followed by anything, parses back
/// to those items.
#[verifier::rlimit(30)]
pub proof fn lemma_parse_list_rest_of_tail(items: Seq<ItemView>, rest: Seq<char>)
    ensures
        parse_list_rest(list_tail(items) + rest) == Some((items, rest)),
    decreases items.len(),
{
    let s = list_tail(items) + rest;
    if items.len() == 0 {
        assert(s =~= seq![']'] + rest);
        lemma_skip_ws_id(s);
        assert(s.first() == ']');
        assert(s.drop_first() =~= rest);
    } else {
        let it = items.first();
        let more = items.drop_first();
        assert(s =~= seq![','] + (ser_item(it) + (list_tail(more) + rest)));
        lemma_skip_ws_id(s);
        assert(s.first() == ',');
        let r1 = ser_item(it) + (list_tail(more) + rest);
        assert(s.drop_first() =~= r1);
        assert(r1.first() == '{');
        lemma_skip_ws_id(r1);
        lemma_parse_item_of_ser(it, list_tail(more) + rest);
        let r2 = list_tail(more) + rest;
        assert(r2.len() < s.len());
        lemma_parse_list_rest_of_tail(more, rest);
        assert(seq![it] + more =~= items);
    }
}

/// Round trip: parsing the serialized collection restores it exactly, for
/// any collection of items.
#[verifier::rlimit(30)]
pub proof fn lemma_parse_of_ser_items(items: Seq<ItemView>)
    ensures
        parse_top(ser_items(items)) == Some(items),
{
    let s = ser_items(items);
    assert(s.first() == '[');
    lemma_skip_ws_id(s);
    if items.len() == 0 {
        assert(s =~= seq!['[', ']']);
        let r1 = s.drop_first();
        assert(r1.first() == ']');
        lemma_skip_ws_id(r1);
        assert(r1.drop_first() =~= Seq::<char>::empty());
        lemma_skip_ws_id(Seq::<char>::empty());
    } else {
        lemma_ser_list_split(items);
        let it = items.first();
        let more = items.drop_first();
        let r1 = ser_item(it) + list_tail(more);
        assert(s.drop_first() =~= r1);
        assert(r1.first() == '{');
        assert(r1.first() != ']');
        lemma_skip_ws_id(r1);
        lemma_parse_item_of_ser(it, list_tail(more));
        assert(list_tail(more) =~= list_tail(more) + Seq::<char>::empty());
        lemma_parse_list_rest_of_tail(more, Seq::<char>::empty());
        lemma_skip_ws_id(Seq::<char>::empty());
        assert(seq![it] + more =~= items);
    }
}

} // verus!
