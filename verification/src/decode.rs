//! The executable parser: reads the JSON grammar that the spec functions in
//! [`crate::codec`] describe, and agrees with them on every input.

use vstd::prelude::*;
use vstd::string::StringExecFns;
use crate::codec::{skip_ws, digit_run, parse_u64, parse_escape, parse_str_body, parse_string,
    parse_bool, parse_member_value, parse_members, parse_item, parse_list_rest, parse_top,
    no_fields, Fields, starts_with, is_hex, hex_val, hex4_at, hex4_val, lit_true, lit_false, key_id, key_name,
    key_obtained, key_created_at, lemma_digit_run_exact};
use crate::storage::Item;
use crate::text::{push_char, str_chars, is_ws, is_digit, digits_val, digit_val, ws_test, digit_test, str_eq};

verus! {

/// Whether `c` is a control character.
fn control_test(c: char) -> (r: bool)
    ensures
        r == crate::text::is_control(c),
{
    let v = c as u32;
    v < 32
}

/// Whether `c` is a hexadecimal digit.
fn hex_test(c: char) -> (r: bool)
    ensures
        r == is_hex(c),
{
    let v = c as u32;
    (48 <= v && v <= 57) || (97 <= v && v <= 102) || (65 <= v && v <= 70)
}

/// The value of a hexadecimal digit.
fn hex_val_of(c: char) -> (r: u8)
    requires
        is_hex(c),
    ensures
        r as nat == hex_val(c),
{
    let v = c as u32;
    if v <= 57 {
        (v - 48) as u8
    } else if v >= 97 {
        (v - 87) as u8
    } else {
        (v - 55) as u8
    }
}

/// The position after any whitespace at `pos`.
fn p_skip_ws(s: &Vec<char>, pos: usize) -> (r: usize)
    requires
        pos <= s@.len(),
    ensures
        pos <= r <= s@.len(),
        skip_ws(s@.skip(pos as int)) == s@.skip(r as int),
{
    let n = s.len();
    let mut i: usize = pos;
    while i < n && ws_test(s[i])
        invariant
            pos <= i <= n,
            n == s@.len(),
            skip_ws(s@.skip(pos as int)) == skip_ws(s@.skip(i as int)),
        decreases n - i,
    {
        proof {
            assert(s@.skip(i as int).first() == s@[i as int]);
            assert(s@.skip(i as int).drop_first() =~= s@.skip(i + 1));
        }
        i = i + 1;
    }
    proof {
        if i < n {
            assert(s@.skip(i as int).first() == s@[i as int]);
        }
        assert(skip_ws(s@.skip(i as int)) == s@.skip(i as int));
    }
    i
}

/// A decimal number at `pos`, as `parse_u64` reads it.
fn p_u64(s: &Vec<char>, pos: usize) -> (r: Option<(u64, usize)>)
    requires
        pos <= s@.len(),
    ensures
        match r {
            Some((v, np)) => pos < np <= s@.len() && parse_u64(s@.skip(pos as int)) == Some(
                (v, s@.skip(np as int)),
            ),
            None => parse_u64(s@.skip(pos as int)) is None,
        },
{
    let ghost ss = s@.skip(pos as int);
    let n = s.len();
    if pos == n || !digit_test(s[pos]) {
        proof {
            if pos < n {
                assert(ss[0] == s@[pos as int]);
            }
            lemma_digit_run_exact(ss, 0);
        }
        return None;
    }
    let mut i: usize = pos;
    let mut acc: u64 = 0;
    let mut over: bool = false;
    while i < n && digit_test(s[i])
        invariant
            pos <= i <= n,
            n == s@.len(),
            forall|j: int| pos <= j < i ==> is_digit(#[trigger] s@[j]),
            !over ==> acc as nat == digits_val(s@.subrange(pos as int, i as int)),
            over ==> digits_val(s@.subrange(pos as int, i as int)) > u64::MAX,
        decreases n - i,
    {
        let c = s[i];
        let d: u64 = ((c as u32) - 48) as u64;
        let ghost before = s@.subrange(pos as int, i as int);
        let ghost after = s@.subrange(pos as int, i + 1);
        proof {
            assert(after.drop_last() =~= before);
            assert(after.last() == s@[i as int]);
            assert(d as nat == digit_val(c));
            assert(digits_val(after) == digits_val(before) * 10 + digit_val(c));
        }
        if !over {
            match acc.checked_mul(10) {
                Some(m1) => match m1.checked_add(d) {
                    Some(a2) => {
                        acc = a2;
                    },
                    None => {
                        over = true;
                        proof {
                            assert(digits_val(after) > u64::MAX);
                        }
                    },
                },
                None => {
                    over = true;
                    proof {
                        assert(digits_val(after) >= digits_val(before) * 10);
                        assert(digits_val(after) > u64::MAX);
                    }
                },
            }
        } else {
            proof {
                assert(digits_val(after) >= digits_val(before));
            }
        }
        i = i + 1;
    }
    let ghost k = i - pos;
    proof {
        assert(forall|j: int| 0 <= j < k ==> is_digit(#[trigger] ss[j])) by {
            assert(forall|j: int| 0 <= j < k ==> ss[j] == s@[pos + j]);
        }
        if i < n {
            assert(ss[k] == s@[i as int]);
        }
        lemma_digit_run_exact(ss, k);
        assert(ss.take(k) =~= s@.subrange(pos as int, i as int));
    }
    if over {
        return None;
    }
    proof {
        assert(ss.skip(k) =~= s@.skip(i as int));
        assert(i > pos);
    }
    Some((acc, i))
}

/// One string escape at `pos` (just after the backslash), as `parse_escape`
/// reads it.
fn p_escape(s: &Vec<char>, pos: usize) -> (r: Option<(char, usize)>)
    requires
        pos <= s@.len(),
    ensures
        match r {
            Some((c, np)) => pos < np <= s@.len() && parse_escape(s@.skip(pos as int)) == Some(
                (c, s@.skip(np as int)),
            ),
            None => parse_escape(s@.skip(pos as int)) is None,
        },
{
    let ghost ss = s@.skip(pos as int);
    let n = s.len();
    if pos == n {
        return None;
    }
    let c = s[pos];
    proof {
        assert(ss.first() == c);
        assert(ss.drop_first() =~= s@.skip(pos + 1));
    }
    if c == '"' {
        Some(('"', pos + 1))
    } else if c == '\\' {
        Some(('\\', pos + 1))
    } else if c == '/' {
        Some(('/', pos + 1))
    } else if c == 'b' {
        Some(('\u{8}', pos + 1))
    } else if c == 'f' {
        Some(('\u{c}', pos + 1))
    } else if c == 'n' {
        Some(('\n', pos + 1))
    } else if c == 'r' {
        Some(('\r', pos + 1))
    } else if c == 't' {
        Some(('\t', pos + 1))
    } else if c == 'u' {
        if n - pos >= 5 {
            let c1 = s[pos + 1];
            let c2 = s[pos + 2];
            let c3 = s[pos + 3];
            let c4 = s[pos + 4];
            proof {
                assert(ss.len() >= 5);
                assert(ss[1] == c1 && ss[2] == c2 && ss[3] == c3 && ss[4] == c4);
            }
            if hex_test(c1) && hex_test(c2) && hex_test(c3) && hex_test(c4) {
                let code: u32 = (hex_val_of(c1) as u32) * 4096 + (hex_val_of(c2) as u32) * 256 + (
                hex_val_of(c3) as u32) * 16 + (hex_val_of(c4) as u32);
                proof {
                    assert(hex4_at(ss, 1));
                    assert(code as int == hex4_val(ss, 1));
                }
                if code < 0xD800 || code >= 0xE000 {
                    match char_from_u32(code) {
                        Some(ch) => {
                            proof {
                                assert(ch as int == code as int);
                                assert((hex4_val(ss, 1) as char) as int == hex4_val(ss, 1));
                                assert(ch == (hex4_val(ss, 1) as char));
                                assert(ss.skip(5) =~= s@.skip(pos + 5));
                            }
                            Some((ch, pos + 5))
                        },
                        None => {
                            proof {
                                assert(false);
                            }
                            None
                        },
                    }
                } else if code < 0xDC00 {
                    if n - pos >= 11 && s[pos + 5] == '\\' && s[pos + 6] == 'u' {
                        let d1 = s[pos + 7];
                        let d2 = s[pos + 8];
                        let d3 = s[pos + 9];
                        let d4 = s[pos + 10];
                        proof {
                            assert(ss.len() >= 11);
                            assert(ss[5] == s@[pos + 5] && ss[6] == s@[pos + 6]);
                            assert(ss[7] == d1 && ss[8] == d2 && ss[9] == d3 && ss[10] == d4);
                        }
                        if hex_test(d1) && hex_test(d2) && hex_test(d3) && hex_test(d4) {
                            let low: u32 = (hex_val_of(d1) as u32) * 4096 + (hex_val_of(d2)
                                as u32) * 256 + (hex_val_of(d3) as u32) * 16 + (hex_val_of(d4)
                                as u32);
                            proof {
                                assert(hex4_at(ss, 7));
                                assert(low as int == hex4_val(ss, 7));
                            }
                            if 0xDC00 <= low && low < 0xE000 {
                                let cp: u32 = 0x10000 + (code - 0xD800) * 0x400 + (low - 0xDC00);
                                match char_from_u32(cp) {
                                    Some(ch) => {
                                        proof {
                                            let spec_cp = 0x10000 + (hex4_val(ss, 1) - 0xD800)
                                                * 0x400 + (hex4_val(ss, 7) - 0xDC00);
                                            assert(cp as int == spec_cp);
                                            assert(ch as int == cp as int);
                                            assert((spec_cp as char) as int == spec_cp);
                                            assert(ch == (spec_cp as char));
                                            assert(ss.skip(11) =~= s@.skip(pos + 11));
                                        }
                                        Some((ch, pos + 11))
                                    },
                                    None => {
                                        proof {
                                            assert(false);
                                        }
                                        None
                                    },
                                }
                            } else {
                                None
                            }
                        } else {
                            None
                        }
                    } else {
                        proof {
                            if n - pos >= 11 {
                                assert(ss[5] == s@[pos + 5] && ss[6] == s@[pos + 6]);
                            } else {
                                assert(ss.len() < 11);
                            }
                        }
                        None
                    }
                } else {
                    None
                }
            } else {
                None
            }
        } else {
            proof {
                assert(ss.len() < 5);
            }
            None
        }
    } else {
        None
    }
}

/// Relies on std's `char::from_u32`: the character with the given code
/// point, exactly when the value is a Unicode scalar value — at most
/// 0x10FFFF and not a surrogate.
#[verifier::external_body]
fn char_from_u32(v: u32) -> (r: Option<char>)
    ensures
        r matches Some(c) ==> c as int == v as int,
        r is Some <==> (v < 0xD800 || (0xE000 <= v && v <= 0x10FFFF)),
{
    char::from_u32(v)
}

/// A string body at `pos` (just after the opening quote), as
/// `parse_str_body` reads it.
fn p_str_body(s: &Vec<char>, pos: usize) -> (r: Option<(String, usize)>)
    requires
        pos <= s@.len(),
    ensures
        match r {
            Some((v, np)) => pos < np <= s@.len() && parse_str_body(s@.skip(pos as int)) == Some(
                (v@, s@.skip(np as int)),
            ),
            None => parse_str_body(s@.skip(pos as int)) is None,
        },
{
    let n = s.len();
    let mut acc = String::new();
    let mut cur: usize = pos;
    loop
        invariant
            pos <= cur <= n,
            n == s@.len(),
            (match parse_str_body(s@.skip(cur as int)) {
                Some(p) => parse_str_body(s@.skip(pos as int)) == Some((acc@ + p.0, p.1)),
                None => parse_str_body(s@.skip(pos as int)) is None,
            }),
        decreases n - cur,
    {
        if cur == n {
            return None;
        }
        let c = s[cur];
        proof {
            assert(s@.skip(cur as int).first() == c);
            assert(s@.skip(cur as int).drop_first() =~= s@.skip(cur + 1));
        }
        if c == '"' {
            proof {
                assert(parse_str_body(s@.skip(cur as int)) == Some(
                    (Seq::<char>::empty(), s@.skip(cur + 1)),
                ));
                assert(acc@ + Seq::<char>::empty() =~= acc@);
            }
            return Some((acc, cur + 1));
        } else if c == '\\' {
            match p_escape(s, cur + 1) {
                Some((c2, np)) => {
                    proof {
                        assert(s@.skip(np as int).len() < s@.skip(cur as int).len());
                    }
                    let ghost acc0 = acc@;
                    push_char(&mut acc, c2);
                    proof {
                        match parse_str_body(s@.skip(np as int)) {
                            Some(p) => {
                                assert(parse_str_body(s@.skip(cur as int)) == Some(
                                    (seq![c2] + p.0, p.1),
                                ));
                                assert(acc0 + (seq![c2] + p.0) =~= acc@ + p.0);
                            },
                            None => {},
                        }
                    }
                    cur = np;
                },
                None => {
                    return None;
                },
            }
        } else if control_test(c) {
            return None;
        } else {
            let ghost acc0 = acc@;
            push_char(&mut acc, c);
            proof {
                match parse_str_body(s@.skip(cur + 1)) {
                    Some(p) => {
                        assert(parse_str_body(s@.skip(cur as int)) == Some((seq![c] + p.0, p.1)));
                        assert(acc0 + (seq![c] + p.0) =~= acc@ + p.0);
                    },
                    None => {},
                }
            }
            cur = cur + 1;
        }
    }
}

/// A quoted string at `pos`, as `parse_string` reads it.
fn p_string(s: &Vec<char>, pos: usize) -> (r: Option<(String, usize)>)
    requires
        pos <= s@.len(),
    ensures
        match r {
            Some((v, np)) => pos < np <= s@.len() && parse_string(s@.skip(pos as int)) == Some(
                (v@, s@.skip(np as int)),
            ),
            None => parse_string(s@.skip(pos as int)) is None,
        },
{
    if pos < s.len() && s[pos] == '"' {
        proof {
            assert(s@.skip(pos as int).first() == '"');
            assert(s@.skip(pos as int).drop_first() =~= s@.skip(pos + 1));
        }
        p_str_body(s, pos + 1)
    } else {
        proof {
            if pos < s@.len() {
                assert(s@.skip(pos as int).first() == s@[pos as int]);
            }
        }
        None
    }
}

/// The four characters of `lit_true` at `pos`.
fn match_true(s: &Vec<char>, pos: usize) -> (r: bool)
    requires
        pos <= s@.len(),
    ensures
        r == starts_with(s@.skip(pos as int), lit_true()),
{
    let ghost ss = s@.skip(pos as int);
    let n = s.len();
    if n - pos >= 4 && s[pos] == 't' && s[pos + 1] == 'r' && s[pos + 2] == 'u' && s[pos + 3]
        == 'e' {
        proof {
            assert(ss.take(4) =~= lit_true());
        }
        true
    } else {
        proof {
            if ss.len() >= 4 {
                assert(ss.take(4)[0] == s@[pos as int]);
                assert(ss.take(4)[1] == s@[pos + 1]);
                assert(ss.take(4)[2] == s@[pos + 2]);
                assert(ss.take(4)[3] == s@[pos + 3]);
                assert(ss.take(4) != lit_true());
            }
        }
        false
    }
}

/// The five characters of `lit_false` at `pos`.
fn match_false(s: &Vec<char>, pos: usize) -> (r: bool)
    requires
        pos <= s@.len(),
    ensures
        r == starts_with(s@.skip(pos as int), lit_false()),
{
    let ghost ss = s@.skip(pos as int);
    let n = s.len();
    if n - pos >= 5 && s[pos] == 'f' && s[pos + 1] == 'a' && s[pos + 2] == 'l' && s[pos + 3] == 's'
        && s[pos + 4] == 'e' {
        proof {
            assert(ss.take(5) =~= lit_false());
        }
        true
    } else {
        proof {
            if ss.len() >= 5 {
                assert(ss.take(5)[0] == s@[pos as int]);
                assert(ss.take(5)[1] == s@[pos + 1]);
                assert(ss.take(5)[2] == s@[pos + 2]);
                assert(ss.take(5)[3] == s@[pos + 3]);
                assert(ss.take(5)[4] == s@[pos + 4]);
                assert(ss.take(5) != lit_false());
            }
        }
        false
    }
}

/// A boolean literal at `pos`, as `parse_bool` reads it.
fn p_bool(s: &Vec<char>, pos: usize) -> (r: Option<(bool, usize)>)
    requires
        pos <= s@.len(),
    ensures
        match r {
            Some((v, np)) => pos < np <= s@.len() && parse_bool(s@.skip(pos as int)) == Some(
                (v, s@.skip(np as int)),
            ),
            None => parse_bool(s@.skip(pos as int)) is None,
        },
{
    let ghost ss = s@.skip(pos as int);
    let n = s.len();
    if match_true(s, pos) {
        proof {
            assert(ss.len() >= 4);
            assert(pos + 4 <= n);
            assert(ss.skip(4) =~= s@.skip(pos + 4));
        }
        Some((true, pos + 4))
    } else if match_false(s, pos) {
        proof {
            assert(ss.len() >= 5);
            assert(pos + 5 <= n);
            assert(ss.skip(5) =~= s@.skip(pos + 5));
        }
        Some((false, pos + 5))
    } else {
        None
    }
}

/// The members of one object starting at `pos` (just after the opening
/// brace and any whitespace), as `parse_members` reads them from an empty
/// gathering of fields.
fn p_members(s: &Vec<char>, pos: usize) -> (r: Option<(Item, usize)>)
    requires
        pos <= s@.len(),
    ensures
        match r {
            Some((item, np)) => pos < np <= s@.len() && parse_members(
                s@.skip(pos as int),
                no_fields(),
            ) == Some((item@, s@.skip(np as int))),
            None => parse_members(s@.skip(pos as int), no_fields()) is None,
        },
{
    let n = s.len();
    let mut cur: usize = pos;
    let mut fid: Option<u64> = None;
    let mut has_name: bool = false;
    let mut name_val = String::new();
    let mut fobt: Option<bool> = None;
    let mut has_cre: bool = false;
    let mut cre_val = String::new();
    loop
        invariant
            pos <= cur <= n,
            n == s@.len(),
            (match parse_members(
                s@.skip(cur as int),
                Fields {
                    id: fid,
                    name: if has_name {
                        Some(name_val@)
                    } else {
                        None
                    },
                    obtained: fobt,
                    created_at: if has_cre {
                        Some(cre_val@)
                    } else {
                        None
                    },
                },
            ) {
                Some(p) => parse_members(s@.skip(pos as int), no_fields()) == Some(p),
                None => parse_members(s@.skip(pos as int), no_fields()) is None,
            }),
        decreases n - cur,
    {
        proof {
            reveal_strlit("id");
            reveal_strlit("name");
            reveal_strlit("obtained");
            reveal_strlit("created_at");
            assert("id"@ =~= key_id());
            assert("name"@ =~= key_name());
            assert("obtained"@ =~= key_obtained());
            assert("created_at"@ =~= key_created_at());
        }
        let ghost fcur = Fields {
            id: fid,
            name: if has_name {
                Some(name_val@)
            } else {
                None
            },
            obtained: fobt,
            created_at: if has_cre {
                Some(cre_val@)
            } else {
                None
            },
        };
        let keyr = p_string(s, cur);
        match keyr {
            None => {
                return None;
            },
            Some((key, p1)) => {
                let p2 = p_skip_ws(s, p1);
                if !(p2 < n && s[p2] == ':') {
                    proof {
                        if p2 < n {
                            assert(s@.skip(p2 as int).first() == s@[p2 as int]);
                        }
                    }
                    return None;
                }
                proof {
                    assert(s@.skip(p2 as int).first() == ':');
                    assert(s@.skip(p2 as int).drop_first() =~= s@.skip(p2 + 1));
                }
                let p3 = p_skip_ws(s, p2 + 1);
                let p4: usize;
                if str_eq(&key, "id") {
                    if fid.is_some() {
                        return None;
                    }
                    match p_u64(s, p3) {
                        Some((v, np)) => {
                            fid = Some(v);
                            p4 = np;
                        },
                        None => {
                            return None;
                        },
                    }
                } else if str_eq(&key, "name") {
                    if has_name {
                        return None;
                    }
                    match p_string(s, p3) {
                        Some((v, np)) => {
                            has_name = true;
                            name_val = v;
                            p4 = np;
                        },
                        None => {
                            return None;
                        },
                    }
                } else if str_eq(&key, "obtained") {
                    if fobt.is_some() {
                        return None;
                    }
                    match p_bool(s, p3) {
                        Some((v, np)) => {
                            fobt = Some(v);
                            p4 = np;
                        },
                        None => {
                            return None;
                        },
                    }
                } else if str_eq(&key, "created_at") {
                    if has_cre {
                        return None;
                    }
                    match p_string(s, p3) {
                        Some((v, np)) => {
                            has_cre = true;
                            cre_val = v;
                            p4 = np;
                        },
                        None => {
                            return None;
                        },
                    }
                } else {
                    return None;
                }
                let ghost f2 = Fields {
                    id: fid,
                    name: if has_name {
                        Some(name_val@)
                    } else {
                        None
                    },
                    obtained: fobt,
                    created_at: if has_cre {
                        Some(cre_val@)
                    } else {
                        None
                    },
                };
                proof {
                    assert(parse_member_value(key@, s@.skip(p3 as int), fcur) == Some(
                        (f2, s@.skip(p4 as int)),
                    ));
                }
                let p5 = p_skip_ws(s, p4);
                if p5 < n && s[p5] == ',' {
                    proof {
                        assert(s@.skip(p5 as int).first() == ',');
                        assert(s@.skip(p5 as int).drop_first() =~= s@.skip(p5 + 1));
                    }
                    let p6 = p_skip_ws(s, p5 + 1);
                    proof {
                        assert(s@.skip(p6 as int).len() < s@.skip(cur as int).len());
                        assert(parse_members(s@.skip(cur as int), fcur) == parse_members(
                            s@.skip(p6 as int),
                            f2,
                        ));
                    }
                    cur = p6;
                } else if p5 < n && s[p5] == '}' {
                    proof {
                        assert(s@.skip(p5 as int).first() == '}');
                        assert(s@.skip(p5 as int).drop_first() =~= s@.skip(p5 + 1));
                    }
                    if fid.is_some() && has_name && fobt.is_some() && has_cre {
                        let item = Item {
                            id: fid.unwrap(),
                            name: name_val,
                            obtained: fobt.unwrap(),
                            created_at: cre_val,
                        };
                        proof {
                            assert(parse_members(s@.skip(cur as int), fcur) == Some(
                                (item@, s@.skip(p5 + 1)),
                            ));
                        }
                        return Some((item, p5 + 1));
                    } else {
                        return None;
                    }
                } else {
                    proof {
                        if p5 < n {
                            assert(s@.skip(p5 as int).first() == s@[p5 as int]);
                        }
                    }
                    return None;
                }
            },
        }
    }
}

/// One item object at `pos`, as `parse_item` reads it.
fn p_item(s: &Vec<char>, pos: usize) -> (r: Option<(Item, usize)>)
    requires
        pos <= s@.len(),
    ensures
        match r {
            Some((item, np)) => pos < np <= s@.len() && parse_item(s@.skip(pos as int)) == Some(
                (item@, s@.skip(np as int)),
            ),
            None => parse_item(s@.skip(pos as int)) is None,
        },
{
    if pos < s.len() && s[pos] == '{' {
        proof {
            assert(s@.skip(pos as int).first() == '{');
            assert(s@.skip(pos as int).drop_first() =~= s@.skip(pos + 1));
        }
        let p1 = p_skip_ws(s, pos + 1);
        p_members(s, p1)
    } else {
        proof {
            if pos < s@.len() {
                assert(s@.skip(pos as int).first() == s@[pos as int]);
            }
        }
        None
    }
}

/// The remainder of the array after one item, as `parse_list_rest` reads it.
fn p_list_rest(s: &Vec<char>, pos: usize) -> (r: Option<(Vec<Item>, usize)>)
    requires
        pos <= s@.len(),
    ensures
        match r {
            Some(p) => p.1 <= s@.len() && parse_list_rest(s@.skip(pos as int)) == Some(
                (p.0.deep_view(), s@.skip(p.1 as int)),
            ),
            None => parse_list_rest(s@.skip(pos as int)) is None,
        },
{
    let n = s.len();
    let mut acc: Vec<Item> = Vec::new();
    let mut cur: usize = pos;
    loop
        invariant
            pos <= cur <= n,
            n == s@.len(),
            (match parse_list_rest(s@.skip(cur as int)) {
                Some(p) => parse_list_rest(s@.skip(pos as int)) == Some(
                    (acc.deep_view() + p.0, p.1),
                ),
                None => parse_list_rest(s@.skip(pos as int)) is None,
            }),
        decreases n - cur,
    {
        let q = p_skip_ws(s, cur);
        if q < n && s[q] == ']' {
            proof {
                assert(s@.skip(q as int).first() == ']');
                assert(s@.skip(q as int).drop_first() =~= s@.skip(q + 1));
                assert(parse_list_rest(s@.skip(cur as int)) == Some(
                    (Seq::<crate::storage::ItemView>::empty(), s@.skip(q + 1)),
                ));
                assert(acc.deep_view() + Seq::<crate::storage::ItemView>::empty()
                    =~= acc.deep_view());
            }
            return Some((acc, q + 1));
        } else if q < n && s[q] == ',' {
            proof {
                assert(s@.skip(q as int).first() == ',');
                assert(s@.skip(q as int).drop_first() =~= s@.skip(q + 1));
            }
            let q2 = p_skip_ws(s, q + 1);
            match p_item(s, q2) {
                Some((item, np)) => {
                    proof {
                        assert(s@.skip(np as int).len() < s@.skip(cur as int).len());
                    }
                    let ghost acc0 = acc.deep_view();
                    acc.push(item);
                    proof {
                        assert(acc.deep_view() =~= acc0.push(item@));
                        match parse_list_rest(s@.skip(np as int)) {
                            Some(p) => {
                                assert(parse_list_rest(s@.skip(cur as int)) == Some(
                                    (seq![item@] + p.0, p.1),
                                ));
                                assert(acc0 + (seq![item@] + p.0) =~= acc.deep_view() + p.0);
                            },
                            None => {},
                        }
                    }
                    cur = np;
                },
                None => {
                    return None;
                },
            }
        } else {
            proof {
                if q < n {
                    assert(s@.skip(q as int).first() == s@[q as int]);
                }
            }
            return None;
        }
    }
}

/// The whole input as an item collection, exactly when `parse_top`
/// accepts it.
pub fn json_to_items(text: &str) -> (r: Option<Vec<Item>>)
    ensures
        match r {
            Some(v) => parse_top(text@) == Some(v.deep_view()),
            None => parse_top(text@) is None,
        },
{
    let s = str_chars(text);
    proof {
        assert(s@.skip(0) =~= text@);
    }
    let n = s.len();
    let p0 = p_skip_ws(&s, 0);
    if !(p0 < n && s[p0] == '[') {
        proof {
            if p0 < n {
                assert(s@.skip(p0 as int).first() == s@[p0 as int]);
            }
        }
        return None;
    }
    proof {
        assert(s@.skip(p0 as int).first() == '[');
        assert(s@.skip(p0 as int).drop_first() =~= s@.skip(p0 + 1));
    }
    let p1 = p_skip_ws(&s, p0 + 1);
    if p1 < n && s[p1] == ']' {
        proof {
            assert(s@.skip(p1 as int).first() == ']');
            assert(s@.skip(p1 as int).drop_first() =~= s@.skip(p1 + 1));
        }
        let p2 = p_skip_ws(&s, p1 + 1);
        if p2 == n {
            let out: Vec<Item> = Vec::new();
            proof {
                assert(s@.skip(p2 as int).len() == 0);
                assert(out.deep_view() =~= Seq::<crate::storage::ItemView>::empty());
            }
            return Some(out);
        } else {
            proof {
                assert(s@.skip(p2 as int).len() > 0);
            }
            return None;
        }
    }
    proof {
        if p1 < n {
            assert(s@.skip(p1 as int).first() == s@[p1 as int]);
        }
    }
    match p_item(&s, p1) {
        Some((item, p2)) => {
            match p_list_rest(&s, p2) {
                Some((more, p3)) => {
                    let p4 = p_skip_ws(&s, p3);
                    if p4 == n {
                        let mut out: Vec<Item> = Vec::new();
                        let mut rest = more;
                        out.push(item);
                        let ghost rest0 = rest.deep_view();
                        out.append(&mut rest);
                        proof {
                            assert(s@.skip(p4 as int).len() == 0);
                            assert(out.deep_view() =~= seq![item@] + rest0);
                        }
                        Some(out)
                    } else {
                        proof {
                            assert(s@.skip(p4 as int).len() > 0);
                        }
                        None
                    }
                },
                None => None,
            }
        },
        None => None,
    }
}

} // verus!
