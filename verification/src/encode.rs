//! The executable serializer: writes the canonical JSON form that the spec
//! functions in [`crate::codec`] describe.

use vstd::prelude::*;
use vstd::string::StrSliceExecFns;
use vstd::string::StringExecFns;
use crate::codec::{escape, escape_char, ser_string, ser_bool, ser_item, ser_list, ser_items,
    lit_true, lit_false, key_id, key_name, key_obtained, key_created_at};
use crate::storage::Item;
use crate::text::{push_char, str_chars, u64_to_string, is_control};

verus! {

/// Escaping one more character extends the escaped text at its end.
proof fn lemma_escape_snoc(a: Seq<char>, c: char)
    ensures
        escape(a.push(c)) == escape(a) + escape_char(c),
    decreases a.len(),
{
    if a.len() == 0 {
        assert(a.push(c).drop_first() =~= Seq::<char>::empty());
        assert(escape(Seq::<char>::empty()) == Seq::<char>::empty());
        assert(a.push(c).first() == c);
        assert(escape(a.push(c)) == escape_char(c) + Seq::<char>::empty());
        assert(escape(a.push(c)) =~= escape(a) + escape_char(c));
    } else {
        assert(a.push(c).drop_first() =~= a.drop_first().push(c));
        lemma_escape_snoc(a.drop_first(), c);
        assert(escape_char(a[0]) + (escape(a.drop_first()) + escape_char(c)) =~= (escape_char(a[0])
            + escape(a.drop_first())) + escape_char(c));
        assert(a.push(c).first() == a[0]);
    }
}

/// Appends the escape of one character.
fn append_escaped_char(out: &mut String, c: char)
    ensures
        final(out)@ == old(out)@ + escape_char(c),
{
    if c == '"' {
        push_char(out, '\\');
        push_char(out, '"');
        assert(final(out)@ =~= old(out)@ + escape_char(c));
    } else if c == '\\' {
        push_char(out, '\\');
        push_char(out, '\\');
        assert(final(out)@ =~= old(out)@ + escape_char(c));
    } else if (c as u32) < 32 {
        let v: u8 = (c as u32) as u8;
        let hi: u8 = v / 16;
        let lo: u8 = v % 16;
        let hic: char = (hi + 48) as char;
        let loc: char = if lo < 10 {
            (lo + 48) as char
        } else {
            (lo + 87) as char
        };
        push_char(out, '\\');
        push_char(out, 'u');
        push_char(out, '0');
        push_char(out, '0');
        push_char(out, hic);
        push_char(out, loc);
        proof {
            assert(is_control(c));
            assert(v == c as int);
            assert(hi as int == (c as int) / 16);
            assert(lo as int == (c as int) % 16);
            assert(hic == crate::codec::hex_char((c as int / 16) as nat));
            assert(loc == crate::codec::hex_char((c as int % 16) as nat));
            assert(final(out)@ =~= old(out)@ + escape_char(c));
        }
    } else {
        push_char(out, c);
        assert(final(out)@ =~= old(out)@ + escape_char(c));
    }
}

/// Appends a string in its JSON form: quoted and escaped.
fn append_quoted(out: &mut String, s: &str)
    ensures
        final(out)@ == old(out)@ + ser_string(s@),
{
    let chars = str_chars(s);
    push_char(out, '"');
    let ghost base = out@;
    let n = chars.len();
    let mut i: usize = 0;
    while i < n
        invariant
            i <= n,
            n == chars@.len(),
            chars@ == s@,
            out@ == base + escape(s@.take(i as int)),
        decreases n - i,
    {
        append_escaped_char(out, chars[i]);
        proof {
            assert(s@.take(i as int).push(s@[i as int]) =~= s@.take(i + 1));
            lemma_escape_snoc(s@.take(i as int), s@[i as int]);
        }
        i = i + 1;
    }
    assert(s@.take(n as int) =~= s@);
    push_char(out, '"');
    assert(final(out)@ =~= old(out)@ + ser_string(s@));
}

/// Appends one item in its JSON form.
#[verifier::rlimit(60)]
fn append_item(out: &mut String, item: &Item)
    ensures
        final(out)@ == old(out)@ + ser_item(item@),
{
    proof {
        reveal_strlit("id");
        reveal_strlit("name");
        reveal_strlit("obtained");
        reveal_strlit("created_at");
        reveal_strlit("true");
        reveal_strlit("false");
        assert("id"@ =~= key_id());
        assert("name"@ =~= key_name());
        assert("obtained"@ =~= key_obtained());
        assert("created_at"@ =~= key_created_at());
        assert("true"@ =~= lit_true());
        assert("false"@ =~= lit_false());
    }
    push_char(out, '{');
    append_quoted(out, "id");
    push_char(out, ':');
    let ds = u64_to_string(item.id);
    out.append(ds.as_str());
    push_char(out, ',');
    append_quoted(out, "name");
    push_char(out, ':');
    append_quoted(out, item.name.as_str());
    push_char(out, ',');
    append_quoted(out, "obtained");
    push_char(out, ':');
    if item.obtained {
        out.append("true");
    } else {
        out.append("false");
    }
    push_char(out, ',');
    append_quoted(out, "created_at");
    push_char(out, ':');
    append_quoted(out, item.created_at.as_str());
    push_char(out, '}');
    assert(final(out)@ =~= old(out)@ + ser_item(item@));
}

/// Appends the items from index `i` on, comma-separated.
fn append_list(out: &mut String, items: &Vec<Item>, i: usize)
    requires
        i < items@.len(),
    ensures
        final(out)@ == old(out)@ + ser_list(items.deep_view().skip(i as int)),
    decreases items@.len() - i,
{
    let ghost dv = items.deep_view();
    let n = items.len();
    append_item(out, &items[i]);
    if i + 1 < n {
        push_char(out, ',');
        append_list(out, items, i + 1);
        proof {
            assert(dv.skip(i as int).first() == items[i as int]@);
            assert(dv.skip(i as int).drop_first() =~= dv.skip(i + 1));
            assert(dv.skip(i as int).len() >= 2);
            assert(final(out)@ =~= old(out)@ + ser_list(dv.skip(i as int)));
        }
    } else {
        proof {
            assert(dv.skip(i as int).len() == 1);
            assert(dv.skip(i as int).first() == items[i as int]@);
            assert(final(out)@ =~= old(out)@ + ser_list(dv.skip(i as int)));
        }
    }
}

/// The whole collection as canonical JSON text.
pub fn items_to_json(items: &Vec<Item>) -> (r: String)
    ensures
        r@ == ser_items(items.deep_view()),
{
    let mut out = String::new();
    push_char(&mut out, '[');
    if items.len() > 0 {
        append_list(&mut out, items, 0);
        proof {
            assert(items.deep_view().skip(0) =~= items.deep_view());
        }
    }
    push_char(&mut out, ']');
    assert(out@ =~= ser_items(items.deep_view()));
    out
}

} // verus!
