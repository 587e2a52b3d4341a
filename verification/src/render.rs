//! Writing JSON text.

use vstd::prelude::*;
use crate::error::{Error, Result};
use crate::text;

verus! {

/// One character inside a JSON string.
pub open spec fn json_escaped(c: char) -> Seq<char> {
    if c == '"' || c == '\\' {
        seq!['\\', c]
    } else if c == '\u{8}' {
        seq!['\\', 'b']
    } else if c == '\u{9}' {
        seq!['\\', 't']
    } else if c == '\u{a}' {
        seq!['\\', 'n']
    } else if c == '\u{c}' {
        seq!['\\', 'f']
    } else if c == '\u{d}' {
        seq!['\\', 'r']
    } else if (c as u32) < 32 {
        seq!['\\', 'u', '0', '0'] + text::hex(seq![c as u8])
    } else {
        seq![c]
    }
}

/// The inside of the JSON string for `s`.
pub open spec fn json_string_body(s: Seq<char>) -> Seq<char>
    decreases s.len(),
{
    if s.len() == 0 {
        Seq::empty()
    } else {
        json_escaped(s[0]) + json_string_body(s.drop_first())
    }
}

/// The JSON string for `s`.
pub open spec fn json_string(s: Seq<char>) -> Seq<char> {
    seq!['"'] + json_string_body(s) + seq!['"']
}

/// The JSON text of a boolean.
pub open spec fn json_bool(b: bool) -> Seq<char> {
    if b {
        "true"@
    } else {
        "false"@
    }
}

/// A member of a JSON object: the name in quotes, a colon, the value.
pub open spec fn json_member(name: Seq<char>, value: Seq<char>) -> Seq<char> {
    seq!['"'] + name + seq!['"', ':'] + value
}

/// A JSON object with the given members, in order.
pub open spec fn json_object(members: Seq<Seq<char>>) -> Seq<char> {
    seq!['{'] + text::join(members, ","@) + seq!['}']
}

/// A JSON array with the given elements, in order.
pub open spec fn json_array(elements: Seq<Seq<char>>) -> Seq<char> {
    seq!['['] + text::join(elements, ","@) + seq![']']
}

/// What a list of strings holds.
pub open spec fn string_views(list: Seq<String>) -> Seq<Seq<char>> {
    list.map_values(|s: String| s@)
}

/// `serde_json::to_string` of a string: the text in quotes, with quotes,
/// backslashes and control characters escaped. It never fails on a string.
#[verifier::external_body]
fn serde_string(s: &str) -> (r: std::result::Result<String, serde_json::Error>)
    ensures
        match r {
            Ok(t) => t@ == json_string(s@),
            Err(_) => false,
        },
{
    serde_json::to_string(s)
}

/// The JSON string for `s`.
pub fn write_string(s: &str) -> (r: Result<String>)
    ensures
        match r {
            Ok(t) => t@ == json_string(s@),
            Err(_) => false,
        },
{
    match serde_string(s) {
        Ok(t) => Ok(t),
        Err(e) => Err(Error::from(e)),
    }
}

/// The JSON text of a boolean.
pub fn write_bool(b: bool) -> (r: String)
    ensures
        r@ == json_bool(b),
{
    if b {
        "true".to_owned()
    } else {
        "false".to_owned()
    }
}

/// A member of a JSON object.
pub fn write_member(name: &str, value: &str) -> (r: String)
    ensures
        r@ == json_member(name@, value@),
{
    let mut out = String::new();
    out.push('"');
    out.append(name);
    out.push('"');
    out.push(':');
    out.append(value);
    assert(out@ =~= json_member(name@, value@));
    out
}

fn push_list(out: &mut String, pieces: &Vec<String>)
    ensures
        final(out)@ == old(out)@ + text::join(string_views(pieces@), ","@),
{
    let ghost all = string_views(pieces@);
    let mut i: usize = 0;
    assert(all.take(0) =~= Seq::<Seq<char>>::empty());
    while i < pieces.len()
        invariant
            i <= pieces@.len(),
            all == string_views(pieces@),
            out@ == old(out)@ + text::join(all.take(i as int), ","@),
        decreases pieces@.len() - i,
    {
        assert(all.take(i + 1).drop_last() =~= all.take(i as int));
        if i > 0 {
            out.append(",");
        }
        out.append(pieces[i].as_str());
        i = i + 1;
    }
    assert(all.take(i as int) == all);
}

/// A JSON object with the given members.
pub fn write_object(members: &Vec<String>) -> (r: String)
    ensures
        r@ == json_object(string_views(members@)),
{
    let mut out = String::new();
    out.push('{');
    push_list(&mut out, members);
    out.push('}');
    assert(out@ =~= json_object(string_views(members@)));
    out
}

/// A JSON array with the given elements.
pub fn write_array(elements: &Vec<String>) -> (r: String)
    ensures
        r@ == json_array(string_views(elements@)),
{
    let mut out = String::new();
    out.push('[');
    push_list(&mut out, elements);
    out.push(']');
    assert(out@ =~= json_array(string_views(elements@)));
    out
}

/// Where a reader stands in JSON text: how many brackets are open, and whether
/// it is inside a string, there perhaps behind a backslash.
pub struct Scan {
    pub depth: int,
    pub quoted: bool,
    pub escaping: bool,
}

/// Outside of everything.
pub open spec fn outside() -> Scan {
    Scan { depth: 0, quoted: false, escaping: false }
}

/// Inside a string that began outside of everything.
spec fn in_string() -> Scan {
    Scan { depth: 0, quoted: true, escaping: false }
}

/// One level further in.
spec fn deeper(at: Scan) -> Scan {
    Scan { depth: at.depth + 1, ..at }
}

/// Where the reader stands after one more character.
pub open spec fn step(at: Scan, c: char) -> Scan {
    if at.quoted {
        if at.escaping {
            Scan { escaping: false, ..at }
        } else if c == '\\' {
            Scan { escaping: true, ..at }
        } else if c == '"' {
            Scan { quoted: false, ..at }
        } else {
            at
        }
    } else if c == '"' {
        Scan { quoted: true, ..at }
    } else if c == '{' || c == '[' {
        Scan { depth: at.depth + 1, ..at }
    } else if c == '}' || c == ']' {
        Scan { depth: at.depth - 1, ..at }
    } else {
        at
    }
}

/// Whether `c` ends a member or an element.
pub open spec fn ends_item(c: char) -> bool {
    c == ',' || c == '}' || c == ']'
}

/// Whether reading `s` leads from `at` to `end` without a character on the way
/// that would end the item.
pub open spec fn passes(at: Scan, s: Seq<char>, end: Scan) -> bool
    decreases s.len(),
{
    if s.len() == 0 {
        at == end
    } else {
        !(at == outside() && ends_item(s[0])) && passes(step(at, s[0]), s.drop_first(), end)
    }
}

/// Whether `s` is one item of JSON text: nothing in it can be taken for its end.
pub open spec fn is_item(s: Seq<char>) -> bool {
    s.len() > 0 && passes(outside(), s, outside())
}

/// Whether every piece is an item.
pub open spec fn all_items(pieces: Seq<Seq<char>>) -> bool {
    forall|i: int| 0 <= i < pieces.len() ==> is_item(#[trigger] pieces[i])
}

proof fn lemma_passes_concat(at: Scan, a: Seq<char>, mid: Scan, b: Seq<char>, end: Scan)
    requires
        passes(at, a, mid),
    ensures
        passes(at, a + b, end) == passes(mid, b, end),
    decreases a.len(),
{
    if a.len() == 0 {
        assert(a + b =~= b);
    } else {
        assert((a + b).drop_first() =~= a.drop_first() + b);
        assert((a + b)[0] == a[0]);
        lemma_passes_concat(step(at, a[0]), a.drop_first(), mid, b, end);
    }
}

proof fn lemma_passes_one(at: Scan, c: char)
    ensures
        passes(at, seq![c], step(at, c)) == !(at == outside() && ends_item(c)),
{
    let s = seq![c];
    assert(s.drop_first() =~= Seq::<char>::empty());
    assert(passes(step(at, c), s.drop_first(), step(at, c)));
}

proof fn lemma_passes_deeper(at: Scan, s: Seq<char>, end: Scan)
    requires
        passes(at, s, end),
        at.depth >= 0,
        at.escaping ==> at.quoted,
    ensures
        passes(deeper(at), s, deeper(end)),
    decreases s.len(),
{
    if s.len() > 0 {
        let next = step(at, s[0]);
        assert(deeper(next) == step(deeper(at), s[0]));
        lemma_passes_deeper(next, s.drop_first(), end);
    }
}

proof fn lemma_escape_passes(c: char)
    ensures
        passes(in_string(), json_escaped(c), in_string()),
{
    let e = json_escaped(c);
    if e.len() == 1 {
        lemma_passes_one(in_string(), c);
        assert(e =~= seq![c]);
    } else {
        let mid = step(in_string(), '\\');
        lemma_passes_one(in_string(), '\\');
        assert(e =~= seq!['\\'] + e.drop_first());
        lemma_passes_concat(in_string(), seq!['\\'], mid, e.drop_first(), in_string());
        let rest = e.drop_first();
        lemma_passes_one(mid, rest[0]);
        assert(rest =~= seq![rest[0]] + rest.drop_first());
        lemma_passes_concat(mid, seq![rest[0]], in_string(), rest.drop_first(), in_string());
        if (c as u32) < 32 && c != '\u{8}' && c != '\u{9}' && c != '\u{a}' && c != '\u{c}' && c
            != '\u{d}' {
            text::lemma_hex_digits(seq![c as u8]);
            let tail = seq!['0', '0'] + text::hex(seq![c as u8]);
            assert(rest.drop_first() =~= tail);
            lemma_plain_passes(tail);
        } else {
            assert(rest.drop_first() =~= Seq::<char>::empty());
        }
    }
}

/// Whether a text needs no escapes.
pub open spec fn is_plain(s: Seq<char>) -> bool {
    forall|i: int| 0 <= i < s.len() ==> #[trigger] s[i] != '"' && s[i] != '\\'
}

proof fn lemma_plain_passes(s: Seq<char>)
    requires
        is_plain(s),
    ensures
        passes(in_string(), s, in_string()),
    decreases s.len(),
{
    if s.len() > 0 {
        assert forall|i: int| 0 <= i < s.drop_first().len() implies #[trigger] s.drop_first()[i]
            != '"' && s.drop_first()[i] != '\\' by {
            assert(s.drop_first()[i] == s[i + 1]);
        }
        assert(s[0] != '"' && s[0] != '\\');
        lemma_plain_passes(s.drop_first());
    }
}

proof fn lemma_body_passes(s: Seq<char>)
    ensures
        passes(in_string(), json_string_body(s), in_string()),
    decreases s.len(),
{
    if s.len() > 0 {
        lemma_escape_passes(s[0]);
        lemma_body_passes(s.drop_first());
        lemma_passes_concat(
            in_string(),
            json_escaped(s[0]),
            in_string(),
            json_string_body(s.drop_first()),
            in_string(),
        );
    }
}

proof fn lemma_quoted_item(body: Seq<char>)
    requires
        passes(in_string(), body, in_string()),
    ensures
        is_item(seq!['"'] + body + seq!['"']),
{
    lemma_passes_one(outside(), '"');
    lemma_passes_concat(outside(), seq!['"'], in_string(), body, in_string());
    lemma_passes_one(in_string(), '"');
    lemma_passes_concat(outside(), seq!['"'] + body, in_string(), seq!['"'], outside());
}

/// The text of a string is an item.
pub proof fn lemma_string_item(s: Seq<char>)
    ensures
        is_item(json_string(s)),
{
    lemma_body_passes(s);
    lemma_quoted_item(json_string_body(s));
}

/// The text of a boolean is an item, and tells which.
pub proof fn lemma_bool_item(a: bool, b: bool)
    ensures
        is_item(json_bool(a)),
        json_bool(a) == json_bool(b) ==> a == b,
{
    reveal_strlit("true");
    reveal_strlit("false");
    assert("true"@.len() != "false"@.len());
    reveal_with_fuel(passes, 6);
}

/// A member with a plain name is an item when its value is one.
pub proof fn lemma_member_item(name: Seq<char>, value: Seq<char>)
    requires
        is_plain(name),
        is_item(value),
    ensures
        is_item(json_member(name, value)),
{
    lemma_plain_passes(name);
    lemma_quoted_item(name);
    let front = seq!['"'] + name + seq!['"'];
    lemma_passes_one(outside(), ':');
    lemma_passes_concat(outside(), front, outside(), seq![':'], outside());
    lemma_passes_concat(outside(), front + seq![':'], outside(), value, outside());
    assert(json_member(name, value) =~= front + seq![':'] + value);
}

proof fn lemma_join_passes(pieces: Seq<Seq<char>>)
    requires
        all_items(pieces),
    ensures
        passes(deeper(outside()), text::join(pieces, ","@), deeper(outside())),
    decreases pieces.len(),
{
    let at = deeper(outside());
    if pieces.len() == 1 {
        assert(is_item(pieces[0]));
        lemma_passes_deeper(outside(), pieces[0], outside());
    } else if pieces.len() > 1 {
        let front = pieces.drop_last();
        assert forall|i: int| 0 <= i < front.len() implies is_item(#[trigger] front[i]) by {
            assert(front[i] == pieces[i]);
        }
        lemma_join_passes(front);
        assert(is_item(pieces[pieces.len() - 1]));
        lemma_passes_deeper(outside(), pieces.last(), outside());
        reveal_strlit(",");
        assert(","@ =~= seq![',']);
        lemma_passes_one(at, ',');
        lemma_passes_concat(at, text::join(front, ","@), at, ","@, at);
        lemma_passes_concat(at, text::join(front, ","@) + ","@, at, pieces.last(), at);
    }
}

proof fn lemma_bracketed_item(open: char, pieces: Seq<Seq<char>>, close: char)
    requires
        all_items(pieces),
        open == '{' && close == '}' || open == '[' && close == ']',
    ensures
        is_item(seq![open] + text::join(pieces, ","@) + seq![close]),
{
    let at = deeper(outside());
    let inner = text::join(pieces, ","@);
    lemma_join_passes(pieces);
    lemma_passes_one(outside(), open);
    lemma_passes_concat(outside(), seq![open], at, inner, at);
    lemma_passes_one(at, close);
    lemma_passes_concat(outside(), seq![open] + inner, at, seq![close], outside());
}

/// Objects and arrays of items are items.
pub proof fn lemma_nested_item(pieces: Seq<Seq<char>>)
    requires
        all_items(pieces),
    ensures
        is_item(json_object(pieces)),
        is_item(json_array(pieces)),
{
    lemma_bracketed_item('{', pieces, '}');
    lemma_bracketed_item('[', pieces, ']');
}

proof fn lemma_item_cut(m: Seq<char>, t: Seq<char>, n: Seq<char>, u: Seq<char>)
    requires
        is_item(m),
        is_item(n),
        m + t == n + u,
        t.len() > 0 ==> ends_item(t[0]),
        u.len() > 0 ==> ends_item(u[0]),
    ensures
        m == n,
        t == u,
{
    lemma_item_not_longer(m, t, n, u);
    lemma_item_not_longer(n, u, m, t);
    assert forall|i: int| 0 <= i < m.len() implies m[i] == n[i] by {
        assert((m + t)[i] == m[i]);
        assert((n + u)[i] == n[i]);
    }
    assert(m =~= n);
    assert(t =~= (m + t).skip(m.len() as int));
    assert(u =~= (n + u).skip(n.len() as int));
}

proof fn lemma_item_not_longer(m: Seq<char>, t: Seq<char>, n: Seq<char>, u: Seq<char>)
    requires
        is_item(m),
        is_item(n),
        m + t == n + u,
        t.len() > 0 ==> ends_item(t[0]),
    ensures
        n.len() <= m.len(),
{
    if m.len() < n.len() {
        let rest = n.skip(m.len() as int);
        assert forall|i: int| 0 <= i < m.len() implies m[i] == n[i] by {
            assert((m + t)[i] == m[i]);
        assert((n + u)[i] == n[i]);
        }
        assert(n =~= m + rest);
        lemma_passes_concat(outside(), m, outside(), rest, outside());
        assert(passes(outside(), rest, outside()));
        let k = m.len() as int;
        assert((m + t).len() == (n + u).len());
        assert((m + t)[k] == t[0]);
        assert((n + u)[k] == n[k]);
    }
}

/// The pieces behind the first, each with a comma before it.
spec fn join_tail(pieces: Seq<Seq<char>>) -> Seq<char> {
    if pieces.len() <= 1 {
        Seq::empty()
    } else {
        seq![','] + text::join(pieces.drop_first(), ","@)
    }
}

proof fn lemma_join_front(pieces: Seq<Seq<char>>)
    requires
        pieces.len() > 0,
    ensures
        text::join(pieces, ","@) == pieces[0] + join_tail(pieces),
    decreases pieces.len(),
{
    reveal_strlit(",");
    assert(","@ =~= seq![',']);
    if pieces.len() == 1 {
        assert(pieces[0] + join_tail(pieces) =~= pieces[0]);
    } else {
        let front = pieces.drop_last();
        lemma_join_front(front);
        let rest = pieces.drop_first();
        if pieces.len() == 2 {
            assert(rest.len() == 1 && rest[0] == pieces[1]);
            assert(text::join(front, ","@) =~= pieces[0]);
        } else {
            assert(front.drop_first() =~= rest.drop_last());
            assert(text::join(rest, ","@) == text::join(rest.drop_last(), ","@) + ","@
                + rest.last());
        }
        assert(text::join(pieces, ","@) =~= pieces[0] + join_tail(pieces));
    }
}

proof fn lemma_join_unique(a: Seq<Seq<char>>, b: Seq<Seq<char>>, close: char)
    requires
        all_items(a),
        all_items(b),
        close == '}' || close == ']',
        text::join(a, ","@) + seq![close] == text::join(b, ","@) + seq![close],
    ensures
        a == b,
    decreases a.len(),
{
    if a.len() == 0 || b.len() == 0 {
        if b.len() > 0 {
            lemma_not_only_close(b, close);
        }
        if a.len() > 0 {
            lemma_not_only_close(a, close);
        }
        assert(a =~= b);
    } else {
        lemma_join_front(a);
        lemma_join_front(b);
        let t = join_tail(a) + seq![close];
        let u = join_tail(b) + seq![close];
        assert(text::join(a, ","@) + seq![close] =~= a[0] + t);
        assert(text::join(b, ","@) + seq![close] =~= b[0] + u);
        assert(is_item(a[0]) && is_item(b[0]));
        lemma_item_cut(a[0], t, b[0], u);
        assert(t[0] == u[0]);
        if a.len() > 1 {
            assert(t[0] == ',');
            assert(b.len() > 1);
            let x = a.drop_first();
            let y = b.drop_first();
            assert forall|i: int| 0 <= i < x.len() implies is_item(#[trigger] x[i]) by {
                assert(x[i] == a[i + 1]);
            }
            assert forall|i: int| 0 <= i < y.len() implies is_item(#[trigger] y[i]) by {
                assert(y[i] == b[i + 1]);
            }
            assert(t.drop_first() =~= text::join(x, ","@) + seq![close]);
            assert(u.drop_first() =~= text::join(y, ","@) + seq![close]);
            lemma_join_unique(x, y, close);
            assert(a =~= seq![a[0]] + x);
            assert(b =~= seq![b[0]] + y);
        } else {
            assert(t[0] == close);
            assert(b.len() == 1);
            assert(a =~= b);
        }
    }
}

proof fn lemma_not_only_close(pieces: Seq<Seq<char>>, close: char)
    requires
        all_items(pieces),
        pieces.len() > 0,
        close == '}' || close == ']',
    ensures
        text::join(pieces, ","@) + seq![close] != Seq::<char>::empty() + seq![close],
{
    lemma_join_front(pieces);
    assert(is_item(pieces[0]));
    assert((text::join(pieces, ","@) + seq![close]).len() > 1);
}

/// The text of an object determines its members, and that of an array its
/// elements, when these are items.
pub proof fn law_nested_text_unique(a: Seq<Seq<char>>, b: Seq<Seq<char>>)
    requires
        all_items(a),
        all_items(b),
    ensures
        json_object(a) == json_object(b) ==> a == b,
        json_array(a) == json_array(b) ==> a == b,
{
    if json_object(a) == json_object(b) {
        assert(text::join(a, ","@) + seq!['}'] =~= json_object(a).drop_first());
        assert(text::join(b, ","@) + seq!['}'] =~= json_object(b).drop_first());
        lemma_join_unique(a, b, '}');
    }
    if json_array(a) == json_array(b) {
        assert(text::join(a, ","@) + seq![']'] =~= json_array(a).drop_first());
        assert(text::join(b, ","@) + seq![']'] =~= json_array(b).drop_first());
        lemma_join_unique(a, b, ']');
    }
}

/// The text of a member with a plain name determines the name and the value.
pub proof fn law_member_text_unique(m: Seq<char>, v: Seq<char>, n: Seq<char>, w: Seq<char>)
    requires
        is_plain(m),
        is_plain(n),
        json_member(m, v) == json_member(n, w),
    ensures
        m == n,
        v == w,
{
    let x = json_member(m, v);
    let y = json_member(n, w);
    let i = m.len() as int;
    let j = n.len() as int;
    assert(x[i + 1] == '"');
    assert(y[j + 1] == '"');
    if i < j {
        assert(y[i + 1] == n[i]);
    }
    if j < i {
        assert(x[j + 1] == m[j]);
    }
    assert forall|k: int| 0 <= k < m.len() implies m[k] == n[k] by {
        assert(x[k + 1] == y[k + 1]);
    }
    assert(m =~= n);
    assert(v =~= x.skip(i + 3));
    assert(w =~= y.skip(j + 3));
}

proof fn lemma_escape_cut(c: char, x: Seq<char>, d: char, y: Seq<char>)
    requires
        json_escaped(c) + x == json_escaped(d) + y,
    ensures
        c == d,
        x == y,
{
    let p = json_escaped(c) + x;
    let q = json_escaped(d) + y;
    assert(p[0] == q[0]);
    lemma_control_hex(c);
    lemma_control_hex(d);
    if p[0] == '\\' {
        assert(p[1] == q[1]);
        assert(json_escaped(c).len() > 1);
        assert(json_escaped(d).len() > 1);
        if json_escaped(c).len() == 6 && json_escaped(d).len() == 6 {
            assert(p[4] == q[4]);
            assert(p[5] == q[5]);
        }
    }
    assert(x =~= p.skip(json_escaped(c).len() as int));
    assert(y =~= q.skip(json_escaped(d).len() as int));
}

/// What the escape of a control character looks like.
proof fn lemma_control_hex(c: char)
    ensures
        (c as u32) < 32 ==> {
            let h = text::hex(seq![c as u8]);
            &&& h.len() == 2
            &&& h[0] == (if (c as u32) < 16 {
                '0'
            } else {
                '1'
            })
            &&& h[1] == text::hex_digit((c as u32 % 16) as nat)
        },
{
    if (c as u32) < 32 {
        let b = seq![c as u8];
        assert(b.drop_last() =~= Seq::<u8>::empty());
        assert(text::hex(b.drop_last()) =~= Seq::<char>::empty());
    }
}

/// The text of a string determines the string.
pub proof fn law_string_text_unique(a: Seq<char>, b: Seq<char>)
    requires
        json_string(a) == json_string(b),
    ensures
        a == b,
{
    assert(json_string_body(a) =~= json_string(a).drop_first().drop_last());
    assert(json_string_body(b) =~= json_string(b).drop_first().drop_last());
    lemma_body_unique(a, b);
}

proof fn lemma_body_unique(a: Seq<char>, b: Seq<char>)
    requires
        json_string_body(a) == json_string_body(b),
    ensures
        a == b,
    decreases a.len(),
{
    if a.len() > 0 && b.len() > 0 {
        lemma_escape_cut(
            a[0],
            json_string_body(a.drop_first()),
            b[0],
            json_string_body(b.drop_first()),
        );
        lemma_body_unique(a.drop_first(), b.drop_first());
        assert(a =~= seq![a[0]] + a.drop_first());
        assert(b =~= seq![b[0]] + b.drop_first());
    } else {
        if a.len() > 0 {
            assert(json_string_body(a).len() > 0);
        }
        if b.len() > 0 {
            assert(json_string_body(b).len() > 0);
        }
        assert(a =~= b);
    }
}

} // verus!
