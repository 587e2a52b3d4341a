//! Structured-field (RFC 9651) serialization and parsing of the session headers.

use vstd::prelude::*;
use crate::text;
use crate::text::{chars_of, str_eq, string_of, trim_chars};

verus! {

/// Coarse-grained reason a session was skipped by the client.
#[derive(Debug, Clone, Copy, PartialEq, Eq, Structural)]
pub enum SkipReason {
    /// The refresh endpoint was unreachable.
    Unreachable,
    /// The server returned an error.
    ServerError,
    /// The client's session quota was exceeded.
    QuotaExceeded,
}

/// The token of a reason.
pub open spec fn reason_token(reason: SkipReason) -> Seq<char> {
    match reason {
        SkipReason::Unreachable => "unreachable"@,
        SkipReason::ServerError => "server_error"@,
        SkipReason::QuotaExceeded => "quota_exceeded"@,
    }
}

/// The reason with the given token.
pub open spec fn reason_of(token: Seq<char>) -> Option<SkipReason> {
    if token == "unreachable"@ {
        Some(SkipReason::Unreachable)
    } else if token == "server_error"@ {
        Some(SkipReason::ServerError)
    } else if token == "quota_exceeded"@ {
        Some(SkipReason::QuotaExceeded)
    } else {
        None
    }
}

impl SkipReason {
    /// The reason that `token` names.
    pub fn from_token(token: &str) -> (r: Option<Self>)
        ensures
            r == reason_of(token@),
    {
        if str_eq(token, "unreachable") {
            Some(SkipReason::Unreachable)
        } else if str_eq(token, "server_error") {
            Some(SkipReason::ServerError)
        } else if str_eq(token, "quota_exceeded") {
            Some(SkipReason::QuotaExceeded)
        } else {
            None
        }
    }

    /// Token form used in the `Secure-Session-Skipped` header.
    pub fn as_token(&self) -> (r: &'static str)
        ensures
            r@ == reason_token(*self),
    {
        match self {
            SkipReason::Unreachable => "unreachable",
            SkipReason::ServerError => "server_error",
            SkipReason::QuotaExceeded => "quota_exceeded",
        }
    }
}

/// A single parsed entry of the `Secure-Session-Skipped` header.
#[derive(Debug, Clone, PartialEq, Eq)]
pub struct SkippedEntry {
    /// Why the session was skipped.
    pub reason: SkipReason,
    /// Identifier of the skipped session.
    pub session_id: String,
}

/// What a [`SkippedEntry`] says.
pub struct SkippedView {
    pub reason: SkipReason,
    pub session_id: Seq<char>,
}

impl View for SkippedEntry {
    type V = SkippedView;

    open spec fn view(&self) -> SkippedView {
        SkippedView { reason: self.reason, session_id: self.session_id@ }
    }
}

/// What a list of entries says.
pub open spec fn entry_views(entries: Seq<SkippedEntry>) -> Seq<SkippedView> {
    entries.map_values(|e: SkippedEntry| e@)
}

/// One character inside a quoted string: quotes and backslashes get a backslash.
pub open spec fn escaped_char(c: char) -> Seq<char> {
    if c == '"' || c == '\\' {
        seq!['\\', c]
    } else {
        seq![c]
    }
}

/// `s` as it stands inside a quoted string.
pub open spec fn escaped(s: Seq<char>) -> Seq<char>
    decreases s.len(),
{
    if s.len() == 0 {
        Seq::empty()
    } else {
        escaped_char(s[0]) + escaped(s.drop_first())
    }
}

/// `s` as a quoted string.
pub open spec fn quoted(s: Seq<char>) -> Seq<char> {
    seq!['"'] + escaped(s) + seq!['"']
}

/// `;key="value"`, or nothing where there is no value or an empty one.
pub open spec fn parameter(key: Seq<char>, value: Option<Seq<char>>) -> Seq<char> {
    match value {
        Some(v) => if v.len() > 0 {
            seq![';'] + key + seq!['='] + quoted(v)
        } else {
            Seq::empty()
        },
        None => Seq::empty(),
    }
}

/// The `Secure-Session-Registration` header value.
pub open spec fn registration_text(
    algs: Seq<Seq<char>>,
    path: Option<Seq<char>>,
    challenge: Option<Seq<char>>,
    authorization: Option<Seq<char>>,
    provider_key: Option<Seq<char>>,
    provider_session_id: Option<Seq<char>>,
    provider_url: Option<Seq<char>>,
) -> Seq<char> {
    seq!['('] + text::join(algs, " "@) + seq![')'] + parameter("path"@, path) + parameter(
        "challenge"@,
        challenge,
    ) + parameter("authorization"@, authorization) + parameter("provider_key"@, provider_key)
        + parameter("provider_session_id"@, provider_session_id) + parameter(
        "provider_url"@,
        provider_url,
    )
}

/// The `Secure-Session-Challenge` header value.
pub open spec fn challenge_text(value: Seq<char>, session_id: Seq<char>) -> Seq<char> {
    quoted(value) + ";id="@ + quoted(session_id)
}

/// One item of the `Secure-Session-Skipped` header.
pub open spec fn skipped_item(entry: SkippedView) -> Seq<char> {
    reason_token(entry.reason) + ";session_identifier="@ + quoted(entry.session_id)
}

/// The `Secure-Session-Skipped` header value.
pub open spec fn skipped_text(entries: Seq<SkippedView>) -> Seq<char> {
    text::join(entries.map_values(|e: SkippedView| skipped_item(e)), ", "@)
}

/// What a quoted string holds from behind its opening quote: the characters up
/// to the closing quote, with the backslash before a quote or a backslash dropped.
/// A backslash before anything else is an error, and only whitespace may follow
/// the closing quote.
pub open spec fn unescaped(s: Seq<char>) -> Option<Seq<char>>
    decreases s.len(),
{
    if s.len() == 0 {
        None
    } else if s[0] == '"' {
        if text::trimmed(s.drop_first()).len() == 0 {
            Some(Seq::empty())
        } else {
            None
        }
    } else if s[0] == '\\' {
        if s.len() >= 2 && (s[1] == '"' || s[1] == '\\') {
            prepend(seq![s[1]], unescaped(s.skip(2)))
        } else {
            None
        }
    } else {
        prepend(seq![s[0]], unescaped(s.skip(1)))
    }
}

/// `front` before the text, where there is one.
pub open spec fn prepend(front: Seq<char>, rest: Option<Seq<char>>) -> Option<Seq<char>> {
    match rest {
        Some(r) => Some(front + r),
        None => None,
    }
}

/// What a quoted string says; surrounding whitespace is ignored.
pub open spec fn unquoted(s: Seq<char>) -> Option<Seq<char>> {
    let t = text::trimmed(s);
    if t.len() > 0 && t[0] == '"' {
        unescaped(t.drop_first())
    } else {
        None
    }
}

/// The pieces of `s` between the occurrences of `sep` that are in no quoted
/// string.
pub open spec fn parted(s: Seq<char>, sep: char) -> Seq<Seq<char>>
    decreases s.len(),
{
    if s.len() == 0 {
        seq![Seq::<char>::empty()]
    } else {
        let front = parted(s.drop_last(), sep);
        if s.last() == sep && !text::scanned(s.drop_last()).0 {
            front.push(Seq::empty())
        } else {
            front.drop_last().push(front.last().push(s.last()))
        }
    }
}

/// Where `c` first occurs in `s`, or the length of `s`.
pub open spec fn first_index(s: Seq<char>, c: char) -> int
    decreases s.len(),
{
    if s.len() == 0 || s[0] == c {
        0
    } else {
        1 + first_index(s.drop_first(), c)
    }
}

/// Whether a parameter is `session_identifier=...`.
pub open spec fn names_session(param: Seq<char>) -> bool {
    let i = first_index(param, '=');
    i < param.len() && text::trimmed(param.take(i)) == "session_identifier"@
}

/// What stands behind the first `=` of a parameter, unquoted.
pub open spec fn parameter_value(param: Seq<char>) -> Option<Seq<char>> {
    unquoted(text::trimmed(param.skip(first_index(param, '=') + 1)))
}

/// The value of the last `session_identifier` parameter.
pub open spec fn session_of(params: Seq<Seq<char>>) -> Option<Seq<char>>
    decreases params.len(),
{
    if params.len() == 0 {
        None
    } else if names_session(params.last()) {
        parameter_value(params.last())
    } else {
        session_of(params.drop_last())
    }
}

/// The entry that a list item stands for, if any: a reason token, and behind it
/// the parameters.
pub open spec fn skipped_entry(item: Seq<char>) -> Option<SkippedView> {
    let parts = parted(text::trimmed(item), ';');
    match (reason_of(text::trimmed(parts[0])), session_of(parts.skip(1))) {
        (Some(reason), Some(session_id)) => Some(SkippedView { reason, session_id }),
        _ => None,
    }
}

/// The entries that the items stand for, in order.
pub open spec fn skipped_entries(items: Seq<Seq<char>>) -> Seq<SkippedView>
    decreases items.len(),
{
    if items.len() == 0 {
        Seq::empty()
    } else {
        match skipped_entry(items.last()) {
            Some(e) => skipped_entries(items.drop_last()).push(e),
            None => skipped_entries(items.drop_last()),
        }
    }
}

/// Escape a value for inclusion in a quoted structured-field string.
pub fn sf_escape(value: &str) -> (r: String)
    ensures
        r@ == escaped(value@),
{
    let chars = chars_of(value);
    let mut out = String::new();
    let mut i: usize = 0;
    assert(chars@.skip(0) == chars@);
    while i < chars.len()
        invariant
            i <= chars@.len(),
            out@ + escaped(chars@.skip(i as int)) == escaped(chars@),
        decreases chars@.len() - i,
    {
        let c = chars[i];
        let ghost rest = chars@.skip(i as int);
        assert(rest.drop_first() == chars@.skip(i + 1));
        let ghost before = out@;
        if c == '"' || c == '\\' {
            out.push('\\');
        }
        out.push(c);
        assert(out@ == before + escaped_char(c));
        assert(out@ + escaped(chars@.skip(i + 1)) == before + escaped(rest));
        i = i + 1;
    }
    out
}

fn push_quoted(out: &mut String, value: &str)
    ensures
        final(out)@ == old(out)@ + quoted(value@),
{
    out.push('"');
    out.append(sf_escape(value).as_str());
    out.push('"');
}

fn push_parameter(out: &mut String, key: &str, value: Option<&str>)
    ensures
        final(out)@ == old(out)@ + parameter(key@, text::opt_str(value)),
{
    if let Some(v) = value {
        if !v.is_empty() {
            out.push(';');
            out.append(key);
            out.push('=');
            push_quoted(out, v);
        }
    }
}

fn push_joined(out: &mut String, pieces: &[&str], sep: &str)
    ensures
        final(out)@ == old(out)@ + text::join(text::str_views(pieces@), sep@),
{
    let mut i: usize = 0;
    assert(text::str_views(pieces@.take(0)) =~= Seq::<Seq<char>>::empty());
    while i < pieces.len()
        invariant
            i <= pieces@.len(),
            out@ == old(out)@ + text::join(text::str_views(pieces@.take(i as int)), sep@),
        decreases pieces@.len() - i,
    {
        let ghost seen = text::str_views(pieces@.take(i + 1));
        assert(seen.drop_last() =~= text::str_views(pieces@.take(i as int)));
        if i > 0 {
            out.append(sep);
        }
        out.append(pieces[i]);
        i = i + 1;
    }
    assert(pieces@.take(i as int) == pieces@);
}

/// Serialize a `Secure-Session-Registration` header value.
///
/// Produces, e.g. `(ES256 RS256);path="/dbsc/register";challenge="cv";authorization="ac"`.
/// `None`/empty optional parameters are omitted.
pub fn registration_header(
    algs: &[&str],
    path: Option<&str>,
    challenge: Option<&str>,
    authorization: Option<&str>,
    provider_key: Option<&str>,
    provider_session_id: Option<&str>,
    provider_url: Option<&str>,
) -> (r: String)
    ensures
        r@ == registration_text(
            text::str_views(algs@),
            text::opt_str(path),
            text::opt_str(challenge),
            text::opt_str(authorization),
            text::opt_str(provider_key),
            text::opt_str(provider_session_id),
            text::opt_str(provider_url),
        ),
{
    let mut out = String::new();
    out.push('(');
    push_joined(&mut out, algs, " ");
    out.push(')');
    push_parameter(&mut out, "path", path);
    push_parameter(&mut out, "challenge", challenge);
    push_parameter(&mut out, "authorization", authorization);
    push_parameter(&mut out, "provider_key", provider_key);
    push_parameter(&mut out, "provider_session_id", provider_session_id);
    push_parameter(&mut out, "provider_url", provider_url);
    out
}

/// Serialize a `Secure-Session-Challenge` header value: `"value";id="session_id"`.
pub fn challenge_header(value: &str, session_id: &str) -> (r: String)
    ensures
        r@ == challenge_text(value@, session_id@),
{
    let mut out = String::new();
    push_quoted(&mut out, value);
    out.append(";id=");
    push_quoted(&mut out, session_id);
    out
}

/// Serialize a `Secure-Session-Response` header value: `"jwt"`.
pub fn session_response_header(jwt: &str) -> (r: String)
    ensures
        r@ == quoted(jwt@),
{
    let mut out = String::new();
    push_quoted(&mut out, jwt);
    out
}

/// Serialize a `Sec-Secure-Session-Id` header value: `"id"`.
pub fn session_id_header(id: &str) -> (r: String)
    ensures
        r@ == quoted(id@),
{
    let mut out = String::new();
    push_quoted(&mut out, id);
    out
}

/// Serialize a `Secure-Session-Skipped` header value (sf-list).
pub fn session_skipped_header(entries: &[SkippedEntry]) -> (r: String)
    ensures
        r@ == skipped_text(entry_views(entries@)),
{
    let mut out = String::new();
    let ghost item = |e: SkippedView| skipped_item(e);
    let ghost items = entry_views(entries@).map_values(item);
    let mut i: usize = 0;
    assert(items.take(0) =~= Seq::<Seq<char>>::empty());
    while i < entries.len()
        invariant
            i <= entries@.len(),
            items == entry_views(entries@).map_values(|e: SkippedView| skipped_item(e)),
            out@ == text::join(items.take(i as int), ", "@),
        decreases entries@.len() - i,
    {
        let ghost seen = items.take(i + 1);
        assert(seen.drop_last() =~= items.take(i as int));
        if i > 0 {
            out.append(", ");
        }
        let ghost before = out@;
        out.append(entries[i].reason.as_token());
        out.append(";session_identifier=");
        push_quoted(&mut out, entries[i].session_id.as_str());
        assert(seen.last() == skipped_item(entries@[i as int]@));
        assert(out@ == before + seen.last());
        i = i + 1;
    }
    assert(items.take(i as int) == items);
    out
}

fn parse_quoted_chars(chars: &[char]) -> (r: Option<String>)
    ensures
        text::opt_view(r) == unquoted(chars@),
{
    let value = trim_chars(chars);
    if value.len() == 0 || value[0] != '"' {
        return None;
    }
    let ghost body = value@.drop_first();
    let mut out = String::new();
    let mut i: usize = 1;
    assert(value@.skip(1) == body);
    assert(prepend(out@, unescaped(body)) == unescaped(body));
    while i < value.len()
        invariant
            1 <= i <= value@.len(),
            unquoted(chars@) == unescaped(body),
            unescaped(body) == prepend(out@, unescaped(value@.skip(i as int))),
        decreases value@.len() - i,
    {
        let c = value[i];
        let ghost rest = value@.skip(i as int);
        let ghost before = out@;
        if c == '"' {
            let tail = trim_chars(vstd::slice::slice_subrange(value.as_slice(), i + 1, value.len()));
            assert(rest.drop_first() == value@.subrange(i + 1, value@.len() as int));
            assert(before + Seq::<char>::empty() == before);
            return if tail.len() == 0 {
                Some(out)
            } else {
                None
            };
        }
        if c == '\\' {
            i = i + 1;
            if i >= value.len() || (value[i] != '"' && value[i] != '\\') {
                return None;
            }
            assert(rest.skip(2) == value@.skip(i + 1));
        } else {
            assert(rest.skip(1) == value@.skip(i + 1));
        }
        out.push(value[i]);
        assert(forall|r: Seq<char>| before + (seq![value@[i as int]] + r) == out@ + r);
        i = i + 1;
    }
    None
}

/// Parse a quoted structured-field string, returning the unescaped content.
/// Leading/trailing whitespace around the whole value is ignored; trailing
/// characters after the closing quote cause failure, and so does a backslash
/// before anything but a quote or a backslash.
pub fn parse_quoted(value: &str) -> (r: Option<String>)
    ensures
        text::opt_view(r) == unquoted(value@),
{
    parse_quoted_chars(chars_of(value).as_slice())
}

/// Parse a `Secure-Session-Response` header value and extract the JWT.
pub fn parse_session_response(header: &str) -> (r: Option<String>)
    ensures
        text::opt_view(r) == unquoted(header@),
{
    parse_quoted(header)
}

/// Parse a `Sec-Secure-Session-Id` header value and extract the session id.
pub fn parse_session_id(header: &str) -> (r: Option<String>)
    ensures
        text::opt_view(r) == unquoted(header@),
{
    parse_quoted(header)
}

/// The pieces of `chars` between the separators that are in no quoted string.
fn part_chars(chars: &[char], sep: char) -> (r: Vec<Vec<char>>)
    ensures
        text::views(r@) == parted(chars@, sep),
{
    let mut out: Vec<Vec<char>> = Vec::new();
    let mut piece: Vec<char> = Vec::new();
    let mut inside = false;
    let mut escaping = false;
    let mut i: usize = 0;
    assert(text::views(out@).push(piece@) == parted(chars@.take(0), sep));
    while i < chars.len()
        invariant
            i <= chars@.len(),
            (inside, escaping) == text::scanned(chars@.take(i as int)),
            text::views(out@).push(piece@) == parted(chars@.take(i as int), sep),
        decreases chars@.len() - i,
    {
        let c = chars[i];
        let ghost seen = chars@.take(i + 1);
        assert(seen.drop_last() == chars@.take(i as int));
        let ghost before = text::views(out@);
        if c == sep && !inside {
            let ghost done = piece@;
            out.push(piece);
            assert(text::views(out@) == before.push(done));
            piece = Vec::new();
        } else {
            assert(before.push(piece@).drop_last() == before);
            piece.push(c);
        }
        if inside && escaping {
            escaping = false;
        } else if inside && c == '\\' {
            escaping = true;
        } else {
            inside = inside != (c == '"');
            escaping = false;
        }
        i = i + 1;
    }
    assert(chars@.take(i as int) == chars@);
    let ghost before = text::views(out@);
    let ghost done = piece@;
    out.push(piece);
    assert(text::views(out@) == before.push(done));
    out
}

fn find_char(chars: &[char], c: char) -> (r: usize)
    ensures
        r == first_index(chars@, c),
        r <= chars@.len(),
{
    let mut i: usize = 0;
    assert(chars@.skip(0) == chars@);
    while i < chars.len() && chars[i] != c
        invariant
            i <= chars@.len(),
            first_index(chars@, c) == i + first_index(chars@.skip(i as int), c),
        decreases chars@.len() - i,
    {
        assert(chars@.skip(i as int).drop_first() == chars@.skip(i + 1));
        i = i + 1;
    }
    i
}

/// The value of the last `session_identifier` among the parameters.
fn find_session(parts: &Vec<Vec<char>>) -> (r: Option<String>)
    requires
        parts@.len() > 0,
    ensures
        text::opt_view(r) == session_of(text::views(parts@).skip(1)),
{
    let ghost params = text::views(parts@).skip(1);
    let mut session_id: Option<String> = None;
    let mut i: usize = 1;
    assert(params.take(0) =~= Seq::<Seq<char>>::empty());
    while i < parts.len()
        invariant
            1 <= i <= parts@.len(),
            params == text::views(parts@).skip(1),
            text::opt_view(session_id) == session_of(params.take(i - 1)),
        decreases parts@.len() - i,
    {
        let param = parts[i].as_slice();
        let ghost seen = params.take(i as int);
        assert(seen.drop_last() == params.take(i - 1));
        assert(seen.last() == param@);
        let eq = find_char(param, '=');
        if eq < param.len() {
            let key = trim_chars(vstd::slice::slice_subrange(param, 0, eq));
            assert(param@.subrange(0, eq as int) == param@.take(eq as int));
            let value = trim_chars(vstd::slice::slice_subrange(param, eq + 1, param.len()));
            assert(param@.subrange(eq + 1, param@.len() as int) == param@.skip(eq + 1));
            if str_eq(string_of(key.as_slice()).as_str(), "session_identifier") {
                session_id = parse_quoted_chars(value.as_slice());
            }
        }
        i = i + 1;
    }
    assert(params.take(i - 1) == params);
    session_id
}

/// The entry that one list item stands for.
fn parse_skipped_item(item: &[char]) -> (r: Option<SkippedEntry>)
    ensures
        match r {
            Some(e) => skipped_entry(item@) == Some(e@),
            None => skipped_entry(item@) is None,
        },
{
    let parts = part_chars(trim_chars(item).as_slice(), ';');
    proof {
        lemma_parted_nonempty(text::trimmed(item@), ';');
        assert(parts@.len() == text::views(parts@).len());
    }
    let token = trim_chars(parts[0].as_slice());
    assert(text::views(parts@)[0] == parts@[0]@);
    match SkipReason::from_token(string_of(token.as_slice()).as_str()) {
        Some(reason) => match find_session(&parts) {
            Some(session_id) => Some(SkippedEntry { reason, session_id }),
            None => None,
        },
        None => None,
    }
}

/// Parse a `Secure-Session-Skipped` header value (sf-list).
///
/// Each list item is a reason token with a `session_identifier="..."`
/// parameter. Only the spec-defined reason tokens are accepted; items with
/// unknown tokens or without a `session_identifier` parameter are skipped. A `,`
/// or `;` inside a quoted string is part of the string.
pub fn parse_session_skipped(header: &str) -> (r: Vec<SkippedEntry>)
    ensures
        entry_views(r@) == skipped_entries(parted(header@, ',')),
{
    let items = part_chars(chars_of(header).as_slice(), ',');
    let ghost all = text::views(items@);
    let mut entries: Vec<SkippedEntry> = Vec::new();
    let mut i: usize = 0;
    assert(all.take(0) =~= Seq::<Seq<char>>::empty());
    assert(entry_views(entries@) == skipped_entries(all.take(0)));
    while i < items.len()
        invariant
            i <= items@.len(),
            all == text::views(items@),
            entry_views(entries@) == skipped_entries(all.take(i as int)),
        decreases items@.len() - i,
    {
        let ghost seen = all.take(i + 1);
        assert(seen.drop_last() == all.take(i as int));
        assert(seen.last() == items@[i as int]@);
        let ghost before = entries@;
        if let Some(e) = parse_skipped_item(items[i].as_slice()) {
            let ghost v = e@;
            entries.push(e);
            assert(entry_views(entries@) == entry_views(before).push(v));
        }
        i = i + 1;
    }
    assert(all.take(i as int) == all);
    entries
}

proof fn lemma_parted_nonempty(s: Seq<char>, sep: char)
    ensures
        parted(s, sep).len() > 0,
    decreases s.len(),
{
    if s.len() > 0 {
        lemma_parted_nonempty(s.drop_last(), sep);
    }
}

/// Whether `sep` occurs in `s` in quoted strings only.
pub open spec fn only_quoted(s: Seq<char>, sep: char) -> bool {
    forall|i: int| 0 <= i < s.len() && s[i] == sep ==> (#[trigger] text::scanned(s.take(i))).0
}

proof fn lemma_parted_single(s: Seq<char>, sep: char)
    requires
        only_quoted(s, sep),
    ensures
        parted(s, sep) == seq![s],
    decreases s.len(),
{
    if s.len() > 0 {
        let front = s.drop_last();
        assert forall|i: int| 0 <= i < front.len() && front[i] == sep implies (
        #[trigger] text::scanned(front.take(i))).0 by {
            assert(front.take(i) == s.take(i));
            assert(s[i] == sep);
        }
        lemma_parted_single(front, sep);
        assert(s.take(s.len() - 1) == front);
        assert(front.push(s.last()) == s);
        assert(seq![front].drop_last() =~= Seq::<Seq<char>>::empty());
        assert(parted(s, sep) =~= seq![s]);
    } else {
        assert(s == Seq::<char>::empty());
    }
}

/// Behind text that leaves the reader outside of quoted strings, reading starts
/// anew.
proof fn lemma_scanned_concat(a: Seq<char>, b: Seq<char>)
    requires
        text::scanned(a) == (false, false),
    ensures
        text::scanned(a + b) == text::scanned(b),
    decreases b.len(),
{
    if b.len() == 0 {
        assert(a + b == a);
    } else {
        assert((a + b).drop_last() == a + b.drop_last());
        lemma_scanned_concat(a, b.drop_last());
    }
}

proof fn lemma_parted_concat(a: Seq<char>, sep: char, b: Seq<char>)
    requires
        text::scanned(a) == (false, false),
        sep != '"',
    ensures
        text::scanned(a.push(sep)) == (false, false),
        parted(a.push(sep) + b, sep) == parted(a, sep) + parted(b, sep),
    decreases b.len(),
{
    let whole = a.push(sep) + b;
    assert(a.push(sep).drop_last() == a);
    if b.len() == 0 {
        assert(whole == a.push(sep));
        assert(b == Seq::<char>::empty());
    } else {
        lemma_parted_concat(a, sep, b.drop_last());
        lemma_parted_nonempty(b.drop_last(), sep);
        assert(whole.drop_last() == a.push(sep) + b.drop_last());
        lemma_scanned_concat(a.push(sep), b.drop_last());
        let front = parted(a, sep) + parted(b.drop_last(), sep);
        assert(front.last() == parted(b.drop_last(), sep).last());
        assert(front.drop_last() == parted(a, sep) + parted(b.drop_last(), sep).drop_last());
    }
}

/// Text without quotes leaves the reader outside of quoted strings.
proof fn lemma_scanned_plain(s: Seq<char>)
    requires
        !s.contains('"'),
    ensures
        text::scanned(s) == (false, false),
    decreases s.len(),
{
    if s.len() > 0 {
        assert(s.contains(s.last()));
        assert forall|i: int| 0 <= i < s.drop_last().len() implies s.drop_last()[i] != '"' by {
            assert(s.contains(s[i]));
        }
        lemma_scanned_plain(s.drop_last());
    }
}

/// Escaped text leaves a reader inside a quoted string inside, all the way.
proof fn lemma_scanned_escaped(a: Seq<char>, s: Seq<char>, k: int)
    requires
        text::scanned(a) == (true, false),
        0 <= k <= escaped(s).len(),
    ensures
        text::scanned(a + escaped(s).take(k)).0,
        text::scanned(a + escaped(s)) == (true, false),
    decreases s.len(),
{
    if s.len() == 0 {
        assert(a + escaped(s) == a);
        assert(a + escaped(s).take(k) == a);
    } else {
        let e = escaped_char(s[0]);
        let rest = escaped(s.drop_first());
        let next = a + e;
        if e.len() == 1 {
            assert(next.drop_last() == a);
        } else {
            assert(next.drop_last() == a.push('\\'));
            assert(a.push('\\').drop_last() == a);
            assert(text::scanned(a.push('\\')) == (true, true));
        }
        assert(next.last() == s[0]);
        assert(text::scanned(next) == (true, false));
        assert(a + escaped(s) == next + rest);
        if k >= e.len() {
            assert(a + escaped(s).take(k) == next + rest.take(k - e.len()));
            lemma_scanned_escaped(next, s.drop_first(), k - e.len());
        } else {
            lemma_scanned_escaped(next, s.drop_first(), 0);
            if k == 0 {
                assert(a + escaped(s).take(k) == a);
            } else {
                assert(a + escaped(s).take(k) == a.push('\\'));
                assert(a.push('\\').drop_last() == a);
            }
        }
    }
}

/// A quoted string behind text without quotes and separators is one piece with
/// that text, whatever stands in the string.
proof fn lemma_quoted_piece(front: Seq<char>, s: Seq<char>, sep: char)
    requires
        !front.contains('"'),
        !front.contains(sep),
        sep != '"',
    ensures
        text::scanned(front + quoted(s)) == (false, false),
        only_quoted(front + quoted(s), sep),
{
    let whole = front + quoted(s);
    let a = front.push('"');
    lemma_scanned_plain(front);
    assert(a.drop_last() == front);
    assert(text::scanned(a) == (true, false));
    lemma_scanned_escaped(a, s, 0);
    let open = a + escaped(s);
    assert(whole == open.push('"'));
    assert(open.push('"').drop_last() == open);
    assert forall|i: int| 0 <= i < whole.len() && whole[i] == sep implies (
    #[trigger] text::scanned(whole.take(i))).0 by {
        if i < front.len() {
            assert(front.contains(front[i]));
        } else {
            let k = i - a.len();
            assert(whole.take(i) == a + escaped(s).take(k));
            lemma_scanned_escaped(a, s, k);
        }
    }
}

/// Reading on after the opening quote gives back what was escaped, if and only
/// if nothing but whitespace follows the closing quote.
proof fn lemma_unescaped(s: Seq<char>, tail: Seq<char>)
    ensures
        unescaped(escaped(s) + seq!['"'] + tail) == (if text::trimmed(tail).len() == 0 {
            Some(s)
        } else {
            None
        }),
    decreases s.len(),
{
    let text = escaped(s) + seq!['"'] + tail;
    if s.len() == 0 {
        assert(text[0] == '"');
        assert(text.drop_first() == tail);
        assert(s == Seq::<char>::empty());
    } else {
        let front = escaped_char(s[0]);
        let rest = escaped(s.drop_first()) + seq!['"'] + tail;
        lemma_unescaped(s.drop_first(), tail);
        assert(text == front + rest);
        assert(text[0] == front[0]);
        assert(seq![s[0]] + s.drop_first() == s);
        if s[0] == '"' || s[0] == '\\' {
            assert(text[1] == s[0]);
            assert(text.skip(2) == rest);
        } else {
            assert(text.skip(1) == rest);
        }
    }
}

/// A quoted string read back gives the original text, and fails if and only if
/// anything but whitespace follows the closing quote.
pub proof fn law_quoted_reads_back(s: Seq<char>, tail: Seq<char>)
    ensures
        unquoted(quoted(s)) == Some(s),
        unquoted(quoted(s) + tail) == (if text::trimmed(tail).len() == 0 {
            Some(s)
        } else {
            None
        }),
{
    lemma_quoted_tail(s, Seq::empty());
    assert(quoted(s) + Seq::<char>::empty() == quoted(s));
    lemma_quoted_tail(s, tail);
}

proof fn lemma_quoted_tail(s: Seq<char>, tail: Seq<char>)
    ensures
        unquoted(quoted(s) + tail) == (if text::trimmed(tail).len() == 0 {
            Some(s)
        } else {
            None
        }),
{
    let text = quoted(s) + tail;
    if text::trimmed(tail).len() == 0 {
        text::lemma_blank(tail);
        assert(Seq::<char>::empty() + quoted(s) + tail == text);
        text::lemma_trim_around(Seq::empty(), quoted(s), tail);
        let q = quoted(s);
        assert(text::trim_start(q) == q);
        assert(text::trim_end(q) == q);
        assert(q.drop_first() == escaped(s) + seq!['"'] + Seq::<char>::empty());
        lemma_unescaped(s, Seq::empty());
    } else {
        assert(text::trim_start(text) == text);
        let short = text::trim_end(text);
        text::lemma_trim_end_front(quoted(s), tail);
        let kept = text::trim_end(tail);
        assert(short == quoted(s) + kept);
        assert(short.drop_first() == escaped(s) + seq!['"'] + kept);
        lemma_unescaped(s, kept);
        text::lemma_trim_end_first(tail);
    }
}

/// What is read from behind an opening quote is escaped text, a closing quote and
/// blanks.
proof fn lemma_unescaped_shape(x: Seq<char>, s: Seq<char>) -> (blank: Seq<char>)
    requires
        unescaped(x) == Some(s),
    ensures
        x == escaped(s) + seq!['"'] + blank,
        text::trimmed(blank).len() == 0,
    decreases x.len(),
{
    if x[0] == '"' {
        let blank = x.drop_first();
        assert(s =~= Seq::<char>::empty());
        assert(x =~= escaped(s) + seq!['"'] + blank);
        blank
    } else {
        let n: int = if x[0] == '\\' {
            2
        } else {
            1
        };
        let rest = unescaped(x.skip(n))->Some_0;
        let blank = lemma_unescaped_shape(x.skip(n), rest);
        let c = x[n - 1];
        assert(s == seq![c] + rest);
        assert(s.drop_first() =~= rest);
        assert(s[0] == c);
        assert(x =~= escaped_char(c) + x.skip(n));
        assert(x =~= escaped(s) + seq!['"'] + blank);
        blank
    }
}

/// A value reads as `s` if and only if it is, whitespace around it aside, the
/// quoted string that is written for `s`.
pub proof fn law_only_quoted_strings_read(v: Seq<char>, s: Seq<char>)
    ensures
        unquoted(v) == Some(s) <==> text::trimmed(v) == quoted(s),
{
    let t = text::trimmed(v);
    if t == quoted(s) {
        assert(t.drop_first() == escaped(s) + seq!['"'] + Seq::<char>::empty());
        lemma_unescaped(s, Seq::empty());
    }
    if unquoted(v) == Some(s) {
        let blank = lemma_unescaped_shape(t.drop_first(), s);
        text::lemma_blank(blank);
        text::lemma_trimmed_last(v);
        let body = escaped(s) + seq!['"'] + blank;
        assert(t =~= seq![t[0]] + t.drop_first());
        assert(t == seq!['"'] + body);
        assert(body =~= escaped(s) + (seq!['"'] + blank));
        if blank.len() > 0 {
            assert(t.last() == blank[blank.len() - 1]);
        }
        assert(t =~= quoted(s));
    }
}

/// Whitespace around a quoted string is ignored.
pub proof fn law_surrounding_whitespace_ignored(
    before: Seq<char>,
    s: Seq<char>,
    after: Seq<char>,
)
    requires
        forall|i: int| 0 <= i < before.len() ==> text::is_white_space(#[trigger] before[i]),
        forall|i: int| 0 <= i < after.len() ==> text::is_white_space(#[trigger] after[i]),
    ensures
        unquoted(before + s + after) == unquoted(s),
{
    text::lemma_trim_around(before, s, after);
}

/// A text that does not start with a quote, whitespace aside, is no quoted string.
pub proof fn law_unquoted_text_rejected(s: Seq<char>)
    requires
        text::trimmed(s).len() == 0 || text::trimmed(s)[0] != '"',
    ensures
        unquoted(s) is None,
{
}

/// Each reason has its own token, and no other text names a reason.
pub proof fn law_tokens_name_reasons(reason: SkipReason, token: Seq<char>)
    ensures
        reason_of(reason_token(reason)) == Some(reason),
        reason_of(token) == Some(reason) <==> token == reason_token(reason),
        reason_of("unreachable"@) == Some(SkipReason::Unreachable),
        reason_of("server_error"@) == Some(SkipReason::ServerError),
        reason_of("quota_exceeded"@) == Some(SkipReason::QuotaExceeded),
{
    reveal_strlit("unreachable");
    reveal_strlit("server_error");
    reveal_strlit("quota_exceeded");
    assert("unreachable"@[0] == 'u');
    assert("server_error"@[0] == 's');
    assert("quota_exceeded"@[0] == 'q');
}

/// The two parts of a `Secure-Session-Challenge` header read back: up to the
/// first `;` outside of quoted strings the challenge, behind `id=` the session
/// identifier.
pub proof fn law_challenge_reads_back(value: Seq<char>, session_id: Seq<char>)
    ensures
        ({
            let parts = parted(challenge_text(value, session_id), ';');
            &&& parts.len() == 2
            &&& unquoted(parts[0]) == Some(value)
            &&& parts[1] == "id="@ + quoted(session_id)
            &&& unquoted(parts[1].skip(3)) == Some(session_id)
        }),
{
    reveal_strlit(";id=");
    reveal_strlit("id=");
    let none = Seq::<char>::empty();
    let tail = "id="@ + quoted(session_id);
    assert(none + quoted(value) == quoted(value));
    lemma_quoted_piece(none, value, ';');
    assert(!"id="@.contains('"') && !"id="@.contains(';'));
    lemma_quoted_piece("id="@, session_id, ';');
    assert(challenge_text(value, session_id) =~= quoted(value).push(';') + tail);
    lemma_parted_concat(quoted(value), ';', tail);
    lemma_parted_single(quoted(value), ';');
    lemma_parted_single(tail, ';');
    law_quoted_reads_back(value, Seq::empty());
    law_quoted_reads_back(session_id, Seq::empty());
    assert(tail.skip(3) =~= quoted(session_id));
}

/// What [`parted`] finds: the pieces, joined by the separator, are the text again;
/// in each of them the separator is in quoted strings only; and each but the last
/// ends outside of quoted strings.
pub proof fn law_parts_rejoin(s: Seq<char>, sep: char)
    requires
        sep != '"',
    ensures
        parted(s, sep).len() > 0,
        text::join(parted(s, sep), seq![sep]) == s,
        forall|i: int|
            0 <= i < parted(s, sep).len() ==> only_quoted(#[trigger] parted(s, sep)[i], sep),
        forall|i: int|
            0 <= i < parted(s, sep).len() - 1 ==> text::scanned(#[trigger] parted(s, sep)[i]) == (
                false,
                false,
            ),
        text::scanned(parted(s, sep).last()) == text::scanned(s),
    decreases s.len(),
{
    let whole = parted(s, sep);
    if s.len() == 0 {
        assert(text::join(whole, seq![sep]) =~= s);
        assert(whole.last() == s);
    } else {
        let f = s.drop_last();
        let c = s.last();
        let front = parted(f, sep);
        law_parts_rejoin(f, sep);
        if c == sep && !text::scanned(f).0 {
            assert(whole.drop_last() =~= front);
            assert(text::scanned(whole.last()) == (false, false));
            assert forall|i: int| 0 <= i < whole.len() implies only_quoted(
                #[trigger] whole[i],
                sep,
            ) by {
                if i < front.len() {
                    assert(whole[i] == front[i]);
                }
            }
            assert forall|i: int| 0 <= i < whole.len() - 1 implies text::scanned(#[trigger] whole[i]) == (
                false,
                false,
            ) by {
                assert(whole[i] == front[i]);
                if i == front.len() - 1 {
                    assert(front[i] == front.last());
                }
            }
        } else {
            let old_last = front.last();
            let last = old_last.push(c);
            assert(front[front.len() - 1] == old_last);
            assert(whole.drop_last() =~= front.drop_last());
            assert(last.drop_last() == old_last);
            assert(whole.last() == last);
            assert(only_quoted(last, sep)) by {
                assert forall|i: int| 0 <= i < last.len() && last[i] == sep implies (
                #[trigger] text::scanned(last.take(i))).0 by {
                    if i < old_last.len() {
                        assert(last.take(i) == old_last.take(i));
                        assert(old_last[i] == sep);
                    } else {
                        assert(last.take(i) == old_last);
                    }
                }
            }
            assert forall|i: int| 0 <= i < whole.len() implies only_quoted(
                #[trigger] whole[i],
                sep,
            ) by {
                if i < whole.len() - 1 {
                    assert(whole[i] == front[i]);
                }
            }
            assert forall|i: int| 0 <= i < whole.len() - 1 implies text::scanned(#[trigger] whole[i]) == (
                false,
                false,
            ) by {
                assert(whole[i] == front[i]);
            }
        }
        assert(text::join(whole, seq![sep]) =~= f.push(c));
        assert(f.push(c) =~= s);
    }
}

/// What an item of the `Secure-Session-Skipped` list says: `e` if and only if its
/// first part is the token of the reason, and the last of its parameters that is
/// named `session_identifier` has the quoted identifier as its value. Whitespace
/// around each of these is ignored.
pub proof fn law_skipped_item_grammar(item: Seq<char>, e: SkippedView)
    ensures
        skipped_entry(item) == Some(e) <==> {
            let parts = parted(text::trimmed(item), ';');
            &&& text::trimmed(parts[0]) == reason_token(e.reason)
            &&& exists|i: int|
                1 <= i < parts.len() && names_session(#[trigger] parts[i]) && text::trimmed(
                    parts[i].skip(first_index(parts[i], '=') + 1),
                ) == quoted(e.session_id) && forall|j: int|
                    i < j < parts.len() ==> !names_session(#[trigger] parts[j])
        },
{
    let parts = parted(text::trimmed(item), ';');
    lemma_parted_nonempty(text::trimmed(item), ';');
    law_tokens_name_reasons(e.reason, text::trimmed(parts[0]));
    lemma_last_session(parts, e.session_id);
}

proof fn lemma_last_session(parts: Seq<Seq<char>>, session_id: Seq<char>)
    requires
        parts.len() > 0,
    ensures
        session_of(parts.skip(1)) == Some(session_id) <==> exists|i: int|
            1 <= i < parts.len() && names_session(#[trigger] parts[i]) && text::trimmed(
                parts[i].skip(first_index(parts[i], '=') + 1),
            ) == quoted(session_id) && forall|j: int|
                i < j < parts.len() ==> !names_session(#[trigger] parts[j]),
    decreases parts.len(),
{
    let params = parts.skip(1);
    if parts.len() > 1 {
        let last = parts.len() - 1;
        let front = parts.drop_last();
        assert(params.last() == parts[last]);
        assert(params.drop_last() =~= front.skip(1));
        let value = text::trimmed(parts[last].skip(first_index(parts[last], '=') + 1));
        text::lemma_trimmed_twice(parts[last].skip(first_index(parts[last], '=') + 1));
        law_only_quoted_strings_read(value, session_id);
        lemma_last_session(front, session_id);
        if names_session(parts[last]) {
            assert(session_of(params) == parameter_value(parts[last]));
        } else {
            if session_of(front.skip(1)) == Some(session_id) {
                let i = choose|i: int|
                    1 <= i < front.len() && names_session(#[trigger] front[i]) && text::trimmed(
                        front[i].skip(first_index(front[i], '=') + 1),
                    ) == quoted(session_id) && forall|j: int|
                        i < j < front.len() ==> !names_session(#[trigger] front[j]);
                assert(names_session(parts[i]));
                assert forall|j: int| i < j < parts.len() implies !names_session(
                    #[trigger] parts[j],
                ) by {
                    if j < last {
                        assert(front[j] == parts[j]);
                    }
                }
            }
            if exists|i: int|
                1 <= i < parts.len() && names_session(#[trigger] parts[i]) && text::trimmed(
                    parts[i].skip(first_index(parts[i], '=') + 1),
                ) == quoted(session_id) && forall|j: int|
                    i < j < parts.len() ==> !names_session(#[trigger] parts[j]) {
                let i = choose|i: int|
                    1 <= i < parts.len() && names_session(#[trigger] parts[i]) && text::trimmed(
                        parts[i].skip(first_index(parts[i], '=') + 1),
                    ) == quoted(session_id) && forall|j: int|
                        i < j < parts.len() ==> !names_session(#[trigger] parts[j]);
                assert(i < last);
                assert(names_session(front[i]));
                assert forall|j: int| i < j < front.len() implies !names_session(
                    #[trigger] front[j],
                ) by {
                    assert(front[j] == parts[j]);
                }
            }
        }
    }
}

spec fn is_token_char(c: char) -> bool {
    'a' <= c <= 'z' || c == '_'
}

proof fn lemma_token_chars(reason: SkipReason)
    ensures
        reason_token(reason).len() > 0,
        forall|i: int|
            0 <= i < reason_token(reason).len() ==> is_token_char(
                #[trigger] reason_token(reason)[i],
            ),
{
    reveal_strlit("unreachable");
    reveal_strlit("server_error");
    reveal_strlit("quota_exceeded");
}

proof fn lemma_first_index(front: Seq<char>, c: char, rest: Seq<char>)
    requires
        !front.contains(c),
    ensures
        first_index(front.push(c) + rest, c) == front.len(),
    decreases front.len(),
{
    let whole = front.push(c) + rest;
    if front.len() > 0 {
        assert(front.contains(front[0]));
        assert forall|i: int| 0 <= i < front.drop_first().len() implies front.drop_first()[i]
            != c by {
            assert(front.contains(front[i + 1]));
        }
        lemma_first_index(front.drop_first(), c, rest);
        assert(whole.drop_first() == front.drop_first().push(c) + rest);
    }
}

/// In one item, also with a blank before it, a comma can only be in the string.
proof fn lemma_item_is_one(entry: SkippedView, blank: Seq<char>)
    requires
        blank == Seq::<char>::empty() || blank == seq![' '],
    ensures
        only_quoted(blank + skipped_item(entry), ','),
        text::scanned(blank + skipped_item(entry)) == (false, false),
{
    let token = reason_token(entry.reason);
    lemma_token_chars(entry.reason);
    reveal_strlit(";session_identifier=");
    let front = blank + token + ";session_identifier="@;
    assert forall|i: int| 0 <= i < front.len() implies front[i] != '"' && front[i] != ',' by {
        if i < blank.len() {
            assert(front[i] == blank[i]);
        } else if i < blank.len() + token.len() {
            assert(front[i] == token[i - blank.len()]);
            assert(is_token_char(token[i - blank.len()]));
        } else {
            assert(front[i] == ";session_identifier="@[i - blank.len() - token.len()]);
        }
    }
    assert(blank + skipped_item(entry) =~= front + quoted(entry.session_id));
    lemma_quoted_piece(front, entry.session_id, ',');
}

/// The `session_identifier` parameter of an item.
spec fn session_parameter(session_id: Seq<char>) -> Seq<char> {
    "session_identifier"@.push('=') + quoted(session_id)
}

/// An item falls into its token and its one parameter.
proof fn lemma_item_parts(entry: SkippedView)
    ensures
        parted(skipped_item(entry), ';') == seq![
            reason_token(entry.reason),
            session_parameter(entry.session_id),
        ],
{
    let token = reason_token(entry.reason);
    let param = session_parameter(entry.session_id);
    let key = "session_identifier"@.push('=');
    lemma_token_chars(entry.reason);
    reveal_strlit(";session_identifier=");
    reveal_strlit("session_identifier");
    assert(skipped_item(entry) =~= token.push(';') + param);
    assert forall|i: int| 0 <= i < token.len() implies token[i] != ';' && token[i] != '"' by {
        assert(is_token_char(token[i]));
    }
    lemma_scanned_plain(token);
    lemma_quoted_piece(key, entry.session_id, ';');
    lemma_parted_concat(token, ';', param);
    lemma_parted_single(token, ';');
    lemma_parted_single(param, ';');
    assert(parted(skipped_item(entry), ';') =~= seq![token, param]);
}

/// The parameter of an item reads back.
proof fn lemma_parameter_reads_back(session_id: Seq<char>)
    ensures
        session_of(seq![session_parameter(session_id)]) == Some(session_id),
{
    let key = "session_identifier"@;
    let value = quoted(session_id);
    let param = session_parameter(session_id);
    reveal_strlit("session_identifier");
    lemma_first_index(key, '=', value);
    assert(param.take(key.len() as int) == key);
    assert(text::trimmed(key) == key);
    assert(param.skip(key.len() as int + 1) == value);
    assert(text::trimmed(value) == value);
    law_quoted_reads_back(session_id, Seq::empty());
    assert(names_session(param));
    assert(parameter_value(param) == Some(session_id));
    assert(seq![param].last() == param);
}

/// One item reads back, also with a blank before it.
proof fn lemma_item_reads_back(entry: SkippedView, blank: Seq<char>)
    requires
        blank == Seq::<char>::empty() || blank == seq![' '],
    ensures
        skipped_entry(blank + skipped_item(entry)) == Some(entry),
{
    let token = reason_token(entry.reason);
    let item = skipped_item(entry);
    lemma_token_chars(entry.reason);

    // Trimming removes the blank only.
    assert(item[0] == token[0]);
    assert(is_token_char(item[0]));
    assert(text::trim_start(item) == item);
    assert(item.last() == '"');
    assert(text::trim_end(item) == item);
    assert(blank + item + Seq::<char>::empty() == blank + item);
    text::lemma_trim_around(blank, item, Seq::empty());

    // The token and the parameter.
    lemma_item_parts(entry);
    let parts = parted(item, ';');
    assert(parts.skip(1) =~= seq![session_parameter(entry.session_id)]);
    lemma_parameter_reads_back(entry.session_id);
    assert(is_token_char(token[0]) && is_token_char(token[token.len() - 1]));
    assert(text::trimmed(token) == token);
    law_tokens_name_reasons(entry.reason, token);
}

/// One more entry is one more item behind a comma and a blank.
proof fn lemma_skipped_text_step(entries: Seq<SkippedView>)
    requires
        entries.len() > 1,
    ensures
        skipped_text(entries) == skipped_text(entries.drop_last()).push(',') + (seq![' ']
            + skipped_item(entries.last())),
{
    let item = |e: SkippedView| skipped_item(e);
    let items = entries.map_values(item);
    reveal_strlit(", ");
    assert(items.drop_last() =~= entries.drop_last().map_values(item));
    assert(items.last() == skipped_item(entries.last()));
    assert(skipped_text(entries) =~= skipped_text(entries.drop_last()).push(',') + (seq![' ']
        + skipped_item(entries.last())));
}

/// A list of one item reads back.
proof fn lemma_one_item_reads_back(entry: SkippedView)
    ensures
        skipped_entries(parted(skipped_item(entry), ',')) == seq![entry],
        text::scanned(skipped_item(entry)) == (false, false),
{
    let none = Seq::<char>::empty();
    let item = skipped_item(entry);
    lemma_item_is_one(entry, none);
    lemma_item_reads_back(entry, none);
    assert(none + item == item);
    lemma_parted_single(item, ',');
    let pieces = seq![item];
    assert(pieces.last() == item);
    assert(pieces.drop_last() =~= Seq::<Seq<char>>::empty());
    assert(skipped_entries(pieces.drop_last()) =~= Seq::<SkippedView>::empty());
    assert(skipped_entries(pieces) =~= seq![entry]);
}

/// The items of a skipped header read back one by one.
proof fn lemma_items_read_back(entries: Seq<SkippedView>)
    requires
        entries.len() > 0,
    ensures
        skipped_entries(parted(skipped_text(entries), ',')) == entries,
        text::scanned(skipped_text(entries)) == (false, false),
    decreases entries.len(),
{
    let last = entries.last();
    if entries.len() == 1 {
        assert(skipped_text(entries) == skipped_item(last));
        lemma_one_item_reads_back(last);
        assert(entries =~= seq![last]);
    } else {
        let front = entries.drop_last();
        let before = skipped_text(front);
        let tail = seq![' '] + skipped_item(last);
        lemma_items_read_back(front);
        lemma_skipped_text_step(entries);
        lemma_item_is_one(last, seq![' ']);
        lemma_item_reads_back(last, seq![' ']);
        lemma_parted_concat(before, ',', tail);
        lemma_scanned_concat(before.push(','), tail);
        lemma_parted_single(tail, ',');
        let pieces = parted(before, ',') + seq![tail];
        assert(pieces.last() == tail);
        assert(pieces.drop_last() =~= parted(before, ','));
        assert(front.push(last) =~= entries);
    }
}

/// A `Secure-Session-Skipped` header read back gives the entries that it was
/// written for, in order.
pub proof fn law_skipped_reads_back(entries: Seq<SkippedView>)
    ensures
        skipped_entries(parted(skipped_text(entries), ',')) == entries,
{
    if entries.len() == 0 {
        let none = Seq::<char>::empty();
        assert(skipped_text(entries) == none);
        let pieces = parted(none, ',');
        assert(pieces == seq![none]);
        assert(pieces.last() == none);
        assert(pieces.drop_last() =~= Seq::<Seq<char>>::empty());
        assert(skipped_entries(pieces.drop_last()) =~= Seq::<SkippedView>::empty());
        lemma_empty_item();
        assert(skipped_entries(pieces) =~= entries);
    } else {
        lemma_items_read_back(entries);
    }
}

proof fn lemma_empty_item()
    ensures
        skipped_entry(Seq::empty()) is None,
{
    let none = Seq::<char>::empty();
    let parts = parted(none, ';');
    assert(parts == seq![none]);
    assert(text::trimmed(none) == none);
    reveal_strlit("unreachable");
    reveal_strlit("server_error");
    reveal_strlit("quota_exceeded");
    assert("unreachable"@.len() == 11 && "server_error"@.len() == 12 && "quota_exceeded"@.len()
        == 14);
}

proof fn lemma_first_index_none(s: Seq<char>, c: char)
    requires
        !s.contains(c),
    ensures
        first_index(s, c) == s.len(),
    decreases s.len(),
{
    if s.len() > 0 {
        assert(s.contains(s[0]));
        assert forall|i: int| 0 <= i < s.drop_first().len() implies s.drop_first()[i] != c by {
            assert(s.contains(s[i + 1]));
        }
        lemma_first_index_none(s.drop_first(), c);
    }
}

/// A parameter falls apart at its first `=`. It names the session if and only if
/// what stands before is `session_identifier`, whitespace around it aside; its
/// value is the quoted string behind. Without a `=` it names nothing.
pub proof fn law_parameter_falls_apart(key: Seq<char>, value: Seq<char>)
    requires
        !key.contains('='),
    ensures
        names_session(key.push('=') + value) <==> text::trimmed(key) == "session_identifier"@,
        parameter_value(key.push('=') + value) == unquoted(value),
        !names_session(key),
{
    let param = key.push('=') + value;
    lemma_first_index(key, '=', value);
    lemma_first_index_none(key, '=');
    assert(param.take(key.len() as int) =~= key);
    assert(param.skip(key.len() as int + 1) =~= value);
    text::lemma_trimmed_twice(value);
}

/// The items of a `Secure-Session-Skipped` list are read one by one: an item that
/// says nothing changes nothing for the others, wherever it stands.
pub proof fn law_items_read_one_by_one(a: Seq<Seq<char>>, item: Seq<char>, b: Seq<Seq<char>>)
    ensures
        skipped_entry(item) matches Some(e) ==> skipped_entries(a.push(item) + b)
            == skipped_entries(a).push(e) + skipped_entries(b),
        skipped_entry(item) is None ==> skipped_entries(a.push(item) + b) == skipped_entries(a + b),
        skipped_entries(a + b) == skipped_entries(a) + skipped_entries(b),
        skipped_entries(Seq::empty()) == Seq::<SkippedView>::empty(),
    decreases b.len(),
{
    let whole = a.push(item) + b;
    if b.len() == 0 {
        assert(whole =~= a.push(item));
        assert(a + b =~= a);
        assert(a.push(item).drop_last() =~= a);
        assert(a.push(item).last() == item);
    } else {
        let front = b.drop_last();
        law_items_read_one_by_one(a, item, front);
        assert(whole.drop_last() =~= a.push(item) + front);
        assert(whole.last() == b.last());
        assert((a + b).drop_last() =~= a + front);
        assert((a + b).last() == b.last());
        if let Some(e) = skipped_entry(b.last()) {
            assert((skipped_entries(a) + skipped_entries(front)).push(e) =~= skipped_entries(a)
                + skipped_entries(front).push(e));
            if let Some(d) = skipped_entry(item) {
                assert((skipped_entries(a).push(d) + skipped_entries(front)).push(e)
                    =~= skipped_entries(a).push(d) + skipped_entries(front).push(e));
            }
        }
    }
}

/// The entries of two lists with a comma between them are those of the one and
/// those of the other.
pub proof fn law_skipped_lists_combine(a: Seq<char>, b: Seq<char>)
    requires
        text::scanned(a) == (false, false),
    ensures
        skipped_entries(parted(a.push(',') + b, ',')) == skipped_entries(parted(a, ','))
            + skipped_entries(parted(b, ',')),
{
    lemma_parted_concat(a, ',', b);
    law_items_read_one_by_one(parted(a, ','), Seq::empty(), parted(b, ','));
}

/// The part of a header for a parameter: none where there is no value or an empty
/// one.
pub open spec fn given(key: Seq<char>, value: Option<Seq<char>>) -> Seq<Seq<char>> {
    if value is Some && value->Some_0.len() > 0 {
        seq![key.push('=') + quoted(value->Some_0)]
    } else {
        seq![]
    }
}

proof fn lemma_add_parameter(front: Seq<char>, key: Seq<char>, value: Option<Seq<char>>)
    requires
        text::scanned(front) == (false, false),
        !key.contains('"'),
        !key.contains(';'),
    ensures
        text::scanned(front + parameter(key, value)) == (false, false),
        parted(front + parameter(key, value), ';') == parted(front, ';') + given(key, value),
{
    if value is Some && value->Some_0.len() > 0 {
        let v = value->Some_0;
        let head = key.push('=');
        let piece = head + quoted(v);
        assert forall|i: int| 0 <= i < head.len() implies head[i] != '"' && head[i] != ';' by {
            if i < key.len() {
                assert(key.contains(key[i]));
            }
        }
        lemma_quoted_piece(head, v, ';');
        lemma_parted_single(piece, ';');
        assert(front + parameter(key, value) =~= front.push(';') + piece);
        lemma_parted_concat(front, ';', piece);
        lemma_scanned_concat(front.push(';'), piece);
    } else {
        assert(front + parameter(key, value) =~= front);
        assert(parted(front, ';') + given(key, value) =~= parted(front, ';'));
    }
}

/// A `Secure-Session-Registration` header falls into the list of algorithms and one
/// part for each value that is there and not empty, under its own name; the
/// algorithms read back from the list, and each value from its part.
pub proof fn law_registration_reads_back(
    algs: Seq<Seq<char>>,
    path: Option<Seq<char>>,
    challenge: Option<Seq<char>>,
    authorization: Option<Seq<char>>,
    provider_key: Option<Seq<char>>,
    provider_session_id: Option<Seq<char>>,
    provider_url: Option<Seq<char>>,
)
    requires
        algs.len() > 0,
        forall|i: int|
            0 <= i < algs.len() ==> !(#[trigger] algs[i]).contains('"') && !algs[i].contains(';')
                && !algs[i].contains(' '),
    ensures
        ({
            let parts = parted(
                registration_text(
                    algs,
                    path,
                    challenge,
                    authorization,
                    provider_key,
                    provider_session_id,
                    provider_url,
                ),
                ';',
            );
            let list = parts[0];
            &&& parts == seq![list] + given("path"@, path) + given("challenge"@, challenge) + given(
                "authorization"@,
                authorization,
            ) + given("provider_key"@, provider_key) + given(
                "provider_session_id"@,
                provider_session_id,
            ) + given("provider_url"@, provider_url)
            &&& list.len() >= 2 && list[0] == '(' && list.last() == ')'
            &&& text::split(list.subrange(1, list.len() - 1), ' ') == algs
        }),
{
    let joined = text::join(algs, " "@);
    let list = seq!['('] + joined + seq![')'];
    lemma_algorithm_list(algs);
    lemma_parameter_names();
    let t1 = list + parameter("path"@, path);
    let t2 = t1 + parameter("challenge"@, challenge);
    let t3 = t2 + parameter("authorization"@, authorization);
    let t4 = t3 + parameter("provider_key"@, provider_key);
    let t5 = t4 + parameter("provider_session_id"@, provider_session_id);
    let t6 = t5 + parameter("provider_url"@, provider_url);
    lemma_add_parameter(list, "path"@, path);
    lemma_add_parameter(t1, "challenge"@, challenge);
    lemma_add_parameter(t2, "authorization"@, authorization);
    lemma_add_parameter(t3, "provider_key"@, provider_key);
    lemma_add_parameter(t4, "provider_session_id"@, provider_session_id);
    lemma_add_parameter(t5, "provider_url"@, provider_url);
    assert(parted(t6, ';')[0] == list);
}

/// The text between the brackets of a list of algorithms is their join.
pub proof fn lemma_list_alone(algs: Seq<Seq<char>>, list: Seq<char>)
    requires
        algs.len() > 0,
        list.len() >= 2 && list[0] == '(' && list.last() == ')',
        text::split(list.subrange(1, list.len() - 1), ' ') == algs,
    ensures
        list == seq!['('] + text::join(algs, " "@) + seq![')'],
{
    reveal_strlit(" ");
    assert(" "@ =~= seq![' ']);
    text::lemma_split_join(list.subrange(1, list.len() - 1), ' ');
    assert(list =~= seq!['('] + list.subrange(1, list.len() - 1) + seq![')']);
}

proof fn lemma_parameter_names()
    ensures
        !"path"@.contains('"') && !"path"@.contains(';'),
        !"challenge"@.contains('"') && !"challenge"@.contains(';'),
        !"authorization"@.contains('"') && !"authorization"@.contains(';'),
        !"provider_key"@.contains('"') && !"provider_key"@.contains(';'),
        !"provider_session_id"@.contains('"') && !"provider_session_id"@.contains(';'),
        !"provider_url"@.contains('"') && !"provider_url"@.contains(';'),
{
    reveal_strlit("path");
    reveal_strlit("challenge");
    reveal_strlit("authorization");
    reveal_strlit("provider_key");
    reveal_strlit("provider_session_id");
    reveal_strlit("provider_url");
}

proof fn lemma_algorithm_list(algs: Seq<Seq<char>>)
    requires
        algs.len() > 0,
        forall|i: int|
            0 <= i < algs.len() ==> !(#[trigger] algs[i]).contains('"') && !algs[i].contains(';')
                && !algs[i].contains(' '),
    ensures
        ({
            let list = seq!['('] + text::join(algs, " "@) + seq![')'];
            &&& text::scanned(list) == (false, false)
            &&& parted(list, ';') == seq![list]
            &&& list.len() >= 2 && list[0] == '(' && list.last() == ')'
            &&& text::split(list.subrange(1, list.len() - 1), ' ') == algs
        }),
{
    reveal_strlit(" ");
    assert(" "@ =~= seq![' ']);
    assert(!" "@.contains('"') && !" "@.contains(';'));
    let joined = text::join(algs, " "@);
    text::lemma_join_lacks(algs, " "@, '"');
    text::lemma_join_lacks(algs, " "@, ';');
    let list = seq!['('] + joined + seq![')'];
    assert forall|i: int| 0 <= i < list.len() implies list[i] != '"' && list[i] != ';' by {
        if 0 < i <= joined.len() {
            assert(joined.contains(joined[i - 1]));
        }
    }
    lemma_scanned_plain(list);
    lemma_parted_single(list, ';');
    text::law_join_splits(algs, ' ');
    assert(list.subrange(1, list.len() - 1) =~= joined);
}

/// The part for a parameter reads back: its name up to the first `=`, and its value
/// behind it.
pub proof fn law_given_reads_back(key: Seq<char>, value: Seq<char>)
    requires
        value.len() > 0,
        !key.contains('='),
    ensures
        given(key, Some(value)).len() == 1,
        ({
            let part = given(key, Some(value))[0];
            &&& part.take(first_index(part, '=')) == key
            &&& unquoted(part.skip(first_index(part, '=') + 1)) == Some(value)
        }),
{
    let part = given(key, Some(value))[0];
    lemma_first_index(key, '=', quoted(value));
    assert(part.take(key.len() as int) =~= key);
    assert(part.skip(key.len() as int + 1) =~= quoted(value));
    law_quoted_reads_back(value, Seq::empty());
}

/// Text without quotes and backslashes needs no escapes: its quoted string is the
/// text between two quotes.
pub proof fn law_plain_text_as_it_is(s: Seq<char>)
    requires
        !s.contains('"'),
        !s.contains('\\'),
    ensures
        escaped(s) == s,
        quoted(s) == seq!['"'] + s + seq!['"'],
    decreases s.len(),
{
    if s.len() > 0 {
        let rest = s.drop_first();
        assert(s.contains(s[0]));
        assert forall|i: int| 0 <= i < rest.len() implies rest[i] != '"' && rest[i] != '\\' by {
            assert(s.contains(s[i + 1]));
        }
        law_plain_text_as_it_is(rest);
        assert(escaped(s) =~= s);
    }
}

/// Escaping goes character by character: a quote and a backslash get a backslash in
/// front, and every other character stays as it is.
pub proof fn law_escaped_by_character(a: Seq<char>, c: char, b: Seq<char>)
    ensures
        escaped(a + b) == escaped(a) + escaped(b),
        escaped(seq!['"']) == seq!['\\', '"'],
        escaped(seq!['\\']) == seq!['\\', '\\'],
        c != '"' && c != '\\' ==> escaped(seq![c]) == seq![c],
    decreases a.len(),
{
    let none = Seq::<char>::empty();
    assert(seq!['"'].drop_first() =~= none);
    assert(seq!['\\'].drop_first() =~= none);
    assert(seq![c].drop_first() =~= none);
    assert(escaped(none) == none);
    assert(escaped(seq!['"']) =~= seq!['\\', '"']);
    assert(escaped(seq!['\\']) =~= seq!['\\', '\\']);
    assert(escaped(seq![c]) =~= escaped_char(c));
    if a.len() == 0 {
        assert(a + b =~= b);
        assert(escaped(a) + escaped(b) =~= escaped(b));
    } else {
        law_escaped_by_character(a.drop_first(), c, b);
        assert((a + b).drop_first() =~= a.drop_first() + b);
        assert((a + b)[0] == a[0]);
        assert(escaped(a + b) =~= escaped(a) + escaped(b));
    }
}

/// A `Secure-Session-Registration` header is the algorithms in brackets, with blanks
/// between them, and behind them the parameters, which do not depend on the algorithms.
pub proof fn law_registration_algorithms(
    algs: Seq<Seq<char>>,
    path: Option<Seq<char>>,
    challenge: Option<Seq<char>>,
    authorization: Option<Seq<char>>,
    provider_key: Option<Seq<char>>,
    provider_session_id: Option<Seq<char>>,
    provider_url: Option<Seq<char>>,
)
    ensures
        registration_text(algs, None, None, None, None, None, None) == "("@ + text::join(algs, " "@)
            + ")"@,
        registration_text(
            algs,
            path,
            challenge,
            authorization,
            provider_key,
            provider_session_id,
            provider_url,
        ) == "("@ + text::join(algs, " "@) + registration_text(
            seq![],
            path,
            challenge,
            authorization,
            provider_key,
            provider_session_id,
            provider_url,
        ).skip(1),
{
    reveal_strlit("(");
    reveal_strlit(")");
    let none = Seq::<Seq<char>>::empty();
    let params = parameter("path"@, path) + parameter("challenge"@, challenge) + parameter(
        "authorization"@,
        authorization,
    ) + parameter("provider_key"@, provider_key) + parameter(
        "provider_session_id"@,
        provider_session_id,
    ) + parameter("provider_url"@, provider_url);
    assert(registration_text(algs, None, None, None, None, None, None) =~= "("@ + text::join(
        algs,
        " "@,
    ) + ")"@);
    let whole = registration_text(
        algs,
        path,
        challenge,
        authorization,
        provider_key,
        provider_session_id,
        provider_url,
    );
    let bare = registration_text(
        none,
        path,
        challenge,
        authorization,
        provider_key,
        provider_session_id,
        provider_url,
    );
    assert(text::join(none, " "@) =~= Seq::<char>::empty());
    assert(whole =~= seq!['('] + text::join(algs, " "@) + (seq![')'] + params));
    assert(bare =~= seq!['('] + (seq![')'] + params));
    assert(bare.skip(1) =~= seq![')'] + params);
}

/// A `Secure-Session-Skipped` header is the items with a comma and a blank between
/// them: each the token of its reason and the quoted id as its one parameter.
pub proof fn law_skipped_text(a: Seq<SkippedView>, e: SkippedView, b: Seq<SkippedView>)
    ensures
        skipped_text(Seq::empty()) == Seq::<char>::empty(),
        skipped_text(seq![e]) == reason_token(e.reason) + ";session_identifier="@ + quoted(
            e.session_id,
        ),
        a.len() > 0 && b.len() > 0 ==> skipped_text(a + b) == skipped_text(a) + ", "@
            + skipped_text(b),
{
    let item = |x: SkippedView| skipped_item(x);
    assert(Seq::<SkippedView>::empty().map_values(item) =~= Seq::<Seq<char>>::empty());
    assert(seq![e].map_values(item) =~= seq![skipped_item(e)]);
    assert((a + b).map_values(item) =~= a.map_values(item) + b.map_values(item));
    text::law_join(a.map_values(item), b.map_values(item), skipped_item(e), ", "@);
}

} // verus!
