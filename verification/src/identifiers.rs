//! Event, user and room identifiers.
//!
//! An identifier is a `String` and its view the sequence of its characters. What `ruma` accepts
//! as an event id is known here by the name [`is_event_id`].

use ruma::EventId;
use ruma::IdParseError;
use vstd::prelude::*;

verus! {

/// The error with which `ruma` rejects an identifier.
#[verifier::external_type_specification]
#[verifier::external_body]
pub struct ExIdParseError(IdParseError);

/// Whether `ruma` accepts `text` as an event id (`ruma::EventId::parse`).
pub uninterp spec fn is_event_id(text: Seq<char>) -> bool;

/// An ASCII letter or digit, `-` or `.`: what a host name is made of.
pub open spec fn is_host_char(c: char) -> bool {
    ||| 'a' <= c <= 'z'
    ||| 'A' <= c <= 'Z'
    ||| '0' <= c <= '9'
    ||| c == '-'
    ||| c == '.'
}

/// `text` is `$`, a local part, `:` and a host name; both parts hold host characters only, and
/// the whole is not longer than an identifier may be.
pub open spec fn is_plain_event_id(text: Seq<char>) -> bool {
    &&& 3 <= text.len() <= 255
    &&& text[0] == '$'
    &&& exists|colon: int| #[trigger] splits_plainly(text, colon)
}

/// The `:` at `colon` is the only character of `text`, but for the first, that is not a host
/// character, and a host name follows it.
pub open spec fn splits_plainly(text: Seq<char>, colon: int) -> bool {
    &&& 1 <= colon < text.len() - 1
    &&& text[colon] == ':'
    &&& forall|i: int| 1 <= i < text.len() && i != colon ==> is_host_char(#[trigger] text[i])
}

/// Calls `ruma::EventId::parse` and hands the accepted id back as a `String`.
///
/// Claimed of it: which texts it accepts depends on the text alone, and an accepted text is kept
/// as it is. What it accepts starts with `$`. It accepts every text that starts with `$` and
/// holds no `:`, and every plain event id.
#[verifier::external_body]
fn parse_event_id(text: &str) -> (r: Result<String, IdParseError>)
    ensures
        r is Ok <==> is_event_id(text@),
        r matches Ok(id) ==> id@ == text@,
        r is Ok ==> text@.len() > 0 && text@[0] == '$',
        text@.len() > 0 && text@[0] == '$' && !text@.contains(':') ==> r is Ok,
        is_plain_event_id(text@) ==> r is Ok,
{
    EventId::parse(text).map(|id| id.to_string())
}

/// The event id that `id` stands for: `id` itself where it holds the sigil `$`, otherwise the id
/// with that local part on the server `foo`.
pub open spec fn full_event_id(id: Seq<char>) -> Seq<char> {
    if id.contains('$') {
        id
    } else {
        seq!['$'] + id + seq![':', 'f', 'o', 'o']
    }
}

/// The event ids that `ids` stand for.
pub open spec fn full_event_ids(ids: Seq<Seq<char>>) -> Seq<Seq<char>> {
    ids.map_values(|id: Seq<char>| full_event_id(id))
}

/// `id` stands for an event id. The second case is part of the first: it is the part that can be
/// told by looking at the text.
pub open spec fn names_event(id: Seq<char>) -> bool {
    is_event_id(full_event_id(id)) || is_plain_event_id(full_event_id(id))
}

/// Whether `text` holds the character `wanted`.
pub fn has_char(text: &str, wanted: char) -> (r: bool)
    ensures
        r == text@.contains(wanted),
{
    for c in it: text.chars()
        invariant
            it.seq() == text@,
            forall|i: int| 0 <= i < it.index() ==> text@[i] != wanted,
    {
        if c == wanted {
            assert(text@[it.index()] == wanted);
            return true;
        }
    }
    false
}

/// The text of the event id that `id` stands for.
fn expand_event_id(id: &str) -> (r: String)
    ensures
        r@ == full_event_id(id@),
{
    if has_char(id, '$') {
        return id.to_owned();
    }
    let mut text = "$".to_owned();
    text.append(id);
    text.append(":foo");
    proof {
        reveal_strlit("$");
        reveal_strlit(":foo");
        assert("$"@ =~= seq!['$']);
        assert(":foo"@ =~= seq![':', 'f', 'o', 'o']);
    }
    text
}

/// The event id that `id` stands for; the text that it stands for has to be an event id.
pub fn event_id(id: &str) -> (r: String)
    requires
        names_event(id@),
    ensures
        r@ == full_event_id(id@),
        is_event_id(r@),
{
    let text = expand_event_id(id);
    parse_event_id(&text).unwrap()
}

/// The event id that `id` stands for, or `None` where the text that it stands for is not an event
/// id.
pub fn try_event_id(id: &str) -> (r: Option<String>)
    ensures
        r is Some <==> is_event_id(full_event_id(id@)),
        r matches Some(full) ==> full@ == full_event_id(id@),
{
    let text = expand_event_id(id);
    if parse_event_id(&text).is_ok() {
        Some(event_id(id))
    } else {
        None
    }
}

/// The user `@alice:foo`.
pub fn alice() -> (r: &'static str)
    ensures
        r@ == "@alice:foo"@,
{
    "@alice:foo"
}

/// The user `@bob:foo`.
pub fn bob() -> (r: &'static str)
    ensures
        r@ == "@bob:foo"@,
{
    "@bob:foo"
}

/// The user `@charlie:foo`.
pub fn charlie() -> (r: &'static str)
    ensures
        r@ == "@charlie:foo"@,
{
    "@charlie:foo"
}

/// The user `@ella:foo`.
pub fn ella() -> (r: &'static str)
    ensures
        r@ == "@ella:foo"@,
{
    "@ella:foo"
}

/// The room `!test:foo`.
pub fn room_id() -> (r: &'static str)
    ensures
        r@ == "!test:foo"@,
{
    "!test:foo"
}

/// Every event id stands for itself, so expanding twice is expanding once.
pub proof fn full_event_id_is_idempotent(id: Seq<char>)
    ensures
        full_event_id(id).contains('$'),
        full_event_id(full_event_id(id)) == full_event_id(id),
{
    if !id.contains('$') {
        assert(full_event_id(id)[0] == '$');
    }
}

/// Two short names without the sigil stand for the same event only where they are the same.
pub proof fn full_event_id_is_injective_on_names(a: Seq<char>, b: Seq<char>)
    requires
        !a.contains('$'),
        !b.contains('$'),
        full_event_id(a) == full_event_id(b),
    ensures
        a == b,
{
    assert(full_event_id(a).len() == a.len() + 5);
    assert(full_event_id(b).len() == b.len() + 5);
    assert forall|i: int| 0 <= i < a.len() implies a[i] == b[i] by {
        assert(full_event_id(a)[i + 1] == a[i]);
        assert(full_event_id(b)[i + 1] == b[i]);
    }
    assert(a =~= b);
}

/// A text with the sigil stands for itself. One without it stands for the id that starts with the
/// sigil, has that text for its local part and is on the server `foo`.
pub proof fn full_event_id_keeps_the_name(id: Seq<char>)
    ensures
        id.contains('$') ==> full_event_id(id) == id,
        !id.contains('$') ==> {
            let full = full_event_id(id);
            &&& full.len() == id.len() + 5
            &&& full[0] == '$'
            &&& full.subrange(1, 1 + id.len() as int) == id
            &&& full.skip(1 + id.len() as int) == ":foo"@
        },
{
    reveal_strlit(":foo");
    if !id.contains('$') {
        let full = full_event_id(id);
        assert(full.subrange(1, 1 + id.len() as int) =~= id);
        assert(full.skip(1 + id.len() as int) =~= ":foo"@);
    }
}

} // verus!
