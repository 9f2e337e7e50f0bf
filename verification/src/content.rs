//! The JSON text of event contents, as `serde_json` and `ruma` write it.

use ruma::events::room::join_rules::JoinRule;
use ruma::events::room::join_rules::RoomJoinRulesEventContent;
use ruma::events::room::member::MembershipState;
use ruma::events::room::member::RoomMemberEventContent;
use ruma::events::TimelineEventType;
use serde_json::value::to_raw_value;
use serde_json::Value;
use vstd::prelude::*;

use crate::text::decimal;
use crate::text::text_less;

verus! {

/// The hexadecimal digit of `n`, in lower case.
pub open spec fn hex_digit(n: int) -> char {
    if n < 10 {
        ('0' as int + n) as char
    } else {
        ('a' as int + n - 10) as char
    }
}

/// How the character `c` is written inside a JSON string.
pub open spec fn json_char(c: char) -> Seq<char> {
    if c == '"' {
        seq!['\\', '"']
    } else if c == '\\' {
        seq!['\\', '\\']
    } else if c as int >= 0x20 {
        seq![c]
    } else if c as int == 0x08 {
        seq!['\\', 'b']
    } else if c as int == 0x09 {
        seq!['\\', 't']
    } else if c as int == 0x0a {
        seq!['\\', 'n']
    } else if c as int == 0x0c {
        seq!['\\', 'f']
    } else if c as int == 0x0d {
        seq!['\\', 'r']
    } else {
        seq!['\\', 'u', '0', '0', hex_digit(c as int / 16), hex_digit(c as int % 16)]
    }
}

/// The characters of `text` as they are written inside a JSON string.
pub open spec fn json_chars(text: Seq<char>) -> Seq<char>
    decreases text.len(),
{
    if text.len() == 0 {
        seq![]
    } else {
        json_chars(text.drop_last()) + json_char(text.last())
    }
}

/// `text` as a JSON string.
pub open spec fn json_string(text: Seq<char>) -> Seq<char> {
    seq!['"'] + json_chars(text) + seq!['"']
}

/// `n` as a JSON number.
pub open spec fn json_integer(n: int) -> Seq<char> {
    if n < 0 {
        seq!['-'] + decimal((-n) as nat)
    } else {
        decimal(n as nat)
    }
}

/// The members of a JSON object that gives each name of `levels` its number, in that order.
pub open spec fn json_members(levels: Seq<(Seq<char>, i64)>) -> Seq<char>
    decreases levels.len(),
{
    if levels.len() == 0 {
        seq![]
    } else {
        let rest = json_members(levels.drop_last());
        let (name, level) = levels.last();
        (if levels.len() == 1 {
            rest
        } else {
            rest.push(',')
        }) + json_string(name) + seq![':'] + json_integer(level as int)
    }
}

/// The JSON object whose only member is `name`, with the JSON text `value`.
pub open spec fn json_field(name: Seq<char>, value: Seq<char>) -> Seq<char> {
    seq!['{'] + json_string(name) + seq![':'] + value + seq!['}']
}

/// The names of `levels` stand in ascending order, none of them twice.
pub open spec fn names_ascend(levels: Seq<(Seq<char>, i64)>) -> bool {
    forall|i: int, j: int|
        0 <= i < j < levels.len() ==> text_less((#[trigger] levels[i]).0, (#[trigger] levels[j]).0)
}

/// What a member of a room is to it.
#[derive(Clone, Copy, PartialEq, Eq, Debug)]
pub enum Membership {
    Ban,
    Join,
}

/// The name of `membership` in a member event.
pub open spec fn membership_name(membership: Membership) -> Seq<char> {
    match membership {
        Membership::Ban => "ban"@,
        Membership::Join => "join"@,
    }
}

/// The kinds of event that the sample rooms are made of.
#[derive(Clone, Copy, PartialEq, Eq, Debug)]
pub enum EventKind {
    RoomCreate,
    RoomMember,
    RoomPowerLevels,
    RoomJoinRules,
    RoomTopic,
}

/// The name of an event kind.
pub open spec fn kind_name(kind: EventKind) -> Seq<char> {
    match kind {
        EventKind::RoomCreate => "m.room.create"@,
        EventKind::RoomMember => "m.room.member"@,
        EventKind::RoomPowerLevels => "m.room.power_levels"@,
        EventKind::RoomJoinRules => "m.room.join_rules"@,
        EventKind::RoomTopic => "m.room.topic"@,
    }
}

/// Writes out a variant of `ruma::events::TimelineEventType`, by its `to_string`: claimed to be
/// the name that events of that type carry.
#[verifier::external_body]
pub(crate) fn event_type(kind: EventKind) -> (r: String)
    ensures
        r@ == kind_name(kind),
{
    match kind {
        EventKind::RoomCreate => TimelineEventType::RoomCreate,
        EventKind::RoomMember => TimelineEventType::RoomMember,
        EventKind::RoomPowerLevels => TimelineEventType::RoomPowerLevels,
        EventKind::RoomJoinRules => TimelineEventType::RoomJoinRules,
        EventKind::RoomTopic => TimelineEventType::RoomTopic,
    }.to_string()
}

/// Calls `serde_json::value::to_raw_value` on an object with one member, a string: claimed to
/// write that object without spaces, with the escapes of [`json_char`].
#[verifier::external_body]
pub(crate) fn raw_string_field(name: &str, value: &str) -> (r: String)
    ensures
        r@ == json_field(name@, json_string(value@)),
{
    let mut object = serde_json::Map::new();
    object.insert(name.to_owned(), Value::String(value.to_owned()));
    to_raw_value(&Value::Object(object)).unwrap().get().to_owned()
}

/// Calls `serde_json::value::to_raw_value` on an object whose only member is an object of
/// numbers. A `serde_json` object is written in the order of its names, so for names that ascend
/// that is the order of `levels`; the contract claims nothing of other lists.
#[verifier::external_body]
pub(crate) fn raw_levels_field(name: &str, levels: &Vec<(String, i64)>) -> (r: String)
    requires
        names_ascend(levels.deep_view()),
    ensures
        r@ == json_field(name@, seq!['{'] + json_members(levels.deep_view()) + seq!['}']),
{
    let numbers = levels.iter().map(|(user, level)| (user.clone(), Value::from(*level))).collect();
    let mut object = serde_json::Map::new();
    object.insert(name.to_owned(), Value::Object(numbers));
    to_raw_value(&Value::Object(object)).unwrap().get().to_owned()
}

/// Calls `serde_json::value::to_raw_value` on an object without members, claimed to be written
/// `{}`.
#[verifier::external_body]
pub(crate) fn raw_empty_object() -> (r: String)
    ensures
        r@ == seq!['{', '}'],
{
    to_raw_value(&Value::Object(serde_json::Map::new())).unwrap().get().to_owned()
}

/// Writes out what `ruma`'s `RoomMemberEventContent::new` makes, by `to_raw_value`. Claimed of
/// it: only the membership is written, every other field is unset and left out.
#[verifier::external_body]
fn raw_member_content(membership: Membership) -> (r: String)
    ensures
        r@ == json_field("membership"@, json_string(membership_name(membership))),
{
    let state = match membership {
        Membership::Ban => MembershipState::Ban,
        Membership::Join => MembershipState::Join,
    };
    to_raw_value(&RoomMemberEventContent::new(state)).unwrap().get().to_owned()
}

/// Writes out what `ruma`'s `RoomJoinRulesEventContent::new` makes of the public join rule, by
/// `to_raw_value`: claimed to be an object with the name of that rule and nothing else.
#[verifier::external_body]
pub(crate) fn raw_public_join_rules() -> (r: String)
    ensures
        r@ == json_field("join_rule"@, json_string("public"@)),
{
    to_raw_value(&RoomJoinRulesEventContent::new(JoinRule::Public)).unwrap().get().to_owned()
}

/// The content of an event that bans its user.
pub fn member_content_ban() -> (r: String)
    ensures
        r@ == json_field("membership"@, json_string("ban"@)),
{
    raw_member_content(Membership::Ban)
}

/// The content of an event by which its user joins.
pub fn member_content_join() -> (r: String)
    ensures
        r@ == json_field("membership"@, json_string("join"@)),
{
    raw_member_content(Membership::Join)
}

} // verus!
