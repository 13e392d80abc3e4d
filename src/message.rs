use crate::error::MalformedResponseError;
use crate::json::{field, json_str, json_u64, str_at, u64_at, JsonValue};
use std::collections::HashMap;
use vstd::prelude::*;

verus! {

broadcast use vstd::std_specs::hash::group_hash_axioms;

/// The decimal digits of `n`, most significant first.
pub open spec fn decimal(n: nat) -> Seq<char>
    decreases n,
{
    let digit = seq!['0', '1', '2', '3', '4', '5', '6', '7', '8', '9'][(n % 10) as int];
    if n < 10 {
        seq![digit]
    } else {
        decimal(n / 10).push(digit)
    }
}

/// Relies on the standard `ToString` of `u64` (its `Display`): the number in decimal.
#[verifier::external_body]
fn decimal_string(n: u64) -> (r: String)
    ensures
        r@ == decimal(n as nat),
{
    n.to_string()
}

/// The text of a JSON string, empty for any other value.
pub open spec fn text_or_empty(v: JsonValue) -> Seq<char> {
    match json_str(v) {
        Some(s) => s,
        None => Seq::empty(),
    }
}

/// The number of a JSON unsigned integer, zero for any other value.
pub open spec fn u64_or_zero(v: JsonValue) -> u64 {
    match json_u64(v) {
        Some(n) => n,
        None => 0,
    }
}

fn text_or_empty_at(v: &JsonValue, key: &str) -> (r: String)
    ensures
        r@ == text_or_empty(field(*v, key@)),
{
    match str_at(v, key) {
        Some(s) => s,
        None => String::new(),
    }
}

fn u64_or_zero_at(v: &JsonValue, key: &str) -> (r: u64)
    ensures
        r == u64_or_zero(field(*v, key@)),
{
    match u64_at(v, key) {
        Some(n) => n,
        None => 0,
    }
}

/// A member of the network.
#[derive(Debug, Clone, PartialEq, Eq)]
pub struct YammerUser {
    pub id: u64,
    pub name: String,
    pub email: String,
    pub network_id: u64,
    pub state: String,
    pub job_title: String,
}

/// Whether a user record holds the members that a user needs.
pub open spec fn user_complete(v: JsonValue) -> bool {
    &&& json_u64(field(v, "id"@)) is Some
    &&& json_str(field(v, "full_name"@)) is Some
    &&& json_str(field(v, "email"@)) is Some
    &&& json_u64(field(v, "network_id"@)) is Some
}

/// Whether `u` holds what the record `v` says of a user.
pub open spec fn user_read_from(u: YammerUser, v: JsonValue) -> bool {
    &&& json_u64(field(v, "id"@)) == Some(u.id)
    &&& json_str(field(v, "full_name"@)) == Some(u.name@)
    &&& json_str(field(v, "email"@)) == Some(u.email@)
    &&& json_u64(field(v, "network_id"@)) == Some(u.network_id)
    &&& u.state@ == text_or_empty(field(v, "state"@))
    &&& u.job_title@ == text_or_empty(field(v, "job_title"@))
}

impl YammerUser {
    /// Reads a user record: `id`, `full_name`, `email` and `network_id` are required,
    /// `state` and `job_title` are empty where absent.
    pub fn from_json(user: &JsonValue) -> (r: Result<YammerUser, MalformedResponseError>)
        ensures
            r is Ok <==> user_complete(*user),
            r matches Ok(u) ==> user_read_from(u, *user),
    {
        let id = match u64_at(user, "id") {
            Some(n) => n,
            None => return Err(MalformedResponseError("id".to_owned())),
        };
        let name = match str_at(user, "full_name") {
            Some(s) => s,
            None => return Err(MalformedResponseError("full_name".to_owned())),
        };
        let email = match str_at(user, "email") {
            Some(s) => s,
            None => return Err(MalformedResponseError("email".to_owned())),
        };
        let network_id = match u64_at(user, "network_id") {
            Some(n) => n,
            None => return Err(MalformedResponseError("network_id".to_owned())),
        };
        Ok(YammerUser {
            id,
            name,
            email,
            network_id,
            state: text_or_empty_at(user, "state"),
            job_title: text_or_empty_at(user, "job_title"),
        })
    }

    pub fn with(id: u64, name: &str, email: &str, network_id: u64, state: &str, job_title: &str) -> (u: Self)
        ensures
            u.id == id,
            u.name@ == name@,
            u.email@ == email@,
            u.network_id == network_id,
            u.state@ == state@,
            u.job_title@ == job_title@,
    {
        YammerUser {
            id,
            name: name.to_owned(),
            email: email.to_owned(),
            network_id,
            state: state.to_owned(),
            job_title: job_title.to_owned(),
        }
    }
}

/// A group of the network.
#[derive(Debug, Clone, PartialEq, Eq)]
pub struct YammerGroup {
    pub id: u64,
    pub name: String,
    pub display_name: String,
}

/// Whether a group record holds the members that a group needs.
pub open spec fn group_complete(v: JsonValue) -> bool {
    &&& json_u64(field(v, "id"@)) is Some
    &&& json_str(field(v, "name"@)) is Some
    &&& json_str(field(v, "full_name"@)) is Some
}

/// Whether `g` holds what the record `v` says of a group.
pub open spec fn group_read_from(g: YammerGroup, v: JsonValue) -> bool {
    &&& json_u64(field(v, "id"@)) == Some(g.id)
    &&& json_str(field(v, "name"@)) == Some(g.name@)
    &&& json_str(field(v, "full_name"@)) == Some(g.display_name@)
}

impl YammerGroup {
    /// Reads a group record: `id`, `name` and `full_name` (the display name) are required.
    pub fn from_json(group: &JsonValue) -> (r: Result<YammerGroup, MalformedResponseError>)
        ensures
            r is Ok <==> group_complete(*group),
            r matches Ok(g) ==> group_read_from(g, *group),
    {
        let id = match u64_at(group, "id") {
            Some(n) => n,
            None => return Err(MalformedResponseError("id".to_owned())),
        };
        let name = match str_at(group, "name") {
            Some(s) => s,
            None => return Err(MalformedResponseError("name".to_owned())),
        };
        let display_name = match str_at(group, "full_name") {
            Some(s) => s,
            None => return Err(MalformedResponseError("full_name".to_owned())),
        };
        Ok(YammerGroup { id, name, display_name })
    }
}

/// A post, with the names of its sender and group resolved for display.
/// `replies` is filled only when a thread is rebuilt.
#[derive(Debug)]
pub struct YammerMessage {
    pub id: u64,
    pub replied_to_id: Option<u64>,
    pub sender_id: u64,
    pub sender_name: String,
    pub network_id: u64,
    pub group_id: u64,
    pub group_name: String,
    pub thread_id: u64,
    pub privacy: String,
    pub created_at: String,
    pub body: String,
    pub liked_by: u64,
    pub replies: Option<Vec<YammerMessage>>,
}

/// The mathematical value of a message: its fields, and its replies as a tree.
pub ghost struct MessageView {
    pub id: u64,
    pub replied_to_id: Option<u64>,
    pub sender_id: u64,
    pub sender_name: Seq<char>,
    pub network_id: u64,
    pub group_id: u64,
    pub group_name: Seq<char>,
    pub thread_id: u64,
    pub privacy: Seq<char>,
    pub created_at: Seq<char>,
    pub body: Seq<char>,
    pub liked_by: u64,
    pub replies: Option<Seq<MessageView>>,
}

/// The view of a message, its replies included.
pub open spec fn message_view(m: YammerMessage) -> MessageView
    decreases m,
{
    MessageView {
        id: m.id,
        replied_to_id: m.replied_to_id,
        sender_id: m.sender_id,
        sender_name: m.sender_name@,
        network_id: m.network_id,
        group_id: m.group_id,
        group_name: m.group_name@,
        thread_id: m.thread_id,
        privacy: m.privacy@,
        created_at: m.created_at@,
        body: m.body@,
        liked_by: m.liked_by,
        replies: match m.replies {
            Some(v) => Some(
                Seq::new(
                    v@.len(),
                    |i: int|
                        if 0 <= i < v@.len() {
                            message_view(v@[i])
                        } else {
                            arbitrary()
                        },
                ),
            ),
            None => None,
        },
    }
}

impl View for YammerMessage {
    type V = MessageView;

    open spec fn view(&self) -> MessageView {
        message_view(*self)
    }
}

/// Whether a message record holds the members that a message needs.
pub open spec fn message_complete(v: JsonValue) -> bool {
    &&& json_str(field(v, "privacy"@)) is Some
    &&& json_str(field(v, "created_at"@)) is Some
    &&& json_str(field(field(v, "body"@), "rich"@)) is Some
}

/// The name shown for a sender: the user's email where the table knows the id,
/// else the id in decimal.
pub open spec fn sender_label(users: Option<Map<u64, YammerUser>>, id: u64) -> Seq<char> {
    match users {
        Some(m) => if m.contains_key(id) {
            m[id].email@
        } else {
            decimal(id as nat)
        },
        None => decimal(id as nat),
    }
}

/// The name shown for a group: its display name where the table knows the id,
/// else the id in decimal.
pub open spec fn group_label(groups: Option<Map<u64, YammerGroup>>, id: u64) -> Seq<char> {
    match groups {
        Some(m) => if m.contains_key(id) {
            m[id].display_name@
        } else {
            decimal(id as nat)
        },
        None => decimal(id as nat),
    }
}

pub open spec fn table_view<V>(t: Option<&HashMap<u64, V>>) -> Option<Map<u64, V>> {
    match t {
        Some(m) => Some(m@),
        None => None,
    }
}

impl YammerMessage {
    /// Whether the message starts a thread, replying to none.
    pub fn is_thread(&self) -> (r: bool)
        ensures
            r == (self.replied_to_id is None),
    {
        self.replied_to_id.is_none()
    }

    /// Reads a message record: `privacy`, `created_at` and `body.rich` are required;
    /// absent ids and the like count read as zero. Sender and group get their names
    /// from the tables where given.
    pub fn from_json(
        message: &JsonValue,
        users: Option<&HashMap<u64, YammerUser>>,
        groups: Option<&HashMap<u64, YammerGroup>>,
    ) -> (r: Result<YammerMessage, MalformedResponseError>)
        ensures
            r is Ok <==> message_complete(*message),
            r matches Ok(m) ==> {
                &&& m.id == u64_or_zero(field(*message, "id"@))
                &&& m.replied_to_id == json_u64(field(*message, "replied_to_id"@))
                &&& m.sender_id == u64_or_zero(field(*message, "sender_id"@))
                &&& m.sender_name@ == sender_label(table_view(users), m.sender_id)
                &&& m.network_id == u64_or_zero(field(*message, "network_id"@))
                &&& m.group_id == u64_or_zero(field(*message, "group_id"@))
                &&& m.group_name@ == group_label(table_view(groups), m.group_id)
                &&& m.thread_id == u64_or_zero(field(*message, "thread_id"@))
                &&& json_str(field(*message, "privacy"@)) == Some(m.privacy@)
                &&& json_str(field(*message, "created_at"@)) == Some(m.created_at@)
                &&& json_str(field(field(*message, "body"@), "rich"@)) == Some(m.body@)
                &&& m.liked_by == u64_or_zero(field(field(*message, "liked_by"@), "count"@))
                &&& m.replies is None
            },
    {
        let privacy = match str_at(message, "privacy") {
            Some(s) => s,
            None => return Err(MalformedResponseError("privacy".to_owned())),
        };
        let created_at = match str_at(message, "created_at") {
            Some(s) => s,
            None => return Err(MalformedResponseError("created_at".to_owned())),
        };
        let body = match message.get("body") {
            Some(b) => str_at(b, "rich"),
            None => None,
        };
        let body = match body {
            Some(s) => s,
            None => return Err(MalformedResponseError("body.rich".to_owned())),
        };
        let liked_by = match message.get("liked_by") {
            Some(l) => u64_or_zero_at(l, "count"),
            None => 0,
        };
        let sender_id = u64_or_zero_at(message, "sender_id");
        let sender_name = match users {
            Some(t) => match t.get(&sender_id) {
                Some(u) => u.email.clone(),
                None => decimal_string(sender_id),
            },
            None => decimal_string(sender_id),
        };
        let group_id = u64_or_zero_at(message, "group_id");
        let group_name = match groups {
            Some(t) => match t.get(&group_id) {
                Some(g) => g.display_name.clone(),
                None => decimal_string(group_id),
            },
            None => decimal_string(group_id),
        };
        Ok(YammerMessage {
            id: u64_or_zero_at(message, "id"),
            replied_to_id: u64_at(message, "replied_to_id"),
            sender_id,
            sender_name,
            network_id: u64_or_zero_at(message, "network_id"),
            group_id,
            group_name,
            thread_id: u64_or_zero_at(message, "thread_id"),
            privacy,
            created_at,
            body,
            liked_by,
            replies: None,
        })
    }
}

} // verus!
