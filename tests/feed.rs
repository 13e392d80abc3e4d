use std::collections::{HashMap, HashSet};
use yammer_tools::feed::{
    collect_groups, collect_users, deletable_prefix, filter_messages, has_likes, is_counted, is_spared, read_page,
    read_thread, user_id_from_lookup,
};
use yammer_tools::json::JsonValue;
use yammer_tools::message::{YammerGroup, YammerMessage, YammerUser};

fn s(t: &str) -> JsonValue {
    JsonValue::Str(t.to_string())
}

fn obj(members: Vec<(&str, JsonValue)>) -> JsonValue {
    JsonValue::Object(members.into_iter().map(|(k, v)| (k.to_string(), v)).collect())
}

fn post(id: u64, sender_id: u64, sender_type: &str, likes: u64) -> JsonValue {
    obj(vec![
        ("id", JsonValue::UInt(id)),
        ("sender_id", JsonValue::UInt(sender_id)),
        ("sender_type", s(sender_type)),
        ("thread_id", JsonValue::UInt(id)),
        ("group_id", JsonValue::UInt(4)),
        ("network_id", JsonValue::UInt(1)),
        ("privacy", s("public")),
        ("created_at", s("2024/01/01 10:00:00 +0000")),
        ("body", obj(vec![("rich", s("hello"))])),
        ("liked_by", obj(vec![("count", JsonValue::UInt(likes)), ("names", JsonValue::Array(Vec::new()))])),
    ])
}

fn liked_post(id: u64, sender_id: u64, likers: &[u64]) -> JsonValue {
    let names = likers.iter().map(|u| obj(vec![("user_id", JsonValue::UInt(*u))])).collect();
    obj(vec![
        ("id", JsonValue::UInt(id)),
        ("sender_id", JsonValue::UInt(sender_id)),
        ("sender_type", s("user")),
        ("liked_by", obj(vec![("count", JsonValue::UInt(likers.len() as u64)), ("names", JsonValue::Array(names))])),
    ])
}

fn feed(messages: Vec<JsonValue>, older: Option<bool>) -> JsonValue {
    let mut members = vec![("messages", JsonValue::Array(messages))];
    if let Some(o) = older {
        members.push(("meta", obj(vec![("older_available", JsonValue::Bool(o))])));
    }
    obj(members)
}

fn ids(ms: &[JsonValue]) -> Vec<u64> {
    ms.iter().map(|m| m.get("id").and_then(|v| v.as_u64()).unwrap()).collect()
}

#[test]
fn page_keeps_user_posts_and_reads_flag() {
    let f = feed(vec![post(9, 1, "user", 0), post(8, 2, "bot", 0), post(7, 2, "user", 0)], Some(true));
    let (ms, more) = read_page(f, None).ok().unwrap();
    assert_eq!(ids(&ms), vec![9, 7]);
    assert!(more);
}

#[test]
fn page_filters_by_sender() {
    let f = feed(vec![post(9, 1, "user", 0), post(8, 2, "user", 0), post(7, 1, "user", 0)], Some(false));
    let (ms, more) = read_page(f, Some(1)).ok().unwrap();
    assert_eq!(ids(&ms), vec![9, 7]);
    assert!(!more);
}

#[test]
fn page_without_meta_has_no_more() {
    let (ms, more) = read_page(feed(vec![post(3, 1, "user", 0)], None), None).ok().unwrap();
    assert_eq!(ids(&ms), vec![3]);
    assert!(!more);
}

#[test]
fn page_without_messages_is_malformed() {
    let f = obj(vec![("meta", obj(vec![("older_available", JsonValue::Bool(true))]))]);
    let e = read_page(f, None).err().unwrap();
    assert_eq!(e.0, "messages");
    assert!(read_thread(obj(vec![("messages", s("none"))]), None).is_err());
}

#[test]
fn same_feed_twice_gives_same_page() {
    let make = || feed(vec![post(5, 1, "user", 0), post(4, 3, "system", 0), post(2, 1, "user", 0)], Some(true));
    let (a, ma) = read_page(make(), Some(1)).ok().unwrap();
    let (b, mb) = read_page(make(), Some(1)).ok().unwrap();
    assert_eq!(ids(&a), ids(&b));
    assert_eq!(ma, mb);
    let again = filter_messages(a, Some(1));
    assert_eq!(ids(&again), ids(&b));
}

#[test]
fn thread_feed_is_filtered() {
    let f = feed(vec![post(3, 1, "user", 0), post(2, 1, "bot", 0)], None);
    let ms = read_thread(f, None).ok().unwrap();
    assert_eq!(ids(&ms), vec![3]);
}

#[test]
fn counted_needs_user_sender_type() {
    assert!(is_counted(&post(1, 1, "user", 0), None));
    assert!(!is_counted(&post(1, 1, "User", 0), None));
    assert!(!is_counted(&obj(vec![("sender_type", JsonValue::UInt(1))]), None));
    assert!(!is_counted(&post(1, 1, "user", 0), Some(2)));
}

#[test]
fn likes_against_deletion() {
    assert!(!has_likes(&post(1, 1, "user", 0), None));
    assert!(has_likes(&post(1, 1, "user", 2), None));
    assert!(!has_likes(&liked_post(1, 1, &[1]), Some(1)));
    assert!(has_likes(&liked_post(1, 1, &[1, 5]), Some(1)));
    let unlisted = obj(vec![("liked_by", obj(vec![("count", JsonValue::UInt(1))]))]);
    assert!(has_likes(&unlisted, Some(1)));
    assert!(!has_likes(&obj(vec![]), Some(1)));
}

#[test]
fn deletion_stops_at_liked_or_foreign_post() {
    let thread = vec![post(5, 1, "user", 0), post(4, 1, "user", 0), post(3, 2, "user", 0), post(2, 1, "user", 0)];
    assert_eq!(deletable_prefix(&thread, Some(1)), 2);
    assert_eq!(deletable_prefix(&thread, None), 4);
    let liked = vec![post(5, 1, "user", 0), liked_post(4, 1, &[9]), post(3, 1, "user", 0)];
    assert_eq!(deletable_prefix(&liked, Some(1)), 1);
    assert_eq!(deletable_prefix(&Vec::new(), Some(1)), 0);
}

#[test]
fn excluded_or_liked_threads_are_spared() {
    let mut exclude = HashSet::new();
    exclude.insert(7u64);
    assert!(is_spared(&post(7, 1, "user", 0), Some(1), &exclude));
    assert!(!is_spared(&post(8, 1, "user", 0), Some(1), &exclude));
    assert!(is_spared(&liked_post(8, 1, &[3]), Some(1), &exclude));
}

#[test]
fn lookup_finds_first_user_id() {
    let answer = JsonValue::Array(vec![
        obj(vec![("type", s("guest")), ("id", JsonValue::UInt(1))]),
        obj(vec![("type", s("user")), ("id", JsonValue::UInt(42))]),
        obj(vec![("type", s("user")), ("id", JsonValue::UInt(43))]),
    ]);
    assert_eq!(user_id_from_lookup(&answer).ok(), Some(42));
    assert!(user_id_from_lookup(&JsonValue::Array(vec![])).is_err());
    assert!(user_id_from_lookup(&obj(vec![])).is_err());
    let no_id = JsonValue::Array(vec![obj(vec![("type", s("user"))])]);
    assert!(user_id_from_lookup(&no_id).is_err());
}

fn user_record(id: u64, email: &str) -> JsonValue {
    obj(vec![
        ("type", s("user")),
        ("id", JsonValue::UInt(id)),
        ("full_name", s("Ann Example")),
        ("email", s(email)),
        ("network_id", JsonValue::UInt(3)),
        ("state", s("active")),
    ])
}

#[test]
fn users_of_a_listing() {
    let answer = JsonValue::Array(vec![user_record(1, "a@x.org"), obj(vec![("type", s("group"))]), user_record(2, "b@x.org")]);
    let users = collect_users(&answer).ok().unwrap();
    assert_eq!(users.len(), 2);
    assert_eq!(users[0], YammerUser::with(1, "Ann Example", "a@x.org", 3, "active", ""));
    assert_eq!(users[1].email, "b@x.org");
    let broken = JsonValue::Array(vec![obj(vec![("type", s("user")), ("id", JsonValue::UInt(1))])]);
    assert!(collect_users(&broken).is_err());
    assert!(collect_users(&JsonValue::Null).is_err());
}

#[test]
fn groups_of_a_listing() {
    let answer = JsonValue::Array(vec![
        obj(vec![("type", s("group")), ("id", JsonValue::UInt(4)), ("name", s("eng")), ("full_name", s("Engineering"))]),
        user_record(1, "a@x.org"),
    ]);
    let groups = collect_groups(&answer).ok().unwrap();
    assert_eq!(groups, vec![YammerGroup { id: 4, name: "eng".to_string(), display_name: "Engineering".to_string() }]);
    let broken = JsonValue::Array(vec![obj(vec![("type", s("group")), ("id", JsonValue::UInt(4))])]);
    assert_eq!(collect_groups(&broken).err().unwrap().0, "name");
}

#[test]
fn message_names_from_tables() {
    let m = post(9, 1, "user", 2);
    let mut users = HashMap::new();
    users.insert(1u64, YammerUser::with(1, "Ann", "ann@x.org", 3, "", ""));
    let mut groups = HashMap::new();
    groups.insert(4u64, YammerGroup { id: 4, name: "eng".to_string(), display_name: "Engineering".to_string() });
    let read = YammerMessage::from_json(&m, Some(&users), Some(&groups)).ok().unwrap();
    assert_eq!(read.sender_name, "ann@x.org");
    assert_eq!(read.group_name, "Engineering");
    assert_eq!(read.liked_by, 2);
    assert_eq!(read.body, "hello");
    assert!(read.is_thread());
    let bare = YammerMessage::from_json(&m, None, None).ok().unwrap();
    assert_eq!(bare.sender_name, "1");
    assert_eq!(bare.group_name, "4");
}

#[test]
fn message_ids_in_decimal_when_unknown() {
    let m = obj(vec![
        ("id", JsonValue::UInt(1)),
        ("replied_to_id", JsonValue::UInt(77)),
        ("sender_id", JsonValue::UInt(1234567890123)),
        ("privacy", s("private")),
        ("created_at", s("now")),
        ("body", obj(vec![("rich", s("x"))])),
    ]);
    let read = YammerMessage::from_json(&m, Some(&HashMap::new()), None).ok().unwrap();
    assert_eq!(read.sender_name, "1234567890123");
    assert_eq!(read.group_name, "0");
    assert_eq!(read.replied_to_id, Some(77));
    assert!(!read.is_thread());
    assert_eq!(read.liked_by, 0);
}

#[test]
fn message_without_body_is_malformed() {
    let m = obj(vec![("privacy", s("public")), ("created_at", s("now"))]);
    assert_eq!(YammerMessage::from_json(&m, None, None).err().unwrap().0, "body.rich");
    let m = obj(vec![("created_at", s("now"))]);
    assert_eq!(YammerMessage::from_json(&m, None, None).err().unwrap().0, "privacy");
}

#[test]
fn user_record_fields() {
    let u = YammerUser::from_json(&user_record(5, "e@x.org")).ok().unwrap();
    assert_eq!(u.id, 5);
    assert_eq!(u.name, "Ann Example");
    assert_eq!(u.state, "active");
    assert_eq!(u.job_title, "");
    let missing = obj(vec![("id", JsonValue::UInt(5)), ("full_name", s("A")), ("email", s("e"))]);
    assert_eq!(YammerUser::from_json(&missing).err().unwrap().0, "network_id");
    assert!(YammerGroup::from_json(&obj(vec![])).is_err());
}
