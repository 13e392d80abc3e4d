use std::collections::HashSet;
use yammer_tools::feed::read_page;
use yammer_tools::json::JsonValue;
use yammer_tools::paging::{last_message_id, Pager};

fn obj(members: Vec<(&str, JsonValue)>) -> JsonValue {
    JsonValue::Object(members.into_iter().map(|(k, v)| (k.to_string(), v)).collect())
}

/// A mocked feed: the `size` newest ids older than the cursor.
fn answer(data: &[u64], cursor: Option<u64>, size: usize) -> JsonValue {
    let rest: Vec<u64> = data.iter().copied().filter(|id| cursor.map_or(true, |c| *id < c)).collect();
    let page: Vec<JsonValue> = rest
        .iter()
        .take(size)
        .map(|id| obj(vec![("id", JsonValue::UInt(*id)), ("sender_type", JsonValue::Str("user".to_string()))]))
        .collect();
    obj(vec![
        ("messages", JsonValue::Array(page)),
        ("meta", obj(vec![("older_available", JsonValue::Bool(rest.len() > size))])),
    ])
}

fn walk(data: &[u64], size: usize) -> (Vec<u64>, usize) {
    let mut pager = Pager::new();
    let mut seen = Vec::new();
    let mut requests = 0;
    while let Some(cursor) = pager.next_request() {
        requests += 1;
        assert!(requests <= data.len() + 1, "the walk does not end");
        let (page, more) = read_page(answer(data, cursor, size), None).ok().unwrap();
        for m in &page {
            seen.push(m.get("id").and_then(|v| v.as_u64()).unwrap());
        }
        pager.advance(last_message_id(&page), more);
    }
    (seen, requests)
}

#[test]
fn walk_collects_every_message_once() {
    let data: Vec<u64> = (1..=10).rev().collect();
    let (seen, requests) = walk(&data, 3);
    assert_eq!(seen, data);
    let unique: HashSet<u64> = seen.iter().copied().collect();
    assert_eq!(unique.len(), seen.len());
    assert_eq!(requests, 4);
}

#[test]
fn walk_with_exact_pages_and_empty_feed() {
    let data: Vec<u64> = vec![40, 30, 20, 10];
    assert_eq!(walk(&data, 2).0, data);
    assert_eq!(walk(&data, 4), (data.clone(), 1));
    assert_eq!(walk(&[], 5), (Vec::new(), 1));
}

#[test]
fn stale_cursor_ends_the_walk() {
    let mut pager = Pager::new();
    pager.advance(Some(50), true);
    assert_eq!(pager.next_request(), Some(Some(50)));
    pager.advance(Some(60), true);
    assert_eq!(pager.next_request(), None);
    let mut empty = Pager::new();
    empty.advance(None, true);
    assert_eq!(empty.next_request(), None);
}

#[test]
fn last_id_of_page() {
    assert_eq!(last_message_id(&Vec::new()), None);
    let page = vec![obj(vec![("id", JsonValue::UInt(8))]), obj(vec![("id", JsonValue::UInt(3))])];
    assert_eq!(last_message_id(&page), Some(3));
}
