use crate::error::{InvalidEmailError, MalformedResponseError};
use crate::json::{bool_at, field, json_array, json_bool, json_str, json_u64, str_at, u64_at, JsonValue};
use crate::message::{group_complete, group_read_from, u64_or_zero, user_complete, user_read_from, YammerGroup, YammerUser};
use std::collections::HashSet;
use vstd::prelude::*;

verus! {

broadcast use vstd::std_specs::hash::group_hash_axioms;

/// Whether a record is of the given `type` (a JSON string).
pub open spec fn has_type(v: JsonValue, ty: Seq<char>) -> bool {
    json_str(field(v, "type"@)) == Some(ty)
}

/// Whether a message counts for a listing: a user sent it, and it is the filtered
/// user where a filter is set.
pub open spec fn counted(v: JsonValue, user_id: Option<u64>) -> bool {
    &&& json_str(field(v, "sender_type"@)) == Some("user"@)
    &&& (user_id is None || json_u64(field(v, "sender_id"@)) == user_id)
}

/// The messages of a batch that count for a listing, in their order.
pub open spec fn counted_messages(batch: Seq<JsonValue>, user_id: Option<u64>) -> Seq<JsonValue> {
    batch.filter(|v: JsonValue| counted(v, user_id))
}

/// The "older results exist" flag of a feed; absent reads as false.
pub open spec fn older_available(feed: JsonValue) -> bool {
    json_bool(field(field(feed, "meta"@), "older_available"@)) == Some(true)
}

/// Filtering is idempotent: the messages kept from a batch are kept again, all of
/// them and in the same order, when the kept messages are filtered once more with
/// the same filter.
pub proof fn lemma_filter_idempotent(batch: Seq<JsonValue>, user_id: Option<u64>)
    ensures
        counted_messages(counted_messages(batch, user_id), user_id) == counted_messages(batch, user_id),
    decreases batch.len(),
{
    let p = |v: JsonValue| counted(v, user_id);
    if batch.len() > 0 {
        let rest = batch.drop_last();
        let x = batch.last();
        assert(batch =~= rest.push(x));
        rest.lemma_filter_push(x, p);
        lemma_filter_idempotent(rest, user_id);
        if counted(x, user_id) {
            rest.filter(p).lemma_filter_push(x, p);
        }
    } else {
        assert(counted_messages(batch, user_id) =~= batch);
    }
}

/// Whether a JSON string equals `text`.
fn str_is(v: &JsonValue, key: &str, text: &str) -> (r: bool)
    ensures
        r == (json_str(field(*v, key@)) == Some(text@)),
{
    match str_at(v, key) {
        Some(s) => {
            let t: String = text.to_owned();
            s == t
        },
        None => false,
    }
}

/// Whether a message counts for a listing, as `counted` says.
pub fn is_counted(v: &JsonValue, user_id: Option<u64>) -> (r: bool)
    ensures
        r == counted(*v, user_id),
{
    str_is(v, "sender_type", "user") && (user_id.is_none() || u64_at(v, "sender_id") == user_id)
}

/// Keeps the messages of a batch that count for a listing.
pub fn filter_messages(batch: Vec<JsonValue>, user_id: Option<u64>) -> (r: Vec<JsonValue>)
    ensures
        r@ == counted_messages(batch@, user_id),
{
    let ghost all = batch@;
    let ghost n: int = all.len() as int;
    let mut rest = batch;
    let mut kept: Vec<JsonValue> = Vec::new();
    assert(counted_messages(all.take(0), user_id) =~= Seq::<JsonValue>::empty());
    assert(all.skip(0) =~= all);
    while rest.len() > 0
        invariant
            n == all.len(),
            rest@.len() <= n,
            rest@ == all.skip(n - rest@.len()),
            kept@ == counted_messages(all.take(n - rest@.len()), user_id),
        decreases rest.len(),
    {
        let ghost i = n - rest@.len();
        let v = rest.remove(0);
        proof {
            assert(rest@ =~= all.skip(i + 1));
            assert(all.take(i + 1) =~= all.take(i).push(v));
            all.take(i).lemma_filter_push(v, |v: JsonValue| counted(v, user_id));
        }
        assert(counted_messages(all.take(i + 1), user_id) == if counted(v, user_id) {
            counted_messages(all.take(i), user_id).push(v)
        } else {
            counted_messages(all.take(i), user_id)
        });
        if is_counted(&v, user_id) {
            kept.push(v);
        }
    }
    assert(all.take(n) =~= all);
    kept
}

/// One page of a feed, filtered: the messages that count and whether older ones
/// exist. Fails where the feed has no `messages` array.
pub fn read_page(feed: JsonValue, user_id: Option<u64>) -> (r: Result<(Vec<JsonValue>, bool), MalformedResponseError>)
    ensures
        r is Ok <==> json_array(field(feed, "messages"@)) is Some,
        r matches Ok((ms, more)) ==> {
            &&& ms@ == counted_messages(json_array(field(feed, "messages"@))->0, user_id)
            &&& more == older_available(feed)
        },
{
    let more = match feed.get("meta") {
        Some(meta) => bool_at(meta, "older_available") == Some(true),
        None => false,
    };
    match feed.into_field("messages").into_array() {
        Some(batch) => Ok((filter_messages(batch, user_id), more)),
        None => Err(MalformedResponseError("messages".to_owned())),
    }
}

/// The messages of a thread that count for a listing. Fails where the feed has no
/// `messages` array.
pub fn read_thread(feed: JsonValue, user_id: Option<u64>) -> (r: Result<Vec<JsonValue>, MalformedResponseError>)
    ensures
        r is Ok <==> json_array(field(feed, "messages"@)) is Some,
        r matches Ok(ms) ==> ms@ == counted_messages(json_array(field(feed, "messages"@))->0, user_id),
{
    match feed.into_field("messages").into_array() {
        Some(batch) => Ok(filter_messages(batch, user_id)),
        None => Err(MalformedResponseError("messages".to_owned())),
    }
}

/// Whether a message has likes that stand against deleting it: any like at all
/// where no user is given; else a like by someone other than `user_id`. A
/// message whose like count is set but whose likers are not listed counts as
/// liked by others.
pub open spec fn liked(v: JsonValue, user_id: Option<u64>) -> bool {
    let likes = field(v, "liked_by"@);
    if u64_or_zero(field(likes, "count"@)) == 0 {
        false
    } else if user_id is None {
        true
    } else {
        match json_array(field(likes, "names"@)) {
            Some(names) => exists|i: int| 0 <= i < names.len() && json_u64(field(names[i], "user_id"@)) != user_id,
            None => true,
        }
    }
}

/// Whether a message has likes that stand against deleting it, as `liked` says.
pub fn has_likes(message: &JsonValue, user_id: Option<u64>) -> (r: bool)
    ensures
        r == liked(*message, user_id),
{
    let likes = match message.get("liked_by") {
        Some(l) => l,
        None => return false,
    };
    let count = match u64_at(likes, "count") {
        Some(n) => n,
        None => 0,
    };
    if count == 0 {
        return false;
    }
    if user_id.is_none() {
        return true;
    }
    let names = match likes.get("names") {
        Some(n) => match n.as_array() {
            Some(a) => a,
            None => return true,
        },
        None => return true,
    };
    let mut i: usize = 0;
    while i < names.len()
        invariant
            i <= names@.len(),
            user_id is Some,
            u64_or_zero(field(*likes, "count"@)) != 0,
            field(*message, "liked_by"@) == *likes,
            json_array(field(*likes, "names"@)) == Some(names@),
            forall|j: int| 0 <= j < i ==> json_u64(field(#[trigger] names@[j], "user_id"@)) == user_id,
        decreases names@.len() - i,
    {
        if u64_at(&names[i], "user_id") != user_id {
            assert(json_u64(field(names@[i as int], "user_id"@)) != user_id);
            return true;
        }
        i = i + 1;
    }
    false
}

/// Whether deleting a thread stops at this message: it has likes, or a user is
/// given and someone else sent it.
pub open spec fn stops_deletion(v: JsonValue, user_id: Option<u64>) -> bool {
    liked(v, user_id) || (user_id is Some && json_u64(field(v, "sender_id"@)) != user_id)
}

/// How many messages of a thread, taken in order, may be deleted: those before the
/// first one at which deletion stops.
pub fn deletable_prefix(messages: &Vec<JsonValue>, user_id: Option<u64>) -> (r: usize)
    ensures
        r <= messages@.len(),
        forall|j: int| 0 <= j < r ==> !stops_deletion(#[trigger] messages@[j], user_id),
        r < messages@.len() ==> stops_deletion(messages@[r as int], user_id),
{
    let mut i: usize = 0;
    while i < messages.len()
        invariant
            i <= messages@.len(),
            forall|j: int| 0 <= j < i ==> !stops_deletion(#[trigger] messages@[j], user_id),
        decreases messages@.len() - i,
    {
        let m = &messages[i];
        if has_likes(m, user_id) || (user_id.is_some() && u64_at(m, "sender_id") != user_id) {
            return i;
        }
        i = i + 1;
    }
    i
}

/// Whether a bulk deletion leaves the thread of this message alone: its id is
/// excluded, or it has likes that stand against deleting it.
pub open spec fn spared(v: JsonValue, user_id: Option<u64>, exclude: Set<u64>) -> bool {
    (json_u64(field(v, "id"@)) matches Some(id) && exclude.contains(id)) || liked(v, user_id)
}

/// Whether a bulk deletion leaves the thread of this message alone, as `spared` says.
pub fn is_spared(message: &JsonValue, user_id: Option<u64>, exclude: &HashSet<u64>) -> (r: bool)
    ensures
        r == spared(*message, user_id, exclude@),
{
    let excluded = match u64_at(message, "id") {
        Some(id) => exclude.contains(&id),
        None => false,
    };
    excluded || has_likes(message, user_id)
}

/// The position of the first record of type "user" in a list.
pub open spec fn first_user(items: Seq<JsonValue>) -> Option<int>
    decreases items.len(),
{
    if items.len() == 0 {
        None
    } else if has_type(items[0], "user"@) {
        Some(0)
    } else {
        match first_user(items.drop_first()) {
            Some(i) => Some(i + 1),
            None => None,
        }
    }
}

/// The id of the user that a lookup by email found: the id of the first record of
/// type "user" in the answer. Fails where the answer is no list, holds no user, or
/// the first user has no id.
pub fn user_id_from_lookup(answer: &JsonValue) -> (r: Result<u64, InvalidEmailError>)
    ensures
        match json_array(*answer) {
            Some(items) => match first_user(items) {
                Some(i) => match json_u64(field(items[i], "id"@)) {
                    Some(id) => r == Ok::<u64, InvalidEmailError>(id),
                    None => r is Err,
                },
                None => r is Err,
            },
            None => r is Err,
        },
{
    let items = match answer.as_array() {
        Some(a) => a,
        None => return Err(InvalidEmailError),
    };
    let mut i: usize = 0;
    assert(items@.skip(0) =~= items@);
    while i < items.len()
        invariant
            i <= items@.len(),
            json_array(*answer) == Some(items@),
            first_user(items@) == match first_user(items@.skip(i as int)) {
                Some(k) => Some(k + i),
                None => None::<int>,
            },
        decreases items@.len() - i,
    {
        assert(items@.skip(i as int).drop_first() =~= items@.skip(i + 1));
        assert(items@.skip(i as int)[0] == items@[i as int]);
        if str_is(&items[i], "type", "user") {
            assert(has_type(items@[i as int], "user"@));
            assert(first_user(items@.skip(i as int)) == Some(0int));
            return match u64_at(&items[i], "id") {
                Some(id) => Ok(id),
                None => Err(InvalidEmailError),
            };
        }
        i = i + 1;
    }
    Err(InvalidEmailError)
}

/// The records of a list that have the given type, in their order.
pub open spec fn of_type(items: Seq<JsonValue>, ty: Seq<char>) -> Seq<JsonValue> {
    items.filter(|v: JsonValue| has_type(v, ty))
}

/// The users of a listing: each record of type "user", read as a user. Fails where
/// the answer is no list or one of those records lacks what a user needs.
pub fn collect_users(answer: &JsonValue) -> (r: Result<Vec<YammerUser>, MalformedResponseError>)
    ensures
        r is Ok <==> (json_array(*answer) is Some && forall|j: int|
            0 <= j < of_type(json_array(*answer)->0, "user"@).len() ==> user_complete(
                #[trigger] of_type(json_array(*answer)->0, "user"@)[j],
            )),
        r matches Ok(us) ==> us@.len() == of_type(json_array(*answer)->0, "user"@).len() && forall|j: int|
            0 <= j < us@.len() ==> user_read_from(#[trigger] us@[j], of_type(json_array(*answer)->0, "user"@)[j]),
{
    let items = match answer.as_array() {
        Some(a) => a,
        None => return Err(MalformedResponseError("users".to_owned())),
    };
    let ghost typed = of_type(items@, "user"@);
    let mut users: Vec<YammerUser> = Vec::new();
    let mut i: usize = 0;
    assert(of_type(items@.take(0), "user"@) =~= Seq::<JsonValue>::empty());
    while i < items.len()
        invariant
            i <= items@.len(),
            json_array(*answer) == Some(items@),
            typed == of_type(items@, "user"@),
            users@.len() == of_type(items@.take(i as int), "user"@).len(),
            forall|j: int| 0 <= j < users@.len() ==> user_read_from(#[trigger] users@[j], of_type(items@.take(i as int), "user"@)[j]),
            forall|j: int| 0 <= j < users@.len() ==> user_complete(#[trigger] of_type(items@.take(i as int), "user"@)[j]),
        decreases items@.len() - i,
    {
        let v = &items[i];
        proof {
            assert(items@.take(i + 1) =~= items@.take(i as int).push(*v));
            items@.take(i as int).lemma_filter_push(*v, |v: JsonValue| has_type(v, "user"@));
        }
        if str_is(v, "type", "user") {
            match YammerUser::from_json(v) {
                Ok(u) => users.push(u),
                Err(e) => {
                    proof {
                        let k = of_type(items@.take(i as int), "user"@).len() as int;
                        assert(of_type(items@.take(i + 1), "user"@)[k] == *v);
                        lemma_filter_prefix(items@, "user"@, i + 1);
                        assert(typed[k] == *v);
                        assert(0 <= k < typed.len() && !user_complete(of_type(items@, "user"@)[k]));
                        assert(json_array(*answer)->0 == items@);
                        assert(!user_complete(of_type(json_array(*answer)->0, "user"@)[k]));
                    }
                    return Err(e);
                },
            }
        }
        i = i + 1;
    }
    assert(items@.take(i as int) =~= items@);
    Ok(users)
}

/// The groups of a listing: each record of type "group", read as a group. Fails
/// where the answer is no list or one of those records lacks what a group needs.
pub fn collect_groups(answer: &JsonValue) -> (r: Result<Vec<YammerGroup>, MalformedResponseError>)
    ensures
        r is Ok <==> (json_array(*answer) is Some && forall|j: int|
            0 <= j < of_type(json_array(*answer)->0, "group"@).len() ==> group_complete(
                #[trigger] of_type(json_array(*answer)->0, "group"@)[j],
            )),
        r matches Ok(gs) ==> gs@.len() == of_type(json_array(*answer)->0, "group"@).len() && forall|j: int|
            0 <= j < gs@.len() ==> group_read_from(#[trigger] gs@[j], of_type(json_array(*answer)->0, "group"@)[j]),
{
    let items = match answer.as_array() {
        Some(a) => a,
        None => return Err(MalformedResponseError("groups".to_owned())),
    };
    let ghost typed = of_type(items@, "group"@);
    let mut groups: Vec<YammerGroup> = Vec::new();
    let mut i: usize = 0;
    assert(of_type(items@.take(0), "group"@) =~= Seq::<JsonValue>::empty());
    while i < items.len()
        invariant
            i <= items@.len(),
            json_array(*answer) == Some(items@),
            typed == of_type(items@, "group"@),
            groups@.len() == of_type(items@.take(i as int), "group"@).len(),
            forall|j: int| 0 <= j < groups@.len() ==> group_read_from(#[trigger] groups@[j], of_type(items@.take(i as int), "group"@)[j]),
            forall|j: int| 0 <= j < groups@.len() ==> group_complete(#[trigger] of_type(items@.take(i as int), "group"@)[j]),
        decreases items@.len() - i,
    {
        let v = &items[i];
        proof {
            assert(items@.take(i + 1) =~= items@.take(i as int).push(*v));
            items@.take(i as int).lemma_filter_push(*v, |v: JsonValue| has_type(v, "group"@));
        }
        if str_is(v, "type", "group") {
            match YammerGroup::from_json(v) {
                Ok(g) => groups.push(g),
                Err(e) => {
                    proof {
                        let k = of_type(items@.take(i as int), "group"@).len() as int;
                        assert(of_type(items@.take(i + 1), "group"@)[k] == *v);
                        lemma_filter_prefix(items@, "group"@, i + 1);
                        assert(typed[k] == *v);
                        assert(0 <= k < typed.len() && !group_complete(of_type(items@, "group"@)[k]));
                        assert(json_array(*answer)->0 == items@);
                        assert(!group_complete(of_type(json_array(*answer)->0, "group"@)[k]));
                    }
                    return Err(e);
                },
            }
        }
        i = i + 1;
    }
    assert(items@.take(i as int) =~= items@);
    Ok(groups)
}

/// The records of a type in a prefix of a list are the first ones of that type in
/// the whole list.
proof fn lemma_filter_prefix(items: Seq<JsonValue>, ty: Seq<char>, i: int)
    requires
        0 <= i <= items.len(),
    ensures
        of_type(items.take(i), ty).len() <= of_type(items, ty).len(),
        forall|j: int| 0 <= j < of_type(items.take(i), ty).len() ==> #[trigger] of_type(items.take(i), ty)[j] == of_type(items, ty)[j],
    decreases items.len() - i,
{
    if i < items.len() {
        lemma_filter_prefix(items, ty, i + 1);
        assert(items.take(i + 1) =~= items.take(i).push(items[i]));
        items.take(i).lemma_filter_push(items[i], |v: JsonValue| has_type(v, ty));
        assert forall|j: int| 0 <= j < of_type(items.take(i), ty).len() implies #[trigger] of_type(
            items.take(i),
            ty,
        )[j] == of_type(items, ty)[j] by {
            assert(of_type(items.take(i + 1), ty)[j] == of_type(items.take(i), ty)[j]);
        }
    } else {
        assert(items.take(i) =~= items);
    }
}

} // verus!
