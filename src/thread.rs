use crate::message::{MessageView, YammerMessage};
use vstd::prelude::*;

verus! {

/// The replies of a message, empty where it has none.
pub open spec fn children(m: MessageView) -> Seq<MessageView> {
    match m.replies {
        Some(s) => s,
        None => Seq::empty(),
    }
}

/// The message with `c` appended to its replies.
pub open spec fn with_reply(m: MessageView, c: MessageView) -> MessageView {
    MessageView { replies: Some(children(m).push(c)), ..m }
}

/// The views of a list of messages.
pub open spec fn views(s: Seq<YammerMessage>) -> Seq<MessageView> {
    s.map_values(|m: YammerMessage| m@)
}

/// The bucket that a message goes to: the message it replies to, or the thread
/// itself for a message that replies to none.
pub open spec fn parent_key(m: MessageView, thread_id: u64) -> u64 {
    match m.replied_to_id {
        Some(p) => p,
        None => thread_id,
    }
}

/// Depth-first search for a node with id `key` among `list` and their replies:
/// siblings are tried from the last to the first, and a node before its own replies.
/// The result is the path of indices from `list` down to the node found.
pub open spec fn find_path(list: Seq<MessageView>, key: u64) -> Option<Seq<int>>
    decreases list,
    via find_path_decreases
{
    if list.len() == 0 {
        None
    } else {
        let last = list.len() - 1;
        let node = list[last];
        if node.id == key {
            Some(seq![last])
        } else {
            let below = match node.replies {
                Some(r) => find_path(r, key),
                None => None,
            };
            match below {
                Some(p) => Some(seq![last] + p),
                None => find_path(list.drop_last(), key),
            }
        }
    }
}

#[via_fn]
proof fn find_path_decreases(list: Seq<MessageView>, key: u64) {
    if list.len() > 0 {
        let last = list.len() - 1;
        assert(decreases_to!(list => list[last]));
        assert(list.drop_last() =~= list.subrange(0, last));
        assert(decreases_to!(list => list.subrange(0, last)));
    }
}

/// `list` with `c` appended to the replies of the node at `path`.
pub open spec fn attach_at(list: Seq<MessageView>, path: Seq<int>, c: MessageView) -> Seq<MessageView>
    decreases path.len(),
{
    if path.len() == 0 {
        list
    } else {
        let i = path[0];
        let node = list[i];
        if path.len() == 1 {
            list.update(i, with_reply(node, c))
        } else {
            list.update(
                i,
                MessageView { replies: Some(attach_at(children(node), path.drop_first(), c)), ..node },
            )
        }
    }
}

/// Whether `path` leads from `list` to a node: each index is in range, and each
/// node passed through has replies.
pub open spec fn path_valid(list: Seq<MessageView>, path: Seq<int>) -> bool
    decreases path.len(),
{
    path.len() > 0 && 0 <= path[0] < list.len() && (path.len() == 1 || (
    list[path[0]].replies is Some && path_valid(children(list[path[0]]), path.drop_first())))
}

/// The roots of a forest as views: each under the key it was filed by.
pub open spec fn roots_view(s: Seq<(u64, YammerMessage)>) -> Seq<(u64, MessageView)> {
    s.map_values(|p: (u64, YammerMessage)| (p.0, p.1@))
}

/// The position of the root filed under `key`, the last one if several are.
pub open spec fn key_index(roots: Seq<(u64, MessageView)>, key: u64) -> Option<int>
    decreases roots.len(),
{
    if roots.len() == 0 {
        None
    } else if roots.last().0 == key {
        Some(roots.len() - 1)
    } else {
        key_index(roots.drop_last(), key)
    }
}

/// Search of the replies below the roots, the last root first: the root's position
/// and the path below it to the first node found with id `key`. Roots themselves are
/// not matched by id, only by the key they are filed under.
pub open spec fn find_in_roots(roots: Seq<(u64, MessageView)>, key: u64) -> Option<(int, Seq<int>)>
    decreases roots.len(),
{
    if roots.len() == 0 {
        None
    } else {
        match find_path(children(roots.last().1), key) {
            Some(p) => Some((roots.len() - 1, p)),
            None => find_in_roots(roots.drop_last(), key),
        }
    }
}

/// Files one message: under a root filed by its parent key, else below the node
/// found with that id, else as a new root under that key.
pub open spec fn file_message(roots: Seq<(u64, MessageView)>, m: MessageView, thread_id: u64) -> Seq<(u64, MessageView)> {
    let key = parent_key(m, thread_id);
    match key_index(roots, key) {
        Some(i) => roots.update(i, (key, with_reply(roots[i].1, m))),
        None => match find_in_roots(roots, key) {
            Some((r, p)) => roots.update(
                r,
                (roots[r].0, MessageView { replies: Some(attach_at(children(roots[r].1), p, m)), ..roots[r].1 }),
            ),
            None => roots.push((key, m)),
        },
    }
}

/// The forest rebuilt from `msgs`, which are filed from the last to the first.
pub open spec fn forest(msgs: Seq<MessageView>, thread_id: u64) -> Seq<(u64, MessageView)>
    decreases msgs.len(),
{
    if msgs.len() == 0 {
        Seq::empty()
    } else {
        file_message(forest(msgs.drop_first(), thread_id), msgs[0], thread_id)
    }
}

/// A path that the search finds leads to a node.
proof fn lemma_find_path_valid(list: Seq<MessageView>, key: u64)
    ensures
        find_path(list, key) matches Some(p) ==> path_valid(list, p),
    decreases list,
{
    if list.len() > 0 {
        let last = list.len() - 1;
        let node = list[last];
        assert(decreases_to!(list => list[last]));
        assert(list.drop_last() =~= list.subrange(0, last));
        assert(decreases_to!(list => list.subrange(0, last)));
        if node.id != key {
            if let Some(r) = node.replies {
                lemma_find_path_valid(r, key);
                if let Some(p) = find_path(r, key) {
                    assert((seq![last] + p).drop_first() =~= p);
                }
            }
            lemma_find_path_valid(list.drop_last(), key);
            if let Some(p) = find_path(list.drop_last(), key) {
                assert(list.drop_last()[p[0]] == list[p[0]]);
            }
        }
    }
}

/// The replies of a message's view are the views of its replies.
proof fn lemma_replies_view(m: YammerMessage)
    ensures
        m.replies matches Some(v) ==> m@.replies == Some(views(v@)),
        m.replies is None ==> m@.replies is None,
{
    if let Some(v) = m.replies {
        let r = m@.replies.unwrap();
        assert(r.len() == v@.len());
        assert forall|j: int| 0 <= j < v@.len() implies views(v@)[j] == r[j] by {
            assert(r[j] == v@[j]@);
        }
        assert(views(v@) =~= r);
    }
}

/// A path of indices as integers.
pub open spec fn int_path(p: Seq<usize>) -> Seq<int> {
    p.map_values(|x: usize| x as int)
}

/// Searches `list` as `find_path` does.
fn find_path_exec(list: &Vec<YammerMessage>, key: u64) -> (r: Option<Vec<usize>>)
    ensures
        match r {
            Some(p) => find_path(views(list@), key) == Some(int_path(p@)),
            None => find_path(views(list@), key) is None,
        },
    decreases list,
{
    let mut i: usize = list.len();
    assert(views(list@).take(i as int) =~= views(list@));
    while i > 0
        invariant
            i <= list.len(),
            find_path(views(list@), key) == find_path(views(list@).take(i as int), key),
        decreases i,
    {
        let ghost s = views(list@).take(i as int);
        assert(s.drop_last() =~= views(list@).take(i - 1));
        i = i - 1;
        let node = &list[i];
        if node.id == key {
            return Some(vec![i]);
        }
        if let Some(kids) = &node.replies {
            assert(decreases_to!(list => list@[i as int]));
            let below = find_path_exec(kids, key);
            proof {
                lemma_replies_view(*node);
            }
            if let Some(mut p) = below {
                let ghost tail = p@;
                p.insert(0, i);
                assert(int_path(p@) =~= seq![i as int] + int_path(tail));
                return Some(p);
            }
        }
    }
    None
}

/// The views of a list after one element is replaced.
proof fn lemma_views_update(s: Seq<YammerMessage>, i: int, m: YammerMessage)
    requires
        0 <= i < s.len(),
    ensures
        views(s.update(i, m)) == views(s).update(i, m@),
{
    assert(views(s.update(i, m)) =~= views(s).update(i, m@));
}

/// The views of the roots after one entry is replaced.
proof fn lemma_roots_view_update(s: Seq<(u64, YammerMessage)>, i: int, e: (u64, YammerMessage))
    requires
        0 <= i < s.len(),
    ensures
        roots_view(s.update(i, e)) == roots_view(s).update(i, (e.0, e.1@)),
{
    assert(roots_view(s.update(i, e)) =~= roots_view(s).update(i, (e.0, e.1@)));
}

/// A root found by key is in range and filed under that key.
proof fn lemma_key_index(roots: Seq<(u64, MessageView)>, key: u64)
    ensures
        key_index(roots, key) matches Some(i) ==> 0 <= i < roots.len() && roots[i].0 == key,
    decreases roots.len(),
{
    if roots.len() > 0 && roots.last().0 != key {
        lemma_key_index(roots.drop_last(), key);
    }
}

/// A search below the roots finds a root in range and a path that leads below it.
proof fn lemma_find_in_roots(roots: Seq<(u64, MessageView)>, key: u64)
    ensures
        find_in_roots(roots, key) matches Some((r, p)) ==> 0 <= r < roots.len() && find_path(
            children(roots[r].1),
            key,
        ) == Some(p) && path_valid(children(roots[r].1), p),
    decreases roots.len(),
{
    if roots.len() > 0 {
        lemma_find_path_valid(children(roots.last().1), key);
        lemma_find_in_roots(roots.drop_last(), key);
    }
}

/// Appends `c` to the replies of `node`.
fn push_reply(node: &mut YammerMessage, c: YammerMessage)
    ensures
        final(node)@ == with_reply(old(node)@, c@),
{
    proof {
        lemma_replies_view(*node);
    }
    let mut kids: Option<Vec<YammerMessage>> = None;
    std::mem::swap(&mut node.replies, &mut kids);
    let mut v: Vec<YammerMessage> = match kids {
        Some(v) => v,
        None => Vec::new(),
    };
    let ghost before = v@;
    assert(views(before) =~= children(old(node)@));
    v.push(c);
    assert(views(v@) =~= views(before).push(c@));
    node.replies = Some(v);
    proof {
        lemma_replies_view(*node);
    }
}

/// Appends `c` to the replies of the node that `path`, from index `depth` on, leads to.
fn attach_path(list: &mut Vec<YammerMessage>, path: &Vec<usize>, depth: usize, c: YammerMessage)
    requires
        depth < path.len(),
        path_valid(views(old(list)@), int_path(path@).skip(depth as int)),
    ensures
        views(final(list)@) == attach_at(views(old(list)@), int_path(path@).skip(depth as int), c@),
    decreases path.len() - depth,
{
    let ghost rest = int_path(path@).skip(depth as int);
    assert(rest.drop_first() =~= int_path(path@).skip(depth + 1));
    let i = path[depth];
    assert(rest[0] == i as int);
    assert(views(list@)[i as int] == list@[i as int]@);
    let ghost old_list = list@;
    if depth + 1 == path.len() {
        let node = &mut list[i];
        push_reply(node, c);
        proof {
            lemma_views_update(old_list, i as int, list@[i as int]);
            assert(list@ == old_list.update(i as int, list@[i as int]));
        }
    } else {
        let node = &mut list[i];
        proof {
            lemma_replies_view(*node);
        }
        let mut kids: Option<Vec<YammerMessage>> = None;
        std::mem::swap(&mut node.replies, &mut kids);
        match kids {
            Some(mut v) => {
                attach_path(&mut v, path, depth + 1, c);
                node.replies = Some(v);
                proof {
                    lemma_replies_view(*node);
                }
            },
            None => {},
        }
        proof {
            lemma_views_update(old_list, i as int, list@[i as int]);
            assert(list@ == old_list.update(i as int, list@[i as int]));
        }
    }
}

/// Finds the root filed under `key`, as `key_index` does.
fn key_position(roots: &Vec<(u64, YammerMessage)>, key: u64) -> (r: Option<usize>)
    ensures
        match r {
            Some(i) => key_index(roots_view(roots@), key) == Some(i as int),
            None => key_index(roots_view(roots@), key) is None,
        },
{
    let mut i: usize = roots.len();
    assert(roots_view(roots@).take(i as int) =~= roots_view(roots@));
    while i > 0
        invariant
            i <= roots.len(),
            key_index(roots_view(roots@), key) == key_index(roots_view(roots@).take(i as int), key),
        decreases i,
    {
        assert(roots_view(roots@).take(i as int).drop_last() =~= roots_view(roots@).take(i - 1));
        i = i - 1;
        if roots[i].0 == key {
            return Some(i);
        }
    }
    None
}

/// Searches below the roots, as `find_in_roots` does.
fn find_in_roots_exec(roots: &Vec<(u64, YammerMessage)>, key: u64) -> (r: Option<(usize, Vec<usize>)>)
    ensures
        match r {
            Some((i, p)) => find_in_roots(roots_view(roots@), key) == Some((i as int, int_path(p@))),
            None => find_in_roots(roots_view(roots@), key) is None,
        },
{
    let mut i: usize = roots.len();
    assert(roots_view(roots@).take(i as int) =~= roots_view(roots@));
    while i > 0
        invariant
            i <= roots.len(),
            find_in_roots(roots_view(roots@), key) == find_in_roots(roots_view(roots@).take(i as int), key),
        decreases i,
    {
        assert(roots_view(roots@).take(i as int).drop_last() =~= roots_view(roots@).take(i - 1));
        i = i - 1;
        let root = &roots[i].1;
        proof {
            lemma_replies_view(*root);
        }
        match &root.replies {
            Some(kids) => {
                if let Some(p) = find_path_exec(kids, key) {
                    return Some((i, p));
                }
            },
            None => {},
        }
    }
    None
}

/// Files one message into the forest, as `file_message` does.
fn file_exec(roots: &mut Vec<(u64, YammerMessage)>, m: YammerMessage, thread_id: u64)
    ensures
        roots_view(final(roots)@) == file_message(roots_view(old(roots)@), m@, thread_id),
{
    let key = match m.replied_to_id {
        Some(p) => p,
        None => thread_id,
    };
    let ghost old_roots = roots@;
    let ghost rv = roots_view(roots@);
    let ghost mv = m@;
    proof {
        lemma_key_index(rv, key);
        lemma_find_in_roots(rv, key);
    }
    match key_position(roots, key) {
        Some(i) => {
            assert(rv[i as int].1 == roots@[i as int].1@);
            push_reply(&mut roots[i].1, m);
            proof {
                lemma_roots_view_update(old_roots, i as int, roots@[i as int]);
                assert(roots@ == old_roots.update(i as int, roots@[i as int]));
            }
        },
        None => match find_in_roots_exec(roots, key) {
            Some((r, p)) => {
                let entry = &mut roots[r];
                proof {
                    lemma_replies_view(entry.1);
                }
                let mut kids: Option<Vec<YammerMessage>> = None;
                std::mem::swap(&mut entry.1.replies, &mut kids);
                match kids {
                    Some(mut v) => {
                        assert(int_path(p@).skip(0) =~= int_path(p@));
                        attach_path(&mut v, &p, 0, m);
                        entry.1.replies = Some(v);
                        proof {
                            lemma_replies_view(entry.1);
                        }
                    },
                    None => {},
                }
                proof {
                    lemma_roots_view_update(old_roots, r as int, roots@[r as int]);
                    assert(roots@ == old_roots.update(r as int, roots@[r as int]));
                }
            },
            None => {
                roots.push((key, m));
                assert(roots_view(roots@) =~= rv.push((key, mv)));
            },
        },
    }
}

/// Rebuilds the reply trees of a thread from its messages, taken from the last to
/// the first. Each message is filed under the root registered for the id it
/// replies to (the thread id when it replies to none); failing that, below the
/// reply with that id found by a depth-first search; failing that, as a new root
/// under that key. A reply met before its parent thus stays a root of its own.
/// Returns the roots, each with the key it was filed under, in the order they were
/// made, and the number of messages taken.
pub fn reconstruct_thread(thread_id: u64, messages: Vec<YammerMessage>) -> (r: (Vec<(u64, YammerMessage)>, u64))
    ensures
        roots_view(r.0@) == forest(views(messages@), thread_id),
        r.1 == messages@.len(),
{
    let count = messages.len() as u64;
    let ghost all = views(messages@);
    let mut rest = messages;
    let mut roots: Vec<(u64, YammerMessage)> = Vec::new();
    assert(all.skip(all.len() as int) =~= Seq::<MessageView>::empty());
    assert(roots_view(roots@) =~= Seq::<(u64, MessageView)>::empty());
    while rest.len() > 0
        invariant
            rest.len() <= all.len(),
            views(rest@) == all.take(rest.len() as int),
            roots_view(roots@) == forest(all.skip(rest.len() as int), thread_id),
        decreases rest.len(),
    {
        let k = rest.len();
        let ghost before = rest@;
        let m = rest.pop().unwrap();
        assert(views(rest@) =~= views(before).take(k - 1));
        assert(views(before)[k - 1] == m@);
        assert(all.skip(k - 1).drop_first() =~= all.skip(k as int));
        assert(all.skip(k - 1)[0] == all[k - 1]);
        file_exec(&mut roots, m, thread_id);
    }
    assert(all.skip(0) =~= all);
    (roots, count)
}

} // verus!
