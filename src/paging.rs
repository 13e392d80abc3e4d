use crate::json::{field, json_u64, u64_at, JsonValue};
use vstd::prelude::*;

verus! {

/// Where a walk through a paginated feed stands: the cursor for the next request
/// (`None`: start from the newest) and whether another page is to be fetched.
pub ghost struct PagerModel {
    pub cursor: Option<u64>,
    pub more: bool,
}

/// The walk after a page whose last message has id `last` (none for an empty
/// page), with the feed's "older results exist" flag. The cursor only ever
/// decreases: a page that would not move it ends the walk.
pub open spec fn pager_step(p: PagerModel, last: Option<u64>, older: bool) -> PagerModel {
    match last {
        Some(id) => if p.cursor is None || id < p.cursor->0 {
            PagerModel { cursor: Some(id), more: older }
        } else {
            PagerModel { cursor: p.cursor, more: false }
        },
        None => PagerModel { cursor: p.cursor, more: false },
    }
}

/// The cursor of a walk through a feed from newest to oldest: each request asks for
/// messages older than the last one received.
pub struct Pager {
    cursor: Option<u64>,
    more: bool,
}

impl View for Pager {
    type V = PagerModel;

    closed spec fn view(&self) -> PagerModel {
        PagerModel { cursor: self.cursor, more: self.more }
    }
}

impl Pager {
    /// A walk that starts from the newest messages.
    pub fn new() -> (p: Self)
        ensures
            p@ == (PagerModel { cursor: None, more: true }),
    {
        Pager { cursor: None, more: true }
    }

    /// The cursor for the next request, or none once the walk is over.
    pub fn next_request(&self) -> (r: Option<Option<u64>>)
        ensures
            r == (if self@.more {
                Some(self@.cursor)
            } else {
                None::<Option<u64>>
            }),
    {
        if self.more {
            Some(self.cursor)
        } else {
            None
        }
    }

    /// Moves the walk past a page, given the id of its last message and the feed's
    /// "older results exist" flag.
    pub fn advance(&mut self, last: Option<u64>, older: bool)
        ensures
            final(self)@ == pager_step(old(self)@, last, older),
    {
        match last {
            Some(id) => {
                let moves = match self.cursor {
                    Some(c) => id < c,
                    None => true,
                };
                if moves {
                    self.cursor = Some(id);
                    self.more = older;
                } else {
                    self.more = false;
                }
            },
            None => {
                self.more = false;
            },
        }
    }
}

/// The id of the last message of a page, where the page is not empty and that
/// message has an id.
pub fn last_message_id(page: &Vec<JsonValue>) -> (r: Option<u64>)
    ensures
        r == (if page@.len() == 0 {
            None
        } else {
            json_u64(field(page@.last(), "id"@))
        }),
{
    if page.len() == 0 {
        None
    } else {
        u64_at(&page[page.len() - 1], "id")
    }
}

/// Message ids from newest to oldest, each strictly below the one before.
pub open spec fn newest_first(data: Seq<u64>) -> bool {
    forall|i: int, j: int| 0 <= i < j < data.len() ==> data[i] > data[j]
}

/// What a feed holding `data` (newest first) has older than `cursor`: all of it
/// for no cursor.
pub open spec fn older_than(data: Seq<u64>, cursor: Option<u64>) -> Seq<u64>
    decreases data.len(),
{
    match cursor {
        None => data,
        Some(c) => if data.len() == 0 || data[0] < c {
            data
        } else {
            older_than(data.drop_first(), cursor)
        },
    }
}

/// The page that a feed holding `data` answers for `cursor`: the `size` newest
/// messages older than the cursor, and whether any older remain beyond them.
pub open spec fn feed_page(data: Seq<u64>, cursor: Option<u64>, size: nat) -> (Seq<u64>, bool) {
    let rest = older_than(data, cursor);
    if rest.len() <= size {
        (rest, false)
    } else {
        (rest.take(size as int), true)
    }
}

/// The id of the last message of a page of ids.
pub open spec fn last_of(page: Seq<u64>) -> Option<u64> {
    if page.len() == 0 {
        None
    } else {
        Some(page.last())
    }
}

/// A walk of at most `steps` requests against a feed holding `data`: the pages'
/// ids one after the other, and where the walk stands at the end.
pub open spec fn walk(data: Seq<u64>, size: nat, p: PagerModel, steps: nat) -> (Seq<u64>, PagerModel)
    decreases steps,
{
    if !p.more || steps == 0 {
        (Seq::empty(), p)
    } else {
        let (page, older) = feed_page(data, p.cursor, size);
        let (rest, end) = walk(data, size, pager_step(p, last_of(page), older), (steps - 1) as nat);
        (page + rest, end)
    }
}

proof fn lemma_older_than_at(data: Seq<u64>, i: int)
    requires
        newest_first(data),
        0 <= i < data.len(),
    ensures
        older_than(data, Some(data[i])) == data.skip(i + 1),
    decreases data.len(),
{
    let c = data[i];
    if i == 0 {
        let d = data.drop_first();
        if d.len() > 0 {
            assert(d[0] == data[1]);
            assert(data[1] < data[0]);
        }
        assert(older_than(data, Some(c)) == older_than(d, Some(c)));
        assert(d =~= data.skip(1));
    } else {
        let d = data.drop_first();
        assert(newest_first(d)) by {
            assert forall|a: int, b: int| 0 <= a < b < d.len() implies d[a] > d[b] by {
                assert(d[a] == data[a + 1] && d[b] == data[b + 1]);
            }
        }
        assert(d[i - 1] == c);
        assert(data[0] > data[i]);
        assert(older_than(data, Some(c)) == older_than(d, Some(c)));
        lemma_older_than_at(d, i - 1);
        assert(d.skip(i) =~= data.skip(i + 1));
    }
}

proof fn lemma_walk_from(data: Seq<u64>, size: nat, p: PagerModel, j: int, steps: nat)
    requires
        newest_first(data),
        size > 0,
        p.more,
        0 <= j <= data.len(),
        p.cursor is None ==> j == 0,
        p.cursor matches Some(c) ==> 0 < j && data[j - 1] == c,
        steps >= data.len() - j + 1,
    ensures
        walk(data, size, p, steps).0 == data.skip(j),
        !walk(data, size, p, steps).1.more,
    decreases data.len() - j,
{
    let rest = older_than(data, p.cursor);
    if p.cursor is None {
        assert(data.skip(0) =~= data);
    } else {
        lemma_older_than_at(data, j - 1);
        assert(data.skip(j - 1 + 1) =~= data.skip(j));
    }
    assert(rest == data.skip(j));
    let (page, older) = feed_page(data, p.cursor, size);
    let q = pager_step(p, last_of(page), older);
    let s1 = (steps - 1) as nat;
    if page.len() == 0 {
        assert(!q.more);
        assert(page + walk(data, size, q, s1).0 =~= data.skip(j));
    } else {
        let m = page.len() as int;
        assert(page.last() == data[j + m - 1]);
        if let Some(c) = p.cursor {
            assert(data[j + m - 1] < data[j - 1]);
        }
        assert(q == PagerModel { cursor: Some(data[j + m - 1]), more: older });
        if older {
            lemma_walk_from(data, size, q, j + m, s1);
            assert(page + walk(data, size, q, s1).0 =~= data.skip(j));
        } else {
            assert(page + walk(data, size, q, s1).0 =~= data.skip(j));
        }
    }
}

/// A walk through a feed, each request passing the id of the last message
/// received, comes to an end, and the pages hold every message of the feed once,
/// newest first: with `n` messages, `n + 1` requests suffice.
pub proof fn lemma_walk_covers_feed(data: Seq<u64>, size: nat)
    requires
        newest_first(data),
        size > 0,
    ensures
        walk(data, size, PagerModel { cursor: None, more: true }, data.len() + 1).0 == data,
        !walk(data, size, PagerModel { cursor: None, more: true }, data.len() + 1).1.more,
{
    lemma_walk_from(data, size, PagerModel { cursor: None, more: true }, 0, data.len() + 1);
    assert(data.skip(0) =~= data);
}

} // verus!
