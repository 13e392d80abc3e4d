use crate::error::ParseArgsError;
use std::collections::HashSet;
use vstd::prelude::*;
use vstd::string::StrSliceExecFns;

verus! {

broadcast use vstd::std_specs::hash::group_hash_axioms;

/// What to do with the network's posts.
#[derive(Debug, Clone, PartialEq, Eq)]
pub enum YammerAction {
    /// Show one user.
    User { user_id: u64 },
    /// List the users, of one group or of the whole network.
    Users { group_id: Option<u64> },
    /// List messages, of one group or one thread, optionally of one sender (by email);
    /// `all` lists the full threads.
    List { group_id: Option<u64>, thread_id: Option<u64>, email: Option<String>, all: bool },
    /// Delete messages, of one group or one thread, optionally of one sender (by
    /// email), but for the ids listed in `exclude` (comma-separated).
    Delete { group_id: Option<u64>, thread_id: Option<u64>, email: Option<String>, exclude: Option<String> },
}

/// The command line: the application token, the debug switch and the action.
#[derive(Debug, Clone, PartialEq, Eq)]
pub struct Args {
    pub token: String,
    pub debug: bool,
    pub action: YammerAction,
}

/// The pieces of `s` between commas, as splitting at every comma gives them: one
/// piece for a text without commas, the empty text included.
pub open spec fn comma_fields(s: Seq<char>) -> Seq<Seq<char>>
    decreases s.len(),
{
    if s.len() == 0 {
        seq![Seq::empty()]
    } else {
        let f = comma_fields(s.drop_last());
        if s.last() == ',' {
            f.push(Seq::empty())
        } else {
            f.update(f.len() - 1, f.last().push(s.last()))
        }
    }
}

/// Unicode white space, as `char::is_whitespace` takes it.
pub open spec fn is_space(c: char) -> bool {
    let u = c as u32;
    (0x9 <= u <= 0xd) || u == 0x20 || u == 0x85 || u == 0xa0 || u == 0x1680 || (0x2000 <= u <= 0x200a)
        || u == 0x2028 || u == 0x2029 || u == 0x202f || u == 0x205f || u == 0x3000
}

/// The text without the white space at its start.
pub open spec fn trim_start(t: Seq<char>) -> Seq<char>
    decreases t.len(),
{
    if t.len() > 0 && is_space(t[0]) {
        trim_start(t.drop_first())
    } else {
        t
    }
}

/// The text without the white space at its end.
pub open spec fn trim_end(t: Seq<char>) -> Seq<char>
    decreases t.len(),
{
    if t.len() > 0 && is_space(t.last()) {
        trim_end(t.drop_last())
    } else {
        t
    }
}

/// The text without white space at either end.
pub open spec fn trim(t: Seq<char>) -> Seq<char> {
    trim_end(trim_start(t))
}

pub open spec fn is_digit(c: char) -> bool {
    '0' <= c <= '9'
}

/// The number that a string of decimal digits writes.
pub open spec fn digits_value(d: Seq<char>) -> nat
    decreases d.len(),
{
    if d.len() == 0 {
        0
    } else {
        digits_value(d.drop_last()) * 10 + (d.last() as u32 - '0' as u32) as nat
    }
}

/// The text after a leading `+`, if any.
pub open spec fn sign_dropped(t: Seq<char>) -> Seq<char> {
    if t.len() > 0 && t[0] == '+' {
        t.drop_first()
    } else {
        t
    }
}

/// An unsigned integer as `u64`'s `FromStr` reads it: an optional `+`, then one or
/// more decimal digits, with a value that fits.
pub open spec fn parse_u64(t: Seq<char>) -> Option<u64> {
    let d = sign_dropped(t);
    if d.len() > 0 && (forall|i: int| 0 <= i < d.len() ==> is_digit(#[trigger] d[i])) && digits_value(d)
        <= u64::MAX {
        Some(digits_value(d) as u64)
    } else {
        None
    }
}

/// Whether a piece is blank or an id.
pub open spec fn field_ok(f: Seq<char>) -> bool {
    trim(f).len() == 0 || parse_u64(trim(f)) is Some
}

/// The ids that the pieces name, the blank ones skipped.
pub open spec fn ids_of(fs: Seq<Seq<char>>) -> Set<u64>
    decreases fs.len(),
{
    if fs.len() == 0 {
        Set::empty()
    } else {
        let s = ids_of(fs.drop_last());
        let t = trim(fs.last());
        if t.len() > 0 && parse_u64(t) is Some {
            s.insert(parse_u64(t)->0)
        } else {
            s
        }
    }
}

fn is_space_exec(c: char) -> (r: bool)
    ensures
        r == is_space(c),
{
    let u = c as u32;
    (0x9 <= u && u <= 0xd) || u == 0x20 || u == 0x85 || u == 0xa0 || u == 0x1680 || (0x2000 <= u && u
        <= 0x200a) || u == 0x2028 || u == 0x2029 || u == 0x202f || u == 0x205f || u == 0x3000
}

proof fn lemma_trim_start(t: Seq<char>, k: int)
    requires
        0 <= k <= t.len(),
        forall|j: int| 0 <= j < k ==> is_space(#[trigger] t[j]),
        k == t.len() || !is_space(t[k]),
    ensures
        trim_start(t) == t.skip(k),
    decreases k,
{
    if k > 0 {
        assert(t.drop_first().skip(k - 1) =~= t.skip(k));
        assert forall|j: int| 0 <= j < k - 1 implies is_space(#[trigger] t.drop_first()[j]) by {
            assert(t.drop_first()[j] == t[j + 1]);
        }
        lemma_trim_start(t.drop_first(), k - 1);
    } else {
        assert(t.skip(0) =~= t);
    }
}

proof fn lemma_trim_end(t: Seq<char>, k: int)
    requires
        0 <= k <= t.len(),
        forall|j: int| k <= j < t.len() ==> is_space(#[trigger] t[j]),
        k == 0 || !is_space(t[k - 1]),
    ensures
        trim_end(t) == t.take(k),
    decreases t.len() - k,
{
    if k < t.len() {
        assert(t.drop_last().take(k) =~= t.take(k));
        assert forall|j: int| k <= j < t.len() - 1 implies is_space(#[trigger] t.drop_last()[j]) by {
            assert(t.drop_last()[j] == t[j]);
        }
        lemma_trim_end(t.drop_last(), k);
    } else {
        assert(t.take(k) =~= t);
    }
}

/// Reads one piece: `Some(None)` where it is blank, `Some(Some(id))` where it names
/// an id, none otherwise.
fn read_field(f: &Vec<char>) -> (r: Option<Option<u64>>)
    ensures
        match r {
            Some(None) => trim(f@).len() == 0,
            Some(Some(v)) => trim(f@).len() > 0 && parse_u64(trim(f@)) == Some(v),
            None => !field_ok(f@),
        },
{
    let n = f.len();
    let mut a: usize = 0;
    while a < n && is_space_exec(f[a])
        invariant
            a <= n == f@.len(),
            forall|j: int| 0 <= j < a ==> is_space(#[trigger] f@[j]),
        decreases n - a,
    {
        a = a + 1;
    }
    proof {
        lemma_trim_start(f@, a as int);
    }
    let ghost t0 = f@.skip(a as int);
    let mut b: usize = n;
    while b > a && is_space_exec(f[b - 1])
        invariant
            a <= b <= n == f@.len(),
            t0 == f@.skip(a as int),
            forall|j: int| b <= j < n ==> is_space(#[trigger] f@[j]),
        decreases b - a,
    {
        b = b - 1;
    }
    proof {
        assert forall|j: int| b - a <= j < t0.len() implies is_space(#[trigger] t0[j]) by {
            assert(t0[j] == f@[j + a]);
        }
        if b > a {
            assert(t0[b - a - 1] == f@[b - 1]);
        }
        lemma_trim_end(t0, b - a);
        assert(t0.take(b - a) =~= f@.subrange(a as int, b as int));
    }
    let ghost t = f@.subrange(a as int, b as int);
    assert(trim(f@) == t);
    if a == b {
        return Some(None);
    }
    let mut i: usize = a;
    if f[a] == '+' {
        i = a + 1;
    }
    let ghost d = sign_dropped(t);
    assert(d =~= f@.subrange(i as int, b as int));
    if i == b {
        return None;
    }
    let mut v: u64 = 0;
    let start = i;
    while i < b
        invariant
            a <= start <= i <= b <= n == f@.len(),
            d == f@.subrange(start as int, b as int),
            t == f@.subrange(a as int, b as int),
            t.len() > 0,
            d == sign_dropped(t),
            trim(f@) == t,
            forall|j: int| start <= j < i ==> is_digit(#[trigger] f@[j]),
            v as nat == digits_value(f@.subrange(start as int, i as int)),
        decreases b - i,
    {
        let c = f[i];
        let ghost pre = f@.subrange(start as int, i as int);
        assert(f@.subrange(start as int, i + 1) =~= pre.push(c));
        assert(pre.push(c).drop_last() =~= pre);
        if !('0' <= c && c <= '9') {
            assert(d[i - start] == c);
            assert(!is_digit(d[i - start]));
            assert(!(forall|k: int| 0 <= k < d.len() ==> is_digit(#[trigger] d[k])));
            assert(parse_u64(t) is None);
            return None;
        }
        let digit = (c as u32 - '0' as u32) as u64;
        if v > (u64::MAX - digit) / 10 {
            proof {
                assert(v * 10 + digit > u64::MAX) by (nonlinear_arith)
                    requires
                        v > (u64::MAX - digit) / 10,
                        digit <= 9,
                ;
                lemma_digits_value_grows(d, i - start + 1);
                assert(d.take(i - start + 1) =~= pre.push(c));
            }
            return None;
        }
        proof {
            assert(v * 10 + digit <= u64::MAX) by (nonlinear_arith)
                requires
                    v <= (u64::MAX - digit) / 10,
                    digit <= 9,
            ;
        }
        v = v * 10 + digit;
        i = i + 1;
    }
    assert(f@.subrange(start as int, i as int) =~= d);
    Some(Some(v))
}

/// The value of digits never falls as digits are added.
proof fn lemma_digits_value_grows(d: Seq<char>, k: int)
    requires
        0 <= k <= d.len(),
    ensures
        digits_value(d.take(k)) <= digits_value(d),
    decreases d.len() - k,
{
    if k < d.len() {
        lemma_digits_value_grows(d, k + 1);
        assert(d.take(k + 1).drop_last() =~= d.take(k));
    } else {
        assert(d.take(k) =~= d);
    }
}

/// The pieces completed in a prefix of a text stay as they are in any longer prefix.
proof fn lemma_fields_prefix(s: Seq<char>, i: int, j: int)
    requires
        0 <= i <= j <= s.len(),
    ensures
        comma_fields(s.take(i)).len() <= comma_fields(s.take(j)).len(),
        forall|k: int| 0 <= k < comma_fields(s.take(i)).len() - 1 ==> #[trigger] comma_fields(s.take(j))[k]
            == comma_fields(s.take(i))[k],
    decreases j - i,
{
    if j > i {
        lemma_fields_prefix(s, i, j - 1);
        assert(s.take(j).drop_last() =~= s.take(j - 1));
    }
}

/// Reads a comma-separated list of message ids, such as `"12, 34,,56"`: blank
/// pieces are skipped, white space around an id is ignored. Fails, holding the
/// whole text, where a piece is neither blank nor an id.
pub fn parse_excludes(exclude: &str) -> (r: Result<HashSet<u64>, ParseArgsError>)
    ensures
        r is Ok <==> forall|k: int|
            0 <= k < comma_fields(exclude@).len() ==> field_ok(#[trigger] comma_fields(exclude@)[k]),
        r matches Ok(ids) ==> ids@ == ids_of(comma_fields(exclude@)),
{
    let ghost s = exclude@;
    let n = exclude.unicode_len();
    let mut ids: HashSet<u64> = HashSet::new();
    let mut field: Vec<char> = Vec::new();
    let mut i: usize = 0;
    assert(s.take(0) =~= Seq::<char>::empty());
    assert(comma_fields(s.take(0)).drop_last() =~= Seq::<Seq<char>>::empty());
    while i < n
        invariant
            s == exclude@,
            n == s.len(),
            i <= n,
            comma_fields(s.take(i as int)).len() >= 1,
            comma_fields(s.take(i as int)).last() == field@,
            forall|k: int|
                0 <= k < comma_fields(s.take(i as int)).len() - 1 ==> field_ok(#[trigger] comma_fields(s.take(i as int))[k]),
            ids@ == ids_of(comma_fields(s.take(i as int)).drop_last()),
        decreases n - i,
    {
        let c = exclude.get_char(i);
        let ghost fs = comma_fields(s.take(i as int));
        assert(s.take(i + 1).drop_last() =~= s.take(i as int));
        assert(s.take(i + 1).last() == c);
        if c == ',' {
            let ghost gs = fs.push(Seq::empty());
            assert(comma_fields(s.take(i + 1)) == gs);
            assert(gs.drop_last() == fs);
            assert(fs.drop_last() =~= fs.subrange(0, fs.len() - 1));
            match read_field(&field) {
                None => {
                    proof {
                        lemma_fields_prefix(s, i + 1, n as int);
                        assert(s.take(n as int) =~= s);
                        assert(comma_fields(s)[fs.len() - 1] == field@);
                    }
                    return Err(ParseArgsError(exclude.to_owned()));
                },
                Some(None) => {},
                Some(Some(v)) => {
                    ids.insert(v);
                },
            }
            field = Vec::new();
            proof {
                assert(field@ =~= gs.last());
            }
        } else {
            let ghost before = field@;
            field.push(c);
            proof {
                let gs = fs.update(fs.len() - 1, before.push(c));
                assert(comma_fields(s.take(i + 1)) == gs);
                assert(gs.drop_last() =~= fs.drop_last());
                assert forall|k: int| 0 <= k < gs.len() - 1 implies field_ok(#[trigger] gs[k]) by {
                    assert(gs[k] == fs[k]);
                }
            }
        }
        i = i + 1;
    }
    assert(s.take(n as int) =~= s);
    let ghost fs = comma_fields(s);
    match read_field(&field) {
        None => {
            assert(fs[fs.len() - 1] == field@);
            Err(ParseArgsError(exclude.to_owned()))
        },
        Some(None) => Ok(ids),
        Some(Some(v)) => {
            ids.insert(v);
            Ok(ids)
        },
    }
}

} // verus!
