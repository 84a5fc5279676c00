//! The store of recorded commands.
//!
//! It owns the table of commands, assigns each inserted record a fresh id
//! strictly greater than every id assigned before, and answers bounded
//! recency queries: the most recent records by timestamp, ties broken by
//! insertion order (later insert first).

use vstd::prelude::*;

use crate::command::{Command, CommandV, views_of};

verus! {

/// How many records a retrieval may return, at most.
pub const RECENT_LIMIT: usize = 500;

/// Strict "older than" order on records: by timestamp, ties by id.
/// Since the store assigns ids in insertion order, equal timestamps are
/// ordered by insertion.
pub open spec fn older(a: CommandV, b: CommandV) -> bool {
    a.timestamp < b.timestamp || (a.timestamp == b.timestamp && a.id < b.id)
}

/// Insert `c` into a sequence sorted newest-first, keeping it sorted:
/// `c` goes in front of the first element older than it.
pub open spec fn insert_desc(c: CommandV, s: Seq<CommandV>) -> Seq<CommandV>
    decreases s.len(),
{
    if s.len() == 0 {
        seq![c]
    } else if older(s[0], c) {
        seq![c] + s
    } else {
        seq![s[0]] + insert_desc(c, s.drop_first())
    }
}

/// The store's contents sorted newest-first (timestamp descending, ties by
/// id descending), defined by insertion from the right end.
pub open spec fn sort_desc(s: Seq<CommandV>) -> Seq<CommandV>
    decreases s.len(),
{
    if s.len() == 0 {
        Seq::<CommandV>::empty()
    } else {
        insert_desc(s.last(), sort_desc(s.drop_last()))
    }
}

/// What a recency query returns: the sorted view, cut to the window.
pub open spec fn recent_of(s: Seq<CommandV>, limit: int) -> Seq<CommandV> {
    if s.len() <= limit {
        sort_desc(s)
    } else {
        sort_desc(s).take(limit)
    }
}

/// Inserting into a sorted-newest-first sequence adds one element.
pub proof fn lemma_insert_desc_len(c: CommandV, s: Seq<CommandV>)
    ensures
        insert_desc(c, s).len() == s.len() + 1,
    decreases s.len(),
{
    if s.len() > 0 && !older(s[0], c) {
        lemma_insert_desc_len(c, s.drop_first());
    }
}

/// Sorting keeps the length.
pub proof fn lemma_sort_desc_len(s: Seq<CommandV>)
    ensures
        sort_desc(s).len() == s.len(),
    decreases s.len(),
{
    if s.len() > 0 {
        lemma_sort_desc_len(s.drop_last());
        lemma_insert_desc_len(s.last(), sort_desc(s.drop_last()));
    }
}

/// Where the first `p` elements of `s` are all at least as new as `c`,
/// inserting `c` leaves them in place and inserts into the rest.
pub proof fn lemma_insert_desc_split(c: CommandV, s: Seq<CommandV>, p: int)
    requires
        0 <= p <= s.len(),
        forall|q: int| 0 <= q < p ==> !older(#[trigger] s[q], c),
    ensures
        insert_desc(c, s) == s.take(p) + insert_desc(c, s.skip(p)),
    decreases p,
{
    if p == 0 {
        assert(s.skip(0) == s);
        assert(s.take(0) + insert_desc(c, s) =~= insert_desc(c, s));
    } else {
        assert(!older(s[0], c));
        lemma_insert_desc_split(c, s.drop_first(), p - 1);
        assert(s.drop_first().take(p - 1) =~= s.take(p).drop_first());
        assert(s.drop_first().skip(p - 1) =~= s.skip(p));
        assert(seq![s[0]] + (s.take(p).drop_first() + insert_desc(c, s.skip(p))) =~= s.take(p)
            + insert_desc(c, s.skip(p)));
    }
}

/// The elements of `insert_desc(c, s)` are `c` and the elements of `s`.
pub proof fn lemma_insert_desc_contains(c: CommandV, s: Seq<CommandV>, x: CommandV)
    ensures
        insert_desc(c, s).contains(x) <==> (x == c || s.contains(x)),
    decreases s.len(),
{
    if s.len() == 0 {
    } else if older(s[0], c) {
        assert(insert_desc(c, s) == seq![c] + s);
        assert forall|y: CommandV| (seq![c] + s).contains(y) implies (y == c || s.contains(
            y,
        )) by {
            let i = choose|i: int| 0 <= i < (seq![c] + s).len() && (seq![c] + s)[i] == y;
            if i > 0 {
                assert(s[i - 1] == y);
            }
        }
        if x == c {
            assert((seq![c] + s)[0] == c);
        }
        if s.contains(x) {
            let i = choose|i: int| 0 <= i < s.len() && s[i] == x;
            assert((seq![c] + s)[i + 1] == x);
        }
    } else {
        lemma_insert_desc_contains(c, s.drop_first(), x);
        let t = seq![s[0]] + insert_desc(c, s.drop_first());
        assert(insert_desc(c, s) == t);
        if t.contains(x) {
            let i = choose|i: int| 0 <= i < t.len() && t[i] == x;
            if i > 0 {
                assert(insert_desc(c, s.drop_first())[i - 1] == x);
            } else {
                assert(s[0] == x);
            }
        }
        if x == c || s.contains(x) {
            if x == c || s.drop_first().contains(x) {
                assert(insert_desc(c, s.drop_first()).contains(x));
                let i = choose|i: int|
                    0 <= i < insert_desc(c, s.drop_first()).len() && insert_desc(
                        c,
                        s.drop_first(),
                    )[i] == x;
                assert(t[i + 1] == x);
            } else {
                let i = choose|i: int| 0 <= i < s.len() && s[i] == x;
                if i == 0 {
                    assert(t[0] == x);
                } else {
                    assert(s.drop_first()[i - 1] == x);
                }
            }
        }
    }
}

/// The elements of `sort_desc(s)` are exactly the elements of `s`.
pub proof fn lemma_sort_desc_contains(s: Seq<CommandV>, x: CommandV)
    ensures
        sort_desc(s).contains(x) <==> s.contains(x),
    decreases s.len(),
{
    if s.len() > 0 {
        lemma_sort_desc_contains(s.drop_last(), x);
        lemma_insert_desc_contains(s.last(), sort_desc(s.drop_last()), x);
        if s.contains(x) {
            let i = choose|i: int| 0 <= i < s.len() && s[i] == x;
            if i < s.len() - 1 {
                assert(s.drop_last()[i] == x);
            }
        }
        if s.drop_last().contains(x) {
            let i = choose|i: int| 0 <= i < s.drop_last().len() && s.drop_last()[i] == x;
            assert(s[i] == x);
        }
    }
}

/// A batch ordered newest first, strictly: each entry is newer than every
/// later one.
pub open spec fn newest_first(s: Seq<CommandV>) -> bool {
    forall|a: int, b: int| 0 <= a < b < s.len() ==> older(#[trigger] s[b], #[trigger] s[a])
}

/// No two records share an id (as the store assigns them).
pub open spec fn distinct_ids(s: Seq<CommandV>) -> bool {
    forall|i: int, j: int| 0 <= i < j < s.len() ==> (#[trigger] s[i]).id != (#[trigger] s[j]).id
}

/// Inserting a record whose id is fresh into a strictly newest-first
/// sequence keeps it strictly newest-first.
pub proof fn lemma_insert_desc_sorted(c: CommandV, s: Seq<CommandV>)
    requires
        newest_first(s),
        forall|i: int| 0 <= i < s.len() ==> (#[trigger] s[i]).id != c.id,
    ensures
        newest_first(insert_desc(c, s)),
    decreases s.len(),
{
    let r = insert_desc(c, s);
    if s.len() == 0 {
    } else if older(s[0], c) {
        assert forall|a: int, b: int| 0 <= a < b < r.len() implies older(r[b], r[a]) by {
            if a == 0 {
                assert(r[b] == s[b - 1]);
                if b > 1 {
                    assert(older(s[b - 1], s[0]));
                }
            } else {
                assert(r[a] == s[a - 1]);
                assert(r[b] == s[b - 1]);
            }
        }
    } else {
        let rest = s.drop_first();
        lemma_insert_desc_sorted(c, rest);
        let t = insert_desc(c, rest);
        assert(older(c, s[0]));
        assert forall|x: CommandV| t.contains(x) implies older(x, s[0]) by {
            lemma_insert_desc_contains(c, rest, x);
            if x == c {
            } else {
                let i = choose|i: int| 0 <= i < rest.len() && rest[i] == x;
                assert(s[i + 1] == x);
                assert(older(s[i + 1], s[0]));
            }
        }
        assert forall|a: int, b: int| 0 <= a < b < r.len() implies older(r[b], r[a]) by {
            if a == 0 {
                assert(r[b] == t[b - 1]);
                assert(t.contains(t[b - 1]));
            } else {
                assert(r[a] == t[a - 1]);
                assert(r[b] == t[b - 1]);
            }
        }
    }
}

/// Sorting a sequence of records with distinct ids yields a strictly
/// newest-first sequence.
pub proof fn lemma_sort_desc_sorted(s: Seq<CommandV>)
    requires
        distinct_ids(s),
    ensures
        newest_first(sort_desc(s)),
    decreases s.len(),
{
    if s.len() > 0 {
        let head = s.drop_last();
        assert forall|i: int, j: int| 0 <= i < j < head.len() implies (#[trigger] head[i]).id != (
        #[trigger] head[j]).id by {
            assert(head[i] == s[i]);
            assert(head[j] == s[j]);
        }
        lemma_sort_desc_sorted(head);
        assert forall|i: int| 0 <= i < sort_desc(head).len() implies (#[trigger] sort_desc(
            head,
        )[i]).id != s.last().id by {
            lemma_sort_desc_contains(head, sort_desc(head)[i]);
            let k = choose|k: int| 0 <= k < head.len() && head[k] == sort_desc(head)[i];
            assert(s[k] == sort_desc(head)[i]);
        }
        lemma_insert_desc_sorted(s.last(), sort_desc(head));
    }
}

/// The recency window in full: on a store whose records carry distinct ids
/// it returns the whole store if that fits the window, else exactly the
/// window's worth; the result lists records of the store, strictly newest
/// first (ties broken by id, which is insertion order), and every record
/// left out is older than everything returned.
pub proof fn law_recent_window(s: Seq<CommandV>, limit: int)
    requires
        0 <= limit,
        distinct_ids(s),
    ensures
        recent_of(s, limit).len() == if s.len() <= limit {
            s.len() as int
        } else {
            limit
        },
        newest_first(recent_of(s, limit)),
        forall|a: int| 0 <= a < recent_of(s, limit).len() ==> s.contains(
            #[trigger] recent_of(s, limit)[a],
        ),
        forall|i: int|
            0 <= i < s.len() && !recent_of(s, limit).contains(#[trigger] s[i]) ==> forall|a: int|
                0 <= a < recent_of(s, limit).len() ==> older(s[i], recent_of(s, limit)[a]),
{
    let full = sort_desc(s);
    let r = recent_of(s, limit);
    lemma_sort_desc_len(s);
    lemma_sort_desc_sorted(s);
    assert forall|a: int| 0 <= a < r.len() implies s.contains(#[trigger] r[a]) by {
        assert(r[a] == full[a]);
        assert(full.contains(full[a]));
        lemma_sort_desc_contains(s, full[a]);
    }
    assert forall|i: int|
        0 <= i < s.len() && !r.contains(#[trigger] s[i]) implies forall|a: int|
            0 <= a < r.len() ==> older(s[i], r[a]) by {
        lemma_sort_desc_contains(s, s[i]);
        assert(full.contains(s[i]));
        let p = choose|p: int| 0 <= p < full.len() && full[p] == s[i];
        assert(p >= r.len()) by {
            if p < r.len() {
                assert(r[p] == full[p]);
                assert(r.contains(s[i]));
            }
        }
        assert forall|a: int| 0 <= a < r.len() implies older(s[i], r[a]) by {
            assert(r[a] == full[a]);
            assert(older(full[p], full[a]));
        }
    }
}

/// The mathematical value of a [`CommandStore`]: its records in insertion
/// order, and the id the next insertion will be assigned.
pub ghost struct StoreV {
    pub commands: Seq<CommandV>,
    pub next_id: int,
}

/// The store of commands.
///
/// Records are kept in insertion order; `next_id` is the id the next
/// insertion receives. Ids start at 1 and increase by one per insertion,
/// so they are unique and follow insertion order.
pub struct CommandStore {
    commands: Vec<Command>,
    next_id: i64,
}

impl View for CommandStore {
    type V = StoreV;

    closed spec fn view(&self) -> StoreV {
        StoreV { commands: views_of(self.commands@), next_id: self.next_id as int }
    }
}

impl CommandStore {
    /// The store's internal invariant: ids are positive, strictly increasing
    /// in insertion order, and all below `next_id`.
    pub closed spec fn wf(&self) -> bool {
        &&& 1 <= self.next_id
        &&& forall|i: int|
            0 <= i < self@.commands.len() ==> 1 <= #[trigger] self@.commands[i].id
                < self@.next_id
        &&& forall|i: int, j: int|
            0 <= i < j < self@.commands.len() ==> #[trigger] self@.commands[i].id
                < #[trigger] self@.commands[j].id
    }

    /// An empty store; the first insertion will be assigned id 1.
    pub fn new() -> (r: Self)
        ensures
            r.wf(),
            r@.commands == Seq::<CommandV>::empty(),
            r@.next_id == 1,
    {
        let r = CommandStore { commands: Vec::new(), next_id: 1 };
        assert(views_of(r.commands@) =~= Seq::<CommandV>::empty());
        r
    }

    /// How many records the store holds.
    pub fn len(&self) -> (n: usize)
        ensures
            n == self@.commands.len(),
    {
        self.commands.len()
    }

    /// Whether another record can still be assigned a fresh id.
    pub fn has_capacity(&self) -> (r: bool)
        ensures
            r == (self@.next_id < i64::MAX),
    {
        self.next_id < i64::MAX
    }

    /// Append one record. The store assigns `command.id` the next fresh id:
    /// strictly greater than every id assigned before, never reused. Every
    /// other field is persisted verbatim.
    pub fn insert_command(&mut self, command: &mut Command)
        requires
            old(self).wf(),
            old(self)@.next_id < i64::MAX,
        ensures
            final(self).wf(),
            final(command)@ == (CommandV { id: old(self)@.next_id, ..old(command)@ }),
            final(self)@.next_id == old(self)@.next_id + 1,
            final(self)@.commands == old(self)@.commands.push(final(command)@),
    {
        command.id = self.next_id;
        self.next_id = self.next_id + 1;
        let ghost pre = self.commands@;
        self.commands.push(command.clone());
        proof {
            assert(views_of(self.commands@) =~= views_of(pre).push(command@));
            let post = self@.commands;
            let n = old(self)@.commands.len() as int;
            assert(post == old(self)@.commands.push(command@));
            assert forall|i: int| 0 <= i < post.len() implies 1 <= #[trigger] post[i].id
                < self@.next_id by {
                if i < n {
                    assert(post[i] == old(self)@.commands[i]);
                }
            }
            assert forall|i: int, j: int| 0 <= i < j < post.len() implies #[trigger] post[i].id
                < #[trigger] post[j].id by {
                if j < n {
                    assert(post[i] == old(self)@.commands[i]);
                    assert(post[j] == old(self)@.commands[j]);
                } else {
                    assert(post[i] == old(self)@.commands[i]);
                    assert(post[j] == command@);
                }
            }
        }
    }
    /// The recency query: the most recent records, newest first, at most
    /// [`RECENT_LIMIT`] of them. Ordered by timestamp descending; ties are
    /// broken by id descending, which is insertion order (later insert
    /// first).
    pub fn get_latest_commands(&self) -> (r: Vec<Command>)
        requires
            self.wf(),
        ensures
            views_of(r@) == recent_of(self@.commands, RECENT_LIMIT as int),
    {
        let ghost all = self@.commands;
        let n = self.commands.len();
        let mut sorted: Vec<Command> = Vec::new();
        let mut idx: usize = 0;
        proof {
            assert(all.take(0) =~= Seq::<CommandV>::empty());
            assert(views_of(sorted@) =~= Seq::<CommandV>::empty());
        }
        while idx < n
            invariant
                n == self.commands.len(),
                all == views_of(self.commands@),
                idx <= n,
                sorted.len() == idx,
                views_of(sorted@) == sort_desc(all.take(idx as int)),
            decreases n - idx,
        {
            let c = self.commands[idx].clone();
            let ghost sv = views_of(sorted@);
            let mut p: usize = 0;
            while p < sorted.len() && !is_older(&sorted[p], &c)
                invariant
                    sorted.len() == idx,
                    sv == views_of(sorted@),
                    c@ == all[idx as int],
                    p <= sorted.len(),
                    forall|q: int| 0 <= q < p ==> !older(#[trigger] sv[q], c@),
                decreases sorted.len() - p,
            {
                assert(sv[p as int] == sorted@[p as int]@);
                p = p + 1;
            }
            proof {
                lemma_insert_desc_split(c@, sv, p as int);
                if p < sorted.len() {
                    assert(sv[p as int] == sorted@[p as int]@);
                    assert(older(sv.skip(p as int)[0], c@));
                } else {
                    assert(sv.skip(p as int) =~= Seq::<CommandV>::empty());
                }
                assert(insert_desc(c@, sv) =~= sv.take(p as int) + seq![c@] + sv.skip(p as int));
            }
            sorted.insert(p, c);
            idx = idx + 1;
            proof {
                assert(views_of(sorted@) =~= insert_desc(all[idx - 1], sv)) by {
                    assert forall|k: int| 0 <= k < sorted@.len() implies views_of(sorted@)[k]
                        == insert_desc(all[idx - 1], sv)[k] by {
                        lemma_insert_desc_len(all[idx - 1], sv);
                    }
                }
                assert(all.take(idx as int).drop_last() =~= all.take(idx - 1));
                assert(all.take(idx as int).last() == all[idx - 1]);
            }
        }
        proof {
            assert(all.take(n as int) =~= all);
        }
        if sorted.len() > RECENT_LIMIT {
            sorted.truncate(RECENT_LIMIT);
            proof {
                lemma_sort_desc_len(all);
                assert(views_of(sorted@) =~= sort_desc(all).take(RECENT_LIMIT as int));
            }
        }
        proof {
            lemma_sort_desc_len(all);
        }
        sorted
    }
}

/// Inserting a record and then immediately querying yields it first in the
/// batch: a record whose id is fresh (greater than every id in the store)
/// and whose timestamp is no older than any in the store — as
/// [`CommandStore::insert_command`] assigns and a non-decreasing server
/// clock stamps — heads the recency view.
pub proof fn law_recent_after_insert(s: Seq<CommandV>, c: CommandV, limit: int)
    requires
        1 <= limit,
        forall|i: int| 0 <= i < s.len() ==> (#[trigger] s[i]).id < c.id,
        forall|i: int| 0 <= i < s.len() ==> (#[trigger] s[i]).timestamp <= c.timestamp,
    ensures
        recent_of(s.push(c), limit).len() >= 1,
        recent_of(s.push(c), limit)[0] == c,
{
    let t = s.push(c);
    assert(t.drop_last() =~= s);
    assert(t.last() == c);
    assert(sort_desc(t) == insert_desc(c, sort_desc(s)));
    let sorted = sort_desc(s);
    lemma_sort_desc_len(s);
    if sorted.len() > 0 {
        lemma_sort_desc_contains(s, sorted[0]);
        assert(sorted.contains(sorted[0]));
        let i = choose|i: int| 0 <= i < s.len() && s[i] == sorted[0];
        assert(older(sorted[0], c));
        assert(insert_desc(c, sorted) == seq![c] + sorted);
        assert((seq![c] + sorted)[0] == c);
    } else {
        assert(insert_desc(c, sorted) == seq![c]);
    }
    lemma_sort_desc_len(t);
    assert(sort_desc(t)[0] == c);
    if t.len() > limit {
        assert(recent_of(t, limit) == sort_desc(t).take(limit));
        assert(sort_desc(t).take(limit)[0] == sort_desc(t)[0]);
    }
}

/// Two insertions receive distinct, strictly increasing ids: the first is
/// assigned the store's next id, the second the successor the first
/// insertion left behind — as [`CommandStore::insert_command`] ensures.
pub proof fn law_insert_twice_ids_increase(
    s0: StoreV,
    s1: StoreV,
    s2: StoreV,
    id1: int,
    id2: int,
)
    requires
        id1 == s0.next_id,
        s1.next_id == s0.next_id + 1,
        id2 == s1.next_id,
        s2.next_id == s1.next_id + 1,
    ensures
        id2 > id1,
        id1 != id2,
{
}

/// Exec comparison matching [`older`].
fn is_older(a: &Command, b: &Command) -> (r: bool)
    ensures
        r == older(a@, b@),
{
    a.timestamp < b.timestamp || (a.timestamp == b.timestamp && a.id < b.id)
}

} // verus!
