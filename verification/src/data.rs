//! The analytics engine: pure functions over an in-memory sequence of
//! [`Message`] records.
//!
//! Every aggregation here makes a single pass over the messages in document
//! order and keys its running table by author identifier or by normalized
//! word. Insertion is last-write-wins on the stored value: when a key is seen
//! again, its count grows and the stored snapshot is replaced by the most
//! recent one. The tables are vectors with provably distinct keys, in
//! first-occurrence order.

use vstd::prelude::*;

use crate::model::DeepClone;
use crate::model::Message;
use crate::model::MessageView;
use crate::model::User;
use crate::model::UserView;
use crate::text::alnum_char;
use crate::text::alpha_char;
use crate::text::char_is_alphabetic;
use crate::text::char_is_alphanumeric;
use crate::text::chars_to_string;
use crate::text::contains_chars;
use crate::text::lower_of;
use crate::text::lowercase;
use crate::text::split_on_space;
use crate::text::split_spaces;
use crate::text::str_chars;
use vstd::string::StrSliceExecFns;

verus! {

/// One entry of the per-user count table: a representative snapshot of the
/// user and how many messages that user authored.
#[derive(PartialEq, Eq, Debug)]
pub struct UserTally {
    pub user: User,
    pub count: u32,
}

/// Mathematical abstraction of a [`UserTally`].
pub ghost struct UserTallyView {
    pub user: UserView,
    pub count: int,
}

impl DeepView for UserTally {
    type V = UserTallyView;

    open spec fn deep_view(&self) -> UserTallyView {
        UserTallyView { user: self.user.deep_view(), count: self.count as int }
    }
}

/// The index of the first occurrence of `key` in `keys`, or `-1` when absent.
pub open spec fn seq_find(keys: Seq<Seq<char>>, key: Seq<char>) -> int
    decreases keys.len(),
{
    if keys.len() == 0 {
        -1
    } else if keys[0] == key {
        0
    } else if seq_find(keys.drop_first(), key) < 0 {
        -1
    } else {
        seq_find(keys.drop_first(), key) + 1
    }
}

/// `seq_find` returns a negative number exactly when the key is absent, and
/// otherwise the first index holding the key.
pub proof fn lemma_seq_find(keys: Seq<Seq<char>>, key: Seq<char>)
    ensures
        seq_find(keys, key) < 0 ==> (forall|i: int| 0 <= i < keys.len() ==> keys[i] != key),
        seq_find(keys, key) >= 0 ==> seq_find(keys, key) < keys.len() && keys[seq_find(
            keys,
            key,
        )] == key,
        seq_find(keys, key) >= 0 ==> (forall|i: int|
            0 <= i < seq_find(keys, key) ==> keys[i] != key),
    decreases keys.len(),
{
    if keys.len() > 0 && keys[0] != key {
        let d = keys.drop_first();
        lemma_seq_find(d, key);
        if seq_find(d, key) < 0 {
            assert forall|i: int| 0 <= i < keys.len() implies keys[i] != key by {
                if i > 0 {
                    assert(keys[i] == d[i - 1]);
                }
            }
        } else {
            let r = seq_find(keys, key);
            assert(keys[r] == d[r - 1]);
            assert forall|i: int| 0 <= i < r implies keys[i] != key by {
                if i > 0 {
                    assert(keys[i] == d[i - 1]);
                }
            }
        }
    }
}

/// The author identifiers of the table's entries, in table order.
pub open spec fn tally_ids(t: Seq<UserTallyView>) -> Seq<Seq<char>> {
    t.map_values(|e: UserTallyView| e.user.id)
}

/// One aggregation step: record one more message by `u`. A new author is
/// appended with count 1; a known author's count grows by one and the stored
/// snapshot is replaced by `u` (last-write-wins).
pub open spec fn tally_insert(t: Seq<UserTallyView>, u: UserView) -> Seq<UserTallyView> {
    let k = seq_find(tally_ids(t), u.id);
    if k < 0 {
        t.push(UserTallyView { user: u, count: 1 })
    } else {
        t.update(k, UserTallyView { user: u, count: t[k].count + 1 })
    }
}

/// The per-user count table of a message sequence: the result of tallying
/// each message's author in document order.
pub open spec fn count_table_spec(m: Seq<MessageView>) -> Seq<UserTallyView>
    decreases m.len(),
{
    if m.len() == 0 {
        Seq::empty()
    } else {
        tally_insert(count_table_spec(m.drop_last()), m.last().author)
    }
}

/// How many messages of `m` are authored by `id`.
pub open spec fn author_count(m: Seq<MessageView>, id: Seq<char>) -> int
    decreases m.len(),
{
    if m.len() == 0 {
        0
    } else {
        author_count(m.drop_last(), id) + if m.last().author.id == id {
            1int
        } else {
            0int
        }
    }
}

/// The author snapshot carried by the last message of `m` authored by `id`.
pub open spec fn last_author(m: Seq<MessageView>, id: Seq<char>) -> UserView
    decreases m.len(),
{
    if m.len() == 0 {
        arbitrary()
    } else if m.last().author.id == id {
        m.last().author
    } else {
        last_author(m.drop_last(), id)
    }
}

/// The set of distinct author identifiers appearing in `m`.
pub open spec fn author_ids(m: Seq<MessageView>) -> Set<Seq<char>>
    decreases m.len(),
{
    if m.len() == 0 {
        Set::empty()
    } else {
        author_ids(m.drop_last()).insert(m.last().author.id)
    }
}

/// The sum of the counts of a table.
pub open spec fn sum_counts(t: Seq<UserTallyView>) -> int
    decreases t.len(),
{
    if t.len() == 0 {
        0
    } else {
        sum_counts(t.drop_last()) + t.last().count
    }
}

proof fn lemma_sum_counts_update(t: Seq<UserTallyView>, k: int, e: UserTallyView)
    requires
        0 <= k < t.len(),
    ensures
        sum_counts(t.update(k, e)) == sum_counts(t) - t[k].count + e.count,
    decreases t.len(),
{
    if k == t.len() - 1 {
        assert(t.update(k, e).drop_last() =~= t.drop_last());
        assert(t.update(k, e).last() == e);
    } else {
        lemma_sum_counts_update(t.drop_last(), k, e);
        assert(t.update(k, e).drop_last() =~= t.drop_last().update(k, e));
        assert(t.update(k, e).last() == t.last());
    }
}

/// No author can have more messages than the sequence holds.
pub proof fn lemma_author_count_le(m: Seq<MessageView>, id: Seq<char>)
    ensures
        0 <= author_count(m, id) <= m.len(),
    decreases m.len(),
{
    if m.len() > 0 {
        lemma_author_count_le(m.drop_last(), id);
    }
}

/// The shape of the per-user count table: author identifiers are finite and
/// distinct, one entry stands for each distinct author, each entry's count is
/// that author's exact message count and its snapshot the most recent one,
/// and the counts sum to the number of messages.
pub proof fn lemma_count_table_props(m: Seq<MessageView>)
    ensures
        author_ids(m).finite(),
        count_table_spec(m).len() == author_ids(m).len(),
        forall|i: int, j: int|
            0 <= i < j < count_table_spec(m).len() ==> #[trigger] count_table_spec(
                m,
            )[i].user.id != #[trigger] count_table_spec(m)[j].user.id,
        forall|k: int|
            0 <= k < count_table_spec(m).len() ==> #[trigger] count_table_spec(m)[k].count
                == author_count(m, count_table_spec(m)[k].user.id),
        forall|k: int|
            0 <= k < count_table_spec(m).len() ==> #[trigger] count_table_spec(m)[k].user
                == last_author(m, count_table_spec(m)[k].user.id),
        forall|k: int|
            0 <= k < count_table_spec(m).len() ==> author_ids(m).contains(
                #[trigger] count_table_spec(m)[k].user.id,
            ),
        forall|id: Seq<char>|
            #[trigger] author_ids(m).contains(id) ==> exists|k: int|
                0 <= k < count_table_spec(m).len() && #[trigger] count_table_spec(m)[k].user.id
                    == id,
        sum_counts(count_table_spec(m)) == m.len(),
    decreases m.len(),
{
    broadcast use vstd::set::group_set_axioms;

    if m.len() == 0 {
    } else {
        let m0 = m.drop_last();
        let u = m.last().author;
        let t0 = count_table_spec(m0);
        let t = count_table_spec(m);
        lemma_count_table_props(m0);
        lemma_seq_find(tally_ids(t0), u.id);
        let k = seq_find(tally_ids(t0), u.id);
        assert(forall|i: int| 0 <= i < t0.len() ==> tally_ids(t0)[i] == #[trigger] t0[i].user.id);
        assert(forall|id: Seq<char>|
            author_count(m, id) == author_count(m0, id) + if u.id == id {
                1int
            } else {
                0int
            });
        assert(forall|id: Seq<char>|
            u.id != id ==> last_author(m, id) == last_author(m0, id));
        assert(last_author(m, u.id) == u);
        if k < 0 {
            // a first message by this author: a fresh entry is appended
            assert(t =~= t0.push(UserTallyView { user: u, count: 1 }));
            assert(!author_ids(m0).contains(u.id)) by {
                if author_ids(m0).contains(u.id) {
                    let w = choose|w: int|
                        0 <= w < t0.len() && #[trigger] t0[w].user.id == u.id;
                    assert(tally_ids(t0)[w] == u.id);
                }
            }
            assert(author_ids(m).len() == author_ids(m0).len() + 1);
            assert(forall|i: int| 0 <= i < t0.len() ==> t[i] == t0[i]);
            assert(forall|i: int|
                0 <= i < t0.len() ==> #[trigger] t0[i].user.id != u.id) by {
                assert(forall|i: int|
                    0 <= i < t0.len() ==> tally_ids(t0)[i] != u.id);
            }
            assert(t.last().count == 1 == author_count(m, u.id)) by {
                lemma_author_count_le(m0, u.id);
                assert(author_count(m0, u.id) == 0) by {
                    lemma_author_count_zero_when_absent(m0, u.id);
                }
            }
            assert(sum_counts(t) == sum_counts(t0) + 1) by {
                assert(t.drop_last() =~= t0);
            }
            assert(forall|id: Seq<char>|
                #[trigger] author_ids(m).contains(id) ==> exists|w: int|
                    0 <= w < t.len() && #[trigger] t[w].user.id == id) by {
                assert forall|id: Seq<char>| #[trigger]
                    author_ids(m).contains(id) implies exists|w: int|
                    0 <= w < t.len() && #[trigger] t[w].user.id == id by {
                    if id == u.id {
                        assert(t[t.len() - 1].user.id == id);
                    } else {
                        assert(author_ids(m0).contains(id));
                        let w = choose|w: int|
                            0 <= w < t0.len() && #[trigger] t0[w].user.id == id;
                        assert(t[w].user.id == id);
                    }
                }
            }
        } else {
            // the author is already tallied: count grows, snapshot replaced
            let e = UserTallyView { user: u, count: t0[k].count + 1 };
            assert(t =~= t0.update(k, e));
            assert(tally_ids(t0)[k] == u.id);
            assert(t0[k].user.id == u.id);
            assert(author_ids(m0).contains(u.id));
            assert(author_ids(m) =~= author_ids(m0));
            lemma_sum_counts_update(t0, k, e);
            assert(forall|i: int| 0 <= i < t.len() && i != k ==> t[i] == t0[i]);
            assert(forall|i: int|
                0 <= i < t.len() && i != k ==> #[trigger] t0[i].user.id != u.id);
            assert(forall|id: Seq<char>|
                #[trigger] author_ids(m).contains(id) ==> exists|w: int|
                    0 <= w < t.len() && #[trigger] t[w].user.id == id) by {
                assert forall|id: Seq<char>| #[trigger]
                    author_ids(m).contains(id) implies exists|w: int|
                    0 <= w < t.len() && #[trigger] t[w].user.id == id by {
                    let w = choose|w: int|
                        0 <= w < t0.len() && #[trigger] t0[w].user.id == id;
                    assert(t[w].user.id == id);
                }
            }
        }
    }
}

/// An author outside every message has count zero.
proof fn lemma_author_count_zero_when_absent(m: Seq<MessageView>, id: Seq<char>)
    requires
        !author_ids(m).contains(id),
    ensures
        author_count(m, id) == 0,
    decreases m.len(),
{
    broadcast use vstd::set::group_set_axioms;

    if m.len() > 0 {
        lemma_author_count_zero_when_absent(m.drop_last(), id);
    }
}

/// The index of the first table entry whose user has identifier `id`.
fn find_tally(entries: &Vec<UserTally>, id: &String) -> (o: Option<usize>)
    ensures
        match o {
            Option::Some(k) => 0 <= k < entries@.len() && entries@[k as int].user.id@ == id@
                && (forall|i: int| 0 <= i < k ==> #[trigger] entries@[i].user.id@ != id@),
            Option::None => forall|i: int|
                0 <= i < entries@.len() ==> #[trigger] entries@[i].user.id@ != id@,
        },
{
    let mut k: usize = 0;
    while k < entries.len()
        invariant
            k <= entries@.len(),
            forall|i: int| 0 <= i < k ==> #[trigger] entries@[i].user.id@ != id@,
        decreases entries@.len() - k,
    {
        if entries[k].user.id == *id {
            return Option::Some(k);
        }
        k = k + 1;
    }
    Option::None
}

/// The number of messages sent per user.
///
/// One entry per distinct author identifier, in first-occurrence order; each
/// entry carries the author's exact message count and the snapshot of the
/// author from that user's most recent message (last-write-wins). The counts
/// sum to the number of messages.
pub fn message_count_by_user(messages: &Vec<Message>) -> (r: Vec<UserTally>)
    requires
        messages@.len() <= u32::MAX,
    ensures
        r.deep_view() == count_table_spec(messages.deep_view()),
        sum_counts(r.deep_view()) == messages.deep_view().len(),
        r.deep_view().len() == author_ids(messages.deep_view()).len(),
        forall|i: int, j: int|
            0 <= i < j < r.deep_view().len() ==> #[trigger] r.deep_view()[i].user.id
                != #[trigger] r.deep_view()[j].user.id,
        forall|k: int|
            0 <= k < r.deep_view().len() ==> #[trigger] r.deep_view()[k].count == author_count(
                messages.deep_view(),
                r.deep_view()[k].user.id,
            ),
        forall|k: int|
            0 <= k < r.deep_view().len() ==> #[trigger] r.deep_view()[k].user == last_author(
                messages.deep_view(),
                r.deep_view()[k].user.id,
            ),
        forall|id: Seq<char>|
            #[trigger] author_ids(messages.deep_view()).contains(id) ==> exists|k: int|
                0 <= k < r.deep_view().len() && #[trigger] r.deep_view()[k].user.id == id,
{
    let ghost mdv = messages.deep_view();
    let mut r: Vec<UserTally> = Vec::new();
    let mut i: usize = 0;
    while i < messages.len()
        invariant
            i <= mdv.len(),
            mdv == messages.deep_view(),
            mdv.len() <= u32::MAX,
            r.deep_view() == count_table_spec(mdv.take(i as int)),
        decreases mdv.len() - i,
    {
        let ghost pre = mdv.take(i as int);
        let ghost t0 = count_table_spec(pre);
        proof {
            lemma_count_table_props(pre);
            lemma_seq_find(tally_ids(t0), mdv[i as int].author.id);
            assert(forall|w: int|
                0 <= w < t0.len() ==> tally_ids(t0)[w] == #[trigger] t0[w].user.id);
            assert(forall|w: int|
                0 <= w < r@.len() ==> #[trigger] r@[w].user.id@ == t0[w].user.id);
        }
        let author = messages[i].author.deep_clone();
        let found = find_tally(&r, &author.id);
        let ghost k_spec = seq_find(tally_ids(t0), mdv[i as int].author.id);
        match found {
            Option::Some(k) => {
                proof {
                    // the first exec match and the first spec match coincide
                    assert(t0[k as int].user.id == mdv[i as int].author.id);
                    assert(k_spec >= 0) by {
                        if k_spec < 0 {
                            assert(tally_ids(t0)[k as int] != mdv[i as int].author.id);
                        }
                    }
                    assert(k_spec == k as int) by {
                        if k_spec < k as int {
                            assert(t0[k_spec].user.id == mdv[i as int].author.id);
                        }
                        if k_spec > k as int {
                            assert(tally_ids(t0)[k as int] != mdv[i as int].author.id);
                        }
                    }
                    assert(t0[k as int].count <= pre.len()) by {
                        lemma_author_count_le(pre, t0[k as int].user.id);
                    }
                }
                let c = r[k].count;
                r[k] = UserTally { user: author, count: c + 1 };
            },
            Option::None => {
                proof {
                    assert(k_spec < 0) by {
                        if k_spec >= 0 {
                            assert(t0[k_spec].user.id == mdv[i as int].author.id);
                            assert(r@[k_spec].user.id@ == mdv[i as int].author.id);
                        }
                    }
                }
                r.push(UserTally { user: author, count: 1 });
            },
        }
        i = i + 1;
        proof {
            let cur = mdv.take(i as int);
            assert(cur.drop_last() =~= pre);
            assert(cur.last() == mdv[i - 1]);
            assert(r.deep_view() =~= tally_insert(t0, mdv[i - 1].author));
        }
    }
    proof {
        assert(mdv.take(i as int) =~= mdv);
        lemma_count_table_props(mdv);
    }
    r
}

/// The identifiers of a distinct-user list, in list order.
pub open spec fn user_ids(t: Seq<UserView>) -> Seq<Seq<char>> {
    t.map_values(|u: UserView| u.id)
}

/// One extraction step: a new author is appended; a known author's stored
/// snapshot is replaced (last-write-wins).
pub open spec fn users_insert(t: Seq<UserView>, u: UserView) -> Seq<UserView> {
    let k = seq_find(user_ids(t), u.id);
    if k < 0 {
        t.push(u)
    } else {
        t.update(k, u)
    }
}

/// The distinct-user list of a message sequence, in first-occurrence order.
pub open spec fn users_spec(m: Seq<MessageView>) -> Seq<UserView>
    decreases m.len(),
{
    if m.len() == 0 {
        Seq::empty()
    } else {
        users_insert(users_spec(m.drop_last()), m.last().author)
    }
}

/// The shape of the distinct-user list: identifiers are distinct, one entry
/// stands for each distinct author, and each entry is that author's most
/// recent snapshot.
pub proof fn lemma_users_props(m: Seq<MessageView>)
    ensures
        users_spec(m).len() == author_ids(m).len(),
        forall|i: int, j: int|
            0 <= i < j < users_spec(m).len() ==> #[trigger] users_spec(m)[i].id
                != #[trigger] users_spec(m)[j].id,
        forall|k: int|
            0 <= k < users_spec(m).len() ==> #[trigger] users_spec(m)[k] == last_author(
                m,
                users_spec(m)[k].id,
            ),
        forall|k: int|
            0 <= k < users_spec(m).len() ==> author_ids(m).contains(
                #[trigger] users_spec(m)[k].id,
            ),
        forall|id: Seq<char>|
            #[trigger] author_ids(m).contains(id) ==> exists|k: int|
                0 <= k < users_spec(m).len() && #[trigger] users_spec(m)[k].id == id,
    decreases m.len(),
{
    broadcast use vstd::set::group_set_axioms;

    if m.len() == 0 {
        lemma_count_table_props(m);
    } else {
        let m0 = m.drop_last();
        let u = m.last().author;
        let t0 = users_spec(m0);
        let t = users_spec(m);
        lemma_users_props(m0);
        lemma_count_table_props(m0);
        lemma_seq_find(user_ids(t0), u.id);
        let k = seq_find(user_ids(t0), u.id);
        assert(forall|i: int| 0 <= i < t0.len() ==> user_ids(t0)[i] == #[trigger] t0[i].id);
        assert(forall|id: Seq<char>| u.id != id ==> last_author(m, id) == last_author(m0, id));
        assert(last_author(m, u.id) == u);
        if k < 0 {
            assert(t =~= t0.push(u));
            assert(!author_ids(m0).contains(u.id)) by {
                if author_ids(m0).contains(u.id) {
                    let w = choose|w: int| 0 <= w < t0.len() && #[trigger] t0[w].id == u.id;
                    assert(user_ids(t0)[w] == u.id);
                }
            }
            assert(author_ids(m).len() == author_ids(m0).len() + 1);
            assert(forall|i: int| 0 <= i < t0.len() ==> #[trigger] t0[i].id != u.id) by {
                assert(forall|i: int| 0 <= i < t0.len() ==> user_ids(t0)[i] != u.id);
            }
            assert forall|id: Seq<char>| #[trigger]
                author_ids(m).contains(id) implies exists|w: int|
                0 <= w < t.len() && #[trigger] t[w].id == id by {
                if id == u.id {
                    assert(t[t.len() - 1].id == id);
                } else {
                    assert(author_ids(m0).contains(id));
                    let w = choose|w: int| 0 <= w < t0.len() && #[trigger] t0[w].id == id;
                    assert(t[w].id == id);
                }
            }
        } else {
            assert(t =~= t0.update(k, u));
            assert(user_ids(t0)[k] == u.id);
            assert(t0[k].id == u.id);
            assert(author_ids(m0).contains(u.id));
            assert(author_ids(m) =~= author_ids(m0));
            assert(forall|i: int| 0 <= i < t.len() && i != k ==> t[i] == t0[i]);
            assert(forall|i: int| 0 <= i < t.len() && i != k ==> #[trigger] t0[i].id != u.id);
            assert forall|id: Seq<char>| #[trigger]
                author_ids(m).contains(id) implies exists|w: int|
                0 <= w < t.len() && #[trigger] t[w].id == id by {
                let w = choose|w: int| 0 <= w < t0.len() && #[trigger] t0[w].id == id;
                assert(t[w].id == id);
            }
        }
    }
}

/// The index of the first user in the list with identifier `id`.
fn find_user(users: &Vec<User>, id: &String) -> (o: Option<usize>)
    ensures
        match o {
            Option::Some(k) => 0 <= k < users@.len() && users@[k as int].id@ == id@ && (forall|
                i: int,
            |
                0 <= i < k ==> #[trigger] users@[i].id@ != id@),
            Option::None => forall|i: int|
                0 <= i < users@.len() ==> #[trigger] users@[i].id@ != id@,
        },
{
    let mut k: usize = 0;
    while k < users.len()
        invariant
            k <= users@.len(),
            forall|i: int| 0 <= i < k ==> #[trigger] users@[i].id@ != id@,
        decreases users@.len() - k,
    {
        if users[k].id == *id {
            return Option::Some(k);
        }
        k = k + 1;
    }
    Option::None
}

/// The unique list of all users that authored messages in the sequence.
///
/// One entry per distinct author identifier, in first-occurrence order, each
/// holding the snapshot from that author's most recent message; its length is
/// the number of distinct author identifiers.
pub fn all_users(messages: &Vec<Message>) -> (r: Vec<User>)
    ensures
        r.deep_view() == users_spec(messages.deep_view()),
        r.deep_view().len() == author_ids(messages.deep_view()).len(),
        forall|i: int, j: int|
            0 <= i < j < r.deep_view().len() ==> #[trigger] r.deep_view()[i].id
                != #[trigger] r.deep_view()[j].id,
        forall|k: int|
            0 <= k < r.deep_view().len() ==> #[trigger] r.deep_view()[k] == last_author(
                messages.deep_view(),
                r.deep_view()[k].id,
            ),
        forall|id: Seq<char>|
            #[trigger] author_ids(messages.deep_view()).contains(id) ==> exists|k: int|
                0 <= k < r.deep_view().len() && #[trigger] r.deep_view()[k].id == id,
{
    let ghost mdv = messages.deep_view();
    let mut r: Vec<User> = Vec::new();
    let mut i: usize = 0;
    while i < messages.len()
        invariant
            i <= mdv.len(),
            mdv == messages.deep_view(),
            r.deep_view() == users_spec(mdv.take(i as int)),
        decreases mdv.len() - i,
    {
        let ghost pre = mdv.take(i as int);
        let ghost t0 = users_spec(pre);
        proof {
            lemma_users_props(pre);
            lemma_seq_find(user_ids(t0), mdv[i as int].author.id);
            assert(forall|w: int| 0 <= w < t0.len() ==> user_ids(t0)[w] == #[trigger] t0[w].id);
            assert(forall|w: int| 0 <= w < r@.len() ==> #[trigger] r@[w].id@ == t0[w].id);
        }
        let author = messages[i].author.deep_clone();
        let found = find_user(&r, &author.id);
        let ghost k_spec = seq_find(user_ids(t0), mdv[i as int].author.id);
        match found {
            Option::Some(k) => {
                proof {
                    assert(t0[k as int].id == mdv[i as int].author.id);
                    assert(k_spec >= 0) by {
                        if k_spec < 0 {
                            assert(user_ids(t0)[k as int] != mdv[i as int].author.id);
                        }
                    }
                    assert(k_spec == k as int) by {
                        if k_spec < k as int {
                            assert(t0[k_spec].id == mdv[i as int].author.id);
                        }
                        if k_spec > k as int {
                            assert(user_ids(t0)[k as int] != mdv[i as int].author.id);
                        }
                    }
                }
                r[k] = author;
            },
            Option::None => {
                proof {
                    assert(k_spec < 0) by {
                        if k_spec >= 0 {
                            assert(t0[k_spec].id == mdv[i as int].author.id);
                            assert(r@[k_spec].id@ == mdv[i as int].author.id);
                        }
                    }
                }
                r.push(author);
            },
        }
        i = i + 1;
        proof {
            let cur = mdv.take(i as int);
            assert(cur.drop_last() =~= pre);
            assert(cur.last() == mdv[i - 1]);
            assert(r.deep_view() =~= users_insert(t0, mdv[i - 1].author));
        }
    }
    proof {
        assert(mdv.take(i as int) =~= mdv);
        lemma_users_props(mdv);
    }
    r
}

/// One entry of the word-frequency table: a normalized word and how many
/// times it occurred.
#[derive(PartialEq, Eq, Debug)]
pub struct WordTally {
    pub word: String,
    pub count: u32,
}

/// Mathematical abstraction of a [`WordTally`].
pub ghost struct WordTallyView {
    pub word: Seq<char>,
    pub count: int,
}

impl DeepView for WordTally {
    type V = WordTallyView;

    open spec fn deep_view(&self) -> WordTallyView {
        WordTallyView { word: self.word@, count: self.count as int }
    }
}

/// Whether a character survives the token filter: letters only, or letters
/// and digits.
pub open spec fn keep_char(c: char, letters_only: bool) -> bool {
    if letters_only {
        alpha_char(c)
    } else {
        alnum_char(c)
    }
}

/// The characters of `t` that survive the token filter, in order.
pub open spec fn filter_chars(t: Seq<char>, letters_only: bool) -> Seq<char>
    decreases t.len(),
{
    if t.len() == 0 {
        Seq::empty()
    } else if keep_char(t.last(), letters_only) {
        filter_chars(t.drop_last(), letters_only).push(t.last())
    } else {
        filter_chars(t.drop_last(), letters_only)
    }
}

/// A raw field normalized into a countable word: optionally filtered to the
/// kept characters, then lowercased unless counting is case-sensitive.
pub open spec fn normalize_token(
    t: Seq<char>,
    case_sensitive: bool,
    restrict: bool,
    letters_only: bool,
) -> Seq<char> {
    let kept = if restrict {
        filter_chars(t, letters_only)
    } else {
        t
    };
    if case_sensitive {
        kept
    } else {
        lower_of(kept)
    }
}

/// The normalized tokens of the raw fields `raw`, in order, with tokens that
/// normalized to the empty string discarded.
pub open spec fn norm_tokens(
    raw: Seq<Seq<char>>,
    case_sensitive: bool,
    restrict: bool,
    letters_only: bool,
) -> Seq<Seq<char>>
    decreases raw.len(),
{
    if raw.len() == 0 {
        Seq::empty()
    } else {
        let rest = norm_tokens(raw.drop_last(), case_sensitive, restrict, letters_only);
        let w = normalize_token(raw.last(), case_sensitive, restrict, letters_only);
        if w.len() == 0 {
            rest
        } else {
            rest.push(w)
        }
    }
}

/// The countable words of one message's content, in order.
pub open spec fn content_tokens(
    content: Seq<char>,
    case_sensitive: bool,
    restrict: bool,
    letters_only: bool,
) -> Seq<Seq<char>> {
    norm_tokens(split_spaces(content), case_sensitive, restrict, letters_only)
}

/// The countable words of a whole message sequence, in document order.
pub open spec fn all_tokens(
    m: Seq<MessageView>,
    case_sensitive: bool,
    restrict: bool,
    letters_only: bool,
) -> Seq<Seq<char>>
    decreases m.len(),
{
    if m.len() == 0 {
        Seq::empty()
    } else {
        all_tokens(m.drop_last(), case_sensitive, restrict, letters_only) + content_tokens(
            m.last().content,
            case_sensitive,
            restrict,
            letters_only,
        )
    }
}

/// How many tokens of `ts` equal `w`.
pub open spec fn occurrences(ts: Seq<Seq<char>>, w: Seq<char>) -> int
    decreases ts.len(),
{
    if ts.len() == 0 {
        0
    } else {
        occurrences(ts.drop_last(), w) + if ts.last() == w {
            1int
        } else {
            0int
        }
    }
}

/// The words of a frequency table, in table order.
pub open spec fn word_keys(t: Seq<WordTallyView>) -> Seq<Seq<char>> {
    t.map_values(|e: WordTallyView| e.word)
}

/// One counting step: a new word is appended with count 1; a known word's
/// count grows by one.
pub open spec fn word_insert(t: Seq<WordTallyView>, w: Seq<char>) -> Seq<WordTallyView> {
    let k = seq_find(word_keys(t), w);
    if k < 0 {
        t.push(WordTallyView { word: w, count: 1 })
    } else {
        t.update(k, WordTallyView { word: w, count: t[k].count + 1 })
    }
}

/// The frequency table of a token sequence: each token counted in order.
pub open spec fn word_table_from(ts: Seq<Seq<char>>) -> Seq<WordTallyView>
    decreases ts.len(),
{
    if ts.len() == 0 {
        Seq::empty()
    } else {
        word_insert(word_table_from(ts.drop_last()), ts.last())
    }
}

/// The word-frequency table of a message sequence.
pub open spec fn freq_table_spec(
    m: Seq<MessageView>,
    case_sensitive: bool,
    restrict: bool,
    letters_only: bool,
) -> Seq<WordTallyView> {
    word_table_from(all_tokens(m, case_sensitive, restrict, letters_only))
}

/// A token occurs at most as often as there are tokens.
pub proof fn lemma_occurrences_le(ts: Seq<Seq<char>>, w: Seq<char>)
    ensures
        0 <= occurrences(ts, w) <= ts.len(),
    decreases ts.len(),
{
    if ts.len() > 0 {
        lemma_occurrences_le(ts.drop_last(), w);
    }
}

/// The shape of a frequency table: words are distinct, every entry's word is
/// one of the tokens, its count is that token's exact number of occurrences,
/// and every token has an entry.
pub proof fn lemma_word_table_props(ts: Seq<Seq<char>>)
    ensures
        forall|i: int, j: int|
            0 <= i < j < word_table_from(ts).len() ==> #[trigger] word_table_from(ts)[i].word
                != #[trigger] word_table_from(ts)[j].word,
        forall|k: int|
            0 <= k < word_table_from(ts).len() ==> ts.contains(
                #[trigger] word_table_from(ts)[k].word,
            ),
        forall|k: int|
            0 <= k < word_table_from(ts).len() ==> #[trigger] word_table_from(ts)[k].count
                == occurrences(ts, word_table_from(ts)[k].word),
        forall|w: Seq<char>|
            #[trigger] ts.contains(w) ==> exists|k: int|
                0 <= k < word_table_from(ts).len() && #[trigger] word_table_from(ts)[k].word == w,
    decreases ts.len(),
{
    if ts.len() > 0 {
        let ts0 = ts.drop_last();
        let w0 = ts.last();
        let t0 = word_table_from(ts0);
        let t = word_table_from(ts);
        lemma_word_table_props(ts0);
        lemma_seq_find(word_keys(t0), w0);
        let k = seq_find(word_keys(t0), w0);
        assert(forall|i: int| 0 <= i < t0.len() ==> word_keys(t0)[i] == #[trigger] t0[i].word);
        assert(forall|w: Seq<char>|
            occurrences(ts, w) == occurrences(ts0, w) + if w0 == w {
                1int
            } else {
                0int
            });
        assert(forall|w: Seq<char>| ts0.contains(w) ==> #[trigger] ts.contains(w)) by {
            assert(forall|i: int| 0 <= i < ts0.len() ==> ts0[i] == #[trigger] ts[i]);
        }
        assert(ts[ts.len() - 1] == w0);
        assert(ts.contains(w0));
        if k < 0 {
            assert(t =~= t0.push(WordTallyView { word: w0, count: 1 }));
            assert(forall|i: int| 0 <= i < t0.len() ==> t[i] == t0[i]);
            assert(forall|i: int| 0 <= i < t0.len() ==> #[trigger] t0[i].word != w0) by {
                assert(forall|i: int| 0 <= i < t0.len() ==> word_keys(t0)[i] != w0);
            }
            assert(occurrences(ts0, w0) == 0) by {
                if ts0.contains(w0) {
                    let q = choose|q: int| 0 <= q < t0.len() && #[trigger] t0[q].word == w0;
                    assert(word_keys(t0)[q] == w0);
                }
                lemma_occurrences_zero_when_absent(ts0, w0);
            }
            assert forall|w: Seq<char>| #[trigger] ts.contains(w) implies exists|q: int|
                0 <= q < t.len() && #[trigger] t[q].word == w by {
                if w == w0 {
                    assert(t[t.len() - 1].word == w);
                } else {
                    let j = choose|j: int| 0 <= j < ts.len() && ts[j] == w;
                    assert(ts0[j] == w);
                    assert(ts0.contains(w));
                    let q = choose|q: int| 0 <= q < t0.len() && #[trigger] t0[q].word == w;
                    assert(t[q].word == w);
                }
            }
        } else {
            let e = WordTallyView { word: w0, count: t0[k].count + 1 };
            assert(t =~= t0.update(k, e));
            assert(word_keys(t0)[k] == w0);
            assert(t0[k].word == w0);
            assert(forall|i: int| 0 <= i < t.len() && i != k ==> t[i] == t0[i]);
            assert(forall|i: int| 0 <= i < t.len() && i != k ==> #[trigger] t0[i].word != w0);
            assert forall|w: Seq<char>| #[trigger] ts.contains(w) implies exists|q: int|
                0 <= q < t.len() && #[trigger] t[q].word == w by {
                if w == w0 {
                    assert(t[k].word == w);
                } else {
                    let j = choose|j: int| 0 <= j < ts.len() && ts[j] == w;
                    assert(ts0[j] == w);
                    assert(ts0.contains(w));
                    let q = choose|q: int| 0 <= q < t0.len() && #[trigger] t0[q].word == w;
                    assert(t[q].word == w);
                }
            }
        }
    }
}

/// A token that does not occur in `ts` has zero occurrences.
proof fn lemma_occurrences_zero_when_absent(ts: Seq<Seq<char>>, w: Seq<char>)
    requires
        !ts.contains(w),
    ensures
        occurrences(ts, w) == 0,
    decreases ts.len(),
{
    if ts.len() > 0 {
        assert(ts[ts.len() - 1] == ts.last());
        assert(ts.last() != w);
        assert(!ts.drop_last().contains(w)) by {
            if ts.drop_last().contains(w) {
                let j = choose|j: int| 0 <= j < ts.drop_last().len() && ts.drop_last()[j] == w;
                assert(ts[j] == w);
            }
        }
        lemma_occurrences_zero_when_absent(ts.drop_last(), w);
    }
}

/// Normalizing and discarding empties never yields more tokens than fields.
pub proof fn lemma_norm_tokens_len(
    raw: Seq<Seq<char>>,
    case_sensitive: bool,
    restrict: bool,
    letters_only: bool,
)
    ensures
        norm_tokens(raw, case_sensitive, restrict, letters_only).len() <= raw.len(),
    decreases raw.len(),
{
    if raw.len() > 0 {
        lemma_norm_tokens_len(raw.drop_last(), case_sensitive, restrict, letters_only);
    }
}

/// Every countable word is non-empty.
pub proof fn lemma_norm_tokens_nonempty(
    raw: Seq<Seq<char>>,
    case_sensitive: bool,
    restrict: bool,
    letters_only: bool,
)
    ensures
        forall|j: int|
            0 <= j < norm_tokens(raw, case_sensitive, restrict, letters_only).len()
                ==> #[trigger] norm_tokens(raw, case_sensitive, restrict, letters_only)[j].len()
                != 0,
    decreases raw.len(),
{
    if raw.len() > 0 {
        lemma_norm_tokens_nonempty(raw.drop_last(), case_sensitive, restrict, letters_only);
        let rest = norm_tokens(raw.drop_last(), case_sensitive, restrict, letters_only);
        let cur = norm_tokens(raw, case_sensitive, restrict, letters_only);
        let w = normalize_token(raw.last(), case_sensitive, restrict, letters_only);
        assert forall|j: int| 0 <= j < cur.len() implies #[trigger] cur[j].len() != 0 by {
            if w.len() == 0 || j < rest.len() {
                assert(cur[j] == rest[j]);
            } else {
                assert(cur[j] == w);
            }
        }
    }
}

/// The total number of space-separated fields over all messages.
pub open spec fn total_fields(m: Seq<MessageView>) -> int
    decreases m.len(),
{
    if m.len() == 0 {
        0
    } else {
        total_fields(m.drop_last()) + split_spaces(m.last().content).len()
    }
}

/// Any prefix contributes at most the whole sequence's fields.
pub proof fn lemma_total_fields_prefix(m: Seq<MessageView>, n: int)
    requires
        0 <= n <= m.len(),
    ensures
        0 <= total_fields(m.take(n)) <= total_fields(m),
        n < m.len() ==> total_fields(m.take(n)) + split_spaces(m[n].content).len()
            <= total_fields(m),
    decreases m.len(),
{
    lemma_total_fields_nonneg(m.take(n));
    if n == m.len() {
        assert(m.take(n) =~= m);
    } else if n == m.len() - 1 {
        assert(m.take(n) =~= m.drop_last());
        assert(m[n] == m.last());
    } else {
        lemma_total_fields_prefix(m.drop_last(), n);
        assert(m.take(n) =~= m.drop_last().take(n));
        assert(m[n] == m.drop_last()[n]);
    }
}

/// The field total is never negative.
proof fn lemma_total_fields_nonneg(m: Seq<MessageView>)
    ensures
        total_fields(m) >= 0,
    decreases m.len(),
{
    if m.len() > 0 {
        lemma_total_fields_nonneg(m.drop_last());
    }
}

/// The countable words are never more numerous than the fields.
pub proof fn lemma_all_tokens_le_total_fields(
    m: Seq<MessageView>,
    case_sensitive: bool,
    restrict: bool,
    letters_only: bool,
)
    ensures
        0 <= all_tokens(m, case_sensitive, restrict, letters_only).len() <= total_fields(m),
    decreases m.len(),
{
    if m.len() > 0 {
        lemma_all_tokens_le_total_fields(m.drop_last(), case_sensitive, restrict, letters_only);
        lemma_norm_tokens_len(
            split_spaces(m.last().content),
            case_sensitive,
            restrict,
            letters_only,
        );
    }
}

/// One raw field normalized into its countable form.
fn normalize_word(raw: &Vec<char>, case_sensitive: bool, restrict: bool, letters_only: bool) -> (r:
    String)
    ensures
        r@ == normalize_token(raw@, case_sensitive, restrict, letters_only),
{
    let mut kept: Vec<char> = Vec::new();
    let mut i: usize = 0;
    while i < raw.len()
        invariant
            i <= raw@.len(),
            restrict ==> kept@ == filter_chars(raw@.take(i as int), letters_only),
            !restrict ==> kept@ == raw@.take(i as int),
        decreases raw@.len() - i,
    {
        let c = raw[i];
        if restrict {
            let keep = if letters_only {
                char_is_alphabetic(c)
            } else {
                char_is_alphanumeric(c)
            };
            if keep {
                kept.push(c);
            }
        } else {
            kept.push(c);
        }
        i = i + 1;
        proof {
            assert(raw@.take(i as int).drop_last() =~= raw@.take(i - 1));
            assert(raw@.take(i as int).last() == raw@[i - 1]);
            if !restrict {
                assert(kept@ =~= raw@.take(i as int));
            }
        }
    }
    proof {
        assert(raw@.take(i as int) =~= raw@);
    }
    let s = chars_to_string(&kept);
    if case_sensitive {
        s
    } else {
        lowercase(s.as_str())
    }
}

/// The index of the first table entry holding `word`.
fn find_word(entries: &Vec<WordTally>, word: &String) -> (o: Option<usize>)
    ensures
        match o {
            Option::Some(k) => 0 <= k < entries@.len() && entries@[k as int].word@ == word@ && (
            forall|i: int| 0 <= i < k ==> #[trigger] entries@[i].word@ != word@),
            Option::None => forall|i: int|
                0 <= i < entries@.len() ==> #[trigger] entries@[i].word@ != word@,
        },
{
    let mut k: usize = 0;
    while k < entries.len()
        invariant
            k <= entries@.len(),
            forall|i: int| 0 <= i < k ==> #[trigger] entries@[i].word@ != word@,
        decreases entries@.len() - k,
    {
        if entries[k].word == *word {
            return Option::Some(k);
        }
        k = k + 1;
    }
    Option::None
}

/// The shared counting pass behind the two public word-frequency functions.
#[verifier::rlimit(80)]
fn word_table_core(
    messages: &Vec<Message>,
    case_sensitive: bool,
    restrict: bool,
    letters_only: bool,
) -> (r: Vec<WordTally>)
    requires
        total_fields(messages.deep_view()) <= u32::MAX,
    ensures
        r.deep_view() == freq_table_spec(
            messages.deep_view(),
            case_sensitive,
            restrict,
            letters_only,
        ),
{
    let ghost mdv = messages.deep_view();
    let mut r: Vec<WordTally> = Vec::new();
    let mut i: usize = 0;
    while i < messages.len()
        invariant
            i <= mdv.len(),
            mdv == messages.deep_view(),
            total_fields(mdv) <= u32::MAX,
            r.deep_view() == word_table_from(
                all_tokens(mdv.take(i as int), case_sensitive, restrict, letters_only),
            ),
        decreases mdv.len() - i,
    {
        let ghost pre_tokens = all_tokens(mdv.take(i as int), case_sensitive, restrict, letters_only);
        let content_chars = str_chars(messages[i].content.as_str());
        let raw = split_on_space(&content_chars);
        proof {
            assert(raw.deep_view() == split_spaces(mdv[i as int].content));
        }
        let mut j: usize = 0;
        while j < raw.len()
            invariant
                j <= raw@.len(),
                i < mdv.len(),
                mdv == messages.deep_view(),
                total_fields(mdv) <= u32::MAX,
                raw.deep_view() == split_spaces(mdv[i as int].content),
                pre_tokens == all_tokens(mdv.take(i as int), case_sensitive, restrict, letters_only),
                r.deep_view() == word_table_from(
                    pre_tokens + norm_tokens(
                        raw.deep_view().take(j as int),
                        case_sensitive,
                        restrict,
                        letters_only,
                    ),
                ),
            decreases raw@.len() - j,
        {
            let ghost ts = pre_tokens + norm_tokens(
                raw.deep_view().take(j as int),
                case_sensitive,
                restrict,
                letters_only,
            );
            let w = normalize_word(&raw[j], case_sensitive, restrict, letters_only);
            proof {
                assert(raw@[j as int]@ == raw.deep_view()[j as int]);
                assert(w@ == normalize_token(
                    raw.deep_view()[j as int],
                    case_sensitive,
                    restrict,
                    letters_only,
                ));
            }
            if !w.as_str().is_empty() {
                let ghost t0 = word_table_from(ts);
                proof {
                    lemma_word_table_props(ts);
                    lemma_seq_find(word_keys(t0), w@);
                    assert(forall|q: int|
                        0 <= q < t0.len() ==> word_keys(t0)[q] == #[trigger] t0[q].word);
                    assert(forall|q: int|
                        0 <= q < r@.len() ==> #[trigger] r@[q].word@ == t0[q].word);
                }
                let found = find_word(&r, &w);
                let ghost k_spec = seq_find(word_keys(t0), w@);
                match found {
                    Option::Some(k) => {
                        proof {
                            assert(t0[k as int].word == w@);
                            assert(k_spec >= 0) by {
                                if k_spec < 0 {
                                    assert(word_keys(t0)[k as int] != w@);
                                }
                            }
                            assert(k_spec == k as int) by {
                                if k_spec < k as int {
                                    assert(t0[k_spec].word == w@);
                                }
                                if k_spec > k as int {
                                    assert(word_keys(t0)[k as int] != w@);
                                }
                            }
                            // the running count never outgrows the field total
                            assert(t0[k as int].count <= ts.len()) by {
                                lemma_occurrences_le(ts, t0[k as int].word);
                            }
                            assert(ts.len() <= total_fields(mdv) - 1) by {
                                lemma_all_tokens_le_total_fields(
                                    mdv.take(i as int),
                                    case_sensitive,
                                    restrict,
                                    letters_only,
                                );
                                lemma_norm_tokens_len(
                                    raw.deep_view().take(j as int),
                                    case_sensitive,
                                    restrict,
                                    letters_only,
                                );
                                lemma_total_fields_prefix(mdv, i as int);
                                assert(raw.deep_view().take(j as int).len() == j as int);
                                assert(j < raw.deep_view().len());
                            }
                            assert(r@[k as int].count as int == t0[k as int].count);
                        }
                        let c = r[k].count;
                        r[k] = WordTally { word: w, count: c + 1 };
                    },
                    Option::None => {
                        proof {
                            assert(k_spec < 0) by {
                                if k_spec >= 0 {
                                    assert(t0[k_spec].word == w@);
                                    assert(r@[k_spec].word@ == w@);
                                }
                            }
                        }
                        r.push(WordTally { word: w, count: 1 });
                    },
                }
            }
            j = j + 1;
            proof {
                let rawv = raw.deep_view();
                let cur = rawv.take(j as int);
                assert(cur.drop_last() =~= rawv.take(j - 1));
                assert(cur.last() == rawv[j - 1]);
                let wn = normalize_token(rawv[j - 1], case_sensitive, restrict, letters_only);
                let nt_pre = norm_tokens(rawv.take(j - 1), case_sensitive, restrict, letters_only);
                let nt_cur = norm_tokens(cur, case_sensitive, restrict, letters_only);
                if wn.len() == 0 {
                    assert(nt_cur == nt_pre);
                    assert(pre_tokens + nt_cur =~= pre_tokens + nt_pre);
                } else {
                    assert(nt_cur == nt_pre.push(wn));
                    let ts_pre = pre_tokens + nt_pre;
                    let ts_cur = pre_tokens + nt_cur;
                    assert(ts_cur =~= ts_pre.push(wn));
                    assert(ts_cur.drop_last() =~= ts_pre);
                    assert(ts_cur.last() == wn);
                    assert(word_table_from(ts_cur) == word_insert(word_table_from(ts_pre), wn));
                    assert(r.deep_view() =~= word_insert(word_table_from(ts_pre), wn));
                }
            }
        }
        i = i + 1;
        proof {
            let cur = mdv.take(i as int);
            assert(cur.drop_last() =~= mdv.take(i - 1));
            assert(cur.last() == mdv[i - 1]);
            assert(raw.deep_view().take(raw.deep_view().len() as int) =~= raw.deep_view());
            assert(all_tokens(cur, case_sensitive, restrict, letters_only) == pre_tokens
                + content_tokens(mdv[i - 1].content, case_sensitive, restrict, letters_only));
        }
    }
    proof {
        assert(mdv.take(i as int) =~= mdv);
    }
    r
}

/// Every countable word over a whole sequence is non-empty.
pub proof fn lemma_all_tokens_nonempty(
    m: Seq<MessageView>,
    case_sensitive: bool,
    restrict: bool,
    letters_only: bool,
)
    ensures
        forall|j: int|
            0 <= j < all_tokens(m, case_sensitive, restrict, letters_only).len() ==> #[trigger] all_tokens(
                m,
                case_sensitive,
                restrict,
                letters_only,
            )[j].len() != 0,
    decreases m.len(),
{
    if m.len() > 0 {
        lemma_all_tokens_nonempty(m.drop_last(), case_sensitive, restrict, letters_only);
        lemma_norm_tokens_nonempty(
            split_spaces(m.last().content),
            case_sensitive,
            restrict,
            letters_only,
        );
        let a = all_tokens(m.drop_last(), case_sensitive, restrict, letters_only);
        let b = content_tokens(m.last().content, case_sensitive, restrict, letters_only);
        assert forall|j: int| 0 <= j < (a + b).len() implies #[trigger] (a + b)[j].len() != 0 by {
            if j < a.len() {
                assert((a + b)[j] == a[j]);
            } else {
                assert((a + b)[j] == b[j - a.len()]);
            }
        }
    }
}

/// The word-frequency table of the messages.
///
/// Each message's content is split on the single-space character; every field
/// is optionally stripped to its alphanumeric characters, lowercased unless
/// `case_sensitive`, discarded if the result is empty, and counted. One entry
/// per distinct normalized word, in first-occurrence order; there is never an
/// entry for the empty string.
pub fn word_frequency(
    messages: &Vec<Message>,
    case_sensitive: bool,
    restrict_to_alphanumeric: bool,
) -> (r: Vec<WordTally>)
    requires
        total_fields(messages.deep_view()) <= u32::MAX,
    ensures
        r.deep_view() == freq_table_spec(
            messages.deep_view(),
            case_sensitive,
            restrict_to_alphanumeric,
            false,
        ),
        forall|k: int| 0 <= k < r.deep_view().len() ==> #[trigger] r.deep_view()[k].word.len() != 0,
        forall|i: int, j: int|
            0 <= i < j < r.deep_view().len() ==> #[trigger] r.deep_view()[i].word
                != #[trigger] r.deep_view()[j].word,
        forall|k: int|
            0 <= k < r.deep_view().len() ==> #[trigger] r.deep_view()[k].count == occurrences(
                all_tokens(messages.deep_view(), case_sensitive, restrict_to_alphanumeric, false),
                r.deep_view()[k].word,
            ),
        forall|w: Seq<char>|
            #[trigger] all_tokens(
                messages.deep_view(),
                case_sensitive,
                restrict_to_alphanumeric,
                false,
            ).contains(w) ==> exists|k: int|
                0 <= k < r.deep_view().len() && #[trigger] r.deep_view()[k].word == w,
{
    let r = word_table_core(messages, case_sensitive, restrict_to_alphanumeric, false);
    proof {
        lemma_freq_table_shape(messages.deep_view(), case_sensitive, restrict_to_alphanumeric, false);
    }
    r
}

/// The shape facts of a message sequence's frequency table, in terms of the
/// token sequence it counts.
proof fn lemma_freq_table_shape(
    m: Seq<MessageView>,
    case_sensitive: bool,
    restrict: bool,
    letters_only: bool,
)
    ensures
        forall|k: int|
            0 <= k < freq_table_spec(m, case_sensitive, restrict, letters_only).len()
                ==> #[trigger] freq_table_spec(m, case_sensitive, restrict, letters_only)[k].word.len()
                != 0,
        forall|i: int, j: int|
            0 <= i < j < freq_table_spec(m, case_sensitive, restrict, letters_only).len()
                ==> #[trigger] freq_table_spec(m, case_sensitive, restrict, letters_only)[i].word
                != #[trigger] freq_table_spec(m, case_sensitive, restrict, letters_only)[j].word,
        forall|k: int|
            0 <= k < freq_table_spec(m, case_sensitive, restrict, letters_only).len()
                ==> #[trigger] freq_table_spec(m, case_sensitive, restrict, letters_only)[k].count
                == occurrences(
                all_tokens(m, case_sensitive, restrict, letters_only),
                freq_table_spec(m, case_sensitive, restrict, letters_only)[k].word,
            ),
        forall|w: Seq<char>|
            #[trigger] all_tokens(m, case_sensitive, restrict, letters_only).contains(w) ==> exists|
                k: int,
            |
                0 <= k < freq_table_spec(m, case_sensitive, restrict, letters_only).len()
                    && #[trigger] freq_table_spec(m, case_sensitive, restrict, letters_only)[k].word
                    == w,
{
    let ts = all_tokens(m, case_sensitive, restrict, letters_only);
    lemma_word_table_props(ts);
    lemma_all_tokens_nonempty(m, case_sensitive, restrict, letters_only);
    let t = freq_table_spec(m, case_sensitive, restrict, letters_only);
    assert forall|k: int| 0 <= k < t.len() implies #[trigger] t[k].word.len() != 0 by {
        assert(ts.contains(t[k].word));
        let j = choose|j: int| 0 <= j < ts.len() && ts[j] == t[k].word;
        assert(ts[j].len() != 0);
    }
}

/// The letters-only counting pass behind [`crate::stats::top_words`]: when
/// `restrict` is set, every character that is not a letter is deleted from a
/// field before counting (digits go too, unlike [`word_frequency`]).
pub(crate) fn top_words_table(messages: &Vec<Message>, case_sensitive: bool, restrict: bool) -> (r:
    Vec<WordTally>)
    requires
        total_fields(messages.deep_view()) <= u32::MAX,
    ensures
        r.deep_view() == freq_table_spec(messages.deep_view(), case_sensitive, restrict, true),
        forall|k: int| 0 <= k < r.deep_view().len() ==> #[trigger] r.deep_view()[k].word.len() != 0,
        forall|i: int, j: int|
            0 <= i < j < r.deep_view().len() ==> #[trigger] r.deep_view()[i].word
                != #[trigger] r.deep_view()[j].word,
        forall|k: int|
            0 <= k < r.deep_view().len() ==> #[trigger] r.deep_view()[k].count == occurrences(
                all_tokens(messages.deep_view(), case_sensitive, restrict, true),
                r.deep_view()[k].word,
            ),
        forall|w: Seq<char>|
            #[trigger] all_tokens(messages.deep_view(), case_sensitive, restrict, true).contains(
                w,
            ) ==> exists|k: int|
                0 <= k < r.deep_view().len() && #[trigger] r.deep_view()[k].word == w,
{
    let r = word_table_core(messages, case_sensitive, restrict, true);
    proof {
        lemma_freq_table_shape(messages.deep_view(), case_sensitive, restrict, true);
    }
    r
}

/// The total number of space-separated fields over all message contents.
///
/// This counts fields, not linguistic words: consecutive spaces yield empty
/// fields and each message contributes at least one.
pub fn word_count(messages: &Vec<Message>) -> (r: u32)
    requires
        total_fields(messages.deep_view()) <= u32::MAX,
    ensures
        r as int == total_fields(messages.deep_view()),
{
    let ghost mdv = messages.deep_view();
    let mut total: u32 = 0;
    let mut i: usize = 0;
    while i < messages.len()
        invariant
            i <= mdv.len(),
            mdv == messages.deep_view(),
            total_fields(mdv) <= u32::MAX,
            total as int == total_fields(mdv.take(i as int)),
        decreases mdv.len() - i,
    {
        let content_chars = str_chars(messages[i].content.as_str());
        let fields = split_on_space(&content_chars);
        proof {
            assert(fields.deep_view() == split_spaces(mdv[i as int].content));
            assert(fields@.len() == fields.deep_view().len());
            lemma_total_fields_prefix(mdv, i as int);
            assert(mdv.take(i + 1).drop_last() =~= mdv.take(i as int));
            assert(mdv.take(i + 1).last() == mdv[i as int]);
        }
        let n = fields.len();
        total = total + (n as u32);
        i = i + 1;
    }
    proof {
        assert(mdv.take(i as int) =~= mdv);
    }
    total
}

/// Whether the search term occurs, case-insensitively on the content side,
/// in the message at index `i`.
pub open spec fn matches_at(m: Seq<MessageView>, term: Seq<char>, i: int) -> bool {
    crate::text::is_substring_of(term, lower_of(m[i].content))
}

/// The lower bound of the context window around a match at `i`.
pub open spec fn window_lo(i: int, d: int) -> int {
    if i - d >= 0 {
        i - d
    } else {
        0
    }
}

/// The upper bound (inclusive) of the context window around a match at `i`,
/// for a sequence of length `n`.
pub open spec fn window_hi(i: int, d: int, n: int) -> int {
    if i + d <= n - 1 {
        i + d
    } else {
        n - 1
    }
}

/// The context window around a match at `i`: the messages from `i - d` to
/// `i + d`, clamped independently at both ends to the valid index range.
pub open spec fn window_at(m: Seq<MessageView>, i: int, d: int) -> Seq<MessageView> {
    m.subrange(window_lo(i, d), window_hi(i, d, m.len() as int) + 1)
}

/// The windows of all matches among the first `n` messages, in increasing
/// order of the matching index.
pub open spec fn search_prefix(m: Seq<MessageView>, term: Seq<char>, d: int, n: int) -> Seq<
    Seq<MessageView>,
>
    decreases n,
{
    if n <= 0 {
        Seq::empty()
    } else {
        search_prefix(m, term, d, n - 1) + if matches_at(m, term, n - 1) {
            seq![window_at(m, n - 1, d)]
        } else {
            Seq::empty()
        }
    }
}

/// The search result over a whole message sequence: one context window per
/// matching index, each emitted independently even when windows overlap.
pub open spec fn search_spec(m: Seq<MessageView>, term: Seq<char>, d: int) -> Seq<
    Seq<MessageView>,
> {
    search_prefix(m, term, d, m.len() as int)
}

/// The length of an emitted window: the messages available on the left up to
/// the search distance, those available on the right, and the match itself.
pub proof fn lemma_window_len(m: Seq<MessageView>, i: int, d: int)
    requires
        0 <= i < m.len(),
        0 <= d,
    ensures
        window_at(m, i, d).len() == vstd::math::min(i, d) + vstd::math::min(
            m.len() - 1 - i,
            d,
        ) + 1,
{
}

/// Search all messages for a term, case-insensitively against each message's
/// lowercased content, and emit one context window per match.
///
/// A window spans `search_distance` messages on each side of its match,
/// clamped at the ends of the sequence; windows appear in increasing order of
/// the matching index and are not merged or deduplicated. The operation
/// cannot fail: an empty sequence yields an empty result.
pub fn search_sequenced(
    messages: &Vec<Message>,
    search_term: &str,
    search_distance: usize,
) -> (r: Vec<Vec<Message>>)
    ensures
        r.deep_view() == search_spec(messages.deep_view(), search_term@, search_distance as int),
{
    let ghost mdv = messages.deep_view();
    let term_chars = str_chars(search_term);
    let mut r: Vec<Vec<Message>> = Vec::new();
    let mut i: usize = 0;
    while i < messages.len()
        invariant
            i <= mdv.len(),
            mdv == messages.deep_view(),
            term_chars@ == search_term@,
            r.deep_view() == search_prefix(mdv, search_term@, search_distance as int, i as int),
        decreases mdv.len() - i,
    {
        let lc = lowercase(messages[i].content.as_str());
        let lc_chars = str_chars(lc.as_str());
        let hit = contains_chars(&lc_chars, &term_chars);
        proof {
            assert(mdv[i as int].content == messages@[i as int].content@);
            assert(hit == matches_at(mdv, search_term@, i as int));
        }
        if hit {
            let lo: usize = if search_distance <= i {
                i - search_distance
            } else {
                0
            };
            let n = messages.len();
            let hi: usize = if search_distance <= n - 1 - i {
                i + search_distance
            } else {
                n - 1
            };
            proof {
                assert(lo as int == window_lo(i as int, search_distance as int));
                assert(hi as int == window_hi(i as int, search_distance as int, mdv.len() as int));
            }
            let mut window: Vec<Message> = Vec::new();
            let mut j: usize = lo;
            while j <= hi
                invariant
                    lo <= j <= hi + 1,
                    lo <= hi < mdv.len(),
                    mdv.len() <= usize::MAX,
                    mdv == messages.deep_view(),
                    window@.len() == j - lo,
                    forall|q: int|
                        0 <= q < window@.len() ==> #[trigger] window@[q].deep_view() == mdv[lo + q],
                decreases hi + 1 - j,
            {
                let x = messages[j].deep_clone();
                proof {
                    assert(x.deep_view() == mdv[j as int]);
                }
                window.push(x);
                j = j + 1;
            }
            proof {
                assert(window.deep_view() =~= mdv.subrange(lo as int, hi + 1));
                assert(window.deep_view() == window_at(mdv, i as int, search_distance as int));
            }
            r.push(window);
        }
        i = i + 1;
        proof {
            assert(r.deep_view() =~= search_prefix(
                mdv,
                search_term@,
                search_distance as int,
                i as int,
            ));
        }
    }
    r
}

/// Idempotence of the per-user count: any two results that satisfy the
/// contract of [`message_count_by_user`] on the same unmutated message
/// sequence are equal.
pub proof fn lemma_message_count_by_user_idempotent(
    m: Seq<MessageView>,
    r1: Seq<UserTallyView>,
    r2: Seq<UserTallyView>,
)
    requires
        r1 == count_table_spec(m),
        r2 == count_table_spec(m),
    ensures
        r1 == r2,
{
}

/// Idempotence of distinct-user extraction: any two results that satisfy the
/// contract of [`all_users`] on the same unmutated message sequence are
/// equal.
pub proof fn lemma_all_users_idempotent(m: Seq<MessageView>, r1: Seq<UserView>, r2: Seq<UserView>)
    requires
        r1 == users_spec(m),
        r2 == users_spec(m),
    ensures
        r1 == r2,
{
}

/// Idempotence of word counting: any two frequency tables that satisfy the
/// contract of [`word_frequency`] (or of the letters-only variant) on the
/// same unmutated message sequence and flags are equal.
pub proof fn lemma_word_frequency_idempotent(
    m: Seq<MessageView>,
    case_sensitive: bool,
    restrict: bool,
    letters_only: bool,
    r1: Seq<WordTallyView>,
    r2: Seq<WordTallyView>,
)
    requires
        r1 == freq_table_spec(m, case_sensitive, restrict, letters_only),
        r2 == freq_table_spec(m, case_sensitive, restrict, letters_only),
    ensures
        r1 == r2,
{
}

/// Idempotence of the field total: any two results that satisfy the contract
/// of [`word_count`] on the same unmutated message sequence are equal.
pub proof fn lemma_word_count_idempotent(m: Seq<MessageView>, r1: int, r2: int)
    requires
        r1 == total_fields(m),
        r2 == total_fields(m),
    ensures
        r1 == r2,
{
}

/// Idempotence of the windowed search: any two results that satisfy the
/// contract of [`search_sequenced`] on the same unmutated message sequence,
/// term and distance are equal.
pub proof fn lemma_search_sequenced_idempotent(
    m: Seq<MessageView>,
    term: Seq<char>,
    d: int,
    r1: Seq<Seq<MessageView>>,
    r2: Seq<Seq<MessageView>>,
)
    requires
        r1 == search_spec(m, term, d),
        r2 == search_spec(m, term, d),
    ensures
        r1 == r2,
{
}

} // verus!
