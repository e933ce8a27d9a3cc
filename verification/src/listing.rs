//! Lists in the order of their keys.

use vstd::prelude::*;
use vstd::utf8::{encode_utf8, encode_utf8_decode_utf8};

use crate::ids::RunId;
use crate::model::Keyed;
use crate::table::Table;

verus! {

/// Whether one text of bytes comes before another: at the first byte in which they differ, or by
/// being a part of it.
pub open spec fn bytes_before(left: Seq<u8>, right: Seq<u8>) -> bool
    decreases left.len(),
{
    if right.len() == 0 {
        false
    } else if left.len() == 0 {
        true
    } else if left[0] != right[0] {
        left[0] < right[0]
    } else {
        bytes_before(left.skip(1), right.skip(1))
    }
}

/// Whether one text comes before another, in the order of their bytes.
pub open spec fn text_before(left: Seq<char>, right: Seq<char>) -> bool {
    bytes_before(encode_utf8(left), encode_utf8(right))
}

proof fn bytes_before_transitive(a: Seq<u8>, b: Seq<u8>, c: Seq<u8>)
    requires
        bytes_before(a, b),
        bytes_before(b, c),
    ensures
        bytes_before(a, c),
    decreases a.len(),
{
    if a.len() > 0 && a[0] == b[0] && b[0] == c[0] {
        bytes_before_transitive(a.skip(1), b.skip(1), c.skip(1));
    }
}

proof fn bytes_before_total(a: Seq<u8>, b: Seq<u8>)
    ensures
        a == b || bytes_before(a, b) || bytes_before(b, a),
        !(bytes_before(a, b) && bytes_before(b, a)),
        a == b ==> !bytes_before(a, b),
    decreases a.len(),
{
    if a.len() > 0 && b.len() > 0 && a[0] == b[0] {
        bytes_before_total(a.skip(1), b.skip(1));
        if a.skip(1) == b.skip(1) {
            assert forall|i: int| 0 <= i < a.len() implies a[i] == b[i] by {
                if i > 0 {
                    assert(a.skip(1)[i - 1] == a[i]);
                    assert(b.skip(1)[i - 1] == b[i]);
                }
            }
            assert(a.skip(1).len() == b.skip(1).len());
            assert(a =~= b);
        }
    } else if a.len() == 0 && b.len() == 0 {
        assert(a =~= b);
    }
}

/// The order of texts is transitive.
pub proof fn text_before_transitive(a: Seq<char>, b: Seq<char>, c: Seq<char>)
    requires
        text_before(a, b),
        text_before(b, c),
    ensures
        text_before(a, c),
{
    bytes_before_transitive(encode_utf8(a), encode_utf8(b), encode_utf8(c));
}

/// Of two different texts exactly one comes before the other.
pub proof fn text_before_total(a: Seq<char>, b: Seq<char>)
    ensures
        a == b || text_before(a, b) || text_before(b, a),
        !(text_before(a, b) && text_before(b, a)),
        !text_before(a, a),
{
    bytes_before_total(encode_utf8(a), encode_utf8(b));
    bytes_before_total(encode_utf8(a), encode_utf8(a));
    encode_utf8_decode_utf8(a);
    encode_utf8_decode_utf8(b);
}

/// Whether one text comes before another.
pub fn comes_before(left: &str, right: &str) -> (before: bool)
    ensures
        before == text_before(left@, right@),
{
    let a = left.as_bytes();
    let b = right.as_bytes();
    let mut i: usize = 0;
    assert(a@.skip(0) =~= a@);
    assert(b@.skip(0) =~= b@);
    while i < a.len() && i < b.len()
        invariant
            a@ == encode_utf8(left@),
            b@ == encode_utf8(right@),
            i <= a@.len(),
            i <= b@.len(),
            bytes_before(a@, b@) == bytes_before(a@.skip(i as int), b@.skip(i as int)),
        decreases a@.len() - i,
    {
        assert(a@.skip(i as int)[0] == a@[i as int]);
        assert(b@.skip(i as int)[0] == b@[i as int]);
        assert(a@.skip(i as int).skip(1) =~= a@.skip(i + 1));
        assert(b@.skip(i as int).skip(1) =~= b@.skip(i + 1));
        if a[i] != b[i] {
            return a[i] < b[i];
        }
        i = i + 1;
    }
    i < b.len()
}

/// Texts in order, each once.
pub open spec fn ordered(keys: Seq<Seq<char>>) -> bool {
    forall|i: int, j: int|
        0 <= i < j < keys.len() ==> text_before(#[trigger] keys[i], #[trigger] keys[j])
}

/// Whether these are the keys of a run, in order.
pub open spec fn lists_keys<T>(keys: Seq<Seq<char>>, all: Keyed<T>, run: Seq<char>) -> bool {
    &&& ordered(keys)
    &&& forall|key: Seq<char>| #[trigger] keys.contains(key) <==> all.contains_key((run, key))
}

/// The keys of a run, in order.
pub open spec fn keys_of<T>(all: Keyed<T>, run: Seq<char>) -> Seq<Seq<char>> {
    choose|keys: Seq<Seq<char>>| lists_keys(keys, all, run)
}

/// The values of a run in the order of their keys, at most `limit`.
pub open spec fn first_of<T>(all: Keyed<T>, run: Seq<char>, limit: nat) -> Seq<T> {
    let keys = keys_of(all, run);
    Seq::new(
        if keys.len() > limit {
            limit
        } else {
            keys.len()
        },
        |i: int| all[(run, keys[i])],
    )
}

/// There is one way to put texts in order.
pub proof fn ordered_unique(a: Seq<Seq<char>>, b: Seq<Seq<char>>)
    requires
        ordered(a),
        ordered(b),
        forall|key: Seq<char>|
            #![trigger a.contains(key)]
            #![trigger b.contains(key)]
            a.contains(key) <==> b.contains(key),
    ensures
        a == b,
    decreases a.len(),
{
    if a.len() == 0 {
        if b.len() > 0 {
            assert(b.contains(b[0]));
        }
        assert(a =~= b);
    } else {
        assert(a.contains(a.last()));
        assert(b.len() > 0);
        assert(b.contains(b.last()));
        let i = b.index_of(a.last());
        let j = a.index_of(b.last());
        assert(b[i] == a.last());
        assert(a[j] == b.last());
        text_before_total(a.last(), b.last());
        if a.last() != b.last() {
            assert(text_before(b[i], b[b.len() - 1]));
            assert(text_before(a[j], a[a.len() - 1]));
        }
        let front_a = a.drop_last();
        let front_b = b.drop_last();
        assert forall|key: Seq<char>|
            #![trigger front_a.contains(key)]
            #![trigger front_b.contains(key)]
            front_a.contains(key) <==> front_b.contains(key) by {
            lemma_front(a, key);
            lemma_front(b, key);
        }
        ordered_unique(front_a, front_b);
        assert(a =~= front_a.push(a.last()));
        assert(b =~= front_b.push(b.last()));
    }
}

proof fn lemma_front(keys: Seq<Seq<char>>, key: Seq<char>)
    requires
        ordered(keys),
        keys.len() > 0,
    ensures
        keys.drop_last().contains(key) <==> keys.contains(key) && key != keys.last(),
{
    if keys.drop_last().contains(key) {
        let i = keys.drop_last().index_of(key);
        assert(keys[i] == key);
        text_before_total(key, keys.last());
        assert(text_before(keys[i], keys[keys.len() - 1]));
    }
    if keys.contains(key) && key != keys.last() {
        let i = keys.index_of(key);
        assert(keys.drop_last()[i] == key);
    }
}

/// The keys at some places of a table.
pub open spec fn keys_at(order: Seq<(Seq<char>, Seq<char>)>, places: Seq<usize>) -> Seq<Seq<char>> {
    Seq::new(places.len(), |i: int| order[places[i] as int].1)
}

/// Where the values of a run are in a table, in the order of their keys.
pub fn places_of<T: View>(table: &Table<(RunId, String), T>, run_id: &RunId) -> (places: Vec<usize>)
    requires
        table.wf(),
    ensures
        forall|i: int|
            0 <= i < places@.len() ==> (#[trigger] places@[i]) < table.keys().len()
                && table.keys()[places@[i] as int].0 == run_id@,
        keys_at(table.keys(), places@) == keys_of(table@, run_id@),
{
    let mut places: Vec<usize> = Vec::new();
    let ghost order = table.keys();
    let mut n: usize = 0;
    while n < table.len()
        invariant
            table.wf(),
            order == table.keys(),
            n <= order.len(),
            forall|i: int|
                0 <= i < places@.len() ==> (#[trigger] places@[i]) < n
                    && order[places@[i] as int].0 == run_id@,
            ordered(keys_at(order, places@)),
            forall|k: int|
                0 <= k < n && (#[trigger] order[k]).0 == run_id@ ==> keys_at(
                    order,
                    places@,
                ).contains(order[k].1),
        decreases order.len() - n,
    {
        let key = table.key_at(n);
        proof {
            table.lemma_keys();
        }
        if key.0 == *run_id {
            let mut at: usize = 0;
            while at < places.len() && comes_before(
                table.key_at(places[at]).1.as_str(),
                key.1.as_str(),
            )
                invariant
                    table.wf(),
                    order == table.keys(),
                    n < order.len(),
                    key@ == order[n as int],
                    at <= places@.len(),
                    forall|i: int| 0 <= i < places@.len() ==> (#[trigger] places@[i]) < n,
                    forall|i: int|
                        0 <= i < at ==> text_before(
                            #[trigger] keys_at(order, places@)[i],
                            key@.1,
                        ),
                decreases places@.len() - at,
            {
                at = at + 1;
            }
            let ghost before = places@;
            proof {
                lemma_insert(order, before, at as int, n);
            }
            places.insert(at, n);
            proof {
                assert forall|k: int| 0 <= k < n + 1 && (#[trigger] order[k]).0
                    == run_id@ implies keys_at(order, places@).contains(order[k].1) by {
                    if k < n {
                        assert(keys_at(order, before).contains(order[k].1));
                        let i = keys_at(order, before).index_of(order[k].1);
                        assert(keys_at(order, before)[i] == order[k].1);
                        let j = if i < at {
                            i
                        } else {
                            i + 1
                        };
                        assert(keys_at(order, places@)[j] == order[k].1);
                    } else {
                        assert(keys_at(order, places@)[at as int] == order[k].1);
                    }
                }
                assert forall|i: int| 0 <= i < places@.len() implies (#[trigger] places@[i]) < n + 1
                    && order[places@[i] as int].0 == run_id@ by {
                    if i < at {
                        assert(places@[i] == before[i]);
                    } else if i > at {
                        assert(places@[i] == before[i - 1]);
                    }
                }
            }
        }
        n = n + 1;
    }
    proof {
        table.lemma_keys();
        let keys = keys_at(order, places@);
        assert forall|key: Seq<char>| #[trigger] keys.contains(key) <==> table@.contains_key(
            (run_id@, key),
        ) by {
            if keys.contains(key) {
                let i = keys.index_of(key);
                assert(keys[i] == key);
                assert(order[places@[i] as int] == (run_id@, key));
                assert(order.contains((run_id@, key)));
            }
            if table@.contains_key((run_id@, key)) {
                assert(order.contains((run_id@, key)));
                let k = order.index_of((run_id@, key));
                assert(order[k] == (run_id@, key));
                assert(order[k].0 == run_id@);
            }
        }
        assert(lists_keys(keys, table@, run_id@));
        ordered_unique(keys, keys_of(table@, run_id@));
    }
    places
}

/// Putting a place behind all smaller keys keeps the keys in order.
proof fn lemma_insert(
    order: Seq<(Seq<char>, Seq<char>)>,
    places: Seq<usize>,
    at: int,
    n: usize,
)
    requires
        order.no_duplicates(),
        n < order.len(),
        0 <= at <= places.len(),
        ordered(keys_at(order, places)),
        forall|i: int|
            0 <= i < places.len() ==> (#[trigger] places[i]) < n && order[places[i] as int].0
                == order[n as int].0,
        forall|i: int|
            0 <= i < at ==> text_before(#[trigger] keys_at(order, places)[i], order[n as int].1),
        at < places.len() ==> !text_before(keys_at(order, places)[at], order[n as int].1),
    ensures
        ordered(keys_at(order, places.insert(at, n))),
{
    let keys = keys_at(order, places);
    let new = order[n as int].1;
    assert forall|i: int| at <= i < places.len() implies text_before(new, #[trigger] keys[i]) by {
        text_before_total(new, keys[at]);
        if new == keys[at] {
            assert(order[places[at] as int] == order[n as int]);
        }
        if i > at {
            text_before_transitive(new, keys[at], keys[i]);
        }
    }
    let next = keys_at(order, places.insert(at, n));
    assert forall|i: int, j: int| 0 <= i < j < next.len() implies text_before(
        #[trigger] next[i],
        #[trigger] next[j],
    ) by {
        let a = if i < at {
            i
        } else {
            i - 1
        };
        let b = if j < at {
            j
        } else {
            j - 1
        };
        if i != at {
            assert(next[i] == keys[a]);
        }
        if j != at {
            assert(next[j] == keys[b]);
        }
    }
}

} // verus!
