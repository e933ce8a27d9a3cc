//! What the text of JSON values holds.

use vstd::prelude::*;

use crate::json::{array_text, escaped, joined, pair_text, quoted_json};

verus! {

/// Where an item begins in the text of an array: behind the bracket, and the items before it with a
/// comma each.
pub open spec fn start_of(items: Seq<Seq<char>>, i: int) -> int
    decreases i,
{
    if i <= 0 {
        1
    } else {
        start_of(items, i - 1) + items[i - 1].len() + 1
    }
}

/// Whether a text holds items between brackets, in order and with a comma between each two.
pub open spec fn is_array(text: Seq<char>, items: Seq<Seq<char>>) -> bool {
    &&& text.len() == if items.len() == 0 {
        2
    } else {
        start_of(items, items.len() as int)
    }
    &&& text[0] == '['
    &&& text.last() == ']'
    &&& forall|i: int|
        0 <= i < items.len() ==> 1 <= start_of(items, i) && start_of(items, i) + items[i].len()
            < text.len() && #[trigger] items[i] == text.subrange(
            start_of(items, i),
            start_of(items, i) + items[i].len(),
        )
    &&& forall|i: int|
        0 < i < items.len() ==> 0 <= start_of(items, i) - 1 < text.len() && text[#[trigger] start_of(
            items,
            i,
        ) - 1] == ','
}

/// Whether a character stands for itself in a JSON string.
pub open spec fn plain_char(c: char) -> bool {
    c != '"' && c != '\\' && 32 <= c as int
}

proof fn lemma_start_of(items: Seq<Seq<char>>, i: int)
    requires
        0 <= i < items.len(),
    ensures
        start_of(items.drop_last(), i) == start_of(items, i),
        start_of(items, i) >= 1,
    decreases i,
{
    if i > 0 {
        lemma_start_of(items, i - 1);
    }
}

proof fn lemma_joined_parts(items: Seq<Seq<char>>)
    requires
        items.len() > 0,
    ensures
        joined(items).len() == start_of(items, items.len() as int) - 2,
        forall|i: int|
            0 <= i < items.len() ==> 1 <= start_of(items, i) && start_of(items, i) - 1
                + items[i].len() <= joined(items).len() && #[trigger] items[i]
                == joined(items).subrange(
                start_of(items, i) - 1,
                start_of(items, i) - 1 + items[i].len(),
            ),
        forall|i: int|
            0 < i < items.len() ==> 0 <= start_of(items, i) - 2 < joined(items).len() && joined(
                items,
            )[#[trigger] start_of(items, i) - 2] == ',',
    decreases items.len(),
{
    reveal_strlit(",");
    let n = items.len() as int;
    let all = joined(items);
    assert(start_of(items, n) == start_of(items, n - 1) + items[n - 1].len() + 1);
    if n == 1 {
        assert(start_of(items, 0) == 1);
        assert(items[0] =~= all.subrange(0, items[0].len() as int));
    } else {
        let some = items.drop_last();
        lemma_joined_parts(some);
        lemma_start_of(items, n - 1);
        assert(all == joined(some) + ","@ + items.last());
        let last = start_of(items, n - 1);
        assert(joined(some).len() == last - 2);
        assert forall|i: int| 0 <= i < n implies 1 <= start_of(items, i) && start_of(items, i) - 1
            + items[i].len() <= all.len() && #[trigger] items[i] == all.subrange(
            start_of(items, i) - 1,
            start_of(items, i) - 1 + items[i].len(),
        ) by {
            lemma_start_of(items, i);
            if i < n - 1 {
                assert(items[i] == some[i]);
                assert(joined(some).subrange(
                    start_of(items, i) - 1,
                    start_of(items, i) - 1 + items[i].len(),
                ) =~= all.subrange(start_of(items, i) - 1, start_of(items, i) - 1 + items[i].len()));
            } else {
                assert(items[i] =~= all.subrange(last - 1, last - 1 + items[i].len()));
            }
        }
        assert forall|i: int| 0 < i < n implies 0 <= start_of(items, i) - 2 < all.len()
            && all[#[trigger] start_of(items, i) - 2] == ',' by {
            lemma_start_of(items, i);
            if i < n - 1 {
                assert(joined(some)[start_of(some, i) - 2] == ',');
            }
        }
    }
}

/// The text of an array holds its items, in order.
pub proof fn arrays_hold_their_items(items: Seq<Seq<char>>)
    ensures
        is_array(array_text(items), items),
{
    reveal_strlit("[");
    reveal_strlit("]");
    let text = array_text(items);
    if items.len() > 0 {
        lemma_joined_parts(items);
        assert forall|i: int| 0 <= i < items.len() implies 1 <= start_of(items, i) && start_of(
            items,
            i,
        ) + items[i].len() < text.len() && #[trigger] items[i] == text.subrange(
            start_of(items, i),
            start_of(items, i) + items[i].len(),
        ) by {
            assert(items[i] == joined(items).subrange(
                start_of(items, i) - 1,
                start_of(items, i) - 1 + items[i].len(),
            ));
            assert(items[i] =~= text.subrange(
                start_of(items, i),
                start_of(items, i) + items[i].len(),
            ));
        }
        assert forall|i: int| 0 < i < items.len() implies 0 <= start_of(items, i) - 1 < text.len()
            && text[#[trigger] start_of(items, i) - 1] == ',' by {
            assert(joined(items)[start_of(items, i) - 2] == ',');
        }
    }
}

/// A text of plain characters stands in quotes as it is.
pub proof fn plain_texts_are_quoted_as_they_are(text: Seq<char>)
    requires
        forall|i: int| 0 <= i < text.len() ==> plain_char(#[trigger] text[i]),
    ensures
        quoted_json(text) == seq!['"'] + text + seq!['"'],
{
    lemma_plain(text);
}

proof fn lemma_plain(text: Seq<char>)
    requires
        forall|i: int| 0 <= i < text.len() ==> plain_char(#[trigger] text[i]),
    ensures
        text.flat_map(|c: char| escaped(c)) == text,
    decreases text.len(),
{
    let f = |c: char| escaped(c);
    if text.len() == 0 {
        assert(text.flat_map(f) =~= text);
    } else {
        let some = text.drop_last();
        lemma_plain(some);
        some.lemma_flat_map_push(f, text.last());
        assert(some.push(text.last()) =~= text);
        assert(plain_char(text[text.len() - 1]));
        assert(f(text.last()) =~= seq![text.last()]);
        assert(text.flat_map(f) =~= text);
    }
}

/// A character that is quoted, a backslash or a control character is not written as it is.
pub proof fn other_characters_are_escaped(c: char)
    ensures
        plain_char(c) ==> escaped(c) == seq![c],
        !plain_char(c) ==> escaped(c).len() >= 2 && escaped(c)[0] == '\\',
        c == '"' || c == '\\' ==> escaped(c)[1] == c,
{
}

/// The text of an object of two fields holds both values behind their names.
pub proof fn pairs_hold_both_values(
    first: Seq<char>,
    first_value: Seq<char>,
    second: Seq<char>,
    second_value: Seq<char>,
)
    ensures
        ({
            let text = pair_text(first, first_value, second, second_value);
            let a = 1 + quoted_json(first).len() as int;
            let b = a + 1 + first_value.len() as int;
            let c = b + 1 + quoted_json(second).len() as int;
            let d = c + 1 + second_value.len() as int;
            &&& text.len() == d + 1
            &&& text[0] == '{' && text[a] == ':' && text[b] == ',' && text[c] == ':' && text[d]
                == '}'
            &&& text.subrange(1, a) == quoted_json(first)
            &&& text.subrange(a + 1, b) == first_value
            &&& text.subrange(b + 1, c) == quoted_json(second)
            &&& text.subrange(c + 1, d) == second_value
        }),
{
    reveal_strlit("{");
    reveal_strlit(":");
    reveal_strlit(",");
    reveal_strlit("}");
    let text = pair_text(first, first_value, second, second_value);
    let a = 1 + quoted_json(first).len() as int;
    let b = a + 1 + first_value.len() as int;
    let c = b + 1 + quoted_json(second).len() as int;
    let d = c + 1 + second_value.len() as int;
    assert(text.subrange(1, a) =~= quoted_json(first));
    assert(text.subrange(a + 1, b) =~= first_value);
    assert(text.subrange(b + 1, c) =~= quoted_json(second));
    assert(text.subrange(c + 1, d) =~= second_value);
}

} // verus!
