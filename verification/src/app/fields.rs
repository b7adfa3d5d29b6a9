//! The fields that can be shown with each message.
use crate::app::state::{self, AppView};
use crate::text::{self, same};
use vstd::prelude::*;

verus! {

broadcast use text::lemma_views_push;

/// The place of a key among keys.
pub(super) fn key_position(keys: &Vec<String>, key: &str) -> (result: usize)
    ensures
        result == state::key_index(text::views(keys@), key@),
        result <= keys@.len(),
{
    let ghost all = text::views(keys@);
    let mut i: usize = 0;
    assert(all.skip(0) =~= all);
    while i < keys.len()
        invariant
            i <= keys@.len(),
            all == text::views(keys@),
            state::key_index(all, key@) == i + state::key_index(all.skip(i as int), key@),
        decreases keys@.len() - i,
    {
        if same(keys[i].as_str(), key) {
            return i;
        }
        assert(all.skip(i as int).drop_first() =~= all.skip(i + 1));
        i += 1;
    }
    i
}

/// Drops the first occurrence of a key.
pub(super) fn drop_key(keys: &mut Vec<String>, key: &str)
    ensures
        text::views(final(keys)@) == state::key_removed(text::views(old(keys)@), key@),
{
    let ghost before = text::views(keys@);
    let at = key_position(keys, key);
    assert(before.len() == keys@.len());
    if at < keys.len() {
        let _ = keys.remove(at);
        assert(text::views(keys@) =~= before.remove(at as int));
    }
}

/// The keys of a list that are among others.
pub(super) fn copy_among(keys: &Vec<String>, others: &Vec<String>) -> (result: Vec<String>)
    ensures
        text::views(result@) == state::keys_among(text::views(keys@), text::views(others@)),
{
    let ghost all = text::views(keys@);
    let ghost wanted = text::views(others@);
    let mut result: Vec<String> = Vec::new();
    let mut i: usize = 0;
    assert(text::views(result@) =~= all.take(0));
    while i < keys.len()
        invariant
            i <= keys@.len(),
            all == text::views(keys@),
            wanted == text::views(others@),
            text::views(result@) == state::keys_among(all.take(i as int), wanted),
        decreases keys@.len() - i,
    {
        assert(all.take(i + 1).drop_last() =~= all.take(i as int));
        proof {
            lemma_key_index(wanted, all[i as int]);
        }
        assert(wanted.len() == others@.len());
        if key_position(others, keys[i].as_str()) < others.len() {
            result.push(keys[i].clone());
        }
        i += 1;
    }
    assert(all.take(i as int) =~= all);
    result
}

/// A key is found exactly where it is among the keys.
pub proof fn lemma_key_index(keys: Seq<Seq<char>>, key: Seq<char>)
    ensures
        0 <= state::key_index(keys, key) <= keys.len(),
        state::key_index(keys, key) < keys.len() <==> keys.contains(key),
    decreases keys.len(),
{
    if keys.len() > 0 && keys[0] != key {
        lemma_key_index(keys.drop_first(), key);
        if keys.drop_first().contains(key) {
            let i = choose|i: int|
                0 <= i < keys.drop_first().len() && keys.drop_first()[i] == key;
            assert(keys[i + 1] == key);
        }
        if keys.contains(key) {
            let i = choose|i: int| 0 <= i < keys.len() && keys[i] == key;
            assert(keys.drop_first()[i - 1] == key);
        }
    }
}

/// What is taken from a list is in it and among the others.
proof fn lemma_among(keys: Seq<Seq<char>>, others: Seq<Seq<char>>, key: Seq<char>)
    ensures
        state::keys_among(keys, others).contains(key) <==> keys.contains(key) && others.contains(
            key,
        ),
    decreases keys.len(),
{
    if keys.len() > 0 {
        let front = keys.drop_last();
        let taken = state::keys_among(front, others);
        let all = state::keys_among(keys, others);
        lemma_among(front, others, key);
        assert(front.contains(key) ==> keys.contains(key)) by {
            if front.contains(key) {
                let i = choose|i: int| 0 <= i < front.len() && front[i] == key;
                assert(keys[i] == key);
            }
        }
        assert(keys.contains(key) ==> front.contains(key) || keys.last() == key) by {
            if keys.contains(key) {
                let i = choose|i: int| 0 <= i < keys.len() && keys[i] == key;
                if i < front.len() {
                    assert(front[i] == key);
                }
            }
        }
        assert(keys.last() == key ==> keys.contains(key)) by {
            assert(keys[keys.len() - 1] == keys.last());
        }
        if others.contains(keys.last()) {
            assert(taken.contains(key) ==> all.contains(key)) by {
                if taken.contains(key) {
                    let i = choose|i: int| 0 <= i < taken.len() && taken[i] == key;
                    assert(all[i] == key);
                }
            }
            assert(all[taken.len() as int] == keys.last());
            assert(all.contains(key) ==> taken.contains(key) || keys.last() == key) by {
                if all.contains(key) {
                    let i = choose|i: int| 0 <= i < all.len() && all[i] == key;
                    if i < taken.len() {
                        assert(taken[i] == key);
                    }
                }
            }
        }
    }
}

/// What is taken from a list depends only on which of its keys are wanted.
proof fn lemma_among_same(keys: Seq<Seq<char>>, left: Seq<Seq<char>>, right: Seq<Seq<char>>)
    requires
        forall|i: int|
            0 <= i < keys.len() ==> left.contains(#[trigger] keys[i]) == right.contains(keys[i]),
    ensures
        state::keys_among(keys, left) == state::keys_among(keys, right),
    decreases keys.len(),
{
    if keys.len() > 0 {
        let front = keys.drop_last();
        assert forall|i: int| 0 <= i < front.len() implies left.contains(#[trigger] front[i])
            == right.contains(front[i]) by {
            assert(front[i] == keys[i]);
        }
        lemma_among_same(front, left, right);
        assert(keys[keys.len() - 1] == keys.last());
    }
}

/// To take all but one key is to take them and drop the one.
proof fn lemma_among_without(
    keys: Seq<Seq<char>>,
    others: Seq<Seq<char>>,
    left: Seq<Seq<char>>,
    key: Seq<char>,
)
    requires
        keys.no_duplicates(),
        forall|other: Seq<char>|
            other != key ==> #[trigger] left.contains(other) == others.contains(other),
        !left.contains(key),
    ensures
        state::key_removed(state::keys_among(keys, others), key) == state::keys_among(keys, left),
    decreases keys.len(),
{
    if keys.len() > 0 {
        let front = keys.drop_last();
        let last = keys.last();
        lemma_among_without(front, others, left, key);
        let taken = state::keys_among(front, others);
        let all = state::keys_among(keys, others);
        lemma_key_index(taken, key);
        lemma_key_index(all, key);
        lemma_among(front, others, key);
        if others.contains(last) {
            lemma_key_index_push(taken, last, key);
            let i = state::key_index(taken, key);
            if last == key {
                assert(!front.contains(key)) by {
                    if front.contains(key) {
                        let k = choose|k: int| 0 <= k < front.len() && front[k] == key;
                        assert(keys[k] == keys[keys.len() - 1]);
                    }
                }
                assert(all.remove(i) =~= taken);
            } else if i < taken.len() {
                assert(all.remove(i) =~= taken.remove(i).push(last));
            }
        } else if last == key {
            assert(!left.contains(last));
        }
    }
}

proof fn lemma_key_index_push(keys: Seq<Seq<char>>, last: Seq<char>, key: Seq<char>)
    ensures
        state::key_index(keys.push(last), key) == if state::key_index(keys, key) < keys.len() {
            state::key_index(keys, key)
        } else if last == key {
            keys.len() as int
        } else {
            keys.len() as int + 1
        },
    decreases keys.len(),
{
    lemma_key_index(keys, key);
    if keys.len() == 0 {
        let rest = keys.push(last).drop_first();
        assert(rest.len() == 0);
        assert(state::key_index(rest, key) == 0);
        assert(keys.push(last)[0] == last);
    } else if keys[0] != key {
        lemma_key_index(keys.drop_first(), key);
        assert(keys.push(last)[0] == keys[0]);
        assert(keys.push(last).drop_first() =~= keys.drop_first().push(last));
        lemma_key_index_push(keys.drop_first(), last, key);
    }
}

/// A list without a key holds the others, and no key twice.
proof fn lemma_key_removed(keys: Seq<Seq<char>>, key: Seq<char>)
    requires
        keys.no_duplicates(),
    ensures
        state::key_removed(keys, key).no_duplicates(),
        !state::key_removed(keys, key).contains(key),
        forall|other: Seq<char>|
            other != key ==> #[trigger] state::key_removed(keys, key).contains(other)
                == keys.contains(other),
{
    let left = state::key_removed(keys, key);
    let i = state::key_index(keys, key);
    lemma_key_index(keys, key);
    if i < keys.len() {
        lemma_key_at(keys, key);
        assert forall|k: int| 0 <= k < left.len() implies #[trigger] left[k] == keys[if k < i {
            k
        } else {
            k + 1
        }] by {}
        assert forall|other: Seq<char>| other != key implies #[trigger] left.contains(other)
            == keys.contains(other) by {
            if keys.contains(other) {
                let k = choose|k: int| 0 <= k < keys.len() && keys[k] == other;
                assert(left[if k < i {
                    k
                } else {
                    k - 1
                }] == other);
            }
        }
    }
}

proof fn lemma_key_at(keys: Seq<Seq<char>>, key: Seq<char>)
    requires
        state::key_index(keys, key) < keys.len(),
    ensures
        keys[state::key_index(keys, key)] == key,
    decreases keys.len(),
{
    lemma_key_index(keys, key);
    if keys[0] != key {
        lemma_key_index(keys.drop_first(), key);
        lemma_key_at(keys.drop_first(), key);
    }
}

/// Keys that are taken from a list without doubles are without doubles.
proof fn lemma_among_unique(keys: Seq<Seq<char>>, others: Seq<Seq<char>>)
    requires
        keys.no_duplicates(),
    ensures
        state::keys_among(keys, others).no_duplicates(),
    decreases keys.len(),
{
    if keys.len() > 0 {
        let front = keys.drop_last();
        lemma_among_unique(front, others);
        lemma_among(front, others, keys.last());
        if front.contains(keys.last()) {
            let k = choose|k: int| 0 <= k < front.len() && front[k] == keys.last();
            assert(keys[k] == keys[keys.len() - 1]);
        }
    }
}

/// Showing one more field keeps the shown fields listed.
proof fn lemma_field_shown(app: AppView, key: Seq<char>)
    requires
        app.fields_listed(),
    ensures
        (AppView { field_keys: app.with_field(key), ..app }).fields_listed(),
{
    let wanted = app.field_keys.push(key);
    let shown = app.with_field(key);
    assert forall|i: int| 0 <= i < app.field_rows.len() implies wanted.contains(
        #[trigger] app.field_rows[i],
    ) == shown.contains(app.field_rows[i]) by {
        lemma_among(app.field_rows, wanted, app.field_rows[i]);
    }
    lemma_among_same(app.field_rows, wanted, shown);
}

/// Adding a field keeps the shown fields listed.
pub proof fn lemma_field_added(app: AppView, key: Seq<char>)
    requires
        app.fields_listed(),
    ensures
        app.field_rows.contains(key) ==> (AppView {
            field_keys: app.with_field(key),
            ..app
        }).fields_listed(),
        !app.field_rows.contains(key) ==> (AppView {
            field_rows: app.field_rows.push(key),
            field_keys: app.field_keys.push(key),
            ..app
        }).fields_listed(),
{
    lemma_field_shown(app, key);
    if !app.field_rows.contains(key) {
        let rows = app.field_rows.push(key);
        let keys = app.field_keys.push(key);
        assert(rows.drop_last() =~= app.field_rows);
        assert(keys[app.field_keys.len() as int] == key);
        assert forall|i: int| 0 <= i < app.field_rows.len() implies keys.contains(
            #[trigger] app.field_rows[i],
        ) == app.field_keys.contains(app.field_rows[i]) by {
            let row = app.field_rows[i];
            if app.field_keys.contains(row) {
                let k = choose|k: int| 0 <= k < app.field_keys.len() && app.field_keys[k] == row;
                assert(keys[k] == row);
            }
            if keys.contains(row) {
                let k = choose|k: int| 0 <= k < keys.len() && keys[k] == row;
                assert(app.field_rows.contains(row));
                assert(app.field_keys[k] == row);
            }
        }
        lemma_among_same(app.field_rows, keys, app.field_keys);
        assert forall|i: int, j: int|
            0 <= i < rows.len() && 0 <= j < rows.len() && i != j implies rows[i] != rows[j] by {
            if i < app.field_rows.len() {
                assert(app.field_rows.contains(app.field_rows[i]));
            }
            if j < app.field_rows.len() {
                assert(app.field_rows.contains(app.field_rows[j]));
            }
        }
    }
}

proof fn lemma_field_hidden(app: AppView, key: Seq<char>)
    requires
        app.fields_listed(),
    ensures
        (AppView { field_keys: state::key_removed(app.field_keys, key), ..app }).fields_listed(),
{
    let left = state::key_removed(app.field_keys, key);
    lemma_among_unique(app.field_rows, app.field_keys);
    lemma_key_removed(app.field_keys, key);
    lemma_among_without(app.field_rows, app.field_keys, left, key);
}

/// Deleting a field keeps the shown fields listed.
pub proof fn lemma_field_deleted(app: AppView, key: Seq<char>)
    requires
        app.fields_listed(),
    ensures
        (AppView {
            field_rows: state::key_removed(app.field_rows, key),
            field_keys: state::key_removed(app.field_keys, key),
            ..app
        }).fields_listed(),
{
    let left = state::key_removed(app.field_keys, key);
    lemma_field_hidden(app, key);
    lemma_key_removed(app.field_rows, key);
    lemma_among_unique(app.field_rows, app.field_keys);
    lemma_key_removed(app.field_keys, key);
    lemma_among_of_removed(app.field_rows, left, key);
}

/// A key that is not wanted may leave the list.
proof fn lemma_among_of_removed(keys: Seq<Seq<char>>, others: Seq<Seq<char>>, key: Seq<char>)
    requires
        !others.contains(key),
    ensures
        state::keys_among(state::key_removed(keys, key), others) == state::keys_among(
            keys,
            others,
        ),
    decreases keys.len(),
{
    if keys.len() > 0 {
        let front = keys.drop_last();
        let last = keys.last();
        assert(front.push(last) =~= keys);
        lemma_among_of_removed(front, others, key);
        lemma_key_index(front, key);
        lemma_key_index_push(front, last, key);
        let i = state::key_index(front, key);
        if i < front.len() {
            assert(keys.remove(i).drop_last() =~= front.remove(i));
            assert(keys.remove(i).last() == last);
        } else if last == key {
            assert(keys.remove(i) =~= front);
        }
    }
}

/// Showing a field, or not, keeps the shown fields listed.
pub proof fn lemma_field_toggled(app: AppView, key: Seq<char>)
    requires
        app.fields_listed(),
    ensures
        (AppView { field_keys: state::key_removed(app.field_keys, key), ..app }).fields_listed(),
        (AppView { field_keys: app.with_field(key), ..app }).fields_listed(),
{
    lemma_field_hidden(app, key);
    lemma_field_shown(app, key);
}

/// To show a field or not changes nothing else: taking a field out and putting
/// it back, at its place, leaves everything as it was.
pub proof fn law_toggling_a_field_twice_changes_nothing(app: AppView)
    requires
        app.valid(),
    ensures
        app.field_toggled().field_toggled() == app,
{
    match app.selected_field() {
        None => {},
        Some(key) => {
            let rows = app.field_rows;
            let keys = app.field_keys;
            let once = app.field_toggled();
            lemma_field_toggled(app, key);
            lemma_among_unique(rows, keys);
            lemma_key_removed(keys, key);
            lemma_listed(app, key);
            if keys.contains(key) {
                let back = once.field_keys.push(key);
                assert forall|i: int| 0 <= i < rows.len() implies back.contains(
                    #[trigger] rows[i],
                ) == keys.contains(rows[i]) by {
                    lemma_contains_push(once.field_keys, key, rows[i]);
                }
                lemma_among_same(rows, back, keys);
            } else {
                let wanted = keys.push(key);
                assert forall|other: Seq<char>| other != key implies #[trigger] keys.contains(
                    other,
                ) == wanted.contains(other) by {
                    lemma_contains_push(keys, key, other);
                }
                lemma_contains_push(keys, key, key);
                lemma_among(rows, wanted, key);
                lemma_among_without(rows, wanted, keys, key);
            }
        },
    }
}

proof fn lemma_contains_push(keys: Seq<Seq<char>>, last: Seq<char>, key: Seq<char>)
    ensures
        keys.push(last).contains(key) <==> keys.contains(key) || last == key,
{
    let all = keys.push(last);
    if keys.contains(key) {
        let k = choose|k: int| 0 <= k < keys.len() && keys[k] == key;
        assert(all[k] == key);
    }
    assert(all[keys.len() as int] == last);
    if all.contains(key) {
        let k = choose|k: int| 0 <= k < all.len() && all[k] == key;
        if k < keys.len() {
            assert(keys[k] == key);
        }
    }
}

proof fn lemma_listed(app: AppView, key: Seq<char>)
    requires
        app.selected_field() == Some(key),
    ensures
        app.field_rows.contains(key),
{
    let query = text::trim(app.message_fields.query);
    lemma_matching_listed(app.field_rows, query, app.message_fields.selected);
}

proof fn lemma_matching_listed(keys: Seq<Seq<char>>, query: Seq<char>, i: int)
    requires
        0 <= i < state::keys_matching(keys, query).len(),
    ensures
        keys.contains(state::keys_matching(keys, query)[i]),
    decreases keys.len(),
{
    let found = state::keys_matching(keys, query);
    let front = keys.drop_last();
    if i < state::keys_matching(front, query).len() {
        lemma_matching_listed(front, query, i);
        let k = choose|k: int| 0 <= k < front.len() && front[k] == found[i];
        assert(keys[k] == found[i]);
    } else {
        assert(keys[keys.len() - 1] == found[i]);
    }
}

} // verus!
