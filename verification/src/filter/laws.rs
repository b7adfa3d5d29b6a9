//! What conditions are typed and kept for.
use crate::filter::workflow::{
    self, FilterEdit, PresetRowView, PresetView, PropertyRowView, WorkflowView,
};
use crate::filter::{self, FilterView, PredicateView, PropertyFilterId, UpdateView};
use crate::model::{self, EventView, Level, PropertyView};
use crate::text;
use crate::text::laws as texts;
use crate::text::laws::{is_blank, is_tight};
use vstd::prelude::*;

verus! {

// ---------------------------------------------------------------------------
// Typed conditions
// ---------------------------------------------------------------------------

/// Whether a text holds no `!=`.
pub open spec fn is_plain(s: Seq<char>) -> bool {
    forall|i: int| 0 <= i < s.len() - 1 ==> !(#[trigger] s[i] == '!' && s[i + 1] == '=')
}

/// Whether a value stands between quotation marks of one kind.
pub open spec fn is_quoted(value: Seq<char>) -> bool {
    value.len() >= 2 && (value[0] == '"' && value.last() == '"' || value[0] == '\'' && value.last()
        == '\'')
}

/// Whether a text can be typed as a key.
pub open spec fn is_key(key: Seq<char>) -> bool {
    is_tight(key) && !key.contains('=') && !key.contains('!')
}

/// What is typed as `key=value` is the condition that the key shows the value. It
/// keeps out what it describes where it is typed to keep events out, and lets it
/// in where it is typed to let events in. White space round the key and the value
/// makes no difference, and one pair of quotation marks round the value is no part
/// of it.
pub proof fn law_equals_types_a_value(
    key: Seq<char>,
    gap: Seq<char>,
    value: Seq<char>,
    default_exclude: bool,
)
    requires
        is_key(key),
        is_blank(gap),
        is_tight(value),
        is_plain(value),
    ensures
        filter::typed_update(key + gap + seq!['='] + (gap + value), default_exclude) == Some(
            UpdateView {
                exclude: default_exclude,
                predicate: PredicateView {
                    key,
                    value: Some(
                        if is_quoted(value) {
                            value.subrange(1, value.len() - 1)
                        } else {
                            value
                        },
                    ),
                },
            },
        ),
{
    let head = key + gap;
    let tail = gap + value;
    let s = head + seq!['='] + tail;
    assert(s[0] == key[0] && s.last() == value.last());
    texts::law_trimming_keeps_the_text(Seq::empty(), s, Seq::empty());
    filter::lemma_unequal(s);
    let u = filter::unequal_index(s);
    if u < s.len() {
        assert(s[u] == '!' && s[u + 1] == '=');
        if u < key.len() {
            assert(key[u] == '!');
        } else if u < head.len() {
            assert(text::is_space(gap[u - key.len()]));
        } else if u > head.len() && u < head.len() + 1 + gap.len() {
            assert(text::is_space(gap[u - head.len() - 1]));
        } else if u > head.len() {
            let k = u - head.len() - 1 - gap.len();
            assert(value[k] == '!' && value[k + 1] == '=');
        }
    }
    lemma_no_mark(key, gap, '=');
    texts::law_split_at_the_first_mark(head, tail, '=');
    lemma_typed_exact(key, gap, value, default_exclude);
}

/// What is typed as `key!=value` is the condition that keeps out what shows the
/// value, wherever it is typed.
pub proof fn law_unequal_types_an_exclusion(
    key: Seq<char>,
    gap: Seq<char>,
    value: Seq<char>,
    default_exclude: bool,
)
    requires
        is_key(key),
        is_blank(gap),
        is_tight(value),
    ensures
        filter::typed_update(key + gap + seq!['!', '='] + (gap + value), default_exclude) == Some(
            UpdateView {
                exclude: true,
                predicate: PredicateView {
                    key,
                    value: Some(
                        if is_quoted(value) {
                            value.subrange(1, value.len() - 1)
                        } else {
                            value
                        },
                    ),
                },
            },
        ),
{
    let head = key + gap;
    let tail = gap + value;
    let s = head + seq!['!', '='] + tail;
    assert(s[0] == key[0] && s.last() == value.last());
    texts::law_trimming_keeps_the_text(Seq::empty(), s, Seq::empty());
    filter::lemma_unequal(s);
    let u = filter::unequal_index(s);
    let at = head.len() as int;
    assert(s[at] == '!' && s[at + 1] == '=');
    lemma_unequal_is_first(s, at);
    lemma_no_mark(key, gap, '!');
    if u < at {
        assert(head[u] == '!');
    }
    assert(u == at);
    assert(s.take(at) =~= head);
    assert(s.skip(at + 2) =~= tail);
    lemma_typed_exact(key, gap, value, true);
}

/// What is typed as a key alone is the condition that an event has the property;
/// with `!` before it, that it has not.
pub proof fn law_key_types_a_presence(key: Seq<char>, gap: Seq<char>, default_exclude: bool)
    requires
        is_key(key),
        is_blank(gap),
    ensures
        filter::typed_update(key, default_exclude) == Some(
            UpdateView {
                exclude: default_exclude,
                predicate: PredicateView { key, value: None },
            },
        ),
        filter::typed_update(seq!['!'] + (gap + key), default_exclude) == Some(
            UpdateView { exclude: true, predicate: PredicateView { key, value: None } },
        ),
{
    texts::law_trimming_keeps_the_text(Seq::empty(), key, Seq::empty());
    filter::lemma_unequal(key);
    let u = filter::unequal_index(key);
    if u < key.len() {
        assert(key[u] == '!');
    }
    texts::law_split_at_the_first_mark(key, Seq::empty(), '=');
    assert(key[0] != '!') by {
        if key[0] == '!' {
            assert(key.contains('!'));
        }
    }
    let s = seq!['!'] + (gap + key);
    assert(s[0] == '!' && s.last() == key.last());
    texts::law_trimming_keeps_the_text(Seq::empty(), s, Seq::empty());
    filter::lemma_unequal(s);
    assert(!s.contains('=')) by {
        if s.contains('=') {
            let i = choose|i: int| 0 <= i < s.len() && s[i] == '=';
            if i <= gap.len() {
                assert(text::is_space(gap[i - 1]));
            } else {
                assert(key[i - 1 - gap.len()] == '=');
            }
        }
    }
    let v = filter::unequal_index(s);
    if v < s.len() {
        assert(s[v + 1] == '=');
    }
    texts::law_split_at_the_first_mark(s, Seq::empty(), '=');
    assert(s.drop_first() =~= gap + key);
    texts::law_trimming_keeps_the_text(gap, key, Seq::empty());
    assert(gap + key + Seq::<char>::empty() =~= gap + key);
}

/// What is typed without a key is no condition, and white space round a condition
/// makes no difference to it.
pub proof fn law_nothing_types_nothing(
    pad: Seq<char>,
    s: Seq<char>,
    default_exclude: bool,
)
    requires
        is_blank(pad),
        is_tight(s),
    ensures
        filter::typed_update(pad, default_exclude) is None,
        filter::typed_update(seq!['!'], default_exclude) is None,
        is_plain(s) ==> filter::typed_update(seq!['='] + s, default_exclude) is None,
        filter::typed_update(pad + s + pad, default_exclude) == filter::typed_update(
            s,
            default_exclude,
        ),
{
    texts::law_trimming_keeps_the_text(pad, s, pad);
    texts::law_trimming_keeps_the_text(pad, Seq::empty(), Seq::empty());
    assert(pad + Seq::<char>::empty() + Seq::<char>::empty() =~= pad);
    let bang = seq!['!'];
    texts::law_trimming_keeps_the_text(Seq::empty(), bang, Seq::empty());
    filter::lemma_unequal(bang);
    texts::law_split_at_the_first_mark(bang, Seq::empty(), '=');
    assert(bang.drop_first() =~= Seq::<char>::empty());
    assert(text::trim(Seq::<char>::empty()).len() == 0);
    let t = seq!['='] + s;
    assert(t[0] == '=' && t.last() == s.last());
    texts::law_trimming_keeps_the_text(Seq::empty(), t, Seq::empty());
    filter::lemma_unequal(t);
    let u = filter::unequal_index(t);
    if is_plain(s) && u < t.len() {
        assert(t[u] == '!' && t[u + 1] == '=');
        assert(s[u - 1] == '!' && s[u] == '=');
    }
    texts::law_split_at_the_first_mark(Seq::empty(), s, '=');
    assert(Seq::<char>::empty() + seq!['='] + s =~= t);
}

proof fn lemma_no_mark(key: Seq<char>, gap: Seq<char>, mark: char)
    requires
        !key.contains(mark),
        is_blank(gap),
        !text::is_space(mark),
    ensures
        !(key + gap).contains(mark),
{
    let head = key + gap;
    if head.contains(mark) {
        let i = choose|i: int| 0 <= i < head.len() && head[i] == mark;
        if i < key.len() {
            assert(key[i] == mark);
        } else {
            assert(text::is_space(gap[i - key.len()]));
        }
    }
}

proof fn lemma_typed_exact(key: Seq<char>, gap: Seq<char>, value: Seq<char>, exclude: bool)
    requires
        is_tight(key),
        is_blank(gap),
        is_tight(value),
    ensures
        filter::typed_exact(key + gap, gap + value, exclude) == Some(
            UpdateView {
                exclude,
                predicate: PredicateView {
                    key,
                    value: Some(
                        if is_quoted(value) {
                            value.subrange(1, value.len() - 1)
                        } else {
                            value
                        },
                    ),
                },
            },
        ),
{
    texts::law_trimming_keeps_the_text(Seq::empty(), key, gap);
    texts::law_trimming_keeps_the_text(gap, value, Seq::empty());
    texts::law_trimming_keeps_the_text(Seq::empty(), value, Seq::empty());
    assert(Seq::<char>::empty() + key + gap =~= key + gap);
    assert(gap + value + Seq::<char>::empty() =~= gap + value);
}

proof fn lemma_unequal_is_first(s: Seq<char>, at: int)
    requires
        0 <= at < s.len() - 1,
        s[at] == '!' && s[at + 1] == '=',
    ensures
        filter::unequal_index(s) <= at,
    decreases s.len(),
{
    if at > 0 {
        let rest = s.drop_first();
        assert(rest[at - 1] == '!' && rest[at] == '=');
        lemma_unequal_is_first(rest, at - 1);
    }
}

// ---------------------------------------------------------------------------
// What is shown
// ---------------------------------------------------------------------------

/// A filter on the text alone shows the events that hold the text, whatever its
/// case: in the line, the message, the source, or the key or the value of a
/// property.
pub proof fn law_text_is_looked_for_everywhere(query: Seq<char>, event: EventView)
    requires
        query.len() > 0,
    ensures
        (FilterView { text: Some(query), ..filter::no_filter() }).matches(event) == (
        text::contains_ignore_case(event.raw, query) || text::contains_ignore_case(
            event.message,
            query,
        ) || text::contains_ignore_case(event.source, query) || exists|i: int|
            0 <= i < event.properties.len() && (text::contains_ignore_case(
                (#[trigger] event.properties[i]).key,
                query,
            ) || text::contains_ignore_case(event.properties[i].value.display(), query))),
{
}

/// A filter on the level alone shows the events of that level, and one on the
/// source alone those from that source, whatever its case.
pub proof fn law_level_and_source_are_compared(level: Level, source: Seq<char>, event: EventView)
    ensures
        (FilterView { level: Some(level), ..filter::no_filter() }).matches(event) == (event.level
            == level),
        source.len() > 0 ==> (FilterView {
            source: Some(source),
            ..filter::no_filter()
        }).matches(event) == text::eq_ignore_case(event.source, source),
{
}

/// Whether an event has a property, and shows a value for it where one is asked
/// for.
pub open spec fn has_property(event: EventView, key: Seq<char>, value: Option<Seq<char>>) -> bool {
    exists|i: int|
        0 <= i < event.properties.len() && (#[trigger] event.properties[i]).key == key && (
        value is Some ==> event.properties[i].value.display() == value->0) && forall|j: int|
            0 <= j < i ==> (#[trigger] event.properties[j]).key != key
}

/// A condition that lets events in shows those that have the property, with the
/// value where one is asked for; one that keeps events out shows all others.
pub proof fn law_conditions_are_met_by_properties(
    key: Seq<char>,
    value: Option<Seq<char>>,
    event: EventView,
)
    ensures
        ({
            let condition = PredicateView { key, value };
            &&& condition.matches(event) == has_property(event, key, value)
            &&& filter::no_filter().added(
                UpdateView { exclude: false, predicate: condition },
            ).matches(event) == has_property(event, key, value)
            &&& filter::no_filter().added(
                UpdateView { exclude: true, predicate: condition },
            ).matches(event) == !has_property(event, key, value)
        }),
{
    let condition = PredicateView { key, value };
    model::lemma_property_index(event.properties, key);
    let k = model::property_index(event.properties, key);
    if condition.matches(event) {
        assert(event.properties[k].key == key);
        assert(has_property(event, key, value));
    }
    if has_property(event, key, value) {
        let i = choose|i: int|
            0 <= i < event.properties.len() && (#[trigger] event.properties[i]).key == key && (
            value is Some ==> event.properties[i].value.display() == value->0) && forall|j: int|
                0 <= j < i ==> (#[trigger] event.properties[j]).key != key;
        if k < i {
            assert(event.properties[k].key != key);
        }
        assert(k == i);
    }
    let shown = filter::no_filter().added(UpdateView { exclude: false, predicate: condition });
    let hidden = filter::no_filter().added(UpdateView { exclude: true, predicate: condition });
    assert(!filter::no_filter().includes.contains(condition));
    assert(!filter::no_filter().excludes.contains(condition));
    assert(shown.includes =~= seq![condition]);
    assert(hidden.excludes =~= seq![condition]);
    assert(shown.includes[0] == condition);
    assert(hidden.excludes[0] == condition);
}

/// An event is shown where every condition of the filter, taken alone, shows it.
pub proof fn law_all_conditions_count(filters: FilterView, event: EventView)
    ensures
        filters.matches(event) == ((FilterView {
            text: filters.text,
            ..filter::no_filter()
        }).matches(event) && (FilterView {
            source: filters.source,
            ..filter::no_filter()
        }).matches(event) && (FilterView { level: filters.level, ..filter::no_filter() }).matches(
            event,
        ) && (forall|i: int|
            0 <= i < filters.includes.len() ==> (#[trigger] filters.includes[i]).matches(event))
            && (forall|i: int|
            0 <= i < filters.excludes.len() ==> !(#[trigger] filters.excludes[i]).matches(event))),
        filter::no_filter().matches(event),
        !filter::no_filter().active(),
        filters.level is Some || filters.includes.len() > 0 || filters.excludes.len() > 0
            ==> filters.active(),
        filters.text is Some && filters.text->0.len() > 0 ==> filters.active(),
        filters.source is Some && filters.source->0.len() > 0 ==> filters.active(),
{
}

/// A condition that is added comes after the others on its side, and nothing else
/// changes.
pub proof fn law_added_condition_comes_last(filters: FilterView, update: UpdateView)
    ensures
        ({
            let after = filters.added(update);
            let known = if update.exclude {
                filters.excludes.contains(update.predicate)
            } else {
                filters.includes.contains(update.predicate)
            };
            &&& after.text == filters.text
            &&& after.source == filters.source
            &&& after.level == filters.level
            &&& known ==> after == filters
            &&& !known && update.exclude ==> after.includes == filters.includes && after.excludes
                == filters.excludes.push(update.predicate)
            &&& !known && !update.exclude ==> after.excludes == filters.excludes && after.includes
                == filters.includes.push(update.predicate)
        }),
{
}

/// The condition that is taken out is the one at its place, and nothing else
/// changes.
pub proof fn law_removed_condition_is_the_one(filters: FilterView, id: PropertyFilterId)
    ensures
        ({
            let after = filters.removed(id);
            let side = if id.exclude {
                filters.excludes
            } else {
                filters.includes
            };
            let left = if id.exclude {
                after.excludes
            } else {
                after.includes
            };
            &&& after.text == filters.text
            &&& after.source == filters.source
            &&& after.level == filters.level
            &&& id.exclude ==> after.includes == filters.includes
            &&& !id.exclude ==> after.excludes == filters.excludes
            &&& id.index < side.len() ==> {
                &&& filters.predicate_at(id) == Some(side[id.index as int])
                &&& left == side.take(id.index as int) + side.skip(id.index as int + 1)
            }
            &&& id.index >= side.len() ==> after == filters && filters.predicate_at(id) is None
        }),
{
    let side = if id.exclude {
        filters.excludes
    } else {
        filters.includes
    };
    if id.index < side.len() {
        let k = id.index as int;
        assert(side.remove(k) =~= side.take(k) + side.skip(k + 1));
    }
}

/// The filter that a facet is counted under leaves out the conditions of that
/// facet, and those alone.
pub proof fn law_conditions_are_left_out(filters: FilterView, key: Seq<char>)
    ensures
        filters.sourceless().source is None,
        filters.sourceless().text == filters.text,
        filters.sourceless().level == filters.level,
        filters.sourceless().includes == filters.includes,
        filters.sourceless().excludes == filters.excludes,
        filters.levelless().level is None,
        filters.levelless().text == filters.text,
        filters.levelless().source == filters.source,
        filters.levelless().includes == filters.includes,
        filters.levelless().excludes == filters.excludes,
        filters.keyless(key).includes == filters.includes.filter(|p: PredicateView| p.key != key),
        filters.keyless(key).excludes == filters.excludes.filter(|p: PredicateView| p.key != key),
        filters.keyless(key).text == filters.text,
        filters.keyless(key).source == filters.source,
        filters.keyless(key).level == filters.level,
{
    lemma_without(filters.includes, key);
    lemma_without(filters.excludes, key);
}

proof fn lemma_without(predicates: Seq<PredicateView>, key: Seq<char>)
    ensures
        filter::predicates_without(predicates, key) == predicates.filter(
            |p: PredicateView| p.key != key,
        ),
        workflow::keyed(predicates, key) == predicates.filter(|p: PredicateView| p.key == key),
    decreases predicates.len(),
{
    reveal(Seq::filter);
    if predicates.len() > 0 {
        lemma_without(predicates.drop_last(), key);
    }
}

/// The values to be highlighted are those that conditions ask for, none of them
/// empty.
pub proof fn law_asked_values_are_highlighted(predicates: Seq<PredicateView>, value: Seq<char>)
    ensures
        filter::shown_values(predicates).contains(value) == (value.len() > 0 && exists|i: int|
            0 <= i < predicates.len() && (#[trigger] predicates[i]).value == Some(value)),
    decreases predicates.len(),
{
    let values = filter::shown_values(predicates);
    if predicates.len() > 0 {
        let front = predicates.drop_last();
        let before = filter::shown_values(front);
        let last = predicates[predicates.len() - 1];
        law_asked_values_are_highlighted(front, value);
        if before.contains(value) {
            let k = choose|k: int| 0 <= k < before.len() && before[k] == value;
            assert(values[k] == value);
            let i = choose|i: int|
                0 <= i < front.len() && (#[trigger] front[i]).value == Some(value);
            assert(predicates[i].value == Some(value));
        }
        if value.len() > 0 && last.value == Some(value) {
            assert(values[before.len() as int] == value);
        }
        if values.contains(value) && !before.contains(value) {
            let k = choose|k: int| 0 <= k < values.len() && values[k] == value;
            if k < before.len() {
                assert(before[k] == value);
            }
            assert(last.value == Some(value));
        }
        if value.len() > 0 && exists|i: int|
            0 <= i < predicates.len() && (#[trigger] predicates[i]).value == Some(value) {
            let i = choose|i: int|
                0 <= i < predicates.len() && (#[trigger] predicates[i]).value == Some(value);
            if i < front.len() {
                assert(front[i].value == Some(value));
            }
        }
    }
}

// ---------------------------------------------------------------------------
// Edits
// ---------------------------------------------------------------------------

/// What is typed at a prompt becomes the condition that the prompt is for, and
/// nothing else changes; nothing typed is no condition.
pub proof fn law_prompt_sets_its_condition(
    before: WorkflowView,
    pad: Seq<char>,
    typed: Seq<char>,
    editing: Option<PropertyFilterId>,
)
    requires
        is_blank(pad),
        is_tight(typed),
    ensures
        before.prompted(FilterEdit::Text, pad + typed + pad, editing) == (FilterView {
            text: Some(typed),
            ..before.filters
        }),
        before.prompted(FilterEdit::Text, pad, editing) == (FilterView {
            text: None,
            ..before.filters
        }),
        before.prompted(FilterEdit::Source, pad + typed + pad, editing) == (FilterView {
            source: Some(typed),
            ..before.filters
        }),
        before.prompted(FilterEdit::Source, pad, editing) == (FilterView {
            source: None,
            ..before.filters
        }),
        before.prompted(FilterEdit::Level, pad + typed + pad, editing) == (FilterView {
            level: model::level_of(typed),
            ..before.filters
        }),
        before.prompted(FilterEdit::Level, pad, editing) == (FilterView {
            level: None,
            ..before.filters
        }),
{
    texts::law_trimming_keeps_the_text(pad, typed, pad);
    texts::law_trimming_keeps_the_text(pad, Seq::empty(), Seq::empty());
    assert(pad + Seq::<char>::empty() + Seq::<char>::empty() =~= pad);
}

/// What is typed at the prompt that lets events in, as `key=value`, lets in what
/// shows the value, and at the prompt that keeps events out it keeps that out.
pub proof fn law_prompt_adds_its_condition(
    before: WorkflowView,
    key: Seq<char>,
    value: Seq<char>,
    editing: Option<PropertyFilterId>,
)
    requires
        is_key(key),
        is_tight(value),
        is_plain(value),
        !is_quoted(value),
    ensures
        ({
            let typed = key + Seq::<char>::empty() + seq!['='] + (Seq::<char>::empty() + value);
            let condition = PredicateView { key, value: Some(value) };
            let shown = before.prompted(FilterEdit::IncludeProperty, typed, editing);
            let hidden = before.prompted(FilterEdit::ExcludeProperty, typed, editing);
            &&& shown.includes.contains(condition)
            &&& shown.excludes == before.filters.excludes
            &&& hidden.excludes.contains(condition)
            &&& hidden.includes == before.filters.includes
        }),
{
    let none = Seq::<char>::empty();
    let typed = key + none + seq!['='] + (none + value);
    assert(typed[0] == key[0] && typed.last() == value.last());
    texts::law_trimming_keeps_the_text(none, typed, none);
    law_equals_types_a_value(key, none, value, false);
    law_equals_types_a_value(key, none, value, true);
    let condition = PredicateView { key, value: Some(value) };
    filter::law_adding_is_idempotent(
        before.filters,
        UpdateView { exclude: false, predicate: condition },
    );
    filter::law_adding_is_idempotent(
        before.filters,
        UpdateView { exclude: true, predicate: condition },
    );
}

/// A condition that is edited is the one at its place: it goes, and what was typed
/// takes its place among the conditions; what types nothing changes nothing.
pub proof fn law_edited_condition_is_replaced(
    before: WorkflowView,
    typed: Seq<char>,
    id: PropertyFilterId,
)
    requires
        is_tight(typed),
    ensures
        ({
            let after = before.prompted(FilterEdit::EditPropertyFilter, typed, Some(id));
            match filter::typed_update(typed, false) {
                Some(update) => before.filters.predicate_at(id) is Some ==> after
                    == before.filters.removed(id).added(update),
                None => after == before.filters,
            }
        }),
        before.prompted(FilterEdit::EditPropertyFilter, typed, None) == before.filters,
{
    texts::law_trimming_keeps_the_text(Seq::empty(), typed, Seq::empty());
}

/// Following a property shows the events that show what it shows, of those that
/// were shown.
pub proof fn law_following_shows_the_same_value(
    before: WorkflowView,
    property: PropertyView,
    event: EventView,
)
    ensures
        before.following(property).matches(event) == (before.filters.matches(event)
            && has_property(event, property.key, Some(property.value.display()))),
{
    let value = property.value.display();
    let condition = PredicateView { key: property.key, value: Some(value) };
    lemma_included(before.filters, condition, event);
}

proof fn lemma_included(filters: FilterView, condition: PredicateView, event: EventView)
    ensures
        filters.added(UpdateView { exclude: false, predicate: condition }).matches(event) == (
        filters.matches(event) && has_property(event, condition.key, condition.value)),
{
    law_conditions_are_met_by_properties(condition.key, condition.value, event);
    assert(condition == PredicateView { key: condition.key, value: condition.value });
    let update = UpdateView { exclude: false, predicate: condition };
    let after = filters.added(update);
    if after.matches(event) {
        filter::law_adding_narrows(filters, update, event);
    }
    if filters.matches(event) && condition.matches(event) {
        assert forall|i: int| 0 <= i < after.includes.len() implies (
        #[trigger] after.includes[i]).matches(event) by {
            if i < filters.includes.len() {
                assert(after.includes[i] == filters.includes[i]);
            }
        }
    }
}

/// Narrowing to a value of a property leaves one condition on the property: that
/// it shows the value.
pub proof fn law_narrowing_leaves_one_condition(
    before: WorkflowView,
    key: Seq<char>,
    value: Seq<char>,
)
    ensures
        ({
            let after = before.narrowed(key, value);
            &&& after.includes == before.filters.includes.filter(
                |p: PredicateView| p.key != key,
            ).push(PredicateView { key, value: Some(value) })
            &&& after.excludes == before.filters.excludes.filter(|p: PredicateView| p.key != key)
            &&& after.text == before.filters.text
            &&& after.source == before.filters.source
            &&& after.level == before.filters.level
        }),
{
    lemma_without(before.filters.includes, key);
    lemma_without(before.filters.excludes, key);
    let kept = filter::predicates_without(before.filters.includes, key);
    lemma_no_key(before.filters.includes, key);
    assert(!kept.contains(PredicateView { key, value: Some(value) })) by {
        if kept.contains(PredicateView { key, value: Some(value) }) {
            let i = choose|i: int|
                0 <= i < kept.len() && kept[i] == (PredicateView { key, value: Some(value) });
            assert(kept[i].key != key);
        }
    }
}

proof fn lemma_no_key(predicates: Seq<PredicateView>, key: Seq<char>)
    ensures
        forall|i: int|
            0 <= i < filter::predicates_without(predicates, key).len() ==> (
            #[trigger] filter::predicates_without(predicates, key)[i]).key != key,
    decreases predicates.len(),
{
    if predicates.len() > 0 {
        lemma_no_key(predicates.drop_last(), key);
    }
}

/// A filter that is saved is the last preset, under the next number; one that
/// shows everything, or is saved already, is not saved.
pub proof fn law_saved_filter_is_the_last_preset(before: WorkflowView)
    ensures
        ({
            let after = before.saved();
            let known = exists|i: int|
                0 <= i < before.presets.len() && (#[trigger] before.presets[i]).filters
                    == before.filters;
            &&& after.filters == before.filters
            &&& after.history == before.history
            &&& known || !before.filters.active() ==> after.presets == before.presets
            &&& !known && before.filters.active() ==> after.presets == before.presets.push(
                PresetView {
                    name: "Preset "@ + text::number::decimal(before.presets.len() + 1),
                    filters: before.filters,
                },
            )
        }),
{
}

/// Undoing takes the changes back one by one, the last one first.
pub proof fn law_changes_are_undone_in_turn(
    before: WorkflowView,
    first: FilterView,
    second: FilterView,
)
    requires
        first != before.filters,
        second != first,
    ensures
        before.changed(first).filters == first,
        before.changed(first).changed(second).filters == second,
        before.changed(first).changed(second).undone().filters == first,
        before.changed(first).changed(second).undone().undone() == before,
        before.history.len() == 0 ==> before.undone() == before,
{
    workflow::law_undo_restores(before, first);
    workflow::law_undo_restores(before.changed(first), second);
}

/// A prompt begins with what it edits, so that applying it at once changes
/// nothing.
pub proof fn law_prompt_begins_with_its_condition(
    before: WorkflowView,
    property: Option<PropertyView>,
    editing: Option<PropertyFilterId>,
)
    requires
        before.filters.text is Some ==> is_tight(before.filters.text->0),
        before.filters.source is Some ==> is_tight(before.filters.source->0),
    ensures
        before.prompted(
            FilterEdit::Text,
            workflow::prompt_text(before.filters, FilterEdit::Text, property),
            editing,
        ) == before.filters,
        before.prompted(
            FilterEdit::Source,
            workflow::prompt_text(before.filters, FilterEdit::Source, property),
            editing,
        ) == before.filters,
        before.prompted(
            FilterEdit::Level,
            workflow::prompt_text(before.filters, FilterEdit::Level, property),
            editing,
        ) == before.filters,
        property is Some ==> workflow::prompt_text(
            before.filters,
            FilterEdit::IncludeProperty,
            property,
        ) == property->0.key + seq!['='] + property->0.value.display(),
        property is Some ==> workflow::prompt_text(
            before.filters,
            FilterEdit::ExcludeProperty,
            property,
        ) == property->0.key + seq!['='] + property->0.value.display(),
{
    reveal_strlit("=");
    assert("="@ =~= seq!['=']);
    let none = Seq::<char>::empty();
    if before.filters.text is Some {
        texts::law_trimming_keeps_the_text(none, before.filters.text->0, none);
    }
    if before.filters.source is Some {
        texts::law_trimming_keeps_the_text(none, before.filters.source->0, none);
    }
    match before.filters.level {
        Some(level) => {
            model::law_level_name_reads_back(level);
            lemma_name_is_tight(level);
            texts::law_trimming_keeps_the_text(none, model::level_name(level), none);
        },
        None => {},
    }
    assert(text::trim(none).len() == 0);
}

proof fn lemma_name_is_tight(level: Level)
    ensures
        is_tight(model::level_name(level)),
{
    reveal_strlit("fatal");
    reveal_strlit("error");
    reveal_strlit("warn");
    reveal_strlit("info");
    reveal_strlit("debug");
    reveal_strlit("trace");
    reveal_strlit("unknown");
}

// ---------------------------------------------------------------------------
// Lists
// ---------------------------------------------------------------------------

/// The conditions are listed with those that show events first; each is found
/// under its place, as it is typed.
pub proof fn law_conditions_are_listed(filters: FilterView, i: int)
    requires
        filters.includes.len() <= usize::MAX,
        filters.excludes.len() <= usize::MAX,
    ensures
        ({
            let rows = workflow::property_rows(filters);
            let shown = filters.includes.len();
            &&& rows.len() == shown + filters.excludes.len()
            &&& 0 <= i < rows.len() ==> filters.predicate_at(rows[i].id) is Some
            &&& 0 <= i < shown ==> rows[i].id.exclude == false && rows[i].id.index == i
                && rows[i].kind == "show"@ && rows[i].summary == filters.includes[i].summary(false)
            &&& shown <= i < rows.len() ==> rows[i].id.exclude == true && rows[i].id.index == i
                - shown && rows[i].kind == "ignore"@ && rows[i].summary == filters.excludes[i
                - shown].summary(true)
        }),
{
}

/// A search of the conditions finds those whose kind or text holds the query, in
/// their order; a search of the presets those whose name or text does.
pub proof fn law_search_finds_rows_with_the_query(
    rows: Seq<PropertyRowView>,
    presets: Seq<PresetRowView>,
    query: Seq<char>,
)
    ensures
        workflow::property_rows_matching(rows, query) == rows.filter(
            |row: PropertyRowView|
                query.len() == 0 || text::contains_ignore_case(row.kind, query)
                    || text::contains_ignore_case(row.summary, query),
        ),
        workflow::preset_rows_matching(presets, query) == presets.filter(
            |row: PresetRowView|
                query.len() == 0 || text::contains_ignore_case(row.name, query)
                    || text::contains_ignore_case(row.summary, query),
        ),
    decreases rows.len() + presets.len(),
{
    reveal(Seq::filter);
    if rows.len() > 0 {
        law_search_finds_rows_with_the_query(rows.drop_last(), presets, query);
    }
    if presets.len() > 0 {
        law_search_finds_rows_with_the_query(rows, presets.drop_last(), query);
    }
}

/// A filter is told in a few words, one for each of its conditions.
pub proof fn law_every_condition_is_told(filters: FilterView, i: int)
    ensures
        ({
            let parts = workflow::summary_parts(filters);
            &&& filters.text is Some && filters.text->0.len() > 0 ==> parts.contains(
                "search="@ + filters.text->0,
            )
            &&& filters.source is Some && filters.source->0.len() > 0 ==> parts.contains(
                "source="@ + filters.source->0,
            )
            &&& filters.level is Some ==> parts.contains(
                "level="@ + model::level_name(filters.level->0),
            )
            &&& 0 <= i < filters.includes.len() ==> parts.contains(
                "show "@ + filters.includes[i].summary(false),
            )
            &&& 0 <= i < filters.excludes.len() ==> parts.contains(
                "hide "@ + filters.excludes[i].summary(true),
            )
            &&& parts.len() > 0 ==> workflow::filter_summary(filters) == text::split::join(
                parts,
                ", "@,
            )
            &&& workflow::filter_summary(filter::no_filter()) == "-"@
        }),
{
    let parts = workflow::summary_parts(filters);
    let texts = workflow::labeled("search="@, filters.text);
    let sources = workflow::labeled("source="@, filters.source);
    let levels = match filters.level {
        Some(level) => seq!["level="@ + model::level_name(level)],
        None => Seq::<Seq<char>>::empty(),
    };
    let first = texts.len() as int;
    let second = first + sources.len();
    let third = second + levels.len();
    if texts.len() > 0 {
        assert(parts[0] == texts[0]);
    }
    if sources.len() > 0 {
        assert(parts[first] == sources[0]);
    }
    if levels.len() > 0 {
        assert(parts[second] == levels[0]);
    }
    if 0 <= i < filters.includes.len() {
        assert(parts[third + i] == "show "@ + filters.includes[i].summary(false));
    }
    if 0 <= i < filters.excludes.len() {
        assert(parts[third + filters.includes.len() + i] == "hide "@ + filters.excludes[i].summary(
            true,
        ));
    }
    assert(workflow::summary_parts(filter::no_filter()).len() == 0);
}

} // verus!
