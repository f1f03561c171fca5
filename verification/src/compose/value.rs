//! YAML values: reading them from text, looking keys up, and merging one value over another.
use vstd::prelude::*;

use crate::text;

verus! {

/// A YAML value.
#[derive(Debug)]
pub enum Yaml {
    Null,
    Bool(bool),
    /// A number, by its printed form.
    Number(String),
    Text(String),
    Sequence(Vec<Yaml>),
    Mapping(Vec<(Yaml, Yaml)>),
    /// A value under a tag; the tag starts with an exclamation mark.
    Tagged(String, Box<Yaml>),
}

/// What a YAML value holds.
pub enum YamlView {
    Null,
    Bool(bool),
    Number(Seq<char>),
    Text(Seq<char>),
    Sequence(Seq<YamlView>),
    Mapping(Seq<(YamlView, YamlView)>),
    Tagged(Seq<char>, Box<YamlView>),
}

impl Yaml {
    /// What the value holds.
    pub open spec fn contents(self) -> YamlView
        decreases self,
    {
        match self {
            Yaml::Null => YamlView::Null,
            Yaml::Bool(b) => YamlView::Bool(b),
            Yaml::Number(n) => YamlView::Number(n@),
            Yaml::Text(t) => YamlView::Text(t@),
            Yaml::Sequence(items) => YamlView::Sequence(
                Seq::new(
                    items@.len(),
                    |i: int|
                        if 0 <= i < items@.len() {
                            items@[i].contents()
                        } else {
                            YamlView::Null
                        },
                ),
            ),
            Yaml::Mapping(entries) => YamlView::Mapping(
                Seq::new(
                    entries@.len(),
                    |i: int|
                        if 0 <= i < entries@.len() {
                            (entries@[i].0.contents(), entries@[i].1.contents())
                        } else {
                            (YamlView::Null, YamlView::Null)
                        },
                ),
            ),
            Yaml::Tagged(tag, inner) => YamlView::Tagged(tag@, Box::new((*inner).contents())),
        }
    }
}

impl View for Yaml {
    type V = YamlView;

    open spec fn view(&self) -> YamlView {
        self.contents()
    }
}

/// What the items of a sequence hold.
pub open spec fn items_view(items: Seq<Yaml>) -> Seq<YamlView> {
    items.map_values(|v: Yaml| v@)
}

/// What the entries of a mapping hold.
pub open spec fn entries_view(entries: Seq<(Yaml, Yaml)>) -> Seq<(YamlView, YamlView)> {
    entries.map_values(|e: (Yaml, Yaml)| (e.0@, e.1@))
}

/// The contents of a sequence are those of its items.
pub broadcast proof fn lemma_sequence_contents(items: Vec<Yaml>)
    ensures
        #[trigger] Yaml::Sequence(items).contents() == YamlView::Sequence(items_view(items@)),
{
    assert(Yaml::Sequence(items).contents()->Sequence_0 =~= items_view(items@));
}

/// The contents of a mapping are those of its entries.
pub broadcast proof fn lemma_mapping_contents(entries: Vec<(Yaml, Yaml)>)
    ensures
        #[trigger] Yaml::Mapping(entries).contents() == YamlView::Mapping(
            entries_view(entries@),
        ),
{
    assert(Yaml::Mapping(entries).contents()->Mapping_0 =~= entries_view(entries@));
}

/// Whether a number is zero, of either sign, by its printed form.
pub open spec fn is_zero(number: Seq<char>) -> bool {
    number == "0.0"@ || number == "-0.0"@
}

/// Whether there is an entry at a position.
pub open spec fn has_entry(entries: Seq<(YamlView, YamlView)>, i: int) -> bool {
    0 <= i < entries.len()
}

/// Whether two values are the same. Mappings are the same whatever the order of their entries. With
/// `zeros`, the two zeros are the same number; among the keys of a mapping they are so only where
/// it has a single entry.
pub open spec fn same_value(a: YamlView, b: YamlView, zeros: bool) -> bool
    decreases a,
{
    match (a, b) {
        (YamlView::Number(x), YamlView::Number(y)) => x == y || (zeros && is_zero(x) && is_zero(y)),
        (YamlView::Sequence(x), YamlView::Sequence(y)) => {
            &&& x.len() == y.len()
            &&& forall|i: int| #![trigger x[i]] 0 <= i < x.len() ==> same_value(x[i], y[i], zeros)
        },
        (YamlView::Mapping(x), YamlView::Mapping(y)) => {
            &&& x.len() == y.len()
            &&& forall|i: int| #[trigger] has_entry(x, i) ==> some_entry_same(x[i], y, zeros)
            &&& forall|j: int| #[trigger] has_entry(y, j) ==> same_as_some_entry(x, y[j], zeros)
        },
        (YamlView::Tagged(s, x), YamlView::Tagged(t, y)) => s == t && same_value(*x, *y, zeros),
        _ => a == b,
    }
}

/// Whether some entry of a mapping of the same size is the same as `e`.
pub open spec fn some_entry_same(
    e: (YamlView, YamlView),
    entries: Seq<(YamlView, YamlView)>,
    zeros: bool,
) -> bool
    decreases e,
{
    exists|j: int|
        #![trigger entries[j]]
        0 <= j < entries.len() && same_value(e.0, entries[j].0, zeros && entries.len() == 1)
            && same_value(e.1, entries[j].1, zeros)
}

/// Whether `e` is the same as some entry of a mapping of the same size.
pub open spec fn same_as_some_entry(
    entries: Seq<(YamlView, YamlView)>,
    e: (YamlView, YamlView),
    zeros: bool,
) -> bool
    decreases entries,
{
    exists|i: int|
        #![trigger entries[i]]
        0 <= i < entries.len() && same_value(entries[i].0, e.0, zeros && entries.len() == 1)
            && same_value(entries[i].1, e.1, zeros)
}

/// Whether two entries have the same key and the same value.
spec fn same_entry(
    e: (YamlView, YamlView),
    f: (YamlView, YamlView),
    zeros: bool,
    one: bool,
) -> bool {
    same_value(e.0, f.0, one) && same_value(e.1, f.1, zeros)
}

/// Whether the entries of two mappings of one size match one another both ways.
spec fn entries_match(
    x: Seq<(YamlView, YamlView)>,
    y: Seq<(YamlView, YamlView)>,
    zeros: bool,
) -> bool {
    &&& x.len() == y.len()
    &&& forall|i: int| 0 <= i < x.len() ==> #[trigger] some_entry_same(x[i], y, zeros)
    &&& forall|j: int| 0 <= j < y.len() ==> #[trigger] same_as_some_entry(x, y[j], zeros)
}

/// Mappings are the same where their entries match.
proof fn lemma_same_mappings(
    x: Seq<(YamlView, YamlView)>,
    y: Seq<(YamlView, YamlView)>,
    zeros: bool,
)
    ensures
        same_value(YamlView::Mapping(x), YamlView::Mapping(y), zeros) == entries_match(x, y, zeros),
{
    let (a, b) = (YamlView::Mapping(x), YamlView::Mapping(y));
    if same_value(a, b, zeros) {
        assert forall|i: int| 0 <= i < x.len() implies #[trigger] some_entry_same(
            x[i],
            y,
            zeros,
        ) by {
            assert(has_entry(x, i));
        }
        assert forall|j: int| 0 <= j < y.len() implies #[trigger] same_as_some_entry(
            x,
            y[j],
            zeros,
        ) by {
            assert(has_entry(y, j));
        }
    }
    if entries_match(x, y, zeros) {
        assert forall|i: int| #[trigger] has_entry(x, i) implies some_entry_same(
            x[i],
            y,
            zeros,
        ) by {}
        assert forall|j: int| #[trigger] has_entry(y, j) implies same_as_some_entry(
            x,
            y[j],
            zeros,
        ) by {}
    }
}

impl Yaml {
    /// A copy of the value.
    pub fn copy(&self) -> (r: Yaml)
        ensures
            r@ == self@,
        decreases self,
    {
        broadcast use {lemma_sequence_contents, lemma_mapping_contents};

        match self {
            Yaml::Null => Yaml::Null,
            Yaml::Bool(b) => Yaml::Bool(*b),
            Yaml::Number(n) => Yaml::Number(n.clone()),
            Yaml::Text(t) => Yaml::Text(t.clone()),
            Yaml::Sequence(items) => {
                let mut out: Vec<Yaml> = Vec::new();
                let mut i: usize = 0;
                while i < items.len()
                    invariant
                        i <= items@.len(),
                        *self == Yaml::Sequence(*items),
                        items_view(out@) == items_view(items@).take(i as int),
                    decreases items@.len() - i,
                {
                    let ghost before = out@;
                    assert(decreases_to!(self => self->Sequence_0@[i as int]));
                    let item = items[i].copy();
                    out.push(item);
                    assert(items_view(out@) =~= items_view(before).push(item@));
                    assert(items_view(out@) =~= items_view(items@).take(i + 1));
                    i += 1;
                }
                assert(items_view(items@).take(i as int) =~= items_view(items@));
                Yaml::Sequence(out)
            },
            Yaml::Mapping(entries) => {
                let mut out: Vec<(Yaml, Yaml)> = Vec::new();
                let mut i: usize = 0;
                while i < entries.len()
                    invariant
                        i <= entries@.len(),
                        *self == Yaml::Mapping(*entries),
                        entries_view(out@) == entries_view(entries@).take(i as int),
                    decreases entries@.len() - i,
                {
                    let ghost before = out@;
                    assert(decreases_to!(self => self->Mapping_0@[i as int].0));
                    assert(decreases_to!(self => self->Mapping_0@[i as int].1));
                    let key = entries[i].0.copy();
                    let value = entries[i].1.copy();
                    out.push((key, value));
                    assert(entries_view(out@) =~= entries_view(before).push((key@, value@)));
                    assert(entries_view(out@) =~= entries_view(entries@).take(i + 1));
                    i += 1;
                }
                assert(entries_view(entries@).take(i as int) =~= entries_view(entries@));
                Yaml::Mapping(out)
            },
            Yaml::Tagged(tag, inner) => Yaml::Tagged(tag.clone(), Box::new(inner.copy())),
        }
    }

    /// Whether two values are the same, with the two zeros told apart or not.
    pub fn same(&self, other: &Yaml, zeros: bool) -> (r: bool)
        ensures
            r == same_value(self@, other@, zeros),
        decreases self,
    {
        broadcast use {lemma_sequence_contents, lemma_mapping_contents};

        match (self, other) {
            (Yaml::Null, Yaml::Null) => true,
            (Yaml::Bool(a), Yaml::Bool(b)) => *a == *b,
            (Yaml::Number(a), Yaml::Number(b)) => {
                *a == *b || (zeros && number_is_zero(a.as_str()) && number_is_zero(b.as_str()))
            },
            (Yaml::Text(a), Yaml::Text(b)) => *a == *b,
            (Yaml::Sequence(a), Yaml::Sequence(b)) => {
                if a.len() != b.len() {
                    assert(items_view(a@).len() != items_view(b@).len());
                    return false;
                }
                let ghost x = items_view(a@);
                let ghost y = items_view(b@);
                let mut i: usize = 0;
                while i < a.len()
                    invariant
                        i <= a@.len(),
                        a@.len() == b@.len(),
                        *self == Yaml::Sequence(*a),
                        *other == Yaml::Sequence(*b),
                        x == items_view(a@),
                        y == items_view(b@),
                        self@ == YamlView::Sequence(x),
                        other@ == YamlView::Sequence(y),
                        forall|j: int|
                            #![trigger x[j]]
                            0 <= j < i ==> same_value(x[j], y[j], zeros),
                    decreases a@.len() - i,
                {
                    assert(decreases_to!(self => self->Sequence_0@[i as int]));
                    assert(x[i as int] == a@[i as int]@ && y[i as int] == b@[i as int]@);
                    if !a[i].same(&b[i], zeros) {
                        return false;
                    }
                    i += 1;
                }
                true
            },
            (Yaml::Mapping(a), Yaml::Mapping(b)) => {
                if a.len() != b.len() {
                    assert(entries_view(a@).len() != entries_view(b@).len());
                    return false;
                }
                let n: usize = a.len();
                let one = zeros && n == 1;
                let ghost x = entries_view(a@);
                let ghost y = entries_view(b@);
                proof {
                    lemma_same_mappings(x, y, zeros);
                }
                let mut i: usize = 0;
                while i < n
                    invariant
                        i <= n,
                        n == a@.len(),
                        n == b@.len(),
                        one == (zeros && y.len() == 1),
                        *self == Yaml::Mapping(*a),
                        *other == Yaml::Mapping(*b),
                        x == entries_view(a@),
                        y == entries_view(b@),
                        self@ == YamlView::Mapping(x),
                        other@ == YamlView::Mapping(y),
                        forall|k: int|
                            0 <= k < i ==> #[trigger] some_entry_same(x[k], y, zeros),
                    decreases n - i,
                {
                    let mut found = false;
                    let mut j: usize = 0;
                    while j < n && !found
                        invariant
                            i < n,
                            j <= n,
                            n == a@.len(),
                            n == b@.len(),
                            one == (zeros && n == 1),
                            *self == Yaml::Mapping(*a),
                            x == entries_view(a@),
                            y == entries_view(b@),
                            found ==> some_entry_same(x[i as int], y, zeros),
                            !found ==> forall|m: int|
                                0 <= m < j ==> !same_entry(
                                    x[i as int],
                                    #[trigger] y[m],
                                    zeros,
                                    one,
                                ),
                        decreases n - j + (if found {
                            0int
                        } else {
                            1
                        }),
                    {
                        assert(decreases_to!(self => self->Mapping_0@[i as int].0));
                        assert(decreases_to!(self => self->Mapping_0@[i as int].1));
                        assert(x[i as int] == (a@[i as int].0@, a@[i as int].1@));
                        assert(y[j as int] == (b@[j as int].0@, b@[j as int].1@));
                        found = a[i].0.same(&b[j].0, one) && a[i].1.same(&b[j].1, zeros);
                        assert(found == same_entry(x[i as int], y[j as int], zeros, one));
                        j += 1;
                    }
                    if !found {
                        proof {
                            lemma_same_mappings(x, y, zeros);
                            assert(!some_entry_same(x[i as int], y, zeros));
                        }
                        return false;
                    }
                    i += 1;
                }
                let mut j: usize = 0;
                while j < n
                    invariant
                        j <= n,
                        n == a@.len(),
                        n == b@.len(),
                        one == (zeros && y.len() == 1),
                        *self == Yaml::Mapping(*a),
                        *other == Yaml::Mapping(*b),
                        x == entries_view(a@),
                        y == entries_view(b@),
                        self@ == YamlView::Mapping(x),
                        other@ == YamlView::Mapping(y),
                        forall|k: int|
                            0 <= k < j ==> #[trigger] same_as_some_entry(x, y[k], zeros),
                    decreases n - j,
                {
                    let mut found = false;
                    let mut i: usize = 0;
                    while i < n && !found
                        invariant
                            i <= n,
                            j < n,
                            n == a@.len(),
                            n == b@.len(),
                            one == (zeros && n == 1),
                            *self == Yaml::Mapping(*a),
                            x == entries_view(a@),
                            y == entries_view(b@),
                            found ==> same_as_some_entry(x, y[j as int], zeros),
                            !found ==> forall|m: int|
                                0 <= m < i ==> !same_entry(
                                    #[trigger] x[m],
                                    y[j as int],
                                    zeros,
                                    one,
                                ),
                        decreases n - i + (if found {
                            0int
                        } else {
                            1
                        }),
                    {
                        assert(decreases_to!(self => self->Mapping_0@[i as int].0));
                        assert(decreases_to!(self => self->Mapping_0@[i as int].1));
                        assert(x[i as int] == (a@[i as int].0@, a@[i as int].1@));
                        assert(y[j as int] == (b@[j as int].0@, b@[j as int].1@));
                        found = a[i].0.same(&b[j].0, one) && a[i].1.same(&b[j].1, zeros);
                        assert(found == same_entry(x[i as int], y[j as int], zeros, one));
                        i += 1;
                    }
                    if !found {
                        proof {
                            lemma_same_mappings(x, y, zeros);
                            assert(!same_as_some_entry(x, y[j as int], zeros));
                        }
                        return false;
                    }
                    j += 1;
                }
                true
            },
            (Yaml::Tagged(s, a), Yaml::Tagged(t, b)) => *s == *t && a.same(b, zeros),
            _ => false,
        }
    }
}

/// Whether a number is zero, of either sign, by its printed form.
fn number_is_zero(number: &str) -> (r: bool)
    ensures
        r == is_zero(number@),
{
    text::same(number, "0.0") || text::same(number, "-0.0")
}

/// A value without the tags around it.
pub open spec fn untagged(v: YamlView) -> YamlView
    decreases v,
{
    match v {
        YamlView::Tagged(_, inner) => untagged(*inner),
        _ => v,
    }
}

/// The text of a value, where it is a text under any tags.
pub open spec fn as_text(v: YamlView) -> Option<Seq<char>> {
    match untagged(v) {
        YamlView::Text(t) => Some(t),
        _ => None,
    }
}

/// The position of the first entry whose key is the same as `key`.
pub open spec fn index_of_key(
    entries: Seq<(YamlView, YamlView)>,
    key: YamlView,
    zeros: bool,
) -> Option<int>
    decreases entries.len(),
{
    if entries.len() == 0 {
        None
    } else if same_value(key, entries[0].0, zeros) {
        Some(0)
    } else {
        match index_of_key(entries.skip(1), key, zeros) {
            Some(i) => Some(i + 1),
            None => None,
        }
    }
}

/// The position of the entry under `key`.
pub open spec fn key_index(entries: Seq<(YamlView, YamlView)>, key: YamlView) -> Option<int> {
    index_of_key(entries, key, entries.len() == 1)
}

/// The value that the entries hold under `key`.
pub open spec fn lookup(entries: Seq<(YamlView, YamlView)>, key: YamlView) -> Option<YamlView> {
    match key_index(entries, key) {
        Some(i) => Some(entries[i].1),
        None => None,
    }
}

/// A key is found at the first entry with the same key, and nowhere if there is none.
proof fn lemma_index_of_key(entries: Seq<(YamlView, YamlView)>, key: YamlView, zeros: bool)
    ensures
        match index_of_key(entries, key, zeros) {
            Some(i) => 0 <= i < entries.len() && same_value(key, entries[i].0, zeros) && forall|
                j: int,
            |
                #![trigger entries[j]]
                0 <= j < i ==> !same_value(key, entries[j].0, zeros),
            None => forall|j: int|
                #![trigger entries[j]]
                0 <= j < entries.len() ==> !same_value(key, entries[j].0, zeros),
        },
    decreases entries.len(),
{
    if entries.len() > 0 && !same_value(key, entries[0].0, zeros) {
        let rest = entries.skip(1);
        lemma_index_of_key(rest, key, zeros);
        assert forall|j: int| 0 < j < entries.len() implies #[trigger] entries[j] == rest[j
            - 1] by {}
    }
}

/// The value of a mapping under `key`: its own, or else that of what is merged into it with `<<`,
/// a mapping or the first of a sequence of mappings that has the key.
pub open spec fn mapping_get_view(
    entries: Seq<(YamlView, YamlView)>,
    key: Seq<char>,
) -> Option<YamlView>
    decreases entries,
{
    match lookup(entries, YamlView::Text(key)) {
        Some(v) => Some(v),
        None => {
            match lookup(entries, YamlView::Text("<<"@)) {
                Some(merged) => {
                    proof {
                        lemma_lookup_decreases(entries, YamlView::Text("<<"@));
                    }
                    match merged {
                        YamlView::Mapping(inner) => mapping_get_view(inner, key),
                        YamlView::Sequence(items) => first_mapping_get(items, key),
                        _ => None,
                    }
                },
                None => None,
            }
        },
    }
}

/// The value under `key` of the first mapping among the items that has it.
pub open spec fn first_mapping_get(items: Seq<YamlView>, key: Seq<char>) -> Option<YamlView>
    decreases items,
{
    if items.len() == 0 {
        None
    } else {
        let here = match items[0] {
            YamlView::Mapping(inner) => mapping_get_view(inner, key),
            _ => None,
        };
        match here {
            Some(v) => Some(v),
            None => first_mapping_get(items.subrange(1, items.len() as int), key),
        }
    }
}

/// What a key finds is a proper part of the entries.
pub proof fn lemma_lookup_decreases(entries: Seq<(YamlView, YamlView)>, key: YamlView)
    ensures
        lookup(entries, key) matches Some(v) ==> decreases_to!(entries => v),
{
    lemma_index_of_key(entries, key, entries.len() == 1);
    if let Some(i) = key_index(entries, key) {
        assert(decreases_to!(entries => entries[i]));
        assert(decreases_to!(entries[i] => entries[i].1));
    }
}

/// The text of a value, where it is a text under any tags.
pub fn as_str(v: &Yaml) -> (r: Option<&str>)
    ensures
        text::opt_view(r) == as_text(v@),
    decreases v,
{
    match v {
        Yaml::Text(t) => Some(t.as_str()),
        Yaml::Tagged(_, inner) => as_str(inner),
        _ => None,
    }
}

/// The entries of a value, where it is a mapping.
pub open spec fn mapping_view(v: YamlView) -> Option<Seq<(YamlView, YamlView)>> {
    match v {
        YamlView::Mapping(entries) => Some(entries),
        _ => None,
    }
}

/// The entries of a value, where it is a mapping.
pub fn value_mapping(v: &Yaml) -> (r: Option<&Vec<(Yaml, Yaml)>>)
    ensures
        match r {
            Some(entries) => mapping_view(v@) == Some(entries_view(entries@)) && *v
                == Yaml::Mapping(*entries),
            None => mapping_view(v@) is None,
        },
{
    broadcast use lemma_mapping_contents;

    match v {
        Yaml::Mapping(entries) => Some(entries),
        _ => None,
    }
}

/// Finds the position of the entry under `key`.
fn position(entries: &Vec<(Yaml, Yaml)>, key: &Yaml) -> (r: Option<usize>)
    ensures
        key_index(entries_view(entries@), key@) == match r {
            Some(i) => Some(i as int),
            None => None,
        },
        r matches Some(i) ==> i < entries@.len() && entries_view(entries@)[i as int]
            == (entries@[i as int].0@, entries@[i as int].1@),
{
    let ghost all = entries_view(entries@);
    let zeros = entries.len() == 1;
    let mut i: usize = 0;
    assert(all.skip(0) =~= all);
    while i < entries.len()
        invariant
            i <= entries@.len(),
            all == entries_view(entries@),
            zeros == (all.len() == 1),
            index_of_key(all, key@, zeros) == match index_of_key(all.skip(i as int), key@, zeros) {
                Some(k) => Some(k + i),
                None => None::<int>,
            },
        decreases entries@.len() - i,
    {
        assert(all.skip(i as int)[0] == all[i as int]);
        assert(all.skip(i as int).skip(1) =~= all.skip(i + 1));
        if key.same(&entries[i].0, zeros) {
            return Some(i);
        }
        i += 1;
    }
    None
}

/// What an optional borrowed value holds.
pub open spec fn opt_value(v: Option<&Yaml>) -> Option<YamlView> {
    match v {
        Some(v) => Some(v@),
        None => None,
    }
}

/// Looks a key up in a mapping, with what is merged into it.
pub fn mapping_get<'a>(entries: &'a Vec<(Yaml, Yaml)>, key: &str) -> (r: Option<&'a Yaml>)
    ensures
        opt_value(r) == mapping_get_view(entries_view(entries@), key@),
    decreases entries,
{
    broadcast use {lemma_sequence_contents, lemma_mapping_contents};

    if let Some(i) = position(entries, &Yaml::Text(key.to_owned())) {
        return Some(&entries[i].1);
    }
    match position(entries, &Yaml::Text("<<".to_owned())) {
        Some(i) => {
            assert(decreases_to!(entries => entries@));
            assert(decreases_to!(entries@ => entries@[i as int]));
            assert(decreases_to!(entries@[i as int] => entries@[i as int].1));
            match &entries[i].1 {
                Yaml::Mapping(inner) => {
                    assert(decreases_to!(entries@[i as int].1 => entries@[i as int].1->Mapping_0));
                    mapping_get(inner, key)
                },
                Yaml::Sequence(items) => {
                    assert(decreases_to!(entries@[i as int].1 => entries@[i as int].1->Sequence_0));
                    let ghost all = items_view(items@);
                    let mut k: usize = 0;
                    assert(all.skip(0) =~= all);
                    while k < items.len()
                        invariant
                            k <= items@.len(),
                            all == items_view(items@),
                            i < entries@.len(),
                            entries@[i as int].1 == Yaml::Sequence(*items),
                            decreases_to!(entries => items),
                            mapping_get_view(entries_view(entries@), key@) == first_mapping_get(
                                all,
                                key@,
                            ),
                            first_mapping_get(all, key@) == first_mapping_get(
                                all.skip(k as int),
                                key@,
                            ),
                        decreases items@.len() - k,
                    {
                        assert(all.skip(k as int)[0] == all[k as int]);
                        assert(all.skip(k as int).subrange(1, all.skip(k as int).len() as int)
                            =~= all.skip(k + 1));
                        if let Yaml::Mapping(inner) = &items[k] {
                            proof {
                                lemma_mapping_contents(*inner);
                                assert(decreases_to!(items => items@));
                                assert(decreases_to!(items@ => items@[k as int]));
                                assert(decreases_to!(
                                    items@[k as int] => items@[k as int]->Mapping_0
                                ));
                            }
                            if let Some(found) = mapping_get(inner, key) {
                                return Some(found);
                            }
                        }
                        k += 1;
                    }
                    None
                },
                _ => None,
            }
        },
        None => None,
    }
}

/// The text of a mapping under `key`.
pub open spec fn get_text(v: YamlView, key: Seq<char>) -> Option<Seq<char>> {
    match mapping_view(v) {
        Some(entries) => match mapping_get_view(entries, key) {
            Some(found) => as_text(found),
            None => None,
        },
        None => None,
    }
}

/// Looks up the text of a mapping under `key`.
pub fn mapping_get_string(v: &Yaml, key: &str) -> (r: Option<String>)
    ensures
        text::opt_string(r) == get_text(v@, key@),
{
    match value_mapping(v) {
        Some(entries) => match mapping_get(entries, key) {
            Some(found) => match as_str(found) {
                Some(t) => Some(t.to_owned()),
                None => None,
            },
            None => None,
        },
        None => None,
    }
}

/// Whether a value is a mapping with the key.
pub open spec fn has_key(v: YamlView, key: Seq<char>) -> bool {
    match mapping_view(v) {
        Some(entries) => mapping_get_view(entries, key) is Some,
        None => false,
    }
}

/// Whether a value is a mapping with the key.
pub fn mapping_has_key(v: &Yaml, key: &str) -> (r: bool)
    ensures
        r == has_key(v@, key@),
{
    match value_mapping(v) {
        Some(entries) => mapping_get(entries, key).is_some(),
        None => false,
    }
}

/// A value with its `!reset` parts set to null and its other tags removed.
pub open spec fn without_tags(v: YamlView) -> YamlView
    decreases v,
{
    match v {
        YamlView::Tagged(tag, inner) => if tag == "!reset"@ {
            YamlView::Null
        } else {
            without_tags(*inner)
        },
        YamlView::Sequence(items) => YamlView::Sequence(
            Seq::new(
                items.len(),
                |i: int|
                    if 0 <= i < items.len() {
                        without_tags(items[i])
                    } else {
                        YamlView::Null
                    },
            ),
        ),
        YamlView::Mapping(entries) => YamlView::Mapping(
            Seq::new(
                entries.len(),
                |i: int|
                    if 0 <= i < entries.len() {
                        (entries[i].0, without_tags(entries[i].1))
                    } else {
                        (YamlView::Null, YamlView::Null)
                    },
            ),
        ),
        _ => v,
    }
}

/// Sets the `!reset` parts of a value to null and removes its other tags.
pub fn strip_reset_tags(v: &Yaml) -> (r: Yaml)
    ensures
        r@ == without_tags(v@),
    decreases v,
{
    broadcast use {lemma_sequence_contents, lemma_mapping_contents};

    match v {
        Yaml::Tagged(tag, inner) => {
            if text::same(tag.as_str(), "!reset") {
                Yaml::Null
            } else {
                strip_reset_tags(inner)
            }
        },
        Yaml::Sequence(items) => {
            let mut out: Vec<Yaml> = Vec::new();
            let mut i: usize = 0;
            while i < items.len()
                invariant
                    i <= items@.len(),
                    *v == Yaml::Sequence(*items),
                    out@.len() == i,
                    forall|j: int| 0 <= j < i ==> (#[trigger] out@[j])@ == without_tags(items@[j]@),
                decreases items@.len() - i,
            {
                assert(decreases_to!(v => v->Sequence_0@[i as int]));
                out.push(strip_reset_tags(&items[i]));
                i += 1;
            }
            let r = Yaml::Sequence(out);
            proof {
                lemma_sequence_contents(*items);
                assert(items_view(out@) =~= without_tags(v@)->Sequence_0);
            }
            r
        },
        Yaml::Mapping(entries) => {
            let mut out: Vec<(Yaml, Yaml)> = Vec::new();
            let mut i: usize = 0;
            while i < entries.len()
                invariant
                    i <= entries@.len(),
                    *v == Yaml::Mapping(*entries),
                    out@.len() == i,
                    forall|j: int|
                        0 <= j < i ==> (#[trigger] out@[j]).0@ == entries@[j].0@ && out@[j].1@
                            == without_tags(entries@[j].1@),
                decreases entries@.len() - i,
            {
                assert(decreases_to!(v => v->Mapping_0@[i as int].1));
                out.push((entries[i].0.copy(), strip_reset_tags(&entries[i].1)));
                i += 1;
            }
            let r = Yaml::Mapping(out);
            proof {
                lemma_mapping_contents(*entries);
                assert(entries_view(out@) =~= without_tags(v@)->Mapping_0);
            }
            r
        },
        _ => v.copy(),
    }
}

/// The entries without the first one under `key`; the last entry takes its place.
pub open spec fn remove_key(
    entries: Seq<(YamlView, YamlView)>,
    key: YamlView,
) -> Seq<(YamlView, YamlView)> {
    match key_index(entries, key) {
        Some(i) => entries.update(i, entries.last()).drop_last(),
        None => entries,
    }
}

/// One value laid over another: mappings are merged entry by entry, and any other value replaces
/// what is under it.
pub open spec fn merged(base: YamlView, over: YamlView) -> YamlView
    decreases over,
{
    match (base, over) {
        (YamlView::Mapping(b), YamlView::Mapping(o)) => YamlView::Mapping(merged_entries(b, o)),
        _ => over,
    }
}

/// Entries laid over others, in order: `extends` is passed over, a null removes its key, and any
/// other value is laid over the value that the key had.
pub open spec fn merged_entries(
    base: Seq<(YamlView, YamlView)>,
    over: Seq<(YamlView, YamlView)>,
) -> Seq<(YamlView, YamlView)>
    decreases over,
{
    if over.len() == 0 {
        base
    } else {
        let (key, value) = over[0];
        let next = if as_text(key) == Some("extends"@) {
            base
        } else if value is Null {
            remove_key(base, key)
        } else {
            match lookup(base, key) {
                Some(under) => remove_key(base, key).push((key, merged(under, value))),
                None => base.push((key, value)),
            }
        };
        merged_entries(next, over.subrange(1, over.len() as int))
    }
}

/// Lays one value over another.
pub fn merge_values(base: Yaml, over: Yaml) -> (r: Yaml)
    ensures
        r@ == merged(base@, over@),
    decreases over@,
{
    broadcast use {lemma_sequence_contents, lemma_mapping_contents};

    match (base, over) {
        (Yaml::Mapping(mut entries), Yaml::Mapping(over_entries)) => {
            let ghost goal = merged_entries(entries_view(entries@), entries_view(over_entries@));
            let ghost all = entries_view(over_entries@);
            let mut i: usize = 0;
            assert(all.skip(0) =~= all);
            while i < over_entries.len()
                invariant
                    i <= over_entries@.len(),
                    all == entries_view(over_entries@),
                    over@ == YamlView::Mapping(all),
                    goal == merged_entries(entries_view(entries@), all.skip(i as int)),
                decreases over_entries@.len() - i,
            {
                let ghost here = all.skip(i as int);
                let ghost under = entries_view(entries@);
                assert(here[0] == all[i as int]);
                assert(here.subrange(1, here.len() as int) =~= all.skip(i + 1));
                assert(decreases_to!(over@ => over@->Mapping_0[i as int].1));
                let key = &over_entries[i].0;
                let value = &over_entries[i].1;
                let skipped = match as_str(key) {
                    Some(t) => text::same(t, "extends"),
                    None => false,
                };
                if !skipped {
                    let found = position(&entries, key);
                    let is_null = match value {
                        Yaml::Null => true,
                        _ => false,
                    };
                    match found {
                        Some(k) => {
                            let (_, old_value) = entries.swap_remove(k);
                            assert(entries_view(entries@) =~= remove_key(under, key@));
                            if !is_null {
                                let laid = merge_values(old_value, value.copy());
                                let ghost before = entries_view(entries@);
                                entries.push((key.copy(), laid));
                                assert(entries_view(entries@) =~= before.push((key@, laid@)));
                            }
                        },
                        None => {
                            if !is_null {
                                entries.push((key.copy(), value.copy()));
                                assert(entries_view(entries@) =~= under.push((key@, value@)));
                            }
                        },
                    }
                }
                i += 1;
            }
            Yaml::Mapping(entries)
        },
        (_, over) => over,
    }
}

/// Whether no key occurs twice.
pub open spec fn keys_unique(entries: Seq<(YamlView, YamlView)>) -> bool {
    forall|i: int, j: int|
        0 <= i < j < entries.len() ==> !same_value(
            (#[trigger] entries[i]).0,
            (#[trigger] entries[j]).0,
            false,
        )
}

/// Whether no key is the same as `key` but for the sign of a zero.
pub open spec fn told_apart(entries: Seq<(YamlView, YamlView)>, key: YamlView) -> bool {
    forall|i: int| 0 <= i < entries.len() ==> #[trigger] key_told_apart(key, entries[i].0)
}

/// Whether two keys do not differ by the sign of a zero alone.
pub open spec fn key_told_apart(key: YamlView, other: YamlView) -> bool {
    same_value(key, other, true) ==> same_value(key, other, false)
}

/// What is the same as a value has that value the same as itself.
proof fn lemma_same_turns(a: YamlView, b: YamlView, zeros: bool)
    requires
        same_value(a, b, zeros),
    ensures
        same_value(b, a, zeros),
    decreases a,
{
    match (a, b) {
        (YamlView::Sequence(x), YamlView::Sequence(y)) => {
            assert forall|i: int| #![trigger y[i]] 0 <= i < y.len() implies same_value(
                y[i],
                x[i],
                zeros,
            ) by {
                assert(same_value(x[i], y[i], zeros));
                lemma_same_turns(x[i], y[i], zeros);
            }
        },
        (YamlView::Mapping(x), YamlView::Mapping(y)) => {
            let one = zeros && y.len() == 1;
            lemma_same_mappings(x, y, zeros);
            lemma_same_mappings(y, x, zeros);
            assert forall|j: int| 0 <= j < y.len() implies #[trigger] some_entry_same(
                y[j],
                x,
                zeros,
            ) by {
                assert(same_as_some_entry(x, y[j], zeros));
                let i = choose|i: int|
                    0 <= i < x.len() && same_entry(#[trigger] x[i], y[j], zeros, one);
                lemma_same_turns(x[i].0, y[j].0, one);
                lemma_same_turns(x[i].1, y[j].1, zeros);
                assert(same_entry(y[j], x[i], zeros, one));
            }
            assert forall|i: int| 0 <= i < x.len() implies #[trigger] same_as_some_entry(
                y,
                x[i],
                zeros,
            ) by {
                assert(some_entry_same(x[i], y, zeros));
                let j = choose|j: int|
                    0 <= j < y.len() && same_entry(x[i], #[trigger] y[j], zeros, one);
                lemma_same_turns(x[i].0, y[j].0, one);
                lemma_same_turns(x[i].1, y[j].1, zeros);
                assert(same_entry(y[j], x[i], zeros, one));
            }
        },
        (YamlView::Tagged(_, x), YamlView::Tagged(_, y)) => lemma_same_turns(*x, *y, zeros),
        _ => {},
    }
}

/// Two values that are the same as a third are the same.
proof fn lemma_same_chains(a: YamlView, b: YamlView, c: YamlView, zeros: bool)
    requires
        same_value(a, b, zeros),
        same_value(b, c, zeros),
    ensures
        same_value(a, c, zeros),
    decreases a,
{
    match (a, b, c) {
        (YamlView::Sequence(x), YamlView::Sequence(y), YamlView::Sequence(z)) => {
            assert forall|i: int| #![trigger x[i]] 0 <= i < x.len() implies same_value(
                x[i],
                z[i],
                zeros,
            ) by {
                assert(same_value(y[i], z[i], zeros));
                lemma_same_chains(x[i], y[i], z[i], zeros);
            }
        },
        (YamlView::Mapping(x), YamlView::Mapping(y), YamlView::Mapping(z)) => {
            let one = zeros && y.len() == 1;
            lemma_same_mappings(x, y, zeros);
            lemma_same_mappings(y, z, zeros);
            lemma_same_mappings(x, z, zeros);
            assert forall|i: int| 0 <= i < x.len() implies #[trigger] some_entry_same(
                x[i],
                z,
                zeros,
            ) by {
                assert(some_entry_same(x[i], y, zeros));
                let j = choose|j: int|
                    0 <= j < y.len() && same_entry(x[i], #[trigger] y[j], zeros, one);
                assert(some_entry_same(y[j], z, zeros));
                let k = choose|k: int|
                    0 <= k < z.len() && same_entry(y[j], #[trigger] z[k], zeros, one);
                lemma_same_chains(x[i].0, y[j].0, z[k].0, one);
                lemma_same_chains(x[i].1, y[j].1, z[k].1, zeros);
                assert(same_entry(x[i], z[k], zeros, one));
            }
            assert forall|k: int| 0 <= k < z.len() implies #[trigger] same_as_some_entry(
                x,
                z[k],
                zeros,
            ) by {
                assert(same_as_some_entry(y, z[k], zeros));
                let j = choose|j: int|
                    0 <= j < y.len() && same_entry(#[trigger] y[j], z[k], zeros, one);
                assert(same_as_some_entry(x, y[j], zeros));
                let i = choose|i: int|
                    0 <= i < x.len() && same_entry(#[trigger] x[i], y[j], zeros, one);
                lemma_same_chains(x[i].0, y[j].0, z[k].0, one);
                lemma_same_chains(x[i].1, y[j].1, z[k].1, zeros);
                assert(same_entry(x[i], z[k], zeros, one));
            }
        },
        (YamlView::Tagged(_, x), YamlView::Tagged(_, y), YamlView::Tagged(_, z)) => {
            lemma_same_chains(*x, *y, *z, zeros);
        },
        _ => {},
    }
}

/// Values that are the same with their zeros told apart are the same without.
proof fn lemma_same_loosely(a: YamlView, b: YamlView, zeros: bool)
    requires
        same_value(a, b, false),
    ensures
        same_value(a, b, zeros),
    decreases a,
{
    match (a, b) {
        (YamlView::Sequence(x), YamlView::Sequence(y)) => {
            assert forall|i: int| #![trigger x[i]] 0 <= i < x.len() implies same_value(
                x[i],
                y[i],
                zeros,
            ) by {
                lemma_same_loosely(x[i], y[i], zeros);
            }
        },
        (YamlView::Mapping(x), YamlView::Mapping(y)) => {
            let one = zeros && y.len() == 1;
            lemma_same_mappings(x, y, zeros);
            lemma_same_mappings(x, y, false);
            assert forall|i: int| 0 <= i < x.len() implies #[trigger] some_entry_same(
                x[i],
                y,
                zeros,
            ) by {
                assert(some_entry_same(x[i], y, false));
                let j = choose|j: int|
                    0 <= j < y.len() && same_entry(x[i], #[trigger] y[j], false, false);
                lemma_same_loosely(x[i].0, y[j].0, one);
                lemma_same_loosely(x[i].1, y[j].1, zeros);
                assert(same_entry(x[i], y[j], zeros, one));
            }
            assert forall|j: int| 0 <= j < y.len() implies #[trigger] same_as_some_entry(
                x,
                y[j],
                zeros,
            ) by {
                assert(same_as_some_entry(x, y[j], false));
                let i = choose|i: int|
                    0 <= i < x.len() && same_entry(#[trigger] x[i], y[j], false, false);
                lemma_same_loosely(x[i].0, y[j].0, one);
                lemma_same_loosely(x[i].1, y[j].1, zeros);
                assert(same_entry(x[i], y[j], zeros, one));
            }
        },
        (YamlView::Tagged(_, x), YamlView::Tagged(_, y)) => lemma_same_loosely(*x, *y, zeros),
        _ => {},
    }
}

/// Values that are the same are the same text, or both none.
proof fn lemma_same_text(a: YamlView, b: YamlView, zeros: bool)
    requires
        same_value(a, b, zeros),
    ensures
        as_text(a) == as_text(b),
    decreases a,
{
    if let (YamlView::Tagged(_, x), YamlView::Tagged(_, y)) = (a, b) {
        lemma_same_text(*x, *y, zeros);
    }
}

/// A key that is told apart is found at the entry with the same key.
proof fn lemma_lookup_at(entries: Seq<(YamlView, YamlView)>, key: YamlView, i: int)
    requires
        keys_unique(entries),
        told_apart(entries, key),
        0 <= i < entries.len(),
        same_value(key, entries[i].0, false),
    ensures
        lookup(entries, key) == Some(entries[i].1),
{
    let zeros = entries.len() == 1;
    lemma_index_of_key(entries, key, zeros);
    lemma_same_loosely(key, entries[i].0, zeros);
    let k = key_index(entries, key)->0;
    assert(key_told_apart(key, entries[k].0));
    if k != i {
        lemma_same_turns(key, entries[i].0, false);
        lemma_same_turns(key, entries[k].0, false);
        lemma_same_chains(entries[i].0, key, entries[k].0, false);
        lemma_same_chains(entries[k].0, key, entries[i].0, false);
    }
}

/// A key that is told apart is not found where no entry has the same key.
proof fn lemma_lookup_none(entries: Seq<(YamlView, YamlView)>, key: YamlView)
    requires
        told_apart(entries, key),
        forall|i: int|
            #![trigger entries[i]]
            0 <= i < entries.len() ==> !same_value(key, entries[i].0, false),
    ensures
        lookup(entries, key) is None,
{
    let zeros = entries.len() == 1;
    lemma_index_of_key(entries, key, zeros);
    if let Some(k) = key_index(entries, key) {
        assert(key_told_apart(key, entries[k].0));
    }
}

/// Removing a key leaves no entry with the same key, and leaves the other keys as they were.
proof fn lemma_remove_key(entries: Seq<(YamlView, YamlView)>, removed: YamlView, key: YamlView)
    requires
        keys_unique(entries),
        told_apart(entries, key),
        key_told_apart(key, removed),
    ensures
        keys_unique(remove_key(entries, removed)),
        told_apart(remove_key(entries, removed), key),
        forall|j: int|
            #![trigger remove_key(entries, removed)[j]]
            0 <= j < remove_key(entries, removed).len() ==> !same_value(
                removed,
                remove_key(entries, removed)[j].0,
                false,
            ),
        lookup(remove_key(entries, removed), key) == if same_value(removed, key, false) {
            None
        } else {
            lookup(entries, key)
        },
{
    let zeros = entries.len() == 1;
    let out = remove_key(entries, removed);
    lemma_index_of_key(entries, removed, zeros);
    let n = entries.len() - 1;
    let gone = key_index(entries, removed);
    let at = |j: int|
        if gone == Some(j) {
            n
        } else {
            j
        };
    if let Some(i) = gone {
        assert forall|j: int| 0 <= j < n implies #[trigger] out[j] == entries[at(j)] by {}
        assert forall|j: int, k: int| 0 <= j < k < out.len() implies !same_value(
            (#[trigger] out[j]).0,
            (#[trigger] out[k]).0,
            false,
        ) by {
            if same_value(out[j].0, out[k].0, false) {
                lemma_same_turns(out[j].0, out[k].0, false);
                let p = at(j);
                let q = at(k);
                assert(entries[p] == out[j] && entries[q] == out[k]);
                assert(p < q || q < p);
            }
        }
    }
    assert forall|j: int| #![trigger out[j]] 0 <= j < out.len() implies !same_value(
        removed,
        out[j].0,
        false,
    ) by {
        if same_value(removed, out[j].0, false) {
            lemma_same_loosely(removed, out[j].0, zeros);
            match gone {
                Some(i) => {
                    let p = at(j);
                    assert(entries[p] == out[j] && p != i);
                    assert(!zeros);
                    lemma_same_turns(removed, entries[i].0, false);
                    lemma_same_chains(entries[i].0, removed, entries[p].0, false);
                    lemma_same_turns(entries[i].0, entries[p].0, false);
                    assert(i < p || p < i);
                },
                None => {
                    assert(entries[j] == out[j]);
                },
            }
        }
    }
    assert forall|j: int| 0 <= j < out.len() implies #[trigger] key_told_apart(key, out[j].0) by {
        if gone is Some {
            assert(out[j] == entries[at(j)]);
            assert(key_told_apart(key, entries[at(j)].0));
        } else {
            assert(key_told_apart(key, entries[j].0));
        }
    }
    if same_value(removed, key, false) {
        assert forall|j: int| #![trigger out[j]] 0 <= j < out.len() implies !same_value(
            key,
            out[j].0,
            false,
        ) by {
            if same_value(key, out[j].0, false) {
                lemma_same_chains(removed, key, out[j].0, false);
            }
        }
        lemma_lookup_none(out, key);
    } else if exists|m: int|
        0 <= m < entries.len() && same_value(key, (#[trigger] entries[m]).0, false) {
        let m = choose|m: int|
            0 <= m < entries.len() && same_value(key, (#[trigger] entries[m]).0, false);
        lemma_lookup_at(entries, key, m);
        if let Some(i) = gone {
            if m == i {
                lemma_same_loosely(key, entries[i].0, zeros);
                lemma_same_turns(removed, entries[i].0, zeros);
                lemma_same_chains(key, entries[i].0, removed, zeros);
                lemma_same_turns(key, removed, false);
            }
            let p = if m == n {
                i
            } else {
                m
            };
            assert(out[p] == entries[at(p)]);
            lemma_lookup_at(out, key, p);
        }
    } else {
        lemma_lookup_none(entries, key);
        assert forall|j: int| #![trigger out[j]] 0 <= j < out.len() implies !same_value(
            key,
            out[j].0,
            false,
        ) by {
            if gone is Some {
                assert(out[j] == entries[at(j)]);
            } else {
                assert(out[j] == entries[j]);
            }
        }
        lemma_lookup_none(out, key);
    }
}

/// An entry with a new key is found under it, and leaves the other keys as they were.
proof fn lemma_push_entry(
    entries: Seq<(YamlView, YamlView)>,
    added: YamlView,
    value: YamlView,
    key: YamlView,
)
    requires
        keys_unique(entries),
        told_apart(entries, key),
        key_told_apart(key, added),
        forall|j: int|
            #![trigger entries[j]]
            0 <= j < entries.len() ==> !same_value(added, entries[j].0, false),
    ensures
        keys_unique(entries.push((added, value))),
        told_apart(entries.push((added, value)), key),
        lookup(entries.push((added, value)), key) == if same_value(added, key, false) {
            Some(value)
        } else {
            lookup(entries, key)
        },
{
    let out = entries.push((added, value));
    let n = entries.len() as int;
    assert forall|j: int, k: int| 0 <= j < k < out.len() implies !same_value(
        (#[trigger] out[j]).0,
        (#[trigger] out[k]).0,
        false,
    ) by {
        assert(out[j] == entries[j]);
        if k < n {
            assert(out[k] == entries[k]);
        } else if same_value(out[j].0, added, false) {
            lemma_same_turns(out[j].0, added, false);
        }
    }
    assert forall|j: int| 0 <= j < out.len() implies #[trigger] key_told_apart(key, out[j].0) by {
        if j < n {
            assert(key_told_apart(key, entries[j].0));
        }
    }
    if same_value(added, key, false) {
        lemma_same_turns(added, key, false);
        lemma_lookup_at(out, key, n);
    } else if exists|m: int|
        0 <= m < entries.len() && same_value(key, (#[trigger] entries[m]).0, false) {
        let m = choose|m: int|
            0 <= m < entries.len() && same_value(key, (#[trigger] entries[m]).0, false);
        assert(out[m] == entries[m]);
        lemma_lookup_at(entries, key, m);
        lemma_lookup_at(out, key, m);
    } else {
        lemma_lookup_none(entries, key);
        assert forall|j: int| #![trigger out[j]] 0 <= j < out.len() implies !same_value(
            key,
            out[j].0,
            false,
        ) by {
            if j < n {
                assert(out[j] == entries[j]);
            } else if same_value(key, added, false) {
                lemma_same_turns(key, added, false);
            }
        }
        lemma_lookup_none(out, key);
    }
}

/// What a mapping holds under a key after another is laid over it, given the values that the key
/// has in the two.
pub open spec fn overlaid(
    key: YamlView,
    under: Option<YamlView>,
    over: Option<YamlView>,
) -> Option<YamlView> {
    if as_text(key) == Some("extends"@) {
        under
    } else {
        match over {
            None => under,
            Some(YamlView::Null) => None,
            Some(value) => match under {
                Some(u) => Some(merged(u, value)),
                None => Some(value),
            },
        }
    }
}

/// What the first entry of a mapping and the others hold under a key that is told apart.
proof fn lemma_lookup_first(entries: Seq<(YamlView, YamlView)>, key: YamlView)
    requires
        keys_unique(entries),
        told_apart(entries, key),
        entries.len() > 0,
    ensures
        keys_unique(entries.skip(1)),
        told_apart(entries.skip(1), key),
        lookup(entries, key) == if same_value(entries[0].0, key, false) {
            Some(entries[0].1)
        } else {
            lookup(entries.skip(1), key)
        },
        same_value(entries[0].0, key, false) ==> lookup(entries.skip(1), key) is None,
{
    let rest = entries.skip(1);
    assert forall|j: int| 0 <= j < rest.len() implies #[trigger] rest[j] == entries[j + 1] by {}
    assert forall|j: int| 0 <= j < rest.len() implies #[trigger] key_told_apart(key, rest[j].0) by {
        assert(key_told_apart(key, entries[j + 1].0));
    }
    if same_value(entries[0].0, key, false) {
        lemma_same_turns(entries[0].0, key, false);
        lemma_lookup_at(entries, key, 0);
        assert forall|j: int| #![trigger rest[j]] 0 <= j < rest.len() implies !same_value(
            key,
            rest[j].0,
            false,
        ) by {
            if same_value(key, rest[j].0, false) {
                lemma_same_chains(entries[0].0, key, rest[j].0, false);
                assert(rest[j] == entries[j + 1]);
            }
        }
        lemma_lookup_none(rest, key);
    } else if exists|m: int|
        0 <= m < entries.len() && same_value(key, (#[trigger] entries[m]).0, false) {
        let m = choose|m: int|
            0 <= m < entries.len() && same_value(key, (#[trigger] entries[m]).0, false);
        lemma_same_turns(key, entries[m].0, false);
        lemma_lookup_at(entries, key, m);
        assert(rest[m - 1] == entries[m]);
        lemma_lookup_at(rest, key, m - 1);
    } else {
        lemma_lookup_none(entries, key);
        assert forall|j: int| #![trigger rest[j]] 0 <= j < rest.len() implies !same_value(
            key,
            rest[j].0,
            false,
        ) by {
            assert(rest[j] == entries[j + 1]);
        }
        lemma_lookup_none(rest, key);
    }
}

/// Laying one mapping over another works key by key: a key that the upper mapping lacks keeps its
/// value, a null there removes it, any other value is laid over it, and `extends` is untouched.
/// No key comes to occur twice. The key is one that no key of the two mappings differs from by the
/// sign of a zero alone.
pub proof fn law_merge_works_key_by_key(
    base: Seq<(YamlView, YamlView)>,
    over: Seq<(YamlView, YamlView)>,
    key: YamlView,
)
    requires
        keys_unique(base),
        keys_unique(over),
        told_apart(base, key),
        told_apart(over, key),
    ensures
        keys_unique(merged_entries(base, over)),
        lookup(merged_entries(base, over), key) == overlaid(
            key,
            lookup(base, key),
            lookup(over, key),
        ),
    decreases over.len(),
{
    if over.len() > 0 {
        let (k, value) = over[0];
        let rest = over.subrange(1, over.len() as int);
        assert(rest =~= over.skip(1));
        lemma_lookup_first(over, key);
        assert(key_told_apart(key, over[0].0));
        lemma_remove_key(base, k, key);
        let removed = remove_key(base, k);
        if same_value(k, key, false) {
            lemma_same_text(k, key, false);
            lemma_same_turns(k, key, false);
            let zeros = base.len() == 1;
            lemma_index_of_key(base, k, zeros);
            match key_index(base, k) {
                Some(i) => {
                    lemma_same_loosely(key, k, zeros);
                    lemma_same_chains(key, k, base[i].0, zeros);
                    assert(key_told_apart(key, base[i].0));
                    lemma_lookup_at(base, key, i);
                },
                None => {
                    assert(removed == base);
                },
            }
        }
        let next = if as_text(k) == Some("extends"@) {
            base
        } else if value is Null {
            removed
        } else {
            match lookup(base, k) {
                Some(under) => removed.push((k, merged(under, value))),
                None => base.push((k, value)),
            }
        };
        if as_text(k) != Some("extends"@) && !(value is Null) {
            match lookup(base, k) {
                Some(under) => lemma_push_entry(removed, k, merged(under, value), key),
                None => lemma_push_entry(removed, k, value, key),
            }
        }
        law_merge_works_key_by_key(next, rest, key);
    }
}

/// The outside type of parsed YAML; its contents are named by `yaml_contents`.
#[verifier::external_type_specification]
#[verifier::external_body]
pub struct ExYamlValue(serde_yml::Value);

/// What a parsed YAML value holds: the tree of its items and entries, in order, with each number
/// by its printed form and each tag by its printed form.
pub uninterp spec fn yaml_contents(value: serde_yml::Value) -> YamlView;

/// The value that a YAML text denotes, or the message that says why it denotes none.
pub uninterp spec fn yaml_document(text: Seq<char>) -> Result<YamlView, Seq<char>>;

/// One level of a parsed YAML value.
pub enum YamlNode {
    Null,
    Bool(bool),
    Number(String),
    Text(String),
    Sequence(Vec<serde_yml::Value>),
    Mapping(Vec<(serde_yml::Value, serde_yml::Value)>),
    Tagged(String, serde_yml::Value),
}

/// Parses a text with `serde_yml::from_str` into a `serde_yml::Value`. The outcome, value or error
/// message, depends on the text alone.
#[verifier::external_body]
fn yaml_from_str(source: &str) -> (r: Result<serde_yml::Value, String>)
    ensures
        yaml_document(source@) == match r {
            Ok(value) => Ok(yaml_contents(value)),
            Err(message) => Err(message@),
        },
{
    serde_yml::from_str::<serde_yml::Value>(source).map_err(|error| error.to_string())
}

/// Opens one level of a `serde_yml::Value`: tells its variants apart and moves its fields out. A
/// number and a tag are handed out by their `Display` form.
#[verifier::external_body]
fn yaml_open(value: serde_yml::Value) -> (node: YamlNode)
    ensures
        yaml_contents(value) == match node {
            YamlNode::Null => YamlView::Null,
            YamlNode::Bool(b) => YamlView::Bool(b),
            YamlNode::Number(n) => YamlView::Number(n@),
            YamlNode::Text(t) => YamlView::Text(t@),
            YamlNode::Sequence(items) => YamlView::Sequence(
                items@.map_values(|v: serde_yml::Value| yaml_contents(v)),
            ),
            YamlNode::Mapping(entries) => YamlView::Mapping(
                entries@.map_values(
                    |e: (serde_yml::Value, serde_yml::Value)|
                        (yaml_contents(e.0), yaml_contents(e.1)),
                ),
            ),
            YamlNode::Tagged(tag, inner) => YamlView::Tagged(tag@, Box::new(yaml_contents(inner))),
        },
{
    match value {
        serde_yml::Value::Null => YamlNode::Null,
        serde_yml::Value::Bool(flag) => YamlNode::Bool(flag),
        serde_yml::Value::Number(number) => YamlNode::Number(number.to_string()),
        serde_yml::Value::String(text) => YamlNode::Text(text),
        serde_yml::Value::Sequence(items) => YamlNode::Sequence(items),
        serde_yml::Value::Mapping(entries) => YamlNode::Mapping(entries.into_iter().collect()),
        serde_yml::Value::Tagged(tagged) => YamlNode::Tagged(tagged.tag.to_string(), tagged.value),
    }
}

/// Turns a parsed YAML value into a value of this library.
fn from_yaml(value: serde_yml::Value) -> (r: Yaml)
    ensures
        r@ == yaml_contents(value),
    decreases yaml_contents(value),
{
    broadcast use {lemma_sequence_contents, lemma_mapping_contents};

    match yaml_open(value) {
        YamlNode::Null => Yaml::Null,
        YamlNode::Bool(b) => Yaml::Bool(b),
        YamlNode::Number(n) => Yaml::Number(n),
        YamlNode::Text(t) => Yaml::Text(t),
        YamlNode::Sequence(items) => {
            let ghost all = items@.map_values(|v: serde_yml::Value| yaml_contents(v));
            let mut out: Vec<Yaml> = Vec::new();
            for item in it: items
                invariant
                    it.seq() == items@,
                    all == items@.map_values(|v: serde_yml::Value| yaml_contents(v)),
                    yaml_contents(value) == YamlView::Sequence(all),
                    items_view(out@) == all.take(it.index()),
            {
                let ghost before = out@;
                let ghost at = it.index();
                assert(decreases_to!(
                    yaml_contents(value) => yaml_contents(value)->Sequence_0[at]
                ));
                let converted = from_yaml(item);
                out.push(converted);
                assert(items_view(out@) =~= items_view(before).push(converted@));
                assert(items_view(out@) =~= all.take(at + 1));
            }
            assert(items_view(out@) =~= all);
            Yaml::Sequence(out)
        },
        YamlNode::Mapping(entries) => {
            let ghost all = entries@.map_values(
                |e: (serde_yml::Value, serde_yml::Value)|
                    (yaml_contents(e.0), yaml_contents(e.1)),
            );
            let mut out: Vec<(Yaml, Yaml)> = Vec::new();
            for entry in it: entries
                invariant
                    it.seq() == entries@,
                    all == entries@.map_values(
                        |e: (serde_yml::Value, serde_yml::Value)|
                            (yaml_contents(e.0), yaml_contents(e.1)),
                    ),
                    yaml_contents(value) == YamlView::Mapping(all),
                    entries_view(out@) == all.take(it.index()),
            {
                let ghost before = out@;
                let ghost at = it.index();
                assert(decreases_to!(
                    yaml_contents(value) => yaml_contents(value)->Mapping_0[at].0
                ));
                assert(decreases_to!(
                    yaml_contents(value) => yaml_contents(value)->Mapping_0[at].1
                ));
                let key = from_yaml(entry.0);
                let held = from_yaml(entry.1);
                out.push((key, held));
                assert(entries_view(out@) =~= entries_view(before).push((key@, held@)));
                assert(entries_view(out@) =~= all.take(at + 1));
            }
            assert(entries_view(out@) =~= all);
            Yaml::Mapping(out)
        },
        YamlNode::Tagged(tag, inner) => {
            assert(decreases_to!(yaml_contents(value) => *yaml_contents(value)->Tagged_1));
            Yaml::Tagged(tag, Box::new(from_yaml(inner)))
        },
    }
}

/// Reads a YAML text.
pub fn parse_yaml(source: &str) -> (r: Result<Yaml, String>)
    ensures
        yaml_document(source@) == match r {
            Ok(value) => Ok(value@),
            Err(message) => Err(message@),
        },
{
    match yaml_from_str(source) {
        Ok(value) => Ok(from_yaml(value)),
        Err(message) => Err(message),
    }
}

/// A value that is laid over another replaces it, unless both are mappings: then what is laid over
/// the mapping under it is a mapping again.
pub proof fn law_a_value_replaces_what_is_under_it(base: YamlView, over: YamlView)
    ensures
        !(base is Mapping) || !(over is Mapping) ==> merged(base, over) == over,
        base is Mapping && over is Mapping ==> merged(base, over) is Mapping,
        merged(base, YamlView::Null) is Null,
{
}

/// In a mapping that is laid over another, a value that is neither null nor a mapping replaces the
/// one that was there, a null removes it, and a key that only one of the two has keeps its value.
pub proof fn law_the_upper_value_wins(
    base: Seq<(YamlView, YamlView)>,
    over: Seq<(YamlView, YamlView)>,
    key: Seq<char>,
)
    requires
        keys_unique(base),
        keys_unique(over),
        key != "extends"@,
    ensures
        ({
            let name = YamlView::Text(key);
            let both = merged(YamlView::Mapping(base), YamlView::Mapping(over));
            let found = lookup(both->Mapping_0, name);
            let under = lookup(base, name);
            let upper = lookup(over, name);
            &&& both is Mapping
            &&& upper is None ==> found == under
            &&& upper == Some(YamlView::Null) ==> found is None
            &&& upper is Some && !(upper->0 is Null) && !(upper->0 is Mapping) ==> found == upper
            &&& upper is Some && !(upper->0 is Null) && under is None ==> found == upper
            &&& upper is Some && upper->0 is Mapping && under is Some && under->0 is Mapping
                ==> found is Some && found->0 == merged(under->0, upper->0)
            &&& upper is Some && upper->0 is Mapping && under is Some && !(under->0 is Mapping)
                ==> found == upper
        }),
{
    let name = YamlView::Text(key);
    lemma_text_told_apart(base, key);
    lemma_text_told_apart(over, key);
    law_merge_works_key_by_key(base, over, name);
    assert(as_text(name) == Some(key));
}

/// A text is the same as itself alone, whatever is made of zeros.
proof fn lemma_text_told_apart(entries: Seq<(YamlView, YamlView)>, key: Seq<char>)
    ensures
        told_apart(entries, YamlView::Text(key)),
{
    assert forall|i: int| 0 <= i < entries.len() implies #[trigger] key_told_apart(
        YamlView::Text(key),
        entries[i].0,
    ) by {}
}

/// A key of its own wins over what is merged into a mapping with `<<`; a key that the mapping lacks
/// is looked for in the mapping that is merged into it, or in those of a sequence, one after the
/// other.
pub proof fn law_own_keys_win_over_merged_ones(
    entries: Seq<(YamlView, YamlView)>,
    key: Seq<char>,
    inner: Seq<(YamlView, YamlView)>,
    items: Seq<YamlView>,
)
    ensures
        ({
            let own = lookup(entries, YamlView::Text(key));
            let merged_in = lookup(entries, YamlView::Text("<<"@));
            let found = mapping_get_view(entries, key);
            &&& own is Some ==> found == own
            &&& own is None && merged_in is None ==> found is None
            &&& own is None && merged_in == Some(YamlView::Mapping(inner)) ==> found
                == mapping_get_view(inner, key)
            &&& own is None && merged_in == Some(YamlView::Sequence(items)) && items.len() > 0 && (
            items[0] matches YamlView::Mapping(m) && mapping_get_view(m, key) is Some) ==> found
                == mapping_get_view(items[0]->Mapping_0, key)
            &&& own is None && merged_in == Some(YamlView::Sequence(seq![])) ==> found is None
            &&& first_mapping_get(items, key) is None ==> first_mapping_get(
                items.push(YamlView::Mapping(inner)),
                key,
            ) == mapping_get_view(inner, key)
        }),
    decreases items.len(),
{
    if first_mapping_get(items, key) is None {
        let more = items.push(YamlView::Mapping(inner));
        if items.len() > 0 {
            let rest = items.subrange(1, items.len() as int);
            law_own_keys_win_over_merged_ones(entries, key, inner, rest);
            assert(more.subrange(1, more.len() as int) =~= rest.push(YamlView::Mapping(inner)));
            assert(more[0] == items[0]);
        } else {
            assert(more[0] == YamlView::Mapping(inner));
            assert(more.subrange(1, more.len() as int) =~= seq![]);
            assert(first_mapping_get(seq![], key) is None);
        }
    }
}

/// A text key is found at the entry that has it, where no key occurs twice.
pub proof fn law_a_key_finds_its_value(
    entries: Seq<(YamlView, YamlView)>,
    key: Seq<char>,
    i: int,
)
    requires
        keys_unique(entries),
        0 <= i < entries.len(),
        entries[i].0 == YamlView::Text(key),
    ensures
        lookup(entries, YamlView::Text(key)) == Some(entries[i].1),
        get_text(YamlView::Mapping(entries), key) == as_text(entries[i].1),
        has_key(YamlView::Mapping(entries), key),
{
    lemma_text_told_apart(entries, key);
    lemma_lookup_at(entries, YamlView::Text(key), i);
}

/// A value that is to be reset is null, whatever stands there; other tags leave the value as it is,
/// and what has no tags stays the same.
pub proof fn law_a_reset_value_is_null(tag: Seq<char>, inner: YamlView, v: YamlView)
    ensures
        without_tags(YamlView::Tagged("!reset"@, Box::new(inner))) is Null,
        tag != "!reset"@ ==> without_tags(YamlView::Tagged(tag, Box::new(inner))) == without_tags(
            inner,
        ),
        v is Null || v is Bool || v is Number || v is Text ==> without_tags(v) == v,
        without_tags(without_tags(v)) == without_tags(v),
        !(without_tags(v) is Tagged),
    decreases v,
{
    lemma_untagged_once(v);
}

proof fn lemma_untagged_once(v: YamlView)
    ensures
        without_tags(without_tags(v)) == without_tags(v),
        !(without_tags(v) is Tagged),
    decreases v,
{
    match v {
        YamlView::Tagged(tag, inner) => {
            lemma_untagged_once(*inner);
        },
        YamlView::Sequence(items) => {
            let once = without_tags(v)->Sequence_0;
            let twice = without_tags(without_tags(v))->Sequence_0;
            assert forall|i: int| 0 <= i < items.len() implies twice[i] == once[i] by {
                lemma_untagged_once(items[i]);
            }
            assert(twice =~= once);
        },
        YamlView::Mapping(entries) => {
            let once = without_tags(v)->Mapping_0;
            let twice = without_tags(without_tags(v))->Mapping_0;
            assert forall|i: int| 0 <= i < entries.len() implies twice[i] == once[i] by {
                lemma_untagged_once(entries[i].1);
            }
            assert(twice =~= once);
        },
        _ => {},
    }
}

} // verus!
