//! IDE model id -> provider model.
//!
//! A miss is not an error: an unmapped model means "leave this conversation alone", and the
//! router passes it through to the real upstream untouched.

use vstd::prelude::*;

use crate::text::same;

verus! {

/// What a list of entries gives for a key: the value of the first entry with that key.
pub open spec fn entry(entries: Seq<(Seq<char>, Seq<char>)>, key: Seq<char>) -> Option<Seq<char>>
    decreases entries.len(),
{
    if entries.len() == 0 {
        None
    } else if entries[0].0 == key {
        Some(entries[0].1)
    } else {
        entry(entries.skip(1), key)
    }
}

/// No key occurs twice.
pub open spec fn distinct(entries: Seq<(Seq<char>, Seq<char>)>) -> bool {
    forall|i: int, j: int|
        0 <= i < j < entries.len() ==> (#[trigger] entries[i]).0 != (#[trigger] entries[j]).0
}

/// The entries that a list of strings holds.
pub open spec fn entry_seq(entries: Seq<(String, String)>) -> Seq<(Seq<char>, Seq<char>)> {
    entries.map_values(|e: (String, String)| (e.0@, e.1@))
}

#[derive(Debug, Clone, Default)]
pub struct ModelMap {
    /// Exact model id -> provider model name. No id occurs twice.
    pub models: Vec<(String, String)>,
    /// Applied when no exact entry matches. `None` means "pass through".
    pub default: Option<String>,
}

/// Entries with one more, or with the value of the first entry of that key replaced.
pub open spec fn with_entry(
    entries: Seq<(Seq<char>, Seq<char>)>,
    key: Seq<char>,
    value: Seq<char>,
) -> Seq<(Seq<char>, Seq<char>)>
    decreases entries.len(),
{
    if entries.len() == 0 {
        seq![(key, value)]
    } else if entries[0].0 == key {
        seq![(key, value)] + entries.skip(1)
    } else {
        seq![entries[0]] + with_entry(entries.skip(1), key, value)
    }
}

/// Where the first entry of a key is replaced, or a new one comes last.
proof fn lemma_with_entry(
    entries: Seq<(Seq<char>, Seq<char>)>,
    key: Seq<char>,
    value: Seq<char>,
    i: int,
)
    requires
        0 <= i <= entries.len(),
        forall|j: int| 0 <= j < i ==> (#[trigger] entries[j]).0 != key,
        i < entries.len() ==> entries[i].0 == key,
    ensures
        with_entry(entries, key, value) == if i < entries.len() {
            entries.update(i, (key, value))
        } else {
            entries.push((key, value))
        },
    decreases entries.len(),
{
    if entries.len() > 0 {
        if i == 0 {
            assert(seq![(key, value)] + entries.skip(1) =~= entries.update(0, (key, value)));
        } else {
            let rest = entries.skip(1);
            assert(entries[0].0 != key);
            assert forall|j: int| 0 <= j < i - 1 implies (#[trigger] rest[j]).0 != key by {
                assert(entries[j + 1].0 != key);
            }
            lemma_with_entry(rest, key, value, i - 1);
            if i < entries.len() {
                assert(seq![entries[0]] + rest.update(i - 1, (key, value)) =~= entries.update(
                    i,
                    (key, value),
                ));
            } else {
                assert(seq![entries[0]] + rest.push((key, value)) =~= entries.push((key, value)));
            }
        }
    } else {
        assert(seq![(key, value)] =~= entries.push((key, value)));
    }
}

impl ModelMap {
    /// Map an id to a provider model, whatever it was mapped to before.
    pub fn insert(&mut self, id: String, model: String)
        ensures
            entry_seq(final(self).models@) == with_entry(
                entry_seq(old(self).models@),
                id@,
                model@,
            ),
            final(self).default == old(self).default,
            old(self).wf() ==> final(self).wf(),
    {
        let ghost all = entry_seq(self.models@);
        let mut i: usize = 0;
        while i < self.models.len() && !same(self.models[i].0.as_str(), id.as_str())
            invariant
                i <= self.models@.len(),
                all == entry_seq(self.models@),
                self.default == old(self).default,
                forall|j: int| 0 <= j < i ==> (#[trigger] all[j]).0 != id@,
            decreases self.models@.len() - i,
        {
            assert(all[i as int].0 == self.models@[i as int].0@);
            i += 1;
        }
        proof {
            assert(i < self.models@.len() ==> all[i as int].0 == self.models@[i as int].0@);
            lemma_with_entry(all, id@, model@, i as int);
            if distinct(all) {
                law_entries_stay_distinct(all, id@, model@, i as int);
            }
        }
        let ghost key = id@;
        let ghost value = model@;
        if i < self.models.len() {
            self.models.set(i, (id, model));
            assert(entry_seq(self.models@) =~= all.update(i as int, (key, value)));
        } else {
            self.models.push((id, model));
            assert(entry_seq(self.models@) =~= all.push((key, value)));
        }
    }

    /// No id is mapped twice.
    pub open spec fn wf(&self) -> bool {
        distinct(entry_seq(self.models@))
    }

    /// The provider model for an id: its own entry, else the default.
    pub open spec fn target(&self, model_id: Seq<char>) -> Option<Seq<char>> {
        match entry(entry_seq(self.models@), model_id) {
            Some(m) => Some(m),
            None => match self.default {
                Some(d) => Some(d@),
                None => None,
            },
        }
    }

    /// The provider model for an id; none means that the conversation is left alone.
    pub fn resolve(&self, model_id: &str) -> (r: Option<&str>)
        ensures
            match r {
                Some(m) => self.target(model_id@) == Some(m@),
                None => self.target(model_id@) is None,
            },
    {
        let mut i: usize = 0;
        let ghost all = entry_seq(self.models@);
        assert(all.skip(0) =~= all);
        while i < self.models.len()
            invariant
                i <= self.models@.len(),
                all == entry_seq(self.models@),
                entry(all, model_id@) == entry(all.skip(i as int), model_id@),
            decreases self.models@.len() - i,
        {
            assert(all.skip(i as int)[0] == all[i as int]);
            assert(all.skip(i as int).skip(1) =~= all.skip(i + 1));
            if same(self.models[i].0.as_str(), model_id) {
                return Some(self.models[i].1.as_str());
            }
            i += 1;
        }
        match &self.default {
            Some(d) => Some(d.as_str()),
            None => None,
        }
    }

    /// Nothing is mapped at all.
    pub fn is_empty(&self) -> (b: bool)
        ensures
            b == (self.models@.len() == 0 && self.default is None),
    {
        self.models.len() == 0 && self.default.is_none()
    }
}

// ── Laws ─────────────────────────────────────────────────────────────────────

/// An entry is found wherever it stands, since no key occurs twice.
pub proof fn law_exact_match_wins(map: ModelMap, i: int)
    requires
        map.wf(),
        0 <= i < map.models@.len(),
    ensures
        map.target(map.models@[i].0@) == Some(map.models@[i].1@),
{
    lemma_entry(entry_seq(map.models@), i);
}

proof fn lemma_entry(entries: Seq<(Seq<char>, Seq<char>)>, i: int)
    requires
        distinct(entries),
        0 <= i < entries.len(),
    ensures
        entry(entries, entries[i].0) == Some(entries[i].1),
    decreases i,
{
    if i > 0 {
        let rest = entries.skip(1);
        assert(distinct(rest)) by {
            assert forall|a: int, b: int| 0 <= a < b < rest.len() implies (#[trigger] rest[a]).0 != (
            #[trigger] rest[b]).0 by {
                assert(entries[a + 1].0 != entries[b + 1].0);
            }
        }
        lemma_entry(rest, i - 1);
        assert(entries[0].0 != entries[i].0);
    }
}

/// To enter a key that stands at `i` or nowhere leaves every key once.
pub proof fn law_entries_stay_distinct(
    entries: Seq<(Seq<char>, Seq<char>)>,
    key: Seq<char>,
    value: Seq<char>,
    i: int,
)
    requires
        distinct(entries),
        0 <= i <= entries.len(),
        forall|j: int| 0 <= j < i ==> (#[trigger] entries[j]).0 != key,
        i < entries.len() ==> entries[i].0 == key,
    ensures
        distinct(with_entry(entries, key, value)),
        entry(with_entry(entries, key, value), key) == Some(value),
{
    lemma_with_entry(entries, key, value, i);
    let now = with_entry(entries, key, value);
    assert forall|a: int, b: int| 0 <= a < b < now.len() implies (#[trigger] now[a]).0 != (
    #[trigger] now[b]).0 by {
        if b < entries.len() {
            assert(entries[a].0 != entries[b].0);
        } else {
            assert(entries[a].0 != key);
        }
    }
    lemma_entry(now, i);
}

/// An empty map leaves every conversation alone.
pub proof fn law_empty_map_passes_everything(map: ModelMap, model_id: Seq<char>)
    requires
        map.models@.len() == 0,
        map.default is None,
    ensures
        map.target(model_id) is None,
{
}

/// What a model is mapped to comes from the map: an entry for that very model, or the fallback where
/// there is none.
pub proof fn law_targets_come_from_the_map(map: ModelMap, model_id: Seq<char>)
    ensures
        map.target(model_id) is Some ==> {
            ||| exists|i: int|
                0 <= i < map.models@.len() && (#[trigger] map.models@[i]).0@ == model_id
                    && map.models@[i].1@ == map.target(model_id)->0
            ||| map.default is Some && map.default->0@ == map.target(model_id)->0 && forall|i: int|
                0 <= i < map.models@.len() ==> (#[trigger] map.models@[i]).0@ != model_id
        },
{
    let all = entry_seq(map.models@);
    lemma_entry_found(all, model_id);
    match entry(all, model_id) {
        Some(m) => {
            let i = choose|i: int|
                0 <= i < all.len() && (#[trigger] all[i]).0 == model_id && all[i].1 == m;
            assert(map.models@[i].0@ == model_id);
        },
        None => {
            assert forall|i: int| 0 <= i < map.models@.len() implies (#[trigger] map.models@[i]).0@
                != model_id by {
                assert(all[i].0 != model_id);
            }
        },
    }
}

/// A model without an entry goes to the fallback, whichever model it is.
pub proof fn law_the_fallback_catches_the_rest(map: ModelMap, model_id: Seq<char>)
    requires
        forall|i: int| 0 <= i < map.models@.len() ==> (#[trigger] map.models@[i]).0@ != model_id,
    ensures
        map.default is Some ==> map.target(model_id) == Some(map.default->0@),
        map.default is None ==> map.target(model_id) is None,
{
    let all = entry_seq(map.models@);
    lemma_entry_found(all, model_id);
    if let Some(m) = entry(all, model_id) {
        let i = choose|i: int|
            0 <= i < all.len() && (#[trigger] all[i]).0 == model_id && all[i].1 == m;
        assert(map.models@[i].0@ == model_id);
    }
}

proof fn lemma_entry_found(entries: Seq<(Seq<char>, Seq<char>)>, key: Seq<char>)
    ensures
        match entry(entries, key) {
            Some(v) => exists|i: int|
                0 <= i < entries.len() && (#[trigger] entries[i]).0 == key && entries[i].1 == v,
            None => forall|i: int| 0 <= i < entries.len() ==> (#[trigger] entries[i]).0 != key,
        },
    decreases entries.len(),
{
    if entries.len() > 0 && entries[0].0 != key {
        let rest = entries.skip(1);
        lemma_entry_found(rest, key);
        match entry(rest, key) {
            Some(v) => {
                let i = choose|i: int|
                    0 <= i < rest.len() && (#[trigger] rest[i]).0 == key && rest[i].1 == v;
                assert(entries[i + 1] == rest[i]);
            },
            None => {
                assert forall|i: int| 0 <= i < entries.len() implies (#[trigger] entries[i]).0
                    != key by {
                    if i > 0 {
                        assert(rest[i - 1] == entries[i]);
                    }
                }
            },
        }
    }
}

/// What a map resolves is what its entries say: an entry of its own first, then the fallback.
pub proof fn law_resolving_goes_by_the_entries(map: &ModelMap, model_id: &str, r: Option<&str>)
    requires
        call_ensures(ModelMap::resolve, (map, model_id), r),
        map.wf(),
    ensures
        forall|i: int|
            0 <= i < map.models@.len() && (#[trigger] map.models@[i]).0@ == model_id@ ==> r is Some
                && r->0@ == map.models@[i].1@,
        (forall|i: int| 0 <= i < map.models@.len() ==> (#[trigger] map.models@[i]).0@ != model_id@)
            ==> match map.default {
            Some(d) => r is Some && r->0@ == d@,
            None => r is None,
        },
{
    assert forall|i: int| 0 <= i < map.models@.len() && (#[trigger] map.models@[i]).0@
        == model_id@ implies r is Some && r->0@ == map.models@[i].1@ by {
        law_exact_match_wins(*map, i);
    }
    if forall|i: int| 0 <= i < map.models@.len() ==> (#[trigger] map.models@[i]).0@ != model_id@ {
        law_the_fallback_catches_the_rest(*map, model_id@);
    }
}

/// To map an id leaves what every other id is mapped to alone.
pub proof fn law_mapping_one_id_leaves_the_others_alone(
    entries: Seq<(Seq<char>, Seq<char>)>,
    key: Seq<char>,
    value: Seq<char>,
    other: Seq<char>,
)
    ensures
        entry(with_entry(entries, key, value), key) == Some(value),
        other != key ==> entry(with_entry(entries, key, value), other) == entry(entries, other),
    decreases entries.len(),
{
    let now = with_entry(entries, key, value);
    reveal_with_fuel(entry, 2);
    if entries.len() == 0 {
        assert(now.skip(1) =~= seq![]);
    } else if entries[0].0 == key {
        assert(now.skip(1) =~= entries.skip(1));
    } else {
        law_mapping_one_id_leaves_the_others_alone(entries.skip(1), key, value, other);
        assert(now.skip(1) =~= with_entry(entries.skip(1), key, value));
    }
}

/// To map an id is to change what that id is mapped to, and nothing else.
pub proof fn law_inserting_maps_one_id(
    map: &mut ModelMap,
    id: String,
    model: String,
    other: Seq<char>,
)
    requires
        call_ensures(ModelMap::insert, (map, id, model), ()),
    ensures
        entry(entry_seq(final(map).models@), id@) == Some(model@),
        other != id@ ==> entry(entry_seq(final(map).models@), other) == entry(
            entry_seq(old(map).models@),
            other,
        ),
        final(map).default == old(map).default,
{
    law_mapping_one_id_leaves_the_others_alone(
        entry_seq(old(map).models@),
        id@,
        model@,
        other,
    );
}

/// A map is empty where it maps nothing.
pub proof fn law_empty_maps_map_nothing(map: &ModelMap, b: bool)
    requires
        call_ensures(ModelMap::is_empty, (map,), b),
    ensures
        b <==> map.models@.len() == 0 && map.default is None,
{
}

/// The ids keep their places, and a new one comes last.
pub proof fn law_mapped_ids_keep_their_places(
    entries: Seq<(Seq<char>, Seq<char>)>,
    key: Seq<char>,
    value: Seq<char>,
)
    ensures
        ({
            let now = with_entry(entries, key, value);
            let kept = exists|i: int| 0 <= i < entries.len() && (#[trigger] entries[i]).0 == key;
            &&& now.len() == entries.len() + if kept {
                0int
            } else {
                1
            }
            &&& forall|i: int|
                0 <= i < entries.len() ==> (#[trigger] now[i]).0 == entries[i].0
            &&& !kept ==> now.last() == (key, value)
        }),
    decreases entries.len(),
{
    let now = with_entry(entries, key, value);
    if entries.len() > 0 && entries[0].0 != key {
        let rest = entries.skip(1);
        law_mapped_ids_keep_their_places(rest, key, value);
        let then = with_entry(rest, key, value);
        assert forall|i: int| 0 <= i < entries.len() implies (#[trigger] now[i]).0
            == entries[i].0 by {
            if i > 0 {
                assert(now[i] == then[i - 1]);
                assert(rest[i - 1] == entries[i]);
            }
        }
        if exists|i: int| 0 <= i < rest.len() && (#[trigger] rest[i]).0 == key {
            let i = choose|i: int| 0 <= i < rest.len() && (#[trigger] rest[i]).0 == key;
            assert(entries[i + 1].0 == key);
        }
        if exists|i: int| 0 <= i < entries.len() && (#[trigger] entries[i]).0 == key {
            let i = choose|i: int| 0 <= i < entries.len() && (#[trigger] entries[i]).0 == key;
            assert(rest[i - 1].0 == key);
        }
    }
}

} // verus!
