//! A cache by host.

use dashmap::DashMap;
use vstd::prelude::*;

verus! {

/// A concurrent map of the `dashmap` crate.
#[verifier::external_type_specification]
#[verifier::external_body]
#[verifier::reject_recursive_types(K)]
#[verifier::reject_recursive_types(V)]
#[verifier::reject_recursive_types(S)]
pub struct ExDashMap<K, V, S>(DashMap<K, V, S>);

/// What a map holds: a number for each host.
pub uninterp spec fn places_in(map: &DashMap<String, usize>) -> Map<Seq<char>, usize>;

/// `DashMap::new`: a map that holds nothing.
#[verifier::external_body]
fn new_map() -> (map: DashMap<String, usize>)
    ensures
        places_in(&map).dom() == Set::<Seq<char>>::empty(),
{
    DashMap::new()
}

/// `DashMap::get`: what the map holds for a host.
#[verifier::external_body]
fn map_get(map: &DashMap<String, usize>, host: &str) -> (r: Option<usize>)
    ensures
        match r {
            Some(i) => places_in(map).dom().contains(host@) && places_in(map)[host@] == i,
            None => !places_in(map).dom().contains(host@),
        },
{
    map.get(host).map(|hit| *hit.value())
}

/// `DashMap::insert`: the map holds this number for the host from now on.
#[verifier::external_body]
fn map_insert(map: &mut DashMap<String, usize>, host: &str, i: usize)
    ensures
        places_in(final(map)) == places_in(old(map)).insert(host@, i),
{
    map.insert(host.to_string(), i);
}

/// Values by host. The map says where in the list the value of a host stands.
pub struct Cache<T> {
    places: DashMap<String, usize>,
    values: Vec<T>,
}

impl<T> Cache<T> {
    /// Every host has a place in the list, and no two have the same.
    pub closed spec fn wf(&self) -> bool {
        let places = places_in(&self.places);
        &&& forall|h: Seq<char>| #[trigger]
            places.dom().contains(h) ==> places[h] < self.values@.len()
        &&& forall|h: Seq<char>, g: Seq<char>|
            places.dom().contains(h) && places.dom().contains(g) && h != g
                ==> #[trigger] places[h] != #[trigger] places[g]
    }

    /// The values by host.
    pub closed spec fn entries(&self) -> Map<Seq<char>, T> {
        let places = places_in(&self.places);
        Map::new(|h: Seq<char>| places.dom().contains(h), |h: Seq<char>| self.values@[places[h] as int])
    }

    pub fn new() -> (r: Self)
        ensures
            r.wf(),
            r.entries().dom() == Set::<Seq<char>>::empty(),
    {
        let r = Cache { places: new_map(), values: Vec::new() };
        assert(r.entries().dom() =~= Set::<Seq<char>>::empty());
        r
    }

    /// The value of a host.
    pub fn get(&self, host: &str) -> (r: Option<&T>)
        requires
            self.wf(),
        ensures
            match r {
                Some(v) => self.entries().dom().contains(host@) && self.entries()[host@] == *v,
                None => !self.entries().dom().contains(host@),
            },
    {
        match map_get(&self.places, host) {
            Some(i) => Some(&self.values[i]),
            None => None,
        }
    }

    /// Enter a value for a host, whatever it had before.
    pub fn insert(&mut self, host: &str, value: T)
        requires
            old(self).wf(),
        ensures
            final(self).wf(),
            final(self).entries() == old(self).entries().insert(host@, value),
    {
        let ghost before = places_in(&self.places);
        match map_get(&self.places, host) {
            Some(i) => {
                self.values.set(i, value);
            },
            None => {
                let i: usize = self.values.len();
                self.values.push(value);
                map_insert(&mut self.places, host, i);
            },
        }
        assert(self.entries() =~= old(self).entries().insert(host@, value));
    }
}

// ── Laws ─────────────────────────────────────────────────────────────────────

/// What was entered for a host is found again, and the values of other hosts are as they were.
pub proof fn law_what_was_entered_is_found<T>(
    cache: &mut Cache<T>,
    host: &str,
    value: T,
    other: &str,
    before: Option<&T>,
    after: Option<&T>,
)
    requires
        call_ensures(Cache::<T>::insert, (cache, host, value), ()),
        call_ensures(Cache::<T>::get, (old(cache), other), before),
        call_ensures(Cache::<T>::get, (final(cache), other), after),
    ensures
        other@ == host@ ==> after is Some && *after->0 == value,
        other@ != host@ ==> (after is Some <==> before is Some) && (after is Some ==> *after->0
            == *before->0),
{
}

/// A new cache has nothing for any host.
pub proof fn law_a_new_cache_is_empty<T>(cache: &Cache<T>, host: &str, found: Option<&T>)
    requires
        call_ensures(Cache::<T>::new, (), *cache),
        call_ensures(Cache::<T>::get, (cache, host), found),
    ensures
        found is None,
{
}

} // verus!
