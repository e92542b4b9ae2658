//! The profiles of one credentials file, each under its own name.

use crate::credentials::{Credentials, CredentialsView};
use crate::text::str_eq;
use vstd::prelude::*;

verus! {

/// A profile as mathematical values: its name and what it holds.
pub struct ProfileView {
    pub name: Seq<char>,
    pub credentials: CredentialsView,
}

/// No two profiles of the sequence share a name.
pub open spec fn distinct_names(profiles: Seq<ProfileView>) -> bool {
    forall|i: int, j: int|
        0 <= i < j < profiles.len() ==> (#[trigger] profiles[i]).name != (#[trigger] profiles[j]).name
}

/// Some profile of the sequence has this name.
pub open spec fn contains_name(profiles: Seq<ProfileView>, name: Seq<char>) -> bool {
    exists|i: int| 0 <= i < profiles.len() && (#[trigger] profiles[i]).name == name
}

/// Where the profile of this name stands, if there is one.
pub open spec fn position(profiles: Seq<ProfileView>, name: Seq<char>) -> int {
    choose|i: int| 0 <= i < profiles.len() && (#[trigger] profiles[i]).name == name
}

/// What the profile of this name holds, if there is one.
pub open spec fn lookup(profiles: Seq<ProfileView>, name: Seq<char>) -> Option<CredentialsView> {
    if contains_name(profiles, name) {
        Some(profiles[position(profiles, name)].credentials)
    } else {
        None
    }
}

/// The profiles after `name` has been given `credentials`: a profile that was
/// there keeps its place, a new one comes last.
pub open spec fn upsert(
    profiles: Seq<ProfileView>,
    name: Seq<char>,
    credentials: CredentialsView,
) -> Seq<ProfileView> {
    if contains_name(profiles, name) {
        profiles.update(position(profiles, name), ProfileView { name, credentials })
    } else {
        profiles.push(ProfileView { name, credentials })
    }
}

/// The profiles without the one called `name`; the others keep their order.
pub open spec fn without(profiles: Seq<ProfileView>, name: Seq<char>) -> Seq<ProfileView> {
    if contains_name(profiles, name) {
        profiles.remove(position(profiles, name))
    } else {
        profiles
    }
}

/// The profiles as a mapping from name to credentials, their order forgotten.
pub open spec fn as_map(profiles: Seq<ProfileView>) -> Map<Seq<char>, CredentialsView> {
    Map::new(
        |name: Seq<char>| contains_name(profiles, name),
        |name: Seq<char>| profiles[position(profiles, name)].credentials,
    )
}

/// Among distinct names, a profile is found where it stands.
pub proof fn lemma_position_is(profiles: Seq<ProfileView>, i: int)
    requires
        distinct_names(profiles),
        0 <= i < profiles.len(),
    ensures
        contains_name(profiles, profiles[i].name),
        position(profiles, profiles[i].name) == i,
        lookup(profiles, profiles[i].name) == Some(profiles[i].credentials),
{
    let found = position(profiles, profiles[i].name);
    assert(0 <= found < profiles.len() && profiles[found].name == profiles[i].name);
    if found < i {
        assert(profiles[found].name != profiles[i].name);
    } else if i < found {
        assert(profiles[i].name != profiles[found].name);
    }
}

/// Giving a name its credentials keeps the names distinct.
pub proof fn lemma_upsert_distinct(
    profiles: Seq<ProfileView>,
    name: Seq<char>,
    credentials: CredentialsView,
)
    requires
        distinct_names(profiles),
    ensures
        distinct_names(upsert(profiles, name, credentials)),
{
    let after = upsert(profiles, name, credentials);
    if contains_name(profiles, name) {
        let at = position(profiles, name);
        assert forall|i: int, j: int| 0 <= i < j < after.len() implies (#[trigger] after[i]).name
            != (#[trigger] after[j]).name by {
            assert(after[i].name == profiles[i].name);
            assert(after[j].name == profiles[j].name);
        }
    } else {
        assert forall|i: int, j: int| 0 <= i < j < after.len() implies (#[trigger] after[i]).name
            != (#[trigger] after[j]).name by {
            if j < profiles.len() {
                assert(after[i] == profiles[i] && after[j] == profiles[j]);
            } else {
                assert(after[i] == profiles[i]);
            }
        }
    }
}

/// Taking a profile out keeps the names distinct.
pub proof fn lemma_without_distinct(profiles: Seq<ProfileView>, name: Seq<char>)
    requires
        distinct_names(profiles),
    ensures
        distinct_names(without(profiles, name)),
{
    let after = without(profiles, name);
    if contains_name(profiles, name) {
        let at = position(profiles, name);
        assert forall|i: int, j: int| 0 <= i < j < after.len() implies (#[trigger] after[i]).name
            != (#[trigger] after[j]).name by {
            let from_i = if i < at { i } else { i + 1 };
            let from_j = if j < at { j } else { j + 1 };
            assert(after[i] == profiles[from_i] && after[j] == profiles[from_j]);
        }
    }
}

/// After `name` was given `credentials`, it holds them and every other name
/// holds what it held before.
pub proof fn lemma_lookup_upsert(
    profiles: Seq<ProfileView>,
    name: Seq<char>,
    credentials: CredentialsView,
    other: Seq<char>,
)
    requires
        distinct_names(profiles),
    ensures
        lookup(upsert(profiles, name, credentials), other) == if other == name {
            Some(credentials)
        } else {
            lookup(profiles, other)
        },
{
    let after = upsert(profiles, name, credentials);
    lemma_upsert_distinct(profiles, name, credentials);
    let at = if contains_name(profiles, name) {
        position(profiles, name)
    } else {
        profiles.len() as int
    };
    assert(after[at] == ProfileView { name, credentials });
    assert forall|i: int| 0 <= i < after.len() && i != at implies #[trigger] after[i]
        == profiles[i] by {}
    if other == name {
        lemma_position_is(after, at);
    } else if contains_name(profiles, other) {
        let there = position(profiles, other);
        assert(after[there] == profiles[there]);
        lemma_position_is(after, there);
    } else if contains_name(after, other) {
        let there = position(after, other);
        assert(after[there] == profiles[there]);
    }
}

/// After `name` was taken out, it is gone and every other name holds what it
/// held before.
pub proof fn lemma_lookup_without(profiles: Seq<ProfileView>, name: Seq<char>, other: Seq<char>)
    requires
        distinct_names(profiles),
    ensures
        lookup(without(profiles, name), other) == if other == name {
            None
        } else {
            lookup(profiles, other)
        },
{
    let after = without(profiles, name);
    lemma_without_distinct(profiles, name);
    if contains_name(profiles, name) {
        let at = position(profiles, name);
        assert forall|i: int| 0 <= i < after.len() implies #[trigger] after[i] == profiles[if i
            < at {
            i
        } else {
            i + 1
        }] by {}
        if other == name {
            if contains_name(after, other) {
                let there = position(after, other);
                let from = if there < at { there } else { there + 1 };
                assert(after[there] == profiles[from]);
                lemma_position_is(profiles, from);
            }
        } else if contains_name(profiles, other) {
            let there = position(profiles, other);
            let to = if there < at { there } else { there - 1 };
            assert(after[to] == profiles[there]);
            lemma_position_is(after, to);
        } else if contains_name(after, other) {
            let there = position(after, other);
            let from = if there < at { there } else { there + 1 };
            assert(after[there] == profiles[from]);
        }
    }
}

/// Read as a mapping, giving a name its credentials is an insertion.
pub proof fn lemma_upsert_as_map(
    profiles: Seq<ProfileView>,
    name: Seq<char>,
    credentials: CredentialsView,
)
    requires
        distinct_names(profiles),
    ensures
        as_map(upsert(profiles, name, credentials)) == as_map(profiles).insert(name, credentials),
{
    let after = upsert(profiles, name, credentials);
    assert forall|other: Seq<char>|
        lookup(after, other) == if other == name {
            Some(credentials)
        } else {
            #[trigger] lookup(profiles, other)
        } by {
        lemma_lookup_upsert(profiles, name, credentials, other);
    }
    lemma_lookup_upsert(profiles, name, credentials, name);
    assert(as_map(after) =~= as_map(profiles).insert(name, credentials)) by {
        assert forall|other: Seq<char>| #[trigger]
            as_map(after).dom().contains(other) == as_map(profiles).insert(
                name,
                credentials,
            ).dom().contains(other) by {
            lemma_lookup_upsert(profiles, name, credentials, other);
        }
        assert forall|other: Seq<char>| #[trigger] as_map(after).dom().contains(other) implies as_map(after)[other] == as_map(profiles).insert(name, credentials)[other] by {
            lemma_lookup_upsert(profiles, name, credentials, other);
        }
    }
}

/// Read as a mapping, taking a profile out is a removal.
pub proof fn lemma_without_as_map(profiles: Seq<ProfileView>, name: Seq<char>)
    requires
        distinct_names(profiles),
    ensures
        as_map(without(profiles, name)) == as_map(profiles).remove(name),
{
    let after = without(profiles, name);
    assert(as_map(after) =~= as_map(profiles).remove(name)) by {
        assert forall|other: Seq<char>| #[trigger]
            as_map(after).dom().contains(other) == as_map(profiles).remove(name).dom().contains(
                other,
            ) by {
            lemma_lookup_without(profiles, name, other);
        }
        assert forall|other: Seq<char>| #[trigger] as_map(after).dom().contains(other) implies as_map(after)[other] == as_map(profiles).remove(name)[other] by {
            lemma_lookup_without(profiles, name, other);
        }
    }
}

/// The profiles of a credentials file. Each name occurs once; the profiles
/// keep the order in which their names first came in.
#[derive(Debug)]
pub struct ProfileStore {
    names: Vec<String>,
    credentials: Vec<Credentials>,
}

impl View for ProfileStore {
    type V = Seq<ProfileView>;

    closed spec fn view(&self) -> Seq<ProfileView> {
        Seq::new(
            self.names@.len(),
            |i: int| ProfileView { name: self.names@[i]@, credentials: self.credentials@[i]@ },
        )
    }
}

impl ProfileStore {
    #[verifier::type_invariant]
    spec fn well_formed(self) -> bool {
        &&& self.names@.len() == self.credentials@.len()
        &&& forall|i: int, j: int|
            0 <= i < j < self.names@.len() ==> (#[trigger] self.names@[i])@
                != (#[trigger] self.names@[j])@
    }

    /// A store without profiles.
    pub fn new() -> (store: ProfileStore)
        ensures
            store@ == Seq::<ProfileView>::empty(),
    {
        ProfileStore { names: Vec::new(), credentials: Vec::new() }
    }

    /// How many profiles the store holds. No two of them share a name.
    pub fn len(&self) -> (count: usize)
        ensures
            count == self@.len(),
            distinct_names(self@),
    {
        proof {
            use_type_invariant(self);
        }
        self.names.len()
    }

    /// The name of the profile at `index`.
    pub fn name_at(&self, index: usize) -> (name: &str)
        requires
            index < self@.len(),
        ensures
            name@ == self@[index as int].name,
    {
        proof {
            use_type_invariant(self);
        }
        self.names[index].as_str()
    }

    /// The credentials of the profile at `index`.
    pub fn credentials_at(&self, index: usize) -> (credentials: &Credentials)
        requires
            index < self@.len(),
        ensures
            credentials@ == self@[index as int].credentials,
    {
        proof {
            use_type_invariant(self);
        }
        &self.credentials[index]
    }

    fn find(&self, name: &str) -> (found: Option<usize>)
        ensures
            match found {
                Some(index) => index < self@.len() && contains_name(self@, name@) && index
                    == position(self@, name@),
                None => !contains_name(self@, name@),
            },
    {
        proof {
            use_type_invariant(self);
        }
        let mut index: usize = 0;
        while index < self.names.len()
            invariant
                index <= self.names@.len(),
                self.names@.len() == self@.len(),
                distinct_names(self@),
                forall|i: int| 0 <= i < self@.len() ==> (#[trigger] self@[i]).name == self.names@[i]@,
                forall|i: int| 0 <= i < index ==> (#[trigger] self@[i]).name != name@,
            decreases self.names@.len() - index,
        {
            if str_eq(self.names[index].as_str(), name) {
                proof {
                    lemma_position_is(self@, index as int);
                }
                return Some(index);
            }
            index += 1;
        }
        None
    }

    /// Whether there is a profile of this name.
    pub fn contains(&self, name: &str) -> (found: bool)
        ensures
            found == contains_name(self@, name@),
    {
        self.find(name).is_some()
    }

    /// A copy of what the profile of this name holds.
    pub fn get(&self, name: &str) -> (found: Option<Credentials>)
        ensures
            match found {
                Some(credentials) => lookup(self@, name@) == Some(credentials@),
                None => lookup(self@, name@) is None,
            },
    {
        proof {
            use_type_invariant(self);
        }
        match self.find(name) {
            Some(index) => Some(self.credentials[index].clone()),
            None => None,
        }
    }

    /// The credentials of the profile of this name, to be changed in place.
    /// The store ends up holding whatever the caller leaves in them.
    pub fn get_mut(&mut self, name: &str) -> (found: Option<&mut Credentials>)
        ensures
            match found {
                Some(credentials) => lookup(old(self)@, name@) == Some(credentials@)
                    && final(self)@ == upsert(old(self)@, name@, final(credentials)@),
                None => lookup(old(self)@, name@) is None && final(self)@ == old(self)@,
            },
    {
        proof {
            use_type_invariant(&*self);
        }
        match self.find(name) {
            Some(index) => Some(&mut self.credentials[index]),
            None => None,
        }
    }

    /// Gives the profile of this name these credentials, whether or not it was
    /// there before.
    pub fn insert(&mut self, name: &str, credentials: Credentials)
        ensures
            final(self)@ == upsert(old(self)@, name@, credentials@),
    {
        proof {
            use_type_invariant(&*self);
            lemma_upsert_distinct(self@, name@, credentials@);
        }
        match self.find(name) {
            Some(index) => {
                self.credentials[index] = credentials;
            },
            None => {
                let mut taken = ProfileStore::new();
                std::mem::swap(self, &mut taken);
                proof {
                    use_type_invariant(&taken);
                }
                let ProfileStore { names: mut names, credentials: mut all } = taken;
                names.push(name.to_owned());
                all.push(credentials);
                assert forall|i: int, j: int| 0 <= i < j < names@.len() implies (
                #[trigger] names@[i])@ != (#[trigger] names@[j])@ by {
                    if j == names@.len() - 1 {
                        assert(old(self)@[i].name == names@[i]@);
                    }
                }
                *self = ProfileStore { names, credentials: all };
            },
        }
    }

    /// Takes the profile of this name out and hands back what it held.
    pub fn remove(&mut self, name: &str) -> (removed: Option<Credentials>)
        ensures
            final(self)@ == without(old(self)@, name@),
            match removed {
                Some(credentials) => lookup(old(self)@, name@) == Some(credentials@),
                None => lookup(old(self)@, name@) is None,
            },
    {
        proof {
            use_type_invariant(&*self);
            lemma_without_distinct(self@, name@);
        }
        match self.find(name) {
            Some(index) => {
                let mut taken = ProfileStore::new();
                std::mem::swap(self, &mut taken);
                proof {
                    use_type_invariant(&taken);
                }
                let ProfileStore { names: mut names, credentials: mut all } = taken;
                names.remove(index);
                let removed = all.remove(index);
                *self = ProfileStore { names, credentials: all };
                Some(removed)
            },
            None => None,
        }
    }
}

} // verus!
