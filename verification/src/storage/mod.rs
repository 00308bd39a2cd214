use dashmap::DashMap;
use vstd::prelude::*;

verus! {

#[verifier::external_type_specification]
#[verifier::external_body]
#[verifier::reject_recursive_types(K)]
#[verifier::reject_recursive_types(V)]
#[verifier::reject_recursive_types(S)]
pub struct ExDashMap<K, V, S>(DashMap<K, V, S>);

/// The contents of a store: each key's characters mapped to its value's characters.
pub type KvMap = Map<Seq<char>, Seq<char>>;

/// What a `DashMap` of strings holds: each key's view mapped to its value's view.
pub uninterp spec fn dashmap_contents(m: DashMap<String, String>) -> Map<Seq<char>, Seq<char>>;

/// `DashMap::new`: the new map holds nothing.
#[verifier::external_body]
fn dashmap_new() -> (created: DashMap<String, String>)
    ensures
        dashmap_contents(created) == KvMap::empty(),
{
    DashMap::new()
}

/// `DashMap::get`, with the guard it hands out turned into a copy of the value:
/// `Some` of the value stored under `key` if there is one, else `None`.
#[verifier::external_body]
fn dashmap_get(m: &DashMap<String, String>, key: &str) -> (r: Option<String>)
    ensures
        match r {
            Some(v) => dashmap_contents(*m).contains_key(key@) && v@ == dashmap_contents(*m)[key@],
            None => !dashmap_contents(*m).contains_key(key@),
        },
{
    match m.get(key) {
        Some(entry) => Some(entry.value().clone()),
        None => None,
    }
}

/// `DashMap::insert`: afterwards `key` maps to `value` and every other key is
/// unchanged; returns the value that `key` held before, if any.
#[verifier::external_body]
fn dashmap_insert(m: &mut DashMap<String, String>, key: String, value: String) -> (r: Option<String>)
    ensures
        dashmap_contents(*final(m)) == dashmap_contents(*old(m)).insert(key@, value@),
        match r {
            Some(v) => dashmap_contents(*old(m)).contains_key(key@) && v@ == dashmap_contents(*old(m))[key@],
            None => !dashmap_contents(*old(m)).contains_key(key@),
        },
{
    m.insert(key, value)
}

/// `DashMap::remove`, keeping the value of the removed entry: afterwards `key`
/// is absent and every other key is unchanged; returns the value it held, if any.
#[verifier::external_body]
fn dashmap_remove(m: &mut DashMap<String, String>, key: &str) -> (r: Option<String>)
    ensures
        dashmap_contents(*final(m)) == dashmap_contents(*old(m)).remove(key@),
        match r {
            Some(v) => dashmap_contents(*old(m)).contains_key(key@) && v@ == dashmap_contents(*old(m))[key@],
            None => !dashmap_contents(*old(m)).contains_key(key@),
        },
{
    match m.remove(key) {
        Some((_, v)) => Some(v),
        None => None,
    }
}

/// The in-memory key-value store that committed commands are applied to.
pub struct Storage {
    data: DashMap<String, String>,
}

/// A write to the store: `Some(value)` sets the key, `None` deletes it.
#[derive(Debug)]
pub struct StorageCommand {
    pub key: String,
    pub value: Option<String>,
}

impl Clone for StorageCommand {
    fn clone(&self) -> (r: Self)
        ensures
            r == *self,
    {
        let value = match &self.value {
            Some(v) => Some(v.clone()),
            None => None,
        };
        StorageCommand { key: self.key.clone(), value }
    }
}

/// What a command does to the store's contents.
pub open spec fn apply_to(m: Map<Seq<char>, Seq<char>>, key: Seq<char>, value: Option<Seq<char>>) -> Map<Seq<char>, Seq<char>> {
    match value {
        Some(v) => m.insert(key, v),
        None => m.remove(key),
    }
}

impl StorageCommand {
    /// The key as a string of characters, the value likewise.
    pub open spec fn key_view(&self) -> Seq<char> {
        self.key@
    }

    pub open spec fn value_view(&self) -> Option<Seq<char>> {
        match self.value {
            Some(v) => Some(v@),
            None => None,
        }
    }
}

impl View for Storage {
    type V = Map<Seq<char>, Seq<char>>;

    closed spec fn view(&self) -> Map<Seq<char>, Seq<char>> {
        dashmap_contents(self.data)
    }
}

impl Storage {
    /// An empty store.
    pub fn new() -> (s: Self)
        ensures
            s@ == KvMap::empty(),
    {
        Storage { data: dashmap_new() }
    }

    /// The value stored under `key`, if any.
    pub fn get(&self, key: &str) -> (r: Option<String>)
        ensures
            match r {
                Some(v) => self@.contains_key(key@) && v@ == self@[key@],
                None => !self@.contains_key(key@),
            },
    {
        dashmap_get(&self.data, key)
    }

    /// Stores `value` under `key`, replacing what was there.
    pub fn set(&mut self, key: String, value: String)
        ensures
            final(self)@ == old(self)@.insert(key@, value@),
    {
        let _ = dashmap_insert(&mut self.data, key, value);
    }

    /// Removes `key`; returns the value it held, if any.
    pub fn delete(&mut self, key: &str) -> (r: Option<String>)
        ensures
            final(self)@ == old(self)@.remove(key@),
            match r {
                Some(v) => old(self)@.contains_key(key@) && v@ == old(self)@[key@],
                None => !old(self)@.contains_key(key@),
            },
    {
        dashmap_remove(&mut self.data, key)
    }

    /// Applies a command: sets the key when it carries a value, deletes it otherwise.
    pub fn apply_command(&mut self, cmd: &StorageCommand)
        ensures
            final(self)@ == apply_to(old(self)@, cmd.key_view(), cmd.value_view()),
    {
        match &cmd.value {
            Some(value) => self.set(cmd.key.clone(), value.clone()),
            None => {
                let _ = self.delete(cmd.key.as_str());
            },
        }
    }
}

} // verus!
