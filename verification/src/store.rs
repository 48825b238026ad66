use vstd::prelude::*;
use vstd::string::StringExecFns;
use vstd::utf8::encode_utf8;

use crate::cipher::{open, open_of, seal};
use crate::codec::{decode, encode, json_of};
use crate::errors::StoreError;
use crate::secret_map::{lists_keys_of, SecretMap};

verus! {

/// A sealed container that holds the map `m` under password `w`: it decrypts
/// to the UTF-8 bytes of the canonical text of `m`.
pub open spec fn sealed_store(c: Seq<u8>, w: Seq<u8>, m: Map<Seq<char>, Seq<char>>) -> bool {
    open_of(c, w) == Some(encode_utf8(json_of(m)))
}

/// The shadow key that keeps the previous value of `k` across an update: a
/// single-level undo trail.
pub open spec fn shadow_key(k: Seq<char>) -> Seq<char> {
    k + "::old"@
}

/// What `save` does to the mapping: insert-only, never an overwrite.
pub open spec fn save_effect(
    m: Map<Seq<char>, Seq<char>>,
    k: Seq<char>,
    v: Seq<char>,
) -> Map<Seq<char>, Seq<char>> {
    if m.contains_key(k) {
        m
    } else {
        m.insert(k, v)
    }
}

/// What `update` does to the mapping: only an existing key is overwritten,
/// and its previous value moves under the shadow key first.
pub open spec fn update_effect(
    m: Map<Seq<char>, Seq<char>>,
    k: Seq<char>,
    v: Seq<char>,
) -> Map<Seq<char>, Seq<char>> {
    if m.contains_key(k) {
        m.insert(shadow_key(k), m[k]).insert(k, v)
    } else {
        m
    }
}

/// What `delete` does to the mapping: an existing key is removed, an absent
/// one leaves the mapping unchanged.
pub open spec fn delete_effect(m: Map<Seq<char>, Seq<char>>, k: Seq<char>) -> Map<
    Seq<char>,
    Seq<char>,
> {
    if m.contains_key(k) {
        m.remove(k)
    } else {
        m
    }
}

/// What a `save` reported, along with the sealed bytes to write back.
#[derive(Debug)]
pub enum SaveOutcome {
    /// The key was absent and is now saved; write these bytes back.
    Saved(Vec<u8>),
    /// The key was already set: a successful no-op, nothing to write.
    AlreadySet,
}

/// What an `update` reported, along with the sealed bytes to write back.
#[derive(Debug)]
pub enum UpdateOutcome {
    /// The key existed and was overwritten, its previous value kept under the
    /// shadow key; write these bytes back.
    Updated(Vec<u8>),
    /// The key was absent: a successful no-op, nothing to write.
    NothingToUpdate,
}

/// What a `delete` reported, along with the sealed bytes to write back.
#[derive(Debug)]
pub enum DeleteOutcome {
    /// The key existed and was removed; this was its value, write these bytes
    /// back.
    Deleted(String, Vec<u8>),
    /// The key was absent: a successful no-op, nothing to write.
    NothingDeleted,
}

/// The secret store of one invocation. Its view is `None` while no backing
/// store exists (uninitialized) and `Some` of the mapping once one is loaded
/// (ready); ready-only operations are guarded by that state, so no operation
/// ever assumes an absent mapping.
///
/// The store itself never touches the file: it is built from the file's bytes
/// and each mutation hands back the sealed bytes that the caller must write
/// over the file (a plain truncate-and-write, which is not crash-atomic).
pub struct Council {
    secrets: Option<SecretMap>,
}

impl View for Council {
    type V = Option<Map<Seq<char>, Seq<char>>>;

    closed spec fn view(&self) -> Option<Map<Seq<char>, Seq<char>>> {
        match self.secrets {
            Some(m) => Some(m@),
            None => None,
        }
    }
}

impl Council {
    /// The mapping's keys stay pairwise distinct; every operation preserves
    /// this, and every constructor establishes it.
    pub closed spec fn wf(&self) -> bool {
        self.secrets matches Some(m) ==> m.wf()
    }

    /// Builds the store of this invocation from the backing file's bytes:
    /// absent bytes leave it uninitialized, present bytes must decrypt under
    /// the password and decode. Loading what was sealed from a map under the
    /// same password yields exactly that map; a wrong password (or tampered
    /// bytes) is a decryption failure, and no partial state is exposed.
    pub fn new(contents: Option<Vec<u8>>, password: &[u8]) -> (r: Result<Council, StoreError>)
        ensures
            r matches Ok(c) ==> c.wf(),
            contents is None ==> (r matches Ok(c) && c@ is None),
            contents matches Some(bytes) ==> {
                &&& forall|m: Map<Seq<char>, Seq<char>>|
                    sealed_store(bytes@, password@, m) ==> (r matches Ok(c) && c@ == Some(m))
                &&& ((r matches Err(StoreError::Decryption)) <==> open_of(bytes@, password@)
                    is None)
                &&& (r matches Ok(c) ==> c@ is Some)
                &&& (r matches Err(e) ==> (e == StoreError::Decryption || e == StoreError::Encoding
                    || e == StoreError::MalformedStore))
            },
    {
        match contents {
            None => Ok(Council { secrets: None }),
            Some(bytes) => {
                let text = match open(bytes.as_slice(), password) {
                    Ok(t) => t,
                    Err(e) => {
                        return Err(e);
                    },
                };
                let map = match decode(text.as_str()) {
                    Ok(m) => m,
                    Err(e) => {
                        return Err(e);
                    },
                };
                Ok(Council { secrets: Some(map) })
            },
        }
    }

    /// Starts an empty store. It is owed only while no store exists yet:
    /// against a loaded store it fails and touches nothing, so a store can
    /// never be silently replaced. On success the returned bytes hold the
    /// sealed empty mapping for the caller to create the file with.
    pub fn init(&mut self, password: &[u8]) -> (r: Result<Vec<u8>, StoreError>)
        requires
            old(self).wf(),
        ensures
            final(self).wf(),
            old(self)@ is Some ==> (r matches Err(StoreError::AlreadyInitialized) && final(self)@
                == old(self)@),
            old(self)@ is None ==> {
                &&& (r matches Ok(c) ==> (final(self)@ == Some(
                    Map::<Seq<char>, Seq<char>>::empty(),
                ) && sealed_store(c@, password@, Map::empty())))
                &&& (r matches Err(e) ==> (e == StoreError::Encryption && final(self)@ == old(
                    self,
                )@))
            },
    {
        if self.secrets.is_some() {
            return Err(StoreError::AlreadyInitialized);
        }
        let map = SecretMap::empty();
        let text = encode(&map);
        match seal(text.as_str(), password) {
            Ok(c) => {
                self.secrets = Some(map);
                Ok(c)
            },
            Err(_) => Err(StoreError::Encryption),
        }
    }

    /// Saves a new key. An already-set key is reported and left exactly as it
    /// was — `save` never overwrites. On a saved key the returned bytes hold
    /// the whole re-sealed mapping for the caller to write back.
    pub fn save(&mut self, key: String, value: String, password: &[u8]) -> (r: Result<
        SaveOutcome,
        StoreError,
    >)
        requires
            old(self).wf(),
        ensures
            final(self).wf(),
            old(self)@ is None ==> (r matches Err(StoreError::StoreNotInitialized) && final(self)@
                == old(self)@),
            old(self)@ matches Some(m) ==> {
                &&& final(self)@ == Some(save_effect(m, key@, value@))
                &&& ((r matches Ok(SaveOutcome::AlreadySet)) <==> m.contains_key(key@))
                &&& (r matches Ok(SaveOutcome::Saved(c)) ==> sealed_store(
                    c@,
                    password@,
                    save_effect(m, key@, value@),
                ))
                &&& (r matches Err(e) ==> (e == StoreError::Encryption && !m.contains_key(key@)))
            },
    {
        match self.secrets.take() {
            None => Err(StoreError::StoreNotInitialized),
            Some(mut map) => {
                if map.contains_key(&key) {
                    self.secrets = Some(map);
                    Ok(SaveOutcome::AlreadySet)
                } else {
                    map.insert(key, value);
                    let text = encode(&map);
                    self.secrets = Some(map);
                    match seal(text.as_str(), password) {
                        Ok(c) => Ok(SaveOutcome::Saved(c)),
                        Err(_) => Err(StoreError::Encryption),
                    }
                }
            },
        }
    }

    /// Overwrites an existing key, first moving its current value under the
    /// shadow key; an absent key is reported and nothing changes. On an
    /// updated key the returned bytes hold the whole re-sealed mapping.
    pub fn update(&mut self, key: String, value: String, password: &[u8]) -> (r: Result<
        UpdateOutcome,
        StoreError,
    >)
        requires
            old(self).wf(),
        ensures
            final(self).wf(),
            old(self)@ is None ==> (r matches Err(StoreError::StoreNotInitialized) && final(self)@
                == old(self)@),
            old(self)@ matches Some(m) ==> {
                &&& final(self)@ == Some(update_effect(m, key@, value@))
                &&& ((r matches Ok(UpdateOutcome::NothingToUpdate)) <==> !m.contains_key(key@))
                &&& (r matches Ok(UpdateOutcome::Updated(c)) ==> sealed_store(
                    c@,
                    password@,
                    update_effect(m, key@, value@),
                ))
                &&& (r matches Err(e) ==> (e == StoreError::Encryption && m.contains_key(key@)))
            },
    {
        match self.secrets.take() {
            None => Err(StoreError::StoreNotInitialized),
            Some(mut map) => {
                let previous = match map.get(&key) {
                    Some(v) => Some(v.clone()),
                    None => None,
                };
                match previous {
                    None => {
                        self.secrets = Some(map);
                        Ok(UpdateOutcome::NothingToUpdate)
                    },
                    Some(v1) => {
                        let shadow = key.clone().concat("::old");
                        map.insert(shadow, v1);
                        map.insert(key, value);
                        let text = encode(&map);
                        self.secrets = Some(map);
                        match seal(text.as_str(), password) {
                            Ok(c) => Ok(UpdateOutcome::Updated(c)),
                            Err(_) => Err(StoreError::Encryption),
                        }
                    },
                }
            },
        }
    }

    /// Deletes an existing key and reports its value; an absent key is
    /// reported and nothing changes. On a deleted key the returned bytes hold
    /// the whole re-sealed mapping.
    pub fn delete(&mut self, key: &String, password: &[u8]) -> (r: Result<
        DeleteOutcome,
        StoreError,
    >)
        requires
            old(self).wf(),
        ensures
            final(self).wf(),
            old(self)@ is None ==> (r matches Err(StoreError::StoreNotInitialized) && final(self)@
                == old(self)@),
            old(self)@ matches Some(m) ==> {
                &&& final(self)@ == Some(delete_effect(m, key@))
                &&& ((r matches Ok(DeleteOutcome::NothingDeleted)) <==> !m.contains_key(key@))
                &&& (r matches Ok(DeleteOutcome::Deleted(v, c)) ==> (m.contains_key(key@) && v@
                    == m[key@] && sealed_store(c@, password@, delete_effect(m, key@))))
                &&& (r matches Err(e) ==> (e == StoreError::Encryption && m.contains_key(key@)))
            },
    {
        match self.secrets.take() {
            None => Err(StoreError::StoreNotInitialized),
            Some(mut map) => {
                match map.remove(key) {
                    None => {
                        self.secrets = Some(map);
                        Ok(DeleteOutcome::NothingDeleted)
                    },
                    Some(v) => {
                        let text = encode(&map);
                        self.secrets = Some(map);
                        match seal(text.as_str(), password) {
                            Ok(c) => Ok(DeleteOutcome::Deleted(v, c)),
                            Err(_) => Err(StoreError::Encryption),
                        }
                    },
                }
            },
        }
    }

    /// Lists every saved key exactly once (in no promised order); owed
    /// whenever the store is ready, and a read-only step.
    pub fn list(&self) -> (r: Result<Vec<String>, StoreError>)
        requires
            self.wf(),
        ensures
            (r matches Err(StoreError::StoreNotInitialized)) <==> self@ is None,
            r matches Err(e) ==> e == StoreError::StoreNotInitialized,
            self@ matches Some(m) ==> (r matches Ok(ks) && lists_keys_of(ks@, m)),
    {
        match &self.secrets {
            None => Err(StoreError::StoreNotInitialized),
            Some(map) => Ok(map.keys()),
        }
    }

    /// Reads the value saved under a key; an absent key is a successful
    /// `None`, not an error. Owed whenever the store is ready, read-only.
    pub fn get<'a>(&'a self, key: &String) -> (r: Result<Option<&'a String>, StoreError>)
        requires
            self.wf(),
        ensures
            (r matches Err(StoreError::StoreNotInitialized)) <==> self@ is None,
            r matches Err(e) ==> e == StoreError::StoreNotInitialized,
            self@ matches Some(m) ==> match r {
                Ok(Some(v)) => m.contains_key(key@) && v@ == m[key@],
                Ok(None) => !m.contains_key(key@),
                Err(_) => false,
            },
    {
        match &self.secrets {
            None => Err(StoreError::StoreNotInitialized),
            Some(map) => Ok(map.get(key)),
        }
    }

    /// The same lookup as `get`, naming the value that is to be handed to the
    /// clipboard collaborator; the operating-system clipboard call itself
    /// stands outside the library, and its failure is only a warning.
    pub fn copy_to_clipboard<'a>(&'a self, key: &String) -> (r: Result<
        Option<&'a String>,
        StoreError,
    >)
        requires
            self.wf(),
        ensures
            (r matches Err(StoreError::StoreNotInitialized)) <==> self@ is None,
            r matches Err(e) ==> e == StoreError::StoreNotInitialized,
            self@ matches Some(m) ==> match r {
                Ok(Some(v)) => m.contains_key(key@) && v@ == m[key@],
                Ok(None) => !m.contains_key(key@),
                Err(_) => false,
            },
    {
        self.get(key)
    }
}

/// The shadow key differs from its own key: it is five characters longer.
pub proof fn lemma_shadow_key_distinct(k: Seq<char>)
    ensures
        shadow_key(k) != k,
        shadow_key(k).len() == k.len() + 5,
{
    reveal_strlit("::old");
    assert(shadow_key(k).len() == k.len() + 5);
}

/// Save is insert-only: after saving a fresh key, saving it again changes
/// nothing, and the key keeps its first value.
pub proof fn lemma_save_insert_only(
    m: Map<Seq<char>, Seq<char>>,
    k: Seq<char>,
    v1: Seq<char>,
    v2: Seq<char>,
)
    requires
        !m.contains_key(k),
    ensures
        save_effect(m, k, v1)[k] == v1,
        save_effect(save_effect(m, k, v1), k, v2) == save_effect(m, k, v1),
{
}

/// Update preserves the prior value: overwriting an existing key leaves the
/// new value under the key and the exact previous value under the shadow key.
pub proof fn lemma_update_preserves_prior(m: Map<Seq<char>, Seq<char>>, k: Seq<char>, v2: Seq<char>)
    requires
        m.contains_key(k),
    ensures
        update_effect(m, k, v2).contains_key(k),
        update_effect(m, k, v2)[k] == v2,
        update_effect(m, k, v2).contains_key(shadow_key(k)),
        update_effect(m, k, v2)[shadow_key(k)] == m[k],
{
    lemma_shadow_key_distinct(k);
}

/// Update on an absent key is a no-op.
pub proof fn lemma_update_absent_noop(m: Map<Seq<char>, Seq<char>>, k: Seq<char>, v: Seq<char>)
    requires
        !m.contains_key(k),
    ensures
        update_effect(m, k, v) == m,
{
}

/// Delete removes exactly one key: the deleted key is gone and every other
/// key keeps its value; deleting an absent key changes nothing.
pub proof fn lemma_delete_removes_exactly_one(m: Map<Seq<char>, Seq<char>>, k: Seq<char>)
    ensures
        !m.contains_key(k) ==> delete_effect(m, k) == m,
        m.contains_key(k) ==> !delete_effect(m, k).contains_key(k),
        forall|k2: Seq<char>|
            k2 != k ==> delete_effect(m, k).contains_key(k2) == #[trigger] m.contains_key(k2),
        forall|k2: Seq<char>|
            k2 != k && m.contains_key(k2) ==> delete_effect(m, k)[k2] == #[trigger] m[k2],
{
}

} // verus!
