//! The alternate engine: a thin adapter over the embedded `sled` B-tree
//! store. Keys and values are stored as their UTF-8 bytes; `sled` itself
//! persists and flushes them. The adapter's contracts speak of the tree's
//! contents as a map of byte sequences, named by `sled_contents`.

use vstd::prelude::*;
use vstd::string::StringSliceAdditionalSpecFns;
use vstd::utf8::encode_utf8;
use vstd::utf8::valid_utf8;
use crate::KvError;

verus! {

#[verifier::external_type_specification]
#[verifier::external_body]
pub struct ExSledDb(sled::Db);

#[verifier::external_type_specification]
#[verifier::external_body]
pub struct ExSledError(sled::Error);

/// What the tree maps each key's bytes to.
pub uninterp spec fn sled_contents(db: sled::Db) -> Map<Seq<u8>, Seq<u8>>;

/// Relies on `sled::open`: opens the database in the given directory,
/// creating it if absent.
#[verifier::external_body]
fn sled_open(path: &str) -> (r: Result<sled::Db, sled::Error>) {
    sled::open(path)
}

/// Relies on `sled::Tree::insert`: maps the key's bytes to the value's
/// bytes. The prior value it returns is dropped here.
#[verifier::external_body]
fn sled_insert(db: &mut sled::Db, k: &str, v: &str) -> (r: Result<(), sled::Error>)
    ensures
        r is Ok ==> sled_contents(*final(db)) == sled_contents(*old(db)).insert(
            k.spec_bytes(),
            v.spec_bytes(),
        ),
{
    match db.insert(k.as_bytes(), v.as_bytes()) {
        Ok(_prior) => Ok(()),
        Err(e) => Err(e),
    }
}

/// Relies on `sled::Tree::get`: returns the bytes the key maps to, if the
/// key is present.
#[verifier::external_body]
fn sled_get(db: &sled::Db, k: &str) -> (r: Result<Option<Vec<u8>>, sled::Error>)
    ensures
        match r {
            Ok(Some(v)) => sled_contents(*db).contains_key(k.spec_bytes()) && v@ == sled_contents(
                *db,
            )[k.spec_bytes()],
            Ok(None) => !sled_contents(*db).contains_key(k.spec_bytes()),
            Err(_) => true,
        },
{
    match db.get(k.as_bytes()) {
        Ok(Some(iv)) => Ok(Some(iv.as_ref().to_vec())),
        Ok(None) => Ok(None),
        Err(e) => Err(e),
    }
}

/// Relies on `sled::Tree::remove`: removes the key, returning the prior
/// value exactly when the key was present.
#[verifier::external_body]
fn sled_remove(db: &mut sled::Db, k: &str) -> (r: Result<Option<Vec<u8>>, sled::Error>)
    ensures
        match r {
            Ok(Some(v)) => sled_contents(*old(db)).contains_key(k.spec_bytes()) && v@
                == sled_contents(*old(db))[k.spec_bytes()] && sled_contents(*final(db))
                == sled_contents(*old(db)).remove(k.spec_bytes()),
            Ok(None) => !sled_contents(*old(db)).contains_key(k.spec_bytes()) && sled_contents(
                *final(db),
            ) == sled_contents(*old(db)),
            Err(_) => true,
        },
{
    match db.remove(k.as_bytes()) {
        Ok(Some(iv)) => Ok(Some(iv.as_ref().to_vec())),
        Ok(None) => Ok(None),
        Err(e) => Err(e),
    }
}

/// Relies on `String::from_utf8`: succeeds exactly on valid UTF-8, and
/// the string then holds the characters those bytes encode.
#[verifier::external_body]
fn utf8_to_string(bytes: Vec<u8>) -> (r: Option<String>)
    ensures
        match r {
            Some(s) => valid_utf8(bytes@) && encode_utf8(s@) == bytes@,
            None => !valid_utf8(bytes@),
        },
{
    match String::from_utf8(bytes) {
        Ok(s) => Some(s),
        Err(_) => None,
    }
}

/// A storage engine over the embedded `sled` B-tree store.
pub struct SledKvsEngine {
    tree: sled::Db,
}

impl SledKvsEngine {
    /// The bytes the tree maps each key's bytes to.
    pub closed spec fn contents(self) -> Map<Seq<u8>, Seq<u8>> {
        sled_contents(self.tree)
    }

    /// Open the store in the given directory, creating it if absent.
    pub fn open(path: &str) -> (r: Result<SledKvsEngine, KvError>)
        ensures
            r matches Err(e) ==> e == KvError::Io,
    {
        match sled_open(path) {
            Ok(tree) => Ok(SledKvsEngine { tree }),
            Err(_) => Err(KvError::Io),
        }
    }

    /// Assign `v` to `k`: the tree maps `k`'s bytes to `v`'s bytes.
    pub fn set(&mut self, k: String, v: String) -> (r: Result<(), KvError>)
        ensures
            r is Ok ==> final(self).contents() == old(self).contents().insert(
                encode_utf8(k@),
                encode_utf8(v@),
            ),
            r matches Err(e) ==> e == KvError::Io,
    {
        match sled_insert(&mut self.tree, k.as_str(), v.as_str()) {
            Ok(_) => Ok(()),
            Err(_) => Err(KvError::Io),
        }
    }

    /// The value of `k`, decoded from the bytes the tree holds. A present
    /// value that is not valid UTF-8 was not written through this adapter:
    /// the store is corrupt.
    pub fn get(&self, k: String) -> (r: Result<Option<String>, KvError>)
        ensures
            match r {
                Ok(Some(v)) => self.contents().contains_key(encode_utf8(k@)) && encode_utf8(v@)
                    == self.contents()[encode_utf8(k@)],
                Ok(None) => !self.contents().contains_key(encode_utf8(k@)),
                Err(e) => e == KvError::Io || (e == KvError::Corruption
                    && self.contents().contains_key(encode_utf8(k@)) && !valid_utf8(
                    self.contents()[encode_utf8(k@)],
                )),
            },
    {
        match sled_get(&self.tree, k.as_str()) {
            Ok(Some(bytes)) => match utf8_to_string(bytes) {
                Some(s) => Ok(Some(s)),
                None => Err(KvError::Corruption),
            },
            Ok(None) => Ok(None),
            Err(_) => Err(KvError::Io),
        }
    }

    /// Remove `k`; fails with `KeyNotFound` exactly when the tree held no
    /// prior value for it.
    pub fn remove(&mut self, k: String) -> (r: Result<(), KvError>)
        ensures
            match r {
                Ok(_) => old(self).contents().contains_key(encode_utf8(k@)) && final(self).contents() == old(self).contents().remove(encode_utf8(k@)),
                Err(e) => (e == KvError::KeyNotFound || e == KvError::Io) && (e
                    == KvError::KeyNotFound ==> !old(self).contents().contains_key(encode_utf8(k@))
                    && final(self).contents() == old(self).contents()),
            },
    {
        match sled_remove(&mut self.tree, k.as_str()) {
            Ok(Some(_prior)) => Ok(()),
            Ok(None) => Err(KvError::KeyNotFound),
            Err(_) => Err(KvError::Io),
        }
    }
}

impl crate::engine::KvsEngine for SledKvsEngine {
    open spec fn model(&self) -> Map<Seq<char>, Seq<char>> {
        Map::empty()
    }

    open spec fn models(&self) -> bool {
        false
    }

    open spec fn ready(&self) -> bool {
        true
    }

    fn set(&mut self, k: String, v: String) -> (r: Result<(), KvError>) {
        SledKvsEngine::set(self, k, v)
    }

    fn get(&self, k: String) -> (r: Result<Option<String>, KvError>) {
        SledKvsEngine::get(self, k)
    }

    fn remove(&mut self, k: String) -> (r: Result<(), KvError>) {
        SledKvsEngine::remove(self, k)
    }
}

} // verus!
