//! The asset cache: an identity-keyed collection of loaded, type-erased
//! values with at-most-once load semantics, and the in-memory backing store
//! the load path reads from.
//!
//! Only a load inserts; nothing removes or replaces an entry from the
//! outside, and a second load of an already-cached name is a no-op success
//! that does not touch the backing store. A failed load leaves the cache
//! unchanged.

use vstd::prelude::*;
use crate::Error;
use crate::assets::{AssetExt, AssetKind, AssetRecord};
use crate::catalog::{Catalog, spec_find_kind};
use crate::codec::{DecodeError, spec_decode, spec_encode_bin, decode, encode_bin};
use crate::wire::{lp_string, lp_bytes, emit_lp_string, emit_lp_bytes, emit_u64};
use vstd::bytes::spec_u64_to_le_bytes;

verus! {

/// The first value stored under a key, if any.
pub open spec fn assoc_find<V>(s: Seq<(String, V)>, name: Seq<char>) -> Option<V>
    decreases s.len(),
{
    if s.len() == 0 {
        None
    } else if s[0].0@ == name {
        Some(s[0].1)
    } else {
        assoc_find(s.skip(1), name)
    }
}

/// No two entries share a key.
pub open spec fn assoc_keys_unique<V>(s: Seq<(String, V)>) -> bool {
    forall|i: int, j: int| 0 <= i < j < s.len() ==> (#[trigger] s[i]).0@ != (#[trigger] s[j]).0@
}

/// Prepending one entry shadows nothing when its key is fresh, and changes
/// no other key's value in any case.
pub proof fn lemma_assoc_cons<V>(p: (String, V), s: Seq<(String, V)>, name: Seq<char>)
    ensures
        assoc_find(seq![p] + s, name) == if p.0@ == name {
            Some(p.1)
        } else {
            assoc_find(s, name)
        },
{
    assert((seq![p] + s).skip(1) =~= s);
    assert((seq![p] + s)[0] == p);
}

/// An error from loading one logical name: the backing read failed, or the
/// bytes did not decode.
#[derive(Debug)]
pub enum LoadError {
    /// The backing storage could not produce the bytes.
    Storage(Error),
    /// The bytes were read but did not decode.
    Decode(DecodeError),
}

impl LoadError {
    /// The failure as characters: the stage that failed, then its cause.
    pub open spec fn spec_describe(self) -> Seq<char> {
        match self {
            LoadError::Storage(e) => "storage error: "@ + e@,
            LoadError::Decode(d) => "decode error: "@ + d.spec_describe(),
        }
    }

    /// A human-readable report of the failure for one logical name: which
    /// name failed to load, and the cause chain.
    pub fn describe_for(&self, name: &str) -> (r: String)
        ensures
            r@ == "failed to load "@ + name@ + ": "@ + self.spec_describe(),
    {
        let mut out = String::from_str("failed to load ");
        out.append(name);
        out.append(": ");
        let cause = self.describe();
        out.append(cause.as_str());
        out
    }

    /// A human-readable description of the failure and its cause.
    pub fn describe(&self) -> (r: String)
        ensures
            r@ == self.spec_describe(),
    {
        match self {
            LoadError::Storage(e) => {
                let mut out = String::from_str("storage error: ");
                out.append(e.message().as_str());
                out
            },
            LoadError::Decode(d) => {
                let mut out = String::from_str("decode error: ");
                out.append(d.describe());
                out
            },
        }
    }
}

/// An in-memory backing store: named byte strings, with a counter of read
/// attempts so that callers can observe which operations touch it.
#[derive(Debug)]
pub struct MemStore {
    files: Vec<(String, Vec<u8>)>,
    reads: u64,
}

impl MemStore {
    /// The bytes stored under a logical name.
    pub closed spec fn contents(self, name: Seq<char>) -> Option<Seq<u8>> {
        match assoc_find(self.files@, name) {
            None => None,
            Some(v) => Some(v@),
        }
    }

    /// How many reads have been attempted (saturating).
    pub closed spec fn read_count(self) -> u64 {
        self.reads
    }

    /// An empty store.
    pub fn new() -> (r: Self)
        ensures
            forall|n: Seq<char>| r.contents(n) is None,
            r.read_count() == 0,
    {
        Self { files: Vec::new(), reads: 0 }
    }

    /// Returns how many reads have been attempted.
    pub fn reads(&self) -> (r: u64)
        ensures
            r == self.read_count(),
    {
        self.reads
    }

    /// Stores bytes under a logical name; an earlier entry for the same name
    /// is shadowed. Reads are not counted by a write.
    pub fn write(&mut self, name: &str, bytes: Vec<u8>)
        ensures
            final(self).contents(name@) == Some(bytes@),
            forall|n: Seq<char>|
                n != name@ ==> final(self).contents(n) == old(self).contents(n),
            final(self).read_count() == old(self).read_count(),
    {
        let ghost pre = self.files@;
        let entry = (String::from_str(name), bytes);
        let ghost gentry = entry;
        self.files.insert(0, entry);
        proof {
            assert(self.files@ =~= seq![gentry] + pre);
            assert forall|n: Seq<char>| true implies #[trigger] final(self).contents(n) == (
            if n == name@ {
                Some(gentry.1@)
            } else {
                old(self).contents(n)
            }) by {
                lemma_assoc_cons(gentry, pre, n);
            }
        }
    }

    /// Reads the bytes stored under a logical name, counting the attempt;
    /// fails with a storage error exactly when the name holds nothing.
    pub fn read(&mut self, name: &str) -> (r: Result<Vec<u8>, Error>)
        ensures
            match r {
                Ok(d) => old(self).contents(name@) == Some(d@),
                Err(_) => old(self).contents(name@) is None,
            },
            forall|n: Seq<char>| final(self).contents(n) == old(self).contents(n),
            final(self).read_count() as int == if old(self).read_count() < u64::MAX {
                old(self).read_count() + 1
            } else {
                old(self).read_count() as int
            },
    {
        if self.reads < u64::MAX {
            self.reads = self.reads + 1;
        }
        let ghost s = self.files@;
        let n = self.files.len();
        proof {
            assert(s.skip(0) =~= s);
        }
        let mut i: usize = 0;
        while i < n
            invariant
                0 <= i <= n,
                n == s.len(),
                s == self.files@,
                s == old(self).files@,
                self.reads as int == if old(self).reads < u64::MAX {
                    old(self).reads + 1
                } else {
                    old(self).reads as int
                },
                assoc_find(s, name@) == assoc_find(s.skip(i as int), name@),
            decreases n - i,
        {
            if crate::wire::str_eq(self.files[i].0.as_str(), name) {
                proof {
                    assert(s.skip(i as int)[0] == s[i as int]);
                }
                let d = self.files[i].1.clone();
                proof {
                    assert(d@ =~= s[i as int].1@);
                }
                return Ok(d);
            }
            proof {
                assert(s.skip(i as int)[0] == s[i as int]);
                assert(s.skip(i as int).skip(1) =~= s.skip(i as int + 1));
            }
            i = i + 1;
        }
        proof {
            assert(s.skip(n as int).len() == 0);
        }
        Err(Error::new("no bytes stored under this name"))
    }
}

/// The cache: logical name to loaded value, inserted on first successful
/// load, never silently overwritten.
#[derive(Debug)]
pub struct AssetCache {
    assets: Vec<(String, AssetRecord)>,
}

impl AssetCache {
    /// The cached entries, most recently loaded first.
    pub closed spec fn entries(self) -> Seq<(String, AssetRecord)> {
        self.assets@
    }

    /// The value cached under a logical name.
    pub open spec fn cached(self, name: Seq<char>) -> Option<AssetRecord> {
        assoc_find(self.entries(), name)
    }

    /// Keys are unique and every cached value is well-formed.
    pub open spec fn wf(self) -> bool {
        assoc_keys_unique(self.entries()) && forall|i: int|
            0 <= i < self.entries().len() ==> (#[trigger] self.entries()[i]).1.wf()
    }

    /// An empty cache.
    pub fn new() -> (r: Self)
        ensures
            r.entries() == Seq::<(String, AssetRecord)>::empty(),
            r.wf(),
    {
        Self { assets: Vec::new() }
    }

    /// Whether a logical name is cached.
    pub fn contains(&self, name: &String) -> (r: bool)
        ensures
            r == (self.cached(name@) is Some),
    {
        self.lookup_index(name).is_some()
    }

    /// The position of a name's entry, used by the lookup operations.
    fn lookup_index(&self, name: &String) -> (r: Option<usize>)
        ensures
            match r {
                Some(i) => i < self.entries().len() && self.entries()[i as int].0@ == name@
                    && self.cached(name@) == Some(self.entries()[i as int].1),
                None => self.cached(name@) is None,
            },
    {
        let ghost s = self.entries();
        let n = self.assets.len();
        proof {
            assert(s.skip(0) =~= s);
        }
        let mut i: usize = 0;
        while i < n
            invariant
                0 <= i <= n,
                n == s.len(),
                s == self.entries(),
                assoc_find(s, name@) == assoc_find(s.skip(i as int), name@),
            decreases n - i,
        {
            if crate::wire::str_eq(self.assets[i].0.as_str(), name.as_str()) {
                proof {
                    assert(s.skip(i as int)[0] == s[i as int]);
                }
                return Some(i);
            }
            proof {
                assert(s.skip(i as int)[0] == s[i as int]);
                assert(s.skip(i as int).skip(1) =~= s.skip(i as int + 1));
            }
            i = i + 1;
        }
        proof {
            assert(s.skip(n as int).len() == 0);
        }
        None
    }

    /// Decodes bytes read for a logical name and inserts the value: a no-op
    /// success when the name is already cached, the decode error otherwise
    /// reported and the cache left unchanged.
    pub fn load_bytes(
        &mut self,
        name: &String,
        bytes: &Vec<u8>,
        cat: &Catalog<AssetKind>,
    ) -> (r: Result<(), LoadError>)
        requires
            old(self).wf(),
        ensures
            final(self).wf(),
            match r {
                Ok(()) => {
                    if old(self).cached(name@) is Some {
                        *final(self) == *old(self)
                    } else {
                        &&& spec_decode(cat.descs(), bytes@) matches Ok(w)
                        &&& match final(self).cached(name@) {
                            Some(rec) => rec.wire() == spec_decode(
                                cat.descs(),
                                bytes@,
                            ).unwrap() && AssetRecord::post_load_rel(rec, rec, name@)
                                && rec.wf(),
                            None => false,
                        }
                        &&& forall|n: Seq<char>|
                            n != name@ ==> final(self).cached(n) == old(self).cached(n)
                    }
                },
                Err(LoadError::Decode(e)) => {
                    &&& *final(self) == *old(self)
                    &&& old(self).cached(name@) is None
                    &&& spec_decode(cat.descs(), bytes@) == Err::<
                        crate::assets::AssetWire,
                        DecodeError,
                    >(e)
                },
                Err(LoadError::Storage(_)) => false,
            },
    {
        if self.contains(name) {
            return Ok(());
        }
        let mut rec = match decode(cat, bytes) {
            Err(e) => {
                return Err(LoadError::Decode(e));
            },
            Ok(v) => v,
        };
        let ghost dec_rec = rec;
        rec.post_load(name.as_str());
        proof {
            assert(rec.wf()) by {
                match rec {
                    AssetRecord::Image(v) => {
                        assert(rec.wire() == dec_rec.wire());
                    },
                    AssetRecord::Shader(v) => {
                        assert(rec.wire() == dec_rec.wire());
                    },
                }
            }
            assert(AssetRecord::post_load_rel(rec, rec, name@));
        }
        let ghost pre = self.entries();
        let entry = (name.clone(), rec);
        let ghost gentry = entry;
        self.assets.insert(0, entry);
        proof {
            assert(self.entries() =~= seq![gentry] + pre);
            assert forall|n: Seq<char>| true implies #[trigger] final(self).cached(n) == (
            if n == name@ {
                Some(gentry.1)
            } else {
                old(self).cached(n)
            }) by {
                lemma_assoc_cons(gentry, pre, n);
            }
            assert(final(self).wf()) by {
                let s = self.entries();
                assert forall|i: int, j: int|
                    0 <= i < j < s.len() implies (#[trigger] s[i]).0@ != (#[trigger] s[j]).0@ by {
                    assert(s[j] == pre[j - 1]);
                    if i > 0 {
                        assert(s[i] == pre[i - 1]);
                    } else {
                        lemma_assoc_cons(gentry, pre, s[j].0@);
                        crate::cache::lemma_assoc_member(pre, j - 1);
                    }
                }
                assert forall|i: int| 0 <= i < s.len() implies (#[trigger] s[i]).1.wf() by {
                    if i > 0 {
                        assert(s[i] == pre[i - 1]);
                    }
                }
            }
        }
        Ok(())
    }

    /// Loads one logical name: a no-op success when already cached (the
    /// store is not touched), otherwise one read of the backing store, a
    /// decode, the post-load hook, and the insert. Each failure is reported
    /// as its own case and leaves the cache unchanged.
    pub fn load_file(
        &mut self,
        store: &mut MemStore,
        name: &String,
        cat: &Catalog<AssetKind>,
    ) -> (r: Result<(), LoadError>)
        requires
            old(self).wf(),
        ensures
            final(self).wf(),
            old(self).cached(name@) is Some ==> r is Ok && *final(self) == *old(self)
                && *final(store) == *old(store),
            forall|n: Seq<char>| final(store).contents(n) == old(store).contents(n),
            final(store).read_count() <= old(store).read_count() + 1,
            match r {
                Ok(()) => {
                    if old(self).cached(name@) is Some {
                        *final(self) == *old(self)
                    } else {
                        &&& old(store).contents(name@) matches Some(bytes)
                        &&& spec_decode(cat.descs(), old(store).contents(name@).unwrap()) is Ok
                        &&& match final(self).cached(name@) {
                            Some(rec) => rec.wire() == spec_decode(
                                cat.descs(),
                                old(store).contents(name@).unwrap(),
                            ).unwrap() && AssetRecord::post_load_rel(rec, rec, name@),
                            None => false,
                        }
                        &&& forall|n: Seq<char>|
                            n != name@ ==> final(self).cached(n) == old(self).cached(n)
                    }
                },
                Err(LoadError::Storage(_)) => {
                    &&& *final(self) == *old(self)
                    &&& old(self).cached(name@) is None
                    &&& old(store).contents(name@) is None
                },
                Err(LoadError::Decode(e)) => {
                    &&& *final(self) == *old(self)
                    &&& old(self).cached(name@) is None
                    &&& old(store).contents(name@) matches Some(bytes)
                    &&& spec_decode(cat.descs(), old(store).contents(name@).unwrap()) == Err::<
                        crate::assets::AssetWire,
                        DecodeError,
                    >(e)
                },
            },
    {
        if self.contains(name) {
            return Ok(());
        }
        let bytes = match store.read(name.as_str()) {
            Err(e) => {
                return Err(LoadError::Storage(e));
            },
            Ok(d) => d,
        };
        self.load_bytes(name, &bytes, cat)
    }

    /// Narrows the value cached under a name to a concrete type: nothing
    /// when the name is not cached, and nothing when it is cached as another
    /// concrete type — never a value of the wrong type.
    pub fn borrow_asset<T: AssetExt>(&self, name: &String) -> (r: Option<&T>)
        ensures
            match r {
                Some(v) => self.cached(name@) == Some(v.spec_record()),
                None => match self.cached(name@) {
                    None => true,
                    Some(rec) => forall|v: T| rec != #[trigger] v.spec_record(),
                },
            },
    {
        match self.lookup_index(name) {
            None => None,
            Some(i) => T::narrow(&self.assets[i].1),
        }
    }

    /// The type-erased value cached under a name: the escape hatch for
    /// generic code that works without compile-time knowledge of the type.
    pub fn borrow_asset_generic(&self, name: &String) -> (r: Option<&AssetRecord>)
        ensures
            match r {
                Some(v) => self.cached(name@) == Some(*v),
                None => self.cached(name@) is None,
            },
    {
        match self.lookup_index(name) {
            None => None,
            Some(i) => Some(&self.assets[i].1),
        }
    }

    /// Replaces the value cached under a name, in place: the entry's interior
    /// may be mutated, but an entry is never created or removed this way.
    /// Fails exactly when the name is not cached.
    pub fn replace_asset(&mut self, name: &String, rec: AssetRecord) -> (r: Result<(), Error>)
        requires
            old(self).wf(),
            rec.wf(),
        ensures
            final(self).wf(),
            match r {
                Ok(()) => {
                    &&& old(self).cached(name@) is Some
                    &&& final(self).cached(name@) == Some(rec)
                    &&& forall|n: Seq<char>|
                        n != name@ ==> final(self).cached(n) == old(self).cached(n)
                },
                Err(_) => *final(self) == *old(self) && old(self).cached(name@) is None,
            },
    {
        let ghost pre = self.entries();
        let ghost grec = rec;
        match self.lookup_index(name) {
            None => Err(Error::new("no asset cached under this name")),
            Some(i) => {
                let entry = &mut self.assets[i];
                entry.1 = rec;
                proof {
                    assert(self.entries() =~= pre.update(i as int, (pre[i as int].0, grec)));
                    assert forall|n: Seq<char>| true implies #[trigger] final(self).cached(n) == (
                    if n == name@ {
                        Some(grec)
                    } else {
                        old(self).cached(n)
                    }) by {
                        lemma_assoc_update(pre, i as int, grec, n);
                    }
                    assert(final(self).wf()) by {
                        let s = self.entries();
                        assert forall|a: int, b: int|
                            0 <= a < b < s.len() implies (#[trigger] s[a]).0@ != (
                        #[trigger] s[b]).0@ by {
                            assert(s[a].0 == pre[a].0 && s[b].0 == pre[b].0);
                        }
                        assert forall|j: int| 0 <= j < s.len() implies (#[trigger] s[j]).1.wf() by {
                            if j != i {
                                assert(s[j] == pre[j]);
                            }
                        }
                    }
                }
                Ok(())
            },
        }
    }

    /// All cached entries, for read-only iteration by tooling.
    pub fn borrow_all_assets(&self) -> (r: &Vec<(String, AssetRecord)>)
        ensures
            r@ == self.entries(),
    {
        &self.assets
    }

    /// How many entries are cached.
    pub fn len(&self) -> (r: usize)
        ensures
            r == self.entries().len(),
    {
        self.assets.len()
    }

    /// One cached entry, by position.
    pub fn entry_at(&self, i: usize) -> (r: &(String, AssetRecord))
        requires
            i < self.entries().len(),
        ensures
            *r == self.entries()[i as int],
    {
        &self.assets[i]
    }
}

/// One blob entry per cached asset: the length-prefixed logical name, then
/// the length-prefixed, independently decodable binary encoding.
pub open spec fn blob_items(
    cat: Seq<crate::catalog::Descriptor<AssetKind>>,
    s: Seq<(String, AssetRecord)>,
) -> Seq<u8>
    decreases s.len(),
{
    if s.len() == 0 {
        Seq::empty()
    } else {
        lp_string(s[0].0@) + lp_bytes(spec_encode_bin(cat, s[0].1)) + blob_items(cat, s.skip(1))
    }
}

/// A whole cache as one binary blob: the entry count, then the entries.
pub open spec fn spec_blob(
    cat: Seq<crate::catalog::Descriptor<AssetKind>>,
    s: Seq<(String, AssetRecord)>,
) -> Seq<u8> {
    spec_u64_to_le_bytes(s.len() as u64) + blob_items(cat, s)
}

/// The blob grows at the back by one entry.
pub proof fn lemma_blob_items_push(
    cat: Seq<crate::catalog::Descriptor<AssetKind>>,
    s: Seq<(String, AssetRecord)>,
    p: (String, AssetRecord),
)
    ensures
        blob_items(cat, s.push(p)) == blob_items(cat, s) + lp_string(p.0@) + lp_bytes(
            spec_encode_bin(cat, p.1),
        ),
    decreases s.len(),
{
    reveal_with_fuel(blob_items, 2);
    if s.len() == 0 {
        assert(s.push(p).skip(1) =~= Seq::<(String, AssetRecord)>::empty());
        assert(blob_items(cat, s.push(p)) =~= blob_items(cat, s) + lp_string(p.0@) + lp_bytes(
            spec_encode_bin(cat, p.1),
        ));
    } else {
        lemma_blob_items_push(cat, s.skip(1), p);
        assert(s.push(p).skip(1) =~= s.skip(1).push(p));
        assert(blob_items(cat, s.push(p)) =~= blob_items(cat, s) + lp_string(p.0@) + lp_bytes(
            spec_encode_bin(cat, p.1),
        ));
    }
}

impl AssetCache {
    /// Serializes the entire cache as one binary blob, a build-time packaging
    /// step: the entry count, then each logical name with that entry's
    /// independently encoded, tagged payload. Succeeds exactly when every
    /// cached value's concrete type is registered.
    pub fn encode_blob(&self, cat: &Catalog<AssetKind>) -> (r: Result<Vec<u8>, Error>)
        requires
            self.wf(),
        ensures
            match r {
                Ok(out) => (forall|i: int|
                    0 <= i < self.entries().len() ==> spec_find_kind(
                        cat.descs(),
                        (#[trigger] self.entries()[i]).1.kind(),
                    ) is Some) && out@ == spec_blob(cat.descs(), self.entries()),
                Err(_) => exists|i: int|
                    0 <= i < self.entries().len() && spec_find_kind(
                        cat.descs(),
                        (#[trigger] self.entries()[i]).1.kind(),
                    ) is None,
            },
    {
        let ghost s = self.entries();
        let mut out: Vec<u8> = Vec::new();
        let n = self.assets.len();
        emit_u64(n as u64, &mut out);
        let ghost base = out@;
        let mut i: usize = 0;
        while i < n
            invariant
                0 <= i <= n,
                n == s.len(),
                s == self.entries(),
                self.wf(),
                base == spec_u64_to_le_bytes(n as u64),
                out@ == base + blob_items(cat.descs(), s.take(i as int)),
                forall|j: int|
                    0 <= j < i ==> spec_find_kind(cat.descs(), (#[trigger] s[j]).1.kind()) is Some,
            decreases n - i,
        {
            emit_lp_string(self.assets[i].0.as_str(), &mut out);
            let payload = match encode_bin(cat, &self.assets[i].1) {
                Err(e) => {
                    return Err(e);
                },
                Ok(p) => p,
            };
            emit_lp_bytes(&payload, &mut out);
            proof {
                lemma_blob_items_push(cat.descs(), s.take(i as int), s[i as int]);
                assert(s.take(i as int + 1) =~= s.take(i as int).push(s[i as int]));
                assert(out@ =~= base + blob_items(cat.descs(), s.take(i as int + 1)));
            }
            i = i + 1;
        }
        proof {
            assert(s.take(n as int) =~= s);
        }
        Ok(out)
    }
}

impl AssetCache {
    /// Cache idempotence: loading one name twice in sequence succeeds or
    /// fails exactly as one load does — success is owed when the name is
    /// already cached or the stored bytes decode, each failure carries the
    /// single load's own error — it costs at most one storage read in all,
    /// and when it succeeds the name is cached.
    pub fn load_file_twice(
        &mut self,
        store: &mut MemStore,
        name: &String,
        cat: &Catalog<AssetKind>,
    ) -> (r: Result<(), LoadError>)
        requires
            old(self).wf(),
        ensures
            final(self).wf(),
            final(store).read_count() <= old(store).read_count() + 1,
            r is Ok ==> final(self).cached(name@) is Some,
            match r {
                Ok(()) => old(self).cached(name@) is Some || (old(store).contents(name@) is Some
                    && spec_decode(cat.descs(), old(store).contents(name@).unwrap()) is Ok),
                Err(LoadError::Storage(_)) => {
                    &&& old(self).cached(name@) is None
                    &&& old(store).contents(name@) is None
                },
                Err(LoadError::Decode(e)) => {
                    &&& old(self).cached(name@) is None
                    &&& old(store).contents(name@) is Some
                    &&& spec_decode(cat.descs(), old(store).contents(name@).unwrap()) == Err::<
                        crate::assets::AssetWire,
                        DecodeError,
                    >(e)
                },
            },
    {
        let first = self.load_file(store, name, cat);
        if first.is_err() {
            return first;
        }
        self.load_file(store, name, cat)
    }
}

/// Replacing the value at one entry changes that entry's key's value alone,
/// as long as keys are unique.
pub proof fn lemma_assoc_update<V>(s: Seq<(String, V)>, i: int, v: V, name: Seq<char>)
    requires
        assoc_keys_unique(s),
        0 <= i < s.len(),
    ensures
        assoc_find(s.update(i, (s[i].0, v)), name) == if s[i].0@ == name {
            Some(v)
        } else {
            assoc_find(s, name)
        },
    decreases s.len(),
{
    let t = s.update(i, (s[i].0, v));
    if i == 0 {
        assert(t[0] == (s[0].0, v));
        assert(t.skip(1) =~= s.skip(1));
        if s[0].0@ != name && assoc_find(s, name) is Some {
        }
    } else {
        assert(t[0] == s[0]);
        assert(s[0].0@ != s[i].0@);
        assert(t.skip(1) =~= s.skip(1).update(i - 1, (s[i].0, v)));
        assert(assoc_keys_unique(s.skip(1))) by {
            assert forall|a: int, b: int|
                0 <= a < b < s.skip(1).len() implies (#[trigger] s.skip(1)[a]).0@ != (
            #[trigger] s.skip(1)[b]).0@ by {
                assert(s.skip(1)[a] == s[a + 1]);
                assert(s.skip(1)[b] == s[b + 1]);
            }
        }
        assert(s.skip(1)[i - 1] == s[i]);
        lemma_assoc_update(s.skip(1), i - 1, v, name);
    }
}

/// A found key's value is a member of the association list.
pub proof fn lemma_assoc_member<V>(s: Seq<(String, V)>, i: int)
    requires
        0 <= i < s.len(),
    ensures
        assoc_find(s, s[i].0@) is Some,
    decreases s.len(),
{
    if s.len() > 0 && s[0].0@ != s[i].0@ {
        assert(s.skip(1)[i - 1] == s[i]);
        lemma_assoc_member(s.skip(1), i - 1);
    }
}

} // verus!
