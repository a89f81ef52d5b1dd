//! The type catalog: a process-wide, append-only collection of type
//! descriptors for one hierarchy, populated during a defined startup phase
//! and read-only afterwards.
//!
//! A descriptor records one concrete type's process-stable identity, its
//! display name (the wire-format tag), and its dispatch tag. Registration is
//! the only mutation; it rejects a duplicate identity, display name, or
//! dispatch tag, so that exactly one descriptor exists per concrete type and
//! display names are unique within the hierarchy. A lookup miss is a normal
//! outcome, signaling "unknown type" to the caller.

use vstd::prelude::*;
use crate::Error;
use crate::wire::str_eq;

verus! {

broadcast use vstd::slice::group_slice_axioms;

/// A dispatch tag: a copyable token naming one concrete type of a closed
/// set, with a contents-exact equality test.
pub trait KindTag: Sized + Copy {
    /// Compares two tags by contents.
    fn kind_eq(&self, other: &Self) -> (r: bool)
        ensures
            r == (*self == *other),
    ;
}

impl KindTag for crate::assets::AssetKind {
    fn kind_eq(&self, other: &Self) -> bool {
        *self == *other
    }
}

/// An immutable record of identity and operations-dispatch for one concrete
/// type: its process-stable identity, the display name used as the
/// wire-format tag, and the dispatch tag the codec constructs through.
#[derive(Debug)]
pub struct Descriptor<K> {
    /// A process-stable identifier uniquely naming the concrete type.
    pub type_identity: u64,
    /// The stable string tag identifying the type on the wire; unique across
    /// all registered types of the same hierarchy.
    pub display_name: String,
    /// The dispatch tag the generic machinery constructs and decodes through.
    pub kind: K,
}

impl<K: Copy> Descriptor<K> {
    /// Builds a descriptor from its three parts.
    pub fn new(type_identity: u64, display_name: &str, kind: K) -> (r: Self)
        ensures
            r.type_identity == type_identity,
            r.display_name@ == display_name@,
            r.kind == kind,
    {
        Self { type_identity, display_name: String::from_str(display_name), kind }
    }

    /// Copies a descriptor.
    pub fn duplicate(&self) -> (r: Self)
        ensures
            r.type_identity == self.type_identity,
            r.display_name@ == self.display_name@,
            r.kind == self.kind,
    {
        Self {
            type_identity: self.type_identity,
            display_name: self.display_name.clone(),
            kind: self.kind,
        }
    }
}

/// Every display name's UTF-8 form fits the wire format's 8-byte length
/// prefix.
pub open spec fn names_bounded<K>(s: Seq<Descriptor<K>>) -> bool {
    forall|i: int|
        0 <= i < s.len() ==> vstd::utf8::encode_utf8(
            (#[trigger] s[i]).display_name@,
        ).len() <= u64::MAX
}

/// No two descriptors share a display name.
pub open spec fn names_unique<K>(s: Seq<Descriptor<K>>) -> bool {
    forall|i: int, j: int|
        0 <= i < j < s.len() ==> (#[trigger] s[i]).display_name@ != (
        #[trigger] s[j]).display_name@
}

/// No two descriptors share a type identity.
pub open spec fn ids_unique<K>(s: Seq<Descriptor<K>>) -> bool {
    forall|i: int, j: int|
        0 <= i < j < s.len() ==> (#[trigger] s[i]).type_identity != (#[trigger] s[j]).type_identity
}

/// No two descriptors share a dispatch tag.
pub open spec fn kinds_unique<K>(s: Seq<Descriptor<K>>) -> bool {
    forall|i: int, j: int| 0 <= i < j < s.len() ==> (#[trigger] s[i]).kind != (#[trigger] s[j]).kind
}

/// The first descriptor with the given display name.
pub open spec fn spec_find_name<K>(s: Seq<Descriptor<K>>, name: Seq<char>) -> Option<Descriptor<K>>
    decreases s.len(),
{
    if s.len() == 0 {
        None
    } else if s[0].display_name@ == name {
        Some(s[0])
    } else {
        spec_find_name(s.skip(1), name)
    }
}

/// The first descriptor with the given type identity.
pub open spec fn spec_find_id<K>(s: Seq<Descriptor<K>>, id: u64) -> Option<Descriptor<K>>
    decreases s.len(),
{
    if s.len() == 0 {
        None
    } else if s[0].type_identity == id {
        Some(s[0])
    } else {
        spec_find_id(s.skip(1), id)
    }
}

/// The first descriptor with the given dispatch tag.
pub open spec fn spec_find_kind<K>(s: Seq<Descriptor<K>>, k: K) -> Option<Descriptor<K>>
    decreases s.len(),
{
    if s.len() == 0 {
        None
    } else if s[0].kind == k {
        Some(s[0])
    } else {
        spec_find_kind(s.skip(1), k)
    }
}

/// What a name lookup says of the collection: a hit is a held descriptor
/// with that name; a miss means no held descriptor has it.
pub proof fn lemma_find_name_props<K>(s: Seq<Descriptor<K>>, name: Seq<char>)
    ensures
        match spec_find_name(s, name) {
            Some(d) => d.display_name@ == name && exists|i: int|
                0 <= i < s.len() && s[i] == d,
            None => forall|i: int| 0 <= i < s.len() ==> (#[trigger] s[i]).display_name@ != name,
        },
    decreases s.len(),
{
    if s.len() > 0 && s[0].display_name@ != name {
        lemma_find_name_props(s.skip(1), name);
        match spec_find_name(s, name) {
            Some(d) => {
                let i = choose|i: int| 0 <= i < s.skip(1).len() && s.skip(1)[i] == d;
                assert(s[i + 1] == d);
            },
            None => {
                assert forall|i: int| 0 <= i < s.len() implies (#[trigger] s[i]).display_name@
                    != name by {
                    if i > 0 {
                        assert(s.skip(1)[i - 1] == s[i]);
                    }
                }
            },
        }
    }
}

/// What an identity lookup says of the collection.
pub proof fn lemma_find_id_props<K>(s: Seq<Descriptor<K>>, id: u64)
    ensures
        match spec_find_id(s, id) {
            Some(d) => d.type_identity == id && exists|i: int| 0 <= i < s.len() && s[i] == d,
            None => forall|i: int| 0 <= i < s.len() ==> (#[trigger] s[i]).type_identity != id,
        },
    decreases s.len(),
{
    if s.len() > 0 && s[0].type_identity != id {
        lemma_find_id_props(s.skip(1), id);
        match spec_find_id(s, id) {
            Some(d) => {
                let i = choose|i: int| 0 <= i < s.skip(1).len() && s.skip(1)[i] == d;
                assert(s[i + 1] == d);
            },
            None => {
                assert forall|i: int| 0 <= i < s.len() implies (#[trigger] s[i]).type_identity
                    != id by {
                    if i > 0 {
                        assert(s.skip(1)[i - 1] == s[i]);
                    }
                }
            },
        }
    }
}

/// What a tag lookup says of the collection.
pub proof fn lemma_find_kind_props<K>(s: Seq<Descriptor<K>>, k: K)
    ensures
        match spec_find_kind(s, k) {
            Some(d) => d.kind == k && exists|i: int| 0 <= i < s.len() && s[i] == d,
            None => forall|i: int| 0 <= i < s.len() ==> (#[trigger] s[i]).kind != k,
        },
    decreases s.len(),
{
    if s.len() > 0 && s[0].kind != k {
        lemma_find_kind_props(s.skip(1), k);
        match spec_find_kind(s, k) {
            Some(d) => {
                let i = choose|i: int| 0 <= i < s.skip(1).len() && s.skip(1)[i] == d;
                assert(s[i + 1] == d);
            },
            None => {
                assert forall|i: int| 0 <= i < s.len() implies (#[trigger] s[i]).kind != k by {
                    if i > 0 {
                        assert(s.skip(1)[i - 1] == s[i]);
                    }
                }
            },
        }
    }
}

/// With unique names, looking a held descriptor's own name up yields exactly
/// that descriptor.
pub proof fn lemma_find_name_of_member<K>(s: Seq<Descriptor<K>>, i: int)
    requires
        names_unique(s),
        0 <= i < s.len(),
    ensures
        spec_find_name(s, s[i].display_name@) == Some(s[i]),
    decreases s.len(),
{
    if i == 0 {
    } else {
        assert(s[0].display_name@ != s[i].display_name@);
        assert(names_unique(s.skip(1))) by {
            assert forall|a: int, b: int|
                0 <= a < b < s.skip(1).len() implies (#[trigger] s.skip(1)[a]).display_name@ != (
            #[trigger] s.skip(1)[b]).display_name@ by {
                assert(s.skip(1)[a] == s[a + 1]);
                assert(s.skip(1)[b] == s[b + 1]);
            }
        }
        assert(s.skip(1)[i - 1] == s[i]);
        lemma_find_name_of_member(s.skip(1), i - 1);
    }
}

/// With unique tags, looking a held descriptor's own tag up yields exactly
/// that descriptor.
pub proof fn lemma_find_kind_of_member<K>(s: Seq<Descriptor<K>>, i: int)
    requires
        kinds_unique(s),
        0 <= i < s.len(),
    ensures
        spec_find_kind(s, s[i].kind) == Some(s[i]),
    decreases s.len(),
{
    if i == 0 {
    } else {
        assert(s[0].kind != s[i].kind);
        assert(kinds_unique(s.skip(1))) by {
            assert forall|a: int, b: int|
                0 <= a < b < s.skip(1).len() implies (#[trigger] s.skip(1)[a]).kind != (
            #[trigger] s.skip(1)[b]).kind by {
                assert(s.skip(1)[a] == s[a + 1]);
                assert(s.skip(1)[b] == s[b + 1]);
            }
        }
        assert(s.skip(1)[i - 1] == s[i]);
        lemma_find_kind_of_member(s.skip(1), i - 1);
    }
}

/// A tag that some held descriptor carries is found by a tag lookup.
pub proof fn lemma_find_kind_of_found<K>(s: Seq<Descriptor<K>>, d: Descriptor<K>, k: K)
    requires
        exists|i: int| 0 <= i < s.len() && s[i] == d,
        d.kind == k,
    ensures
        spec_find_kind(s, k) is Some,
    decreases s.len(),
{
    if s.len() > 0 && s[0].kind != k {
        let i = choose|i: int| 0 <= i < s.len() && s[i] == d;
        assert(s.skip(1)[i - 1] == d);
        lemma_find_kind_of_found(s.skip(1), d, k);
    }
}

/// The process-wide, append-only collection of type descriptors for one
/// hierarchy.
#[derive(Debug)]
pub struct Catalog<K> {
    items: Vec<Descriptor<K>>,
}

impl<K: KindTag> Catalog<K> {
    /// The registered descriptors, in registration order.
    pub closed spec fn descs(self) -> Seq<Descriptor<K>> {
        self.items@
    }

    /// Exactly one descriptor per concrete type: display names, identities
    /// and dispatch tags are all unique.
    pub open spec fn wf(self) -> bool {
        names_unique(self.descs()) && ids_unique(self.descs()) && kinds_unique(self.descs())
            && names_bounded(self.descs())
    }

    /// An empty catalog, before any registration.
    pub fn new() -> (r: Self)
        ensures
            r.descs() == Seq::<Descriptor<K>>::empty(),
            r.wf(),
    {
        Self { items: Vec::new() }
    }

    /// How many descriptors are registered.
    pub fn len(&self) -> (r: usize)
        ensures
            r == self.descs().len(),
    {
        self.items.len()
    }

    /// The descriptor at one position of the registration order.
    pub fn at(&self, i: usize) -> (r: &Descriptor<K>)
        requires
            i < self.descs().len(),
        ensures
            *r == self.descs()[i as int],
    {
        &self.items[i]
    }

    /// Registers one descriptor. Succeeds exactly when its display name,
    /// identity and dispatch tag are all still free; a duplicate is rejected
    /// and leaves the catalog unchanged.
    pub fn register(&mut self, d: Descriptor<K>) -> (r: Result<(), Error>)
        ensures
            match r {
                Ok(()) => {
                    &&& spec_find_name(old(self).descs(), d.display_name@) is None
                    &&& spec_find_id(old(self).descs(), d.type_identity) is None
                    &&& spec_find_kind(old(self).descs(), d.kind) is None
                    &&& final(self).descs() == old(self).descs().push(d)
                    &&& old(self).wf() ==> final(self).wf()
                },
                Err(_) => {
                    &&& *final(self) == *old(self)
                    &&& !(spec_find_name(old(self).descs(), d.display_name@) is None
                        && spec_find_id(old(self).descs(), d.type_identity) is None
                        && spec_find_kind(old(self).descs(), d.kind) is None)
                },
            },
    {
        if self.find_by_name(d.display_name.as_str()).is_some() {
            return Err(Error::new("a type with this display name is already registered"));
        }
        if self.find_by_identity(d.type_identity).is_some() {
            return Err(Error::new("a type with this identity is already registered"));
        }
        if self.find_by_kind(d.kind).is_some() {
            return Err(Error::new("this type is already registered"));
        }
        proof {
            lemma_find_name_props(self.descs(), d.display_name@);
            lemma_find_id_props(self.descs(), d.type_identity);
            lemma_find_kind_props(self.descs(), d.kind);
        }
        let name_bytes = d.display_name.as_str().as_bytes();
        let nl = name_bytes.len();
        assert(vstd::utf8::encode_utf8(d.display_name@).len() <= u64::MAX);
        let ghost pre = self.descs();
        self.items.push(d);
        proof {
            let s = self.descs();
            if old(self).wf() {
                assert forall|i: int|
                    0 <= i < s.len() implies vstd::utf8::encode_utf8(
                    (#[trigger] s[i]).display_name@,
                ).len() <= u64::MAX by {
                    if i < s.len() - 1 {
                        assert(pre[i] == s[i]);
                    }
                }
                assert forall|i: int, j: int|
                    0 <= i < j < s.len() implies (#[trigger] s[i]).display_name@ != (
                #[trigger] s[j]).display_name@ && s[i].type_identity != s[j].type_identity && s[i].kind
                    != s[j].kind by {
                    if j < s.len() - 1 {
                        assert(pre[i] == s[i] && pre[j] == s[j]);
                    } else {
                        assert(pre[i] == s[i]);
                    }
                }
            }
        }
        Ok(())
    }

    /// Finds the descriptor registered under a display name, or nothing: a
    /// miss signals "unknown type" to the caller.
    pub fn find_by_name(&self, name: &str) -> (r: Option<&Descriptor<K>>)
        ensures
            match r {
                Some(d) => spec_find_name(self.descs(), name@) == Some(*d),
                None => spec_find_name(self.descs(), name@) is None,
            },
    {
        let ghost s = self.descs();
        let n = self.items.len();
        proof {
            assert(s.skip(0) =~= s);
        }
        let mut i: usize = 0;
        while i < n
            invariant
                0 <= i <= n,
                n == s.len(),
                s == self.descs(),
                spec_find_name(s, name@) == spec_find_name(s.skip(i as int), name@),
            decreases n - i,
        {
            if str_eq(self.items[i].display_name.as_str(), name) {
                proof {
                    assert(s.skip(i as int)[0] == s[i as int]);
                }
                return Some(&self.items[i]);
            }
            proof {
                assert(s.skip(i as int)[0] == s[i as int]);
                assert(s.skip(i as int).skip(1) =~= s.skip(i as int + 1));
            }
            i = i + 1;
        }
        proof {
            assert(s.skip(n as int).len() == 0);
        }
        None
    }

    /// Finds the descriptor registered under a type identity, or nothing.
    pub fn find_by_identity(&self, id: u64) -> (r: Option<&Descriptor<K>>)
        ensures
            match r {
                Some(d) => spec_find_id(self.descs(), id) == Some(*d),
                None => spec_find_id(self.descs(), id) is None,
            },
    {
        let ghost s = self.descs();
        let n = self.items.len();
        proof {
            assert(s.skip(0) =~= s);
        }
        let mut i: usize = 0;
        while i < n
            invariant
                0 <= i <= n,
                n == s.len(),
                s == self.descs(),
                spec_find_id(s, id) == spec_find_id(s.skip(i as int), id),
            decreases n - i,
        {
            if self.items[i].type_identity == id {
                proof {
                    assert(s.skip(i as int)[0] == s[i as int]);
                }
                return Some(&self.items[i]);
            }
            proof {
                assert(s.skip(i as int)[0] == s[i as int]);
                assert(s.skip(i as int).skip(1) =~= s.skip(i as int + 1));
            }
            i = i + 1;
        }
        proof {
            assert(s.skip(n as int).len() == 0);
        }
        None
    }

    /// Finds the descriptor registered under a dispatch tag, or nothing.
    pub fn find_by_kind(&self, k: K) -> (r: Option<&Descriptor<K>>)
        ensures
            match r {
                Some(d) => spec_find_kind(self.descs(), k) == Some(*d),
                None => spec_find_kind(self.descs(), k) is None,
            },
    {
        let ghost s = self.descs();
        let n = self.items.len();
        proof {
            assert(s.skip(0) =~= s);
        }
        let mut i: usize = 0;
        while i < n
            invariant
                0 <= i <= n,
                n == s.len(),
                s == self.descs(),
                spec_find_kind(s, k) == spec_find_kind(s.skip(i as int), k),
            decreases n - i,
        {
            if self.items[i].kind.kind_eq(&k) {
                proof {
                    assert(s.skip(i as int)[0] == s[i as int]);
                }
                return Some(&self.items[i]);
            }
            proof {
                assert(s.skip(i as int)[0] == s[i as int]);
                assert(s.skip(i as int).skip(1) =~= s.skip(i as int + 1));
            }
            i = i + 1;
        }
        proof {
            assert(s.skip(n as int).len() == 0);
        }
        None
    }
}

} // verus!
