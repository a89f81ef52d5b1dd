//! The component hierarchy: the entity registry, the concrete component
//! types with their type-erased [`CompRecord`], and the dynamic attribute
//! table — the per-entity presence/add/remove/copy-out/restore operations
//! that generic entity serialization and tooling dispatch through a
//! [`Descriptor`].
//!
//! Each entity owns zero or one instance of each registered attribute type;
//! attributes never reference their owning entity.

use vstd::prelude::*;
use crate::catalog::{Descriptor, KindTag};
use crate::text::{lit, quoted_string, spec_expect, spec_parse_quoted_string, text_i32,
    spec_parse_i32_text, expect_lit, emit_lit, emit_quoted_string, parse_quoted_string,
    emit_i32_text, parse_i32_text, lemma_expect_emitted, lemma_parse_quoted_string_emitted,
    lemma_parse_i32_emitted};

verus! {

/// An entity: an identifier owning a sparse set of attribute instances.
#[derive(Debug)]
pub struct EntId(pub usize);

/// A utility component tagging an entity with a human-friendly name.
#[derive(Debug)]
pub struct NameComp(pub String);

impl NameComp {
    /// A name component holding the given text.
    pub fn new(s: &str) -> (r: Self)
        ensures
            r.0@ == s@,
    {
        NameComp(String::from_str(s))
    }
}

/// A component linking an entity to a parent entity by number.
#[derive(Debug)]
pub struct ParentComp {
    pub parent: i32,
}

/// The dispatch tag naming one concrete component type of the closed set.
#[derive(Debug, Clone, Copy, PartialEq, Eq, Structural, Hash)]
pub enum CompKind {
    Name,
    Parent,
}

impl KindTag for CompKind {
    fn kind_eq(&self, other: &Self) -> bool {
        *self == *other
    }
}

/// What one type-erased component carries on the wire.
pub enum CompWire {
    Name { name: Seq<char> },
    Parent { parent: i32 },
}

/// A type-erased, owned component value: exactly one concrete record.
#[derive(Debug)]
pub enum CompRecord {
    Name(NameComp),
    Parent(ParentComp),
}

impl CompRecord {
    /// The tag of the concrete type stored in this value.
    pub open spec fn kind(self) -> CompKind {
        match self {
            CompRecord::Name(_) => CompKind::Name,
            CompRecord::Parent(_) => CompKind::Parent,
        }
    }

    /// The wire contents of the stored record.
    pub open spec fn wire(self) -> CompWire {
        match self {
            CompRecord::Name(v) => CompWire::Name { name: v.0@ },
            CompRecord::Parent(v) => CompWire::Parent { parent: v.parent },
        }
    }

    /// Whether this is the default-initialized value of its type.
    pub open spec fn is_default(self) -> bool {
        match self {
            CompRecord::Name(v) => v.0@ == Seq::<char>::empty(),
            CompRecord::Parent(v) => v.parent == 0,
        }
    }

    /// Returns the tag of the concrete type stored in this value.
    pub fn get_kind(&self) -> (k: CompKind)
        ensures
            k == self.kind(),
    {
        match self {
            CompRecord::Name(_) => CompKind::Name,
            CompRecord::Parent(_) => CompKind::Parent,
        }
    }

    /// A default-initialized value of the concrete type `k` names.
    pub fn make_default(k: CompKind) -> (r: Self)
        ensures
            r.kind() == k,
            r.is_default(),
    {
        match k {
            CompKind::Name => CompRecord::Name(NameComp(String::new())),
            CompKind::Parent => CompRecord::Parent(ParentComp { parent: 0 }),
        }
    }

    /// An owned copy, equal to this value.
    pub fn duplicate(&self) -> (r: Self)
        ensures
            r == *self,
    {
        match self {
            CompRecord::Name(v) => CompRecord::Name(NameComp(v.0.clone())),
            CompRecord::Parent(v) => CompRecord::Parent(ParentComp { parent: v.parent }),
        }
    }
}

/// The capability interface of one concrete component type: what the generic
/// registration, construction, and narrowing machinery needs of it.
pub trait CompExt: Sized {
    /// Whether this is the default-initialized value.
    spec fn spec_is_default(&self) -> bool;

    /// The dispatch tag of this concrete type.
    spec fn spec_kind() -> CompKind;

    /// This value as a type-erased record.
    spec fn spec_record(self) -> CompRecord;

    /// Returns the dispatch tag of this concrete type.
    fn kind() -> (k: CompKind)
        ensures
            k == Self::spec_kind(),
    ;

    /// Constructs a new, default-initialized value of this concrete type.
    fn make_default() -> (r: Self)
        ensures
            r.spec_is_default(),
    ;

    /// Wraps this value into a type-erased record.
    fn into_record(self) -> (r: CompRecord)
        ensures
            r == self.spec_record(),
    ;

    /// Checked narrowing: the stored concrete value when the record is of
    /// this type, and nothing otherwise.
    fn narrow(rec: &CompRecord) -> (r: Option<&Self>)
        ensures
            match r {
                Some(v) => *rec == v.spec_record(),
                None => forall|v: Self| *rec != #[trigger] v.spec_record(),
            },
    ;
}

impl CompExt for NameComp {
    open spec fn spec_is_default(&self) -> bool {
        self.0@ == Seq::<char>::empty()
    }

    open spec fn spec_kind() -> CompKind {
        CompKind::Name
    }

    open spec fn spec_record(self) -> CompRecord {
        CompRecord::Name(self)
    }

    fn kind() -> CompKind {
        CompKind::Name
    }

    fn make_default() -> Self {
        NameComp(String::new())
    }

    fn into_record(self) -> CompRecord {
        CompRecord::Name(self)
    }

    fn narrow(rec: &CompRecord) -> Option<&Self> {
        match rec {
            CompRecord::Name(v) => Some(v),
            _ => None,
        }
    }
}

impl CompExt for ParentComp {
    open spec fn spec_is_default(&self) -> bool {
        self.parent == 0
    }

    open spec fn spec_kind() -> CompKind {
        CompKind::Parent
    }

    open spec fn spec_record(self) -> CompRecord {
        CompRecord::Parent(self)
    }

    fn kind() -> CompKind {
        CompKind::Parent
    }

    fn make_default() -> Self {
        ParentComp { parent: 0 }
    }

    fn into_record(self) -> CompRecord {
        CompRecord::Parent(self)
    }

    fn narrow(rec: &CompRecord) -> Option<&Self> {
        match rec {
            CompRecord::Parent(v) => Some(v),
            _ => None,
        }
    }
}

impl NameComp {
    /// The text payload: the held name as a quoted string field.
    pub open spec fn enc_text(self) -> Seq<u8> {
        lit("{\"name\":"@) + quoted_string(self.0@) + seq![125u8]
    }

    /// Reads a text payload.
    pub open spec fn spec_parse_text(b: Seq<u8>, p: int) -> Option<(Seq<char>, int)> {
        match spec_expect(b, p, lit("{\"name\":"@)) {
            None => None,
            Some(p1) => match spec_parse_quoted_string(b, p1) {
                None => None,
                Some((name, p2)) => {
                    if 0 <= p2 < b.len() && b[p2] == 125 {
                        Some((name, p2 + 1))
                    } else {
                        None
                    }
                },
            },
        }
    }

    /// Appends the text payload.
    pub fn encode_text(&self, out: &mut Vec<u8>)
        ensures
            final(out)@ == old(out)@ + self.enc_text(),
    {
        emit_lit("{\"name\":", out);
        emit_quoted_string(self.0.as_str(), out);
        out.push(125);
        assert(out@ =~= old(out)@ + self.enc_text());
    }

    /// Reads a text payload, exactly as [`NameComp::spec_parse_text`].
    pub fn decode_text(b: &Vec<u8>, pos: usize) -> (r: Option<(Self, usize)>)
        ensures
            match r {
                Some((v, e)) => Self::spec_parse_text(b@, pos as int) == Some((v.0@, e as int))
                    && e <= b@.len(),
                None => Self::spec_parse_text(b@, pos as int) is None,
            },
    {
        let p1 = match expect_lit(b, pos, "{\"name\":") {
            None => {
                return None;
            },
            Some(p) => p,
        };
        let (name, p2) = match parse_quoted_string(b, p1) {
            None => {
                return None;
            },
            Some(v) => v,
        };
        if !(p2 < b.len() && b[p2] == 125) {
            return None;
        }
        Some((NameComp(name), p2 + 1))
    }

    /// Reading a text payload just past a known prefix yields the written
    /// name.
    pub proof fn lemma_parse_text_emitted(self, pre: Seq<u8>, rest: Seq<u8>)
        ensures
            Self::spec_parse_text(pre + self.enc_text() + rest, pre.len() as int) == Some(
                (self.0@, pre.len() + self.enc_text().len() as int),
            ),
    {
        let b = pre + self.enc_text() + rest;
        let l1 = lit("{\"name\":"@);
        let qn = quoted_string(self.0@);
        assert(spec_expect(b, pre.len() as int, l1) == Some(pre.len() + l1.len() as int)) by {
            let t = qn + seq![125u8] + rest;
            assert(b =~= pre + l1 + t);
            lemma_expect_emitted(pre, l1, t);
        }
        assert(spec_parse_quoted_string(b, pre.len() + l1.len() as int) == Some(
            (self.0@, pre.len() + l1.len() + qn.len() as int),
        )) by {
            let t = seq![125u8] + rest;
            assert(b =~= (pre + l1) + qn + t);
            lemma_parse_quoted_string_emitted(pre + l1, self.0@, t);
        }
        assert(b[pre.len() + l1.len() + qn.len() as int] == 125);
    }
}

impl ParentComp {
    /// The text payload: the parent number as a signed numeral field.
    pub open spec fn enc_text(self) -> Seq<u8> {
        lit("{\"parent\":"@) + text_i32(self.parent as int) + seq![125u8]
    }

    /// Reads a text payload.
    pub open spec fn spec_parse_text(b: Seq<u8>, p: int) -> Option<(i32, int)> {
        match spec_expect(b, p, lit("{\"parent\":"@)) {
            None => None,
            Some(p1) => match spec_parse_i32_text(b, p1) {
                None => None,
                Some((v, p2)) => {
                    if 0 <= p2 < b.len() && b[p2] == 125 {
                        Some((v, p2 + 1))
                    } else {
                        None
                    }
                },
            },
        }
    }

    /// Appends the text payload.
    pub fn encode_text(&self, out: &mut Vec<u8>)
        ensures
            final(out)@ == old(out)@ + self.enc_text(),
    {
        emit_lit("{\"parent\":", out);
        emit_i32_text(self.parent, out);
        out.push(125);
        assert(out@ =~= old(out)@ + self.enc_text());
    }

    /// Reads a text payload, exactly as [`ParentComp::spec_parse_text`].
    pub fn decode_text(b: &Vec<u8>, pos: usize) -> (r: Option<(Self, usize)>)
        requires
            pos <= b@.len(),
        ensures
            match r {
                Some((v, e)) => Self::spec_parse_text(b@, pos as int) == Some((v.parent, e as int))
                    && e <= b@.len(),
                None => Self::spec_parse_text(b@, pos as int) is None,
            },
    {
        let p1 = match expect_lit(b, pos, "{\"parent\":") {
            None => {
                return None;
            },
            Some(p) => p,
        };
        let (v, p2) = match parse_i32_text(b, p1) {
            None => {
                return None;
            },
            Some(v) => v,
        };
        if !(p2 < b.len() && b[p2] == 125) {
            return None;
        }
        Some((ParentComp { parent: v }, p2 + 1))
    }

    /// Reading a text payload just past a known prefix yields the written
    /// number.
    pub proof fn lemma_parse_text_emitted(self, pre: Seq<u8>, rest: Seq<u8>)
        ensures
            Self::spec_parse_text(pre + self.enc_text() + rest, pre.len() as int) == Some(
                (self.parent, pre.len() + self.enc_text().len() as int),
            ),
    {
        let b = pre + self.enc_text() + rest;
        let l1 = lit("{\"parent\":"@);
        let nv = text_i32(self.parent as int);
        assert(spec_expect(b, pre.len() as int, l1) == Some(pre.len() + l1.len() as int)) by {
            let t = nv + seq![125u8] + rest;
            assert(b =~= pre + l1 + t);
            lemma_expect_emitted(pre, l1, t);
        }
        assert(spec_parse_i32_text(b, pre.len() + l1.len() as int) == Some(
            (self.parent, pre.len() + l1.len() + nv.len() as int),
        )) by {
            let t = seq![125u8] + rest;
            assert(b =~= (pre + l1) + nv + t);
            lemma_parse_i32_emitted(pre + l1, self.parent, t);
        }
        assert(b[pre.len() + l1.len() + nv.len() as int] == 125);
    }
}

impl CompRecord {
    /// The concrete type's own text payload.
    pub open spec fn enc_text(self) -> Seq<u8> {
        match self {
            CompRecord::Name(v) => v.enc_text(),
            CompRecord::Parent(v) => v.enc_text(),
        }
    }

    /// Reads the text payload of the concrete type `k` names.
    pub open spec fn spec_parse_text(k: CompKind, b: Seq<u8>, p: int) -> Option<(CompWire, int)> {
        match k {
            CompKind::Name => match NameComp::spec_parse_text(b, p) {
                None => None,
                Some((name, e)) => Some((CompWire::Name { name }, e)),
            },
            CompKind::Parent => match ParentComp::spec_parse_text(b, p) {
                None => None,
                Some((parent, e)) => Some((CompWire::Parent { parent }, e)),
            },
        }
    }

    /// Appends the stored record's text payload.
    pub fn encode_text(&self, out: &mut Vec<u8>)
        ensures
            final(out)@ == old(out)@ + self.enc_text(),
    {
        match self {
            CompRecord::Name(v) => v.encode_text(out),
            CompRecord::Parent(v) => v.encode_text(out),
        }
    }

    /// Reads a text payload as the concrete type `k` names, exactly as
    /// [`CompRecord::spec_parse_text`]; the result is of that type.
    pub fn decode_text(k: CompKind, b: &Vec<u8>, pos: usize) -> (r: Option<(Self, usize)>)
        requires
            pos <= b@.len(),
        ensures
            match r {
                Some((v, e)) => {
                    &&& Self::spec_parse_text(k, b@, pos as int) == Some((v.wire(), e as int))
                    &&& v.kind() == k
                    &&& e <= b@.len()
                },
                None => Self::spec_parse_text(k, b@, pos as int) is None,
            },
    {
        match k {
            CompKind::Name => match NameComp::decode_text(b, pos) {
                None => None,
                Some((v, e)) => Some((CompRecord::Name(v), e)),
            },
            CompKind::Parent => match ParentComp::decode_text(b, pos) {
                None => None,
                Some((v, e)) => Some((CompRecord::Parent(v), e)),
            },
        }
    }

    /// Reading a text payload just past a known prefix yields the written
    /// record's wire contents.
    pub proof fn lemma_parse_text_emitted(self, pre: Seq<u8>, rest: Seq<u8>)
        ensures
            Self::spec_parse_text(self.kind(), pre + self.enc_text() + rest, pre.len() as int)
                == Some((self.wire(), pre.len() + self.enc_text().len() as int)),
    {
        match self {
            CompRecord::Name(v) => v.lemma_parse_text_emitted(pre, rest),
            CompRecord::Parent(v) => v.lemma_parse_text_emitted(pre, rest),
        }
    }

    /// Reading a text payload always advances.
    pub proof fn lemma_parse_text_advances(k: CompKind, b: Seq<u8>, p: int)
        ensures
            Self::spec_parse_text(k, b, p) matches Some((w, e)) ==> e > p,
    {
        match k {
            CompKind::Name => {
                if NameComp::spec_parse_text(b, p) is Some {
                    crate::text::lemma_quoted_string_advances(
                        b,
                        p + lit("{\"name\":"@).len() as int,
                    );
                }
            },
            CompKind::Parent => {
                if ParentComp::spec_parse_text(b, p) is Some {
                    crate::text::lemma_i32_advances(b, p + lit("{\"parent\":"@).len() as int);
                }
            },
        }
    }
}

/// The first component of a kind in an attribute list.
pub open spec fn comp_find(s: Seq<CompRecord>, k: CompKind) -> Option<CompRecord>
    decreases s.len(),
{
    if s.len() == 0 {
        None
    } else if s[0].kind() == k {
        Some(s[0])
    } else {
        comp_find(s.skip(1), k)
    }
}

/// At most one component of each kind.
pub open spec fn comp_kinds_unique(s: Seq<CompRecord>) -> bool {
    forall|i: int, j: int| 0 <= i < j < s.len() ==> (#[trigger] s[i]).kind() != (#[trigger] s[j]).kind()
}

/// Prepending a component of a fresh kind shadows nothing.
pub proof fn lemma_comp_find_cons(c: CompRecord, s: Seq<CompRecord>, k: CompKind)
    ensures
        comp_find(seq![c] + s, k) == if c.kind() == k {
            Some(c)
        } else {
            comp_find(s, k)
        },
{
    assert((seq![c] + s).skip(1) =~= s);
    assert((seq![c] + s)[0] == c);
}

/// Replacing the one component of a kind changes that kind's slot alone.
pub proof fn lemma_comp_find_update(s: Seq<CompRecord>, i: int, c: CompRecord, k: CompKind)
    requires
        comp_kinds_unique(s),
        0 <= i < s.len(),
        s[i].kind() == c.kind(),
    ensures
        comp_find(s.update(i, c), k) == if c.kind() == k {
            Some(c)
        } else {
            comp_find(s, k)
        },
    decreases s.len(),
{
    let t = s.update(i, c);
    if i == 0 {
        assert(t[0] == c);
        assert(t.skip(1) =~= s.skip(1));
        if c.kind() != k && s[0].kind() == k {
            assert(false);
        }
    } else {
        assert(t[0] == s[0]);
        assert(s[0].kind() != s[i].kind());
        assert(t.skip(1) =~= s.skip(1).update(i - 1, c));
        assert(comp_kinds_unique(s.skip(1))) by {
            assert forall|a: int, b: int|
                0 <= a < b < s.skip(1).len() implies (#[trigger] s.skip(1)[a]).kind() != (
            #[trigger] s.skip(1)[b]).kind() by {
                assert(s.skip(1)[a] == s[a + 1]);
                assert(s.skip(1)[b] == s[b + 1]);
            }
        }
        assert(s.skip(1)[i - 1] == s[i]);
        lemma_comp_find_update(s.skip(1), i - 1, c, k);
    }
}

/// Removing the one component of a kind empties that kind's slot alone.
pub proof fn lemma_comp_find_remove(s: Seq<CompRecord>, i: int, k: CompKind)
    requires
        comp_kinds_unique(s),
        0 <= i < s.len(),
    ensures
        comp_find(s.remove(i), k) == if s[i].kind() == k {
            None::<CompRecord>
        } else {
            comp_find(s, k)
        },
    decreases s.len(),
{
    let t = s.remove(i);
    assert(comp_kinds_unique(s.skip(1))) by {
        assert forall|a: int, b: int|
            0 <= a < b < s.skip(1).len() implies (#[trigger] s.skip(1)[a]).kind() != (
        #[trigger] s.skip(1)[b]).kind() by {
            assert(s.skip(1)[a] == s[a + 1]);
            assert(s.skip(1)[b] == s[b + 1]);
        }
    }
    if i == 0 {
        assert(t =~= s.skip(1));
        if s[0].kind() == k {
            lemma_comp_find_absent(s.skip(1), k, s[0]);
        }
    } else {
        assert(t[0] == s[0]);
        assert(t.skip(1) =~= s.skip(1).remove(i - 1));
        assert(s.skip(1)[i - 1] == s[i]);
        assert(s[0].kind() != s[i].kind());
        lemma_comp_find_remove(s.skip(1), i - 1, k);
    }
}

/// In a list with unique kinds whose head was removed, the head's kind finds
/// nothing among the rest.
proof fn lemma_comp_find_absent(s: Seq<CompRecord>, k: CompKind, head: CompRecord)
    requires
        head.kind() == k,
        forall|j: int| 0 <= j < s.len() ==> (#[trigger] s[j]).kind() != k,
    ensures
        comp_find(s, k) is None,
    decreases s.len(),
{
    if s.len() > 0 {
        assert forall|j: int| 0 <= j < s.skip(1).len() implies (#[trigger] s.skip(1)[j]).kind()
            != k by {
            assert(s.skip(1)[j] == s[j + 1]);
        }
        lemma_comp_find_absent(s.skip(1), k, head);
    }
}

/// One entity's slot: whether it is live, and its attribute instances.
#[derive(Debug)]
struct EntSlot {
    alive: bool,
    comps: Vec<CompRecord>,
}

/// The entity registry: each entity identifier owns a sparse set of
/// attribute instances, at most one per registered component type.
/// Identifiers are never reused; deleting an entity clears its attributes
/// and retires the identifier.
#[derive(Debug)]
pub struct Registry {
    slots: Vec<EntSlot>,
}

impl Registry {
    /// How many entity identifiers were ever created.
    pub closed spec fn num_ents(self) -> nat {
        self.slots@.len()
    }

    /// Whether an identifier names a live entity.
    pub closed spec fn ent_alive(self, e: int) -> bool {
        0 <= e < self.slots@.len() && self.slots@[e].alive
    }

    /// The attribute of one kind an entity holds, if any.
    pub closed spec fn comp_at(self, e: int, k: CompKind) -> Option<CompRecord> {
        if 0 <= e < self.slots@.len() {
            comp_find(self.slots@[e].comps@, k)
        } else {
            None
        }
    }

    /// Every slot holds at most one attribute of each kind.
    pub closed spec fn wf(self) -> bool {
        forall|e: int|
            0 <= e < self.slots@.len() ==> comp_kinds_unique((#[trigger] self.slots@[e]).comps@)
    }

    /// An empty registry: no identifier was ever created, nothing is live,
    /// nothing holds an attribute.
    pub fn new() -> (r: Self)
        ensures
            r.num_ents() == 0,
            forall|e: int| !r.ent_alive(e),
            forall|e: int, k: CompKind| r.comp_at(e, k) is None,
            r.wf(),
    {
        Self { slots: Vec::new() }
    }

    /// Creates a new, live entity with no attributes; existing entities are
    /// untouched.
    pub fn new_ent(&mut self) -> (r: EntId)
        requires
            old(self).wf(),
        ensures
            final(self).wf(),
            r.0 == old(self).num_ents(),
            final(self).num_ents() == old(self).num_ents() + 1,
            final(self).ent_alive(r.0 as int),
            forall|k: CompKind| final(self).comp_at(r.0 as int, k) is None,
            forall|e: int| e != r.0 ==> final(self).ent_alive(e) == old(self).ent_alive(e),
            forall|e: int, k: CompKind|
                e != r.0 ==> final(self).comp_at(e, k) == old(self).comp_at(e, k),
    {
        let id = self.slots.len();
        self.slots.push(EntSlot { alive: true, comps: Vec::new() });
        EntId(id)
    }

    /// Whether an entity is live: created, and not deleted since.
    pub fn has_ent(&self, ent: &EntId) -> (r: bool)
        ensures
            r == self.ent_alive(ent.0 as int),
    {
        ent.0 < self.slots.len() && self.slots[ent.0].alive
    }

    /// Deletes a live entity: its attributes are erased and its identifier
    /// retired; deleting anything else is a no-op.
    pub fn del_ent(&mut self, ent: &EntId)
        requires
            old(self).wf(),
        ensures
            final(self).wf(),
            final(self).num_ents() == old(self).num_ents(),
            !final(self).ent_alive(ent.0 as int),
            forall|e: int| e != ent.0 ==> final(self).ent_alive(e) == old(self).ent_alive(e),
            forall|e: int, k: CompKind|
                e != ent.0 ==> final(self).comp_at(e, k) == old(self).comp_at(e, k),
            old(self).ent_alive(ent.0 as int) ==> forall|k: CompKind|
                final(self).comp_at(ent.0 as int, k) is None,
            !old(self).ent_alive(ent.0 as int) ==> *final(self) == *old(self),
    {
        if ent.0 < self.slots.len() && self.slots[ent.0].alive {
            let slot = &mut self.slots[ent.0];
            slot.alive = false;
            slot.comps = Vec::new();
        }
    }

    /// Attaches an attribute to an entity identifier, replacing an earlier
    /// attribute of the same type.
    pub fn add_comp(&mut self, ent: &EntId, comp: CompRecord)
        requires
            old(self).wf(),
            ent.0 < old(self).num_ents(),
        ensures
            final(self).wf(),
            final(self).num_ents() == old(self).num_ents(),
            forall|e: int| final(self).ent_alive(e) == old(self).ent_alive(e),
            final(self).comp_at(ent.0 as int, comp.kind()) == Some(comp),
            forall|e: int, k: CompKind|
                e != ent.0 || k != comp.kind() ==> final(self).comp_at(e, k) == old(self).comp_at(
                    e,
                    k,
                ),
    {
        let ghost gcomp = comp;
        let k = comp.get_kind();
        let slot = &mut self.slots[ent.0];
        let ghost pre = slot.comps@;
        match comp_index(&slot.comps, k) {
            Some(i) => {
                slot.comps[i] = comp;
                proof {
                    assert forall|k2: CompKind| true implies #[trigger] comp_find(
                        slot.comps@,
                        k2,
                    ) == (if k2 == gcomp.kind() {
                        Some(gcomp)
                    } else {
                        comp_find(pre, k2)
                    }) by {
                        lemma_comp_find_update(pre, i as int, gcomp, k2);
                    }
                    assert(comp_kinds_unique(slot.comps@)) by {
                        assert forall|a: int, b: int|
                            0 <= a < b < slot.comps@.len() implies (
                        #[trigger] slot.comps@[a]).kind() != (#[trigger] slot.comps@[b]).kind() by {
                            if a != i && b != i {
                                assert(slot.comps@[a] == pre[a] && slot.comps@[b] == pre[b]);
                            } else if a == i {
                                assert(slot.comps@[b] == pre[b] && pre[a].kind() == gcomp.kind());
                            } else {
                                assert(slot.comps@[a] == pre[a] && pre[b].kind() == gcomp.kind());
                            }
                        }
                    }
                }
            },
            None => {
                slot.comps.insert(0, comp);
                proof {
                    assert(slot.comps@ =~= seq![gcomp] + pre);
                    assert forall|k2: CompKind| true implies #[trigger] comp_find(
                        slot.comps@,
                        k2,
                    ) == (if k2 == gcomp.kind() {
                        Some(gcomp)
                    } else {
                        comp_find(pre, k2)
                    }) by {
                        lemma_comp_find_cons(gcomp, pre, k2);
                        if k2 == gcomp.kind() {
                        }
                    }
                    assert(comp_kinds_unique(slot.comps@)) by {
                        assert forall|a: int, b: int|
                            0 <= a < b < slot.comps@.len() implies (
                        #[trigger] slot.comps@[a]).kind() != (#[trigger] slot.comps@[b]).kind() by {
                            assert(slot.comps@[b] == pre[b - 1]);
                            if a > 0 {
                                assert(slot.comps@[a] == pre[a - 1]);
                            } else {
                                lemma_comp_find_member(pre, b - 1);
                            }
                        }
                    }
                }
            },
        }
    }

    /// The attribute of one type a live entity holds: nothing for a dead or
    /// unknown entity, or when the entity lacks that attribute.
    pub fn get_comp(&self, ent: &EntId, k: CompKind) -> (r: Option<&CompRecord>)
        ensures
            match r {
                Some(c) => self.ent_alive(ent.0 as int) && self.comp_at(ent.0 as int, k) == Some(
                    *c,
                ) && c.kind() == k,
                None => !self.ent_alive(ent.0 as int) || self.comp_at(ent.0 as int, k) is None,
            },
    {
        if !(ent.0 < self.slots.len() && self.slots[ent.0].alive) {
            return None;
        }
        let slot = &self.slots[ent.0];
        match comp_index(&slot.comps, k) {
            None => None,
            Some(i) => Some(&slot.comps[i]),
        }
    }

    /// Whether a live entity holds an attribute of one type.
    pub fn has_comp(&self, ent: &EntId, k: CompKind) -> (r: bool)
        ensures
            r == (self.ent_alive(ent.0 as int) && self.comp_at(ent.0 as int, k) is Some),
    {
        self.get_comp(ent, k).is_some()
    }

    /// Detaches the attribute of one type from a live entity; a no-op for a
    /// dead or unknown entity, or when the entity lacks it.
    pub fn del_comp(&mut self, ent: &EntId, k: CompKind)
        requires
            old(self).wf(),
        ensures
            final(self).wf(),
            final(self).num_ents() == old(self).num_ents(),
            forall|e: int| final(self).ent_alive(e) == old(self).ent_alive(e),
            old(self).ent_alive(ent.0 as int) ==> final(self).comp_at(ent.0 as int, k) is None,
            forall|e: int, k2: CompKind|
                e != ent.0 || k2 != k ==> final(self).comp_at(e, k2) == old(self).comp_at(e, k2),
            !old(self).ent_alive(ent.0 as int) ==> *final(self) == *old(self),
    {
        if !(ent.0 < self.slots.len() && self.slots[ent.0].alive) {
            return ;
        }
        let slot = &mut self.slots[ent.0];
        let ghost pre = slot.comps@;
        match comp_index(&slot.comps, k) {
            None => {},
            Some(i) => {
                slot.comps.remove(i);
                proof {
                    assert forall|k2: CompKind| true implies #[trigger] comp_find(
                        slot.comps@,
                        k2,
                    ) == (if k2 == k {
                        None::<CompRecord>
                    } else {
                        comp_find(pre, k2)
                    }) by {
                        lemma_comp_find_remove(pre, i as int, k2);
                    }
                    assert(comp_kinds_unique(slot.comps@)) by {
                        assert forall|a: int, b: int|
                            0 <= a < b < slot.comps@.len() implies (
                        #[trigger] slot.comps@[a]).kind() != (#[trigger] slot.comps@[b]).kind() by {
                            let pa = if a < i { a } else { a + 1 };
                            let pb = if b < i { b } else { b + 1 };
                            assert(slot.comps@[a] == pre[pa] && slot.comps@[b] == pre[pb]);
                        }
                    }
                }
            },
        }
    }

    /// A live identifier is always below the number of identifiers created.
    pub proof fn lemma_alive_in_range(self, e: int)
        ensures
            self.ent_alive(e) ==> 0 <= e < self.num_ents(),
    {
    }

    /// An iterator over the live entities, in ascending identifier order.
    pub fn iter(&self) -> (r: RegistryIterator<'_>)
        ensures
            r.reg == self,
            r.pos == 0,
    {
        RegistryIterator::new(self)
    }
}

/// The position of the first attribute of a kind in a list.
fn comp_index(s: &Vec<CompRecord>, k: CompKind) -> (r: Option<usize>)
    ensures
        match r {
            Some(i) => i < s@.len() && s@[i as int].kind() == k && comp_find(s@, k) == Some(
                s@[i as int],
            ),
            None => comp_find(s@, k) is None,
        },
{
    let ghost gs = s@;
    let n = s.len();
    proof {
        assert(gs.skip(0) =~= gs);
    }
    let mut i: usize = 0;
    while i < n
        invariant
            0 <= i <= n,
            n == gs.len(),
            gs == s@,
            comp_find(gs, k) == comp_find(gs.skip(i as int), k),
        decreases n - i,
    {
        if s[i].get_kind().kind_eq(&k) {
            proof {
                assert(gs.skip(i as int)[0] == gs[i as int]);
            }
            return Some(i);
        }
        proof {
            assert(gs.skip(i as int)[0] == gs[i as int]);
            assert(gs.skip(i as int).skip(1) =~= gs.skip(i as int + 1));
        }
        i = i + 1;
    }
    proof {
        assert(gs.skip(n as int).len() == 0);
    }
    None
}

/// A kind held somewhere in a list is found by a kind lookup.
proof fn lemma_comp_find_member(s: Seq<CompRecord>, i: int)
    requires
        0 <= i < s.len(),
    ensures
        comp_find(s, s[i].kind()) is Some,
    decreases s.len(),
{
    if s.len() > 0 && s[0].kind() != s[i].kind() {
        assert(s.skip(1)[i - 1] == s[i]);
        lemma_comp_find_member(s.skip(1), i - 1);
    }
}

/// A cursor over the live entities of a registry, in ascending identifier
/// order.
pub struct RegistryIterator<'a> {
    pub reg: &'a Registry,
    pub pos: usize,
}

/// The first live entity at or after a position.
pub open spec fn next_alive(reg: Registry, p: int) -> Option<int>
    decreases reg.num_ents() - p,
{
    if p < 0 || p >= reg.num_ents() {
        None
    } else if reg.ent_alive(p) {
        Some(p)
    } else {
        next_alive(reg, p + 1)
    }
}

impl<'a> RegistryIterator<'a> {
    /// A cursor at the first entity.
    pub fn new(reg: &'a Registry) -> (r: Self)
        ensures
            r.reg == reg,
            r.pos == 0,
    {
        Self { reg, pos: 0 }
    }

    /// The next live entity at or after the cursor, advancing past it;
    /// nothing once the registry is exhausted.
    pub fn next(&mut self) -> (r: Option<EntId>)
        ensures
            match r {
                Some(e) => {
                    &&& next_alive(*old(self).reg, old(self).pos as int) == Some(e.0 as int)
                    &&& final(self).pos == e.0 + 1
                },
                None => {
                    &&& next_alive(*old(self).reg, old(self).pos as int) is None
                    &&& final(self).pos == old(self).reg.num_ents()
                },
            },
            final(self).reg == old(self).reg,
    {
        let ghost greg = *self.reg;
        let n = self.reg.slots.len();
        proof {
            assert(greg.num_ents() == n);
        }
        while self.pos < n
            invariant
                self.reg == old(self).reg,
                self.reg.slots@.len() == n,
                greg == *self.reg,
                next_alive(greg, old(self).pos as int) == next_alive(greg, self.pos as int),
            decreases n - self.pos,
        {
            let cur = self.pos;
            if self.reg.slots[cur].alive {
                self.pos = cur + 1;
                return Some(EntId(cur));
            }
            self.pos = cur + 1;
        }
        if self.pos > n {
            self.pos = n;
        }
        None
    }
}

impl Descriptor<CompKind> {
    /// Whether an entity holds this descriptor's attribute type.
    pub fn ent_has(&self, reg: &Registry, ent: &EntId) -> (r: bool)
        ensures
            r == (reg.ent_alive(ent.0 as int) && reg.comp_at(ent.0 as int, self.kind) is Some),
    {
        reg.has_comp(ent, self.kind)
    }

    /// Attaches a default-constructed instance of this attribute type to an
    /// entity; a rejected attach (an identifier never created) is reported
    /// by the result rather than propagated.
    pub fn ent_add(&self, reg: &mut Registry, ent: &EntId) -> (r: bool)
        requires
            old(reg).wf(),
        ensures
            final(reg).wf(),
            r == (ent.0 < old(reg).num_ents()),
            r ==> ({
                &&& match final(reg).comp_at(ent.0 as int, self.kind) {
                    Some(c) => c.kind() == self.kind && c.is_default(),
                    None => false,
                }
                &&& forall|e: int, k: CompKind|
                    e != ent.0 || k != self.kind ==> final(reg).comp_at(e, k) == old(reg).comp_at(
                        e,
                        k,
                    )
                &&& forall|e: int| final(reg).ent_alive(e) == old(reg).ent_alive(e)
            }),
            !r ==> *final(reg) == *old(reg),
    {
        if ent.0 < reg.slots.len() {
            reg.add_comp(ent, CompRecord::make_default(self.kind));
            true
        } else {
            false
        }
    }

    /// Detaches this attribute type from an entity.
    pub fn ent_rem(&self, reg: &mut Registry, ent: &EntId)
        requires
            old(reg).wf(),
        ensures
            final(reg).wf(),
            old(reg).ent_alive(ent.0 as int) ==> final(reg).comp_at(ent.0 as int, self.kind)
                is None,
            forall|e: int, k: CompKind|
                e != ent.0 || k != self.kind ==> final(reg).comp_at(e, k) == old(reg).comp_at(e, k),
            forall|e: int| final(reg).ent_alive(e) == old(reg).ent_alive(e),
            final(reg).num_ents() == old(reg).num_ents(),
    {
        reg.del_comp(ent, self.kind);
    }

    /// Snapshots the attribute this entity holds, by value, for
    /// serialization; nothing when the entity is dead or lacks it.
    pub fn ent_get(&self, reg: &Registry, ent: &EntId) -> (r: Option<CompRecord>)
        ensures
            match r {
                Some(c) => reg.ent_alive(ent.0 as int) && reg.comp_at(ent.0 as int, self.kind)
                    == Some(c) && c.kind() == self.kind,
                None => !reg.ent_alive(ent.0 as int) || reg.comp_at(ent.0 as int, self.kind)
                    is None,
            },
    {
        match reg.get_comp(ent, self.kind) {
            None => None,
            Some(c) => Some(c.duplicate()),
        }
    }

    /// Narrows a snapshot back to this attribute type and attaches it to an
    /// entity under construction during deserialization.
    pub fn ent_deserialize(&self, reg: &mut Registry, ent: &EntId, comp: &CompRecord)
        requires
            old(reg).wf(),
            ent.0 < old(reg).num_ents(),
            comp.kind() == self.kind,
        ensures
            final(reg).wf(),
            final(reg).comp_at(ent.0 as int, self.kind) == Some(*comp),
            forall|e: int, k: CompKind|
                e != ent.0 || k != self.kind ==> final(reg).comp_at(e, k) == old(reg).comp_at(e, k),
            forall|e: int| final(reg).ent_alive(e) == old(reg).ent_alive(e),
    {
        reg.add_comp(ent, comp.duplicate());
    }
}

/// An attribute is absent immediately after its removal: detaching an
/// attribute type and then asking whether the entity holds it always says
/// no.
pub fn attr_absent_after_remove(d: &Descriptor<CompKind>, reg: &mut Registry, ent: &EntId) -> (r:
    bool)
    requires
        old(reg).wf(),
    ensures
        !r,
{
    d.ent_rem(reg, ent);
    d.ent_has(reg, ent)
}

/// An attribute is present immediately after a default attach: attaching a
/// default-constructed instance to a live entity and then asking whether the
/// entity holds it always says yes.
pub fn attr_present_after_add(d: &Descriptor<CompKind>, reg: &mut Registry, ent: &EntId) -> (r:
    bool)
    requires
        old(reg).wf(),
        old(reg).ent_alive(ent.0 as int),
    ensures
        r,
{
    let attached = d.ent_add(reg, ent);
    assert(attached);
    d.ent_has(reg, ent)
}

/// A copy-out followed by a restore reproduces the attribute: the entity the
/// snapshot is restored onto holds a value equal to the one copied out.
pub fn attr_copy_out_restore(
    d: &Descriptor<CompKind>,
    reg: &mut Registry,
    src: &EntId,
    dst: &EntId,
)
    requires
        old(reg).wf(),
        old(reg).ent_alive(src.0 as int),
        old(reg).comp_at(src.0 as int, d.kind) is Some,
        dst.0 < old(reg).num_ents(),
    ensures
        final(reg).wf(),
        final(reg).comp_at(dst.0 as int, d.kind) == old(reg).comp_at(src.0 as int, d.kind),
{
    match d.ent_get(reg, src) {
        None => {},
        Some(c) => {
            d.ent_deserialize(reg, dst, &c);
        },
    }
}


/// Registers one concrete component type: the descriptor is built from the
/// type's capability interface and the caller's process-stable identity and
/// display name, once, during the startup phase.
pub fn register_comp_type<T: CompExt>(
    cat: &mut crate::catalog::Catalog<CompKind>,
    type_identity: u64,
    display_name: &str,
) -> (r: Result<(), crate::Error>)
    ensures
        match r {
            Ok(()) => {
                &&& crate::catalog::spec_find_name(old(cat).descs(), display_name@) is None
                &&& crate::catalog::spec_find_id(old(cat).descs(), type_identity) is None
                &&& crate::catalog::spec_find_kind(old(cat).descs(), T::spec_kind()) is None
                &&& final(cat).descs().len() == old(cat).descs().len() + 1
                &&& final(cat).descs().subrange(0, old(cat).descs().len() as int) == old(
                    cat,
                ).descs()
                &&& final(cat).descs().last().type_identity == type_identity
                &&& final(cat).descs().last().display_name@ == display_name@
                &&& final(cat).descs().last().kind == T::spec_kind()
                &&& old(cat).wf() ==> final(cat).wf()
            },
            Err(_) => {
                &&& *final(cat) == *old(cat)
                &&& !(crate::catalog::spec_find_name(old(cat).descs(), display_name@) is None
                    && crate::catalog::spec_find_id(old(cat).descs(), type_identity) is None
                    && crate::catalog::spec_find_kind(old(cat).descs(), T::spec_kind()) is None)
            },
        },
{
    let r = cat.register(crate::catalog::Descriptor::new(type_identity, display_name, T::kind()));
    proof {
        if r is Ok {
            assert(final(cat).descs().subrange(0, old(cat).descs().len() as int) =~= old(
                cat,
            ).descs());
        }
    }
    r
}

} // verus!
