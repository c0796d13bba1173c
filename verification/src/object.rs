//! The PDF object model and the resolver for indirect references.

use vstd::prelude::*;

verus! {

/// Identifies an object in the document's object table; corresponds to a
/// PDF indirect reference.
#[derive(Clone, Copy, PartialEq, Eq, Structural, Debug)]
pub struct ObjectId {
    pub obj_nr: u32,
    pub gen_nr: u16,
}

/// The shape of a primitive, used to report type mismatches.
#[derive(Clone, Copy, PartialEq, Eq, Structural, Debug)]
pub enum PrimKind {
    Null,
    Integer,
    Real,
    Boolean,
    ByteString,
    Stream,
    Dictionary,
    Array,
    Reference,
    Name,
}

/// Hard failures of object resolution and shape checking.
#[derive(Clone, Copy, PartialEq, Eq, Structural, Debug)]
pub enum ObjectError {
    /// The id is absent from the object table.
    UnresolvedReference(ObjectId),
    /// Resolving the id runs through a chain of references longer than the
    /// table itself, which can only happen on a cycle.
    CircularReference(ObjectId),
    /// The primitive (after resolution) is not of the requested shape.
    WrongPrimitiveType { expected: PrimKind, found: PrimKind },
}

/// A PDF primitive value. Real numbers are carried in fixed point, in
/// thousandths of a unit, since the unscaled value never steers this
/// crate's logic.
pub enum Primitive {
    Null,
    Integer(i32),
    Real(i64),
    Boolean(bool),
    ByteString(Vec<u8>),
    Stream(Stream),
    Dictionary(Dict),
    Array(Vec<Primitive>),
    Reference(ObjectId),
    Name(String),
}

/// A dictionary: name-to-primitive entries with the earliest entry for a
/// name being the one that counts.
pub struct Dict {
    pub entries: Vec<(String, Primitive)>,
}

/// A stream object: its dictionary plus the position of its raw body in
/// the document's backing buffer. The body is referenced by range, never
/// copied out of the buffer.
pub struct Stream {
    pub dict: Dict,
    pub body_start: usize,
    pub body_len: usize,
}

/// An object together with the id under which the table holds it.
pub struct IndirectObject {
    pub id: ObjectId,
    pub object: Primitive,
}

/// The document's object table, read-only during extraction.
pub struct ObjectTable {
    pub entries: Vec<(ObjectId, Primitive)>,
}

impl Primitive {
    pub open spec fn spec_kind(&self) -> PrimKind {
        match *self {
            Primitive::Null => PrimKind::Null,
            Primitive::Integer(_) => PrimKind::Integer,
            Primitive::Real(_) => PrimKind::Real,
            Primitive::Boolean(_) => PrimKind::Boolean,
            Primitive::ByteString(_) => PrimKind::ByteString,
            Primitive::Stream(_) => PrimKind::Stream,
            Primitive::Dictionary(_) => PrimKind::Dictionary,
            Primitive::Array(_) => PrimKind::Array,
            Primitive::Reference(_) => PrimKind::Reference,
            Primitive::Name(_) => PrimKind::Name,
        }
    }

    /// The shape tag of this primitive.
    pub fn kind(&self) -> (k: PrimKind)
        ensures
            k == self.spec_kind(),
    {
        match *self {
            Primitive::Null => PrimKind::Null,
            Primitive::Integer(_) => PrimKind::Integer,
            Primitive::Real(_) => PrimKind::Real,
            Primitive::Boolean(_) => PrimKind::Boolean,
            Primitive::ByteString(_) => PrimKind::ByteString,
            Primitive::Stream(_) => PrimKind::Stream,
            Primitive::Dictionary(_) => PrimKind::Dictionary,
            Primitive::Array(_) => PrimKind::Array,
            Primitive::Reference(_) => PrimKind::Reference,
            Primitive::Name(_) => PrimKind::Name,
        }
    }
}

impl ObjectTable {
    /// First entry for `id`, if any.
    pub open spec fn spec_lookup(entries: Seq<(ObjectId, Primitive)>, id: ObjectId) -> Option<
        Primitive,
    >
        decreases entries.len(),
    {
        if entries.len() == 0 {
            None
        } else if entries[0].0 == id {
            Some(entries[0].1)
        } else {
            Self::spec_lookup(entries.drop_first(), id)
        }
    }

    /// Resolution with a fuel bound: follow references until a concrete
    /// primitive, an absent id, or fuel exhaustion (a cycle).
    pub open spec fn spec_resolve(
        entries: Seq<(ObjectId, Primitive)>,
        id: ObjectId,
        fuel: nat,
    ) -> Result<Primitive, ObjectError>
        decreases fuel,
    {
        if fuel == 0 {
            Err(ObjectError::CircularReference(id))
        } else {
            match Self::spec_lookup(entries, id) {
                None => Err(ObjectError::UnresolvedReference(id)),
                Some(Primitive::Reference(next)) => Self::spec_resolve(
                    entries,
                    next,
                    (fuel - 1) as nat,
                ),
                Some(p) => Ok(p),
            }
        }
    }

    fn lookup(&self, id: ObjectId) -> (r: Option<&Primitive>)
        ensures
            match r {
                Some(p) => Self::spec_lookup(self.entries@, id) == Some(*p),
                None => Self::spec_lookup(self.entries@, id) is None,
            },
    {
        let n = self.entries.len();
        assert(self.entries@.skip(0) =~= self.entries@);
        for i in 0..n
            invariant
                n == self.entries@.len(),
                Self::spec_lookup(self.entries@, id) == Self::spec_lookup(
                    self.entries@.skip(i as int),
                    id,
                ),
        {
            let ghost pre = self.entries@.skip(i as int);
            assert(pre[0] == self.entries@[i as int]);
            if self.entries[i].0 == id {
                return Some(&self.entries[i].1);
            }
            assert(pre.drop_first() =~= self.entries@.skip(i + 1));
        }
        assert(self.entries@.skip(n as int).len() == 0);
        None
    }

    /// Resolve an indirect reference to a concrete (non-reference)
    /// primitive. Fails with `UnresolvedReference` on an absent id and with
    /// `CircularReference` when the chain of references cannot end: the
    /// fuel exceeds the table's size, so exhaustion implies a revisit.
    pub fn resolve(&self, id: ObjectId) -> (r: Result<&Primitive, ObjectError>)
        ensures
            match r {
                Ok(p) => Self::spec_resolve(self.entries@, id, self.entries@.len() + 1) == Ok::<
                    Primitive,
                    ObjectError,
                >(*p),
                Err(e) => Self::spec_resolve(self.entries@, id, self.entries@.len() + 1) == Err::<
                    Primitive,
                    ObjectError,
                >(e),
            },
    {
        let mut cur = id;
        let mut fuel = self.entries.len();
        loop
            invariant
                fuel <= self.entries@.len(),
                Self::spec_resolve(self.entries@, id, self.entries@.len() + 1)
                    == Self::spec_resolve(self.entries@, cur, (fuel + 1) as nat),
            decreases fuel,
        {
            match self.lookup(cur) {
                None => {
                    return Err(ObjectError::UnresolvedReference(cur));
                },
                Some(Primitive::Reference(next)) => {
                    if fuel == 0 {
                        proof {
                            assert(Self::spec_resolve(self.entries@, *next, 0) == Err::<
                                Primitive,
                                ObjectError,
                            >(ObjectError::CircularReference(*next)));
                        }
                        return Err(ObjectError::CircularReference(*next));
                    }
                    cur = *next;
                    fuel = fuel - 1;
                },
                Some(p) => {
                    return Ok(p);
                },
            }
        }
    }
}

/// Determinism of resolution: the result is a function of the table and the
/// id alone, so repeated calls of `resolve` return equal primitives.
pub proof fn lemma_resolve_deterministic(
    t: ObjectTable,
    id: ObjectId,
    r1: Result<Primitive, ObjectError>,
    r2: Result<Primitive, ObjectError>,
)
    requires
        r1 == ObjectTable::spec_resolve(t.entries@, id, t.entries@.len() + 1),
        r2 == ObjectTable::spec_resolve(t.entries@, id, t.entries@.len() + 1),
    ensures
        r1 == r2,
{
}

impl Primitive {
    pub open spec fn spec_as_integer(
        &self,
        entries: Seq<(ObjectId, Primitive)>,
    ) -> Result<i32, ObjectError> {
        match *self {
            Primitive::Integer(n) => Ok(n),
            Primitive::Reference(id) => match ObjectTable::spec_resolve(
                entries,
                id,
                entries.len() + 1,
            ) {
                Ok(Primitive::Integer(n)) => Ok(n),
                Ok(p) => Err(
                    ObjectError::WrongPrimitiveType {
                        expected: PrimKind::Integer,
                        found: p.spec_kind(),
                    },
                ),
                Err(e) => Err(e),
            },
            _ => Err(
                ObjectError::WrongPrimitiveType {
                    expected: PrimKind::Integer,
                    found: self.spec_kind(),
                },
            ),
        }
    }

    /// The integer held here, resolving exactly one indirection through the
    /// table if this primitive is a reference.
    pub fn as_integer(&self, table: &ObjectTable) -> (r: Result<i32, ObjectError>)
        ensures
            r == self.spec_as_integer(table.entries@),
    {
        match self {
            Primitive::Integer(n) => Ok(*n),
            Primitive::Reference(id) => match table.resolve(*id) {
                Ok(Primitive::Integer(n)) => Ok(*n),
                Ok(p) => Err(
                    ObjectError::WrongPrimitiveType {
                        expected: PrimKind::Integer,
                        found: p.kind(),
                    },
                ),
                Err(e) => Err(e),
            },
            _ => Err(
                ObjectError::WrongPrimitiveType {
                    expected: PrimKind::Integer,
                    found: self.kind(),
                },
            ),
        }
    }

    pub open spec fn spec_as_reference(&self) -> Result<ObjectId, ObjectError> {
        match *self {
            Primitive::Reference(id) => Ok(id),
            _ => Err(
                ObjectError::WrongPrimitiveType {
                    expected: PrimKind::Reference,
                    found: self.spec_kind(),
                },
            ),
        }
    }

    /// The reference held here; a reference already is the requested shape,
    /// so nothing is resolved.
    pub fn as_reference(&self) -> (r: Result<ObjectId, ObjectError>)
        ensures
            r == self.spec_as_reference(),
    {
        match self {
            Primitive::Reference(id) => Ok(*id),
            _ => Err(
                ObjectError::WrongPrimitiveType {
                    expected: PrimKind::Reference,
                    found: self.kind(),
                },
            ),
        }
    }

    pub open spec fn spec_as_array(
        &self,
        entries: Seq<(ObjectId, Primitive)>,
    ) -> Result<Vec<Primitive>, ObjectError> {
        match *self {
            Primitive::Array(v) => Ok(v),
            Primitive::Reference(id) => match ObjectTable::spec_resolve(
                entries,
                id,
                entries.len() + 1,
            ) {
                Ok(Primitive::Array(v)) => Ok(v),
                Ok(p) => Err(
                    ObjectError::WrongPrimitiveType {
                        expected: PrimKind::Array,
                        found: p.spec_kind(),
                    },
                ),
                Err(e) => Err(e),
            },
            _ => Err(
                ObjectError::WrongPrimitiveType {
                    expected: PrimKind::Array,
                    found: self.spec_kind(),
                },
            ),
        }
    }

    /// The array held here, resolving exactly one indirection through the
    /// table if this primitive is a reference.
    pub fn as_array<'a>(&'a self, table: &'a ObjectTable) -> (r: Result<
        &'a Vec<Primitive>,
        ObjectError,
    >)
        ensures
            match r {
                Ok(v) => self.spec_as_array(table.entries@) == Ok::<Vec<Primitive>, ObjectError>(
                    *v,
                ),
                Err(e) => self.spec_as_array(table.entries@) == Err::<Vec<Primitive>, ObjectError>(
                    e,
                ),
            },
    {
        match self {
            Primitive::Array(v) => Ok(v),
            Primitive::Reference(id) => match table.resolve(*id) {
                Ok(Primitive::Array(v)) => Ok(v),
                Ok(p) => Err(
                    ObjectError::WrongPrimitiveType {
                        expected: PrimKind::Array,
                        found: p.kind(),
                    },
                ),
                Err(e) => Err(e),
            },
            _ => Err(
                ObjectError::WrongPrimitiveType {
                    expected: PrimKind::Array,
                    found: self.kind(),
                },
            ),
        }
    }

    pub open spec fn spec_as_dictionary(
        &self,
        entries: Seq<(ObjectId, Primitive)>,
    ) -> Result<Dict, ObjectError> {
        match *self {
            Primitive::Dictionary(d) => Ok(d),
            Primitive::Reference(id) => match ObjectTable::spec_resolve(
                entries,
                id,
                entries.len() + 1,
            ) {
                Ok(Primitive::Dictionary(d)) => Ok(d),
                Ok(p) => Err(
                    ObjectError::WrongPrimitiveType {
                        expected: PrimKind::Dictionary,
                        found: p.spec_kind(),
                    },
                ),
                Err(e) => Err(e),
            },
            _ => Err(
                ObjectError::WrongPrimitiveType {
                    expected: PrimKind::Dictionary,
                    found: self.spec_kind(),
                },
            ),
        }
    }

    /// The dictionary held here, resolving exactly one indirection through
    /// the table if this primitive is a reference.
    pub fn as_dictionary<'a>(&'a self, table: &'a ObjectTable) -> (r: Result<
        &'a Dict,
        ObjectError,
    >)
        ensures
            match r {
                Ok(d) => self.spec_as_dictionary(table.entries@) == Ok::<Dict, ObjectError>(*d),
                Err(e) => self.spec_as_dictionary(table.entries@) == Err::<Dict, ObjectError>(e),
            },
    {
        match self {
            Primitive::Dictionary(d) => Ok(d),
            Primitive::Reference(id) => match table.resolve(*id) {
                Ok(Primitive::Dictionary(d)) => Ok(d),
                Ok(p) => Err(
                    ObjectError::WrongPrimitiveType {
                        expected: PrimKind::Dictionary,
                        found: p.kind(),
                    },
                ),
                Err(e) => Err(e),
            },
            _ => Err(
                ObjectError::WrongPrimitiveType {
                    expected: PrimKind::Dictionary,
                    found: self.kind(),
                },
            ),
        }
    }

    pub open spec fn spec_as_stream(
        &self,
        entries: Seq<(ObjectId, Primitive)>,
    ) -> Result<Stream, ObjectError> {
        match *self {
            Primitive::Stream(s) => Ok(s),
            Primitive::Reference(id) => match ObjectTable::spec_resolve(
                entries,
                id,
                entries.len() + 1,
            ) {
                Ok(Primitive::Stream(s)) => Ok(s),
                Ok(p) => Err(
                    ObjectError::WrongPrimitiveType {
                        expected: PrimKind::Stream,
                        found: p.spec_kind(),
                    },
                ),
                Err(e) => Err(e),
            },
            _ => Err(
                ObjectError::WrongPrimitiveType {
                    expected: PrimKind::Stream,
                    found: self.spec_kind(),
                },
            ),
        }
    }

    /// The stream held here, resolving exactly one indirection through the
    /// table if this primitive is a reference.
    pub fn as_stream<'a>(&'a self, table: &'a ObjectTable) -> (r: Result<&'a Stream, ObjectError>)
        ensures
            match r {
                Ok(s) => self.spec_as_stream(table.entries@) == Ok::<Stream, ObjectError>(*s),
                Err(e) => self.spec_as_stream(table.entries@) == Err::<Stream, ObjectError>(e),
            },
    {
        match self {
            Primitive::Stream(s) => Ok(s),
            Primitive::Reference(id) => match table.resolve(*id) {
                Ok(Primitive::Stream(s)) => Ok(s),
                Ok(p) => Err(
                    ObjectError::WrongPrimitiveType {
                        expected: PrimKind::Stream,
                        found: p.kind(),
                    },
                ),
                Err(e) => Err(e),
            },
            _ => Err(
                ObjectError::WrongPrimitiveType {
                    expected: PrimKind::Stream,
                    found: self.kind(),
                },
            ),
        }
    }
}

} // verus!
