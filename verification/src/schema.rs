//! The record schema: a tree of named leaf and composite fields.
//!
//! A schema describes the fixed byte layout of one record and, at the same
//! time, the flat column structure of the delimited-text output. Both the
//! decoder and the two flatteners walk the same tree in declaration order,
//! which is what keeps header and row columns aligned.
use vstd::prelude::*;
use vstd::string::StrSliceExecFns;

verus! {

/// The kinds of primitive leaf fields a schema can hold. Each kind has a
/// fixed byte width; multi-byte integers are stored little-endian.
#[derive(Clone, Copy, PartialEq, Eq, Structural, Debug)]
pub enum LeafKind {
    /// One byte; zero means false, anything else means true.
    Flag,
    U8,
    U16,
    U32,
    U64,
    I8,
    I16,
    I32,
    I64,
}

/// A named sub-structure of a record: the building block of a schema tree.
pub struct Field {
    pub name: String,
    pub schema: Schema,
}

/// A schema node: either a primitive leaf or an ordered list of named
/// sub-structures. Declaration order of the fields is the traversal order
/// of the decoder and of both flatteners.
pub enum Schema {
    Leaf(LeafKind),
    Composite(Vec<Field>),
}

/// The fixed byte width of one leaf kind.
pub open spec fn spec_leaf_size(k: LeafKind) -> nat {
    match k {
        LeafKind::Flag => 1,
        LeafKind::U8 => 1,
        LeafKind::U16 => 2,
        LeafKind::U32 => 4,
        LeafKind::U64 => 8,
        LeafKind::I8 => 1,
        LeafKind::I16 => 2,
        LeafKind::I32 => 4,
        LeafKind::I64 => 8,
    }
}

/// The total byte size of one record laid out by this schema.
pub open spec fn spec_schema_size(s: Schema) -> nat
    decreases s,
{
    match s {
        Schema::Leaf(k) => spec_leaf_size(k),
        Schema::Composite(fields) => spec_fields_size(fields@),
    }
}

/// The total byte size of a list of fields, in declaration order.
pub open spec fn spec_fields_size(fs: Seq<Field>) -> nat
    decreases fs,
{
    if fs.len() == 0 {
        0
    } else {
        spec_schema_size(fs[0].schema) + spec_fields_size(fs.subrange(1, fs.len() as int))
    }
}

/// The number of leaf fields in the schema: the number of output columns.
pub open spec fn spec_leaf_count(s: Schema) -> nat
    decreases s,
{
    match s {
        Schema::Leaf(_) => 1,
        Schema::Composite(fields) => spec_fields_leaf_count(fields@),
    }
}

/// The number of leaves under a list of fields.
pub open spec fn spec_fields_leaf_count(fs: Seq<Field>) -> nat
    decreases fs,
{
    if fs.len() == 0 {
        0
    } else {
        spec_leaf_count(fs[0].schema) + spec_fields_leaf_count(fs.subrange(1, fs.len() as int))
    }
}

/// The single-character separator joining path segments in a column name.
pub open spec fn spec_separator() -> char {
    '.'
}

/// A usable field name: nonempty and free of the path separator, so that
/// distinct paths always join into distinct column names.
pub open spec fn spec_good_name(n: Seq<char>) -> bool {
    n.len() > 0 && forall|i: int| 0 <= i < n.len() ==> n[i] != spec_separator()
}

/// The schema invariant. Every composite holds at least one field (so a
/// record always occupies at least one byte), every field name is nonempty
/// and separator-free, sibling names are pairwise distinct, and every child
/// schema is itself well formed.
pub open spec fn spec_well_formed(s: Schema) -> bool
    decreases s,
{
    match s {
        Schema::Leaf(_) => true,
        Schema::Composite(fields) => {
            &&& fields@.len() > 0
            &&& forall|i: int|
                0 <= i < fields@.len() ==> spec_good_name(#[trigger] fields@[i].name@)
            &&& forall|i: int, j: int|
                0 <= i < j < fields@.len() ==> fields@[i].name@ != fields@[j].name@
            &&& forall|i: int|
                0 <= i < fields@.len() ==> spec_well_formed(#[trigger] fields@[i].schema)
        },
    }
}

/// A well-formed schema lays out at least one byte per record.
pub proof fn lemma_well_formed_size_positive(s: Schema)
    requires
        spec_well_formed(s),
    ensures
        spec_schema_size(s) >= 1,
    decreases s,
{
    match s {
        Schema::Leaf(_) => {},
        Schema::Composite(fields) => {
            lemma_well_formed_size_positive(fields@[0].schema);
        },
    }
}

/// Splitting a field list at any point splits its byte size.
pub proof fn lemma_fields_size_split(fs: Seq<Field>, i: int)
    requires
        0 <= i <= fs.len(),
    ensures
        spec_fields_size(fs) == spec_fields_size(fs.subrange(0, i)) + spec_fields_size(
            fs.subrange(i, fs.len() as int),
        ),
    decreases i,
{
    if i == 0 {
        assert(fs.subrange(0, 0) =~= Seq::<Field>::empty());
        assert(fs.subrange(0, fs.len() as int) =~= fs);
    } else {
        let tail = fs.subrange(1, fs.len() as int);
        lemma_fields_size_split(tail, i - 1);
        assert(fs.subrange(0, i).subrange(1, i) =~= tail.subrange(0, i - 1));
        assert(tail.subrange(i - 1, tail.len() as int) =~= fs.subrange(i, fs.len() as int));
        assert(fs.subrange(0, i)[0] == fs[0]);
        assert(spec_fields_size(fs.subrange(0, i)) == spec_schema_size(fs[0].schema)
            + spec_fields_size(tail.subrange(0, i - 1)));
    }
}

impl LeafKind {
    /// The number of bytes one value of this kind occupies in the stream.
    pub fn size(&self) -> (n: usize)
        ensures
            n == spec_leaf_size(*self),
            1 <= n <= 8,
    {
        match self {
            LeafKind::Flag => 1,
            LeafKind::U8 => 1,
            LeafKind::U16 => 2,
            LeafKind::U32 => 4,
            LeafKind::U64 => 8,
            LeafKind::I8 => 1,
            LeafKind::I16 => 2,
            LeafKind::I32 => 4,
            LeafKind::I64 => 8,
        }
    }
}

/// Decide whether a name is usable as a field name: nonempty and free of
/// the path separator.
fn check_good_name(name: &String) -> (r: bool)
    ensures
        r == spec_good_name(name@),
{
    let s = name.as_str();
    let n = s.unicode_len();
    if n == 0 {
        return false;
    }
    let mut i: usize = 0;
    while i < n
        invariant
            i <= n,
            n == s@.len(),
            s@ == name@,
            forall|j: int| 0 <= j < i ==> s@[j] != spec_separator(),
        decreases n - i,
    {
        if s.get_char(i) == '.' {
            return false;
        }
        i = i + 1;
    }
    true
}

impl Schema {
    /// Decide whether this schema satisfies the schema invariant
    /// (`spec_well_formed`): nonempty composites, usable field names,
    /// pairwise-distinct sibling names, recursively.
    pub fn check_well_formed(&self) -> (r: bool)
        ensures
            r == spec_well_formed(*self),
        decreases *self,
    {
        match self {
            Schema::Leaf(_) => true,
            Schema::Composite(fields) => {
                let n = fields.len();
                if n == 0 {
                    return false;
                }
                let mut i: usize = 0;
                while i < n
                    invariant
                        i <= n,
                        n == fields@.len(),
                        (*self) is Composite && *fields == (*self)->Composite_0,
                        forall|a: int|
                            0 <= a < i ==> spec_good_name(#[trigger] fields@[a].name@),
                        forall|a: int, b: int|
                            0 <= a < b < n && a < i ==> fields@[a].name@ != fields@[b].name@,
                        forall|a: int|
                            0 <= a < i ==> spec_well_formed(#[trigger] fields@[a].schema),
                    decreases n - i,
                {
                    proof {
                        assert(decreases_to!(*self => fields@[i as int].schema));
                    }
                    if !check_good_name(&fields[i].name) {
                        return false;
                    }
                    if !fields[i].schema.check_well_formed() {
                        return false;
                    }
                    let mut j: usize = i + 1;
                    while j < n
                        invariant
                            i < j <= n,
                            n == fields@.len(),
                            (*self) is Composite && *fields == (*self)->Composite_0,
                            forall|a: int|
                                0 <= a < i ==> spec_good_name(#[trigger] fields@[a].name@),
                            forall|a: int, b: int|
                                0 <= a < b < n && a < i ==> fields@[a].name@ != fields@[b].name@,
                            forall|a: int|
                                0 <= a < i ==> spec_well_formed(#[trigger] fields@[a].schema),
                            spec_good_name(fields@[i as int].name@),
                            spec_well_formed(fields@[i as int].schema),
                            forall|b: int| i < b < j ==> fields@[i as int].name@ != fields@[b].name@,
                        decreases n - j,
                    {
                        if fields[i].name.eq(&fields[j].name) {
                            return false;
                        }
                        j = j + 1;
                    }
                    i = i + 1;
                }
                true
            },
        }
    }

    /// The byte size of one record under this schema, or `None` when the
    /// total does not fit in `usize`.
    pub fn checked_size(&self) -> (r: Option<usize>)
        ensures
            match r {
                Some(n) => n == spec_schema_size(*self),
                None => spec_schema_size(*self) > usize::MAX,
            },
        decreases *self,
    {
        match self {
            Schema::Leaf(k) => Some(k.size()),
            Schema::Composite(fields) => {
                let mut total: usize = 0;
                let mut i: usize = 0;
                let n = fields.len();
                while i < n
                    invariant
                        0 <= i <= n,
                        n == fields@.len(),
                        (*self) is Composite && *fields == (*self)->Composite_0,
                        total == spec_fields_size(fields@.subrange(0, i as int)),
                    decreases n - i,
                {
                    proof {
                        assert(decreases_to!(*self => fields@[i as int].schema));
                    }
                    proof {
                        lemma_fields_size_split(fields@, i as int);
                        let suf = fields@.subrange(i as int, fields@.len() as int);
                        assert(suf[0] == fields@[i as int]);
                        assert(spec_fields_size(suf) == spec_schema_size(suf[0].schema)
                            + spec_fields_size(suf.subrange(1, suf.len() as int)));
                    }
                    let child = match fields[i].schema.checked_size() {
                        Some(c) => c,
                        None => {
                            return None;
                        },
                    };
                    let next = match total.checked_add(child) {
                        Some(t) => t,
                        None => {
                            return None;
                        },
                    };
                    proof {
                        lemma_fields_size_split(fields@.subrange(0, i + 1), i as int);
                        assert(fields@.subrange(0, i + 1).subrange(0, i as int) =~= fields@
                            .subrange(0, i as int));
                        assert(fields@.subrange(0, i + 1).subrange(i as int, i + 1) =~= fields@
                            .subrange(i as int, i + 1));
                        assert(spec_fields_size(fields@.subrange(i as int, i + 1))
                            == spec_schema_size(fields@[i as int].schema) + spec_fields_size(
                            fields@.subrange(i as int, i + 1).subrange(1, 1),
                        ));
                        assert(fields@.subrange(i as int, i + 1).subrange(1, 1) =~= Seq::<
                            Field,
                        >::empty());
                    }
                    total = next;
                    i = i + 1;
                }
                proof {
                    assert(fields@.subrange(0, n as int) =~= fields@);
                }
                Some(total)
            },
        }
    }
}

} // verus!
