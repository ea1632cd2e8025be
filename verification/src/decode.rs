//! The record decoder: materialize one nested record from the stream,
//! one leaf read per schema field, strictly in declaration order.
use vstd::prelude::*;
use crate::bytes::ByteSource;
use crate::errors::ConvertError;
use crate::schema::Field;
use crate::schema::Schema;
use crate::schema::lemma_fields_size_split;
use crate::schema::spec_fields_size;
use crate::schema::spec_leaf_size;
use crate::schema::spec_schema_size;
use crate::value::Value;
use crate::value::read_leaf;
use crate::value::spec_decode_leaf;
use crate::value::spec_leaf_conforms;

verus! {

/// A value has exactly the shape of the schema: matching leaf variants and
/// matching child counts, recursively.
pub open spec fn spec_conforms(v: Value, s: Schema) -> bool
    decreases s,
{
    match s {
        Schema::Leaf(k) => spec_leaf_conforms(v, k),
        Schema::Composite(fields) => {
            &&& v is Composite
            &&& v->Composite_0@.len() == fields@.len()
            &&& forall|i: int|
                0 <= i < fields@.len() ==> spec_conforms(
                    #[trigger] v->Composite_0@[i],
                    fields@[i].schema,
                )
        },
    }
}

/// The byte offset of field `i` within its composite: the summed sizes of
/// the fields declared before it.
pub open spec fn spec_prefix_size(fs: Seq<Field>, i: int) -> nat {
    spec_fields_size(fs.subrange(0, i))
}

/// One declared field adds exactly its own size to the running offset.
pub proof fn lemma_prefix_size_step(fs: Seq<Field>, i: int)
    requires
        0 <= i < fs.len(),
    ensures
        spec_prefix_size(fs, i + 1) == spec_prefix_size(fs, i) + spec_schema_size(fs[i].schema),
{
    let pre = fs.subrange(0, i + 1);
    lemma_fields_size_split(pre, i);
    assert(pre.subrange(0, i) =~= fs.subrange(0, i));
    let last = pre.subrange(i, i + 1);
    assert(last[0] == fs[i]);
    assert(spec_fields_size(last) == spec_schema_size(last[0].schema) + spec_fields_size(
        last.subrange(1, 1),
    ));
    assert(last.subrange(1, 1) =~= Seq::<Field>::empty());
}

/// No field starts past the end of its composite.
pub proof fn lemma_prefix_size_le(fs: Seq<Field>, i: int)
    requires
        0 <= i <= fs.len(),
    ensures
        spec_prefix_size(fs, i) <= spec_fields_size(fs),
{
    lemma_fields_size_split(fs, i);
}

/// `v` is what the byte string `b` decodes to under schema `s`: leaves hold
/// the little-endian reading of their own bytes, composites hold one child
/// per declared field, each decoded from that field's slice of `b`.
pub open spec fn spec_is_decoding(v: Value, s: Schema, b: Seq<u8>) -> bool
    decreases s,
{
    match s {
        Schema::Leaf(k) => v == spec_decode_leaf(k, b),
        Schema::Composite(fields) => {
            &&& v is Composite
            &&& spec_children_decoding(v->Composite_0@, fields@, b)
        },
    }
}

/// Each child is the decoding of its own field's slice of `b`.
pub open spec fn spec_children_decoding(vs: Seq<Value>, fs: Seq<Field>, b: Seq<u8>) -> bool
    decreases fs,
{
    &&& vs.len() == fs.len()
    &&& forall|i: int|
        0 <= i < fs.len() ==> spec_is_decoding(
            vs[i],
            (#[trigger] fs[i]).schema,
            b.subrange(spec_prefix_size(fs, i) as int, spec_prefix_size(fs, i + 1) as int),
        )
}

/// A decoded value always has the shape of the schema it was decoded under.
pub proof fn lemma_decoding_conforms(v: Value, s: Schema, b: Seq<u8>)
    requires
        spec_is_decoding(v, s, b),
    ensures
        spec_conforms(v, s),
    decreases s,
{
    match s {
        Schema::Leaf(k) => {},
        Schema::Composite(fields) => {
            assert forall|i: int| 0 <= i < fields@.len() implies spec_conforms(
                #[trigger] v->Composite_0@[i],
                fields@[i].schema,
            ) by {
                lemma_decoding_conforms(
                    v->Composite_0@[i],
                    fields@[i].schema,
                    b.subrange(
                        spec_prefix_size(fields@, i) as int,
                        spec_prefix_size(fields@, i + 1) as int,
                    ),
                );
            }
        },
    }
}

/// Decode one value of schema `s` from the stream. The stream must hold at
/// least a full record's worth of bytes; exactly that many are consumed.
fn decode_value(s: &Schema, src: &mut ByteSource) -> (v: Value)
    requires
        old(src).wf(),
        spec_schema_size(*s) <= old(src).remaining().len(),
    ensures
        final(src).wf(),
        spec_is_decoding(
            v,
            *s,
            old(src).remaining().subrange(0, spec_schema_size(*s) as int),
        ),
        final(src).remaining() == old(src).remaining().subrange(
            spec_schema_size(*s) as int,
            old(src).remaining().len() as int,
        ),
    decreases *s,
{
    match s {
        Schema::Leaf(k) => {
            let v = read_leaf(*k, src);
            proof {
                assert(spec_leaf_size(*k) == spec_schema_size(*s));
            }
            v
        },
        Schema::Composite(fields) => {
            let ghost full = old(src).remaining();
            let ghost total = spec_fields_size(fields@);
            let mut children: Vec<Value> = Vec::new();
            let mut i: usize = 0;
            let n = fields.len();
            while i < n
                invariant
                    i <= n,
                    n == fields@.len(),
                    (*s) is Composite && *fields == (*s)->Composite_0,
                    src.wf(),
                    total == spec_fields_size(fields@),
                    full == old(src).remaining(),
                    total <= full.len(),
                    spec_prefix_size(fields@, i as int) <= total,
                    src.remaining() == full.subrange(
                        spec_prefix_size(fields@, i as int) as int,
                        full.len() as int,
                    ),
                    children@.len() == i,
                    forall|j: int|
                        0 <= j < i ==> spec_is_decoding(
                            children@[j],
                            (#[trigger] fields@[j]).schema,
                            full.subrange(
                                spec_prefix_size(fields@, j) as int,
                                spec_prefix_size(fields@, j + 1) as int,
                            ),
                        ),
                decreases n - i,
            {
                proof {
                    assert(decreases_to!(*s => fields@[i as int].schema));
                    lemma_prefix_size_step(fields@, i as int);
                    lemma_prefix_size_le(fields@, i + 1);
                }
                let child = decode_value(&fields[i].schema, src);
                proof {
                    let pi = spec_prefix_size(fields@, i as int) as int;
                    let pj = spec_prefix_size(fields@, i + 1) as int;
                    let rem = full.subrange(pi, full.len() as int);
                    assert(rem.subrange(0, spec_schema_size(fields@[i as int].schema) as int)
                        =~= full.subrange(pi, pj));
                    assert(rem.subrange(
                        spec_schema_size(fields@[i as int].schema) as int,
                        rem.len() as int,
                    ) =~= full.subrange(pj, full.len() as int));
                }
                children.push(child);
                i = i + 1;
            }
            proof {
                assert(fields@.subrange(0, n as int) =~= fields@);
            }
            let v = Value::Composite(children);
            proof {
                let b = full.subrange(0, total as int);
                assert forall|j: int| 0 <= j < n implies spec_is_decoding(
                    v->Composite_0@[j],
                    (#[trigger] fields@[j]).schema,
                    b.subrange(
                        spec_prefix_size(fields@, j) as int,
                        spec_prefix_size(fields@, j + 1) as int,
                    ),
                ) by {
                    lemma_prefix_size_le(fields@, j);
                    lemma_prefix_size_step(fields@, j);
                    lemma_prefix_size_le(fields@, j + 1);
                    assert(b.subrange(
                        spec_prefix_size(fields@, j) as int,
                        spec_prefix_size(fields@, j + 1) as int,
                    ) =~= full.subrange(
                        spec_prefix_size(fields@, j) as int,
                        spec_prefix_size(fields@, j + 1) as int,
                    ));
                }
            }
            v
        },
    }
}

/// Read one full record from the stream, all-or-nothing.
///
/// When at least one record's worth of bytes remains, exactly one record is
/// consumed and its decoded value returned. Otherwise nothing is consumed
/// and `ShortRead` is returned: the stream-exhaustion signal.
pub fn read_record(schema: &Schema, src: &mut ByteSource) -> (r: Result<Value, ConvertError>)
    requires
        old(src).wf(),
        spec_schema_size(*schema) <= usize::MAX,
    ensures
        final(src).wf(),
        old(src).remaining().len() >= spec_schema_size(*schema) ==> {
            &&& r is Ok
            &&& spec_is_decoding(
                r->Ok_0,
                *schema,
                old(src).remaining().subrange(0, spec_schema_size(*schema) as int),
            )
            &&& final(src).remaining() == old(src).remaining().subrange(
                spec_schema_size(*schema) as int,
                old(src).remaining().len() as int,
            )
        },
        old(src).remaining().len() < spec_schema_size(*schema) ==> {
            &&& r == Err::<Value, ConvertError>(ConvertError::ShortRead)
            &&& *final(src) == *old(src)
        },
{
    let sz = match schema.checked_size() {
        Some(z) => z,
        None => {
            proof {
                assert(false);
            }
            return Err(ConvertError::ShortRead);
        },
    };
    if src.remaining_len() < sz {
        Err(ConvertError::ShortRead)
    } else {
        Ok(decode_value(schema, src))
    }
}

} // verus!
