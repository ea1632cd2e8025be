//! The header and row flatteners.
//!
//! Both walk the schema tree in the same depth-first, declaration-order
//! traversal: the header flattener emits one dot-joined path name per leaf,
//! the row flattener emits one rendered text token per leaf of a decoded
//! record. Sharing the traversal is what makes the two outputs align.
use vstd::prelude::*;
use vstd::string::StrSliceExecFns;
use vstd::string::StringExecFns;
use crate::schema::Field;
use crate::schema::Schema;
use crate::schema::spec_schema_size;
use crate::schema::spec_fields_size;
use crate::schema::spec_leaf_count;
use crate::schema::spec_fields_leaf_count;
use crate::schema::spec_good_name;
use crate::schema::spec_separator;
use crate::schema::spec_well_formed;
use crate::decode::spec_conforms;
use crate::decode::spec_is_decoding;
use crate::decode::spec_children_decoding;
use crate::decode::spec_prefix_size;
use crate::decode::lemma_prefix_size_step;
use crate::decode::lemma_prefix_size_le;
use crate::value::Value;
use crate::value::spec_decode_leaf;
use crate::value::spec_leaf_text;

verus! {

/// The views of a sequence of strings.
pub open spec fn spec_strings_view(v: Seq<String>) -> Seq<Seq<char>> {
    v.map_values(|s: String| s@)
}

/// The column-name prefix of a child named `name` under prefix `p`: the
/// name itself at the root, otherwise the prefix, the separator, the name.
pub open spec fn spec_child_prefix(p: Seq<char>, name: Seq<char>) -> Seq<char> {
    if p.len() == 0 {
        name
    } else {
        p + seq![spec_separator()] + name
    }
}

/// The flat column names of a schema under a given path prefix, one per
/// leaf, in depth-first declaration order.
pub open spec fn spec_header(s: Schema, p: Seq<char>) -> Seq<Seq<char>>
    decreases s,
{
    match s {
        Schema::Leaf(_) => seq![p],
        Schema::Composite(fields) => spec_header_fields(fields@, p),
    }
}

/// The concatenated column names of a list of fields, in order.
pub open spec fn spec_header_fields(fs: Seq<Field>, p: Seq<char>) -> Seq<Seq<char>>
    decreases fs,
{
    if fs.len() == 0 {
        Seq::empty()
    } else {
        spec_header(fs[0].schema, spec_child_prefix(p, fs[0].name@)) + spec_header_fields(
            fs.subrange(1, fs.len() as int),
            p,
        )
    }
}

/// The row tokens of a decoded value under a schema, one rendered text
/// token per leaf, in the same depth-first declaration order as the header.
pub open spec fn spec_value_tokens(s: Schema, v: Value) -> Seq<Seq<char>>
    decreases s,
{
    match s {
        Schema::Leaf(_) => seq![spec_leaf_text(v)],
        Schema::Composite(fields) => spec_children_tokens(fields@, v->Composite_0@),
    }
}

/// The concatenated tokens of a list of fields and their child values.
pub open spec fn spec_children_tokens(fs: Seq<Field>, vs: Seq<Value>) -> Seq<Seq<char>>
    decreases fs,
{
    if fs.len() == 0 || vs.len() == 0 {
        Seq::empty()
    } else {
        spec_value_tokens(fs[0].schema, vs[0]) + spec_children_tokens(
            fs.subrange(1, fs.len() as int),
            vs.subrange(1, vs.len() as int),
        )
    }
}

/// The row tokens a byte string decodes to under a schema: decoding and
/// row flattening composed, as a pure function of the record's bytes.
pub open spec fn spec_tokens(s: Schema, b: Seq<u8>) -> Seq<Seq<char>>
    decreases s,
{
    match s {
        Schema::Leaf(k) => seq![spec_leaf_text(spec_decode_leaf(k, b))],
        Schema::Composite(fields) => spec_tokens_fields(fields@, b),
    }
}

/// The concatenated tokens of a list of fields, each decoding its own
/// slice of the byte string.
pub open spec fn spec_tokens_fields(fs: Seq<Field>, b: Seq<u8>) -> Seq<Seq<char>>
    decreases fs,
{
    if fs.len() == 0 {
        Seq::empty()
    } else {
        spec_tokens(fs[0].schema, b.subrange(0, spec_schema_size(fs[0].schema) as int))
            + spec_tokens_fields(
            fs.subrange(1, fs.len() as int),
            b.subrange(spec_schema_size(fs[0].schema) as int, b.len() as int),
        )
    }
}

/// A schema yields exactly one column name per leaf, whatever the prefix.
pub proof fn lemma_header_len(s: Schema, p: Seq<char>)
    ensures
        spec_header(s, p).len() == spec_leaf_count(s),
    decreases s,
{
    match s {
        Schema::Leaf(_) => {},
        Schema::Composite(fields) => {
            lemma_header_fields_len(fields@, p);
        },
    }
}

proof fn lemma_header_fields_len(fs: Seq<Field>, p: Seq<char>)
    ensures
        spec_header_fields(fs, p).len() == spec_fields_leaf_count(fs),
    decreases fs,
{
    if fs.len() > 0 {
        lemma_header_len(fs[0].schema, spec_child_prefix(p, fs[0].name@));
        lemma_header_fields_len(fs.subrange(1, fs.len() as int), p);
    }
}

/// A byte string yields exactly one row token per leaf of the schema.
pub proof fn lemma_tokens_len(s: Schema, b: Seq<u8>)
    ensures
        spec_tokens(s, b).len() == spec_leaf_count(s),
    decreases s,
{
    match s {
        Schema::Leaf(_) => {},
        Schema::Composite(fields) => {
            lemma_tokens_fields_len(fields@, b);
        },
    }
}

proof fn lemma_tokens_fields_len(fs: Seq<Field>, b: Seq<u8>)
    ensures
        spec_tokens_fields(fs, b).len() == spec_fields_leaf_count(fs),
    decreases fs,
{
    if fs.len() > 0 {
        lemma_tokens_len(fs[0].schema, b.subrange(0, spec_schema_size(fs[0].schema) as int));
        lemma_tokens_fields_len(
            fs.subrange(1, fs.len() as int),
            b.subrange(spec_schema_size(fs[0].schema) as int, b.len() as int),
        );
    }
}

/// A conforming value yields exactly one row token per leaf of the schema.
pub proof fn lemma_value_tokens_len(s: Schema, v: Value)
    requires
        spec_conforms(v, s),
    ensures
        spec_value_tokens(s, v).len() == spec_leaf_count(s),
    decreases s,
{
    match s {
        Schema::Leaf(_) => {},
        Schema::Composite(fields) => {
            lemma_children_tokens_len(fields@, v->Composite_0@);
        },
    }
}

proof fn lemma_children_tokens_len(fs: Seq<Field>, vs: Seq<Value>)
    requires
        vs.len() == fs.len(),
        forall|i: int| 0 <= i < fs.len() ==> spec_conforms(vs[i], (#[trigger] fs[i]).schema),
    ensures
        spec_children_tokens(fs, vs).len() == spec_fields_leaf_count(fs),
    decreases fs,
{
    if fs.len() > 0 {
        lemma_value_tokens_len(fs[0].schema, vs[0]);
        let fs1 = fs.subrange(1, fs.len() as int);
        let vs1 = vs.subrange(1, vs.len() as int);
        assert(forall|i: int|
            0 <= i < fs1.len() ==> spec_conforms(vs1[i], (#[trigger] fs1[i]).schema));
        lemma_children_tokens_len(fs1, vs1);
    }
}

/// The structural alignment law: for any schema, any prefix and any record
/// value of that schema's shape, the flattened header and the flattened row
/// have exactly the same number of columns.
pub proof fn lemma_header_row_aligned(s: Schema, p: Seq<char>, v: Value)
    requires
        spec_conforms(v, s),
    ensures
        spec_header(s, p).len() == spec_value_tokens(s, v).len(),
{
    lemma_header_len(s, p);
    lemma_value_tokens_len(s, v);
}

/// Dropping the first field shifts every later field's offset down by the
/// first field's size.
proof fn lemma_prefix_size_skip(fs: Seq<Field>, j: int)
    requires
        fs.len() > 0,
        0 <= j,
        j + 1 <= fs.len(),
    ensures
        spec_prefix_size(fs.subrange(1, fs.len() as int), j) + spec_schema_size(fs[0].schema)
            == spec_prefix_size(fs, j + 1),
{
    let pre = fs.subrange(0, j + 1);
    assert(spec_fields_size(pre) == spec_schema_size(pre[0].schema) + spec_fields_size(
        pre.subrange(1, pre.len() as int),
    ));
    assert(pre[0] == fs[0]);
    assert(pre.subrange(1, pre.len() as int) =~= fs.subrange(1, fs.len() as int).subrange(0, j));
}

/// The row tokens of a decoded value are exactly the row tokens of the
/// bytes it was decoded from.
pub proof fn lemma_decoding_tokens(v: Value, s: Schema, b: Seq<u8>)
    requires
        spec_is_decoding(v, s, b),
        b.len() == spec_schema_size(s),
    ensures
        spec_value_tokens(s, v) == spec_tokens(s, b),
    decreases s,
{
    match s {
        Schema::Leaf(k) => {},
        Schema::Composite(fields) => {
            lemma_children_decoding_tokens(v->Composite_0@, fields@, b);
        },
    }
}

proof fn lemma_children_decoding_tokens(vs: Seq<Value>, fs: Seq<Field>, b: Seq<u8>)
    requires
        spec_children_decoding(vs, fs, b),
        b.len() == spec_fields_size(fs),
    ensures
        spec_children_tokens(fs, vs) == spec_tokens_fields(fs, b),
    decreases fs,
{
    if fs.len() > 0 {
        let s0 = spec_schema_size(fs[0].schema) as int;
        let b0 = b.subrange(0, s0);
        let brest = b.subrange(s0, b.len() as int);
        let fs1 = fs.subrange(1, fs.len() as int);
        let vs1 = vs.subrange(1, vs.len() as int);
        assert(fs.subrange(0, 0) =~= Seq::<Field>::empty());
        assert(spec_prefix_size(fs, 0) == 0);
        lemma_prefix_size_step(fs, 0);
        assert(b.subrange(spec_prefix_size(fs, 0) as int, spec_prefix_size(fs, 1) as int)
            =~= b0);
        assert(spec_is_decoding(vs[0], fs[0].schema, b0));
        lemma_decoding_tokens(vs[0], fs[0].schema, b0);
        assert(brest.len() == spec_fields_size(fs1)) by {
            assert(spec_fields_size(fs) == spec_schema_size(fs[0].schema) + spec_fields_size(
                fs1,
            ));
        }
        assert forall|j: int| 0 <= j < fs1.len() implies spec_is_decoding(
            vs1[j],
            (#[trigger] fs1[j]).schema,
            brest.subrange(
                spec_prefix_size(fs1, j) as int,
                spec_prefix_size(fs1, j + 1) as int,
            ),
        ) by {
            lemma_prefix_size_skip(fs, j);
            lemma_prefix_size_skip(fs, j + 1);
            lemma_prefix_size_step(fs1, j);
            lemma_prefix_size_le(fs1, j + 1);
            lemma_prefix_size_le(fs, j + 2);
            assert(brest.subrange(
                spec_prefix_size(fs1, j) as int,
                spec_prefix_size(fs1, j + 1) as int,
            ) =~= b.subrange(
                spec_prefix_size(fs, j + 1) as int,
                spec_prefix_size(fs, j + 2) as int,
            ));
            assert(spec_is_decoding(
                vs[j + 1],
                fs[j + 1].schema,
                b.subrange(
                    spec_prefix_size(fs, j + 1) as int,
                    spec_prefix_size(fs, j + 2) as int,
                ),
            ));
        }
        assert(brest.len() == spec_fields_size(fs1)) by {
            assert(spec_fields_size(fs) == spec_schema_size(fs[0].schema) + spec_fields_size(
                fs1,
            ));
        }
        lemma_children_decoding_tokens(vs1, fs1, brest);
    }
}

/// `c` extends the path prefix `q` as a column name: it is `q` itself, or
/// continues it at a separator.
pub open spec fn spec_extends(c: Seq<char>, q: Seq<char>) -> bool {
    &&& c.len() >= q.len()
    &&& c.subrange(0, q.len() as int) == q
    &&& (c.len() == q.len() || c[q.len() as int] == spec_separator())
}

/// A column that extends a child's prefix also extends the parent's.
proof fn lemma_extends_child(c: Seq<char>, q: Seq<char>, name: Seq<char>)
    requires
        q.len() > 0,
        spec_extends(c, spec_child_prefix(q, name)),
    ensures
        spec_extends(c, q),
{
    let q2 = spec_child_prefix(q, name);
    assert(q2 == q + seq![spec_separator()] + name);
    assert(q2.len() == q.len() + 1 + name.len());
    assert(c.subrange(0, q.len() as int) =~= q) by {
        assert(forall|i: int|
            0 <= i < q.len() ==> c.subrange(0, q2.len() as int)[i] == #[trigger] c[i]);
        assert(forall|i: int| 0 <= i < q.len() ==> q2[i] == q[i]);
    }
    assert(c[q.len() as int] == q2[q.len() as int]);
    assert(q2[q.len() as int] == spec_separator());
}

/// No column name can extend the prefixes of two differently named
/// siblings: the segment after the shared prefix would have to be both.
proof fn lemma_extends_disjoint(c: Seq<char>, p: Seq<char>, n1: Seq<char>, n2: Seq<char>)
    requires
        spec_good_name(n1),
        spec_good_name(n2),
        n1 != n2,
        spec_extends(c, spec_child_prefix(p, n1)),
    ensures
        !spec_extends(c, spec_child_prefix(p, n2)),
{
    let q1 = spec_child_prefix(p, n1);
    let q2 = spec_child_prefix(p, n2);
    let base: int = if p.len() == 0 {
        0
    } else {
        p.len() as int + 1
    };
    assert(q1.len() == base + n1.len());
    assert(q2.len() == base + n2.len());
    assert(forall|i: int| 0 <= i < n1.len() ==> q1[base + i] == n1[i]);
    assert(forall|i: int| 0 <= i < n2.len() ==> q2[base + i] == n2[i]);
    if spec_extends(c, q2) {
        assert(forall|i: int| 0 <= i < q1.len() ==> c[i] == q1[i]) by {
            assert(forall|i: int|
                0 <= i < q1.len() ==> c.subrange(0, q1.len() as int)[i] == #[trigger] c[i]);
        }
        assert(forall|i: int| 0 <= i < q2.len() ==> c[i] == q2[i]) by {
            assert(forall|i: int|
                0 <= i < q2.len() ==> c.subrange(0, q2.len() as int)[i] == #[trigger] c[i]);
        }
        if n1.len() == n2.len() {
            assert(n1 =~= n2) by {
                assert(forall|i: int|
                    0 <= i < n1.len() ==> n1[i] == c[base + i] && n2[i] == #[trigger] c[base
                        + i]);
            }
        } else if n1.len() < n2.len() {
            let t = base + n1.len();
            assert(c[t] == q2[t]);
            assert(q2[t] == n2[n1.len() as int]);
            assert(n2[n1.len() as int] != spec_separator());
            assert(c.len() > q1.len());
            assert(c[t] == spec_separator());
        } else {
            let t = base + n2.len();
            assert(c[t] == q1[t]);
            assert(q1[t] == n1[n2.len() as int]);
            assert(n1[n2.len() as int] != spec_separator());
            assert(c.len() > q2.len());
            assert(c[t] == spec_separator());
        }
    }
}

/// Every column of a schema under prefix `q` extends `q`.
proof fn lemma_header_extends(s: Schema, q: Seq<char>, k: int)
    requires
        spec_well_formed(s),
        q.len() > 0,
        0 <= k < spec_header(s, q).len(),
    ensures
        spec_extends(spec_header(s, q)[k], q),
    decreases s,
{
    match s {
        Schema::Leaf(_) => {
            assert(spec_header(s, q)[k] == q);
            assert(q.subrange(0, q.len() as int) =~= q);
        },
        Schema::Composite(fields) => {
            lemma_header_fields_extends(fields@, q, k);
        },
    }
}

proof fn lemma_header_fields_extends(fs: Seq<Field>, q: Seq<char>, k: int)
    requires
        forall|i: int| 0 <= i < fs.len() ==> spec_good_name(#[trigger] fs[i].name@),
        forall|i: int| 0 <= i < fs.len() ==> spec_well_formed(#[trigger] fs[i].schema),
        q.len() > 0,
        0 <= k < spec_header_fields(fs, q).len(),
    ensures
        spec_extends(spec_header_fields(fs, q)[k], q),
    decreases fs,
{
    let q0 = spec_child_prefix(q, fs[0].name@);
    let b0 = spec_header(fs[0].schema, q0);
    if k < b0.len() {
        lemma_header_extends(fs[0].schema, q0, k);
        lemma_extends_child(spec_header_fields(fs, q)[k], q, fs[0].name@);
    } else {
        let fs1 = fs.subrange(1, fs.len() as int);
        lemma_header_fields_extends(fs1, q, k - b0.len());
    }
}

/// The distinct-columns law: under a well-formed schema, no two leaves
/// share a full nesting path, so the flattened header's column names are
/// pairwise distinct — whatever the starting prefix.
pub proof fn lemma_header_distinct(s: Schema, p: Seq<char>)
    requires
        spec_well_formed(s),
    ensures
        forall|i: int, j: int|
            0 <= i < j < spec_header(s, p).len() ==> spec_header(s, p)[i] != spec_header(
                s,
                p,
            )[j],
    decreases s,
{
    match s {
        Schema::Leaf(_) => {
            assert(spec_header(s, p).len() == 1);
            assert(forall|i: int, j: int|
                0 <= i < j < spec_header(s, p).len() ==> spec_header(s, p)[i] != spec_header(
                    s,
                    p,
                )[j]);
        },
        Schema::Composite(fields) => {
            lemma_header_fields_distinct(fields@, p);
            assert(spec_header(s, p) == spec_header_fields(fields@, p));
            assert(forall|i: int, j: int|
                0 <= i < j < spec_header(s, p).len() ==> spec_header(s, p)[i] != spec_header(
                    s,
                    p,
                )[j]);
        },
    }
}

proof fn lemma_header_fields_distinct(fs: Seq<Field>, p: Seq<char>)
    requires
        forall|i: int| 0 <= i < fs.len() ==> spec_good_name(#[trigger] fs[i].name@),
        forall|i: int, j: int| 0 <= i < j < fs.len() ==> fs[i].name@ != fs[j].name@,
        forall|i: int| 0 <= i < fs.len() ==> spec_well_formed(#[trigger] fs[i].schema),
    ensures
        forall|a: int, b: int|
            0 <= a < b < spec_header_fields(fs, p).len() ==> spec_header_fields(fs, p)[a]
                != spec_header_fields(fs, p)[b],
        forall|k: int|
            0 <= k < spec_header_fields(fs, p).len() ==> exists|i: int|
                0 <= i < fs.len() && spec_extends(
                    #[trigger] spec_header_fields(fs, p)[k],
                    spec_child_prefix(p, fs[i].name@),
                ),
    decreases fs,
{
    if fs.len() > 0 {
        let hdr = spec_header_fields(fs, p);
        let q0 = spec_child_prefix(p, fs[0].name@);
        let b0 = spec_header(fs[0].schema, q0);
        let fs1 = fs.subrange(1, fs.len() as int);
        let rest = spec_header_fields(fs1, p);
        assert(hdr == b0 + rest);
        lemma_header_distinct(fs[0].schema, q0);
        lemma_header_fields_distinct(fs1, p);
        assert(q0.len() > 0);
        assert forall|k: int| 0 <= k < b0.len() implies spec_extends(b0[k], q0) by {
            lemma_header_extends(fs[0].schema, q0, k);
            assert(b0[k] == hdr[k]);
        }
        // Every column belongs to the first field's block or, shifted, to a
        // later field's block.
        assert forall|k: int| 0 <= k < hdr.len() implies exists|i: int|
            0 <= i < fs.len() && spec_extends(
                #[trigger] hdr[k],
                spec_child_prefix(p, fs[i].name@),
            ) by {
            if k < b0.len() {
                assert(hdr[k] == b0[k]);
                assert(spec_extends(hdr[k], spec_child_prefix(p, fs[0].name@)));
            } else {
                assert(hdr[k] == rest[k - b0.len()]);
                let i1 = choose|i1: int|
                    0 <= i1 < fs1.len() && spec_extends(
                        rest[k - b0.len()],
                        spec_child_prefix(p, fs1[i1].name@),
                    );
                assert(fs1[i1] == fs[i1 + 1]);
                assert(spec_extends(hdr[k], spec_child_prefix(p, fs[i1 + 1].name@)));
            }
        }
        // Distinctness: within the first block, within the rest, and across.
        assert forall|a: int, b: int| 0 <= a < b < hdr.len() implies hdr[a] != hdr[b] by {
            if b < b0.len() {
                assert(hdr[a] == b0[a] && hdr[b] == b0[b]);
            } else if a >= b0.len() {
                assert(hdr[a] == rest[a - b0.len()] && hdr[b] == rest[b - b0.len()]);
            } else {
                assert(hdr[a] == b0[a]);
                assert(hdr[b] == rest[b - b0.len()]);
                assert(spec_extends(hdr[a], q0));
                let i1 = choose|i1: int|
                    0 <= i1 < fs1.len() && spec_extends(
                        rest[b - b0.len()],
                        spec_child_prefix(p, fs1[i1].name@),
                    );
                assert(fs1[i1] == fs[i1 + 1]);
                assert(fs[0].name@ != fs[i1 + 1].name@);
                lemma_extends_disjoint(hdr[a], p, fs[0].name@, fs[i1 + 1].name@);
            }
        }
    }
}

/// Build the child prefix string: the name at the root, otherwise
/// prefix, separator, name.
fn child_prefix(prefix: &String, name: &String) -> (r: String)
    ensures
        r@ == spec_child_prefix(prefix@, name@),
{
    if prefix.as_str().unicode_len() == 0 {
        let r = name.clone();
        proof {
            assert(prefix@.len() == 0);
        }
        r
    } else {
        let mut r = prefix.clone();
        r.append(".");
        r.append(name.as_str());
        proof {
            reveal_strlit(".");
            assert((".")@ =~= seq![spec_separator()]);
            assert(r@ =~= prefix@ + seq![spec_separator()] + name@);
        }
        r
    }
}

/// Append the column names of `s` under `prefix` to `out`.
fn push_header(s: &Schema, prefix: &String, out: &mut Vec<String>)
    ensures
        spec_strings_view(final(out)@) == spec_strings_view(old(out)@) + spec_header(
            *s,
            prefix@,
        ),
    decreases *s,
{
    match s {
        Schema::Leaf(_) => {
            out.push(prefix.clone());
            proof {
                assert(spec_strings_view(out@) =~= spec_strings_view(old(out)@) + spec_header(
                    *s,
                    prefix@,
                ));
            }
        },
        Schema::Composite(fields) => {
            let ghost entry = spec_strings_view(old(out)@);
            let mut i: usize = 0;
            let n = fields.len();
            proof {
                assert(fields@.subrange(0, n as int) =~= fields@);
            }
            while i < n
                invariant
                    i <= n,
                    n == fields@.len(),
                    (*s) is Composite && *fields == (*s)->Composite_0,
                    entry == spec_strings_view(old(out)@),
                    spec_strings_view(out@) + spec_header_fields(
                        fields@.subrange(i as int, n as int),
                        prefix@,
                    ) == entry + spec_header_fields(fields@, prefix@),
                decreases n - i,
            {
                proof {
                    assert(decreases_to!(*s => fields@[i as int].schema));
                    let rem = fields@.subrange(i as int, n as int);
                    assert(rem[0] == fields@[i as int]);
                    assert(rem.subrange(1, rem.len() as int) =~= fields@.subrange(
                        i + 1,
                        n as int,
                    ));
                }
                let p2 = child_prefix(prefix, &fields[i].name);
                push_header(&fields[i].schema, &p2, out);
                i = i + 1;
            }
            proof {
                assert(fields@.subrange(n as int, n as int) =~= Seq::<Field>::empty());
                assert(spec_strings_view(out@) + Seq::<Seq<char>>::empty() =~= spec_strings_view(
                    out@,
                ));
            }
        },
    }
}

/// The flattened header: one dot-joined path name per leaf field, in
/// depth-first declaration order.
pub fn header_columns(schema: &Schema) -> (cols: Vec<String>)
    ensures
        spec_strings_view(cols@) == spec_header(*schema, Seq::<char>::empty()),
        cols@.len() == spec_leaf_count(*schema),
{
    let mut out: Vec<String> = Vec::new();
    let root = String::new();
    push_header(schema, &root, &mut out);
    proof {
        assert(spec_strings_view(Seq::<String>::empty()) =~= Seq::<Seq<char>>::empty());
        assert(spec_strings_view(out@) =~= spec_header(*schema, Seq::<char>::empty()));
        lemma_header_len(*schema, Seq::<char>::empty());
        assert(spec_strings_view(out@).len() == out@.len());
    }
    out
}

/// Append the row tokens of value `v` under schema `s` to `out`.
fn push_tokens(s: &Schema, v: &Value, out: &mut Vec<String>)
    requires
        spec_conforms(*v, *s),
    ensures
        spec_strings_view(final(out)@) == spec_strings_view(old(out)@) + spec_value_tokens(
            *s,
            *v,
        ),
    decreases *s,
{
    match s {
        Schema::Leaf(_) => {
            let t = v.leaf_text();
            out.push(t);
            proof {
                assert(spec_strings_view(out@) =~= spec_strings_view(old(out)@)
                    + spec_value_tokens(*s, *v));
            }
        },
        Schema::Composite(fields) => {
            let children = match v {
                Value::Composite(ch) => ch,
                _ => {
                    proof {
                        assert(false);
                    }
                    return ;
                },
            };
            let ghost entry = spec_strings_view(old(out)@);
            let mut i: usize = 0;
            let n = fields.len();
            proof {
                assert(fields@.subrange(0, n as int) =~= fields@);
                assert(children@.subrange(0, n as int) =~= children@);
            }
            while i < n
                invariant
                    i <= n,
                    n == fields@.len(),
                    (*s) is Composite && *fields == (*s)->Composite_0,
                    (*v) is Composite && *children == (*v)->Composite_0,
                    spec_conforms(*v, *s),
                    entry == spec_strings_view(old(out)@),
                    spec_strings_view(out@) + spec_children_tokens(
                        fields@.subrange(i as int, n as int),
                        children@.subrange(i as int, n as int),
                    ) == entry + spec_children_tokens(fields@, children@),
                decreases n - i,
            {
                proof {
                    assert(decreases_to!(*s => fields@[i as int].schema));
                    let remf = fields@.subrange(i as int, n as int);
                    let remv = children@.subrange(i as int, n as int);
                    assert(remf[0] == fields@[i as int]);
                    assert(remv[0] == children@[i as int]);
                    assert(remf.subrange(1, remf.len() as int) =~= fields@.subrange(
                        i + 1,
                        n as int,
                    ));
                    assert(remv.subrange(1, remv.len() as int) =~= children@.subrange(
                        i + 1,
                        n as int,
                    ));
                }
                push_tokens(&fields[i].schema, &children[i], out);
                i = i + 1;
            }
            proof {
                assert(fields@.subrange(n as int, n as int) =~= Seq::<Field>::empty());
                assert(spec_strings_view(out@) + Seq::<Seq<char>>::empty() =~= spec_strings_view(
                    out@,
                ));
            }
        },
    }
}

/// The flattened row of one decoded record: one canonical text token per
/// leaf, in the identical traversal order the header flattener uses.
pub fn row_tokens(schema: &Schema, v: &Value) -> (row: Vec<String>)
    requires
        spec_conforms(*v, *schema),
    ensures
        spec_strings_view(row@) == spec_value_tokens(*schema, *v),
        row@.len() == spec_leaf_count(*schema),
{
    let mut out: Vec<String> = Vec::new();
    push_tokens(schema, v, &mut out);
    proof {
        assert(spec_strings_view(Seq::<String>::empty()) =~= Seq::<Seq<char>>::empty());
        assert(spec_strings_view(out@) =~= spec_value_tokens(*schema, *v));
        lemma_value_tokens_len(*schema, *v);
        assert(spec_strings_view(out@).len() == out@.len());
    }
    out
}

} // verus!
