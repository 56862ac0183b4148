//! What the procedures of a registry mean: which bytes stand for which
//! instance, and which instance a run of bytes stands for. Everything that
//! runs a procedure is held to these definitions.

use crate::discriminant::Discriminant;
use crate::endian::ByteOrder;
use crate::error::{Error, Number};
use crate::procedure::{DecodeProcedure, EncodeProcedure, ReadArm, ReadCode, ReadOp, WriteArm, WriteCode, WriteOp};
use crate::schema::{FieldType, IntType};
use crate::value::ValueView;
use vstd::prelude::*;

verus! {

/// One type of a registry.
#[derive(Debug, PartialEq, Eq)]
pub enum Entry {
    /// A declared record or union, with its two procedures.
    Declared { decoder: DecodeProcedure, encoder: EncodeProcedure },
    /// An optional value of the given type: one byte that says whether the
    /// value is there, and then the value if it is.
    Optional(FieldType),
}

/// Whether the type `t` may appear inside the type registered under `id`:
/// it is a primitive or was registered before.
pub open spec fn earlier(t: FieldType, id: nat) -> bool {
    t.rank() <= id
}

/// The number that stands for a discriminant in the type `ty`, if the
/// discriminant is a number of that type.
pub open spec fn number_of(d: Discriminant, ty: IntType) -> Option<Number> {
    if !ty.admits(d.value()) {
        None
    } else if ty.spec_signed() {
        Some(Number::Signed(d.value() as i128))
    } else {
        Some(Number::Unsigned(d.value() as u128))
    }
}

/// The position of the first arm at or after `start` whose discriminant is
/// the number `d`, if there is one.
pub open spec fn first_match(arms: Seq<ReadArm>, d: Number, start: int) -> Option<int>
    decreases arms.len() - start,
{
    if start < 0 || start >= arms.len() {
        None
    } else if arms[start].discriminant.value() == d.as_int() {
        Some(start)
    } else {
        first_match(arms, d, start + 1)
    }
}

/// The instance of type `ty` that the front of `bytes` stands for and the
/// number of bytes it takes, or the failure.
#[verifier::opaque]
pub open spec fn decoded(reg: Seq<Entry>, ty: FieldType, bytes: Seq<u8>, order: ByteOrder) -> Result<
    (ValueView, nat),
    Error,
>
    decreases ty.rank(), 0nat, 0nat,
{
    match ty {
        FieldType::Bool => match crate::deserialize::bool_decoded(bytes) {
            Ok((b, n)) => Ok((ValueView::Bool(b), n)),
            Err(e) => Err(e),
        },
        FieldType::Int(t) => match crate::schema::number_decoded(bytes, t, order) {
            Ok((x, n)) => Ok((ValueView::Int(x), n)),
            Err(e) => Err(e),
        },
        FieldType::Address => match crate::deserialize::address_decoded(bytes) {
            Ok((a, n)) => Ok((ValueView::Address(a), n)),
            Err(e) => Err(e),
        },
        FieldType::Ref(id) => if id >= reg.len() {
            Err(Error::UnknownType)
        } else {
            match reg[id as int] {
                Entry::Optional(inner) => if !earlier(inner, id as nat) {
                    Err(Error::UnknownType)
                } else {
                    match crate::deserialize::bool_decoded(bytes) {
                        Err(e) => Err(e),
                        Ok((false, _)) => Ok((ValueView::Optional(None), 1)),
                        Ok((true, _)) => match decoded(reg, inner, bytes.skip(1), order) {
                            Err(e) => Err(e),
                            Ok((v, n)) => Ok((ValueView::Optional(Some(Box::new(v))), n + 1)),
                        },
                    }
                },
                Entry::Declared { decoder, .. } => procedure_decoded(
                    reg,
                    id as nat,
                    decoder,
                    bytes,
                    order,
                ),
            }
        },
    }
}

/// What the decode procedure `p` of the type registered under `id` makes
/// of `bytes`.
#[verifier::opaque]
pub open spec fn procedure_decoded(
    reg: Seq<Entry>,
    id: nat,
    p: DecodeProcedure,
    bytes: Seq<u8>,
    order: ByteOrder,
) -> Result<(ValueView, nat), Error>
    decreases id, 4nat, 0nat,
{
    match p.code {
        ReadCode::Record(ops) => record_decoded(reg, id, ops@, p.trailing@, bytes, order),
        ReadCode::Union { name, pre, disc_type, post, arms } => union_decoded(
            reg,
            id,
            name,
            pre@,
            disc_type,
            post@,
            arms@,
            p.trailing@,
            bytes,
            order,
        ),
    }
}

/// What the reads for a list of fields and the trailing padding make of
/// `bytes`: the values of the fields, and the bytes taken by both.
#[verifier::opaque]
pub open spec fn fields_decoded(
    reg: Seq<Entry>,
    id: nat,
    ops: Seq<ReadOp>,
    trailing: Seq<ReadOp>,
    bytes: Seq<u8>,
    order: ByteOrder,
) -> Result<(Seq<ValueView>, nat), Error>
    decreases id, 2nat, 0nat,
{
    match ops_decoded(reg, id, ops, bytes, order) {
        Err(e) => Err(e),
        Ok((vals, n)) => match ops_decoded(reg, id, trailing, bytes.skip(n as int), order) {
            Err(e) => Err(e),
            Ok((_, m)) => Ok((vals, n + m)),
        },
    }
}

/// What a record's decode procedure makes of `bytes`: its fields, then the
/// trailing padding.
#[verifier::opaque]
pub open spec fn record_decoded(
    reg: Seq<Entry>,
    id: nat,
    ops: Seq<ReadOp>,
    trailing: Seq<ReadOp>,
    bytes: Seq<u8>,
    order: ByteOrder,
) -> Result<(ValueView, nat), Error>
    decreases id, 3nat, 0nat,
{
    match fields_decoded(reg, id, ops, trailing, bytes, order) {
        Err(e) => Err(e),
        Ok((vals, n)) => Ok((ValueView::Record(vals), n)),
    }
}

/// What the front of a union makes of `bytes`: padding, the discriminant,
/// padding. Gives the discriminant read and the bytes taken.
#[verifier::opaque]
pub open spec fn tag_decoded(
    reg: Seq<Entry>,
    id: nat,
    pre: Seq<ReadOp>,
    disc_type: IntType,
    post: Seq<ReadOp>,
    bytes: Seq<u8>,
    order: ByteOrder,
) -> Result<(Number, nat), Error>
    decreases id, 2nat, 0nat,
{
    match ops_decoded(reg, id, pre, bytes, order) {
        Err(e) => Err(e),
        Ok((_, n0)) => match crate::schema::number_decoded(bytes.skip(n0 as int), disc_type, order) {
            Err(e) => Err(e),
            Ok((d, n1)) => match ops_decoded(reg, id, post, bytes.skip((n0 + n1) as int), order) {
                Err(e) => Err(e),
                Ok((_, n2)) => Ok((d, n0 + n1 + n2)),
            },
        },
    }
}

/// What a union's decode procedure makes of `bytes`: padding, the
/// discriminant, padding, the fields of the first variant whose
/// discriminant was read, then the trailing padding. A discriminant that
/// is no variant's is refused once the padding after it has been read.
#[verifier::opaque]
pub open spec fn union_decoded(
    reg: Seq<Entry>,
    id: nat,
    name: String,
    pre: Seq<ReadOp>,
    disc_type: IntType,
    post: Seq<ReadOp>,
    arms: Seq<ReadArm>,
    trailing: Seq<ReadOp>,
    bytes: Seq<u8>,
    order: ByteOrder,
) -> Result<(ValueView, nat), Error>
    decreases id, 3nat, 0nat,
{
    match tag_decoded(reg, id, pre, disc_type, post, bytes, order) {
        Err(e) => Err(e),
        Ok((d, n)) => match first_match(arms, d, 0) {
            None => Err(Error::InvalidDiscriminant { name, value: d }),
            Some(k) => match fields_decoded(
                reg,
                id,
                arms[k].ops@,
                trailing,
                bytes.skip(n as int),
                order,
            ) {
                Err(e) => Err(e),
                Ok((vals, m)) => Ok((ValueView::Variant(k as nat, vals), n + m)),
            },
        },
    }
}

/// What [`decoded`] comes to for a declared type.
pub proof fn lemma_decoded_declared(reg: Seq<Entry>, id: nat, bytes: Seq<u8>, order: ByteOrder)
    requires
        id < reg.len(),
        id <= usize::MAX,
        reg[id as int] is Declared,
    ensures
        decoded(reg, FieldType::Ref(id as usize), bytes, order) == match reg[id as int]->decoder.code {
            ReadCode::Record(ops) => record_decoded(
                reg,
                id,
                ops@,
                reg[id as int]->decoder.trailing@,
                bytes,
                order,
            ),
            ReadCode::Union { name, pre, disc_type, post, arms } => union_decoded(
                reg,
                id,
                name,
                pre@,
                disc_type,
                post@,
                arms@,
                reg[id as int]->decoder.trailing@,
                bytes,
                order,
            ),
        },
{
    let p = reg[id as int]->decoder;
    assert(decoded(reg, FieldType::Ref(id as usize), bytes, order) == procedure_decoded(
        reg,
        id,
        p,
        bytes,
        order,
    )) by {
        reveal(decoded);
        reveal(procedure_decoded);
    }
    assert(procedure_decoded(reg, id, p, bytes, order) == match p.code {
        ReadCode::Record(ops) => record_decoded(reg, id, ops@, p.trailing@, bytes, order),
        ReadCode::Union { name, pre, disc_type, post, arms } => union_decoded(
            reg,
            id,
            name,
            pre@,
            disc_type,
            post@,
            arms@,
            p.trailing@,
            bytes,
            order,
        ),
    }) by {
        reveal(procedure_decoded);
        reveal(record_decoded);
        reveal(union_decoded);
    }
}

/// [`fields_decoded`], written out.
pub proof fn lemma_fields_decoded(
    reg: Seq<Entry>,
    id: nat,
    ops: Seq<ReadOp>,
    trailing: Seq<ReadOp>,
    bytes: Seq<u8>,
    order: ByteOrder,
)
    ensures
        fields_decoded(reg, id, ops, trailing, bytes, order) == match ops_decoded(
            reg,
            id,
            ops,
            bytes,
            order,
        ) {
            Err(e) => Err(e),
            Ok((vals, n)) => match ops_decoded(reg, id, trailing, bytes.skip(n as int), order) {
                Err(e) => Err(e),
                Ok((_, m)) => Ok((vals, n + m)),
            },
        },
{
    reveal(fields_decoded);
    reveal(ops_decoded);
}

/// [`record_decoded`], written out.
pub proof fn lemma_record_decoded(
    reg: Seq<Entry>,
    id: nat,
    ops: Seq<ReadOp>,
    trailing: Seq<ReadOp>,
    bytes: Seq<u8>,
    order: ByteOrder,
)
    ensures
        record_decoded(reg, id, ops, trailing, bytes, order) == match fields_decoded(
            reg,
            id,
            ops,
            trailing,
            bytes,
            order,
        ) {
            Err(e) => Err(e),
            Ok((vals, n)) => Ok((ValueView::Record(vals), n)),
        },
{
    reveal(record_decoded);
    reveal(fields_decoded);
}

/// [`tag_decoded`], written out.
pub proof fn lemma_tag_decoded(
    reg: Seq<Entry>,
    id: nat,
    pre: Seq<ReadOp>,
    disc_type: IntType,
    post: Seq<ReadOp>,
    bytes: Seq<u8>,
    order: ByteOrder,
)
    ensures
        tag_decoded(reg, id, pre, disc_type, post, bytes, order) == match ops_decoded(
            reg,
            id,
            pre,
            bytes,
            order,
        ) {
            Err(e) => Err(e),
            Ok((_, n0)) => match crate::schema::number_decoded(
                bytes.skip(n0 as int),
                disc_type,
                order,
            ) {
                Err(e) => Err(e),
                Ok((d, n1)) => match ops_decoded(
                    reg,
                    id,
                    post,
                    bytes.skip((n0 + n1) as int),
                    order,
                ) {
                    Err(e) => Err(e),
                    Ok((_, n2)) => Ok((d, n0 + n1 + n2)),
                },
            },
        },
{
    reveal(tag_decoded);
    reveal(ops_decoded);
}

/// [`union_decoded`], written out.
pub proof fn lemma_union_decoded(
    reg: Seq<Entry>,
    id: nat,
    name: String,
    pre: Seq<ReadOp>,
    disc_type: IntType,
    post: Seq<ReadOp>,
    arms: Seq<ReadArm>,
    trailing: Seq<ReadOp>,
    bytes: Seq<u8>,
    order: ByteOrder,
)
    ensures
        union_decoded(reg, id, name, pre, disc_type, post, arms, trailing, bytes, order)
            == match tag_decoded(reg, id, pre, disc_type, post, bytes, order) {
            Err(e) => Err(e),
            Ok((d, n)) => match first_match(arms, d, 0) {
                None => Err(Error::InvalidDiscriminant { name, value: d }),
                Some(k) => match fields_decoded(
                    reg,
                    id,
                    arms[k].ops@,
                    trailing,
                    bytes.skip(n as int),
                    order,
                ) {
                    Err(e) => Err(e),
                    Ok((vals, m)) => Ok((ValueView::Variant(k as nat, vals), n + m)),
                },
            },
        },
{
    reveal(union_decoded);
    reveal(tag_decoded);
    reveal(fields_decoded);
}

/// What a run of reads makes of `bytes`: the values read, in order, and
/// the number of bytes taken. The reads are done strictly in order; the
/// first that fails ends the run. `bound` is the index of the type that
/// the reads belong to.
#[verifier::opaque]
pub open spec fn ops_decoded(
    reg: Seq<Entry>,
    bound: nat,
    ops: Seq<ReadOp>,
    bytes: Seq<u8>,
    order: ByteOrder,
) -> Result<(Seq<ValueView>, nat), Error>
    decreases bound, 1nat, ops.len(),
{
    if ops.len() == 0 {
        Ok((Seq::empty(), 0))
    } else {
        match ops[0] {
            ReadOp::Skip(k) => if bytes.len() < k {
                Err(Error::ShortRead)
            } else {
                match ops_decoded(reg, bound, ops.drop_first(), bytes.skip(k as int), order) {
                    Err(e) => Err(e),
                    Ok((vals, n)) => Ok((vals, k as nat + n)),
                }
            },
            ReadOp::Value(t) => if !earlier(t, bound) {
                Err(Error::UnknownType)
            } else {
                match decoded(reg, t, bytes, order) {
                    Err(e) => Err(e),
                    Ok((v, m)) => match ops_decoded(
                        reg,
                        bound,
                        ops.drop_first(),
                        bytes.skip(m as int),
                        order,
                    ) {
                        Err(e) => Err(e),
                        Ok((vals, n)) => Ok((seq![v] + vals, m + n)),
                    },
                }
            },
        }
    }
}

/// [`ops_decoded`], written out.
pub proof fn lemma_ops_decoded(
    reg: Seq<Entry>,
    bound: nat,
    ops: Seq<ReadOp>,
    bytes: Seq<u8>,
    order: ByteOrder,
)
    ensures
        ops_decoded(reg, bound, ops, bytes, order) == if ops.len() == 0 {
            Ok::<(Seq<ValueView>, nat), Error>((Seq::empty(), 0))
        } else {
            match ops[0] {
                ReadOp::Skip(k) => if bytes.len() < k {
                    Err(Error::ShortRead)
                } else {
                    match ops_decoded(reg, bound, ops.drop_first(), bytes.skip(k as int), order) {
                        Err(e) => Err(e),
                        Ok((vals, n)) => Ok((vals, k as nat + n)),
                    }
                },
                ReadOp::Value(t) => if !earlier(t, bound) {
                    Err(Error::UnknownType)
                } else {
                    match decoded(reg, t, bytes, order) {
                        Err(e) => Err(e),
                        Ok((v, m)) => match ops_decoded(
                            reg,
                            bound,
                            ops.drop_first(),
                            bytes.skip(m as int),
                            order,
                        ) {
                            Err(e) => Err(e),
                            Ok((vals, n)) => Ok((seq![v] + vals, m + n)),
                        },
                    }
                },
            }
        },
{
    reveal(ops_decoded);
    reveal(decoded);
}

/// The bytes that stand for the instance `v` of type `ty`.
#[verifier::opaque]
pub open spec fn encoding(reg: Seq<Entry>, ty: FieldType, v: ValueView, order: ByteOrder) -> Seq<u8>
    decreases ty.rank(), 0nat, 0nat,
{
    match ty {
        FieldType::Bool => match v {
            ValueView::Bool(b) => crate::serialize::bool_encoding(b),
            _ => Seq::empty(),
        },
        FieldType::Int(t) => match v {
            ValueView::Int(n) => crate::schema::number_bytes(n, t, order),
            _ => Seq::empty(),
        },
        FieldType::Address => match v {
            ValueView::Address(a) => a@,
            _ => Seq::empty(),
        },
        FieldType::Ref(id) => if id >= reg.len() {
            Seq::empty()
        } else {
            match reg[id as int] {
                Entry::Optional(inner) => if !earlier(inner, id as nat) {
                    Seq::empty()
                } else {
                    match v {
                        ValueView::Optional(None) => seq![0u8],
                        ValueView::Optional(Some(x)) => seq![1u8] + encoding(reg, inner, *x, order),
                        _ => Seq::empty(),
                    }
                },
                Entry::Declared { encoder, .. } => procedure_encoding(
                    reg,
                    id as nat,
                    encoder,
                    v,
                    order,
                ),
            }
        },
    }
}

/// The bytes that stand for a discriminant in the type `ty`.
pub open spec fn discriminant_bytes(d: Discriminant, ty: IntType, order: ByteOrder) -> Seq<u8> {
    match number_of(d, ty) {
        Some(n) => crate::schema::number_bytes(n, ty, order),
        None => Seq::empty(),
    }
}

/// The bytes that the encode procedure `p` of the type registered under
/// `id` writes for `v`.
#[verifier::opaque]
pub open spec fn procedure_encoding(
    reg: Seq<Entry>,
    id: nat,
    p: EncodeProcedure,
    v: ValueView,
    order: ByteOrder,
) -> Seq<u8>
    decreases id, 3nat, 0nat,
{
    match p.code {
        WriteCode::Record(ops) => match v {
            ValueView::Record(vals) => record_encoding(reg, id, ops@, p.trailing@, vals, order),
            _ => Seq::empty(),
        },
        WriteCode::Union { pre, disc_type, post, arms } => match v {
            ValueView::Variant(k, vals) => if k < arms@.len() {
                union_encoding(
                    reg,
                    id,
                    pre@,
                    disc_type,
                    post@,
                    arms@[k as int],
                    p.trailing@,
                    vals,
                    order,
                )
            } else {
                Seq::empty()
            },
            _ => Seq::empty(),
        },
    }
}

/// The bytes of a record: its fields, then the trailing padding.
#[verifier::opaque]
pub open spec fn record_encoding(
    reg: Seq<Entry>,
    id: nat,
    ops: Seq<WriteOp>,
    trailing: Seq<WriteOp>,
    vals: Seq<ValueView>,
    order: ByteOrder,
) -> Seq<u8>
    decreases id, 2nat, 0nat,
{
    ops_encoding(reg, id, ops, vals, order) + ops_encoding(reg, id, trailing, Seq::empty(), order)
}

/// The bytes of an instance of a union's variant: padding, the variant's
/// discriminant, padding, the variant's fields, then the trailing padding.
#[verifier::opaque]
pub open spec fn union_encoding(
    reg: Seq<Entry>,
    id: nat,
    pre: Seq<WriteOp>,
    disc_type: IntType,
    post: Seq<WriteOp>,
    arm: WriteArm,
    trailing: Seq<WriteOp>,
    vals: Seq<ValueView>,
    order: ByteOrder,
) -> Seq<u8>
    decreases id, 2nat, 0nat,
{
    ops_encoding(reg, id, pre, Seq::empty(), order) + discriminant_bytes(
        arm.discriminant,
        disc_type,
        order,
    ) + ops_encoding(reg, id, post, Seq::empty(), order) + ops_encoding(
        reg,
        id,
        arm.ops@,
        vals,
        order,
    ) + ops_encoding(reg, id, trailing, Seq::empty(), order)
}

/// The bytes that a run of writes produces from the values `vals`: each
/// write in order, a run of zeros for padding and the next value's bytes
/// for a value.
#[verifier::opaque]
pub open spec fn ops_encoding(
    reg: Seq<Entry>,
    bound: nat,
    ops: Seq<WriteOp>,
    vals: Seq<ValueView>,
    order: ByteOrder,
) -> Seq<u8>
    decreases bound, 1nat, ops.len(),
{
    if ops.len() == 0 {
        Seq::empty()
    } else {
        match ops[0] {
            WriteOp::Zeros(n) => crate::write::zeros(n as nat) + ops_encoding(
                reg,
                bound,
                ops.drop_first(),
                vals,
                order,
            ),
            WriteOp::Value(t) => if earlier(t, bound) && vals.len() > 0 {
                encoding(reg, t, vals[0], order) + ops_encoding(
                    reg,
                    bound,
                    ops.drop_first(),
                    vals.drop_first(),
                    order,
                )
            } else {
                Seq::empty()
            },
        }
    }
}

/// [`ops_encoding`], written out.
pub proof fn lemma_ops_encoding(
    reg: Seq<Entry>,
    bound: nat,
    ops: Seq<WriteOp>,
    vals: Seq<ValueView>,
    order: ByteOrder,
)
    ensures
        ops_encoding(reg, bound, ops, vals, order) == if ops.len() == 0 {
            Seq::<u8>::empty()
        } else {
            match ops[0] {
                WriteOp::Zeros(n) => crate::write::zeros(n as nat) + ops_encoding(
                    reg,
                    bound,
                    ops.drop_first(),
                    vals,
                    order,
                ),
                WriteOp::Value(t) => if earlier(t, bound) && vals.len() > 0 {
                    encoding(reg, t, vals[0], order) + ops_encoding(
                        reg,
                        bound,
                        ops.drop_first(),
                        vals.drop_first(),
                        order,
                    )
                } else {
                    Seq::<u8>::empty()
                },
            }
        },
{
    reveal(ops_encoding);
    reveal(encoding);
}

/// What [`encoding`] comes to for an instance of a declared record.
pub proof fn lemma_encoding_record(
    reg: Seq<Entry>,
    id: nat,
    vals: Seq<ValueView>,
    order: ByteOrder,
)
    requires
        id < reg.len(),
        id <= usize::MAX,
        reg[id as int] is Declared,
        reg[id as int]->encoder.code is Record,
    ensures
        encoding(reg, FieldType::Ref(id as usize), ValueView::Record(vals), order) == ops_encoding(
            reg,
            id,
            reg[id as int]->encoder.code->Record_0@,
            vals,
            order,
        ) + ops_encoding(reg, id, reg[id as int]->encoder.trailing@, Seq::empty(), order),
{
    let p = reg[id as int]->encoder;
    let v = ValueView::Record(vals);
    assert(encoding(reg, FieldType::Ref(id as usize), v, order) == procedure_encoding(
        reg,
        id,
        p,
        v,
        order,
    )) by {
        reveal(encoding);
        reveal(procedure_encoding);
    }
    assert(procedure_encoding(reg, id, p, v, order) == record_encoding(
        reg,
        id,
        p.code->Record_0@,
        p.trailing@,
        vals,
        order,
    )) by {
        reveal(procedure_encoding);
        reveal(record_encoding);
    }
    assert(record_encoding(reg, id, p.code->Record_0@, p.trailing@, vals, order) == ops_encoding(
        reg,
        id,
        p.code->Record_0@,
        vals,
        order,
    ) + ops_encoding(reg, id, p.trailing@, Seq::empty(), order)) by {
        reveal(record_encoding);
        reveal(ops_encoding);
    }
}

/// What [`encoding`] comes to for an instance of a variant of a declared
/// union.
pub proof fn lemma_encoding_variant(
    reg: Seq<Entry>,
    id: nat,
    k: nat,
    vals: Seq<ValueView>,
    order: ByteOrder,
)
    requires
        id < reg.len(),
        id <= usize::MAX,
        reg[id as int] is Declared,
        reg[id as int]->encoder.code is Union,
        k < reg[id as int]->encoder.code->arms@.len(),
    ensures
        encoding(reg, FieldType::Ref(id as usize), ValueView::Variant(k, vals), order) == {
            let p = reg[id as int]->encoder;
            let arm = p.code->arms@[k as int];
            ops_encoding(reg, id, p.code->pre@, Seq::empty(), order) + discriminant_bytes(
                arm.discriminant,
                p.code->disc_type,
                order,
            ) + ops_encoding(reg, id, p.code->post@, Seq::empty(), order) + ops_encoding(
                reg,
                id,
                arm.ops@,
                vals,
                order,
            ) + ops_encoding(reg, id, p.trailing@, Seq::empty(), order)
        },
{
    let p = reg[id as int]->encoder;
    let arm = p.code->arms@[k as int];
    let v = ValueView::Variant(k, vals);
    assert(encoding(reg, FieldType::Ref(id as usize), v, order) == procedure_encoding(
        reg,
        id,
        p,
        v,
        order,
    )) by {
        reveal(encoding);
        reveal(procedure_encoding);
    }
    assert(procedure_encoding(reg, id, p, v, order) == union_encoding(
        reg,
        id,
        p.code->pre@,
        p.code->disc_type,
        p.code->post@,
        arm,
        p.trailing@,
        vals,
        order,
    )) by {
        reveal(procedure_encoding);
        reveal(union_encoding);
    }
    assert(union_encoding(
        reg,
        id,
        p.code->pre@,
        p.code->disc_type,
        p.code->post@,
        arm,
        p.trailing@,
        vals,
        order,
    ) == ops_encoding(reg, id, p.code->pre@, Seq::empty(), order) + discriminant_bytes(
        arm.discriminant,
        p.code->disc_type,
        order,
    ) + ops_encoding(reg, id, p.code->post@, Seq::empty(), order) + ops_encoding(
        reg,
        id,
        arm.ops@,
        vals,
        order,
    ) + ops_encoding(reg, id, p.trailing@, Seq::empty(), order)) by {
        reveal(union_encoding);
        reveal(ops_encoding);
    }
}

/// Whether `v` is an instance of the type `ty`.
#[verifier::opaque]
pub open spec fn conforms(reg: Seq<Entry>, ty: FieldType, v: ValueView) -> bool
    decreases ty.rank(), 0nat, 0nat,
{
    match ty {
        FieldType::Bool => v is Bool,
        FieldType::Int(t) => v matches ValueView::Int(n) && t.holds(n),
        FieldType::Address => v is Address,
        FieldType::Ref(id) => id < reg.len() && match reg[id as int] {
            Entry::Optional(inner) => earlier(inner, id as nat) && match v {
                ValueView::Optional(None) => true,
                ValueView::Optional(Some(x)) => conforms(reg, inner, *x),
                _ => false,
            },
            Entry::Declared { encoder, .. } => procedure_conforms(reg, id as nat, encoder, v),
        },
    }
}

/// Whether `v` is an instance of the declared type whose encode procedure
/// is `p`: a record with a value for every field, or one of the union's
/// variants with a value for every field of that variant.
#[verifier::opaque]
pub open spec fn procedure_conforms(reg: Seq<Entry>, id: nat, p: EncodeProcedure, v: ValueView) -> bool
    decreases id, 3nat, 0nat,
{
    match p.code {
        WriteCode::Record(ops) => v matches ValueView::Record(vals) && ops_conform(
            reg,
            id,
            ops@,
            vals,
        ),
        WriteCode::Union { arms, .. } => v matches ValueView::Variant(k, vals) && k < arms@.len()
            && ops_conform(reg, id, arms@[k as int].ops@, vals),
    }
}

/// Whether `vals` are the values that a run of writes asks for: one for
/// each value written, in order and of its type, and none besides.
#[verifier::opaque]
pub open spec fn ops_conform(reg: Seq<Entry>, bound: nat, ops: Seq<WriteOp>, vals: Seq<ValueView>) -> bool
    decreases bound, 1nat, ops.len(),
{
    if ops.len() == 0 {
        vals.len() == 0
    } else {
        match ops[0] {
            WriteOp::Zeros(_) => ops_conform(reg, bound, ops.drop_first(), vals),
            WriteOp::Value(t) => earlier(t, bound) && vals.len() > 0 && conforms(reg, t, vals[0])
                && ops_conform(reg, bound, ops.drop_first(), vals.drop_first()),
        }
    }
}

/// [`ops_conform`], written out.
pub proof fn lemma_ops_conform(reg: Seq<Entry>, bound: nat, ops: Seq<WriteOp>, vals: Seq<ValueView>)
    ensures
        ops_conform(reg, bound, ops, vals) == if ops.len() == 0 {
            vals.len() == 0
        } else {
            match ops[0] {
                WriteOp::Zeros(_) => ops_conform(reg, bound, ops.drop_first(), vals),
                WriteOp::Value(t) => earlier(t, bound) && vals.len() > 0 && conforms(
                    reg,
                    t,
                    vals[0],
                ) && ops_conform(reg, bound, ops.drop_first(), vals.drop_first()),
            }
        },
{
    reveal(ops_conform);
    reveal(conforms);
}

/// What [`conforms`] comes to for a declared type.
pub proof fn lemma_conforms_declared(reg: Seq<Entry>, id: nat, v: ValueView)
    requires
        id < reg.len(),
        id <= usize::MAX,
        reg[id as int] is Declared,
    ensures
        conforms(reg, FieldType::Ref(id as usize), v) == match reg[id as int]->encoder.code {
            WriteCode::Record(ops) => v matches ValueView::Record(vals) && ops_conform(
                reg,
                id,
                ops@,
                vals,
            ),
            WriteCode::Union { arms, .. } => v matches ValueView::Variant(k, vals) && k
                < arms@.len() && ops_conform(reg, id, arms@[k as int].ops@, vals),
        },
{
    let p = reg[id as int]->encoder;
    assert(conforms(reg, FieldType::Ref(id as usize), v) == procedure_conforms(reg, id, p, v)) by {
        reveal(conforms);
        reveal(procedure_conforms);
    }
    assert(procedure_conforms(reg, id, p, v) == match p.code {
        WriteCode::Record(ops) => v matches ValueView::Record(vals) && ops_conform(
            reg,
            id,
            ops@,
            vals,
        ),
        WriteCode::Union { arms, .. } => v matches ValueView::Variant(k, vals) && k < arms@.len()
            && ops_conform(reg, id, arms@[k as int].ops@, vals),
    }) by {
        reveal(procedure_conforms);
        reveal(ops_conform);
    }
}

/// A run of padding asks for no values.
pub proof fn lemma_padding_conforms(reg: Seq<Entry>, bound: nat, ops: Seq<WriteOp>)
    requires
        padding_only(ops),
    ensures
        ops_conform(reg, bound, ops, Seq::empty()),
    decreases ops.len(),
{
    lemma_ops_conform(reg, bound, ops, Seq::empty());
    if ops.len() > 0 {
        lemma_padding_conforms(reg, bound, ops.drop_first());
    }
}

/// Whether decoding can tell which variant `v` is, and so for every union
/// inside `v`: no variant declared before the instance's own has the same
/// discriminant. Decoding takes the first variant that matches, so an
/// instance of a later variant with the same discriminant does not come
/// back as itself.
#[verifier::opaque]
pub open spec fn unambiguous(reg: Seq<Entry>, ty: FieldType, v: ValueView) -> bool
    decreases ty.rank(), 0nat, 0nat,
{
    match ty {
        FieldType::Ref(id) => id < reg.len() ==> match reg[id as int] {
            Entry::Optional(inner) => earlier(inner, id as nat) ==> match v {
                ValueView::Optional(Some(x)) => unambiguous(reg, inner, *x),
                _ => true,
            },
            Entry::Declared { encoder, .. } => procedure_unambiguous(reg, id as nat, encoder, v),
        },
        _ => true,
    }
}

/// [`unambiguous`] for an instance of a declared type.
#[verifier::opaque]
pub open spec fn procedure_unambiguous(
    reg: Seq<Entry>,
    id: nat,
    p: EncodeProcedure,
    v: ValueView,
) -> bool
    decreases id, 3nat, 0nat,
{
    match p.code {
        WriteCode::Record(ops) => v matches ValueView::Record(vals) ==> ops_unambiguous(
            reg,
            id,
            ops@,
            vals,
        ),
        WriteCode::Union { arms, .. } => v matches ValueView::Variant(k, vals) ==> k < arms@.len()
            ==> {
            &&& forall|j: int|
                0 <= j < k ==> (#[trigger] arms@[j]).discriminant.value() != arms@[k as int].discriminant.value()
            &&& ops_unambiguous(reg, id, arms@[k as int].ops@, vals)
        },
    }
}

/// [`unambiguous`] for the values of a run of writes.
#[verifier::opaque]
pub open spec fn ops_unambiguous(
    reg: Seq<Entry>,
    bound: nat,
    ops: Seq<WriteOp>,
    vals: Seq<ValueView>,
) -> bool
    decreases bound, 1nat, ops.len(),
{
    if ops.len() == 0 {
        true
    } else {
        match ops[0] {
            WriteOp::Zeros(_) => ops_unambiguous(reg, bound, ops.drop_first(), vals),
            WriteOp::Value(t) => earlier(t, bound) && vals.len() > 0 ==> unambiguous(
                reg,
                t,
                vals[0],
            ) && ops_unambiguous(reg, bound, ops.drop_first(), vals.drop_first()),
        }
    }
}

/// [`ops_unambiguous`], written out.
pub proof fn lemma_ops_unambiguous(
    reg: Seq<Entry>,
    bound: nat,
    ops: Seq<WriteOp>,
    vals: Seq<ValueView>,
)
    ensures
        ops_unambiguous(reg, bound, ops, vals) == if ops.len() == 0 {
            true
        } else {
            match ops[0] {
                WriteOp::Zeros(_) => ops_unambiguous(reg, bound, ops.drop_first(), vals),
                WriteOp::Value(t) => earlier(t, bound) && vals.len() > 0 ==> unambiguous(
                    reg,
                    t,
                    vals[0],
                ) && ops_unambiguous(reg, bound, ops.drop_first(), vals.drop_first()),
            }
        },
{
    reveal(ops_unambiguous);
    reveal(unambiguous);
}

/// What [`unambiguous`] comes to for a declared type.
pub proof fn lemma_unambiguous_declared(reg: Seq<Entry>, id: nat, v: ValueView)
    requires
        id < reg.len(),
        id <= usize::MAX,
        reg[id as int] is Declared,
    ensures
        unambiguous(reg, FieldType::Ref(id as usize), v) == match reg[id as int]->encoder.code {
            WriteCode::Record(ops) => v matches ValueView::Record(vals) ==> ops_unambiguous(
                reg,
                id,
                ops@,
                vals,
            ),
            WriteCode::Union { arms, .. } => v matches ValueView::Variant(k, vals) ==> k
                < arms@.len() ==> {
                &&& forall|j: int|
                    0 <= j < k ==> (#[trigger] arms@[j]).discriminant.value() != arms@[k as int].discriminant.value()
                &&& ops_unambiguous(reg, id, arms@[k as int].ops@, vals)
            },
        },
{
    let p = reg[id as int]->encoder;
    assert(unambiguous(reg, FieldType::Ref(id as usize), v) == procedure_unambiguous(
        reg,
        id,
        p,
        v,
    )) by {
        reveal(unambiguous);
        reveal(procedure_unambiguous);
    }
    assert(procedure_unambiguous(reg, id, p, v) == match p.code {
        WriteCode::Record(ops) => v matches ValueView::Record(vals) ==> ops_unambiguous(
            reg,
            id,
            ops@,
            vals,
        ),
        WriteCode::Union { arms, .. } => v matches ValueView::Variant(k, vals) ==> k < arms@.len()
            ==> {
            &&& forall|j: int|
                0 <= j < k ==> (#[trigger] arms@[j]).discriminant.value() != arms@[k as int].discriminant.value()
            &&& ops_unambiguous(reg, id, arms@[k as int].ops@, vals)
        },
    }) by {
        reveal(procedure_unambiguous);
        reveal(ops_unambiguous);
    }
}

/// A run of padding holds no union to mistake.
pub proof fn lemma_padding_unambiguous(reg: Seq<Entry>, bound: nat, ops: Seq<WriteOp>)
    requires
        padding_only(ops),
    ensures
        ops_unambiguous(reg, bound, ops, Seq::empty()),
    decreases ops.len(),
{
    lemma_ops_unambiguous(reg, bound, ops, Seq::empty());
    if ops.len() > 0 {
        lemma_padding_unambiguous(reg, bound, ops.drop_first());
    }
}

/// Whether the two byte orders write `v` as the same bytes: every integer
/// in it, the discriminants of unions included, is written the same in
/// both. A one-byte integer always is; a wider one is where its bytes read
/// the same in both directions.
#[verifier::opaque]
pub open spec fn order_free(reg: Seq<Entry>, ty: FieldType, v: ValueView) -> bool
    decreases ty.rank(), 0nat, 0nat,
{
    match ty {
        FieldType::Int(t) => v matches ValueView::Int(n) ==> crate::schema::number_bytes(
            n,
            t,
            ByteOrder::Big,
        ) == crate::schema::number_bytes(n, t, ByteOrder::Little),
        FieldType::Ref(id) => id < reg.len() ==> match reg[id as int] {
            Entry::Optional(inner) => earlier(inner, id as nat) ==> match v {
                ValueView::Optional(Some(x)) => order_free(reg, inner, *x),
                _ => true,
            },
            Entry::Declared { encoder, .. } => procedure_order_free(reg, id as nat, encoder, v),
        },
        _ => true,
    }
}

/// [`order_free`] for an instance of a declared type.
#[verifier::opaque]
pub open spec fn procedure_order_free(reg: Seq<Entry>, id: nat, p: EncodeProcedure, v: ValueView) -> bool
    decreases id, 3nat, 0nat,
{
    match p.code {
        WriteCode::Record(ops) => v matches ValueView::Record(vals) ==> ops_order_free(
            reg,
            id,
            ops@,
            vals,
        ),
        WriteCode::Union { disc_type, arms, .. } => v matches ValueView::Variant(k, vals) ==> k
            < arms@.len() ==> {
            &&& discriminant_bytes(arms@[k as int].discriminant, disc_type, ByteOrder::Big)
                == discriminant_bytes(arms@[k as int].discriminant, disc_type, ByteOrder::Little)
            &&& ops_order_free(reg, id, arms@[k as int].ops@, vals)
        },
    }
}

/// [`order_free`] for the values of a run of writes.
#[verifier::opaque]
pub open spec fn ops_order_free(reg: Seq<Entry>, bound: nat, ops: Seq<WriteOp>, vals: Seq<ValueView>) -> bool
    decreases bound, 1nat, ops.len(),
{
    if ops.len() == 0 {
        true
    } else {
        match ops[0] {
            WriteOp::Zeros(_) => ops_order_free(reg, bound, ops.drop_first(), vals),
            WriteOp::Value(t) => earlier(t, bound) && vals.len() > 0 ==> order_free(
                reg,
                t,
                vals[0],
            ) && ops_order_free(reg, bound, ops.drop_first(), vals.drop_first()),
        }
    }
}

/// [`ops_order_free`], written out.
pub proof fn lemma_ops_order_free(reg: Seq<Entry>, bound: nat, ops: Seq<WriteOp>, vals: Seq<ValueView>)
    ensures
        ops_order_free(reg, bound, ops, vals) == if ops.len() == 0 {
            true
        } else {
            match ops[0] {
                WriteOp::Zeros(_) => ops_order_free(reg, bound, ops.drop_first(), vals),
                WriteOp::Value(t) => earlier(t, bound) && vals.len() > 0 ==> order_free(
                    reg,
                    t,
                    vals[0],
                ) && ops_order_free(reg, bound, ops.drop_first(), vals.drop_first()),
            }
        },
{
    reveal(ops_order_free);
    reveal(order_free);
}

/// What [`order_free`] comes to for a declared type.
pub proof fn lemma_order_free_declared(reg: Seq<Entry>, id: nat, v: ValueView)
    requires
        id < reg.len(),
        id <= usize::MAX,
        reg[id as int] is Declared,
    ensures
        order_free(reg, FieldType::Ref(id as usize), v) == match reg[id as int]->encoder.code {
            WriteCode::Record(ops) => v matches ValueView::Record(vals) ==> ops_order_free(
                reg,
                id,
                ops@,
                vals,
            ),
            WriteCode::Union { disc_type, arms, .. } => v matches ValueView::Variant(k, vals)
                ==> k < arms@.len() ==> {
                &&& discriminant_bytes(arms@[k as int].discriminant, disc_type, ByteOrder::Big)
                    == discriminant_bytes(
                    arms@[k as int].discriminant,
                    disc_type,
                    ByteOrder::Little,
                )
                &&& ops_order_free(reg, id, arms@[k as int].ops@, vals)
            },
        },
{
    let p = reg[id as int]->encoder;
    assert(order_free(reg, FieldType::Ref(id as usize), v) == procedure_order_free(reg, id, p, v))
        by {
        reveal(order_free);
        reveal(procedure_order_free);
    }
    assert(procedure_order_free(reg, id, p, v) == match p.code {
        WriteCode::Record(ops) => v matches ValueView::Record(vals) ==> ops_order_free(
            reg,
            id,
            ops@,
            vals,
        ),
        WriteCode::Union { disc_type, arms, .. } => v matches ValueView::Variant(k, vals) ==> k
            < arms@.len() ==> {
            &&& discriminant_bytes(arms@[k as int].discriminant, disc_type, ByteOrder::Big)
                == discriminant_bytes(arms@[k as int].discriminant, disc_type, ByteOrder::Little)
            &&& ops_order_free(reg, id, arms@[k as int].ops@, vals)
        },
    }) by {
        reveal(procedure_order_free);
        reveal(ops_order_free);
    }
}

/// Whether the discriminants of the arms all differ.
pub open spec fn arms_distinct(arms: Seq<WriteArm>) -> bool {
    forall|i: int, j: int|
        0 <= i < j < arms.len() ==> (#[trigger] arms[i]).discriminant.value() != (#[trigger] arms[j]).discriminant.value()
}

/// Whether the type registered under `id` is one that decoding always
/// tells the variants of: a record, an optional value, or a union whose
/// discriminants all differ.
pub open spec fn distinct_at(reg: Seq<Entry>, id: int) -> bool {
    match reg[id] {
        Entry::Declared { encoder, .. } => match encoder.code {
            WriteCode::Union { arms, .. } => arms_distinct(arms@),
            WriteCode::Record(_) => true,
        },
        Entry::Optional(_) => true,
    }
}

/// Whether the discriminants of every union in the registry all differ.
pub open spec fn distinct(reg: Seq<Entry>) -> bool {
    forall|id: int| 0 <= id < reg.len() ==> #[trigger] distinct_at(reg, id)
}

/// The write that mirrors a read: zeros where padding is passed over, and
/// a value of the same type where one is read.
pub open spec fn mirror(op: ReadOp) -> WriteOp {
    match op {
        ReadOp::Skip(n) => WriteOp::Zeros(n),
        ReadOp::Value(t) => WriteOp::Value(t),
    }
}

/// Whether a run of writes mirrors a run of reads, step by step.
pub open spec fn mirrors(reads: Seq<ReadOp>, writes: Seq<WriteOp>) -> bool {
    &&& writes.len() == reads.len()
    &&& forall|i: int| 0 <= i < reads.len() ==> #[trigger] writes[i] == mirror(reads[i])
}

/// Whether the arms of an encode procedure mirror those of a decode
/// procedure: the same discriminants over mirrored runs.
pub open spec fn arms_mirror(reads: Seq<ReadArm>, writes: Seq<WriteArm>) -> bool {
    &&& writes.len() == reads.len()
    &&& forall|i: int|
        0 <= i < reads.len() ==> (#[trigger] writes[i]).discriminant == reads[i].discriminant
            && mirrors(reads[i].ops@, writes[i].ops@)
}

/// Whether two procedures are each other's dual: what the one reads, the
/// other writes, in the same order.
pub open spec fn dual(decoder: DecodeProcedure, encoder: EncodeProcedure) -> bool {
    &&& mirrors(decoder.trailing@, encoder.trailing@)
    &&& match (decoder.code, encoder.code) {
        (ReadCode::Record(reads), WriteCode::Record(writes)) => mirrors(reads@, writes@),
        (
            ReadCode::Union { name, pre, disc_type, post, arms },
            WriteCode::Union { pre: wpre, disc_type: wdisc_type, post: wpost, arms: warms },
        ) => {
            &&& mirrors(pre@, wpre@)
            &&& disc_type == wdisc_type
            &&& mirrors(post@, wpost@)
            &&& arms_mirror(arms@, warms@)
        },
        _ => false,
    }
}

/// Whether every value written by a run of writes is of a type that may
/// appear inside the type registered under `id`.
pub open spec fn ops_earlier(ops: Seq<WriteOp>, id: nat) -> bool {
    forall|i: int| 0 <= i < ops.len() ==> (#[trigger] ops[i] matches WriteOp::Value(t) ==> earlier(t, id))
}

/// Whether a run of writes is padding only.
pub open spec fn padding_only(ops: Seq<WriteOp>) -> bool {
    forall|i: int| 0 <= i < ops.len() ==> #[trigger] ops[i] is Zeros
}

/// Whether an encode procedure can stand in a registry under `id`: its
/// fields are of types known by then, the runs for padding hold padding
/// only, and every variant's discriminant is a number of the discriminant
/// type.
pub open spec fn sound(encoder: EncodeProcedure, id: nat) -> bool {
    &&& padding_only(encoder.trailing@)
    &&& match encoder.code {
        WriteCode::Record(ops) => ops_earlier(ops@, id),
        WriteCode::Union { pre, disc_type, post, arms } => {
            &&& padding_only(pre@)
            &&& padding_only(post@)
            &&& forall|k: int|
                0 <= k < arms@.len() ==> ops_earlier((#[trigger] arms@[k]).ops@, id) && disc_type.admits(
                    arms@[k].discriminant.value(),
                )
        },
    }
}

/// Whether the entries make up a registry: every type is built from types
/// registered before it, the two procedures of every declared type are
/// each other's dual, and the encode procedure of every declared type is
/// sound (see [`sound`]).
pub open spec fn well_formed(reg: Seq<Entry>) -> bool {
    forall|id: int|
        0 <= id < reg.len() ==> match #[trigger] reg[id] {
            Entry::Optional(inner) => earlier(inner, id as nat),
            Entry::Declared { decoder, encoder } => dual(decoder, encoder) && sound(
                encoder,
                id as nat,
            ),
        }
}

/// Whether every type in a list may appear inside the type registered
/// under `id`.
pub open spec fn all_earlier(types: Seq<FieldType>, id: nat) -> bool {
    forall|i: int| 0 <= i < types.len() ==> earlier(#[trigger] types[i], id)
}

/// The writes for a list of fields mirror the reads for it.
pub proof fn lemma_mirrors_fields(fs: Seq<crate::descriptor::FieldDescriptor>)
    ensures
        mirrors(crate::procedure::read_fields(fs), crate::procedure::write_fields(fs)),
    decreases fs.len(),
{
    if fs.len() > 0 {
        lemma_mirrors_fields(fs.drop_first());
    }
}

/// The two procedures of one descriptor are each other's dual.
pub proof fn lemma_dual(
    d: crate::descriptor::Descriptor,
    decoder: DecodeProcedure,
    encoder: EncodeProcedure,
)
    requires
        decoder.implements(d),
        encoder.implements(d),
    ensures
        dual(decoder, encoder),
{
    match d {
        crate::descriptor::Descriptor::Record(r) => {
            lemma_mirrors_fields(r.shape.fields());
        },
        crate::descriptor::Descriptor::Union(u) => {
            let arms = decoder.code->arms@;
            let warms = encoder.code->arms@;
            assert forall|i: int| 0 <= i < arms.len() implies (#[trigger] warms[i]).discriminant
                == arms[i].discriminant && mirrors(arms[i].ops@, warms[i].ops@) by {
                lemma_mirrors_fields(u.variants@[i].shape.fields());
            }
        },
    }
}

/// The writes for a list of fields write values of the fields' types only.
pub proof fn lemma_fields_earlier(fs: Seq<crate::descriptor::FieldDescriptor>, id: nat)
    requires
        all_earlier(crate::procedure::field_types(fs), id),
    ensures
        ops_earlier(crate::procedure::write_fields(fs), id),
    decreases fs.len(),
{
    if fs.len() > 0 {
        let rest = fs.drop_first();
        assert forall|i: int| 0 <= i < crate::procedure::field_types(rest).len() implies earlier(
            #[trigger] crate::procedure::field_types(rest)[i],
            id,
        ) by {
            assert(crate::procedure::field_types(rest)[i] == crate::procedure::field_types(fs)[i
                + 1]);
        }
        lemma_fields_earlier(rest, id);
        assert(earlier(crate::procedure::field_types(fs)[0], id));
    }
}

/// The types of the fields of all variants are known exactly when those of
/// every single variant are.
pub proof fn lemma_variant_types(vs: Seq<crate::descriptor::VariantDescriptor>, id: nat)
    ensures
        all_earlier(crate::procedure::variant_types(vs), id) <==> forall|k: int|
            0 <= k < vs.len() ==> all_earlier(
                crate::procedure::field_types((#[trigger] vs[k]).shape.fields()),
                id,
            ),
    decreases vs.len(),
{
    if vs.len() > 0 {
        let init = vs.drop_last();
        let head = crate::procedure::variant_types(init);
        let tail = crate::procedure::field_types(vs.last().shape.fields());
        lemma_variant_types(init, id);
        if all_earlier(head + tail, id) {
            assert forall|i: int| 0 <= i < head.len() implies earlier(#[trigger] head[i], id) by {
                assert(head[i] == (head + tail)[i]);
            }
            assert forall|i: int| 0 <= i < tail.len() implies earlier(#[trigger] tail[i], id) by {
                assert(tail[i] == (head + tail)[head.len() + i]);
            }
            assert forall|k: int| 0 <= k < vs.len() implies all_earlier(
                crate::procedure::field_types((#[trigger] vs[k]).shape.fields()),
                id,
            ) by {
                if k < init.len() {
                    assert(init[k] == vs[k]);
                }
            }
        }
        if forall|k: int|
            0 <= k < vs.len() ==> all_earlier(
                crate::procedure::field_types((#[trigger] vs[k]).shape.fields()),
                id,
            ) {
        }
    }
}

/// An encode procedure whose types are all known and whose discriminants
/// all fit can stand in a registry.
pub proof fn lemma_sound(d: crate::descriptor::Descriptor, encoder: EncodeProcedure, id: nat)
    requires
        encoder.implements(d),
        all_earlier(crate::procedure::bounds_of(d), id),
        d matches crate::descriptor::Descriptor::Union(u) ==> forall|k: int|
            0 <= k < u.variants@.len() ==> u.disc_type.admits(
                (#[trigger] u.variants@[k]).discriminant.value(),
            ),
    ensures
        sound(encoder, id),
{
    match d {
        crate::descriptor::Descriptor::Record(r) => {
            lemma_fields_earlier(r.shape.fields(), id);
        },
        crate::descriptor::Descriptor::Union(u) => {
            let head = seq![FieldType::Int(u.disc_type)];
            let tail = crate::procedure::variant_types(u.variants@);
            assert forall|i: int| 0 <= i < tail.len() implies earlier(#[trigger] tail[i], id) by {
                assert(tail[i] == (head + tail)[1 + i]);
            }
            lemma_variant_types(u.variants@, id);
            let arms = encoder.code->arms@;
            assert forall|k: int| 0 <= k < arms.len() implies ops_earlier(
                (#[trigger] arms[k]).ops@,
                id,
            ) && encoder.code->disc_type.admits(arms[k].discriminant.value()) by {
                lemma_fields_earlier(u.variants@[k].shape.fields(), id);
            }
        },
    }
}

} // verus!
