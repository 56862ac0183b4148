//! What holds of every registry, every type in it and every instance.

use crate::endian::ByteOrder;
use crate::error::{Error, Number};
use crate::meaning::{
    conforms,
    decoded,
    dual,
    earlier,
    encoding,
    fields_decoded,
    first_match,
    mirrors,
    ops_conform,
    ops_decoded,
    ops_encoding,
    ops_unambiguous,
    unambiguous,
    well_formed,
    Entry,
};
use crate::procedure::{ReadArm, ReadOp, WriteOp};
use crate::schema::FieldType;
use crate::value::ValueView;
use vstd::prelude::*;

verus! {

/// The first arm whose discriminant is `d` is found where it is.
pub proof fn lemma_first_match(arms: Seq<ReadArm>, d: Number, k: int, start: int)
    requires
        0 <= start <= k < arms.len(),
        arms[k].discriminant.value() == d.as_int(),
        forall|j: int| start <= j < k ==> (#[trigger] arms[j]).discriminant.value() != d.as_int(),
    ensures
        first_match(arms, d, start) == Some(k),
    decreases k - start,
{
    if start < k {
        lemma_first_match(arms, d, k, start + 1);
    }
}

/// Selection by discriminant. Of the arms from `start` on, the one that is
/// selected has the discriminant read and is the first that has it; where
/// none is selected, none has it.
pub proof fn first_match_is_first(arms: Seq<ReadArm>, d: Number, start: int)
    requires
        0 <= start,
    ensures
        match first_match(arms, d, start) {
            Some(k) => {
                &&& start <= k < arms.len()
                &&& arms[k].discriminant.value() == d.as_int()
                &&& forall|j: int|
                    start <= j < k ==> (#[trigger] arms[j]).discriminant.value() != d.as_int()
            },
            None => forall|j: int|
                start <= j < arms.len() ==> (#[trigger] arms[j]).discriminant.value() != d.as_int(),
        },
    decreases arms.len() - start,
{
    if start < arms.len() && arms[start].discriminant.value() != d.as_int() {
        first_match_is_first(arms, d, start + 1);
    }
}

/// Round trip of the primitive types.
pub proof fn lemma_round_trip_primitive(
    reg: Seq<Entry>,
    ty: FieldType,
    v: ValueView,
    order: ByteOrder,
    rest: Seq<u8>,
)
    requires
        !(ty is Ref),
        conforms(reg, ty, v),
    ensures
        decoded(reg, ty, encoding(reg, ty, v, order) + rest, order) == Ok::<
            (ValueView, nat),
            Error,
        >((v, encoding(reg, ty, v, order).len())),
{
    reveal(conforms);
    reveal(encoding);
    reveal(decoded);
    let enc = encoding(reg, ty, v, order);
    match ty {
        FieldType::Bool => {},
        FieldType::Int(t) => {
            crate::schema::lemma_number_round_trip(v->Int_0, t, order, rest);
        },
        FieldType::Address => {
            let a = v->Address_0;
            let bytes = enc + rest;
            let b: [u8; 4] = [bytes[0], bytes[1], bytes[2], bytes[3]];
            assert(b == a);
        },
        FieldType::Ref(_) => {},
    }
}

/// What [`fields_decoded`] makes of the bytes of a list of fields and a
/// run of trailing padding.
pub proof fn lemma_round_trip_fields(
    reg: Seq<Entry>,
    id: nat,
    reads: Seq<ReadOp>,
    writes: Seq<WriteOp>,
    trailing_reads: Seq<ReadOp>,
    trailing_writes: Seq<WriteOp>,
    vals: Seq<ValueView>,
    order: ByteOrder,
    rest: Seq<u8>,
)
    requires
        well_formed(reg),
        mirrors(reads, writes),
        mirrors(trailing_reads, trailing_writes),
        crate::meaning::padding_only(trailing_writes),
        ops_conform(reg, id, writes, vals),
        ops_unambiguous(reg, id, writes, vals),
    ensures
        ({
            let fields = ops_encoding(reg, id, writes, vals, order);
            let tail = ops_encoding(reg, id, trailing_writes, Seq::empty(), order);
            fields_decoded(reg, id, reads, trailing_reads, fields + tail + rest, order) == Ok::<
                (Seq<ValueView>, nat),
                Error,
            >((vals, (fields + tail).len()))
        }),
    decreases id, 2nat, 0nat,
{
    let fields = ops_encoding(reg, id, writes, vals, order);
    let tail = ops_encoding(reg, id, trailing_writes, Seq::empty(), order);
    let bytes = fields + tail + rest;
    crate::meaning::lemma_fields_decoded(reg, id, reads, trailing_reads, bytes, order);
    assert(bytes =~= fields + (tail + rest));
    lemma_round_trip_ops(reg, id, reads, writes, vals, order, tail + rest);
    assert(bytes.skip(fields.len() as int) =~= tail + rest);
    crate::meaning::lemma_padding_conforms(reg, id, trailing_writes);
    crate::meaning::lemma_padding_unambiguous(reg, id, trailing_writes);
    lemma_round_trip_ops(reg, id, trailing_reads, trailing_writes, Seq::empty(), order, rest);
}

/// Round trip of a run: what a run of writes produces, the mirrored run of
/// reads takes back, value by value, whatever follows.
pub proof fn lemma_round_trip_ops(
    reg: Seq<Entry>,
    bound: nat,
    reads: Seq<ReadOp>,
    writes: Seq<WriteOp>,
    vals: Seq<ValueView>,
    order: ByteOrder,
    rest: Seq<u8>,
)
    requires
        well_formed(reg),
        mirrors(reads, writes),
        ops_conform(reg, bound, writes, vals),
        ops_unambiguous(reg, bound, writes, vals),
    ensures
        ops_decoded(reg, bound, reads, ops_encoding(reg, bound, writes, vals, order) + rest, order)
            == Ok::<(Seq<ValueView>, nat), Error>(
            (vals, ops_encoding(reg, bound, writes, vals, order).len()),
        ),
    decreases bound, 1nat, reads.len(),
{
    let enc = ops_encoding(reg, bound, writes, vals, order);
    let bytes = enc + rest;
    crate::meaning::lemma_ops_decoded(reg, bound, reads, bytes, order);
    crate::meaning::lemma_ops_encoding(reg, bound, writes, vals, order);
    crate::meaning::lemma_ops_conform(reg, bound, writes, vals);
    crate::meaning::lemma_ops_unambiguous(reg, bound, writes, vals);
    if reads.len() == 0 {
        assert(vals =~= Seq::<ValueView>::empty());
    } else {
        let more_reads = reads.drop_first();
        let more_writes = writes.drop_first();
        match reads[0] {
            ReadOp::Skip(k) => {
                let later = ops_encoding(reg, bound, more_writes, vals, order);
                assert(bytes.skip(k as int) =~= later + rest);
                lemma_round_trip_ops(reg, bound, more_reads, more_writes, vals, order, rest);
            },
            ReadOp::Value(t) => {
                let first = encoding(reg, t, vals[0], order);
                let later = ops_encoding(reg, bound, more_writes, vals.drop_first(), order);
                assert(bytes =~= first + (later + rest));
                lemma_round_trip(reg, t, vals[0], order, later + rest);
                assert(bytes.skip(first.len() as int) =~= later + rest);
                lemma_round_trip_ops(
                    reg,
                    bound,
                    more_reads,
                    more_writes,
                    vals.drop_first(),
                    order,
                    rest,
                );
                assert(seq![vals[0]] + vals.drop_first() =~= vals);
            },
        }
    }
}

/// Round trip, with anything after the instance's bytes: decoding takes
/// the instance back and stops where its bytes end.
pub proof fn lemma_round_trip(
    reg: Seq<Entry>,
    ty: FieldType,
    v: ValueView,
    order: ByteOrder,
    rest: Seq<u8>,
)
    requires
        well_formed(reg),
        conforms(reg, ty, v),
        unambiguous(reg, ty, v),
    ensures
        decoded(reg, ty, encoding(reg, ty, v, order) + rest, order) == Ok::<
            (ValueView, nat),
            Error,
        >((v, encoding(reg, ty, v, order).len())),
    decreases ty.rank(), 0nat, 0nat,
{
    match ty {
        FieldType::Ref(id) => {
            assert(id < reg.len()) by {
                reveal(conforms);
            }
            match reg[id as int] {
                Entry::Optional(inner) => {
                    lemma_round_trip_optional(reg, id as nat, v, order, rest);
                },
                Entry::Declared { decoder, encoder } => {
                    lemma_round_trip_declared(reg, id as nat, v, order, rest);
                },
            }
        },
        _ => {
            lemma_round_trip_primitive(reg, ty, v, order, rest);
        },
    }
}

/// Round trip of an optional value.
pub proof fn lemma_round_trip_optional(
    reg: Seq<Entry>,
    id: nat,
    v: ValueView,
    order: ByteOrder,
    rest: Seq<u8>,
)
    requires
        well_formed(reg),
        id < reg.len(),
        id <= usize::MAX,
        reg[id as int] is Optional,
        conforms(reg, FieldType::Ref(id as usize), v),
        unambiguous(reg, FieldType::Ref(id as usize), v),
    ensures
        decoded(
            reg,
            FieldType::Ref(id as usize),
            encoding(reg, FieldType::Ref(id as usize), v, order) + rest,
            order,
        ) == Ok::<(ValueView, nat), Error>(
            (v, encoding(reg, FieldType::Ref(id as usize), v, order).len()),
        ),
    decreases id, 4nat, 0nat,
{
    let ty = FieldType::Ref(id as usize);
    let inner = reg[id as int]->Optional_0;
    let enc = encoding(reg, ty, v, order);
    let bytes = enc + rest;
    reveal(conforms);
    reveal(unambiguous);
    reveal(encoding);
    reveal(decoded);
    match v {
        ValueView::Optional(None) => {},
        ValueView::Optional(Some(x)) => {
            let payload = encoding(reg, inner, *x, order);
            assert(bytes.skip(1) =~= payload + rest);
            lemma_round_trip(reg, inner, *x, order, rest);
        },
        _ => {},
    }
}

/// Round trip of an instance of a declared type.
pub proof fn lemma_round_trip_declared(
    reg: Seq<Entry>,
    id: nat,
    v: ValueView,
    order: ByteOrder,
    rest: Seq<u8>,
)
    requires
        well_formed(reg),
        id < reg.len(),
        id <= usize::MAX,
        reg[id as int] is Declared,
        conforms(reg, FieldType::Ref(id as usize), v),
        unambiguous(reg, FieldType::Ref(id as usize), v),
    ensures
        decoded(
            reg,
            FieldType::Ref(id as usize),
            encoding(reg, FieldType::Ref(id as usize), v, order) + rest,
            order,
        ) == Ok::<(ValueView, nat), Error>(
            (v, encoding(reg, FieldType::Ref(id as usize), v, order).len()),
        ),
    decreases id, 4nat, 0nat,
{
    let ty = FieldType::Ref(id as usize);
    let decoder = reg[id as int]->decoder;
    let encoder = reg[id as int]->encoder;
    let enc = encoding(reg, ty, v, order);
    let bytes = enc + rest;
    crate::meaning::lemma_conforms_declared(reg, id, v);
    crate::meaning::lemma_unambiguous_declared(reg, id, v);
    crate::meaning::lemma_decoded_declared(reg, id, bytes, order);
    match encoder.code {
        crate::procedure::WriteCode::Record(writes) => {
            let reads = decoder.code->Record_0;
            let vals = v->Record_0;
            crate::meaning::lemma_encoding_record(reg, id, vals, order);
            crate::meaning::lemma_record_decoded(
                reg,
                id,
                reads@,
                decoder.trailing@,
                bytes,
                order,
            );
            lemma_round_trip_fields(
                reg,
                id,
                reads@,
                writes@,
                decoder.trailing@,
                encoder.trailing@,
                vals,
                order,
                rest,
            );
        },
        crate::procedure::WriteCode::Union { pre, disc_type, post, arms } => {
            let k = v->Variant_0;
            let vals = v->Variant_1;
            crate::meaning::lemma_encoding_variant(reg, id, k, vals, order);
            lemma_round_trip_variant(reg, id, k, vals, order, rest);
        },
    }
}

/// Round trip of the front of a union: padding, the discriminant, padding.
pub proof fn lemma_round_trip_tag(
    reg: Seq<Entry>,
    id: nat,
    pre_reads: Seq<ReadOp>,
    pre_writes: Seq<WriteOp>,
    ty: crate::schema::IntType,
    n: Number,
    post_reads: Seq<ReadOp>,
    post_writes: Seq<WriteOp>,
    order: ByteOrder,
    rest: Seq<u8>,
)
    requires
        well_formed(reg),
        mirrors(pre_reads, pre_writes),
        mirrors(post_reads, post_writes),
        crate::meaning::padding_only(pre_writes),
        crate::meaning::padding_only(post_writes),
        ty.holds(n),
    ensures
        ({
            let b0 = ops_encoding(reg, id, pre_writes, Seq::empty(), order);
            let b1 = crate::schema::number_bytes(n, ty, order);
            let b2 = ops_encoding(reg, id, post_writes, Seq::empty(), order);
            crate::meaning::tag_decoded(
                reg,
                id,
                pre_reads,
                ty,
                post_reads,
                b0 + b1 + b2 + rest,
                order,
            ) == Ok::<(Number, nat), Error>((n, (b0 + b1 + b2).len()))
        }),
    decreases id, 2nat, 0nat,
{
    let b0 = ops_encoding(reg, id, pre_writes, Seq::empty(), order);
    let b1 = crate::schema::number_bytes(n, ty, order);
    let b2 = ops_encoding(reg, id, post_writes, Seq::empty(), order);
    let bytes = b0 + b1 + b2 + rest;
    crate::meaning::lemma_tag_decoded(reg, id, pre_reads, ty, post_reads, bytes, order);
    crate::meaning::lemma_padding_conforms(reg, id, pre_writes);
    crate::meaning::lemma_padding_unambiguous(reg, id, pre_writes);
    crate::meaning::lemma_padding_conforms(reg, id, post_writes);
    crate::meaning::lemma_padding_unambiguous(reg, id, post_writes);
    assert(bytes =~= b0 + (b1 + b2 + rest));
    lemma_round_trip_ops(reg, id, pre_reads, pre_writes, Seq::empty(), order, b1 + b2 + rest);
    assert(bytes.skip(b0.len() as int) =~= b1 + (b2 + rest));
    crate::schema::lemma_number_round_trip(n, ty, order, b2 + rest);
    assert(bytes.skip((b0.len() + b1.len()) as int) =~= b2 + rest);
    lemma_round_trip_ops(reg, id, post_reads, post_writes, Seq::empty(), order, rest);
}

/// Round trip of an instance of a variant, from the bytes of its parts.
pub proof fn lemma_round_trip_variant(
    reg: Seq<Entry>,
    id: nat,
    k: nat,
    vals: Seq<ValueView>,
    order: ByteOrder,
    rest: Seq<u8>,
)
    requires
        well_formed(reg),
        id < reg.len(),
        id <= usize::MAX,
        reg[id as int] is Declared,
        reg[id as int]->encoder.code is Union,
        k < reg[id as int]->encoder.code->arms@.len(),
        ops_conform(reg, id, reg[id as int]->encoder.code->arms@[k as int].ops@, vals),
        ops_unambiguous(reg, id, reg[id as int]->encoder.code->arms@[k as int].ops@, vals),
        forall|j: int|
            0 <= j < k ==> (#[trigger] reg[id as int]->encoder.code->arms@[j]).discriminant.value()
                != reg[id as int]->encoder.code->arms@[k as int].discriminant.value(),
    ensures
        ({
            let decoder = reg[id as int]->decoder;
            let encoder = reg[id as int]->encoder;
            let arm = encoder.code->arms@[k as int];
            let enc = ops_encoding(reg, id, encoder.code->pre@, Seq::empty(), order)
                + crate::meaning::discriminant_bytes(
                arm.discriminant,
                encoder.code->disc_type,
                order,
            ) + ops_encoding(reg, id, encoder.code->post@, Seq::empty(), order) + ops_encoding(
                reg,
                id,
                arm.ops@,
                vals,
                order,
            ) + ops_encoding(reg, id, encoder.trailing@, Seq::empty(), order);
            crate::meaning::union_decoded(
                reg,
                id,
                decoder.code->name,
                decoder.code->pre@,
                decoder.code->disc_type,
                decoder.code->post@,
                decoder.code->arms@,
                decoder.trailing@,
                enc + rest,
                order,
            ) == Ok::<(ValueView, nat), Error>((ValueView::Variant(k, vals), enc.len()))
        }),
    decreases id, 3nat, 0nat,
{
    let decoder = reg[id as int]->decoder;
    let encoder = reg[id as int]->encoder;
    assert(dual(decoder, encoder) && crate::meaning::sound(encoder, id));
    let ty = encoder.code->disc_type;
    let arm = encoder.code->arms@[k as int];
    let arms = decoder.code->arms@;
    let b0 = ops_encoding(reg, id, encoder.code->pre@, Seq::empty(), order);
    let b1 = crate::meaning::discriminant_bytes(arm.discriminant, ty, order);
    let b2 = ops_encoding(reg, id, encoder.code->post@, Seq::empty(), order);
    let b3 = ops_encoding(reg, id, arm.ops@, vals, order);
    let b4 = ops_encoding(reg, id, encoder.trailing@, Seq::empty(), order);
    let enc = b0 + b1 + b2 + b3 + b4;
    let bytes = enc + rest;
    let n = crate::meaning::number_of(arm.discriminant, ty)->Some_0;
    assert(ty.admits(arm.discriminant.value()));
    assert(ty.holds(n) && n.as_int() == arm.discriminant.value()) by {
        crate::bytes::lemma_pow256_widths();
    }
    assert(b1 == crate::schema::number_bytes(n, ty, order));
    // the front: padding, the discriminant, padding
    assert(bytes =~= b0 + b1 + b2 + (b3 + b4 + rest));
    lemma_round_trip_tag(
        reg,
        id,
        decoder.code->pre@,
        encoder.code->pre@,
        ty,
        n,
        decoder.code->post@,
        encoder.code->post@,
        order,
        b3 + b4 + rest,
    );
    // the arm that the discriminant selects
    assert forall|j: int| 0 <= j < k implies (#[trigger] arms[j]).discriminant.value()
        != n.as_int() by {
        assert(arms[j].discriminant == encoder.code->arms@[j].discriminant);
    }
    assert(arms[k as int].discriminant == arm.discriminant);
    lemma_first_match(arms, n, k as int, 0);
    // the fields and the trailing padding
    crate::meaning::lemma_union_decoded(
        reg,
        id,
        decoder.code->name,
        decoder.code->pre@,
        ty,
        decoder.code->post@,
        arms,
        decoder.trailing@,
        bytes,
        order,
    );
    assert(bytes.skip((b0 + b1 + b2).len() as int) =~= b3 + b4 + rest);
    lemma_round_trip_fields(
        reg,
        id,
        arms[k as int].ops@,
        arm.ops@,
        decoder.trailing@,
        encoder.trailing@,
        vals,
        order,
        rest,
    );
}

/// The round-trip law. In a registry, an instance of a type is decoded
/// from its own encoding, and decoding takes exactly the bytes of the
/// encoding. This holds in either byte order, as long as the same order is
/// used both ways.
///
/// It holds of every instance that decoding can tell apart from the
/// others: where two variants of a union have the same discriminant, an
/// instance of the later one is decoded as the earlier one
/// (see [`unambiguous`]).
pub proof fn round_trip(reg: Seq<Entry>, ty: FieldType, v: ValueView, order: ByteOrder)
    requires
        well_formed(reg),
        conforms(reg, ty, v),
        unambiguous(reg, ty, v),
    ensures
        decoded(reg, ty, encoding(reg, ty, v, order), order) == Ok::<(ValueView, nat), Error>(
            (v, encoding(reg, ty, v, order).len()),
        ),
{
    lemma_round_trip(reg, ty, v, order, Seq::empty());
}

/// Where the discriminants of every union differ, no run of values holds a
/// union to mistake.
pub proof fn lemma_distinct_ops(reg: Seq<Entry>, bound: nat, ops: Seq<WriteOp>, vals: Seq<ValueView>)
    requires
        crate::meaning::distinct(reg),
    ensures
        ops_unambiguous(reg, bound, ops, vals),
    decreases bound, 1nat, ops.len(),
{
    crate::meaning::lemma_ops_unambiguous(reg, bound, ops, vals);
    if ops.len() > 0 {
        match ops[0] {
            WriteOp::Zeros(_) => {
                lemma_distinct_ops(reg, bound, ops.drop_first(), vals);
            },
            WriteOp::Value(t) => {
                if earlier(t, bound) && vals.len() > 0 {
                    lemma_distinct(reg, t, vals[0]);
                    lemma_distinct_ops(reg, bound, ops.drop_first(), vals.drop_first());
                }
            },
        }
    }
}

/// Where the discriminants of every union differ, decoding can tell which
/// variant any instance is.
pub proof fn lemma_distinct(reg: Seq<Entry>, ty: FieldType, v: ValueView)
    requires
        crate::meaning::distinct(reg),
    ensures
        unambiguous(reg, ty, v),
    decreases ty.rank(), 0nat, 0nat,
{
    match ty {
        FieldType::Ref(id) => {
            if id < reg.len() {
                match reg[id as int] {
                    Entry::Optional(inner) => {
                        reveal(unambiguous);
                        if earlier(inner, id as nat) {
                            if let ValueView::Optional(Some(x)) = v {
                                lemma_distinct(reg, inner, *x);
                            }
                        }
                    },
                    Entry::Declared { decoder, encoder } => {
                        lemma_distinct_declared(reg, id as nat, v);
                    },
                }
            } else {
                reveal(unambiguous);
            }
        },
        _ => {
            reveal(unambiguous);
        },
    }
}

/// The same for an instance of a declared type.
pub proof fn lemma_distinct_declared(reg: Seq<Entry>, id: nat, v: ValueView)
    requires
        crate::meaning::distinct(reg),
        id < reg.len(),
        id <= usize::MAX,
        reg[id as int] is Declared,
    ensures
        unambiguous(reg, FieldType::Ref(id as usize), v),
    decreases id, 4nat, 0nat,
{
    crate::meaning::lemma_unambiguous_declared(reg, id, v);
    assert(crate::meaning::distinct_at(reg, id as int));
    match reg[id as int]->encoder.code {
        crate::procedure::WriteCode::Record(ops) => {
            if let ValueView::Record(vals) = v {
                lemma_distinct_ops(reg, id, ops@, vals);
            }
        },
        crate::procedure::WriteCode::Union { pre, disc_type, post, arms } => {
            if let ValueView::Variant(k, vals) = v {
                if k < arms@.len() {
                    lemma_distinct_ops(reg, id, arms@[k as int].ops@, vals);
                }
            }
        },
    }
}

/// The round-trip law where no two variants of a union share a
/// discriminant: every instance of every type is decoded from its own
/// encoding, in either byte order.
pub proof fn round_trip_of_distinct(reg: Seq<Entry>, ty: FieldType, v: ValueView, order: ByteOrder)
    requires
        well_formed(reg),
        crate::meaning::distinct(reg),
        conforms(reg, ty, v),
    ensures
        decoded(reg, ty, encoding(reg, ty, v, order), order) == Ok::<(ValueView, nat), Error>(
            (v, encoding(reg, ty, v, order).len()),
        ),
{
    lemma_distinct(reg, ty, v);
    round_trip(reg, ty, v, order);
}

/// The number of bytes that a padding gap takes: none where no gap is
/// declared.
pub open spec fn gap(padding: Option<usize>) -> nat {
    match padding {
        Some(n) => n as nat,
        None => 0,
    }
}

/// What the writes for one padding gap produce: as many zeros as the gap
/// is wide.
pub proof fn lemma_padding_encoding(
    reg: Seq<Entry>,
    bound: nat,
    padding: Option<usize>,
    vals: Seq<ValueView>,
    order: ByteOrder,
)
    ensures
        ops_encoding(reg, bound, crate::procedure::write_padding(padding), vals, order)
            == crate::write::zeros(gap(padding)),
{
    let ops = crate::procedure::write_padding(padding);
    crate::meaning::lemma_ops_encoding(reg, bound, ops, vals, order);
    if padding is Some {
        crate::meaning::lemma_ops_encoding(reg, bound, ops.drop_first(), vals, order);
    } else {
    }
}

/// What the writes for a padded field and for what follows it produce:
/// the field's padding, the field's bytes, and the bytes of what follows.
pub proof fn lemma_field_encoding(
    reg: Seq<Entry>,
    bound: nat,
    padding: Option<usize>,
    t: FieldType,
    more: Seq<WriteOp>,
    vals: Seq<ValueView>,
    order: ByteOrder,
)
    ensures
        ops_encoding(
            reg,
            bound,
            crate::procedure::write_padding(padding) + seq![WriteOp::Value(t)] + more,
            vals,
            order,
        ) == crate::write::zeros(gap(padding)) + if earlier(t, bound) && vals.len() > 0 {
            encoding(reg, t, vals[0], order) + ops_encoding(
                reg,
                bound,
                more,
                vals.drop_first(),
                order,
            )
        } else {
            Seq::<u8>::empty()
        },
{
    let ops = crate::procedure::write_padding(padding) + seq![WriteOp::Value(t)] + more;
    let field = seq![WriteOp::Value(t)] + more;
    crate::meaning::lemma_ops_encoding(reg, bound, ops, vals, order);
    crate::meaning::lemma_ops_encoding(reg, bound, field, vals, order);
    assert(field.drop_first() =~= more);
    if padding is Some {
        assert(ops.drop_first() =~= field);
    } else {
    }
}

/// Whether two lists of fields are the same but for padding gaps that are
/// absent in the one and zero in the other.
pub open spec fn same_fields(
    a: Seq<crate::descriptor::FieldDescriptor>,
    b: Seq<crate::descriptor::FieldDescriptor>,
) -> bool {
    &&& a.len() == b.len()
    &&& forall|i: int|
        0 <= i < a.len() ==> (#[trigger] a[i]).ty == b[i].ty && gap(a[i].padding) == gap(
            b[i].padding,
        )
}

/// Whether two descriptors describe the same layout: the same fields,
/// variants and discriminants, and padding gaps of the same sizes, where
/// a gap that is absent and a gap of zero bytes are of the same size.
pub open spec fn same_layout(a: crate::descriptor::Descriptor, b: crate::descriptor::Descriptor) -> bool {
    match (a, b) {
        (crate::descriptor::Descriptor::Record(x), crate::descriptor::Descriptor::Record(y)) => {
            &&& same_fields(x.shape.fields(), y.shape.fields())
            &&& gap(x.trailing) == gap(y.trailing)
        },
        (crate::descriptor::Descriptor::Union(x), crate::descriptor::Descriptor::Union(y)) => {
            &&& x.disc_type == y.disc_type
            &&& gap(x.pre_disc) == gap(y.pre_disc)
            &&& gap(x.post_disc) == gap(y.post_disc)
            &&& gap(x.trailing) == gap(y.trailing)
            &&& x.variants@.len() == y.variants@.len()
            &&& forall|k: int|
                0 <= k < x.variants@.len() ==> (#[trigger] x.variants@[k]).discriminant
                    == y.variants@[k].discriminant && same_fields(
                    x.variants@[k].shape.fields(),
                    y.variants@[k].shape.fields(),
                )
        },
        _ => false,
    }
}

/// Fields that are the same but for absent and zero padding are written
/// as the same bytes, and ask for the same values.
pub proof fn lemma_same_fields(
    reg: Seq<Entry>,
    bound_a: nat,
    bound_b: nat,
    a: Seq<crate::descriptor::FieldDescriptor>,
    b: Seq<crate::descriptor::FieldDescriptor>,
    vals: Seq<ValueView>,
    order: ByteOrder,
)
    requires
        same_fields(a, b),
        ops_conform(reg, bound_a, crate::procedure::write_fields(a), vals),
        crate::meaning::all_earlier(crate::procedure::field_types(b), bound_b),
    ensures
        ops_conform(reg, bound_b, crate::procedure::write_fields(b), vals),
        ops_encoding(reg, bound_a, crate::procedure::write_fields(a), vals, order) == ops_encoding(
            reg,
            bound_b,
            crate::procedure::write_fields(b),
            vals,
            order,
        ),
    decreases a.len(),
{
    let wa = crate::procedure::write_fields(a);
    let wb = crate::procedure::write_fields(b);
    if a.len() == 0 {
        crate::meaning::lemma_ops_conform(reg, bound_a, wa, vals);
        crate::meaning::lemma_ops_conform(reg, bound_b, wb, vals);
        crate::meaning::lemma_ops_encoding(reg, bound_a, wa, vals, order);
        crate::meaning::lemma_ops_encoding(reg, bound_b, wb, vals, order);
    } else {
        let more_a = crate::procedure::write_fields(a.drop_first());
        let more_b = crate::procedure::write_fields(b.drop_first());
        let t = a[0].ty;
        assert(earlier(crate::procedure::field_types(b)[0], bound_b));
        lemma_field_conform(reg, bound_a, a[0].padding, t, more_a, vals);
        lemma_field_conform(reg, bound_b, b[0].padding, t, more_b, vals);
        lemma_field_encoding(reg, bound_a, a[0].padding, t, more_a, vals, order);
        lemma_field_encoding(reg, bound_b, b[0].padding, t, more_b, vals, order);
        assert forall|i: int|
            0 <= i < crate::procedure::field_types(b.drop_first()).len() implies earlier(
            #[trigger] crate::procedure::field_types(b.drop_first())[i],
            bound_b,
        ) by {
            assert(crate::procedure::field_types(b.drop_first())[i]
                == crate::procedure::field_types(b)[i + 1]);
        }
        lemma_same_fields(
            reg,
            bound_a,
            bound_b,
            a.drop_first(),
            b.drop_first(),
            vals.drop_first(),
            order,
        );
    }
}

/// Which values the writes for a padded field and for what follows it ask
/// for: one of the field's type, and then those of what follows.
pub proof fn lemma_field_conform(
    reg: Seq<Entry>,
    bound: nat,
    padding: Option<usize>,
    t: FieldType,
    more: Seq<WriteOp>,
    vals: Seq<ValueView>,
)
    ensures
        ops_conform(
            reg,
            bound,
            crate::procedure::write_padding(padding) + seq![WriteOp::Value(t)] + more,
            vals,
        ) == (earlier(t, bound) && vals.len() > 0 && conforms(reg, t, vals[0]) && ops_conform(
            reg,
            bound,
            more,
            vals.drop_first(),
        )),
{
    let ops = crate::procedure::write_padding(padding) + seq![WriteOp::Value(t)] + more;
    let field = seq![WriteOp::Value(t)] + more;
    crate::meaning::lemma_ops_conform(reg, bound, ops, vals);
    crate::meaning::lemma_ops_conform(reg, bound, field, vals);
    assert(field.drop_first() =~= more);
    if padding is Some {
        assert(ops.drop_first() =~= field);
    } else {
    }
}

/// Zero padding is no padding. Two declared types whose layouts are the
/// same, but that a padding gap is absent in the one where it is declared
/// with zero bytes in the other, have the same instances and write every
/// instance as the same bytes.
pub proof fn zero_padding(
    reg: Seq<Entry>,
    a: nat,
    b: nat,
    da: crate::descriptor::Descriptor,
    db: crate::descriptor::Descriptor,
    v: ValueView,
    order: ByteOrder,
)
    requires
        well_formed(reg),
        a < reg.len(),
        b < reg.len(),
        reg.len() <= usize::MAX,
        reg[a as int] matches Entry::Declared { encoder, .. } && encoder.implements(da),
        reg[b as int] matches Entry::Declared { encoder, .. } && encoder.implements(db),
        same_layout(da, db),
        conforms(reg, FieldType::Ref(a as usize), v),
    ensures
        conforms(reg, FieldType::Ref(b as usize), v),
        encoding(reg, FieldType::Ref(a as usize), v, order) == encoding(
            reg,
            FieldType::Ref(b as usize),
            v,
            order,
        ),
{
    crate::meaning::lemma_conforms_declared(reg, a, v);
    crate::meaning::lemma_conforms_declared(reg, b, v);
    match (da, db) {
        (crate::descriptor::Descriptor::Record(x), crate::descriptor::Descriptor::Record(y)) => {
            let vals = v->Record_0;
            crate::meaning::lemma_encoding_record(reg, a, vals, order);
            crate::meaning::lemma_encoding_record(reg, b, vals, order);
            lemma_known_fields(y.shape.fields(), b);
            lemma_same_fields(reg, a, b, x.shape.fields(), y.shape.fields(), vals, order);
            lemma_padding_encoding(reg, a, x.trailing, Seq::empty(), order);
            lemma_padding_encoding(reg, b, y.trailing, Seq::empty(), order);
        },
        (crate::descriptor::Descriptor::Union(x), crate::descriptor::Descriptor::Union(y)) => {
            let k = v->Variant_0;
            let vals = v->Variant_1;
            crate::meaning::lemma_encoding_variant(reg, a, k, vals, order);
            crate::meaning::lemma_encoding_variant(reg, b, k, vals, order);
            lemma_known_fields(y.variants@[k as int].shape.fields(), b);
            lemma_same_fields(
                reg,
                a,
                b,
                x.variants@[k as int].shape.fields(),
                y.variants@[k as int].shape.fields(),
                vals,
                order,
            );
            lemma_padding_encoding(reg, a, x.pre_disc, Seq::empty(), order);
            lemma_padding_encoding(reg, b, y.pre_disc, Seq::empty(), order);
            lemma_padding_encoding(reg, a, x.post_disc, Seq::empty(), order);
            lemma_padding_encoding(reg, b, y.post_disc, Seq::empty(), order);
            lemma_padding_encoding(reg, a, x.trailing, Seq::empty(), order);
            lemma_padding_encoding(reg, b, y.trailing, Seq::empty(), order);
        },
        _ => {},
    }
}

/// The types of the fields that a sound run of writes is made for are
/// known.
pub proof fn lemma_known_fields(fs: Seq<crate::descriptor::FieldDescriptor>, id: nat)
    requires
        crate::meaning::ops_earlier(crate::procedure::write_fields(fs), id),
    ensures
        crate::meaning::all_earlier(crate::procedure::field_types(fs), id),
    decreases fs.len(),
{
    if fs.len() > 0 {
        let head = crate::procedure::write_padding(fs[0].padding) + seq![WriteOp::Value(fs[0].ty)];
        let tail = crate::procedure::write_fields(fs.drop_first());
        let ops = crate::procedure::write_fields(fs);
        assert(ops[head.len() - 1] == WriteOp::Value(fs[0].ty));
        assert forall|i: int| 0 <= i < tail.len() implies (#[trigger] tail[i] matches WriteOp::Value(
            t,
        ) ==> earlier(t, id)) by {
            assert(tail[i] == ops[head.len() + i]);
        }
        lemma_known_fields(fs.drop_first(), id);
        assert forall|i: int| 0 <= i < crate::procedure::field_types(fs).len() implies earlier(
            #[trigger] crate::procedure::field_types(fs)[i],
            id,
        ) by {
            if i > 0 {
                assert(crate::procedure::field_types(fs)[i] == crate::procedure::field_types(
                    fs.drop_first(),
                )[i - 1]);
            }
        }
    }
}

/// The bytes of one field on the wire: its padding, then its value.
pub open spec fn piece(
    reg: Seq<Entry>,
    f: crate::descriptor::FieldDescriptor,
    v: ValueView,
    order: ByteOrder,
) -> Seq<u8> {
    crate::write::zeros(gap(f.padding)) + encoding(reg, f.ty, v, order)
}

/// The bytes of each field of a list, field by field.
pub open spec fn pieces(
    reg: Seq<Entry>,
    fs: Seq<crate::descriptor::FieldDescriptor>,
    vals: Seq<ValueView>,
    order: ByteOrder,
) -> Seq<Seq<u8>> {
    Seq::new(fs.len(), |i: int| piece(reg, fs[i], vals[i], order))
}

/// Runs of bytes, one after the other.
pub open spec fn in_a_row(parts: Seq<Seq<u8>>) -> Seq<u8>
    decreases parts.len(),
{
    if parts.len() == 0 {
        Seq::empty()
    } else {
        parts[0] + in_a_row(parts.drop_first())
    }
}

/// A sequence with the items at two positions exchanged.
pub open spec fn exchanged<A>(s: Seq<A>, i: int, j: int) -> Seq<A> {
    s.update(i, s[j]).update(j, s[i])
}

/// The writes for a list of fields produce the fields' pieces, in the
/// order of the list.
pub proof fn lemma_fields_in_order(
    reg: Seq<Entry>,
    bound: nat,
    fs: Seq<crate::descriptor::FieldDescriptor>,
    vals: Seq<ValueView>,
    order: ByteOrder,
)
    requires
        ops_conform(reg, bound, crate::procedure::write_fields(fs), vals),
    ensures
        vals.len() == fs.len(),
        ops_encoding(reg, bound, crate::procedure::write_fields(fs), vals, order) == in_a_row(
            pieces(reg, fs, vals, order),
        ),
    decreases fs.len(),
{
    let ops = crate::procedure::write_fields(fs);
    if fs.len() == 0 {
        crate::meaning::lemma_ops_conform(reg, bound, ops, vals);
        crate::meaning::lemma_ops_encoding(reg, bound, ops, vals, order);
    } else {
        let more = crate::procedure::write_fields(fs.drop_first());
        lemma_field_conform(reg, bound, fs[0].padding, fs[0].ty, more, vals);
        lemma_field_encoding(reg, bound, fs[0].padding, fs[0].ty, more, vals, order);
        lemma_fields_in_order(reg, bound, fs.drop_first(), vals.drop_first(), order);
        let all = pieces(reg, fs, vals, order);
        assert(all.drop_first() =~= pieces(reg, fs.drop_first(), vals.drop_first(), order));
    }
}

/// Field order fidelity. The bytes of a record are the pieces of its
/// fields, each its padding and then its value, in the order in which the
/// fields are declared, and after them the trailing padding. No field is
/// moved.
pub proof fn field_order(
    reg: Seq<Entry>,
    id: nat,
    d: crate::descriptor::RecordDescriptor,
    vals: Seq<ValueView>,
    order: ByteOrder,
)
    requires
        id < reg.len(),
        id <= usize::MAX,
        reg[id as int] matches Entry::Declared { encoder, .. } && encoder.implements(
            crate::descriptor::Descriptor::Record(d),
        ),
        conforms(reg, FieldType::Ref(id as usize), ValueView::Record(vals)),
    ensures
        vals.len() == d.shape.fields().len(),
        encoding(reg, FieldType::Ref(id as usize), ValueView::Record(vals), order) == in_a_row(
            pieces(reg, d.shape.fields(), vals, order),
        ) + crate::write::zeros(gap(d.trailing)),
{
    crate::meaning::lemma_conforms_declared(reg, id, ValueView::Record(vals));
    crate::meaning::lemma_encoding_record(reg, id, vals, order);
    lemma_fields_in_order(reg, id, d.shape.fields(), vals, order);
    lemma_padding_encoding(reg, id, d.trailing, Seq::empty(), order);
}

/// Exchanging two fields of a declaration, and their values in the
/// instance, exchanges their pieces on the wire and leaves every other
/// piece where it was.
pub proof fn field_exchange(
    reg: Seq<Entry>,
    fs: Seq<crate::descriptor::FieldDescriptor>,
    vals: Seq<ValueView>,
    i: int,
    j: int,
    order: ByteOrder,
)
    requires
        vals.len() == fs.len(),
        0 <= i < fs.len(),
        0 <= j < fs.len(),
    ensures
        pieces(reg, exchanged(fs, i, j), exchanged(vals, i, j), order) == exchanged(
            pieces(reg, fs, vals, order),
            i,
            j,
        ),
{
    assert(pieces(reg, exchanged(fs, i, j), exchanged(vals, i, j), order) =~= exchanged(
        pieces(reg, fs, vals, order),
        i,
        j,
    ));
}

/// Two runs of bytes whose first parts are of one length are the same
/// exactly when their first parts are and their second parts are.
pub proof fn lemma_concat_split(a: Seq<u8>, x: Seq<u8>, b: Seq<u8>, y: Seq<u8>)
    requires
        a.len() == b.len(),
    ensures
        (a + x == b + y) <==> (a == b && x == y),
{
    if a + x == b + y {
        assert(a =~= (a + x).take(a.len() as int));
        assert(b =~= (b + y).take(b.len() as int));
        assert(x =~= (a + x).skip(a.len() as int));
        assert(y =~= (b + y).skip(b.len() as int));
    }
}

/// The bytes of a number in the two byte orders: the bytes of the one are
/// those of the other in reverse, so there are as many in the one as in
/// the other, and they are the same where the number takes one byte.
pub proof fn number_byte_orders(n: Number, t: crate::schema::IntType)
    ensures
        crate::schema::number_bytes(n, t, ByteOrder::Big).len() == crate::schema::number_bytes(
            n,
            t,
            ByteOrder::Little,
        ).len(),
        t.spec_width() == 1 ==> crate::schema::number_bytes(n, t, ByteOrder::Big)
            == crate::schema::number_bytes(n, t, ByteOrder::Little),
        crate::schema::number_bytes(n, t, ByteOrder::Big) == crate::schema::number_bytes(
            n,
            t,
            ByteOrder::Little,
        ).reverse(),
{
    let w = t.spec_width();
    match n {
        Number::Unsigned(u) => {
            crate::bytes::lemma_orders_differ(u as nat, w);
        },
        Number::Signed(x) => {
            let p = crate::bytes::twos_complement(x as int, w);
            crate::bytes::lemma_orders_differ(p, w);
        },
    }
}

/// The two byte orders in a primitive type.
pub proof fn lemma_orders_primitive(reg: Seq<Entry>, ty: FieldType, v: ValueView)
    requires
        !(ty is Ref),
    ensures
        encoding(reg, ty, v, ByteOrder::Big).len() == encoding(reg, ty, v, ByteOrder::Little).len(),
        (encoding(reg, ty, v, ByteOrder::Big) == encoding(reg, ty, v, ByteOrder::Little))
            == crate::meaning::order_free(reg, ty, v),
{
    reveal(encoding);
    reveal(crate::meaning::order_free);
}

/// The two byte orders in a run of writes.
pub proof fn lemma_orders_ops(reg: Seq<Entry>, bound: nat, ops: Seq<WriteOp>, vals: Seq<ValueView>)
    requires
        well_formed(reg),
        ops_conform(reg, bound, ops, vals),
    ensures
        ops_encoding(reg, bound, ops, vals, ByteOrder::Big).len() == ops_encoding(
            reg,
            bound,
            ops,
            vals,
            ByteOrder::Little,
        ).len(),
        (ops_encoding(reg, bound, ops, vals, ByteOrder::Big) == ops_encoding(
            reg,
            bound,
            ops,
            vals,
            ByteOrder::Little,
        )) == crate::meaning::ops_order_free(reg, bound, ops, vals),
    decreases bound, 1nat, ops.len(),
{
    crate::meaning::lemma_ops_conform(reg, bound, ops, vals);
    crate::meaning::lemma_ops_encoding(reg, bound, ops, vals, ByteOrder::Big);
    crate::meaning::lemma_ops_encoding(reg, bound, ops, vals, ByteOrder::Little);
    crate::meaning::lemma_ops_order_free(reg, bound, ops, vals);
    if ops.len() > 0 {
        match ops[0] {
            WriteOp::Zeros(n) => {
                lemma_orders_ops(reg, bound, ops.drop_first(), vals);
                lemma_concat_split(
                    crate::write::zeros(n as nat),
                    ops_encoding(reg, bound, ops.drop_first(), vals, ByteOrder::Big),
                    crate::write::zeros(n as nat),
                    ops_encoding(reg, bound, ops.drop_first(), vals, ByteOrder::Little),
                );
            },
            WriteOp::Value(t) => {
                lemma_orders(reg, t, vals[0]);
                lemma_orders_ops(reg, bound, ops.drop_first(), vals.drop_first());
                lemma_concat_split(
                    encoding(reg, t, vals[0], ByteOrder::Big),
                    ops_encoding(reg, bound, ops.drop_first(), vals.drop_first(), ByteOrder::Big),
                    encoding(reg, t, vals[0], ByteOrder::Little),
                    ops_encoding(
                        reg,
                        bound,
                        ops.drop_first(),
                        vals.drop_first(),
                        ByteOrder::Little,
                    ),
                );
            },
        }
    }
}

/// A run of padding is written the same in both byte orders.
pub proof fn lemma_orders_padding(reg: Seq<Entry>, bound: nat, ops: Seq<WriteOp>)
    requires
        crate::meaning::padding_only(ops),
    ensures
        ops_encoding(reg, bound, ops, Seq::empty(), ByteOrder::Big) == ops_encoding(
            reg,
            bound,
            ops,
            Seq::empty(),
            ByteOrder::Little,
        ),
    decreases ops.len(),
{
    crate::meaning::lemma_ops_encoding(reg, bound, ops, Seq::empty(), ByteOrder::Big);
    crate::meaning::lemma_ops_encoding(reg, bound, ops, Seq::empty(), ByteOrder::Little);
    if ops.len() > 0 {
        lemma_orders_padding(reg, bound, ops.drop_first());
    }
}

/// The two byte orders in any type.
pub proof fn lemma_orders(reg: Seq<Entry>, ty: FieldType, v: ValueView)
    requires
        well_formed(reg),
        conforms(reg, ty, v),
    ensures
        encoding(reg, ty, v, ByteOrder::Big).len() == encoding(reg, ty, v, ByteOrder::Little).len(),
        (encoding(reg, ty, v, ByteOrder::Big) == encoding(reg, ty, v, ByteOrder::Little))
            == crate::meaning::order_free(reg, ty, v),
    decreases ty.rank(), 0nat, 0nat,
{
    match ty {
        FieldType::Ref(id) => {
            assert(id < reg.len()) by {
                reveal(conforms);
            }
            match reg[id as int] {
                Entry::Optional(inner) => {
                    lemma_orders_optional(reg, id as nat, v);
                },
                Entry::Declared { decoder, encoder } => {
                    lemma_orders_declared(reg, id as nat, v);
                },
            }
        },
        _ => {
            lemma_orders_primitive(reg, ty, v);
        },
    }
}

/// The two byte orders in an optional value.
pub proof fn lemma_orders_optional(reg: Seq<Entry>, id: nat, v: ValueView)
    requires
        well_formed(reg),
        id < reg.len(),
        id <= usize::MAX,
        reg[id as int] is Optional,
        conforms(reg, FieldType::Ref(id as usize), v),
    ensures
        encoding(reg, FieldType::Ref(id as usize), v, ByteOrder::Big).len() == encoding(
            reg,
            FieldType::Ref(id as usize),
            v,
            ByteOrder::Little,
        ).len(),
        (encoding(reg, FieldType::Ref(id as usize), v, ByteOrder::Big) == encoding(
            reg,
            FieldType::Ref(id as usize),
            v,
            ByteOrder::Little,
        )) == crate::meaning::order_free(reg, FieldType::Ref(id as usize), v),
    decreases id, 4nat, 0nat,
{
    let inner = reg[id as int]->Optional_0;
    reveal(conforms);
    reveal(encoding);
    reveal(crate::meaning::order_free);
    if let ValueView::Optional(Some(x)) = v {
        lemma_orders(reg, inner, *x);
        lemma_concat_split(
            seq![1u8],
            encoding(reg, inner, *x, ByteOrder::Big),
            seq![1u8],
            encoding(reg, inner, *x, ByteOrder::Little),
        );
    }
}

/// The two byte orders in an instance of a declared type.
pub proof fn lemma_orders_declared(reg: Seq<Entry>, id: nat, v: ValueView)
    requires
        well_formed(reg),
        id < reg.len(),
        id <= usize::MAX,
        reg[id as int] is Declared,
        conforms(reg, FieldType::Ref(id as usize), v),
    ensures
        encoding(reg, FieldType::Ref(id as usize), v, ByteOrder::Big).len() == encoding(
            reg,
            FieldType::Ref(id as usize),
            v,
            ByteOrder::Little,
        ).len(),
        (encoding(reg, FieldType::Ref(id as usize), v, ByteOrder::Big) == encoding(
            reg,
            FieldType::Ref(id as usize),
            v,
            ByteOrder::Little,
        )) == crate::meaning::order_free(reg, FieldType::Ref(id as usize), v),
    decreases id, 4nat, 0nat,
{
    let encoder = reg[id as int]->encoder;
    crate::meaning::lemma_conforms_declared(reg, id, v);
    crate::meaning::lemma_order_free_declared(reg, id, v);
    let big = ByteOrder::Big;
    let little = ByteOrder::Little;
    lemma_orders_padding(reg, id, encoder.trailing@);
    let t = ops_encoding(reg, id, encoder.trailing@, Seq::empty(), big);
    match encoder.code {
        crate::procedure::WriteCode::Record(ops) => {
            let vals = v->Record_0;
            crate::meaning::lemma_encoding_record(reg, id, vals, big);
            crate::meaning::lemma_encoding_record(reg, id, vals, little);
            lemma_orders_ops(reg, id, ops@, vals);
            lemma_concat_split(
                ops_encoding(reg, id, ops@, vals, big),
                t,
                ops_encoding(reg, id, ops@, vals, little),
                t,
            );
        },
        crate::procedure::WriteCode::Union { pre, disc_type, post, arms } => {
            let k = v->Variant_0;
            let vals = v->Variant_1;
            let arm = arms@[k as int];
            crate::meaning::lemma_encoding_variant(reg, id, k, vals, big);
            crate::meaning::lemma_encoding_variant(reg, id, k, vals, little);
            lemma_orders_padding(reg, id, pre@);
            lemma_orders_padding(reg, id, post@);
            lemma_orders_ops(reg, id, arm.ops@, vals);
            let p = ops_encoding(reg, id, pre@, Seq::empty(), big);
            let q = ops_encoding(reg, id, post@, Seq::empty(), big);
            let db = crate::meaning::discriminant_bytes(arm.discriminant, disc_type, big);
            let dl = crate::meaning::discriminant_bytes(arm.discriminant, disc_type, little);
            let fb = ops_encoding(reg, id, arm.ops@, vals, big);
            let fl = ops_encoding(reg, id, arm.ops@, vals, little);
            assert(p + db + q + fb + t =~= (p + db) + (q + fb + t));
            assert(p + dl + q + fl + t =~= (p + dl) + (q + fl + t));
            lemma_concat_split(p + db, q + fb + t, p + dl, q + fl + t);
            lemma_concat_split(p, db, p, dl);
            lemma_concat_split(q + fb, t, q + fl, t);
            lemma_concat_split(q, fb, q, fl);
        },
    }
}

/// Byte orders. The two byte orders write an instance as equally many
/// bytes. They write it as different bytes exactly when there is an
/// integer in it, the discriminant of a union included, that the two
/// orders write differently (see [`crate::meaning::order_free`]): a
/// one-byte integer never is, and a wider one is unless its bytes read the
/// same in both directions, as those of `0x0101` do. Decoding in the order
/// of the encoding gives the instance back in either order: that is
/// [`round_trip`].
pub proof fn byte_orders(reg: Seq<Entry>, ty: FieldType, v: ValueView)
    requires
        well_formed(reg),
        conforms(reg, ty, v),
    ensures
        encoding(reg, ty, v, ByteOrder::Big).len() == encoding(reg, ty, v, ByteOrder::Little).len(),
        encoding(reg, ty, v, ByteOrder::Big) != encoding(reg, ty, v, ByteOrder::Little)
            <==> !crate::meaning::order_free(reg, ty, v),
{
    lemma_orders(reg, ty, v);
}

/// A run of reads means the same once more types are registered.
pub proof fn lemma_stable_ops_decoded(
    reg: Seq<Entry>,
    more: Seq<Entry>,
    bound: nat,
    ops: Seq<ReadOp>,
    bytes: Seq<u8>,
    order: ByteOrder,
)
    requires
        bound <= reg.len(),
    ensures
        ops_decoded(reg + more, bound, ops, bytes, order) == ops_decoded(
            reg,
            bound,
            ops,
            bytes,
            order,
        ),
    decreases bound, 1nat, ops.len(),
{
    crate::meaning::lemma_ops_decoded(reg + more, bound, ops, bytes, order);
    crate::meaning::lemma_ops_decoded(reg, bound, ops, bytes, order);
    if ops.len() > 0 {
        match ops[0] {
            ReadOp::Skip(k) => {
                if bytes.len() >= k {
                    lemma_stable_ops_decoded(
                        reg,
                        more,
                        bound,
                        ops.drop_first(),
                        bytes.skip(k as int),
                        order,
                    );
                }
            },
            ReadOp::Value(t) => {
                if earlier(t, bound) {
                    lemma_stable_decoded(reg, more, t, bytes, order);
                    if let Ok((v, m)) = decoded(reg, t, bytes, order) {
                        lemma_stable_ops_decoded(
                            reg,
                            more,
                            bound,
                            ops.drop_first(),
                            bytes.skip(m as int),
                            order,
                        );
                    }
                }
            },
        }
    }
}

/// The fields of a declared type mean the same once more types are
/// registered.
pub proof fn lemma_stable_fields_decoded(
    reg: Seq<Entry>,
    more: Seq<Entry>,
    id: nat,
    ops: Seq<ReadOp>,
    trailing: Seq<ReadOp>,
    bytes: Seq<u8>,
    order: ByteOrder,
)
    requires
        id <= reg.len(),
    ensures
        fields_decoded(reg + more, id, ops, trailing, bytes, order) == fields_decoded(
            reg,
            id,
            ops,
            trailing,
            bytes,
            order,
        ),
    decreases id, 2nat, 0nat,
{
    crate::meaning::lemma_fields_decoded(reg + more, id, ops, trailing, bytes, order);
    crate::meaning::lemma_fields_decoded(reg, id, ops, trailing, bytes, order);
    lemma_stable_ops_decoded(reg, more, id, ops, bytes, order);
    if let Ok((vals, n)) = ops_decoded(reg, id, ops, bytes, order) {
        lemma_stable_ops_decoded(reg, more, id, trailing, bytes.skip(n as int), order);
    }
}

/// Decoding means the same once more types are registered.
pub proof fn lemma_stable_decoded(
    reg: Seq<Entry>,
    more: Seq<Entry>,
    ty: FieldType,
    bytes: Seq<u8>,
    order: ByteOrder,
)
    requires
        ty.rank() <= reg.len(),
    ensures
        decoded(reg + more, ty, bytes, order) == decoded(reg, ty, bytes, order),
    decreases ty.rank(), 0nat, 0nat,
{
    match ty {
        FieldType::Ref(id) => {
            assert((reg + more)[id as int] == reg[id as int]);
            match reg[id as int] {
                Entry::Optional(inner) => {
                    reveal(decoded);
                    if earlier(inner, id as nat) {
                        lemma_stable_decoded(reg, more, inner, bytes.skip(1), order);
                    }
                },
                Entry::Declared { decoder, encoder } => {
                    lemma_stable_declared_decoded(reg, more, id as nat, bytes, order);
                },
            }
        },
        _ => {
            reveal(decoded);
        },
    }
}

/// Decoding a declared type means the same once more types are
/// registered.
pub proof fn lemma_stable_declared_decoded(
    reg: Seq<Entry>,
    more: Seq<Entry>,
    id: nat,
    bytes: Seq<u8>,
    order: ByteOrder,
)
    requires
        id < reg.len(),
        id <= usize::MAX,
        reg[id as int] is Declared,
    ensures
        decoded(reg + more, FieldType::Ref(id as usize), bytes, order) == decoded(
            reg,
            FieldType::Ref(id as usize),
            bytes,
            order,
        ),
    decreases id, 4nat, 0nat,
{
    let all = reg + more;
    assert(all[id as int] == reg[id as int]);
    let p = reg[id as int]->decoder;
    crate::meaning::lemma_decoded_declared(all, id, bytes, order);
    crate::meaning::lemma_decoded_declared(reg, id, bytes, order);
    match p.code {
        crate::procedure::ReadCode::Record(ops) => {
            crate::meaning::lemma_record_decoded(all, id, ops@, p.trailing@, bytes, order);
            crate::meaning::lemma_record_decoded(reg, id, ops@, p.trailing@, bytes, order);
            lemma_stable_fields_decoded(reg, more, id, ops@, p.trailing@, bytes, order);
        },
        crate::procedure::ReadCode::Union { name, pre, disc_type, post, arms } => {
            crate::meaning::lemma_union_decoded(
                all,
                id,
                name,
                pre@,
                disc_type,
                post@,
                arms@,
                p.trailing@,
                bytes,
                order,
            );
            crate::meaning::lemma_union_decoded(
                reg,
                id,
                name,
                pre@,
                disc_type,
                post@,
                arms@,
                p.trailing@,
                bytes,
                order,
            );
            crate::meaning::lemma_tag_decoded(all, id, pre@, disc_type, post@, bytes, order);
            crate::meaning::lemma_tag_decoded(reg, id, pre@, disc_type, post@, bytes, order);
            lemma_stable_ops_decoded(reg, more, id, pre@, bytes, order);
            if let Ok((_, n0)) = ops_decoded(reg, id, pre@, bytes, order) {
                if let Ok((d, n1)) = crate::schema::number_decoded(
                    bytes.skip(n0 as int),
                    disc_type,
                    order,
                ) {
                    lemma_stable_ops_decoded(
                        reg,
                        more,
                        id,
                        post@,
                        bytes.skip((n0 + n1) as int),
                        order,
                    );
                    if let Ok((_, n2)) = ops_decoded(
                        reg,
                        id,
                        post@,
                        bytes.skip((n0 + n1) as int),
                        order,
                    ) {
                        if let Some(k) = first_match(arms@, d, 0) {
                            first_match_is_first(arms@, d, 0);
                            lemma_stable_fields_decoded(
                                reg,
                                more,
                                id,
                                arms@[k].ops@,
                                p.trailing@,
                                bytes.skip((n0 + n1 + n2) as int),
                                order,
                            );
                        }
                    }
                }
            }
        },
    }
}

/// A run of writes means the same once more types are registered.
pub proof fn lemma_stable_ops(
    reg: Seq<Entry>,
    more: Seq<Entry>,
    bound: nat,
    ops: Seq<WriteOp>,
    vals: Seq<ValueView>,
    order: ByteOrder,
)
    requires
        bound <= reg.len(),
    ensures
        ops_conform(reg + more, bound, ops, vals) == ops_conform(reg, bound, ops, vals),
        ops_encoding(reg + more, bound, ops, vals, order) == ops_encoding(
            reg,
            bound,
            ops,
            vals,
            order,
        ),
    decreases bound, 1nat, ops.len(),
{
    crate::meaning::lemma_ops_conform(reg + more, bound, ops, vals);
    crate::meaning::lemma_ops_conform(reg, bound, ops, vals);
    crate::meaning::lemma_ops_encoding(reg + more, bound, ops, vals, order);
    crate::meaning::lemma_ops_encoding(reg, bound, ops, vals, order);
    if ops.len() > 0 {
        match ops[0] {
            WriteOp::Zeros(_) => {
                lemma_stable_ops(reg, more, bound, ops.drop_first(), vals, order);
            },
            WriteOp::Value(t) => {
                if earlier(t, bound) && vals.len() > 0 {
                    lemma_stable(reg, more, t, vals[0], order);
                    lemma_stable_ops(reg, more, bound, ops.drop_first(), vals.drop_first(), order);
                }
            },
        }
    }
}

/// Instances and their bytes are the same once more types are registered.
pub proof fn lemma_stable(
    reg: Seq<Entry>,
    more: Seq<Entry>,
    ty: FieldType,
    v: ValueView,
    order: ByteOrder,
)
    requires
        ty.rank() <= reg.len(),
    ensures
        conforms(reg + more, ty, v) == conforms(reg, ty, v),
        encoding(reg + more, ty, v, order) == encoding(reg, ty, v, order),
    decreases ty.rank(), 0nat, 0nat,
{
    match ty {
        FieldType::Ref(id) => {
            assert((reg + more)[id as int] == reg[id as int]);
            match reg[id as int] {
                Entry::Optional(inner) => {
                    reveal(conforms);
                    reveal(encoding);
                    if earlier(inner, id as nat) {
                        if let ValueView::Optional(Some(x)) = v {
                            lemma_stable(reg, more, inner, *x, order);
                        }
                    }
                },
                Entry::Declared { decoder, encoder } => {
                    lemma_stable_declared(reg, more, id as nat, v, order);
                },
            }
        },
        _ => {
            reveal(conforms);
            reveal(encoding);
        },
    }
}

/// Instances of a declared type and their bytes are the same once more
/// types are registered.
pub proof fn lemma_stable_declared(
    reg: Seq<Entry>,
    more: Seq<Entry>,
    id: nat,
    v: ValueView,
    order: ByteOrder,
)
    requires
        id < reg.len(),
        id <= usize::MAX,
        reg[id as int] is Declared,
    ensures
        conforms(reg + more, FieldType::Ref(id as usize), v) == conforms(
            reg,
            FieldType::Ref(id as usize),
            v,
        ),
        encoding(reg + more, FieldType::Ref(id as usize), v, order) == encoding(
            reg,
            FieldType::Ref(id as usize),
            v,
            order,
        ),
    decreases id, 4nat, 0nat,
{
    let all = reg + more;
    assert(all[id as int] == reg[id as int]);
    let p = reg[id as int]->encoder;
    crate::meaning::lemma_conforms_declared(all, id, v);
    crate::meaning::lemma_conforms_declared(reg, id, v);
    match p.code {
        crate::procedure::WriteCode::Record(ops) => {
            if let ValueView::Record(vals) = v {
                crate::meaning::lemma_encoding_record(all, id, vals, order);
                crate::meaning::lemma_encoding_record(reg, id, vals, order);
                lemma_stable_ops(reg, more, id, ops@, vals, order);
                lemma_stable_ops(reg, more, id, p.trailing@, Seq::empty(), order);
            } else {
                lemma_encoding_misfit(all, id, v, order);
                lemma_encoding_misfit(reg, id, v, order);
            }
        },
        crate::procedure::WriteCode::Union { pre, disc_type, post, arms } => {
            if v is Variant && v->Variant_0 < arms@.len() {
                let k = v->Variant_0;
                let vals = v->Variant_1;
                crate::meaning::lemma_encoding_variant(all, id, k, vals, order);
                crate::meaning::lemma_encoding_variant(reg, id, k, vals, order);
                lemma_stable_ops(reg, more, id, pre@, Seq::empty(), order);
                lemma_stable_ops(reg, more, id, post@, Seq::empty(), order);
                lemma_stable_ops(reg, more, id, arms@[k as int].ops@, vals, order);
                lemma_stable_ops(reg, more, id, p.trailing@, Seq::empty(), order);
            } else {
                lemma_encoding_misfit(all, id, v, order);
                lemma_encoding_misfit(reg, id, v, order);
            }
        },
    }
}

/// A value that is of the wrong kind for a declared type has no bytes.
pub proof fn lemma_encoding_misfit(reg: Seq<Entry>, id: nat, v: ValueView, order: ByteOrder)
    requires
        id < reg.len(),
        id <= usize::MAX,
        reg[id as int] is Declared,
        match reg[id as int]->encoder.code {
            crate::procedure::WriteCode::Record(_) => !(v is Record),
            crate::procedure::WriteCode::Union { arms, .. } => !(v is Variant && v->Variant_0
                < arms@.len()),
        },
    ensures
        encoding(reg, FieldType::Ref(id as usize), v, order) == Seq::<u8>::empty(),
{
    let p = reg[id as int]->encoder;
    assert(encoding(reg, FieldType::Ref(id as usize), v, order)
        == crate::meaning::procedure_encoding(reg, id, p, v, order)) by {
        reveal(encoding);
        reveal(crate::meaning::procedure_encoding);
    }
    assert(crate::meaning::procedure_encoding(reg, id, p, v, order) == Seq::<u8>::empty()) by {
        reveal(crate::meaning::procedure_encoding);
        reveal(crate::meaning::record_encoding);
        reveal(crate::meaning::union_encoding);
    }
}

/// Stability. Registering more types changes nothing of the types
/// registered before: they have the same instances, the instances have the
/// same bytes, and the same bytes are decoded to the same instances.
pub proof fn registered_is_stable(
    reg: Seq<Entry>,
    more: Seq<Entry>,
    ty: FieldType,
    v: ValueView,
    bytes: Seq<u8>,
    order: ByteOrder,
)
    requires
        ty.rank() <= reg.len(),
    ensures
        conforms(reg + more, ty, v) == conforms(reg, ty, v),
        encoding(reg + more, ty, v, order) == encoding(reg, ty, v, order),
        decoded(reg + more, ty, bytes, order) == decoded(reg, ty, bytes, order),
{
    lemma_stable(reg, more, ty, v, order);
    lemma_stable_decoded(reg, more, ty, bytes, order);
}

/// Round trip of a boolean read and written through the traits.
pub proof fn round_trip_bool<E: crate::endian::Endianness>(x: bool, rest: Seq<u8>)
    ensures
        <bool as crate::deserialize::Deserialize<E>>::decoded(
            <bool as crate::serialize::Serialize<E>>::encoding(x) + rest,
        ) == Ok::<(bool, nat), Error>((x, 1)),
{
}

/// Round trip of an address read and written through the traits.
pub proof fn round_trip_address<E: crate::endian::Endianness>(x: [u8; 4], rest: Seq<u8>)
    ensures
        <[u8; 4] as crate::deserialize::Deserialize<E>>::decoded(
            <[u8; 4] as crate::serialize::Serialize<E>>::encoding(x) + rest,
        ) == Ok::<([u8; 4], nat), Error>((x, 4)),
{
    let bytes = x@ + rest;
    let y: [u8; 4] = [bytes[0], bytes[1], bytes[2], bytes[3]];
    assert(y == x);
}

/// Round trip of an optional value read and written through the traits,
/// where the value itself makes the round trip.
pub proof fn round_trip_option<
    E: crate::endian::Endianness,
    T: crate::serialize::Serialize<E> + crate::deserialize::Deserialize<E>,
>(x: Option<T>, rest: Seq<u8>)
    requires
        x matches Some(v) ==> T::decoded(v.encoding() + rest) == Ok::<(T, nat), Error>(
            (v, v.encoding().len()),
        ),
    ensures
        <Option<T> as crate::deserialize::Deserialize<E>>::decoded(
            <Option<T> as crate::serialize::Serialize<E>>::encoding(x) + rest,
        ) == Ok::<(Option<T>, nat), Error>(
            (x, <Option<T> as crate::serialize::Serialize<E>>::encoding(x).len()),
        ),
{
    let enc = <Option<T> as crate::serialize::Serialize<E>>::encoding(x);
    if let Some(v) = x {
        assert((enc + rest).skip(1) =~= v.encoding() + rest);
    }
}

/// Round trip of a `u8` read and written through the traits.
pub proof fn round_trip_u8<E: crate::endian::Endianness>(x: u8, rest: Seq<u8>)
    ensures
        <u8 as crate::deserialize::Deserialize<E>>::decoded(
            <u8 as crate::serialize::Serialize<E>>::encoding(x) + rest,
        ) == Ok::<(u8, nat), Error>((x, 1)),
{
    let enc = <u8 as crate::serialize::Serialize<E>>::encoding(x);
    crate::bytes::lemma_pow256_widths();
    crate::bytes::lemma_uint_bytes_len(x as nat, 1, E::byte_order());
    crate::bytes::lemma_uint_round_trip(x as nat, 1, E::byte_order());
    assert((enc + rest).take(1) =~= enc);
}

/// Round trip of a `u16` read and written through the traits.
pub proof fn round_trip_u16<E: crate::endian::Endianness>(x: u16, rest: Seq<u8>)
    ensures
        <u16 as crate::deserialize::Deserialize<E>>::decoded(
            <u16 as crate::serialize::Serialize<E>>::encoding(x) + rest,
        ) == Ok::<(u16, nat), Error>((x, 2)),
{
    let enc = <u16 as crate::serialize::Serialize<E>>::encoding(x);
    crate::bytes::lemma_pow256_widths();
    crate::bytes::lemma_uint_bytes_len(x as nat, 2, E::byte_order());
    crate::bytes::lemma_uint_round_trip(x as nat, 2, E::byte_order());
    assert((enc + rest).take(2) =~= enc);
}

/// Round trip of a `u32` read and written through the traits.
pub proof fn round_trip_u32<E: crate::endian::Endianness>(x: u32, rest: Seq<u8>)
    ensures
        <u32 as crate::deserialize::Deserialize<E>>::decoded(
            <u32 as crate::serialize::Serialize<E>>::encoding(x) + rest,
        ) == Ok::<(u32, nat), Error>((x, 4)),
{
    let enc = <u32 as crate::serialize::Serialize<E>>::encoding(x);
    crate::bytes::lemma_pow256_widths();
    crate::bytes::lemma_uint_bytes_len(x as nat, 4, E::byte_order());
    crate::bytes::lemma_uint_round_trip(x as nat, 4, E::byte_order());
    assert((enc + rest).take(4) =~= enc);
}

/// Round trip of a `u64` read and written through the traits.
pub proof fn round_trip_u64<E: crate::endian::Endianness>(x: u64, rest: Seq<u8>)
    ensures
        <u64 as crate::deserialize::Deserialize<E>>::decoded(
            <u64 as crate::serialize::Serialize<E>>::encoding(x) + rest,
        ) == Ok::<(u64, nat), Error>((x, 8)),
{
    let enc = <u64 as crate::serialize::Serialize<E>>::encoding(x);
    crate::bytes::lemma_pow256_widths();
    crate::bytes::lemma_uint_bytes_len(x as nat, 8, E::byte_order());
    crate::bytes::lemma_uint_round_trip(x as nat, 8, E::byte_order());
    assert((enc + rest).take(8) =~= enc);
}

/// Round trip of a `u128` read and written through the traits.
pub proof fn round_trip_u128<E: crate::endian::Endianness>(x: u128, rest: Seq<u8>)
    ensures
        <u128 as crate::deserialize::Deserialize<E>>::decoded(
            <u128 as crate::serialize::Serialize<E>>::encoding(x) + rest,
        ) == Ok::<(u128, nat), Error>((x, 16)),
{
    let enc = <u128 as crate::serialize::Serialize<E>>::encoding(x);
    crate::bytes::lemma_pow256_widths();
    crate::bytes::lemma_uint_bytes_len(x as nat, 16, E::byte_order());
    crate::bytes::lemma_uint_round_trip(x as nat, 16, E::byte_order());
    assert((enc + rest).take(16) =~= enc);
}

/// Round trip of an `i8` read and written through the traits.
pub proof fn round_trip_i8<E: crate::endian::Endianness>(x: i8, rest: Seq<u8>)
    ensures
        <i8 as crate::deserialize::Deserialize<E>>::decoded(
            <i8 as crate::serialize::Serialize<E>>::encoding(x) + rest,
        ) == Ok::<(i8, nat), Error>((x, 1)),
{
    let enc = <i8 as crate::serialize::Serialize<E>>::encoding(x);
    crate::bytes::lemma_pow256_widths();
    crate::bytes::lemma_int_round_trip(x as int, 1, E::byte_order());
    assert((enc + rest).take(1) =~= enc);
}

/// Round trip of an `i16` read and written through the traits.
pub proof fn round_trip_i16<E: crate::endian::Endianness>(x: i16, rest: Seq<u8>)
    ensures
        <i16 as crate::deserialize::Deserialize<E>>::decoded(
            <i16 as crate::serialize::Serialize<E>>::encoding(x) + rest,
        ) == Ok::<(i16, nat), Error>((x, 2)),
{
    let enc = <i16 as crate::serialize::Serialize<E>>::encoding(x);
    crate::bytes::lemma_pow256_widths();
    crate::bytes::lemma_int_round_trip(x as int, 2, E::byte_order());
    assert((enc + rest).take(2) =~= enc);
}

/// Round trip of an `i32` read and written through the traits.
pub proof fn round_trip_i32<E: crate::endian::Endianness>(x: i32, rest: Seq<u8>)
    ensures
        <i32 as crate::deserialize::Deserialize<E>>::decoded(
            <i32 as crate::serialize::Serialize<E>>::encoding(x) + rest,
        ) == Ok::<(i32, nat), Error>((x, 4)),
{
    let enc = <i32 as crate::serialize::Serialize<E>>::encoding(x);
    crate::bytes::lemma_pow256_widths();
    crate::bytes::lemma_int_round_trip(x as int, 4, E::byte_order());
    assert((enc + rest).take(4) =~= enc);
}

/// Round trip of an `i64` read and written through the traits.
pub proof fn round_trip_i64<E: crate::endian::Endianness>(x: i64, rest: Seq<u8>)
    ensures
        <i64 as crate::deserialize::Deserialize<E>>::decoded(
            <i64 as crate::serialize::Serialize<E>>::encoding(x) + rest,
        ) == Ok::<(i64, nat), Error>((x, 8)),
{
    let enc = <i64 as crate::serialize::Serialize<E>>::encoding(x);
    crate::bytes::lemma_pow256_widths();
    crate::bytes::lemma_int_round_trip(x as int, 8, E::byte_order());
    assert((enc + rest).take(8) =~= enc);
}

/// Round trip of an `i128` read and written through the traits.
pub proof fn round_trip_i128<E: crate::endian::Endianness>(x: i128, rest: Seq<u8>)
    ensures
        <i128 as crate::deserialize::Deserialize<E>>::decoded(
            <i128 as crate::serialize::Serialize<E>>::encoding(x) + rest,
        ) == Ok::<(i128, nat), Error>((x, 16)),
{
    let enc = <i128 as crate::serialize::Serialize<E>>::encoding(x);
    crate::bytes::lemma_pow256_widths();
    crate::bytes::lemma_int_round_trip(x as int, 16, E::byte_order());
    assert((enc + rest).take(16) =~= enc);
}

} // verus!
