//! A registry of types, and the running of their procedures.
//!
//! Types are registered one after the other and named by their index. A
//! type is built only from primitives and from types registered before
//! it, so every instance is a finite tree and every run comes to an end.

use crate::deserialize::read_bool;
use crate::discriminant::Discriminant;
use crate::endian::ByteOrder;
use crate::decl::{Data, Declaration, Fields};
use crate::descriptor::{describe, Descriptor};
use crate::error::{Error, LayoutError, Number};
use crate::meaning::Entry;
use crate::procedure::{ReadArm, ReadCode, ReadOp, WriteArm, WriteCode, WriteOp};
use crate::read::Reader;
use crate::schema::{read_number, write_number, FieldType, IntType};
use crate::serialize::write_bool;
use crate::write::Writer;
use crate::value::{Value, ValueView};
use vstd::prelude::*;

verus! {

/// The contents of a list of values, one by one.
pub open spec fn contents(values: Seq<Value>) -> Seq<ValueView> {
    Seq::new(values.len(), |i: int| values[i]@)
}

/// What a read of an instance of `ty` that found `before` pending, gave
/// `r` and left `after` pending has to do with the meaning of the bytes: on
/// success the instance is the one that the front of `before` stands for
/// and `after` is what follows it; on failure the error is the one the
/// meaning gives.
pub open spec fn decoding(
    reg: Seq<Entry>,
    ty: FieldType,
    order: ByteOrder,
    before: Seq<u8>,
    r: Result<Value, Error>,
    after: Seq<u8>,
) -> bool {
    match crate::meaning::decoded(reg, ty, before, order) {
        Ok((v, n)) => r matches Ok(x) && x@ == v && n <= before.len() && after == before.skip(
            n as int,
        ),
        Err(e) => r == Err::<Value, Error>(e),
    }
}

/// The same for a run of reads.
pub open spec fn ops_decoding(
    reg: Seq<Entry>,
    bound: nat,
    ops: Seq<ReadOp>,
    order: ByteOrder,
    before: Seq<u8>,
    r: Result<Vec<Value>, Error>,
    after: Seq<u8>,
) -> bool {
    match crate::meaning::ops_decoded(reg, bound, ops, before, order) {
        Ok((vals, n)) => r matches Ok(out) && contents(out@) == vals && n <= before.len() && after
            == before.skip(n as int),
        Err(e) => r == Err::<Vec<Value>, Error>(e),
    }
}

/// What has been read so far, joined with what the rest of a run makes of
/// the rest of the bytes.
pub open spec fn joined(
    done: Seq<ValueView>,
    taken: nat,
    rest: Result<(Seq<ValueView>, nat), Error>,
) -> Result<(Seq<ValueView>, nat), Error> {
    match rest {
        Err(e) => Err(e),
        Ok((vals, n)) => Ok((done + vals, taken + n)),
    }
}

/// The number that stands for a discriminant in the type `ty`, if the
/// discriminant is a number of that type.
pub(crate) fn discriminant_number(d: &Discriminant, ty: IntType) -> (r: Option<Number>)
    ensures
        r == crate::meaning::number_of(*d, ty),
{
    let w: usize = ty.width();
    let top: u128 = crate::bytes::max_unsigned(w);
    if d.base >= 0 {
        let sum: u128 = d.base as u128 + d.offset as u128;
        if ty.signed() {
            if sum <= top / 2 {
                Some(Number::Signed(sum as i128))
            } else {
                None
            }
        } else {
            if sum <= top {
                Some(Number::Unsigned(sum))
            } else {
                None
            }
        }
    } else {
        let sum: i128 = d.base + d.offset as i128;
        if ty.signed() {
            let fits: bool = if sum >= 0 {
                sum as u128 <= top / 2
            } else {
                (-(sum + 1)) as u128 <= top / 2
            };
            if fits {
                Some(Number::Signed(sum))
            } else {
                None
            }
        } else {
            if sum >= 0 && sum as u128 <= top {
                Some(Number::Unsigned(sum as u128))
            } else {
                None
            }
        }
    }
}

/// Whether the type `t` may appear inside the type registered under `id`.
pub(crate) fn is_earlier(t: FieldType, id: usize) -> (b: bool)
    ensures
        b == crate::meaning::earlier(t, id as nat),
{
    match t {
        FieldType::Ref(j) => j < id,
        _ => true,
    }
}

/// The position of the first arm whose discriminant is the number `d` of
/// the type `ty`, if there is one.
fn select_arm(arms: &Vec<ReadArm>, ty: IntType, d: Number) -> (r: Option<usize>)
    requires
        ty.holds(d),
    ensures
        match r {
            Some(i) => i < arms@.len() && crate::meaning::first_match(arms@, d, 0) == Some(
                i as int,
            ),
            None => crate::meaning::first_match(arms@, d, 0) is None,
        },
{
    let mut i: usize = 0;
    proof {
        crate::bytes::lemma_pow256_widths();
    }
    while i < arms.len()
        invariant
            i <= arms@.len(),
            ty.holds(d),
            crate::bytes::pow256(16) == 0x1_0000_0000_0000_0000_0000_0000_0000_0000,
            crate::meaning::first_match(arms@, d, 0) == crate::meaning::first_match(
                arms@,
                d,
                i as int,
            ),
        decreases arms@.len() - i,
    {
        proof {
            crate::bytes::lemma_pow256_monotonic(ty.spec_width(), 16);
        }
        let found: bool = match discriminant_number(&arms[i].discriminant, ty) {
            Some(n) => n == d,
            None => false,
        };
        if found {
            return Some(i);
        }
        i = i + 1;
    }
    None
}

/// Whether the types of all fields in `fields` may appear inside a type
/// registered under `id`.
pub open spec fn fields_known(fields: Fields, id: nat) -> bool {
    forall|i: int|
        0 <= i < fields.list().len() ==> crate::meaning::earlier((#[trigger] fields.list()[i]).ty, id)
}

/// Whether the types of all fields of a declaration may appear inside a
/// type registered under `id`: each is a primitive or registered before.
pub open spec fn types_known(input: Declaration, id: nat) -> bool {
    match input.data {
        Data::Record(fields) => fields_known(fields, id),
        Data::Union(vs) => forall|k: int|
            0 <= k < vs@.len() ==> fields_known((#[trigger] vs@[k]).fields, id),
    }
}

/// Whether the discriminant of every variant of a declared union is a
/// number of the union's discriminant type.
pub open spec fn discriminants_fit(input: Declaration) -> bool {
    match input.data {
        Data::Record(_) => true,
        Data::Union(vs) => match crate::descriptor::disc_type_of(input.attrs@) {
            Err(_) => true,
            Ok(t) => forall|k: int|
                0 <= k < vs@.len() ==> t.admits(
                    (#[trigger] crate::discriminant::resolved_at(
                        crate::descriptor::overrides_of(vs@),
                        0i128,
                        k,
                    )).value(),
                ),
        },
    }
}

/// Why a declaration cannot be registered under `id`, if it cannot: the
/// first fault in the declaration itself; else a field of a type not known
/// by then; else a discriminant that is no number of the discriminant
/// type.
pub open spec fn refusal(input: Declaration, id: nat) -> Option<LayoutError> {
    if crate::descriptor::declaration_error(input) is Some {
        crate::descriptor::declaration_error(input)
    } else if !types_known(input, id) {
        Some(LayoutError::UnknownFieldType)
    } else if !discriminants_fit(input) {
        Some(LayoutError::DiscriminantOutOfRange)
    } else {
        None
    }
}

/// The types that a descriptor's procedures depend on are known exactly
/// when the types of the declaration's fields are.
pub proof fn lemma_types_known(input: Declaration, d: Descriptor, id: nat)
    requires
        crate::descriptor::describes(input, d),
    ensures
        crate::meaning::all_earlier(crate::procedure::bounds_of(d), id) == types_known(input, id),
{
    match d {
        Descriptor::Record(r) => {
            let fields = input.data->Record_0;
            lemma_shape_known(fields, r.shape, id);
        },
        Descriptor::Union(u) => {
            let vs = input.data->Union_0@;
            let head = seq![FieldType::Int(u.disc_type)];
            let tail = crate::procedure::variant_types(u.variants@);
            crate::meaning::lemma_variant_types(u.variants@, id);
            if crate::meaning::all_earlier(head + tail, id) {
                assert forall|i: int| 0 <= i < tail.len() implies crate::meaning::earlier(
                    #[trigger] tail[i],
                    id,
                ) by {
                    assert(tail[i] == (head + tail)[1 + i]);
                }
                assert forall|k: int| 0 <= k < vs.len() implies fields_known(
                    (#[trigger] vs[k]).fields,
                    id,
                ) by {
                    lemma_shape_known(vs[k].fields, u.variants@[k].shape, id);
                }
            }
        },
    }
}

/// The types of a described shape are known exactly when those of the
/// declared fields are.
pub proof fn lemma_shape_known(fields: Fields, shape: crate::descriptor::TypeShape, id: nat)
    requires
        crate::descriptor::describes_shape(fields, shape),
    ensures
        crate::meaning::all_earlier(crate::procedure::field_types(shape.fields()), id)
            == fields_known(fields, id),
{
    let types = crate::procedure::field_types(shape.fields());
    let fs = fields.list();
    if crate::meaning::all_earlier(types, id) {
        assert forall|i: int| 0 <= i < fs.len() implies crate::meaning::earlier(
            (#[trigger] fs[i]).ty,
            id,
        ) by {
            assert(crate::meaning::earlier(types[i], id));
        }
    }
}

/// Whether every type in `types` may appear inside the type registered
/// under `id`.
fn all_known(types: &Vec<FieldType>, id: usize) -> (b: bool)
    ensures
        b == crate::meaning::all_earlier(types@, id as nat),
{
    let mut i: usize = 0;
    while i < types.len()
        invariant
            i <= types@.len(),
            forall|k: int| 0 <= k < i ==> crate::meaning::earlier(#[trigger] types@[k], id as nat),
        decreases types@.len() - i,
    {
        if !is_earlier(types[i], id) {
            return false;
        }
        i = i + 1;
    }
    true
}

/// Whether the discriminant of every arm is a number of the type `ty`.
fn arms_fit(arms: &Vec<WriteArm>, ty: IntType) -> (b: bool)
    ensures
        b == forall|k: int|
            0 <= k < arms@.len() ==> ty.admits((#[trigger] arms@[k]).discriminant.value()),
{
    let mut i: usize = 0;
    while i < arms.len()
        invariant
            i <= arms@.len(),
            forall|k: int| 0 <= k < i ==> ty.admits((#[trigger] arms@[k]).discriminant.value()),
        decreases arms@.len() - i,
    {
        if discriminant_number(&arms[i].discriminant, ty).is_none() {
            return false;
        }
        i = i + 1;
    }
    true
}

/// Whether the discriminants of the arms all differ.
fn arms_differ(arms: &Vec<WriteArm>) -> (b: bool)
    ensures
        b == crate::meaning::arms_distinct(arms@),
{
    let mut j: usize = 0;
    while j < arms.len()
        invariant
            j <= arms@.len(),
            forall|p: int, q: int|
                0 <= p < q < j ==> (#[trigger] arms@[p]).discriminant.value() != (#[trigger] arms@[q]).discriminant.value(),
        decreases arms@.len() - j,
    {
        let mut i: usize = 0;
        while i < j
            invariant
                i <= j < arms@.len(),
                forall|p: int, q: int|
                    0 <= p < q < j ==> (#[trigger] arms@[p]).discriminant.value() != (#[trigger] arms@[q]).discriminant.value(),
                forall|p: int|
                    0 <= p < i ==> (#[trigger] arms@[p]).discriminant.value()
                        != arms@[j as int].discriminant.value(),
            decreases j - i,
        {
            if crate::discriminant::same_value(&arms[i].discriminant, &arms[j].discriminant) {
                return false;
            }
            i = i + 1;
        }
        j = j + 1;
    }
    true
}

/// A registry of types.
pub struct Registry {
    entries: Vec<Entry>,
}

impl View for Registry {
    type V = Seq<Entry>;

    closed spec fn view(&self) -> Seq<Entry> {
        self.entries@
    }
}

impl Registry {
    #[verifier::type_invariant]
    spec fn sound(self) -> bool {
        crate::meaning::well_formed(self.entries@)
    }

    /// A registry with no types in it.
    pub fn new() -> (r: Self)
        ensures
            r@ == Seq::<Entry>::empty(),
    {
        Registry { entries: Vec::new() }
    }

    /// How many types are registered.
    pub fn len(&self) -> (n: usize)
        ensures
            n == self@.len(),
    {
        self.entries.len()
    }

    /// Registers a declared type: makes its descriptor, compiles its two
    /// procedures, and gives the index under which the type is known from
    /// now on. A declaration that cannot be registered leaves the registry
    /// as it was.
    pub fn register(&mut self, input: &Declaration) -> (r: Result<usize, LayoutError>)
        ensures
            match r {
                Ok(id) => {
                    &&& refusal(*input, old(self)@.len()) is None
                    &&& id == old(self)@.len()
                    &&& final(self)@.len() == id + 1
                    &&& final(self)@.take(id as int) == old(self)@
                    &&& final(self)@[id as int] matches Entry::Declared { decoder, encoder }
                        && exists|d: Descriptor|
                        crate::descriptor::describes(*input, d) && decoder.implements(d)
                            && encoder.implements(d)
                },
                Err(e) => refusal(*input, old(self)@.len()) == Some(e) && final(self)@ == old(
                    self,
                )@,
            },
    {
        proof {
            use_type_invariant(&*self);
        }
        let descriptor = describe(input)?;
        let id: usize = self.entries.len();
        let decoder = crate::derive::deserialize::compile(&descriptor);
        let encoder = crate::derive::serialize::compile(&descriptor);
        proof {
            lemma_types_known(*input, descriptor, id as nat);
        }
        if !all_known(&encoder.bounds, id) {
            return Err(LayoutError::UnknownFieldType);
        }
        let fit: bool = match &encoder.code {
            WriteCode::Record(_) => true,
            WriteCode::Union { disc_type, arms, .. } => arms_fit(arms, *disc_type),
        };
        proof {
            if descriptor is Union {
                let u = descriptor->Union_0;
                let vs = input.data->Union_0@;
                let arms = encoder.code->arms@;
                if fit {
                    assert forall|k: int| 0 <= k < vs.len() implies u.disc_type.admits(
                        (#[trigger] crate::discriminant::resolved_at(
                            crate::descriptor::overrides_of(vs),
                            0i128,
                            k,
                        )).value(),
                    ) by {
                        assert(u.disc_type.admits(arms[k].discriminant.value()));
                    }
                }
            }
        }
        if !fit {
            return Err(LayoutError::DiscriminantOutOfRange);
        }
        proof {
            crate::meaning::lemma_dual(descriptor, decoder, encoder);
            crate::meaning::lemma_sound(descriptor, encoder, id as nat);
        }
        let mut entries: Vec<Entry> = Vec::new();
        core::mem::swap(&mut self.entries, &mut entries);
        entries.push(Entry::Declared { decoder, encoder });
        proof {
            assert forall|j: int| 0 <= j < entries@.len() implies match #[trigger] entries@[j] {
                Entry::Optional(inner) => crate::meaning::earlier(inner, j as nat),
                Entry::Declared { decoder, encoder } => crate::meaning::dual(decoder, encoder)
                    && crate::meaning::sound(encoder, j as nat),
            } by {}
        }
        self.entries = entries;
        Ok(id)
    }

    /// Registers the type of optional values of the type `inner`, and
    /// gives the index under which it is known from now on. It is refused
    /// where `inner` is not yet known.
    pub fn register_optional(&mut self, inner: FieldType) -> (r: Result<usize, LayoutError>)
        ensures
            match r {
                Ok(id) => {
                    &&& crate::meaning::earlier(inner, old(self)@.len())
                    &&& id == old(self)@.len()
                    &&& final(self)@ == old(self)@.push(Entry::Optional(inner))
                },
                Err(e) => {
                    &&& !crate::meaning::earlier(inner, old(self)@.len())
                    &&& e == LayoutError::UnknownFieldType
                    &&& final(self)@ == old(self)@
                },
            },
    {
        proof {
            use_type_invariant(&*self);
        }
        let id: usize = self.entries.len();
        if !is_earlier(inner, id) {
            return Err(LayoutError::UnknownFieldType);
        }
        let mut entries: Vec<Entry> = Vec::new();
        core::mem::swap(&mut self.entries, &mut entries);
        entries.push(Entry::Optional(inner));
        proof {
            assert forall|j: int| 0 <= j < entries@.len() implies match #[trigger] entries@[j] {
                Entry::Optional(inner) => crate::meaning::earlier(inner, j as nat),
                Entry::Declared { decoder, encoder } => crate::meaning::dual(decoder, encoder)
                    && crate::meaning::sound(encoder, j as nat),
            } by {}
        }
        self.entries = entries;
        Ok(id)
    }

    /// The first union in the registry two of whose variants have the same
    /// discriminant, if there is one. Where there is none, every instance
    /// of every type is read back as it was written.
    pub fn first_ambiguous(&self) -> (r: Option<usize>)
        ensures
            match r {
                Some(id) => id < self@.len() && !crate::meaning::distinct_at(self@, id as int)
                    && forall|q: int| 0 <= q < id ==> crate::meaning::distinct_at(self@, q),
                None => crate::meaning::distinct(self@),
            },
    {
        let mut id: usize = 0;
        while id < self.entries.len()
            invariant
                id <= self@.len(),
                forall|q: int| 0 <= q < id ==> crate::meaning::distinct_at(self@, q),
            decreases self@.len() - id,
        {
            if let Entry::Declared { encoder, .. } = &self.entries[id] {
                if let WriteCode::Union { arms, .. } = &encoder.code {
                    if !arms_differ(arms) {
                        return Some(id);
                    }
                }
            }
            id = id + 1;
        }
        None
    }

    /// Reads one instance of the type `ty` in the byte order `order`.
    pub fn decode(&self, ty: FieldType, reader: &mut Reader, order: ByteOrder) -> (r: Result<
        Value,
        Error,
    >)
        ensures
            decoding(self@, ty, order, old(reader).pending(), r, final(reader).pending()),
        decreases ty.rank(), 0nat,
    {
        proof {
            reveal(crate::meaning::decoded);
        }
        match ty {
            FieldType::Bool => {
                let b: bool = read_bool(reader)?;
                Ok(Value::Bool(b))
            },
            FieldType::Int(t) => {
                let n: Number = read_number(reader, t, order)?;
                Ok(Value::Int(n))
            },
            FieldType::Address => {
                let buf = reader.take(4)?;
                Ok(Value::Address([buf[0], buf[1], buf[2], buf[3]]))
            },
            FieldType::Ref(id) => {
                if id >= self.entries.len() {
                    return Err(Error::UnknownType);
                }
                match &self.entries[id] {
                    Entry::Optional(inner) => {
                        if !is_earlier(*inner, id) {
                            return Err(Error::UnknownType);
                        }
                        let present: bool = read_bool(reader)?;
                        if present {
                            let v: Value = self.decode(*inner, reader, order)?;
                            proof {
                                let n = crate::meaning::decoded(
                                    self@,
                                    *inner,
                                    old(reader).pending().skip(1),
                                    order,
                                )->Ok_0.1;
                                assert(old(reader).pending().skip(1).skip(n as int) =~= old(
                                    reader,
                                ).pending().skip(n + 1 as int));
                            }
                            Ok(Value::Optional(Some(Box::new(v))))
                        } else {
                            Ok(Value::Optional(None))
                        }
                    },
                    Entry::Declared { .. } => self.decode_declared(id, reader, order),
                }
            },
        }
    }

    /// Reads one instance of the declared type registered under `id`.
    fn decode_declared(&self, id: usize, reader: &mut Reader, order: ByteOrder) -> (r: Result<
        Value,
        Error,
    >)
        requires
            id < self@.len(),
            self@[id as int] is Declared,
        ensures
            decoding(
                self@,
                FieldType::Ref(id),
                order,
                old(reader).pending(),
                r,
                final(reader).pending(),
            ),
        decreases id, 4nat,
    {
        proof {
            crate::meaning::lemma_decoded_declared(self@, id as nat, old(reader).pending(), order);
        }
        match &self.entries[id] {
            Entry::Declared { decoder, .. } => match &decoder.code {
                ReadCode::Record(ops) => self.decode_record(
                    id,
                    ops,
                    &decoder.trailing,
                    reader,
                    order,
                ),
                ReadCode::Union { name, pre, disc_type, post, arms } => self.decode_union(
                    id,
                    name,
                    pre,
                    *disc_type,
                    post,
                    arms,
                    &decoder.trailing,
                    reader,
                    order,
                ),
            },
            Entry::Optional(_) => Err(Error::UnknownType),
        }
    }

    /// Reads a record: its fields, then the trailing padding.
    fn decode_record(
        &self,
        id: usize,
        ops: &Vec<ReadOp>,
        trailing: &Vec<ReadOp>,
        reader: &mut Reader,
        order: ByteOrder,
    ) -> (r: Result<Value, Error>)
        ensures
            match crate::meaning::record_decoded(
                self@,
                id as nat,
                ops@,
                trailing@,
                old(reader).pending(),
                order,
            ) {
                Ok((v, n)) => r matches Ok(x) && x@ == v && n <= old(reader).pending().len()
                    && final(reader).pending() == old(reader).pending().skip(n as int),
                Err(e) => r == Err::<Value, Error>(e),
            },
        decreases id, 3nat,
    {
        proof {
            crate::meaning::lemma_record_decoded(
                self@,
                id as nat,
                ops@,
                trailing@,
                old(reader).pending(),
                order,
            );
        }
        let fields: Vec<Value> = self.decode_fields(id, ops, trailing, reader, order)?;
        let v = Value::Record(fields);
        proof {
            assert(v@->Record_0 =~= contents(fields@));
        }
        Ok(v)
    }

    /// Reads a union: padding, the discriminant, padding, the fields of
    /// the variant that the discriminant selects, then the trailing
    /// padding.
    fn decode_union(
        &self,
        id: usize,
        name: &String,
        pre: &Vec<ReadOp>,
        disc_type: IntType,
        post: &Vec<ReadOp>,
        arms: &Vec<ReadArm>,
        trailing: &Vec<ReadOp>,
        reader: &mut Reader,
        order: ByteOrder,
    ) -> (r: Result<Value, Error>)
        ensures
            match crate::meaning::union_decoded(
                self@,
                id as nat,
                *name,
                pre@,
                disc_type,
                post@,
                arms@,
                trailing@,
                old(reader).pending(),
                order,
            ) {
                Ok((v, n)) => r matches Ok(x) && x@ == v && n <= old(reader).pending().len()
                    && final(reader).pending() == old(reader).pending().skip(n as int),
                Err(e) => r == Err::<Value, Error>(e),
            },
        decreases id, 3nat,
    {
        proof {
            crate::meaning::lemma_union_decoded(
                self@,
                id as nat,
                *name,
                pre@,
                disc_type,
                post@,
                arms@,
                trailing@,
                old(reader).pending(),
                order,
            );
        }
        let d: Number = self.decode_tag(id, pre, disc_type, post, reader, order)?;
        let k: usize = match select_arm(arms, disc_type, d) {
            Some(k) => k,
            None => {
                return Err(Error::InvalidDiscriminant { name: name.clone(), value: d });
            },
        };
        let fields: Vec<Value> = self.decode_fields(id, &arms[k].ops, trailing, reader, order)?;
        let v = Value::Variant(k, fields);
        proof {
            assert(v@->Variant_1 =~= contents(fields@));
        }
        Ok(v)
    }

    /// Reads the front of a union: padding, the discriminant, padding.
    fn decode_tag(
        &self,
        id: usize,
        pre: &Vec<ReadOp>,
        disc_type: IntType,
        post: &Vec<ReadOp>,
        reader: &mut Reader,
        order: ByteOrder,
    ) -> (r: Result<Number, Error>)
        ensures
            match crate::meaning::tag_decoded(
                self@,
                id as nat,
                pre@,
                disc_type,
                post@,
                old(reader).pending(),
                order,
            ) {
                Ok((d, n)) => r == Ok::<Number, Error>(d) && disc_type.holds(d) && n <= old(
                    reader,
                ).pending().len() && final(reader).pending() == old(reader).pending().skip(
                    n as int,
                ),
                Err(e) => r == Err::<Number, Error>(e),
            },
        decreases id, 2nat,
    {
        proof {
            crate::meaning::lemma_tag_decoded(
                self@,
                id as nat,
                pre@,
                disc_type,
                post@,
                old(reader).pending(),
                order,
            );
        }
        let ghost bytes = old(reader).pending();
        let _ = self.decode_ops(id, pre, reader, order)?;
        let ghost n0 = (bytes.len() - reader.pending().len()) as nat;
        let d: Number = read_number(reader, disc_type, order)?;
        let ghost n1 = (bytes.len() - n0 - reader.pending().len()) as nat;
        proof {
            assert(bytes.skip(n0 as int).skip(n1 as int) =~= bytes.skip((n0 + n1) as int));
        }
        let _ = self.decode_ops(id, post, reader, order)?;
        Ok(d)
    }

    /// Reads a list of fields, then the trailing padding.
    fn decode_fields(
        &self,
        id: usize,
        ops: &Vec<ReadOp>,
        trailing: &Vec<ReadOp>,
        reader: &mut Reader,
        order: ByteOrder,
    ) -> (r: Result<Vec<Value>, Error>)
        ensures
            match crate::meaning::fields_decoded(
                self@,
                id as nat,
                ops@,
                trailing@,
                old(reader).pending(),
                order,
            ) {
                Ok((vals, n)) => r matches Ok(out) && contents(out@) == vals && n <= old(
                    reader,
                ).pending().len() && final(reader).pending() == old(reader).pending().skip(
                    n as int,
                ),
                Err(e) => r == Err::<Vec<Value>, Error>(e),
            },
        decreases id, 2nat,
    {
        proof {
            crate::meaning::lemma_fields_decoded(
                self@,
                id as nat,
                ops@,
                trailing@,
                old(reader).pending(),
                order,
            );
        }
        let fields: Vec<Value> = self.decode_ops(id, ops, reader, order)?;
        let _ = self.decode_ops(id, trailing, reader, order)?;
        Ok(fields)
    }

    /// Runs the reads `ops` of the type registered under `bound`, strictly
    /// in order.
    fn decode_ops(&self, bound: usize, ops: &Vec<ReadOp>, reader: &mut Reader, order: ByteOrder) -> (r:
        Result<Vec<Value>, Error>)
        ensures
            ops_decoding(
                self@,
                bound as nat,
                ops@,
                order,
                old(reader).pending(),
                r,
                final(reader).pending(),
            ),
        decreases bound, 1nat,
    {
        proof {
            reveal(crate::meaning::ops_decoded);
        }
        let ghost bytes = old(reader).pending();
        let ghost whole = crate::meaning::ops_decoded(self@, bound as nat, ops@, bytes, order);
        let ghost mut taken: nat = 0;
        let mut out: Vec<Value> = Vec::new();
        let mut i: usize = 0;
        proof {
            assert(ops@.skip(0) =~= ops@);
            assert(bytes.skip(0) =~= bytes);
            assert(whole == joined(contents(out@), 0, whole));
        }
        while i < ops.len()
            invariant
                i <= ops@.len(),
                taken <= bytes.len(),
                bytes == old(reader).pending(),
                reader.pending() == bytes.skip(taken as int),
                whole == crate::meaning::ops_decoded(self@, bound as nat, ops@, bytes, order),
                whole == joined(
                    contents(out@),
                    taken,
                    crate::meaning::ops_decoded(
                        self@,
                        bound as nat,
                        ops@.skip(i as int),
                        bytes.skip(taken as int),
                        order,
                    ),
                ),
            decreases ops@.len() - i,
        {
            let ghost here = bytes.skip(taken as int);
            let ghost done = contents(out@);
            proof {
                reveal(crate::meaning::ops_decoded);
                reveal(crate::meaning::decoded);
                assert(ops@.skip(i as int).drop_first() =~= ops@.skip(i + 1));
            }
            match ops[i] {
                ReadOp::Skip(k) => {
                    reader.skip(k)?;
                    proof {
                        assert(here.skip(k as int) =~= bytes.skip((taken + k) as int));
                        taken = taken + k as nat;
                    }
                },
                ReadOp::Value(t) => {
                    if !is_earlier(t, bound) {
                        return Err(Error::UnknownType);
                    }
                    let v: Value = self.decode(t, reader, order)?;
                    out.push(v);
                    proof {
                        let m = crate::meaning::decoded(self@, t, here, order)->Ok_0.1;
                        let vv = crate::meaning::decoded(self@, t, here, order)->Ok_0.0;
                        assert(here.skip(m as int) =~= bytes.skip((taken + m) as int));
                        assert(contents(out@) =~= done + seq![vv]);
                        let rest = crate::meaning::ops_decoded(
                            self@,
                            bound as nat,
                            ops@.skip(i + 1),
                            bytes.skip((taken + m) as int),
                            order,
                        );
                        if rest is Ok {
                            assert(done + (seq![vv] + rest->Ok_0.0) =~= (done + seq![vv])
                                + rest->Ok_0.0);
                        }
                        taken = taken + m;
                    }
                },
            }
            i = i + 1;
        }
        Ok(out)
    }

    /// Whether `value` is an instance of the type `ty`.
    pub fn conforms(&self, ty: FieldType, value: &Value) -> (b: bool)
        ensures
            b == crate::meaning::conforms(self@, ty, value@),
        decreases ty.rank(), 0nat,
    {
        proof {
            reveal(crate::meaning::conforms);
        }
        match ty {
            FieldType::Bool => match value {
                Value::Bool(_) => true,
                _ => false,
            },
            FieldType::Int(t) => match value {
                Value::Int(n) => t.check(*n),
                _ => false,
            },
            FieldType::Address => match value {
                Value::Address(_) => true,
                _ => false,
            },
            FieldType::Ref(id) => {
                if id >= self.entries.len() {
                    return false;
                }
                match &self.entries[id] {
                    Entry::Optional(inner) => {
                        if !is_earlier(*inner, id) {
                            return false;
                        }
                        match value {
                            Value::Optional(None) => true,
                            Value::Optional(Some(x)) => self.conforms(*inner, x),
                            _ => false,
                        }
                    },
                    Entry::Declared { .. } => self.conforms_declared(id, value),
                }
            },
        }
    }

    /// Whether `value` is an instance of the declared type registered
    /// under `id`.
    fn conforms_declared(&self, id: usize, value: &Value) -> (b: bool)
        requires
            id < self@.len(),
            self@[id as int] is Declared,
        ensures
            b == crate::meaning::conforms(self@, FieldType::Ref(id), value@),
        decreases id, 4nat,
    {
        proof {
            crate::meaning::lemma_conforms_declared(self@, id as nat, value@);
        }
        match &self.entries[id] {
            Entry::Declared { encoder, .. } => match &encoder.code {
                WriteCode::Record(ops) => match value {
                    Value::Record(vals) => {
                        assert(value@->Record_0 =~= contents(vals@));
                        self.ops_conform(id, ops, vals)
                    },
                    _ => false,
                },
                WriteCode::Union { arms, .. } => match value {
                    Value::Variant(k, vals) => {
                        assert(value@->Variant_1 =~= contents(vals@));
                        *k < arms.len() && self.ops_conform(id, &arms[*k].ops, vals)
                    },
                    _ => false,
                },
            },
            Entry::Optional(_) => false,
        }
    }

    /// Whether `vals` are the values that the writes `ops` ask for.
    fn ops_conform(&self, bound: usize, ops: &Vec<WriteOp>, vals: &Vec<Value>) -> (b: bool)
        ensures
            b == crate::meaning::ops_conform(self@, bound as nat, ops@, contents(vals@)),
        decreases bound, 1nat,
    {
        let ghost all = contents(vals@);
        let mut i: usize = 0;
        let mut c: usize = 0;
        proof {
            assert(ops@.skip(0) =~= ops@);
            assert(all.skip(0) =~= all);
        }
        while i < ops.len()
            invariant
                i <= ops@.len(),
                c <= vals@.len(),
                all == contents(vals@),
                crate::meaning::ops_conform(self@, bound as nat, ops@, all)
                    == crate::meaning::ops_conform(
                    self@,
                    bound as nat,
                    ops@.skip(i as int),
                    all.skip(c as int),
                ),
            decreases ops@.len() - i,
        {
            proof {
                crate::meaning::lemma_ops_conform(
                    self@,
                    bound as nat,
                    ops@.skip(i as int),
                    all.skip(c as int),
                );
                assert(ops@.skip(i as int).drop_first() =~= ops@.skip(i + 1));
            }
            match ops[i] {
                WriteOp::Zeros(_) => {},
                WriteOp::Value(t) => {
                    if !is_earlier(t, bound) || c >= vals.len() {
                        return false;
                    }
                    proof {
                        assert(all.skip(c as int).drop_first() =~= all.skip(c + 1));
                    }
                    if !self.conforms(t, &vals[c]) {
                        return false;
                    }
                    c = c + 1;
                },
            }
            i = i + 1;
        }
        proof {
            crate::meaning::lemma_ops_conform(
                self@,
                bound as nat,
                ops@.skip(i as int),
                all.skip(c as int),
            );
        }
        c == vals.len()
    }

    /// Writes `value` as an instance of the type `ty` in the byte order
    /// `order`. A value that is no instance of the type is refused before
    /// anything is written.
    pub fn encode(&self, ty: FieldType, value: &Value, writer: &mut Writer, order: ByteOrder) -> (r:
        Result<(), Error>)
        ensures
            !crate::meaning::conforms(self@, ty, value@) ==> r == Err::<(), Error>(
                Error::InvalidInstance,
            ) && *final(writer) == *old(writer),
            crate::meaning::conforms(self@, ty, value@) ==> crate::write::wrote(
                *old(writer),
                crate::meaning::encoding(self@, ty, value@, order),
                r,
                *final(writer),
            ),
    {
        if !self.conforms(ty, value) {
            return Err(Error::InvalidInstance);
        }
        self.write_value(ty, value, writer, order)
    }

    /// Writes an instance of the type `ty`.
    fn write_value(&self, ty: FieldType, value: &Value, writer: &mut Writer, order: ByteOrder) -> (r:
        Result<(), Error>)
        requires
            crate::meaning::conforms(self@, ty, value@),
        ensures
            crate::write::wrote(
                *old(writer),
                crate::meaning::encoding(self@, ty, value@, order),
                r,
                *final(writer),
            ),
        decreases ty.rank(), 0nat,
    {
        proof {
            reveal(crate::meaning::conforms);
            reveal(crate::meaning::encoding);
        }
        match ty {
            FieldType::Bool => match value {
                Value::Bool(b) => write_bool(*b, writer),
                _ => Err(Error::InvalidInstance),
            },
            FieldType::Int(t) => match value {
                Value::Int(n) => write_number(*n, t, writer, order),
                _ => Err(Error::InvalidInstance),
            },
            FieldType::Address => match value {
                Value::Address(a) => writer.write_all(a.as_slice()),
                _ => Err(Error::InvalidInstance),
            },
            FieldType::Ref(id) => {
                if id >= self.entries.len() {
                    return Err(Error::InvalidInstance);
                }
                match &self.entries[id] {
                    Entry::Optional(inner) => match value {
                        Value::Optional(None) => {
                            write_bool(false, writer)
                        },
                        Value::Optional(Some(x)) => {
                            let ghost start = *writer;
                            write_bool(true, writer)?;
                            let ghost middle = *writer;
                            let r = self.write_value(*inner, x, writer, order);
                            proof {
                                crate::write::lemma_wrote_both(
                                    start,
                                    seq![1u8],
                                    middle,
                                    crate::meaning::encoding(self@, *inner, x@, order),
                                    r,
                                    *writer,
                                );
                            }
                            r
                        },
                        _ => Err(Error::InvalidInstance),
                    },
                    Entry::Declared { .. } => self.write_declared(id, value, writer, order),
                }
            },
        }
    }

    /// Writes an instance of the declared type registered under `id`.
    fn write_declared(&self, id: usize, value: &Value, writer: &mut Writer, order: ByteOrder) -> (r:
        Result<(), Error>)
        requires
            id < self@.len(),
            self@[id as int] is Declared,
            crate::meaning::conforms(self@, FieldType::Ref(id), value@),
        ensures
            crate::write::wrote(
                *old(writer),
                crate::meaning::encoding(self@, FieldType::Ref(id), value@, order),
                r,
                *final(writer),
            ),
        decreases id, 4nat,
    {
        proof {
            use_type_invariant(self);
            crate::meaning::lemma_conforms_declared(self@, id as nat, value@);
        }
        let none: Vec<Value> = Vec::new();
        assert(contents(none@) =~= Seq::<ValueView>::empty());
        match &self.entries[id] {
            Entry::Declared { encoder, .. } => match &encoder.code {
                WriteCode::Record(ops) => match value {
                    Value::Record(vals) => {
                        proof {
                            assert(value@->Record_0 =~= contents(vals@));
                            crate::meaning::lemma_encoding_record(
                                self@,
                                id as nat,
                                contents(vals@),
                                order,
                            );
                            crate::meaning::lemma_padding_conforms(
                                self@,
                                id as nat,
                                encoder.trailing@,
                            );
                        }
                        let ghost start = *writer;
                        let ghost fields = crate::meaning::ops_encoding(
                            self@,
                            id as nat,
                            ops@,
                            contents(vals@),
                            order,
                        );
                        let ghost tail = crate::meaning::ops_encoding(
                            self@,
                            id as nat,
                            encoder.trailing@,
                            Seq::empty(),
                            order,
                        );
                        self.write_ops(id, ops, vals, writer, order)?;
                        let ghost middle = *writer;
                        let r = self.write_ops(id, &encoder.trailing, &none, writer, order);
                        proof {
                            crate::write::lemma_wrote_both(start, fields, middle, tail, r, *writer);
                        }
                        r
                    },
                    _ => Err(Error::InvalidInstance),
                },
                WriteCode::Union { pre, disc_type, post, arms } => match value {
                    Value::Variant(k, vals) => {
                        proof {
                            assert(value@->Variant_1 =~= contents(vals@));
                            crate::meaning::lemma_encoding_variant(
                                self@,
                                id as nat,
                                *k as nat,
                                contents(vals@),
                                order,
                            );
                        }
                        self.write_variant(
                            id,
                            pre,
                            *disc_type,
                            post,
                            &arms[*k],
                            &encoder.trailing,
                            vals,
                            writer,
                            order,
                        )
                    },
                    _ => Err(Error::InvalidInstance),
                },
            },
            Entry::Optional(_) => Err(Error::InvalidInstance),
        }
    }

    /// Writes an instance of a variant: padding, the discriminant, padding,
    /// the variant's fields, then the trailing padding.
    fn write_variant(
        &self,
        id: usize,
        pre: &Vec<WriteOp>,
        disc_type: IntType,
        post: &Vec<WriteOp>,
        arm: &crate::procedure::WriteArm,
        trailing: &Vec<WriteOp>,
        vals: &Vec<Value>,
        writer: &mut Writer,
        order: ByteOrder,
    ) -> (r: Result<(), Error>)
        requires
            crate::meaning::padding_only(pre@),
            crate::meaning::padding_only(post@),
            crate::meaning::padding_only(trailing@),
            disc_type.admits(arm.discriminant.value()),
            crate::meaning::ops_conform(self@, id as nat, arm.ops@, contents(vals@)),
        ensures
            crate::write::wrote(
                *old(writer),
                crate::meaning::ops_encoding(self@, id as nat, pre@, Seq::empty(), order)
                    + crate::meaning::discriminant_bytes(arm.discriminant, disc_type, order)
                    + crate::meaning::ops_encoding(self@, id as nat, post@, Seq::empty(), order)
                    + crate::meaning::ops_encoding(
                    self@,
                    id as nat,
                    arm.ops@,
                    contents(vals@),
                    order,
                ) + crate::meaning::ops_encoding(self@, id as nat, trailing@, Seq::empty(), order),
                r,
                *final(writer),
            ),
        decreases id, 3nat,
    {
        let none: Vec<Value> = Vec::new();
        assert(contents(none@) =~= Seq::<ValueView>::empty());
        let ghost b0 = crate::meaning::ops_encoding(self@, id as nat, pre@, Seq::empty(), order);
        let ghost b1 = crate::meaning::discriminant_bytes(arm.discriminant, disc_type, order);
        let ghost b2 = crate::meaning::ops_encoding(self@, id as nat, post@, Seq::empty(), order);
        let ghost b3 = crate::meaning::ops_encoding(
            self@,
            id as nat,
            arm.ops@,
            contents(vals@),
            order,
        );
        let ghost b4 = crate::meaning::ops_encoding(
            self@,
            id as nat,
            trailing@,
            Seq::empty(),
            order,
        );
        proof {
            crate::meaning::lemma_padding_conforms(self@, id as nat, pre@);
            crate::meaning::lemma_padding_conforms(self@, id as nat, post@);
            crate::meaning::lemma_padding_conforms(self@, id as nat, trailing@);
        }
        let ghost w0 = *writer;
        self.write_ops(id, pre, &none, writer, order)?;
        let ghost w1 = *writer;
        let n: Number = match discriminant_number(&arm.discriminant, disc_type) {
            Some(n) => n,
            None => {
                return Err(Error::InvalidInstance);
            },
        };
        let r1 = write_number(n, disc_type, writer, order);
        proof {
            crate::write::lemma_wrote_both(w0, b0, w1, b1, r1, *writer);
        }
        r1?;
        let ghost w2 = *writer;
        let r2 = self.write_ops(id, post, &none, writer, order);
        proof {
            crate::write::lemma_wrote_both(w0, b0 + b1, w2, b2, r2, *writer);
        }
        r2?;
        let ghost w3 = *writer;
        let r3 = self.write_ops(id, &arm.ops, vals, writer, order);
        proof {
            crate::write::lemma_wrote_both(w0, b0 + b1 + b2, w3, b3, r3, *writer);
        }
        r3?;
        let ghost w4 = *writer;
        let r4 = self.write_ops(id, trailing, &none, writer, order);
        proof {
            crate::write::lemma_wrote_both(w0, b0 + b1 + b2 + b3, w4, b4, r4, *writer);
        }
        r4
    }

    /// Runs the writes `ops` of the type registered under `bound`, strictly
    /// in order, taking the values from `vals`.
    fn write_ops(
        &self,
        bound: usize,
        ops: &Vec<WriteOp>,
        vals: &Vec<Value>,
        writer: &mut Writer,
        order: ByteOrder,
    ) -> (r: Result<(), Error>)
        requires
            crate::meaning::ops_conform(self@, bound as nat, ops@, contents(vals@)),
        ensures
            crate::write::wrote(
                *old(writer),
                crate::meaning::ops_encoding(self@, bound as nat, ops@, contents(vals@), order),
                r,
                *final(writer),
            ),
        decreases bound, 1nat,
    {
        let ghost all = contents(vals@);
        let ghost whole = crate::meaning::ops_encoding(self@, bound as nat, ops@, all, order);
        let ghost mut done: Seq<u8> = Seq::empty();
        let _room: usize = writer.room();
        let count: usize = vals.len();
        let mut i: usize = 0;
        let mut c: usize = 0;
        proof {
            assert(ops@.skip(0) =~= ops@);
            assert(all.skip(0) =~= all);
        }
        while i < ops.len()
            invariant
                i <= ops@.len(),
                c <= count == vals@.len(),
                all == contents(vals@),
                whole == crate::meaning::ops_encoding(self@, bound as nat, ops@, all, order),
                crate::write::wrote(*old(writer), done, Ok(()), *writer),
                whole == done + crate::meaning::ops_encoding(
                    self@,
                    bound as nat,
                    ops@.skip(i as int),
                    all.skip(c as int),
                    order,
                ),
                crate::meaning::ops_conform(
                    self@,
                    bound as nat,
                    ops@.skip(i as int),
                    all.skip(c as int),
                ),
            decreases ops@.len() - i,
        {
            let ghost before = *writer;
            proof {
                crate::meaning::lemma_ops_conform(
                    self@,
                    bound as nat,
                    ops@.skip(i as int),
                    all.skip(c as int),
                );
                crate::meaning::lemma_ops_encoding(
                    self@,
                    bound as nat,
                    ops@.skip(i as int),
                    all.skip(c as int),
                    order,
                );
                assert(ops@.skip(i as int).drop_first() =~= ops@.skip(i + 1));
            }
            match ops[i] {
                WriteOp::Zeros(n) => {
                    let r = writer.write_zeros(n);
                    proof {
                        let step = crate::write::zeros(n as nat);
                        crate::write::lemma_wrote_both(*old(writer), done, before, step, r, *writer);
                        done = done + step;
                    }
                    r?;
                },
                WriteOp::Value(t) => {
                    proof {
                        assert(all.skip(c as int).drop_first() =~= all.skip(c + 1));
                    }
                    let r = self.write_value(t, &vals[c], writer, order);
                    proof {
                        let step = crate::meaning::encoding(self@, t, vals@[c as int]@, order);
                        crate::write::lemma_wrote_both(*old(writer), done, before, step, r, *writer);
                        done = done + step;
                    }
                    r?;
                    c = c + 1;
                },
            }
            i = i + 1;
        }
        proof {
            crate::meaning::lemma_ops_encoding(
                self@,
                bound as nat,
                ops@.skip(i as int),
                all.skip(c as int),
                order,
            );
        }
        Ok(())
    }
}

} // verus!
