//! The data model of the wire format: the types a schema can describe,
//! the values that inhabit them, and their mathematical twins that the
//! contracts speak of.

use vstd::prelude::*;
use vstd::utf8::encode_utf8;

verus! {

/// One field of a product type or of an enum variant: its type, whether
/// it is skipped on the wire, and whether it opts out of deduplication.
#[derive(Debug, PartialEq)]
pub struct FieldTy {
    pub ty: Ty,
    pub skip: bool,
    pub no_dedup: bool,
}

/// One variant of a sum type: its fields, encoded in order.
#[derive(Debug, PartialEq)]
pub struct VariantTy {
    pub fields: Vec<FieldTy>,
}

/// A schema type: what drives both encoding and decoding.
#[derive(Debug, PartialEq)]
pub enum Ty {
    Bool,
    U8,
    U16,
    U32,
    U64,
    I16,
    I32,
    I64,
    Size,
    Str,
    /// Growable sequence (list or set): element count, then elements.
    List(Box<Ty>),
    /// Fixed-size array: exactly that many elements, no length prefix.
    Array(Box<Ty>, usize),
    /// Map: a sequence of key/value pairs.
    Dict(Box<Ty>, Box<Ty>),
    /// Optional value: absent/present byte, then the payload if present.
    Opt(Box<Ty>),
    /// Result-like value: ok/err byte, then the chosen payload.
    Res(Box<Ty>, Box<Ty>),
    /// Fixed product without annotations: fields in declared order.
    Tuple(Vec<Ty>),
    /// Product with per-field skip and no-dedup annotations.
    Struct(Vec<FieldTy>),
    /// Sum type: a discriminant as a size value, then the variant's fields.
    Enum(Vec<VariantTy>),
}

/// A value of the data model.
#[derive(Debug, PartialEq)]
pub enum Value {
    Bool(bool),
    U8(u8),
    U16(u16),
    U32(u32),
    U64(u64),
    I16(i16),
    I32(i32),
    I64(i64),
    Size(usize),
    Str(String),
    /// The elements of a list, set, or map (each map entry a two-field group).
    List(Vec<Value>),
    /// The fields of a tuple, fixed array, or struct, in order.
    Group(Vec<Value>),
    /// An optional value.
    Opt(Option<Box<Value>>),
    /// A result-like value: `false` carries the ok payload, `true` the err.
    Res(bool, Box<Value>),
    /// An enum value: the variant ordinal and the variant's fields.
    Case(usize, Vec<Value>),
}

/// The mathematical twin of [`FieldTy`].
#[verifier::ext_equal]
pub struct FieldTyV {
    pub ty: TyV,
    pub skip: bool,
    pub no_dedup: bool,
}

/// The mathematical twin of [`Ty`]; variants carry sequences.
#[verifier::ext_equal]
pub enum TyV {
    Bool,
    U8,
    U16,
    U32,
    U64,
    I16,
    I32,
    I64,
    Size,
    Str,
    List(Box<TyV>),
    Array(Box<TyV>, usize),
    Dict(Box<TyV>, Box<TyV>),
    Opt(Box<TyV>),
    Res(Box<TyV>, Box<TyV>),
    Tuple(Seq<TyV>),
    Struct(Seq<FieldTyV>),
    Enum(Seq<Seq<FieldTyV>>),
}

/// The mathematical twin of [`Value`]; strings are character sequences.
#[verifier::ext_equal]
pub enum ValueV {
    Bool(bool),
    U8(u8),
    U16(u16),
    U32(u32),
    U64(u64),
    I16(i16),
    I32(i32),
    I64(i64),
    Size(usize),
    Str(Seq<char>),
    List(Seq<ValueV>),
    Group(Seq<ValueV>),
    Opt(Option<Box<ValueV>>),
    Res(bool, Box<ValueV>),
    Case(usize, Seq<ValueV>),
}

/// The mathematical twin of a schema type.
pub open spec fn ty_view(t: Ty) -> TyV
    decreases t,
{
    match t {
        Ty::Bool => TyV::Bool,
        Ty::U8 => TyV::U8,
        Ty::U16 => TyV::U16,
        Ty::U32 => TyV::U32,
        Ty::U64 => TyV::U64,
        Ty::I16 => TyV::I16,
        Ty::I32 => TyV::I32,
        Ty::I64 => TyV::I64,
        Ty::Size => TyV::Size,
        Ty::Str => TyV::Str,
        Ty::List(et) => TyV::List(Box::new(ty_view(*et))),
        Ty::Array(et, n) => TyV::Array(Box::new(ty_view(*et)), n),
        Ty::Dict(kt, vt) => TyV::Dict(Box::new(ty_view(*kt)), Box::new(ty_view(*vt))),
        Ty::Opt(et) => TyV::Opt(Box::new(ty_view(*et))),
        Ty::Res(ot, et) => TyV::Res(Box::new(ty_view(*ot)), Box::new(ty_view(*et))),
        Ty::Tuple(ts) => TyV::Tuple(
            Seq::new(ts@.len(), |i: int| if 0 <= i < ts@.len() { ty_view(ts@[i]) } else { TyV::Bool }),
        ),
        Ty::Struct(fs) => TyV::Struct(
            Seq::new(fs@.len(), |i: int| if 0 <= i < fs@.len() { field_view(fs@[i]) } else { FieldTyV { ty: TyV::Bool, skip: false, no_dedup: false } }),
        ),
        Ty::Enum(vs) => TyV::Enum(
            Seq::new(vs@.len(), |i: int| if 0 <= i < vs@.len() {
                Seq::new(vs@[i].fields@.len(), |j: int| if 0 <= j < vs@[i].fields@.len() {
                    field_view(vs@[i].fields@[j])
                } else {
                    FieldTyV { ty: TyV::Bool, skip: false, no_dedup: false }
                })
            } else {
                Seq::empty()
            }),
        ),
    }
}

/// The mathematical twin of a field description.
pub open spec fn field_view(f: FieldTy) -> FieldTyV
    decreases f,
{
    FieldTyV { ty: ty_view(f.ty), skip: f.skip, no_dedup: f.no_dedup }
}

/// The mathematical twin of a value.
pub open spec fn value_view(v: Value) -> ValueV
    decreases v,
{
    match v {
        Value::Bool(b) => ValueV::Bool(b),
        Value::U8(x) => ValueV::U8(x),
        Value::U16(x) => ValueV::U16(x),
        Value::U32(x) => ValueV::U32(x),
        Value::U64(x) => ValueV::U64(x),
        Value::I16(x) => ValueV::I16(x),
        Value::I32(x) => ValueV::I32(x),
        Value::I64(x) => ValueV::I64(x),
        Value::Size(x) => ValueV::Size(x),
        Value::Str(s) => ValueV::Str(s@),
        Value::List(items) => ValueV::List(
            Seq::new(items@.len(), |i: int| if 0 <= i < items@.len() { value_view(items@[i]) } else { ValueV::Bool(false) }),
        ),
        Value::Group(items) => ValueV::Group(
            Seq::new(items@.len(), |i: int| if 0 <= i < items@.len() { value_view(items@[i]) } else { ValueV::Bool(false) }),
        ),
        Value::Opt(o) => ValueV::Opt(match o {
            Some(inner) => Some(Box::new(value_view(*inner))),
            None => None,
        }),
        Value::Res(side, inner) => ValueV::Res(side, Box::new(value_view(*inner))),
        Value::Case(d, items) => ValueV::Case(
            d,
            Seq::new(items@.len(), |i: int| if 0 <= i < items@.len() { value_view(items@[i]) } else { ValueV::Bool(false) }),
        ),
    }
}

impl View for Ty {
    type V = TyV;

    open spec fn view(&self) -> TyV {
        ty_view(*self)
    }
}

impl View for Value {
    type V = ValueV;

    open spec fn view(&self) -> ValueV {
        value_view(*self)
    }
}

impl DeepView for Ty {
    type V = TyV;

    open spec fn deep_view(&self) -> TyV {
        ty_view(*self)
    }
}

impl DeepView for FieldTy {
    type V = FieldTyV;

    open spec fn deep_view(&self) -> FieldTyV {
        field_view(*self)
    }
}

impl DeepView for Value {
    type V = ValueV;

    open spec fn deep_view(&self) -> ValueV {
        value_view(*self)
    }
}

/// Whether value `v` inhabits type `t`.
pub open spec fn conforms(v: ValueV, t: TyV) -> bool
    decreases v,
{
    match t {
        TyV::Bool => v is Bool,
        TyV::U8 => v is U8,
        TyV::U16 => v is U16,
        TyV::U32 => v is U32,
        TyV::U64 => v is U64,
        TyV::I16 => v is I16,
        TyV::I32 => v is I32,
        TyV::I64 => v is I64,
        TyV::Size => v is Size,
        TyV::Str => v is Str,
        TyV::List(et) => v matches ValueV::List(items)
            && forall|i: int| 0 <= i < items.len() ==> conforms(#[trigger] items[i], *et),
        TyV::Array(et, n) => v matches ValueV::Group(items)
            && items.len() == n
            && forall|i: int| 0 <= i < items.len() ==> conforms(#[trigger] items[i], *et),
        TyV::Dict(kt, vt) => v matches ValueV::List(entries)
            && forall|i: int| 0 <= i < entries.len() ==> ((#[trigger] entries[i]) matches ValueV::Group(kv)
                && kv.len() == 2
                && conforms(kv[0], *kt)
                && conforms(kv[1], *vt)),
        TyV::Opt(et) => v matches ValueV::Opt(o)
            && (o matches Some(inner) ==> conforms(*inner, *et)),
        TyV::Res(ot, et) => v matches ValueV::Res(side, inner)
            && conforms(*inner, if side { *et } else { *ot }),
        TyV::Tuple(ts) => v matches ValueV::Group(items)
            && items.len() == ts.len()
            && forall|i: int| 0 <= i < items.len() ==> conforms(#[trigger] items[i], ts[i]),
        TyV::Struct(fs) => v matches ValueV::Group(items)
            && items.len() == fs.len()
            && forall|i: int| 0 <= i < items.len() ==> conforms(#[trigger] items[i], fs[i].ty),
        TyV::Enum(vs) => v matches ValueV::Case(d, items)
            && d < vs.len()
            && items.len() == vs[d as int].len()
            && forall|i: int| 0 <= i < items.len()
                ==> conforms(#[trigger] items[i], vs[d as int][i].ty),
    }
}

/// Whether a type has a default value, so that a skip-marked field of it
/// can be filled in on decode: a capability check, not a promise. A
/// result-like type has none, and an empty sum type has none.
pub open spec fn defaultable(t: TyV) -> bool
    decreases t, 1int, 0int,
{
    match t {
        TyV::Res(_, _) => false,
        TyV::Array(et, n) => n == 0 || defaultable(*et),
        TyV::Tuple(ts) => all_defaultable_tys(ts),
        TyV::Struct(fs) => all_defaultable_fields(fs),
        TyV::Enum(vs) => vs.len() > 0 && all_defaultable_fields(vs[0]),
        _ => true,
    }
}

/// Whether every type in the sequence has a default value.
pub open spec fn all_defaultable_tys(ts: Seq<TyV>) -> bool
    decreases ts, 0int, ts.len(),
{
    if ts.len() == 0 {
        true
    } else {
        defaultable(ts[0]) && all_defaultable_tys(ts.skip(1))
    }
}

/// Whether every field in the sequence has a default value.
pub open spec fn all_defaultable_fields(fs: Seq<FieldTyV>) -> bool
    decreases fs, 0int, fs.len(),
{
    if fs.len() == 0 {
        true
    } else {
        defaultable(fs[0].ty) && all_defaultable_fields(fs.skip(1))
    }
}

/// The default value of a type: false, zero, the empty string, the empty
/// sequence, the absent option, fields' defaults, or an enum's first
/// variant filled with defaults.
pub open spec fn default_val(t: TyV) -> ValueV
    decreases t, 1int, 0int,
{
    match t {
        TyV::Bool => ValueV::Bool(false),
        TyV::U8 => ValueV::U8(0),
        TyV::U16 => ValueV::U16(0),
        TyV::U32 => ValueV::U32(0),
        TyV::U64 => ValueV::U64(0),
        TyV::I16 => ValueV::I16(0),
        TyV::I32 => ValueV::I32(0),
        TyV::I64 => ValueV::I64(0),
        TyV::Size => ValueV::Size(0),
        TyV::Str => ValueV::Str(Seq::empty()),
        TyV::List(_) => ValueV::List(Seq::empty()),
        TyV::Array(et, n) => ValueV::Group(Seq::new(n as nat, |i: int| default_val(*et))),
        TyV::Dict(_, _) => ValueV::List(Seq::empty()),
        TyV::Opt(_) => ValueV::Opt(None),
        TyV::Res(ot, _) => ValueV::Res(false, Box::new(default_val(*ot))),
        TyV::Tuple(ts) => ValueV::Group(default_vals_tys(ts)),
        TyV::Struct(fs) => ValueV::Group(default_vals_fields(fs)),
        TyV::Enum(vs) => if vs.len() > 0 {
            ValueV::Case(0, default_vals_fields(vs[0]))
        } else {
            ValueV::Case(0, Seq::empty())
        },
    }
}

/// The defaults of a sequence of types, in order.
pub open spec fn default_vals_tys(ts: Seq<TyV>) -> Seq<ValueV>
    decreases ts, 0int, ts.len(),
{
    if ts.len() == 0 {
        Seq::empty()
    } else {
        seq![default_val(ts[0])] + default_vals_tys(ts.skip(1))
    }
}

/// The defaults of a sequence of fields, in order.
pub open spec fn default_vals_fields(fs: Seq<FieldTyV>) -> Seq<ValueV>
    decreases fs, 0int, fs.len(),
{
    if fs.len() == 0 {
        Seq::empty()
    } else {
        seq![default_val(fs[0].ty)] + default_vals_fields(fs.skip(1))
    }
}

/// A default value inhabits its type.
pub proof fn lemma_default_conforms(t: TyV)
    requires
        defaultable(t),
    ensures
        conforms(default_val(t), t),
    decreases t, 1int, 0int,
{
    match t {
        TyV::Array(et, n) => {
            if n > 0 {
                lemma_default_conforms(*et);
            }
        },
        TyV::Tuple(ts) => {
            lemma_default_vals_tys(ts);
        },
        TyV::Struct(fs) => {
            lemma_default_vals_fields(fs);
        },
        TyV::Enum(vs) => {
            lemma_default_vals_fields(vs[0]);
        },
        _ => {},
    }
}

proof fn lemma_default_vals_tys(ts: Seq<TyV>)
    requires
        all_defaultable_tys(ts),
    ensures
        default_vals_tys(ts).len() == ts.len(),
        forall|i: int| 0 <= i < ts.len()
            ==> conforms(#[trigger] default_vals_tys(ts)[i], ts[i]),
    decreases ts, 0int, ts.len(),
{
    if ts.len() > 0 {
        lemma_default_conforms(ts[0]);
        lemma_default_vals_tys(ts.skip(1));
        assert forall|i: int| 0 <= i < ts.len()
            implies conforms(#[trigger] default_vals_tys(ts)[i], ts[i]) by {
            if i > 0 {
                assert(default_vals_tys(ts)[i] == default_vals_tys(ts.skip(1))[i - 1]);
                assert(ts.skip(1)[i - 1] == ts[i]);
            }
        }
    }
}

proof fn lemma_default_vals_fields(fs: Seq<FieldTyV>)
    requires
        all_defaultable_fields(fs),
    ensures
        default_vals_fields(fs).len() == fs.len(),
        forall|i: int| 0 <= i < fs.len()
            ==> conforms(#[trigger] default_vals_fields(fs)[i], fs[i].ty),
    decreases fs, 0int, fs.len(),
{
    if fs.len() > 0 {
        lemma_default_conforms(fs[0].ty);
        lemma_default_vals_fields(fs.skip(1));
        assert forall|i: int| 0 <= i < fs.len()
            implies conforms(#[trigger] default_vals_fields(fs)[i], fs[i].ty) by {
            if i > 0 {
                assert(default_vals_fields(fs)[i] == default_vals_fields(fs.skip(1))[i - 1]);
                assert(fs.skip(1)[i - 1] == fs[i]);
            }
        }
    }
}

/// Whether a schema is well formed: every skip-marked field's type has a
/// default to fill in on decode, everywhere in the tree.
pub open spec fn wf_ty(t: TyV) -> bool
    decreases t, 1int, 0int,
{
    match t {
        TyV::List(et) => wf_ty(*et),
        TyV::Array(et, _) => wf_ty(*et),
        TyV::Dict(kt, vt) => wf_ty(*kt) && wf_ty(*vt),
        TyV::Opt(et) => wf_ty(*et),
        TyV::Res(ot, et) => wf_ty(*ot) && wf_ty(*et),
        TyV::Tuple(ts) => wf_tys(ts),
        TyV::Struct(fs) => wf_fields(fs),
        TyV::Enum(vs) => wf_variants(vs),
        _ => true,
    }
}

/// Well-formedness of a sequence of types.
pub open spec fn wf_tys(ts: Seq<TyV>) -> bool
    decreases ts, 0int, ts.len(),
{
    if ts.len() == 0 {
        true
    } else {
        wf_ty(ts[0]) && wf_tys(ts.skip(1))
    }
}

/// Well-formedness of a sequence of fields: a skip field is defaultable.
pub open spec fn wf_fields(fs: Seq<FieldTyV>) -> bool
    decreases fs, 0int, fs.len(),
{
    if fs.len() == 0 {
        true
    } else {
        wf_ty(fs[0].ty) && (fs[0].skip ==> defaultable(fs[0].ty)) && wf_fields(fs.skip(1))
    }
}

/// Well-formedness of a sequence of variants.
pub open spec fn wf_variants(vs: Seq<Seq<FieldTyV>>) -> bool
    decreases vs, 0int, vs.len(),
{
    if vs.len() == 0 {
        true
    } else {
        wf_fields(vs[0]) && wf_variants(vs.skip(1))
    }
}

/// `v` with every skip-marked field, recursively, replaced by that
/// field's default: what a round trip through the wire makes of `v`.
pub open spec fn reset_skip(v: ValueV, t: TyV) -> ValueV
    decreases v, 1int, 0int,
{
    match t {
        TyV::List(et) => match v {
            ValueV::List(items) => ValueV::List(reset_skip_elems(items, *et)),
            _ => v,
        },
        TyV::Array(et, _) => match v {
            ValueV::Group(items) => ValueV::Group(reset_skip_elems(items, *et)),
            _ => v,
        },
        TyV::Dict(kt, vt) => match v {
            ValueV::List(entries) => ValueV::List(reset_skip_entries(entries, *kt, *vt)),
            _ => v,
        },
        TyV::Opt(et) => match v {
            ValueV::Opt(Some(inner)) => ValueV::Opt(Some(Box::new(reset_skip(*inner, *et)))),
            _ => v,
        },
        TyV::Res(ot, et) => match v {
            ValueV::Res(side, inner) => ValueV::Res(
                side,
                Box::new(reset_skip(*inner, if side { *et } else { *ot })),
            ),
            _ => v,
        },
        TyV::Tuple(ts) => match v {
            ValueV::Group(items) => ValueV::Group(reset_skip_tuple(items, ts)),
            _ => v,
        },
        TyV::Struct(fs) => match v {
            ValueV::Group(items) => ValueV::Group(reset_skip_fields(items, fs)),
            _ => v,
        },
        TyV::Enum(vs) => match v {
            ValueV::Case(d, items) => if d < vs.len() {
                ValueV::Case(d, reset_skip_fields(items, vs[d as int]))
            } else {
                v
            },
            _ => v,
        },
        _ => v,
    }
}

/// Skip-resetting each element of a sequence.
pub open spec fn reset_skip_elems(items: Seq<ValueV>, et: TyV) -> Seq<ValueV>
    decreases items, 0int, items.len(),
{
    if items.len() == 0 {
        Seq::empty()
    } else {
        seq![reset_skip(items[0], et)] + reset_skip_elems(items.skip(1), et)
    }
}

/// Skip-resetting each key/value entry of a map.
pub open spec fn reset_skip_entries(entries: Seq<ValueV>, kt: TyV, vt: TyV) -> Seq<ValueV>
    decreases entries, 0int, entries.len(),
{
    if entries.len() == 0 {
        Seq::empty()
    } else {
        let head = match entries[0] {
            ValueV::Group(kv) => if kv.len() == 2 {
                ValueV::Group(seq![reset_skip(kv[0], kt), reset_skip(kv[1], vt)])
            } else {
                entries[0]
            },
            _ => entries[0],
        };
        seq![head] + reset_skip_entries(entries.skip(1), kt, vt)
    }
}

/// Skip-resetting tuple fields, in order.
pub open spec fn reset_skip_tuple(items: Seq<ValueV>, ts: Seq<TyV>) -> Seq<ValueV>
    decreases items, 0int, items.len(),
{
    if items.len() == 0 || ts.len() == 0 {
        Seq::empty()
    } else {
        seq![reset_skip(items[0], ts[0])] + reset_skip_tuple(items.skip(1), ts.skip(1))
    }
}

/// Skip-resetting struct or variant fields: a skip-marked field becomes
/// its type's default, any other is reset recursively.
pub open spec fn reset_skip_fields(items: Seq<ValueV>, fs: Seq<FieldTyV>) -> Seq<ValueV>
    decreases items, 0int, items.len(),
{
    if items.len() == 0 || fs.len() == 0 {
        Seq::empty()
    } else {
        let head = if fs[0].skip {
            default_val(fs[0].ty)
        } else {
            reset_skip(items[0], fs[0].ty)
        };
        seq![head] + reset_skip_fields(items.skip(1), fs.skip(1))
    }
}

/// Whether a type carries no skip-marked field anywhere: for such types a
/// round trip gives back the value unchanged.
pub open spec fn no_skips(t: TyV) -> bool
    decreases t, 1int, 0int,
{
    match t {
        TyV::List(et) => no_skips(*et),
        TyV::Array(et, _) => no_skips(*et),
        TyV::Dict(kt, vt) => no_skips(*kt) && no_skips(*vt),
        TyV::Opt(et) => no_skips(*et),
        TyV::Res(ot, et) => no_skips(*ot) && no_skips(*et),
        TyV::Tuple(ts) => no_skips_tys(ts),
        TyV::Struct(fs) => no_skips_fields(fs),
        TyV::Enum(vs) => no_skips_variants(vs),
        _ => true,
    }
}

/// No skip marks anywhere in a sequence of types.
pub open spec fn no_skips_tys(ts: Seq<TyV>) -> bool
    decreases ts, 0int, ts.len(),
{
    if ts.len() == 0 {
        true
    } else {
        no_skips(ts[0]) && no_skips_tys(ts.skip(1))
    }
}

/// No skip marks anywhere in a sequence of fields.
pub open spec fn no_skips_fields(fs: Seq<FieldTyV>) -> bool
    decreases fs, 0int, fs.len(),
{
    if fs.len() == 0 {
        true
    } else {
        !fs[0].skip && no_skips(fs[0].ty) && no_skips_fields(fs.skip(1))
    }
}

/// No skip marks anywhere in a sequence of variants.
pub open spec fn no_skips_variants(vs: Seq<Seq<FieldTyV>>) -> bool
    decreases vs, 0int, vs.len(),
{
    if vs.len() == 0 {
        true
    } else {
        no_skips_fields(vs[0]) && no_skips_variants(vs.skip(1))
    }
}

/// On a type without skip marks, resetting skip fields changes nothing.
pub proof fn lemma_reset_skip_identity(v: ValueV, t: TyV)
    requires
        conforms(v, t),
        no_skips(t),
    ensures
        reset_skip(v, t) == v,
    decreases v, 1int, 0int,
{
    match t {
        TyV::List(et) => {
            let items = v->List_0;
            lemma_reset_skip_elems_identity(items, *et);
        },
        TyV::Array(et, _) => {
            let items = v->Group_0;
            lemma_reset_skip_elems_identity(items, *et);
        },
        TyV::Dict(kt, vt) => {
            let entries = v->List_0;
            lemma_reset_skip_entries_identity(entries, *kt, *vt);
        },
        TyV::Opt(et) => {
            match v {
                ValueV::Opt(Some(inner)) => {
                    lemma_reset_skip_identity(*inner, *et);
                },
                _ => {},
            }
        },
        TyV::Res(ot, et) => {
            lemma_reset_skip_identity(*v->Res_1, if v->Res_0 { *et } else { *ot });
        },
        TyV::Tuple(ts) => {
            lemma_reset_skip_tuple_identity(v->Group_0, ts);
        },
        TyV::Struct(fs) => {
            lemma_reset_skip_fields_identity(v->Group_0, fs);
        },
        TyV::Enum(vs) => {
            let d = v->Case_0;
            lemma_no_skips_variant(vs, d as int);
            lemma_reset_skip_fields_identity(v->Case_1, vs[d as int]);
        },
        _ => {},
    }
}

/// Every variant of a skip-free sum type is itself skip-free.
proof fn lemma_no_skips_variant(vs: Seq<Seq<FieldTyV>>, d: int)
    requires
        no_skips_variants(vs),
        0 <= d < vs.len(),
    ensures
        no_skips_fields(vs[d]),
    decreases vs.len(),
{
    if d > 0 {
        lemma_no_skips_variant(vs.skip(1), d - 1);
        assert(vs.skip(1)[d - 1] == vs[d]);
    }
}

proof fn lemma_reset_skip_elems_identity(items: Seq<ValueV>, et: TyV)
    requires
        forall|i: int| 0 <= i < items.len() ==> conforms(#[trigger] items[i], et),
        no_skips(et),
    ensures
        reset_skip_elems(items, et) == items,
    decreases items, 0int, items.len(),
{
    if items.len() > 0 {
        lemma_reset_skip_identity(items[0], et);
        lemma_reset_skip_elems_identity(items.skip(1), et);
        assert(reset_skip_elems(items, et) =~= items);
    } else {
        assert(reset_skip_elems(items, et) =~= items);
    }
}

proof fn lemma_reset_skip_entries_identity(entries: Seq<ValueV>, kt: TyV, vt: TyV)
    requires
        forall|i: int| 0 <= i < entries.len() ==> ((#[trigger] entries[i]) matches ValueV::Group(kv)
            && kv.len() == 2
            && conforms(kv[0], kt)
            && conforms(kv[1], vt)),
        no_skips(kt),
        no_skips(vt),
    ensures
        reset_skip_entries(entries, kt, vt) == entries,
    decreases entries, 0int, entries.len(),
{
    if entries.len() > 0 {
        let kv = entries[0]->Group_0;
        lemma_reset_skip_identity(kv[0], kt);
        lemma_reset_skip_identity(kv[1], vt);
        assert(seq![reset_skip(kv[0], kt), reset_skip(kv[1], vt)] =~= kv);
        lemma_reset_skip_entries_identity(entries.skip(1), kt, vt);
        assert(reset_skip_entries(entries, kt, vt) =~= entries);
    } else {
        assert(reset_skip_entries(entries, kt, vt) =~= entries);
    }
}

proof fn lemma_reset_skip_tuple_identity(items: Seq<ValueV>, ts: Seq<TyV>)
    requires
        items.len() == ts.len(),
        forall|i: int| 0 <= i < items.len() ==> conforms(#[trigger] items[i], ts[i]),
        no_skips_tys(ts),
    ensures
        reset_skip_tuple(items, ts) == items,
    decreases items, 0int, items.len(),
{
    if items.len() > 0 {
        lemma_reset_skip_identity(items[0], ts[0]);
        assert(forall|i: int| 0 <= i < items.skip(1).len()
            ==> conforms(#[trigger] items.skip(1)[i], ts.skip(1)[i]));
        lemma_reset_skip_tuple_identity(items.skip(1), ts.skip(1));
        assert(reset_skip_tuple(items, ts) =~= items);
    } else {
        assert(reset_skip_tuple(items, ts) =~= items);
    }
}

proof fn lemma_reset_skip_fields_identity(items: Seq<ValueV>, fs: Seq<FieldTyV>)
    requires
        items.len() == fs.len(),
        forall|i: int| 0 <= i < items.len() ==> conforms(#[trigger] items[i], fs[i].ty),
        no_skips_fields(fs),
    ensures
        reset_skip_fields(items, fs) == items,
    decreases items, 0int, items.len(),
{
    if items.len() > 0 {
        lemma_reset_skip_identity(items[0], fs[0].ty);
        assert(forall|i: int| 0 <= i < items.skip(1).len()
            ==> conforms(#[trigger] items.skip(1)[i], fs.skip(1)[i].ty));
        lemma_reset_skip_fields_identity(items.skip(1), fs.skip(1));
        assert(reset_skip_fields(items, fs) =~= items);
    } else {
        assert(reset_skip_fields(items, fs) =~= items);
    }
}


/// Whether a value fits the machine: every string's UTF-8 form and every
/// element count is at most `usize::MAX`. Every value an executable
/// program holds satisfies this; the round-trip laws assume it.
pub open spec fn bounded_val(v: ValueV) -> bool
    decreases v,
{
    match v {
        ValueV::Str(s) => encode_utf8(s).len() <= usize::MAX,
        ValueV::List(items) => items.len() <= usize::MAX
            && forall|i: int| 0 <= i < items.len() ==> bounded_val(#[trigger] items[i]),
        ValueV::Group(items) => items.len() <= usize::MAX
            && forall|i: int| 0 <= i < items.len() ==> bounded_val(#[trigger] items[i]),
        ValueV::Opt(o) => match o {
            Some(inner) => bounded_val(*inner),
            None => true,
        },
        ValueV::Res(_, inner) => bounded_val(*inner),
        ValueV::Case(_, items) => items.len() <= usize::MAX
            && forall|i: int| 0 <= i < items.len() ==> bounded_val(#[trigger] items[i]),
        _ => true,
    }
}


/// Decides whether `v` inhabits `t`: the executable twin of
/// [`conforms`], for callers that must test a value before encoding it.
#[verifier::loop_isolation(false)]
#[verifier::rlimit(100)]
#[verifier::spinoff_prover]
pub fn check_conforms(v: &Value, t: &Ty) -> (r: bool)
    ensures
        r == conforms(v@, t@),
    decreases v, 1int,
{
    match (t, v) {
        (Ty::Bool, Value::Bool(_)) => true,
        (Ty::U8, Value::U8(_)) => true,
        (Ty::U16, Value::U16(_)) => true,
        (Ty::U32, Value::U32(_)) => true,
        (Ty::U64, Value::U64(_)) => true,
        (Ty::I16, Value::I16(_)) => true,
        (Ty::I32, Value::I32(_)) => true,
        (Ty::I64, Value::I64(_)) => true,
        (Ty::Size, Value::Size(_)) => true,
        (Ty::Str, Value::Str(_)) => true,
        (Ty::List(et), Value::List(items)) => {
            proof {
                assert(items.deep_view() =~= v@->List_0);
            }
            check_elems(items, et)
        },
        (Ty::Array(et, n), Value::Group(items)) => {
            if items.len() != *n {
                return false;
            }
            proof {
                assert(items.deep_view() =~= v@->Group_0);
            }
            check_elems(items, et)
        },
        (Ty::Dict(kt, vt), Value::List(entries)) => {
            let n = entries.len();
            let ghost evs = v@->List_0;
            for i in 0..n
                invariant
                    n == entries@.len() == evs.len(),
                    forall|j: int| 0 <= j < i ==> ((#[trigger] evs[j]) matches ValueV::Group(kv)
                        && kv.len() == 2
                        && conforms(kv[0], et_of_dict_key(t@))
                        && conforms(kv[1], et_of_dict_val(t@))),
            {
                proof {
                    assert(evs[i as int] == value_view(entries@[i as int]));
                }
                match &entries[i] {
                    Value::Group(kv) => {
                        if kv.len() != 2 {
                            return false;
                        }
                        if !check_conforms(&kv[0], kt) {
                            return false;
                        }
                        if !check_conforms(&kv[1], vt) {
                            return false;
                        }
                        proof {
                            assert(evs[i as int]->Group_0[0] == value_view(kv@[0]));
                            assert(evs[i as int]->Group_0[1] == value_view(kv@[1]));
                        }
                    },
                    _ => {
                        return false;
                    },
                }
            }
            true
        },
        (Ty::Opt(et), Value::Opt(o)) => {
            match o {
                Some(inner) => check_conforms(&**inner, et),
                None => true,
            }
        },
        (Ty::Res(ot, et), Value::Res(side, inner)) => {
            if *side {
                check_conforms(&**inner, et)
            } else {
                check_conforms(&**inner, ot)
            }
        },
        (Ty::Tuple(ts), Value::Group(items)) => {
            if items.len() != ts.len() {
                return false;
            }
            let n = items.len();
            let ghost ivs = v@->Group_0;
            let ghost tvs = t@->Tuple_0;
            for i in 0..n
                invariant
                    n == items@.len() == ivs.len(),
                    n == ts@.len() == tvs.len(),
                    forall|j: int| 0 <= j < i ==> conforms(#[trigger] ivs[j], tvs[j]),
            {
                proof {
                    assert(ivs[i as int] == value_view(items@[i as int]));
                    assert(tvs[i as int] == ty_view(ts@[i as int]));
                }
                if !check_conforms(&items[i], &ts[i]) {
                    return false;
                }
            }
            true
        },
        (Ty::Struct(fs), Value::Group(items)) => {
            if items.len() != fs.len() {
                return false;
            }
            let n = items.len();
            let ghost ivs = v@->Group_0;
            let ghost fvs = t@->Struct_0;
            for i in 0..n
                invariant
                    n == items@.len() == ivs.len(),
                    n == fs@.len() == fvs.len(),
                    forall|j: int| 0 <= j < i ==> conforms(#[trigger] ivs[j], fvs[j].ty),
            {
                proof {
                    assert(ivs[i as int] == value_view(items@[i as int]));
                    assert(fvs[i as int] == field_view(fs@[i as int]));
                }
                if !check_conforms(&items[i], &fs[i].ty) {
                    return false;
                }
            }
            true
        },
        (Ty::Enum(vs), Value::Case(d, items)) => {
            if *d >= vs.len() {
                return false;
            }
            let fields = &vs[*d].fields;
            if items.len() != fields.len() {
                return false;
            }
            let n = items.len();
            let ghost ivs = v@->Case_1;
            let ghost fvs = (t@->Enum_0)[*d as int];
            proof {
                assert(fvs =~= vs@[*d as int].fields.deep_view());
            }
            for i in 0..n
                invariant
                    n == items@.len() == ivs.len(),
                    n == fields@.len() == fvs.len(),
                    forall|j: int| 0 <= j < i ==> conforms(#[trigger] ivs[j], fvs[j].ty),
            {
                proof {
                    assert(ivs[i as int] == value_view(items@[i as int]));
                    assert(fvs[i as int] == field_view(fields@[i as int]));
                }
                if !check_conforms(&items[i], &fields[i].ty) {
                    return false;
                }
            }
            true
        },
        _ => false,
    }
}

/// The key type of a map type; a placeholder anywhere else.
pub open spec fn et_of_dict_key(t: TyV) -> TyV {
    match t {
        TyV::Dict(kt, _) => *kt,
        _ => TyV::Bool,
    }
}

/// The value type of a map type; a placeholder anywhere else.
pub open spec fn et_of_dict_val(t: TyV) -> TyV {
    match t {
        TyV::Dict(_, vt) => *vt,
        _ => TyV::Bool,
    }
}

/// Whether every element conforms to the element type.
#[verifier::loop_isolation(false)]
fn check_elems(items: &Vec<Value>, et: &Ty) -> (r: bool)
    ensures
        r == (forall|i: int| 0 <= i < items@.len()
            ==> conforms(#[trigger] items.deep_view()[i], et@)),
    decreases items, 0int,
{
    let n = items.len();
    let ghost ivs = items.deep_view();
    for i in 0..n
        invariant
            n == items@.len() == ivs.len(),
            forall|j: int| 0 <= j < i ==> conforms(#[trigger] ivs[j], et@),
    {
        proof {
            assert(ivs[i as int] == value_view(items@[i as int]));
        }
        if !check_conforms(&items[i], et) {
            return false;
        }
    }
    true
}

} // verus!
