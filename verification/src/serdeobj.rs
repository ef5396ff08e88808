//! The serializer and deserializer objects: the state one top-level call
//! threads through a traversal, and the capability interfaces that a
//! type implements to take part in the wire format. The mode override
//! for a subtree is a pure wrapper; the wrapped state is untouched.

use vstd::prelude::*;
use crate::value::{Value, Ty, ValueV, TyV, conforms};
use crate::serde::Mode;
use crate::dedup::DedupContext;
use crate::wire::{strs_of, strs_of_elems, enc_val, enc_elems, dec_val};
use crate::ser::{prescan_value, encode_value};
use crate::de::decode_value;
use crate::Error;

verus! {

/// A discarded byte sink: everything written to it vanishes, which is
/// all the prescan pass needs from its output.
pub struct NullWrite;

impl NullWrite {
    /// Accepts and discards `buf`, reporting it all written.
    pub fn write(&mut self, buf: &Vec<u8>) -> (n: usize)
        ensures
            n == buf@.len(),
    {
        buf.len()
    }
}

/// What a serializer hands the codec: its active mode. The byte sink
/// and the dedup table are fields of the concrete serializers.
pub trait BinSerializer: Sized {
    /// The active mode, as mathematics.
    spec fn spec_mode(&self) -> Mode;

    /// The active mode.
    fn mode(&self) -> (r: Mode)
        ensures
            r == self.spec_mode(),
    ;
}

/// What a deserializer hands the codec: its active mode.
pub trait BinDeserializer: Sized {
    /// The active mode, as mathematics.
    spec fn spec_mode(&self) -> Mode;

    /// The active mode.
    fn mode(&self) -> (r: Mode)
        ensures
            r == self.spec_mode(),
    ;
}

/// A serializer or deserializer with its mode overridden for one
/// subtree: a pure, localized wrapper — sibling fields still see the
/// wrapped state's own mode.
pub struct WithMode<S> {
    pub inner: S,
    pub mode: Mode,
}

impl<S: BinSerializer> BinSerializer for WithMode<S> {
    open spec fn spec_mode(&self) -> Mode {
        self.mode
    }

    fn mode(&self) -> (r: Mode) {
        self.mode
    }
}

/// The real pass's serializer: the output buffer and the dedup table the
/// prescan pass populated, frozen for the rest of the call.
pub struct BinSerializerBase {
    pub pipe: Vec<u8>,
    pub dedup: DedupContext,
}

impl BinSerializerBase {
    /// A serializer over `pipe` with an empty table.
    pub fn new(pipe: Vec<u8>) -> (r: BinSerializerBase)
        ensures
            r.pipe == pipe,
            r.dedup@ == Seq::<Seq<char>>::empty(),
            r.dedup.wf(),
    {
        BinSerializerBase { pipe, dedup: DedupContext::new() }
    }

    /// Gives the written bytes up.
    pub fn into_pipe(self) -> (r: Vec<u8>)
        ensures
            r == self.pipe,
    {
        self.pipe
    }

    /// Runs the real pass for one value against this serializer's table.
    pub fn serialize_value(&mut self, v: &Value, t: &Ty, mode: Mode) -> (r: Result<(), Error>)
        requires
            conforms(v@, t@),
            old(self).dedup.wf(),
            forall|s: Seq<char>| strs_of(v@, t@, mode.use_dedup).contains(s)
                ==> old(self).dedup@.contains(s),
        ensures
            final(self).dedup == old(self).dedup,
            match r {
                Ok(()) => enc_val(v@, t@, mode, old(self).dedup@) matches Ok(b)
                    && final(self).pipe@ == old(self).pipe@ + b,
                Err(e) => enc_val(v@, t@, mode, old(self).dedup@) == Err::<Seq<u8>, _>(e),
            },
    {
        let dedup = &self.dedup;
        encode_value(v, t, mode, dedup, &mut self.pipe)
    }
}

impl BinSerializer for BinSerializerBase {
    open spec fn spec_mode(&self) -> Mode {
        Mode::spec_default()
    }

    fn mode(&self) -> (r: Mode) {
        Mode::default()
    }
}

/// The prescan pass's serializer: a discarded sink and the table being
/// populated — its only externally visible effect.
pub struct PrescanSerializer {
    pub pipe: NullWrite,
    pub dedup: DedupContext,
}

impl PrescanSerializer {
    /// A prescan serializer with an empty table.
    pub fn new() -> (r: PrescanSerializer)
        ensures
            r.dedup@ == Seq::<Seq<char>>::empty(),
            r.dedup.wf(),
    {
        PrescanSerializer { pipe: NullWrite, dedup: DedupContext::new() }
    }

    /// Runs the prescan pass for one value: interns, in traversal order,
    /// every string inside dedup scope; writes nothing anywhere.
    pub fn serialize_value(&mut self, v: &Value, t: &Ty, mode: Mode)
        requires
            conforms(v@, t@),
            old(self).dedup.wf(),
        ensures
            final(self).dedup.wf(),
            final(self).dedup@ == crate::dedup::tbl_intern_all(
                old(self).dedup@,
                strs_of(v@, t@, mode.use_dedup),
            ),
    {
        prescan_value(v, t, mode, &mut self.dedup);
    }
}

impl BinSerializer for PrescanSerializer {
    open spec fn spec_mode(&self) -> Mode {
        Mode::spec_default()
    }

    fn mode(&self) -> (r: Mode) {
        Mode::default()
    }
}

/// The read side's state: the input, the position in it, and the table
/// read from the preamble, read-only for the whole call.
pub struct BinDeserializerBase {
    pub pipe: Vec<u8>,
    pub pos: usize,
    pub dedup: DedupContext,
}

impl BinDeserializerBase {
    /// A deserializer over `pipe` using the already-read table `dedup`.
    pub fn new(pipe: Vec<u8>, dedup: DedupContext) -> (r: BinDeserializerBase)
        ensures
            r.pipe == pipe,
            r.pos == 0,
            r.dedup == dedup,
    {
        BinDeserializerBase { pipe, pos: 0, dedup }
    }

    /// Decodes one value at the current position and moves past it.
    pub fn deserialize_value(&mut self, t: &Ty, mode: Mode) -> (r: Result<Value, Error>)
        requires
            old(self).pos <= old(self).pipe@.len(),
        ensures
            final(self).pipe == old(self).pipe,
            final(self).dedup == old(self).dedup,
            match r {
                Ok(val) => dec_val(t@, old(self).pipe@.skip(old(self).pos as int), mode, old(self).dedup@)
                    == Ok::<_, Error>((val@, (final(self).pos - old(self).pos) as nat))
                    && old(self).pos <= final(self).pos <= final(self).pipe@.len(),
                Err(e) => dec_val(t@, old(self).pipe@.skip(old(self).pos as int), mode, old(self).dedup@)
                    == Err::<(ValueV, nat), _>(e)
                    && final(self).pos == old(self).pos,
            },
    {
        match decode_value(t, &self.pipe, self.pos, mode, &self.dedup) {
            Ok((val, end)) => {
                self.pos = end;
                Ok(val)
            },
            Err(e) => Err(e),
        }
    }
}

impl BinDeserializer for BinDeserializerBase {
    open spec fn spec_mode(&self) -> Mode {
        Mode::spec_default()
    }

    fn mode(&self) -> (r: Mode) {
        Mode::default()
    }
}

impl<D: BinDeserializer> BinDeserializer for WithMode<D> {
    open spec fn spec_mode(&self) -> Mode {
        self.mode
    }

    fn mode(&self) -> (r: Mode) {
        self.mode
    }
}

/// What a type provides to take part in the wire format: its schema type
/// and its wire value. The engine then encodes and decodes the wire
/// value; [`crate::gamedata::GameObjectBase`] implements both sides.
pub trait BinSerialize {
    /// The schema type the wire value inhabits, as mathematics.
    spec fn spec_wire_ty(&self) -> TyV;

    /// The wire value, as mathematics.
    spec fn spec_wire_value(&self) -> ValueV;

    /// Builds the value that stands for `self` on the wire.
    fn to_wire(&self) -> (r: Value)
        ensures
            r@ == self.spec_wire_value(),
            conforms(r@, self.spec_wire_ty()),
    ;
}

/// The read-side counterpart of [`BinSerialize`]: rebuilding a type from
/// its wire value.
pub trait BinDeserialize: Sized {
    /// Rebuilds a value of this type from its decoded wire form, or
    /// reports in what way the wire form does not fit.
    fn from_wire(v: &Value) -> Result<Self, Error>;
}

/// A type whose wire form borrows nothing from the stream.
pub trait BinDeserializeOwned: BinDeserialize {
}

/// The run of same-typed elements as the sequence codec writes it: the
/// element count as a size value, then the elements in order — exactly
/// the encoding of a list value of those elements.
pub fn serialize_iter(items: &Vec<Value>, et: &Ty, mode: Mode, ctx: &DedupContext, pipe: &mut Vec<u8>) -> (r: Result<(), Error>)
    requires
        forall|j: int| 0 <= j < items@.len() ==> conforms(#[trigger] items.deep_view()[j], et@),
        ctx.wf(),
        mode.use_dedup ==> forall|s: Seq<char>| strs_of_elems(items.deep_view(), et@, 0).contains(s)
            ==> ctx@.contains(s),
    ensures
        match r {
            Ok(()) => enc_val(ValueV::List(items.deep_view()), TyV::List(Box::new(et@)), mode, ctx@)
                matches Ok(b) && final(pipe)@ == old(pipe)@ + b,
            Err(e) => enc_val(ValueV::List(items.deep_view()), TyV::List(Box::new(et@)), mode, ctx@)
                == Err::<Seq<u8>, _>(e),
        },
{
    match crate::serde::write_size(items.len(), mode.usize_len, pipe) {
        Ok(()) => {
            let ghost mid = pipe@;
            match crate::ser::encode_elems(items, et, mode, ctx, pipe) {
                Ok(()) => {
                    proof {
                        let pre = crate::serde::spec_write_size(
                            items.deep_view().len(),
                            mode.usize_len,
                        )->Ok_0;
                        let b = enc_elems(items.deep_view(), et@, 0, mode, ctx@)->Ok_0;
                        assert(pipe@ =~= old(pipe)@ + (pre + b));
                    }
                    Ok(())
                },
                Err(e) => Err(e),
            }
        },
        Err(e) => Err(e),
    }
}

} // verus!
