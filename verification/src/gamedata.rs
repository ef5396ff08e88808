//! The game-object domain model: registries of blocks and items keyed
//! by identifier, the bookkeeping that marks objects as hand-made or
//! automatically discovered, and the dependency links gathered from
//! language files.

use vstd::prelude::*;
use crate::ident::{Ident, Identifier};
use crate::value::conforms;
use crate::workspace::TreeChangeDispatcher;

verus! {

/// Whether an object was created automatically, and whether that record
/// has been superseded.
#[derive(Debug, PartialEq, Eq, Structural)]
pub enum AutoStatus {
    No,
    Yes,
    Deleted,
}

/// The bookkeeping every game object carries: its identifier, whether a
/// person created it, and its automatic-discovery status.
#[derive(Debug, PartialEq)]
pub struct GameObjectBase {
    pub manual: bool,
    pub auto: AutoStatus,
    pub id: Identifier,
}

impl GameObjectBase {
    /// A hand-made object.
    pub fn new(id: Identifier) -> (r: GameObjectBase)
        ensures
            r.manual == true,
            r.auto == AutoStatus::No,
            r.id == id,
    {
        GameObjectBase { manual: true, auto: AutoStatus::No, id }
    }

    /// An automatically discovered object.
    pub fn auto(id: Identifier) -> (r: GameObjectBase)
        ensures
            r.manual == false,
            r.auto == AutoStatus::Yes,
            r.id == id,
    {
        GameObjectBase { manual: false, auto: AutoStatus::Yes, id }
    }

    /// The object's identifier.
    pub fn id(&self) -> (r: Ident)
        ensures
            r@ == self.id@,
    {
        self.id.as_ident()
    }

    /// Records whether a person now maintains the object.
    pub fn mark_manual(&mut self, flag: bool)
        ensures
            *final(self) == (GameObjectBase { manual: flag, ..*old(self) }),
    {
        self.manual = flag;
    }

    /// Flips the automatic-discovery mark, but never resurrects a
    /// deleted record.
    pub fn mark_auto(&mut self, flag: bool)
        ensures
            final(self).manual == old(self).manual,
            final(self).id == old(self).id,
            final(self).auto == (if !flag && old(self).auto == AutoStatus::Yes {
                AutoStatus::No
            } else if flag && old(self).auto == AutoStatus::No {
                AutoStatus::Yes
            } else {
                old(self).auto
            }),
    {
        if !flag && self.auto == AutoStatus::Yes {
            self.auto = AutoStatus::No;
        } else if flag && self.auto == AutoStatus::No {
            self.auto = AutoStatus::Yes;
        }
    }

    /// Whether nothing keeps the object alive: not hand-made, and not
    /// currently discovered.
    pub fn marked_for_deletion(&self) -> (r: bool)
        ensures
            r == (!self.manual && self.auto != AutoStatus::Yes),
    {
        !self.manual && !(self.auto == AutoStatus::Yes)
    }
}


/// The flag byte a bookkeeping record is stored as: bit zero carries the
/// hand-made mark, bit one whether the record is automatic, and bit two,
/// on top of bit one, whether that automatic record was superseded.
pub open spec fn spec_base_bits(manual: bool, auto: AutoStatus) -> u8 {
    ((if manual { 1u8 } else { 0u8 }) + match auto {
        AutoStatus::No => 0u8,
        AutoStatus::Yes => 2u8,
        AutoStatus::Deleted => 6u8,
    }) as u8
}

/// The hand-made mark a stored flag byte carries.
pub open spec fn spec_bits_manual(bits: u8) -> bool {
    bits % 2 == 1
}

/// The automatic-discovery status a stored flag byte carries.
pub open spec fn spec_bits_auto(bits: u8) -> AutoStatus {
    if (bits / 2) % 2 == 1 {
        if (bits / 4) % 2 == 1 {
            AutoStatus::Deleted
        } else {
            AutoStatus::Yes
        }
    } else {
        AutoStatus::No
    }
}

/// The flag byte decodes back to the flags it was built from.
pub proof fn lemma_base_bits_roundtrip(manual: bool, auto: AutoStatus)
    ensures
        spec_bits_manual(spec_base_bits(manual, auto)) == manual,
        spec_bits_auto(spec_base_bits(manual, auto)) == auto,
{
}

impl GameObjectBase {
    /// The record as a wire value: its identifier string, then its flag
    /// byte. The engine serializes it at type `Tuple([Str, U8])`.
    pub fn to_value(&self) -> (r: crate::value::Value)
        ensures
            r@ == crate::value::ValueV::Group(
                seq![
                    crate::value::ValueV::Str(self.id@),
                    crate::value::ValueV::U8(spec_base_bits(self.manual, self.auto)),
                ],
            ),
    {
        let mut bits: u8 = if self.manual { 1 } else { 0 };
        bits = bits + (match self.auto {
            AutoStatus::No => 0,
            AutoStatus::Yes => 2,
            AutoStatus::Deleted => 6,
        });
        let mut fields: Vec<crate::value::Value> = Vec::new();
        fields.push(crate::value::Value::Str(self.id.as_ident().to_identifier().into_inner()));
        fields.push(crate::value::Value::U8(bits));
        let ghost f0 = fields@[0];
        let ghost f1 = fields@[1];
        let r = crate::value::Value::Group(fields);
        proof {
            assert(r@->Group_0[0] == crate::value::value_view(f0));
            assert(r@->Group_0[1] == crate::value::value_view(f1));
            assert(r@->Group_0 =~= seq![
                crate::value::ValueV::Str(self.id@),
                crate::value::ValueV::U8(spec_base_bits(self.manual, self.auto)),
            ]);
            assert(r@ == crate::value::ValueV::Group(r@->Group_0));
        }
        r
    }

    /// The schema type that [`GameObjectBase::to_value`] inhabits.
    pub fn wire_ty() -> (r: crate::value::Ty)
        ensures
            r@ == crate::value::TyV::Tuple(seq![crate::value::TyV::Str, crate::value::TyV::U8]),
    {
        let mut parts: Vec<crate::value::Ty> = Vec::new();
        parts.push(crate::value::Ty::Str);
        parts.push(crate::value::Ty::U8);
        let ghost p0 = parts@[0];
        let ghost p1 = parts@[1];
        let r = crate::value::Ty::Tuple(parts);
        proof {
            assert(r@->Tuple_0[0] == crate::value::ty_view(p0));
            assert(r@->Tuple_0[1] == crate::value::ty_view(p1));
            assert(r@->Tuple_0 =~= seq![crate::value::TyV::Str, crate::value::TyV::U8]);
            assert(r@ == crate::value::TyV::Tuple(r@->Tuple_0));
        }
        r
    }

    /// Reads a record back from its wire value; anything but an
    /// identifier string and a flag byte is a hand-written codec fault.
    pub fn from_value(v: &crate::value::Value) -> (r: Result<GameObjectBase, crate::Error>)
        ensures
            match r {
                Ok(base) => v@ matches crate::value::ValueV::Group(fields)
                    && fields.len() == 2
                    && (fields[0] matches crate::value::ValueV::Str(id)
                        && (fields[1] matches crate::value::ValueV::U8(bits)
                            && base.id@ == id
                            && base.manual == spec_bits_manual(bits)
                            && base.auto == spec_bits_auto(bits))),
                Err(e) => e matches crate::Error::Custom(_),
            },
    {
        match v {
            crate::value::Value::Group(fields) => {
                if fields.len() != 2 {
                    return Err(crate::Error::custom("expected two fields"));
                }
                proof {
                    assert((v@->Group_0)[0] == crate::value::value_view(fields@[0]));
                    assert((v@->Group_0)[1] == crate::value::value_view(fields@[1]));
                }
                let id = match &fields[0] {
                    crate::value::Value::Str(s) => Identifier::from_string(s.clone()),
                    _ => {
                        return Err(crate::Error::custom("expected an identifier string"));
                    },
                };
                let bits = match &fields[1] {
                    crate::value::Value::U8(b) => *b,
                    _ => {
                        return Err(crate::Error::custom("expected a flag byte"));
                    },
                };
                let manual = bits % 2 == 1;
                let auto = if (bits / 2) % 2 == 1 {
                    if (bits / 4) % 2 == 1 {
                        AutoStatus::Deleted
                    } else {
                        AutoStatus::Yes
                    }
                } else {
                    AutoStatus::No
                };
                Ok(GameObjectBase { manual, auto, id })
            },
            _ => Err(crate::Error::custom("expected a field group")),
        }
    }
}


impl crate::serdeobj::BinSerialize for GameObjectBase {
    open spec fn spec_wire_ty(&self) -> crate::value::TyV {
        crate::value::TyV::Tuple(seq![crate::value::TyV::Str, crate::value::TyV::U8])
    }

    open spec fn spec_wire_value(&self) -> crate::value::ValueV {
        crate::value::ValueV::Group(
            seq![
                crate::value::ValueV::Str(self.id@),
                crate::value::ValueV::U8(spec_base_bits(self.manual, self.auto)),
            ],
        )
    }

    fn to_wire(&self) -> (r: crate::value::Value) {
        let r = self.to_value();
        proof {
            let wv = r@;
            let wt = self.spec_wire_ty();
            assert(conforms(wv->Group_0[0], wt->Tuple_0[0]));
            assert(conforms(wv->Group_0[1], wt->Tuple_0[1]));
            assert forall|i: int| 0 <= i < wv->Group_0.len()
                implies conforms(#[trigger] wv->Group_0[i], wt->Tuple_0[i]) by {
                if i == 0 {
                } else {
                    assert(i == 1);
                }
            }
        }
        r
    }
}

impl crate::serdeobj::BinDeserialize for GameObjectBase {
    fn from_wire(v: &crate::value::Value) -> Result<GameObjectBase, crate::Error> {
        GameObjectBase::from_value(v)
    }
}

impl crate::serdeobj::BinDeserializeOwned for GameObjectBase {
}

/// What every registrable object exposes: its bookkeeping record.
pub trait GameObject: Sized {
    /// The object's bookkeeping record, as mathematics.
    spec fn base_spec(&self) -> GameObjectBase;

    /// The object's bookkeeping record.
    fn base(&self) -> (r: &GameObjectBase)
        ensures
            *r == self.base_spec(),
    ;
}

/// Whether some element of `s` carries the identifier text `id`.
pub open spec fn has_id<T: GameObject>(s: Seq<T>, id: Seq<char>) -> bool {
    exists|i: int| 0 <= i < s.len() && (#[trigger] s[i]).base_spec().id@ == id
}

/// A collection of game objects with pairwise distinct identifiers.
pub struct Registry<T> {
    pub inner: Vec<T>,
}

impl<T: GameObject> Registry<T> {
    /// No two elements share an identifier.
    pub open spec fn wf(&self) -> bool {
        forall|i: int, j: int| 0 <= i < j < self.inner@.len()
            ==> (#[trigger] self.inner@[i]).base_spec().id@
                != (#[trigger] self.inner@[j]).base_spec().id@
    }

    /// The registered objects, in registration order.
    pub open spec fn objects(&self) -> Seq<T> {
        self.inner@
    }

    /// An empty registry.
    pub fn new() -> (r: Registry<T>)
        ensures
            r.objects() == Seq::<T>::empty(),
            r.wf(),
    {
        let r = Registry { inner: Vec::new() };
        proof {
            assert(r.objects() =~= Seq::<T>::empty());
        }
        r
    }

    /// The position of the object carrying `id`, if any.
    fn find(&self, id: &Ident) -> (r: Option<usize>)
        ensures
            match r {
                Some(i) => i < self.objects().len()
                    && self.objects()[i as int].base_spec().id@ == id@,
                None => !has_id(self.objects(), id@),
            },
    {
        let n = self.inner.len();
        for i in 0..n
            invariant
                n == self.inner@.len(),
                forall|j: int| 0 <= j < i
                    ==> (#[trigger] self.inner@[j]).base_spec().id@ != id@,
        {
            if crate::dedup::str_eq(self.inner[i].base().id.as_ident().as_str(), id.as_str()) {
                return Some(i);
            }
        }
        None
    }

    /// Registers `object` under its identifier: refused, and handed
    /// back, when that identifier is already taken.
    pub fn register(&mut self, object: T) -> (r: Result<(), T>)
        requires
            old(self).wf(),
        ensures
            final(self).wf(),
            match r {
                Ok(()) => !has_id(old(self).objects(), object.base_spec().id@)
                    && final(self).objects() == old(self).objects().push(object),
                Err(returned) => returned == object
                    && has_id(old(self).objects(), object.base_spec().id@)
                    && final(self).objects() == old(self).objects(),
            },
    {
        match self.find(&object.base().id.as_ident()) {
            Some(_) => Err(object),
            None => {
                self.inner.push(object);
                Ok(())
            },
        }
    }

    /// Removes and returns the object carrying `id`, or reports that
    /// none does.
    pub fn deregister(&mut self, id: &Ident) -> (r: Result<T, ()>)
        requires
            old(self).wf(),
        ensures
            final(self).wf(),
            match r {
                Ok(gone) => exists|i: int| 0 <= i < old(self).objects().len()
                    && gone == old(self).objects()[i]
                    && gone.base_spec().id@ == id@
                    && final(self).objects() == old(self).objects().remove(i),
                Err(()) => !has_id(old(self).objects(), id@)
                    && final(self).objects() == old(self).objects(),
            },
    {
        match self.find(id) {
            Some(i) => {
                let gone = self.inner.remove(i);
                proof {
                    assert forall|a: int, b: int| 0 <= a < b < self.inner@.len()
                        implies (#[trigger] self.inner@[a]).base_spec().id@
                            != (#[trigger] self.inner@[b]).base_spec().id@ by {
                        assert(self.inner@[a] == if a < i { old(self).objects()[a] } else {
                            old(self).objects()[a + 1]
                        });
                        assert(self.inner@[b] == if b < i { old(self).objects()[b] } else {
                            old(self).objects()[b + 1]
                        });
                    }
                }
                Ok(gone)
            },
            None => Err(()),
        }
    }

    /// Empties the registry.
    pub fn clear(&mut self)
        ensures
            final(self).objects() == Seq::<T>::empty(),
            final(self).wf(),
    {
        self.inner.clear();
        proof {
            assert(self.objects() =~= Seq::<T>::empty());
        }
    }

    /// The identifiers of the registered objects, in order.
    pub fn ids(&self) -> (r: Vec<Identifier>)
        ensures
            r@.len() == self.objects().len(),
            forall|k: int| 0 <= k < r@.len()
                ==> (#[trigger] r@[k])@ == self.objects()[k].base_spec().id@,
    {
        let mut out: Vec<Identifier> = Vec::new();
        let n = self.inner.len();
        for i in 0..n
            invariant
                n == self.inner@.len(),
                out@.len() == i,
                forall|k: int| 0 <= k < i
                    ==> (#[trigger] out@[k])@ == self.inner@[k].base_spec().id@,
        {
            out.push(self.inner[i].base().id.as_ident().to_identifier());
        }
        out
    }

    /// The object carrying `id`, if any.
    pub fn by_id(&self, id: &Ident) -> (r: Option<&T>)
        ensures
            match r {
                Some(obj) => obj.base_spec().id@ == id@
                    && has_id(self.objects(), id@),
                None => !has_id(self.objects(), id@),
            },
    {
        match self.find(id) {
            Some(i) => {
                proof {
                    assert(has_id(self.objects(), id@));
                }
                Some(&self.inner[i])
            },
            None => None,
        }
    }

    /// Whether some object carries `id`.
    pub fn contains(&self, id: &Ident) -> (r: bool)
        ensures
            r == has_id(self.objects(), id@),
    {
        match self.find(id) {
            Some(_) => {
                proof {
                    assert(has_id(self.objects(), id@));
                }
                true
            },
            None => false,
        }
    }

    /// How many objects are registered.
    pub fn len(&self) -> (n: usize)
        ensures
            n == self.objects().len(),
    {
        self.inner.len()
    }
}

/// A block: bookkeeping only, in this model.
#[derive(Debug, PartialEq)]
pub struct Block {
    pub base: GameObjectBase,
}

impl Block {
    /// Wraps a bookkeeping record as a block.
    pub fn new(base: GameObjectBase) -> (r: Block)
        ensures
            r.base == base,
    {
        Block { base }
    }

    /// See [`GameObjectBase::mark_manual`].
    pub fn mark_manual(&mut self, flag: bool)
        ensures
            *final(self) == (Block { base: GameObjectBase { manual: flag, ..old(self).base } }),
    {
        self.base.mark_manual(flag);
    }

    /// See [`GameObjectBase::mark_auto`].
    pub fn mark_auto(&mut self, flag: bool)
        ensures
            final(self).base.manual == old(self).base.manual,
            final(self).base.id == old(self).base.id,
            final(self).base.auto == (if !flag && old(self).base.auto == AutoStatus::Yes {
                AutoStatus::No
            } else if flag && old(self).base.auto == AutoStatus::No {
                AutoStatus::Yes
            } else {
                old(self).base.auto
            }),
    {
        self.base.mark_auto(flag);
    }

    /// See [`GameObjectBase::marked_for_deletion`].
    pub fn marked_for_deletion(&self) -> (r: bool)
        ensures
            r == (!self.base.manual && self.base.auto != AutoStatus::Yes),
    {
        self.base.marked_for_deletion()
    }
}

impl GameObject for Block {
    open spec fn base_spec(&self) -> GameObjectBase {
        self.base
    }

    fn base(&self) -> (r: &GameObjectBase) {
        &self.base
    }
}

/// An item: bookkeeping only, in this model.
#[derive(Debug, PartialEq)]
pub struct Item {
    pub base: GameObjectBase,
}

impl Item {
    /// Wraps a bookkeeping record as an item.
    pub fn new(base: GameObjectBase) -> (r: Item)
        ensures
            r.base == base,
    {
        Item { base }
    }

    /// See [`GameObjectBase::mark_manual`].
    pub fn mark_manual(&mut self, flag: bool)
        ensures
            *final(self) == (Item { base: GameObjectBase { manual: flag, ..old(self).base } }),
    {
        self.base.mark_manual(flag);
    }

    /// See [`GameObjectBase::mark_auto`].
    pub fn mark_auto(&mut self, flag: bool)
        ensures
            final(self).base.manual == old(self).base.manual,
            final(self).base.id == old(self).base.id,
            final(self).base.auto == (if !flag && old(self).base.auto == AutoStatus::Yes {
                AutoStatus::No
            } else if flag && old(self).base.auto == AutoStatus::No {
                AutoStatus::Yes
            } else {
                old(self).base.auto
            }),
    {
        self.base.mark_auto(flag);
    }

    /// See [`GameObjectBase::marked_for_deletion`].
    pub fn marked_for_deletion(&self) -> (r: bool)
        ensures
            r == (!self.base.manual && self.base.auto != AutoStatus::Yes),
    {
        self.base.marked_for_deletion()
    }
}

impl GameObject for Item {
    open spec fn base_spec(&self) -> GameObjectBase {
        self.base
    }

    fn base(&self) -> (r: &GameObjectBase) {
        &self.base
    }
}

/// One dependency edge endpoint: a language file, a block, or an item.
#[derive(Debug, PartialEq)]
pub enum DependencyLink {
    Language(String, String),
    Block(Identifier),
    Item(Identifier),
}

/// The dependency edges gathered from the workspace's language files:
/// pairs of source and target.
pub struct GameDataReferences {
    pub map: Vec<(DependencyLink, DependencyLink)>,
}

impl GameDataReferences {
    /// Records one edge.
    pub fn insert(&mut self, key: DependencyLink, value: DependencyLink)
        ensures
            final(self).map@ == old(self).map@.push((key, value)),
    {
        self.map.push((key, value));
    }
}

/// The model of everything the game data holds: the reference edges and
/// the block and item registries, with a change dispatcher beside them.
pub struct GameData {
    pub refs: GameDataReferences,
    pub blocks: Registry<Block>,
    pub items: Registry<Item>,
    pub dispatcher: TreeChangeDispatcher,
}

impl GameData {
    /// Empty game data.
    pub fn new() -> (r: GameData)
        ensures
            r.refs.map@ == Seq::<(DependencyLink, DependencyLink)>::empty(),
            r.blocks.objects() == Seq::<Block>::empty(),
            r.items.objects() == Seq::<Item>::empty(),
            r.blocks.wf(),
            r.items.wf(),
    {
        let r = GameData {
            refs: GameDataReferences { map: Vec::new() },
            blocks: Registry::new(),
            items: Registry::new(),
            dispatcher: TreeChangeDispatcher::new(),
        };
        proof {
            assert(r.refs.map@ =~= Seq::<(DependencyLink, DependencyLink)>::empty());
        }
        r
    }

    /// Clears the references and both registries; listeners stay.
    pub fn reset(&mut self)
        ensures
            final(self).refs.map@ == Seq::<(DependencyLink, DependencyLink)>::empty(),
            final(self).blocks.objects() == Seq::<Block>::empty(),
            final(self).items.objects() == Seq::<Item>::empty(),
            final(self).blocks.wf(),
            final(self).items.wf(),
            final(self).dispatcher == old(self).dispatcher,
    {
        self.refs.map.clear();
        self.blocks.clear();
        self.items.clear();
        proof {
            assert(self.refs.map@ =~= Seq::<(DependencyLink, DependencyLink)>::empty());
        }
    }

    /// For every block and item edge target, makes sure an object with
    /// that identifier is registered, creating an automatically
    /// discovered dummy where none exists.
    #[verifier::loop_isolation(false)]
    pub fn create_dummies(&mut self)
        requires
            old(self).blocks.wf(),
            old(self).items.wf(),
        ensures
            final(self).blocks.wf(),
            final(self).items.wf(),
            final(self).refs.map@ == old(self).refs.map@,
            forall|k: int| 0 <= k < final(self).refs.map@.len()
                ==> match (#[trigger] final(self).refs.map@[k]).1 {
                    DependencyLink::Block(id) => has_id(final(self).blocks.objects(), id@),
                    DependencyLink::Item(id) => has_id(final(self).items.objects(), id@),
                    DependencyLink::Language(_, _) => true,
                },
    {
        let n = self.refs.map.len();
        for k in 0..n
            invariant
                n == self.refs.map@.len(),
                self.refs.map@ == old(self).refs.map@,
                self.blocks.wf(),
                self.items.wf(),
                forall|j: int| 0 <= j < k
                    ==> match (#[trigger] self.refs.map@[j]).1 {
                        DependencyLink::Block(id) => has_id(self.blocks.objects(), id@),
                        DependencyLink::Item(id) => has_id(self.items.objects(), id@),
                        DependencyLink::Language(_, _) => true,
                    },
        {
            let ghost blocks_before = self.blocks.objects();
            let ghost items_before = self.items.objects();
            match &self.refs.map[k].1 {
                DependencyLink::Block(id) => {
                    let ident = id.as_ident();
                    if !self.blocks.contains(&ident) {
                        let dummy = Block::new(GameObjectBase::auto(ident.to_identifier()));
                        let ghost dv = dummy;
                        let _ = self.blocks.register(dummy);
                        proof {
                            assert(self.blocks.objects() == blocks_before.push(dv));
                            assert(self.blocks.objects()[blocks_before.len() as int] == dv);
                            assert(has_id(self.blocks.objects(), id@));
                        }
                    }
                    proof {
                        lemma_has_id_grows(blocks_before, self.blocks.objects());
                        lemma_has_id_grows(items_before, self.items.objects());
                        assert(has_id(self.blocks.objects(), id@));
                    }
                },
                DependencyLink::Item(id) => {
                    let ident = id.as_ident();
                    if !self.items.contains(&ident) {
                        let dummy = Item::new(GameObjectBase::auto(ident.to_identifier()));
                        let ghost dv = dummy;
                        let _ = self.items.register(dummy);
                        proof {
                            assert(self.items.objects() == items_before.push(dv));
                            assert(self.items.objects()[items_before.len() as int] == dv);
                            assert(has_id(self.items.objects(), id@));
                        }
                    }
                    proof {
                        lemma_has_id_grows(blocks_before, self.blocks.objects());
                        lemma_has_id_grows(items_before, self.items.objects());
                        assert(has_id(self.items.objects(), id@));
                    }
                },
                DependencyLink::Language(_, _) => {},
            }
        }
    }

    /// The change dispatcher.
    pub fn dispatcher(&self) -> (r: &TreeChangeDispatcher)
        ensures
            *r == self.dispatcher,
    {
        &self.dispatcher
    }

    /// The block registry.
    pub fn blocks(&self) -> (r: &Registry<Block>)
        ensures
            *r == self.blocks,
    {
        &self.blocks
    }

    /// The item registry.
    pub fn items(&self) -> (r: &Registry<Item>)
        ensures
            *r == self.items,
    {
        &self.items
    }

    /// The block carrying `id`, if any.
    pub fn get_block(&self, id: &Ident) -> (r: Option<&Block>)
        ensures
            match r {
                Some(b) => b.base_spec().id@ == id@,
                None => !has_id(self.blocks.objects(), id@),
            },
    {
        self.blocks.by_id(id)
    }
}

/// Anything present in a prefix stays present after a push.
proof fn lemma_has_id_grows<T: GameObject>(before: Seq<T>, after: Seq<T>)
    requires
        after == before || exists|x: T| after == before.push(x),
    ensures
        forall|id: Seq<char>| has_id(before, id) ==> has_id(after, id),
{
    if after != before {
        let x = choose|x: T| after == before.push(x);
        assert forall|id: Seq<char>| has_id(before, id) implies has_id(after, id) by {
            let i = choose|i: int| 0 <= i < before.len()
                && (#[trigger] before[i]).base_spec().id@ == id;
            assert(after[i] == before[i]);
        }
    }
}

} // verus!
