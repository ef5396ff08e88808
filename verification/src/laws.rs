//! The laws the engine obeys, stated over the wire-format mathematics
//! and proved once and for all: round-tripping, the skip-field reset,
//! the scoping of the dedup table, and the failures that malformed
//! discriminants and empty sum types owe.

use vstd::prelude::*;
use vstd::utf8::encode_utf8;
use crate::value::{ValueV, TyV, FieldTyV, conforms, bounded_val, wf_ty, no_skips, reset_skip,
    lemma_reset_skip_identity};
use crate::serde::{Mode, spec_read_usize};
use crate::dedup::{lemma_intern_all_distinct, lemma_concat_contains, lemma_table_roundtrip,
    spec_table_bytes};
use crate::wire::{strs_of, strs_of_elems, strs_of_entries, strs_of_tuple, strs_of_fields,
    enc_val, dec_val, blob_table, spec_serialize, spec_deserialize, lemma_enc_dec_val};
use crate::Error;

verus! {

/// Every string of the run fits the machine.
pub open spec fn strs_bounded(ss: Seq<Seq<char>>) -> bool {
    forall|k: int| 0 <= k < ss.len() ==> encode_utf8(#[trigger] ss[k]).len() <= usize::MAX
}

proof fn lemma_strs_bounded_concat(a: Seq<Seq<char>>, b: Seq<Seq<char>>)
    requires
        strs_bounded(a),
        strs_bounded(b),
    ensures
        strs_bounded(a + b),
{
    assert forall|k: int| 0 <= k < (a + b).len()
        implies encode_utf8(#[trigger] (a + b)[k]).len() <= usize::MAX by {
        if k < a.len() {
            assert((a + b)[k] == a[k]);
        } else {
            assert((a + b)[k] == b[k - a.len()]);
        }
    }
}

/// A machine-bounded value only ever interns machine-bounded strings.
pub proof fn lemma_strs_of_bounded(v: ValueV, t: TyV, on: bool)
    requires
        bounded_val(v),
    ensures
        strs_bounded(strs_of(v, t, on)),
    decreases v, 1int, 0int,
{
    if on {
        match (t, v) {
            (TyV::List(et), ValueV::List(items)) => {
                lemma_strs_elems_bounded(items, *et, 0);
            },
            (TyV::Array(et, _), ValueV::Group(items)) => {
                lemma_strs_elems_bounded(items, *et, 0);
            },
            (TyV::Dict(kt, vt), ValueV::List(entries)) => {
                lemma_strs_entries_bounded(entries, *kt, *vt, 0);
            },
            (TyV::Opt(et), ValueV::Opt(o)) => {
                match o {
                    Some(inner) => {
                        lemma_strs_of_bounded(*inner, *et, true);
                    },
                    None => {},
                }
            },
            (TyV::Res(ot, et), ValueV::Res(side, inner)) => {
                lemma_strs_of_bounded(*inner, if side { *et } else { *ot }, true);
            },
            (TyV::Tuple(ts), ValueV::Group(items)) => {
                lemma_strs_tuple_bounded(items, ts, 0);
            },
            (TyV::Struct(fs), ValueV::Group(items)) => {
                lemma_strs_fields_bounded(items, fs, 0);
            },
            (TyV::Enum(vs), ValueV::Case(d, items)) => {
                if d < vs.len() {
                    lemma_strs_fields_bounded(items, vs[d as int], 0);
                }
            },
            _ => {},
        }
    }
}

proof fn lemma_strs_elems_bounded(items: Seq<ValueV>, et: TyV, i: int)
    requires
        forall|j: int| 0 <= j < items.len() ==> bounded_val(#[trigger] items[j]),
    ensures
        strs_bounded(strs_of_elems(items, et, i)),
    decreases items, 0int, items.len() - i,
{
    if 0 <= i < items.len() {
        lemma_strs_of_bounded(items[i], et, true);
        lemma_strs_elems_bounded(items, et, i + 1);
        lemma_strs_bounded_concat(strs_of(items[i], et, true), strs_of_elems(items, et, i + 1));
    }
}

proof fn lemma_strs_entries_bounded(entries: Seq<ValueV>, kt: TyV, vt: TyV, i: int)
    requires
        forall|j: int| 0 <= j < entries.len() ==> bounded_val(#[trigger] entries[j]),
    ensures
        strs_bounded(strs_of_entries(entries, kt, vt, i)),
    decreases entries, 0int, entries.len() - i,
{
    if 0 <= i < entries.len() {
        let head = match entries[i] {
            ValueV::Group(kv) => if kv.len() == 2 {
                strs_of(kv[0], kt, true) + strs_of(kv[1], vt, true)
            } else {
                Seq::empty()
            },
            _ => Seq::empty(),
        };
        match entries[i] {
            ValueV::Group(kv) => {
                if kv.len() == 2 {
                    lemma_strs_of_bounded(kv[0], kt, true);
                    lemma_strs_of_bounded(kv[1], vt, true);
                    lemma_strs_bounded_concat(strs_of(kv[0], kt, true), strs_of(kv[1], vt, true));
                }
            },
            _ => {},
        }
        lemma_strs_entries_bounded(entries, kt, vt, i + 1);
        lemma_strs_bounded_concat(head, strs_of_entries(entries, kt, vt, i + 1));
    }
}

proof fn lemma_strs_tuple_bounded(items: Seq<ValueV>, ts: Seq<TyV>, i: int)
    requires
        forall|j: int| 0 <= j < items.len() ==> bounded_val(#[trigger] items[j]),
    ensures
        strs_bounded(strs_of_tuple(items, ts, i)),
    decreases items, 0int, items.len() - i,
{
    if 0 <= i < items.len() && ts.len() == items.len() {
        lemma_strs_of_bounded(items[i], ts[i], true);
        lemma_strs_tuple_bounded(items, ts, i + 1);
        lemma_strs_bounded_concat(strs_of(items[i], ts[i], true), strs_of_tuple(items, ts, i + 1));
    }
}

proof fn lemma_strs_fields_bounded(items: Seq<ValueV>, fs: Seq<FieldTyV>, i: int)
    requires
        forall|j: int| 0 <= j < items.len() ==> bounded_val(#[trigger] items[j]),
    ensures
        strs_bounded(strs_of_fields(items, fs, i)),
    decreases items, 0int, items.len() - i,
{
    if 0 <= i < items.len() && fs.len() == items.len() {
        let head = if fs[i].skip || fs[i].no_dedup {
            Seq::<Seq<char>>::empty()
        } else {
            strs_of(items[i], fs[i].ty, true)
        };
        if !fs[i].skip && !fs[i].no_dedup {
            lemma_strs_of_bounded(items[i], fs[i].ty, true);
        }
        lemma_strs_fields_bounded(items, fs, i + 1);
        lemma_strs_bounded_concat(head, strs_of_fields(items, fs, i + 1));
    }
}

/// Round trip: what `spec_serialize` produced, `spec_deserialize` under
/// the same mode turns back into the value — with every skip-marked
/// field, recursively, reset to its default. For a machine-held value
/// the side conditions hold by construction: its strings and counts fit
/// `usize`, as does the dedup table built from it.
pub proof fn lemma_serialize_roundtrip(v: ValueV, t: TyV, m: Mode)
    requires
        conforms(v, t),
        wf_ty(t),
        bounded_val(v),
        blob_table(v, t).len() <= usize::MAX,
        spec_serialize(v, t, m) is Ok,
    ensures
        spec_deserialize(spec_serialize(v, t, m)->Ok_0, t, m)
            == Ok::<ValueV, Error>(reset_skip(v, t)),
{
    let blob = spec_serialize(v, t, m)->Ok_0;
    if m.use_dedup {
        let tbl = blob_table(v, t);
        let tb = spec_table_bytes(tbl)->Ok_0;
        let pb = enc_val(v, t, m, tbl)->Ok_0;
        lemma_intern_all_distinct(Seq::empty(), strs_of(v, t, true));
        lemma_strs_of_bounded(v, t, true);
        assert forall|i: int| 0 <= i < tbl.len()
            implies encode_utf8(#[trigger] tbl[i]).len() <= usize::MAX by {
            assert(tbl.contains(tbl[i]));
            assert(strs_of(v, t, true).contains(tbl[i]));
        }
        lemma_table_roundtrip(tbl, pb);
        assert(blob =~= tb + pb);
        lemma_enc_dec_val(v, t, m, tbl, Seq::empty());
        assert(pb + Seq::<u8>::empty() =~= pb);
        assert(blob.skip(tb.len() as int) =~= pb);
    } else {
        lemma_enc_dec_val(v, t, m, Seq::empty(), Seq::empty());
        assert(blob + Seq::<u8>::empty() =~= blob);
    }
}

/// On a schema without skip marks, the round trip is exact: the value
/// comes back unchanged, under either dedup setting.
pub proof fn lemma_serialize_roundtrip_exact(v: ValueV, t: TyV, m: Mode)
    requires
        conforms(v, t),
        wf_ty(t),
        no_skips(t),
        bounded_val(v),
        blob_table(v, t).len() <= usize::MAX,
        spec_serialize(v, t, m) is Ok,
    ensures
        spec_deserialize(spec_serialize(v, t, m)->Ok_0, t, m) == Ok::<ValueV, Error>(v),
{
    lemma_serialize_roundtrip(v, t, m);
    lemma_reset_skip_identity(v, t);
}

/// The dedup table of a blob holds exactly the strings that the
/// traversal meets inside dedup scope: a no-dedup field's strings never
/// appear in it, even when the ambient mode has dedup on and identical
/// strings under sibling fields do.
pub proof fn lemma_no_dedup_scoping(v: ValueV, t: TyV, fs: Seq<FieldTyV>, items: Seq<ValueV>)
    requires
        t == TyV::Struct(fs),
        v == ValueV::Group(items),
        items.len() == fs.len(),
    ensures
        forall|s: Seq<char>| #[trigger] blob_table(v, t).contains(s)
            <==> exists|j: int| 0 <= j < fs.len()
                && !(#[trigger] fs[j]).skip && !fs[j].no_dedup
                && strs_of(items[j], fs[j].ty, true).contains(s),
{
    lemma_intern_all_distinct(Seq::empty(), strs_of(v, t, true));
    assert(strs_of(v, t, true) == strs_of_fields(items, fs, 0));
    assert forall|s: Seq<char>| #[trigger] blob_table(v, t).contains(s)
        implies exists|j: int| 0 <= j < fs.len()
            && !(#[trigger] fs[j]).skip && !fs[j].no_dedup
            && strs_of(items[j], fs[j].ty, true).contains(s) by {
        assert(strs_of_fields(items, fs, 0).contains(s));
        lemma_strs_fields_membership(items, fs, 0, s);
    }
    assert forall|s: Seq<char>|
        (exists|j: int| 0 <= j < fs.len()
            && !(#[trigger] fs[j]).skip && !fs[j].no_dedup
            && strs_of(items[j], fs[j].ty, true).contains(s))
        implies #[trigger] blob_table(v, t).contains(s) by {
        let j = choose|j: int| 0 <= j < fs.len()
            && !(#[trigger] fs[j]).skip && !fs[j].no_dedup
            && strs_of(items[j], fs[j].ty, true).contains(s);
        lemma_strs_fields_membership(items, fs, 0, s);
    }
}

/// Membership in the fields' string run is membership in some
/// non-skipped, non-no-dedup field's subtree.
proof fn lemma_strs_fields_membership(items: Seq<ValueV>, fs: Seq<FieldTyV>, i: int, s: Seq<char>)
    requires
        items.len() == fs.len(),
        0 <= i <= items.len(),
    ensures
        strs_of_fields(items, fs, i).contains(s)
            <==> exists|j: int| i <= j < fs.len()
                && !(#[trigger] fs[j]).skip && !fs[j].no_dedup
                && strs_of(items[j], fs[j].ty, true).contains(s),
    decreases items.len() - i,
{
    if i < items.len() {
        let head = if fs[i].skip || fs[i].no_dedup {
            Seq::<Seq<char>>::empty()
        } else {
            strs_of(items[i], fs[i].ty, true)
        };
        lemma_concat_contains(head, strs_of_fields(items, fs, i + 1));
        lemma_strs_fields_membership(items, fs, i + 1, s);
        if head.contains(s) {
            assert(!fs[i].skip && !fs[i].no_dedup
                && strs_of(items[i], fs[i].ty, true).contains(s));
        }
    }
}

/// A discriminant at or beyond the variant count fails with exactly the
/// invalid-variant error carrying that discriminant: never a panic,
/// never a silently chosen default.
pub proof fn lemma_invalid_variant(vs: Seq<Seq<FieldTyV>>, bytes: Seq<u8>, m: Mode, tbl: Seq<Seq<char>>, d: usize, k: nat)
    requires
        vs.len() > 0,
        spec_read_usize(bytes, m.usize_len) == Ok::<(usize, nat), Error>((d, k)),
        d >= vs.len(),
    ensures
        dec_val(TyV::Enum(vs), bytes, m, tbl) == Err::<(ValueV, nat), Error>(Error::InvalidVariant(d as usize)),
{
}

/// Decoding any input at an empty sum type fails deterministically,
/// before a single byte is consumed: no value of it can be constructed.
pub proof fn lemma_empty_sum_type(bytes: Seq<u8>, m: Mode, tbl: Seq<Seq<char>>)
    ensures
        dec_val(TyV::Enum(Seq::empty()), bytes, m, tbl)
            == Err::<(ValueV, nat), Error>(Error::EmptySumType),
{
}

} // verus!
