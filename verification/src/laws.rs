//! What reading gives back of what writing wrote.
use vstd::prelude::*;
use crate::decode::{
    entry_is_null, feature_of_record, in_bounds, feature_offset, feature_record_at, feature_table_fails,
    lookup_entries, lookup_offset, record_is_null, spec_core, spec_feature_list,
    spec_feature_table, spec_lookup, spec_lookup_list, spec_parse_gsub, subtable_null,
    subtable_bad, subtable_bytes, subtable_extent_at, subtable_offset, uses_mark_filtering_set,
    mark_filtering_set_size,
};
use crate::encode::{
    core_fits, core_of_gsub, count16, enc_core, enc_feature_list, enc_feature_table, enc_lookup,
    enc_lookup_list, enc_lookup_list_shallow, enc_lookup_shallow, feature_children,
    feature_list_fits, feature_list_offset, feature_record_bytes, lemma_concat_take_step,
    lemma_u16s_len, lookup_fits, lookup_list_children, lookup_list_fits, lookup_list_offset,
    lookup_list_offsets, lookup_offsets, lookup_shallow_size, lookup_subtable_offset,
    lemma_enc_lookup_len, mark_filtering_set_bytes, prefix_len, spec_serialize_gsub,
};
use crate::table::{
    CoreOutModel, FeatureModel, FeatureRecordModel, FeatureTableModel, GsubModel, LookupModel,
};
use crate::extent::{lemma_script_list_in_place, lemma_subtable_in_place, script_list_extent, subtable_extent};
use crate::layout::{
    inside, lemma_script_list_cut, lemma_subtable_cut, lemma_words, script_list_inside,
    subtable_inside, word,
};
use crate::wire::{concat, u16_at, u16_bytes, u16s_bytes};

verus! {

/// `x` lies in `d` from position `b` on.
pub open spec fn window(d: Seq<u8>, b: int, x: Seq<u8>) -> bool {
    0 <= b && b + x.len() <= d.len() && d.subrange(b, b + x.len()) == x
}

/// The parts of a window on `x + y` are windows on `x` and on `y`.
proof fn lemma_window_split(d: Seq<u8>, b: int, x: Seq<u8>, y: Seq<u8>)
    requires
        window(d, b, x + y),
    ensures
        window(d, b, x),
        window(d, b + x.len(), y),
{
    let z = x + y;
    assert forall|k: int| 0 <= k < z.len() implies d[b + k] == z[k] by {
        assert(d.subrange(b, b + z.len())[k] == z[k]);
    }
    assert(d.subrange(b, b + x.len()) =~= x);
    assert forall|k: int| 0 <= k < y.len() implies d.subrange(b + x.len(), b + x.len() + y.len())[k] == y[k] by {
        assert(d[b + x.len() + k] == z[x.len() + k]);
    }
    assert(d.subrange(b + x.len(), b + x.len() + y.len()) =~= y);
}

/// A window inside a window is a window.
proof fn lemma_window_nest(d: Seq<u8>, b: int, x: Seq<u8>, c: int, y: Seq<u8>)
    requires
        window(d, b, x),
        window(x, c, y),
    ensures
        window(d, b + c, y),
{
    assert forall|k: int| 0 <= k < y.len() implies d.subrange(b + c, b + c + y.len())[k] == y[k] by {
        assert(x.subrange(c, c + y.len())[k] == y[k]);
        assert(d.subrange(b, b + x.len())[c + k] == x[c + k]);
    }
    assert(d.subrange(b + c, b + c + y.len()) =~= y);
}

/// A `uint16` read inside a window is the one read in the windowed bytes.
proof fn lemma_window_u16(d: Seq<u8>, b: int, x: Seq<u8>, p: int)
    requires
        window(d, b, x),
        0 <= p,
        p + 2 <= x.len(),
    ensures
        u16_at(d, b + p) == u16_at(x, p),
{
    assert(d.subrange(b, b + x.len())[p] == x[p]);
    assert(d.subrange(b, b + x.len())[p + 1] == x[p + 1]);
}

/// Reading the two bytes written for `v` gives `v`.
proof fn lemma_u16_roundtrip(v: u16)
    ensures
        u16_at(u16_bytes(v), 0) == v,
{
    assert((v / 256) * 256 + v % 256 == v) by (nonlinear_arith);
}

/// The concatenation of the first `m` strings starts the whole concatenation.
proof fn lemma_concat_prefix(s: Seq<Seq<u8>>, m: int)
    requires
        0 <= m <= s.len(),
    ensures
        window(concat(s), 0, concat(s.take(m))),
    decreases s.len(),
{
    if m == s.len() {
        assert(s.take(m) =~= s);
        assert(concat(s).subrange(0, concat(s).len() as int) =~= concat(s));
    } else {
        let t = s.drop_last();
        lemma_concat_prefix(t, m);
        assert(t.take(m) =~= s.take(m));
        assert(concat(s) == concat(t) + s.last());
        assert(concat(s).subrange(0, concat(s).len() as int) =~= concat(s));
        lemma_window_split(concat(s), 0, concat(t), s.last());
        lemma_window_nest(concat(s), 0, concat(t), 0, concat(s.take(m)));
    }
}

/// String `i` lies in the concatenation after the strings before it.
proof fn lemma_concat_window(s: Seq<Seq<u8>>, i: int)
    requires
        0 <= i < s.len(),
    ensures
        window(concat(s), prefix_len(s, i), s[i]),
{
    lemma_concat_prefix(s, i + 1);
    lemma_concat_take_step(s, i);
    lemma_window_split(concat(s), 0, concat(s.take(i)), s[i]);
}

/// When every string has length `w`, the first `i` have length `w * i`.
proof fn lemma_prefix_len_uniform(s: Seq<Seq<u8>>, w: int, i: int)
    requires
        0 <= i <= s.len(),
        forall|k: int| 0 <= k < s.len() ==> (#[trigger] s[k]).len() == w,
    ensures
        prefix_len(s, i) == w * i,
    decreases i,
{
    if i == 0 {
        assert(s.take(0) =~= Seq::<Seq<u8>>::empty());
    } else {
        lemma_prefix_len_uniform(s, w, i - 1);
        lemma_concat_take_step(s, i - 1);
        assert(w * (i - 1) + w == w * i) by (nonlinear_arith);
    }
}

/// The `uint16` values written in a row read back one by one.
proof fn lemma_read_u16s(d: Seq<u8>, b: int, s: Seq<u16>)
    requires
        window(d, b, u16s_bytes(s)),
    ensures
        forall|j: int| 0 <= j < s.len() ==> #[trigger] u16_at(d, b + 2 * j) == s[j],
{
    let parts = s.map_values(|v: u16| u16_bytes(v));
    assert forall|j: int| 0 <= j < s.len() implies #[trigger] u16_at(d, b + 2 * j) == s[j] by {
        lemma_prefix_len_uniform(parts, 2, j);
        lemma_concat_window(parts, j);
        lemma_window_nest(d, b, u16s_bytes(s), 2 * j, u16_bytes(s[j]));
        lemma_window_u16(d, b + 2 * j, u16_bytes(s[j]), 0);
        lemma_u16_roundtrip(s[j]);
    }
}

/// A feature table written at `p` reads back with its parameters offset and
/// indices, when it has fewer than 65536 indices.
proof fn lemma_feature_table_roundtrip(d: Seq<u8>, p: int, t: FeatureTableModel)
    requires
        window(d, p, enc_feature_table(t)),
        t.indices.len() < 65536,
    ensures
        spec_feature_table(d, p) == Some(t),
{
    let a = u16_bytes(t.params_offset);
    let c = u16_bytes(count16(t.indices.len()));
    let ix = u16s_bytes(t.indices);
    lemma_u16s_len(t.indices);
    lemma_window_split(d, p, a + c, ix);
    lemma_window_split(d, p, a, c);
    lemma_window_u16(d, p, a, 0);
    lemma_window_u16(d, p + 2, c, 0);
    lemma_u16_roundtrip(t.params_offset);
    lemma_u16_roundtrip(count16(t.indices.len()));
    lemma_read_u16s(d, p + 4, t.indices);
    assert(Seq::new(t.indices.len(), |j: int| u16_at(d, p + 4 + 2 * j)) =~= t.indices);
}


/// The bytes of `x` lie in `d` from position `q`, read out again.
proof fn lemma_window_read(d: Seq<u8>, q: int, x: Seq<u8>)
    requires
        window(d, q, x),
    ensures
        d.subrange(q, q + x.len()) == x,
{
}

/// A lookup can be read back once written: its type is one that is read
/// (1 to 4), its flags announce a mark filtering set exactly when it has one,
/// and each subtable is a subtable of that type whose extent is all of it.
pub open spec fn lookup_readable(l: LookupModel) -> bool {
    &&& 1 <= l.lookup_type <= 4
    &&& uses_mark_filtering_set(l.flags) == (l.mark_filtering_set is Some)
    &&& forall|j: int|
        0 <= j < l.subtables.len() ==> subtable_extent(l.lookup_type, #[trigger] l.subtables[j], 0)
            == Some(l.subtables[j].len() as int)
}

/// The fields of a lookup written at `p` read back, and its subtables lie
/// where its offsets point.
#[verifier::spinoff_prover]
#[verifier::rlimit(30)]
proof fn lemma_lookup_fields(d: Seq<u8>, p: int, l: LookupModel)
    requires
        window(d, p, enc_lookup(l)),
        lookup_fits(l),
        lookup_readable(l),
    ensures
        in_bounds(d, p, 4),
        in_bounds(d, p + 4, 2),
        u16_at(d, p) == l.lookup_type,
        u16_at(d, p + 2) == l.flags,
        u16_at(d, p + 4) == l.subtables.len(),
        in_bounds(d, p + 6, 2 * l.subtables.len() + mark_filtering_set_size(l.flags)),
        l.mark_filtering_set matches Some(v) ==> u16_at(d, p + 6 + 2 * l.subtables.len()) == v,
        forall|j: int| 0 <= j < l.subtables.len() ==> #[trigger] subtable_offset(d, p, j) == lookup_subtable_offset(l, j),
        forall|j: int| 0 <= j < l.subtables.len() ==> window(d, p + lookup_subtable_offset(l, j), #[trigger] l.subtables[j]),
{
    let k = l.subtables.len();
    let sh = lookup_shallow_size(l);
    let t = u16_bytes(l.lookup_type);
    let fl = u16_bytes(l.flags);
    let c = u16_bytes(count16(k));
    let o = u16s_bytes(lookup_offsets(l));
    let m = mark_filtering_set_bytes(l.mark_filtering_set);
    let subs = concat(l.subtables);
    lemma_u16s_len(lookup_offsets(l));
    if k > 0 {
        assert(lookup_subtable_offset(l, 0) <= 0xFFFF);
        assert(l.subtables.take(0) =~= Seq::<Seq<u8>>::empty());
    }
    assert(count16(k) == k);
    assert(enc_lookup_shallow(l).len() == sh);
    lemma_window_split(d, p, enc_lookup_shallow(l), subs);
    lemma_window_split(d, p, t + fl + c + o, m);
    lemma_window_split(d, p, t + fl + c, o);
    lemma_window_split(d, p, t + fl, c);
    lemma_window_split(d, p, t, fl);
    lemma_window_u16(d, p, t, 0);
    lemma_window_u16(d, p + 2, fl, 0);
    lemma_window_u16(d, p + 4, c, 0);
    lemma_u16_roundtrip(l.lookup_type);
    lemma_u16_roundtrip(l.flags);
    lemma_u16_roundtrip(count16(k));
    lemma_read_u16s(d, p + 6, lookup_offsets(l));
    assert(mark_filtering_set_size(l.flags) == m.len());
    if l.mark_filtering_set is Some {
        lemma_window_u16(d, p + 6 + 2 * k, m, 0);
        lemma_u16_roundtrip(l.mark_filtering_set.unwrap());
    }
    assert forall|j: int| 0 <= j < k implies #[trigger] subtable_offset(d, p, j) == lookup_subtable_offset(l, j) by {
        assert(u16_at(d, p + 6 + 2 * j) == lookup_offsets(l)[j]);
        assert(lookup_subtable_offset(l, j) <= 0xFFFF);
    }
    assert forall|j: int| 0 <= j < k implies window(d, p + lookup_subtable_offset(l, j), #[trigger] l.subtables[j]) by {
        lemma_concat_window(l.subtables, j);
        lemma_window_nest(d, p + sh, subs, prefix_len(l.subtables, j), l.subtables[j]);
    }
}

/// A lookup written at `p` reads back as it was written.
#[verifier::spinoff_prover]
#[verifier::rlimit(30)]
proof fn lemma_lookup_roundtrip(d: Seq<u8>, p: int, l: LookupModel)
    requires
        window(d, p, enc_lookup(l)),
        lookup_fits(l),
        lookup_readable(l),
    ensures
        spec_lookup(d, p) == Ok::<LookupModel, crate::error::DeserializeError>(l),
{
    let k = l.subtables.len();
    lemma_lookup_fields(d, p, l);
    assert forall|j: int| 0 <= j < k implies #[trigger] subtable_extent_at(d, p, j) == Some(l.subtables[j].len() as int) by {
        assert(subtable_offset(d, p, j) == lookup_subtable_offset(l, j));
        lemma_window_read(d, p + lookup_subtable_offset(l, j), l.subtables[j]);
        lemma_subtable_in_place(l.lookup_type, l.subtables[j], d, p + lookup_subtable_offset(l, j));
    }
    assert forall|j: int| 0 <= j < k implies !#[trigger] subtable_bad(d, p, j) by {
        assert(subtable_extent_at(d, p, j) == Some(l.subtables[j].len() as int));
    }
    assert forall|j: int| 0 <= j < k implies !#[trigger] subtable_null(d, p, j) by {
        assert(subtable_offset(d, p, j) == lookup_subtable_offset(l, j));
    }
    let r = spec_lookup(d, p).unwrap();
    assert forall|j: int| 0 <= j < k implies #[trigger] r.subtables[j] == l.subtables[j] by {
        assert(subtable_offset(d, p, j) == lookup_subtable_offset(l, j));
        assert(subtable_extent_at(d, p, j) == Some(l.subtables[j].len() as int));
        lemma_window_read(d, p + lookup_subtable_offset(l, j), l.subtables[j]);
        assert(subtable_bytes(d, p, j) == l.subtables[j]);
    }
    assert(r.subtables =~= l.subtables);
}

/// The first `i` entries of a lookup list written at `l` read back.
#[verifier::spinoff_prover]
#[verifier::rlimit(30)]
proof fn lemma_lookup_entries_roundtrip(d: Seq<u8>, l: int, ls: Seq<LookupModel>, i: nat)
    requires
        window(d, l, enc_lookup_list(ls)),
        lookup_list_fits(ls),
        forall|k: int| 0 <= k < ls.len() ==> lookup_readable(#[trigger] ls[k]),
        i <= ls.len(),
    ensures
        lookup_entries(d, l, i) == Ok::<Seq<Option<LookupModel>>, crate::error::DeserializeError>(
            Seq::new(i, |k: int| Some(ls[k])),
        ),
    decreases i,
{
    if i > 0 {
        lemma_lookup_entries_roundtrip(d, l, ls, (i - 1) as nat);
        let n = ls.len();
        let kids = lookup_list_children(ls);
        let k = i - 1;
        let c = u16_bytes(count16(n));
        let o = u16s_bytes(lookup_list_offsets(ls));
        lemma_u16s_len(lookup_list_offsets(ls));
        lemma_window_split(d, l, enc_lookup_list_shallow(ls), concat(kids));
        lemma_window_split(d, l, c, o);
        lemma_read_u16s(d, l + 2, lookup_list_offsets(ls));
        assert(u16_at(d, l + 2 + 2 * k) == lookup_list_offsets(ls)[k]);
        assert(lookup_list_offset(ls, k) <= 0xFFFF);
        assert(lookup_offset(d, l, k) == lookup_list_offset(ls, k));
        lemma_concat_window(kids, k);
        lemma_window_nest(d, l + 2 + 2 * n, concat(kids), prefix_len(kids, k), kids[k]);
        assert(lookup_fits(ls[k]));
        assert(lookup_readable(ls[k]));
        lemma_lookup_roundtrip(d, l + lookup_list_offset(ls, k), ls[k]);
        let acc = Seq::new(k as nat, |j: int| Some(ls[j]));
        assert(lookup_entries(d, l, (i - 1) as nat) == Ok::<Seq<Option<LookupModel>>, crate::error::DeserializeError>(acc));
        assert(in_bounds(d, l + 2 + 2 * k, 2));
        assert(lookup_offset(d, l, k) != 0);
        assert(spec_lookup(d, l + lookup_offset(d, l, k)) == Ok::<LookupModel, crate::error::DeserializeError>(ls[k]));
        assert(lookup_entries(d, l, i) == Ok::<Seq<Option<LookupModel>>, crate::error::DeserializeError>(acc.push(Some(ls[k]))));
        assert(acc.push(Some(ls[k])) =~= Seq::new(i, |j: int| Some(ls[j])));
    } else {
        assert(Seq::new(0, |j: int| Some(ls[j])) =~= Seq::<Option<LookupModel>>::empty());
    }
}

/// The records of a feature list as they can be read back: a tag of four
/// bytes and a table with fewer than 65536 indices.
pub open spec fn records_readable(recs: Seq<FeatureRecordModel>) -> bool {
    forall|i: int| 0 <= i < recs.len() ==> {
        &&& (#[trigger] recs[i]).tag.len() == 4
        &&& recs[i].table matches Some(t) && t.indices.len() < 65536
    }
}

/// Record `i` of a feature list written at `f` reads back.
#[verifier::spinoff_prover]
#[verifier::rlimit(30)]
proof fn lemma_feature_record_roundtrip(d: Seq<u8>, f: int, recs: Seq<FeatureRecordModel>, i: int)
    requires
        0 <= i < recs.len(),
        window(d, f + 2, concat(Seq::new(recs.len(), |k: int| feature_record_bytes(recs, k)))),
        window(d, f + 2 + 6 * recs.len(), concat(feature_children(recs))),
        feature_list_fits(recs),
        records_readable(recs),
    ensures
        feature_record_at(d, f, i) == recs[i],
{
    let n = recs.len();
    let kids = feature_children(recs);
    let rb = Seq::new(n, |k: int| feature_record_bytes(recs, k));
    assert forall|k: int| 0 <= k < n implies (#[trigger] rb[k]).len() == 6 by {
        assert(recs[k].tag.len() == 4);
    }
    assert(recs[i].tag.len() == 4);
    lemma_prefix_len_uniform(rb, 6, i);
    lemma_concat_window(rb, i);
    lemma_window_nest(d, f + 2, concat(rb), 6 * i, rb[i]);
    let ob = u16_bytes(feature_list_offset(recs, i) as u16);
    lemma_window_split(d, f + 2 + 6 * i, recs[i].tag, ob);
    lemma_window_u16(d, f + 6 + 6 * i, ob, 0);
    lemma_u16_roundtrip(feature_list_offset(recs, i) as u16);
    assert(feature_list_offset(recs, i) <= 0xFFFF);
    assert(feature_offset(d, f, i) == feature_list_offset(recs, i));
    let t = recs[i].table.unwrap();
    lemma_concat_window(kids, i);
    lemma_window_nest(d, f + 2 + 6 * n, concat(kids), prefix_len(kids, i), kids[i]);
    lemma_feature_table_roundtrip(d, f + feature_list_offset(recs, i), t);
    assert(d.subrange(f + 2 + 6 * i, f + 6 + 6 * i) == recs[i].tag);
}

/// A feature list written at `f` whose records can be read back reads back
/// as it was written.
#[verifier::spinoff_prover]
#[verifier::rlimit(40)]
proof fn lemma_feature_list_roundtrip(d: Seq<u8>, f: int, recs: Seq<FeatureRecordModel>)
    requires
        window(d, f, enc_feature_list(recs)),
        feature_list_fits(recs),
        records_readable(recs),
    ensures
        spec_feature_list(d, f) == Some(recs),
{
    let n = recs.len();
    let kids = feature_children(recs);
    let rb = Seq::new(n, |i: int| feature_record_bytes(recs, i));
    let c = u16_bytes(count16(n));
    assert forall|i: int| 0 <= i < n implies (#[trigger] rb[i]).len() == 6 by {
        assert(recs[i].tag.len() == 4);
    }
    lemma_prefix_len_uniform(rb, 6, n as int);
    assert(rb.take(n as int) =~= rb);
    if n > 0 {
        assert(feature_list_offset(recs, 0) <= 0xFFFF);
        assert(kids.take(0) =~= Seq::<Seq<u8>>::empty());
    }
    assert(count16(n) == n);
    lemma_window_split(d, f, c + concat(rb), concat(kids));
    lemma_window_split(d, f, c, concat(rb));
    lemma_window_u16(d, f, c, 0);
    lemma_u16_roundtrip(count16(n));
    assert(u16_at(d, f) == n);
    assert forall|i: int| 0 <= i < n implies #[trigger] feature_record_at(d, f, i) == recs[i] by {
        lemma_feature_record_roundtrip(d, f, recs, i);
    }
    assert forall|i: int| 0 <= i < n implies !#[trigger] feature_table_fails(d, f, i) by {
        assert(feature_record_at(d, f, i) == recs[i]);
    }
    assert(Seq::new(n, |i: int| feature_record_at(d, f, i)) =~= recs);
}


/// A lookup list written at `l` reads back, lookup by lookup.
#[verifier::spinoff_prover]
#[verifier::rlimit(30)]
proof fn lemma_lookup_list_roundtrip(d: Seq<u8>, l: int, ls: Seq<LookupModel>)
    requires
        window(d, l, enc_lookup_list(ls)),
        lookup_list_fits(ls),
        forall|k: int| 0 <= k < ls.len() ==> lookup_readable(#[trigger] ls[k]),
    ensures
        spec_lookup_list(d, l) == Ok::<Seq<Option<LookupModel>>, crate::error::DeserializeError>(
            Seq::new(ls.len(), |k: int| Some(ls[k])),
        ),
{
    let n = ls.len();
    let c = u16_bytes(count16(n));
    if n > 0 {
        assert(lookup_list_offset(ls, 0) <= 0xFFFF);
        assert(lookup_list_children(ls).take(0) =~= Seq::<Seq<u8>>::empty());
    }
    assert(count16(n) == n);
    lemma_window_split(d, l, enc_lookup_list_shallow(ls), concat(lookup_list_children(ls)));
    lemma_window_split(d, l, c, u16s_bytes(lookup_list_offsets(ls)));
    lemma_window_u16(d, l, c, 0);
    lemma_u16_roundtrip(count16(n));
    lemma_lookup_entries_roundtrip(d, l, ls, n);
}

/// A feature can be read back once written: a tag of four bytes and fewer
/// than 65536 lookup indices, each below 65536.
pub open spec fn feature_readable(f: FeatureModel) -> bool {
    &&& f.tag.len() == 4
    &&& f.lookup_indices.len() < 65536
    &&& forall|k: int| 0 <= k < f.lookup_indices.len() ==> #[trigger] f.lookup_indices[k] < 65536
}

/// A GSUB table can be read back once written: its script list is a script
/// list whose extent is all of it, and every lookup and every feature can be.
pub open spec fn gsub_readable(g: GsubModel) -> bool {
    &&& script_list_extent(g.scripts, 0) == Some(g.scripts.len() as int)
    &&& forall|i: int| 0 <= i < g.lookups.len() ==> lookup_readable(#[trigger] g.lookups[i])
    &&& forall|i: int| 0 <= i < g.features.len() ==> feature_readable(#[trigger] g.features[i])
}

/// The feature read back for a written feature: the same tag and lookup
/// indices, without parameters (they are neither written nor read).
pub open spec fn feature_read_back(f: FeatureModel) -> FeatureModel {
    FeatureModel { tag: f.tag, lookup_indices: f.lookup_indices, params: None }
}

/// The table read back for a written GSUB table: the same lookups and script
/// list, and the same features without parameters.
pub open spec fn gsub_read_back(g: GsubModel) -> GsubModel {
    GsubModel {
        lookups: g.lookups,
        scripts: g.scripts,
        features: g.features.map_values(|f: FeatureModel| feature_read_back(f)),
    }
}

/// The feature records written for readable features can be read back.
proof fn lemma_records_readable(g: GsubModel)
    requires
        gsub_readable(g),
    ensures
        records_readable(core_of_gsub(g).features),
        core_of_gsub(g).features.map_values(|r: FeatureRecordModel| feature_of_record(r))
            == g.features.map_values(|f: FeatureModel| feature_read_back(f)),
{
    let recs = core_of_gsub(g).features;
    assert forall|i: int| 0 <= i < recs.len() implies {
        &&& (#[trigger] recs[i]).tag.len() == 4
        &&& recs[i].table matches Some(t) && t.indices.len() < 65536
    } by {
        assert(feature_readable(g.features[i]));
    }
    assert forall|i: int| 0 <= i < recs.len() implies #[trigger] feature_of_record(recs[i]) == feature_read_back(g.features[i]) by {
        let f = g.features[i];
        assert(feature_readable(f));
        assert(f.lookup_indices.map_values(|x: usize| (x % 65536) as u16).map_values(|x: u16| x as usize) =~= f.lookup_indices);
    }
    assert(recs.map_values(|r: FeatureRecordModel| feature_of_record(r)) =~= g.features.map_values(|f: FeatureModel| feature_read_back(f)));
}

/// The header written for `c` reads back its version and offsets, and its
/// three child tables lie where the offsets point.
#[verifier::spinoff_prover]
#[verifier::rlimit(30)]
proof fn lemma_header_roundtrip(c: CoreOutModel)
    requires
        core_fits(c),
    ensures
        ({
            let d = enc_core(c);
            let s = c.scripts;
            let fl = enc_feature_list(c.features);
            let ll = enc_lookup_list(c.lookups);
            &&& d.len() == 10 + s.len() + fl.len() + ll.len()
            &&& u16_at(d, 0) == c.major
            &&& u16_at(d, 2) == c.minor
            &&& u16_at(d, 4) == 10
            &&& u16_at(d, 6) == 10 + s.len()
            &&& u16_at(d, 8) == 10 + s.len() + fl.len()
            &&& window(d, 10, s)
            &&& window(d, (10 + s.len()) as int, fl)
            &&& window(d, (10 + s.len() + fl.len()) as int, ll)
        }),
{
    let d = enc_core(c);
    let fl = enc_feature_list(c.features);
    let ll = enc_lookup_list(c.lookups);
    let s = c.scripts;
    let h0 = u16_bytes(c.major);
    let h1 = u16_bytes(c.minor);
    let h2 = u16_bytes(10);
    let h3 = u16_bytes((10 + s.len()) as u16);
    let h4 = u16_bytes((10 + s.len() + fl.len()) as u16);
    let h = h0 + h1 + h2 + h3 + h4;
    assert(d == h + s + fl + ll);
    assert(d.subrange(0, d.len() as int) =~= d);
    lemma_window_split(d, 0, h + s + fl, ll);
    lemma_window_split(d, 0, h + s, fl);
    lemma_window_split(d, 0, h, s);
    lemma_window_split(d, 0, h0 + h1 + h2 + h3, h4);
    lemma_window_split(d, 0, h0 + h1 + h2, h3);
    lemma_window_split(d, 0, h0 + h1, h2);
    lemma_window_split(d, 0, h0, h1);
    lemma_window_u16(d, 0, h0, 0);
    lemma_window_u16(d, 2, h1, 0);
    lemma_window_u16(d, 4, h2, 0);
    lemma_window_u16(d, 6, h3, 0);
    lemma_window_u16(d, 8, h4, 0);
    lemma_u16_roundtrip(c.major);
    lemma_u16_roundtrip(c.minor);
    lemma_u16_roundtrip(10);
    lemma_u16_roundtrip((10 + s.len()) as u16);
    lemma_u16_roundtrip((10 + s.len() + fl.len()) as u16);
}

/// The header and tables written for `g` read back as a header with its
/// version, its script list, its feature records and its lookups.
#[verifier::spinoff_prover]
#[verifier::rlimit(30)]
proof fn lemma_core_roundtrip(g: GsubModel)
    requires
        gsub_readable(g),
        core_fits(core_of_gsub(g)),
    ensures
        ({
            let c = core_of_gsub(g);
            let d = enc_core(c);
            spec_core(d) matches Ok(core) && {
                &&& core.minor == 0
                &&& core.script_list == Some(c.scripts)
                &&& core.feature_list == Some(c.features)
                &&& core.lookup_list == Some(Seq::new(c.lookups.len(), |k: int| Some(c.lookups[k])))
            }
        }),
{
    let c = core_of_gsub(g);
    let d = enc_core(c);
    let s = c.scripts;
    let fl = enc_feature_list(c.features);
    lemma_header_roundtrip(c);
    lemma_records_readable(g);
    lemma_u16s_len(lookup_list_offsets(c.lookups));
    lemma_window_read(d, 10, s);
    lemma_script_list_in_place(s, d, 10);
    lemma_feature_list_roundtrip(d, (10 + s.len()) as int, c.features);
    assert forall|k: int| 0 <= k < c.lookups.len() implies lookup_readable(#[trigger] c.lookups[k]) by {
        assert(lookup_readable(g.lookups[k]));
    }
    lemma_lookup_list_roundtrip(d, (10 + s.len() + fl.len()) as int, c.lookups);
}

/// Reading back a written GSUB table. When its script list and every
/// subtable are tables of their kind whose extent is all of their bytes,
/// every lookup has a type that is read (1 to 4) and flags that announce a
/// mark filtering set exactly when it has one, every feature has a four-byte
/// tag and fewer than 65536 lookup indices each below 65536, and writing
/// succeeds, then reading the written bytes gives back the same lookups
/// (type, flags, mark filtering set, subtables), the same script list and
/// the same features without parameters.
#[verifier::spinoff_prover]
#[verifier::rlimit(60)]
pub proof fn law_read_after_write(g: GsubModel)
    requires
        gsub_readable(g),
        spec_serialize_gsub(g) is Some,
    ensures
        spec_parse_gsub(spec_serialize_gsub(g).unwrap())
            == Ok::<GsubModel, crate::error::DeserializeError>(gsub_read_back(g)),
{
    let c = core_of_gsub(g);
    let d = enc_core(c);
    assert(core_fits(c));
    lemma_header_roundtrip(c);
    lemma_core_roundtrip(g);
    lemma_records_readable(g);
    let core = spec_core(d).unwrap();
    let es = core.lookup_list.unwrap();
    assert forall|i: int| 0 <= i < es.len() implies !#[trigger] entry_is_null(es, i) by {
        assert(es[i] == Some(c.lookups[i]));
    }
    assert forall|i: int| 0 <= i < c.features.len() implies !#[trigger] record_is_null(c.features, i) by {
        assert(records_readable(c.features));
        assert(c.features[i].table is Some);
    }
    let r = spec_parse_gsub(d).unwrap();
    assert(r.lookups =~= g.lookups);
}

/// Every GSUB table is written as version 1.0: the written bytes begin with
/// `00 01 00 00`.
pub proof fn law_written_version(g: GsubModel)
    requires
        spec_serialize_gsub(g) is Some,
    ensures
        spec_serialize_gsub(g).unwrap().subrange(0, 4) == seq![0u8, 1u8, 0u8, 0u8],
{
    let c = core_of_gsub(g);
    assert(core_fits(c));
    lemma_header_roundtrip(c);
    let d = enc_core(c);
    assert(d.subrange(0, 4) =~= seq![0u8, 1u8, 0u8, 0u8]);
}

/// Every entry read from a lookup list is a lookup of type 1 to 4 whose
/// flags announce a mark filtering set exactly when it has one.
proof fn lemma_entries_types(d: Seq<u8>, l: int, i: nat)
    ensures
        lookup_entries(d, l, i) matches Ok(es) ==> forall|k: int| 0 <= k < es.len() ==> (#[trigger] es[k] matches Some(x) ==> 1 <= x.lookup_type <= 4 && uses_mark_filtering_set(x.flags) == (x.mark_filtering_set is Some)),
    decreases i,
{
    if i > 0 {
        lemma_entries_types(d, l, (i - 1) as nat);
        if let Ok(es) = lookup_entries(d, l, i) {
            let acc = lookup_entries(d, l, (i - 1) as nat).unwrap();
            assert forall|k: int| 0 <= k < es.len() implies (#[trigger] es[k] matches Some(x) ==> 1 <= x.lookup_type <= 4 && uses_mark_filtering_set(x.flags) == (x.mark_filtering_set is Some)) by {
                if k < acc.len() {
                    assert(es[k] == acc[k]);
                }
            }
        }
    }
}

/// What is read from bytes: every lookup has a type from 1 to 4 and a mark
/// filtering set exactly when its flags announce one, and no feature has
/// parameters.
pub proof fn law_read_shape(d: Seq<u8>)
    ensures
        spec_parse_gsub(d) matches Ok(r) ==> {
            &&& forall|i: int| 0 <= i < r.lookups.len() ==> 1 <= (#[trigger] r.lookups[i]).lookup_type <= 4
                && uses_mark_filtering_set(r.lookups[i].flags) == (r.lookups[i].mark_filtering_set is Some)
            &&& forall|i: int| 0 <= i < r.features.len() ==> (#[trigger] r.features[i]).params is None
        },
{
    if let Ok(r) = spec_parse_gsub(d) {
        let core = spec_core(d).unwrap();
        let es = core.lookup_list.unwrap();
        let l = u16_at(d, 8) as int;
        lemma_entries_types(d, l, u16_at(d, l) as nat);
        assert forall|i: int| 0 <= i < r.lookups.len() implies 1 <= (#[trigger] r.lookups[i]).lookup_type <= 4
            && uses_mark_filtering_set(r.lookups[i].flags) == (r.lookups[i].mark_filtering_set is Some) by {
            assert(!entry_is_null(es, i));
            assert(es[i] matches Some(x) && r.lookups[i] == x);
        }
    }
}

/// Subtable `j` of the lookup at `p`, of type `t`, was read as `sub`: its
/// offset, the word at `p + 6 + 2 * j`, is non-null, `sub` is the bytes at
/// that offset, and they hold the whole subtable.
pub open spec fn subtable_read_from(d: Seq<u8>, p: int, j: int, t: u16, sub: Seq<u8>) -> bool {
    &&& word(d, p + 6 + 2 * j) != 0
    &&& sub == d.subrange(p + word(d, p + 6 + 2 * j), p + word(d, p + 6 + 2 * j) + sub.len())
    &&& subtable_inside(t, sub)
}

/// What reading a lookup gives, over the bytes read: its type, flags and
/// subtable count are the big-endian words at its start; it has a mark
/// filtering set exactly when bit 0x0010 of its flags is set, and then it is
/// the word after the subtable offsets; each subtable offset is non-null, and
/// the subtable is the bytes at that offset, which hold the whole subtable:
/// its fields and every table that one of its offsets points at, to the full
/// size OpenType gives it.
pub proof fn law_lookup_read(d: Seq<u8>, p: int)
    ensures
        spec_lookup(d, p) matches Ok(l) ==> {
            &&& l.lookup_type as int == word(d, p)
            &&& l.flags as int == word(d, p + 2)
            &&& l.subtables.len() == word(d, p + 4)
            &&& (l.flags & 0x0010 != 0 ==> (l.mark_filtering_set matches Some(m) && m as int == word(
                d,
                p + 6 + 2 * l.subtables.len(),
            )))
            &&& (l.flags & 0x0010 == 0 ==> l.mark_filtering_set is None)
            &&& forall|j: int|
                0 <= j < l.subtables.len() ==> subtable_read_from(d, p, j, l.lookup_type, #[trigger] l.subtables[j])
        },
{
    lemma_words(d);
    if let Ok(l) = spec_lookup(d, p) {
        let t = u16_at(d, p);
        assert forall|j: int| 0 <= j < l.subtables.len() implies subtable_read_from(
            d,
            p,
            j,
            l.lookup_type,
            #[trigger] l.subtables[j],
        ) by {
            assert(!subtable_null(d, p, j));
            assert(!subtable_bad(d, p, j));
            assert(l.subtables[j] == subtable_bytes(d, p, j));
            let q = p + subtable_offset(d, p, j);
            assert(word(d, p + 6 + 2 * j) == q - p);
            lemma_subtable_cut(t, d, q);
            let n = subtable_extent_at(d, p, j).unwrap();
            assert(subtable_extent(t, d, q) == Some(n));
            assert(l.subtables[j] == d.subrange(q, q + n));
        }
        assert(word(d, p) == u16_at(d, p) as int);
        assert(word(d, p + 2) == u16_at(d, p + 2) as int);
        assert(word(d, p + 4) == u16_at(d, p + 4) as int);
        assert(word(d, p + 6 + 2 * l.subtables.len()) == u16_at(d, p + 6 + 2 * l.subtables.len()) as int);
    }
}

/// What reading the header gives of the script list, over the bytes read:
/// it is the bytes at the script list offset, and they hold the whole script
/// list: every script table, and every language system table that a script
/// points at, to the full size OpenType gives it.
pub proof fn law_script_list_read(d: Seq<u8>)
    ensures
        spec_core(d) matches Ok(c) ==> (c.script_list matches Some(s) ==> {
            &&& word(d, 4) != 0
            &&& s == d.subrange(word(d, 4), word(d, 4) + s.len())
            &&& script_list_inside(s)
        }),
        spec_parse_gsub(d) matches Ok(g) ==> {
            &&& g.scripts == d.subrange(word(d, 4), word(d, 4) + g.scripts.len())
            &&& script_list_inside(g.scripts)
        },
{
    lemma_words(d);
    assert(word(d, 4) == u16_at(d, 4) as int);
    if let Ok(c) = spec_core(d) {
        if c.script_list is Some {
            let o = u16_at(d, 4) as int;
            lemma_script_list_cut(d, o);
            let n = script_list_extent(d, o).unwrap();
            assert(c.script_list == Some(d.subrange(o, o + n)));
            assert(c.script_list.unwrap().len() == n);
        }
    }
}

/// What reading a feature table gives, over the bytes read: its parameters
/// offset, its index count and each lookup index are the big-endian words
/// at its start, and the indices lie within the data.
pub proof fn law_feature_table_read(d: Seq<u8>, p: int)
    ensures
        spec_feature_table(d, p) matches Some(t) ==> {
            &&& inside(d, p, 4 + 2 * word(d, p + 2))
            &&& t.params_offset as int == word(d, p)
            &&& t.indices.len() == word(d, p + 2)
            &&& forall|j: int| 0 <= j < t.indices.len() ==> #[trigger] t.indices[j] as int == word(d, p + 4 + 2 * j)
        },
{
    lemma_words(d);
}

/// What writing a feature table with fewer than 65536 indices gives: its
/// parameters offset, its index count and each index as big-endian words,
/// in that order, and nothing more.
pub proof fn law_feature_table_written(t: FeatureTableModel)
    requires
        t.indices.len() < 65536,
    ensures
        ({
            let b = enc_feature_table(t);
            &&& b.len() == 4 + 2 * t.indices.len()
            &&& word(b, 0) == t.params_offset
            &&& word(b, 2) == t.indices.len()
            &&& forall|j: int| 0 <= j < t.indices.len() ==> word(b, 4 + 2 * j) == #[trigger] t.indices[j]
        }),
{
    let b = enc_feature_table(t);
    lemma_u16s_len(t.indices);
    assert(b.subrange(0, b.len() as int) =~= b);
    lemma_feature_table_roundtrip(b, 0, t);
    law_feature_table_read(b, 0);
}

/// Once writing succeeds, every feature with a four-byte tag gives a record
/// that reads back: its table has fewer than 65536 indices.
proof fn lemma_written_records_readable(g: GsubModel)
    requires
        core_fits(core_of_gsub(g)),
        forall|i: int| 0 <= i < g.features.len() ==> (#[trigger] g.features[i]).tag.len() == 4,
    ensures
        records_readable(core_of_gsub(g).features),
{
    let recs = core_of_gsub(g).features;
    let kids = feature_children(recs);
    assert forall|i: int| 0 <= i < recs.len() implies {
        &&& (#[trigger] recs[i]).tag.len() == 4
        &&& recs[i].table matches Some(t) && t.indices.len() < 65536
    } by {
        assert(g.features[i].tag.len() == 4);
        let t = recs[i].table.unwrap();
        lemma_u16s_len(t.indices);
        assert(kids[i] == enc_feature_table(t));
        lemma_concat_window(kids, i);
        assert(enc_feature_list(recs).len() >= concat(kids).len());
    }
}

/// Feature `x` was written as record `i` of the feature list at `f` of
/// `out`: the record holds its tag and a non-null offset to a feature table
/// whose parameters offset is null and whose lookup indices are those of
/// `x`, each as a `uint16`.
pub open spec fn feature_written(out: Seq<u8>, f: int, i: int, x: FeatureModel) -> bool {
    let t = f + word(out, f + 6 + 6 * i);
    &&& out.subrange(f + 2 + 6 * i, f + 6 + 6 * i) == x.tag
    &&& word(out, f + 6 + 6 * i) != 0
    &&& inside(out, t, 4 + 2 * x.lookup_indices.len() as int)
    &&& word(out, t) == 0
    &&& word(out, t + 2) == x.lookup_indices.len()
    &&& forall|k: int|
        0 <= k < x.lookup_indices.len() ==> word(out, t + 4 + 2 * k) == (#[trigger] x.lookup_indices[k]) % 65536
}

/// What writing a GSUB table gives of its features, over the bytes written:
/// the feature list, at the offset in the header, counts the features, and
/// each feature is written as a record with its tag and a feature table with
/// a null parameters offset (parameters are not written) and its lookup
/// indices. The tags are of four bytes, as a tag is.
pub proof fn law_written_features(g: GsubModel)
    requires
        spec_serialize_gsub(g) is Some,
        forall|i: int| 0 <= i < g.features.len() ==> (#[trigger] g.features[i]).tag.len() == 4,
    ensures
        ({
            let out = spec_serialize_gsub(g).unwrap();
            let f = word(out, 6);
            &&& word(out, f) == g.features.len()
            &&& forall|i: int| 0 <= i < g.features.len() ==> feature_written(out, f, i, #[trigger] g.features[i])
        }),
{
    let c = core_of_gsub(g);
    let d = enc_core(c);
    let recs = c.features;
    assert(core_fits(c));
    lemma_header_roundtrip(c);
    lemma_written_records_readable(g);
    let f = 10 + c.scripts.len() as int;
    lemma_feature_list_roundtrip(d, f, recs);
    lemma_words(d);
    assert(word(d, 6) == f);
    assert(spec_feature_list(d, f) == Some(recs));
    assert(Seq::new(u16_at(d, f) as nat, |i: int| feature_record_at(d, f, i)) == recs);
    assert(word(d, f) == u16_at(d, f) as int);
    assert forall|i: int| 0 <= i < g.features.len() implies feature_written(d, f, i, #[trigger] g.features[i]) by {
        assert(recs[i] == feature_record_at(d, f, i));
        lemma_feature_written(g, d, f, i);
    }
}

/// Feature `i` of `g` is written as record `i` of the feature list at `f` of
/// `d`, once that record reads back as the record made for it.
#[verifier::spinoff_prover]
proof fn lemma_feature_written(g: GsubModel, d: Seq<u8>, f: int, i: int)
    requires
        0 <= i < g.features.len(),
        feature_record_at(d, f, i) == core_of_gsub(g).features[i],
    ensures
        feature_written(d, f, i, g.features[i]),
{
    let x = g.features[i];
    let r = core_of_gsub(g).features[i];
    lemma_words(d);
    let off = feature_offset(d, f, i);
    assert(word(d, f + 6 + 6 * i) == off as int);
    assert(r.table is Some);
    assert(off != 0);
    let t = r.table.unwrap();
    assert(spec_feature_table(d, f + off) == Some(t));
    law_feature_table_read(d, f + off);
    assert(t.params_offset == 0);
    assert(t.indices.len() == x.lookup_indices.len());
    assert forall|k: int| 0 <= k < x.lookup_indices.len() implies word(d, f + off + 4 + 2 * k)
        == (#[trigger] x.lookup_indices[k]) % 65536 by {
        assert(t.indices[k] as int == word(d, f + off + 4 + 2 * k));
    }
}

/// Entry `i` of the lookup list at `l` was read as `e`: its offset, the
/// word at `l + 2 + 2 * i`, lies within the data; a null offset gives `None`
/// and any other the lookup read at that offset from the list.
pub open spec fn entry_read_from(d: Seq<u8>, l: int, i: int, e: Option<LookupModel>) -> bool {
    &&& inside(d, l + 2 + 2 * i, 2)
    &&& (word(d, l + 2 + 2 * i) == 0 ==> e is None)
    &&& (word(d, l + 2 + 2 * i) != 0 ==> (e matches Some(x) && spec_lookup(d, l + word(d, l + 2 + 2 * i))
        == Ok::<LookupModel, crate::error::DeserializeError>(x)))
}

/// The first `n` entries of a lookup list, once read, are `n` entries each
/// read from its offset.
proof fn lemma_entries_read(d: Seq<u8>, l: int, n: nat)
    ensures
        lookup_entries(d, l, n) matches Ok(es) ==> {
            &&& es.len() == n
            &&& forall|i: int| 0 <= i < n ==> entry_read_from(d, l, i, #[trigger] es[i])
        },
    decreases n,
{
    lemma_words(d);
    if n > 0 {
        lemma_entries_read(d, l, (n - 1) as nat);
        if let Ok(es) = lookup_entries(d, l, n) {
            let acc = lookup_entries(d, l, (n - 1) as nat).unwrap();
            let k = n - 1;
            assert(word(d, l + 2 + 2 * k) == lookup_offset(d, l, k) as int);
            assert forall|i: int| 0 <= i < n implies entry_read_from(d, l, i, #[trigger] es[i]) by {
                if i < k {
                    assert(es[i] == acc[i]);
                }
            }
        }
    }
}

/// What reading a lookup list gives, over the bytes read: as many entries as
/// the word at its start counts, each read from its offset in the list.
pub proof fn law_lookup_list_read(d: Seq<u8>, l: int)
    ensures
        spec_lookup_list(d, l) matches Ok(es) ==> {
            &&& es.len() == word(d, l)
            &&& forall|i: int| 0 <= i < es.len() ==> entry_read_from(d, l, i, #[trigger] es[i])
        },
{
    lemma_words(d);
    assert(word(d, l) == u16_at(d, l) as int);
    lemma_entries_read(d, l, u16_at(d, l) as nat);
}

/// Record `i` of the feature list at `f` was read as `r`: its tag is the
/// four bytes at `f + 2 + 6 * i`; a null offset after them gives no table,
/// and any other the feature table read at that offset from the list.
pub open spec fn record_read_from(d: Seq<u8>, f: int, i: int, r: FeatureRecordModel) -> bool {
    &&& inside(d, f + 2 + 6 * i, 6)
    &&& r.tag == d.subrange(f + 2 + 6 * i, f + 6 + 6 * i)
    &&& (word(d, f + 6 + 6 * i) == 0 ==> r.table is None)
    &&& (word(d, f + 6 + 6 * i) != 0 ==> (r.table is Some && r.table == spec_feature_table(d, f + word(d, f + 6 + 6 * i))))
}

/// What reading a feature list gives, over the bytes read: as many records
/// as the word at its start counts, each read from its place in the list.
pub proof fn law_feature_list_read(d: Seq<u8>, f: int)
    ensures
        spec_feature_list(d, f) matches Some(recs) ==> {
            &&& recs.len() == word(d, f)
            &&& forall|i: int| 0 <= i < recs.len() ==> record_read_from(d, f, i, #[trigger] recs[i])
        },
{
    lemma_words(d);
    if let Some(recs) = spec_feature_list(d, f) {
        assert(word(d, f) == u16_at(d, f) as int);
        assert forall|i: int| 0 <= i < recs.len() implies record_read_from(d, f, i, #[trigger] recs[i]) by {
            assert(recs[i] == feature_record_at(d, f, i));
            assert(word(d, f + 6 + 6 * i) == feature_offset(d, f, i) as int);
            assert(!feature_table_fails(d, f, i));
        }
    }
}

/// What reading the header gives, over the bytes read: the versions are the
/// first two words; the script list, feature list and lookup list are
/// absent exactly when their offsets (the words at 4, 6 and 8) are null, and
/// otherwise the feature list and lookup list are read at their offsets.
pub proof fn law_header_read(d: Seq<u8>)
    ensures
        spec_core(d) matches Ok(c) ==> {
            &&& inside(d, 0, 10)
            &&& c.major as int == word(d, 0)
            &&& c.minor as int == word(d, 2)
            &&& (c.script_list is None <==> word(d, 4) == 0)
            &&& (c.feature_list is None <==> word(d, 6) == 0)
            &&& (word(d, 6) != 0 ==> c.feature_list == spec_feature_list(d, word(d, 6)))
            &&& (c.lookup_list is None <==> word(d, 8) == 0)
            &&& (word(d, 8) != 0 ==> spec_lookup_list(d, word(d, 8))
                == Ok::<Seq<Option<LookupModel>>, crate::error::DeserializeError>(c.lookup_list.unwrap()))
        },
{
    lemma_words(d);
    assert(word(d, 0) == u16_at(d, 0) as int);
    assert(word(d, 2) == u16_at(d, 2) as int);
    assert(word(d, 4) == u16_at(d, 4) as int);
    assert(word(d, 6) == u16_at(d, 6) as int);
    assert(word(d, 8) == u16_at(d, 8) as int);
}

/// Lookup `i` of a table read from `d` is the lookup at offset `i` of the
/// lookup list at `ll`, read from there.
pub open spec fn lookup_read_at(d: Seq<u8>, ll: int, i: int, x: LookupModel) -> bool {
    &&& word(d, ll + 2 + 2 * i) != 0
    &&& spec_lookup(d, ll + word(d, ll + 2 + 2 * i)) == Ok::<LookupModel, crate::error::DeserializeError>(x)
}

/// Feature `i` of a table read from `d` is record `i` of the feature list
/// at `fl`: its tag, and the lookup indices of the feature table its
/// non-null offset points at, without parameters.
pub open spec fn feature_read_at(d: Seq<u8>, fl: int, i: int, x: FeatureModel) -> bool {
    &&& x.tag == d.subrange(fl + 2 + 6 * i, fl + 6 + 6 * i)
    &&& word(d, fl + 6 + 6 * i) != 0
    &&& spec_feature_table(d, fl + word(d, fl + 6 + 6 * i)) matches Some(t)
    &&& x.lookup_indices == t.indices.map_values(|v: u16| v as usize)
    &&& x.params is None
}

/// What reading a GSUB table gives, over the bytes read: its lookups are
/// those of the lookup list at the offset in the header, in order, each read
/// at its offset, none null; its features are the records of the feature
/// list at the offset in the header, in order, none with a null table; its
/// script list is the one at the offset in the header.
pub proof fn law_table_read(d: Seq<u8>)
    ensures
        spec_parse_gsub(d) matches Ok(g) ==> {
            let ll = word(d, 8);
            let fl = word(d, 6);
            &&& ll != 0 && fl != 0 && word(d, 4) != 0
            &&& g.lookups.len() == word(d, ll)
            &&& forall|i: int| 0 <= i < g.lookups.len() ==> lookup_read_at(d, ll, i, #[trigger] g.lookups[i])
            &&& g.features.len() == word(d, fl)
            &&& forall|i: int| 0 <= i < g.features.len() ==> feature_read_at(d, fl, i, #[trigger] g.features[i])
        },
{
    lemma_words(d);
    law_header_read(d);
    if let Ok(g) = spec_parse_gsub(d) {
        let c = spec_core(d).unwrap();
        let ll = word(d, 8);
        let fl = word(d, 6);
        let es = c.lookup_list.unwrap();
        let recs = c.feature_list.unwrap();
        law_lookup_list_read(d, ll);
        law_feature_list_read(d, fl);
        assert forall|i: int| 0 <= i < g.lookups.len() implies lookup_read_at(d, ll, i, #[trigger] g.lookups[i]) by {
            assert(!entry_is_null(es, i));
            assert(entry_read_from(d, ll, i, es[i]));
        }
        assert forall|i: int| 0 <= i < g.features.len() implies feature_read_at(d, fl, i, #[trigger] g.features[i]) by {
            assert(!record_is_null(recs, i));
            assert(record_read_from(d, fl, i, recs[i]));
            assert(g.features[i] == feature_of_record(recs[i]));
        }
    }
}

/// The binary size of the fixed part of a lookup (two bytes each for type,
/// flags, count and every subtable offset, and two for a mark filtering set)
/// and of a lookup list (two bytes for the count and for every offset) is the
/// length of what is written for that fixed part.
pub proof fn law_shallow_sizes(l: LookupModel, ls: Seq<LookupModel>)
    ensures
        enc_lookup_shallow(l).len() == lookup_shallow_size(l),
        enc_lookup_list_shallow(ls).len() == 2 + 2 * ls.len(),
{
    lemma_enc_lookup_len(l);
    lemma_u16s_len(lookup_list_offsets(ls));
}

} // verus!
