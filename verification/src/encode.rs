//! Writing a GSUB table to bytes.
//!
//! Every table is written with its fixed part first, its child tables
//! following it in order, each child followed by its own children; an
//! offset is the distance from the start of the table that holds it to the
//! start of the child. Writing fails when an offset would exceed 65535.
use vstd::prelude::*;
use crate::error::SerializeError;
use crate::table::{
    gsubcoreoutgoing, CoreOutModel, FeatureList, FeatureModel, FeatureRecord, FeatureRecordModel,
    FeatureTable, FeatureTableModel, GsubModel, LookupInternal, LookupModel, SubstLookup,
    SubstLookupListOutgoing, Substitution, GSUB,
};
use crate::wire::{
    concat, otspec_write_counted_u16, otspec_write_tag, otspec_write_u16, u16_bytes, u16s_bytes,
};

verus! {

/// The number of bytes of the first `i` children.
pub open spec fn prefix_len(children: Seq<Seq<u8>>, i: int) -> int {
    concat(children.take(i)).len() as int
}

/// A count as written in a `uint16` field: modulo 65536.
pub open spec fn count16(n: nat) -> u16 {
    (n % 65536) as u16
}

/// The encoding of a feature table: its parameters offset, then its count of
/// lookup indices and the indices.
pub open spec fn enc_feature_table(t: FeatureTableModel) -> Seq<u8> {
    u16_bytes(t.params_offset) + u16_bytes(count16(t.indices.len())) + u16s_bytes(t.indices)
}

/// The encoded child tables of a feature list (empty for a null table).
pub open spec fn feature_children(recs: Seq<FeatureRecordModel>) -> Seq<Seq<u8>> {
    recs.map_values(
        |r: FeatureRecordModel|
            match r.table {
                Some(t) => enc_feature_table(t),
                None => Seq::empty(),
            },
    )
}

/// The offset written in record `i` of a feature list: 0 for a null table,
/// else the size of the count and records plus that of the tables before it.
pub open spec fn feature_list_offset(recs: Seq<FeatureRecordModel>, i: int) -> int {
    if recs[i].table is Some {
        2 + 6 * recs.len() + prefix_len(feature_children(recs), i)
    } else {
        0
    }
}

/// Every offset of a feature list fits in 16 bits.
pub open spec fn feature_list_fits(recs: Seq<FeatureRecordModel>) -> bool {
    forall|i: int| 0 <= i < recs.len() ==> #[trigger] feature_list_offset(recs, i) <= 0xFFFF
}

/// Record `i` of a feature list as written: its tag and its offset.
pub open spec fn feature_record_bytes(recs: Seq<FeatureRecordModel>, i: int) -> Seq<u8> {
    recs[i].tag + u16_bytes(feature_list_offset(recs, i) as u16)
}

/// The encoding of a feature list: count, records, then the feature tables.
pub open spec fn enc_feature_list(recs: Seq<FeatureRecordModel>) -> Seq<u8> {
    u16_bytes(count16(recs.len())) + concat(
        Seq::new(recs.len(), |i: int| feature_record_bytes(recs, i)),
    ) + concat(feature_children(recs))
}

/// The size of the fixed part of a lookup: type, flags, subtable count, one
/// offset per subtable, and the mark filtering set when there is one.
pub open spec fn lookup_shallow_size(l: LookupModel) -> int {
    6 + 2 * l.subtables.len() + if l.mark_filtering_set is Some {
        2int
    } else {
        0int
    }
}

/// The offset of subtable `j` of a lookup.
pub open spec fn lookup_subtable_offset(l: LookupModel, j: int) -> int {
    lookup_shallow_size(l) + prefix_len(l.subtables, j)
}

/// The subtable offsets of a lookup, as written.
pub open spec fn lookup_offsets(l: LookupModel) -> Seq<u16> {
    Seq::new(l.subtables.len(), |j: int| lookup_subtable_offset(l, j) as u16)
}

/// Every subtable offset of a lookup fits in 16 bits.
pub open spec fn lookup_fits(l: LookupModel) -> bool {
    forall|j: int| 0 <= j < l.subtables.len() ==> #[trigger] lookup_subtable_offset(l, j) <= 0xFFFF
}

/// The mark filtering set as written: two bytes when present, nothing when absent.
pub open spec fn mark_filtering_set_bytes(m: Option<u16>) -> Seq<u8> {
    match m {
        Some(v) => u16_bytes(v),
        None => Seq::empty(),
    }
}

/// The fixed part of a lookup as written.
pub open spec fn enc_lookup_shallow(l: LookupModel) -> Seq<u8> {
    u16_bytes(l.lookup_type) + u16_bytes(l.flags) + u16_bytes(count16(l.subtables.len()))
        + u16s_bytes(lookup_offsets(l)) + mark_filtering_set_bytes(l.mark_filtering_set)
}

/// The encoding of a lookup: its fixed part, then its subtables.
pub open spec fn enc_lookup(l: LookupModel) -> Seq<u8> {
    enc_lookup_shallow(l) + concat(l.subtables)
}

/// The encoded lookups of a lookup list.
pub open spec fn lookup_list_children(ls: Seq<LookupModel>) -> Seq<Seq<u8>> {
    ls.map_values(|l: LookupModel| enc_lookup(l))
}

/// The offset of lookup `i` of a lookup list.
pub open spec fn lookup_list_offset(ls: Seq<LookupModel>, i: int) -> int {
    2 + 2 * ls.len() + prefix_len(lookup_list_children(ls), i)
}

/// The lookup offsets of a lookup list, as written.
pub open spec fn lookup_list_offsets(ls: Seq<LookupModel>) -> Seq<u16> {
    Seq::new(ls.len(), |i: int| lookup_list_offset(ls, i) as u16)
}

/// Every lookup offset of a lookup list fits in 16 bits.
pub open spec fn lookup_list_offsets_fit(ls: Seq<LookupModel>) -> bool {
    forall|i: int| 0 <= i < ls.len() ==> #[trigger] lookup_list_offset(ls, i) <= 0xFFFF
}

/// Every offset of a lookup list and of its lookups fits in 16 bits.
pub open spec fn lookup_list_fits(ls: Seq<LookupModel>) -> bool {
    &&& lookup_list_offsets_fit(ls)
    &&& forall|i: int| 0 <= i < ls.len() ==> lookup_fits(#[trigger] ls[i])
}

/// The fixed part of a lookup list as written: count and offsets.
pub open spec fn enc_lookup_list_shallow(ls: Seq<LookupModel>) -> Seq<u8> {
    u16_bytes(count16(ls.len())) + u16s_bytes(lookup_list_offsets(ls))
}

/// The encoding of a lookup list: its fixed part, then its lookups.
pub open spec fn enc_lookup_list(ls: Seq<LookupModel>) -> Seq<u8> {
    enc_lookup_list_shallow(ls) + concat(lookup_list_children(ls))
}

/// Every offset of a GSUB header and of the tables below it fits in 16 bits.
pub open spec fn core_fits(c: CoreOutModel) -> bool {
    &&& 10 + c.scripts.len() + enc_feature_list(c.features).len() <= 0xFFFF
    &&& feature_list_fits(c.features)
    &&& lookup_list_fits(c.lookups)
}

/// The encoding of a GSUB header and its tables: versions, the three
/// offsets, then the script list, the feature list and the lookup list.
pub open spec fn enc_core(c: CoreOutModel) -> Seq<u8> {
    u16_bytes(c.major) + u16_bytes(c.minor) + u16_bytes(10) + u16_bytes((10 + c.scripts.len()) as u16)
        + u16_bytes((10 + c.scripts.len() + enc_feature_list(c.features).len()) as u16) + c.scripts
        + enc_feature_list(c.features) + enc_lookup_list(c.lookups)
}

/// The feature record written for a feature: its tag, and a feature table
/// with a null parameters offset and its lookup indices cast to `uint16`
/// (modulo 65536). The parameters are not written.
pub open spec fn record_of_feature(f: FeatureModel) -> FeatureRecordModel {
    FeatureRecordModel {
        tag: f.tag,
        table: Some(
            FeatureTableModel {
                params_offset: 0,
                indices: f.lookup_indices.map_values(|x: usize| (x % 65536) as u16),
            },
        ),
    }
}

/// The header written for a GSUB table: version 1.0, its script list, its
/// features as records, and its lookups.
pub open spec fn core_of_gsub(g: GsubModel) -> CoreOutModel {
    CoreOutModel {
        major: 1,
        minor: 0,
        scripts: g.scripts,
        features: g.features.map_values(|f: FeatureModel| record_of_feature(f)),
        lookups: g.lookups,
    }
}

/// The bytes written for a GSUB table, or `None` when an offset does not fit.
pub open spec fn spec_serialize_gsub(g: GsubModel) -> Option<Seq<u8>> {
    if core_fits(core_of_gsub(g)) {
        Some(enc_core(core_of_gsub(g)))
    } else {
        None
    }
}

/// Concatenating one more byte string appends it.
pub proof fn lemma_concat_push(s: Seq<Seq<u8>>, x: Seq<u8>)
    ensures
        concat(s.push(x)) == concat(s) + x,
{
    assert(s.push(x).drop_last() =~= s);
}

/// The first `i + 1` children are the first `i` followed by child `i`.
pub proof fn lemma_concat_take_step(s: Seq<Seq<u8>>, i: int)
    requires
        0 <= i < s.len(),
    ensures
        concat(s.take(i + 1)) == concat(s.take(i)) + s[i],
        prefix_len(s, i + 1) == prefix_len(s, i) + s[i].len(),
{
    assert(s.take(i + 1) =~= s.take(i).push(s[i]));
    lemma_concat_push(s.take(i), s[i]);
}

/// Encoding `s` takes two bytes per value.
pub proof fn lemma_u16s_len(s: Seq<u16>)
    ensures
        u16s_bytes(s).len() == 2 * s.len(),
    decreases s.len(),
{
    if s.len() > 0 {
        lemma_u16s_len(s.drop_last());
        assert(s.map_values(|v: u16| u16_bytes(v)).drop_last() =~= s.drop_last().map_values(
            |v: u16| u16_bytes(v),
        ));
    }
}

/// All children together are the concatenation.
pub proof fn lemma_prefix_len_all(s: Seq<Seq<u8>>)
    ensures
        concat(s.take(s.len() as int)) == concat(s),
        prefix_len(s, s.len() as int) == concat(s).len(),
{
    assert(s.take(s.len() as int) =~= s);
}

/// Appends the bytes of `other` to `data`.
fn append_bytes(data: &mut Vec<u8>, other: &[u8])
    ensures
        final(data)@ == old(data)@ + other@,
{
    let mut i: usize = 0;
    while i < other.len()
        invariant
            0 <= i <= other@.len(),
            data@ == old(data)@ + other@.take(i as int),
        decreases other@.len() - i,
    {
        data.push(other[i]);
        assert(other@.take(i + 1) =~= other@.take(i as int).push(other@[i as int]));
        i += 1;
    }
    assert(other@.take(other@.len() as int) =~= other@);
}

/// A copy of a list of `uint16` values.
fn copy_u16s(v: &Vec<u16>) -> (r: Vec<u16>)
    ensures
        r@ == v@,
{
    let mut r: Vec<u16> = Vec::new();
    let mut i: usize = 0;
    while i < v.len()
        invariant
            0 <= i <= v@.len(),
            r@ == v@.take(i as int),
        decreases v@.len() - i,
    {
        r.push(v[i]);
        assert(v@.take(i + 1) =~= v@.take(i as int).push(v@[i as int]));
        i += 1;
    }
    assert(v@.take(v@.len() as int) =~= v@);
    r
}

/// `min(x, 0x10000)`.
pub open spec fn cap(x: int) -> int {
    if x < 0x10000 {
        x
    } else {
        0x10000
    }
}

impl FeatureTable {
    /// Appends the encoding of this feature table, `enc_feature_table`.
    pub fn to_bytes(&self, data: &mut Vec<u8>) -> (r: Result<(), SerializeError>)
        ensures
            r is Ok,
            final(data)@ == old(data)@ + enc_feature_table(self@),
    {
        let _ = otspec_write_u16(data, self.featureParamsOffset);
        let _ = otspec_write_counted_u16(data, copy_u16s(&self.lookupListIndices));
        Ok(())
    }
}

impl FeatureList {
    /// The encoding of this feature list, `enc_feature_list`, or an error
    /// when one of its offsets does not fit in 16 bits.
    fn encode(&self) -> (r: Result<Vec<u8>, SerializeError>)
        ensures
            r is Ok <==> feature_list_fits(self@),
            r matches Ok(b) ==> b@ == enc_feature_list(self@),
    {
        let ghost recs = self@;
        let n = self.featureRecords.len();
        let mut children: Vec<Vec<u8>> = Vec::new();
        let mut i: usize = 0;
        while i < n
            invariant
                n == recs.len(),
                recs == self@,
                0 <= i <= n,
                children@.map_values(|c: Vec<u8>| c@) == feature_children(recs).take(i as int),
            decreases n - i,
        {
            let mut child: Vec<u8> = Vec::new();
            match &self.featureRecords[i].feature {
                Some(t) => {
                    let _ = t.to_bytes(&mut child);
                },
                None => {},
            }
            let ghost before = children@.map_values(|c: Vec<u8>| c@);
            children.push(child);
            assert(children@.map_values(|c: Vec<u8>| c@) =~= before.push(child@));
            assert(feature_children(recs).take(i + 1) =~= feature_children(recs).take(i as int).push(
                feature_children(recs)[i as int],
            ));
            i += 1;
        }
        let ghost kids = feature_children(recs);
        assert(children@.map_values(|c: Vec<u8>| c@) =~= kids);
        let mut cur: usize = if n <= 10922 {
            2 + 6 * n
        } else {
            0x10000
        };
        let mut offsets: Vec<u16> = Vec::new();
        let mut i: usize = 0;
        while i < n
            invariant
                n == recs.len(),
                recs == self@,
                kids == feature_children(recs),
                children@.map_values(|c: Vec<u8>| c@) == kids,
                0 <= i <= n,
                cur == cap(2 + 6 * n + prefix_len(kids, i as int)),
                offsets@.len() == i,
                forall|k: int| 0 <= k < i ==> #[trigger] offsets@[k] == feature_list_offset(recs, k) as u16,
                forall|k: int| 0 <= k < i ==> #[trigger] feature_list_offset(recs, k) <= 0xFFFF,
            decreases n - i,
        {
            proof {
                lemma_concat_take_step(kids, i as int);
            }
            let off: u16 = if self.featureRecords[i].feature.is_some() {
                if cur > 0xFFFF {
                    assert(!(feature_list_offset(recs, i as int) <= 0xFFFF));
                    return Err(SerializeError::OffsetOverflow);
                }
                cur as u16
            } else {
                0
            };
            assert(feature_list_offset(recs, i as int) <= 0xFFFF);
            offsets.push(off);
            let size = children[i].len();
            assert(size == kids[i as int].len());
            cur = if size < 0x10000 - cur {
                cur + size
            } else {
                0x10000
            };
            i += 1;
        }
        let mut out: Vec<u8> = Vec::new();
        let _ = otspec_write_u16(&mut out, (n % 65536) as u16);
        let ghost head = out@;
        assert(head == u16_bytes(count16(recs.len())));
        let ghost rec_bytes = Seq::new(recs.len(), |k: int| feature_record_bytes(recs, k));
        let mut i: usize = 0;
        while i < n
            invariant
                n == recs.len(),
                recs == self@,
                0 <= i <= n,
                offsets@.len() == n,
                forall|k: int| 0 <= k < n ==> #[trigger] offsets@[k] == feature_list_offset(recs, k) as u16,
                rec_bytes == Seq::new(recs.len(), |k: int| feature_record_bytes(recs, k)),
                out@ == head + concat(rec_bytes.take(i as int)),
            decreases n - i,
        {
            let ghost before = out@;
            let _ = otspec_write_tag(&mut out, &self.featureRecords[i].featureTag);
            let _ = otspec_write_u16(&mut out, offsets[i]);
            proof {
                lemma_concat_take_step(rec_bytes, i as int);
                assert(rec_bytes[i as int] == recs[i as int].tag + u16_bytes(offsets@[i as int]));
                assert(out@ =~= head + concat(rec_bytes.take(i + 1)));
            }
            i += 1;
        }
        proof {
            lemma_prefix_len_all(rec_bytes);
        }
        let ghost mid = out@;
        let mut i: usize = 0;
        while i < n
            invariant
                n == kids.len(),
                children@.map_values(|c: Vec<u8>| c@) == kids,
                0 <= i <= n,
                out@ == mid + concat(kids.take(i as int)),
            decreases n - i,
        {
            append_bytes(&mut out, children[i].as_slice());
            proof {
                lemma_concat_take_step(kids, i as int);
                assert(out@ =~= mid + concat(kids.take(i + 1)));
            }
            i += 1;
        }
        proof {
            lemma_prefix_len_all(kids);
            assert(out@ =~= enc_feature_list(recs));
        }
        Ok(out)
    }
}


/// All lookups are single substitution lookups.
pub open spec fn all_single<'a>(lookups: Seq<SubstLookup<'a>>) -> bool {
    forall|i: int| 0 <= i < lookups.len() ==> (#[trigger] lookups[i]).substitution is Single
}

/// A copy of a list of encoded tables.
fn copy_tables<'a>(v: &Vec<&'a [u8]>) -> (r: Vec<&'a [u8]>)
    ensures
        r@ == v@,
{
    let mut r: Vec<&'a [u8]> = Vec::new();
    let mut i: usize = 0;
    while i < v.len()
        invariant
            0 <= i <= v@.len(),
            r@ == v@.take(i as int),
        decreases v@.len() - i,
    {
        r.push(v[i]);
        assert(v@.take(i + 1) =~= v@.take(i as int).push(v@[i as int]));
        i += 1;
    }
    assert(v@.take(v@.len() as int) =~= v@);
    r
}

/// The length of the encoding of a lookup: its fixed part and its subtables.
pub proof fn lemma_enc_lookup_len(l: LookupModel)
    ensures
        enc_lookup_shallow(l).len() == lookup_shallow_size(l),
        enc_lookup(l).len() == lookup_shallow_size(l) + concat(l.subtables).len(),
{
    lemma_u16s_len(lookup_offsets(l));
}

impl<'a> LookupInternal<'a> {
    /// The lookup written for `val`: its type, flags, subtables and mark
    /// filtering set. Only single substitution lookups can be written.
    pub fn from_lookup(val: &SubstLookup<'a>) -> (r: LookupInternal<'a>)
        requires
            val.substitution is Single,
        ensures
            r@ == val@,
    {
        let subtables = match &val.substitution {
            Substitution::Single(subs) => copy_tables(subs),
            _ => Vec::new(),
        };
        LookupInternal {
            flags: val.flags,
            lookupType: val.lookup_type(),
            mark_filtering_set: val.mark_filtering_set,
            subtables,
        }
    }

    /// The size of the fixed part of this lookup: type, flags and count
    /// (two bytes each), two bytes per subtable offset, and two bytes for a
    /// mark filtering set when there is one.
    pub fn ot_binary_size(&self) -> (r: usize)
        requires
            8 + 2 * self.subtables@.len() <= usize::MAX,
        ensures
            r == lookup_shallow_size(self@),
            r == enc_lookup_shallow(self@).len(),
    {
        proof {
            lemma_enc_lookup_len(self@);
        }
        let m: usize = if self.mark_filtering_set.is_some() {
            2
        } else {
            0
        };
        2 + 2 + 2 + 2 * self.subtables.len() + m
    }

    /// The subtable offsets of this lookup, or an error when one does not fit in 16 bits.
    fn offsets(&self) -> (r: Result<Vec<u16>, SerializeError>)
        ensures
            r is Ok <==> lookup_fits(self@),
            r matches Ok(o) ==> o@ == lookup_offsets(self@),
    {
        let ghost l = self@;
        let ghost subs = l.subtables;
        let k = self.subtables.len();
        let m: usize = if self.mark_filtering_set.is_some() {
            2
        } else {
            0
        };
        assert(subs.take(0) =~= Seq::<Seq<u8>>::empty());
        let mut cur: usize = if k <= 0x7FFC {
            6 + 2 * k + m
        } else {
            0x10000
        };
        let mut offsets: Vec<u16> = Vec::new();
        let mut j: usize = 0;
        while j < k
            invariant
                l == self@,
                subs == l.subtables,
                k == subs.len(),
                0 <= j <= k,
                cur == cap(lookup_shallow_size(l) + prefix_len(subs, j as int)),
                offsets@.len() == j,
                forall|i: int| 0 <= i < j ==> #[trigger] offsets@[i] == lookup_offsets(l)[i],
                forall|i: int| 0 <= i < j ==> #[trigger] lookup_subtable_offset(l, i) <= 0xFFFF,
            decreases k - j,
        {
            proof {
                lemma_concat_take_step(subs, j as int);
            }
            if cur > 0xFFFF {
                assert(!(lookup_subtable_offset(l, j as int) <= 0xFFFF));
                return Err(SerializeError::OffsetOverflow);
            }
            offsets.push(cur as u16);
            let size = self.subtables[j].len();
            assert(size == subs[j as int].len());
            cur = if size < 0x10000 - cur {
                cur + size
            } else {
                0x10000
            };
            j += 1;
        }
        assert(offsets@ =~= lookup_offsets(l));
        Ok(offsets)
    }

    /// Appends the fixed part of this lookup, `enc_lookup_shallow`: type,
    /// flags, the counted subtable offsets and the mark filtering set if any.
    /// Fails, writing nothing, when an offset does not fit in 16 bits.
    pub fn to_bytes_shallow(&self, data: &mut Vec<u8>) -> (r: Result<(), SerializeError>)
        ensures
            r is Ok <==> lookup_fits(self@),
            r is Ok ==> final(data)@ == old(data)@ + enc_lookup_shallow(self@),
            r is Err ==> final(data)@ == old(data)@,
    {
        let offsets = match self.offsets() {
            Ok(o) => o,
            Err(e) => return Err(e),
        };
        let _ = otspec_write_u16(data, self.lookupType);
        let _ = otspec_write_u16(data, self.flags);
        let _ = otspec_write_counted_u16(data, offsets);
        match self.mark_filtering_set {
            Some(v) => {
                let _ = otspec_write_u16(data, v);
            },
            None => {},
        }
        assert(data@ =~= old(data)@ + enc_lookup_shallow(self@));
        Ok(())
    }

    /// Appends this lookup, `enc_lookup`: its fixed part, then its subtables.
    /// Fails, writing nothing, when an offset does not fit in 16 bits.
    pub fn to_bytes(&self, data: &mut Vec<u8>) -> (r: Result<(), SerializeError>)
        ensures
            r is Ok <==> lookup_fits(self@),
            r is Ok ==> final(data)@ == old(data)@ + enc_lookup(self@),
            r is Err ==> final(data)@ == old(data)@,
    {
        match self.to_bytes_shallow(data) {
            Ok(()) => {},
            Err(e) => return Err(e),
        }
        let ghost subs = self@.subtables;
        let ghost mid = data@;
        let k = self.subtables.len();
        let mut j: usize = 0;
        while j < k
            invariant
                subs == self@.subtables,
                k == subs.len(),
                0 <= j <= k,
                data@ == mid + concat(subs.take(j as int)),
            decreases k - j,
        {
            append_bytes(data, self.subtables[j]);
            proof {
                lemma_concat_take_step(subs, j as int);
                assert(data@ =~= mid + concat(subs.take(j + 1)));
            }
            j += 1;
        }
        proof {
            lemma_prefix_len_all(subs);
            assert(data@ =~= old(data)@ + enc_lookup(self@));
        }
        Ok(())
    }
}


impl<'a> LookupInternal<'a> {
    /// The length of the encoding of this lookup, capped at 0x10000.
    fn encoded_len_capped(&self) -> (r: usize)
        ensures
            r == cap(enc_lookup(self@).len() as int),
    {
        let ghost l = self@;
        let ghost subs = l.subtables;
        proof {
            lemma_enc_lookup_len(l);
        }
        let k = self.subtables.len();
        let m: usize = if self.mark_filtering_set.is_some() {
            2
        } else {
            0
        };
        assert(subs.take(0) =~= Seq::<Seq<u8>>::empty());
        let mut cur: usize = if k <= 0x7FFC {
            6 + 2 * k + m
        } else {
            0x10000
        };
        let mut j: usize = 0;
        while j < k
            invariant
                l == self@,
                subs == l.subtables,
                k == subs.len(),
                0 <= j <= k,
                cur == cap(lookup_shallow_size(l) + prefix_len(subs, j as int)),
            decreases k - j,
        {
            proof {
                lemma_concat_take_step(subs, j as int);
            }
            let size = self.subtables[j].len();
            cur = if size < 0x10000 - cur {
                cur + size
            } else {
                0x10000
            };
            j += 1;
        }
        proof {
            lemma_prefix_len_all(subs);
        }
        cur
    }
}

impl<'a> SubstLookupListOutgoing<'a> {
    /// The lookup list written for `lookups`: one lookup per entry, as
    /// `LookupInternal::from_lookup` writes it. Only single substitution
    /// lookups can be written.
    pub fn from_lookups(lookups: &Vec<SubstLookup<'a>>) -> (r: SubstLookupListOutgoing<'a>)
        requires
            all_single(lookups@),
        ensures
            r@ == lookups@.map_values(|l: SubstLookup<'a>| l@),
    {
        let mut out: Vec<LookupInternal<'a>> = Vec::new();
        let mut i: usize = 0;
        while i < lookups.len()
            invariant
                all_single(lookups@),
                0 <= i <= lookups@.len(),
                out@.map_values(|l: LookupInternal<'a>| l@) == lookups@.take(i as int).map_values(
                    |l: SubstLookup<'a>| l@,
                ),
            decreases lookups@.len() - i,
        {
            assert(lookups@[i as int].substitution is Single);
            let li = LookupInternal::from_lookup(&lookups[i]);
            let ghost before = out@.map_values(|l: LookupInternal<'a>| l@);
            out.push(li);
            assert(out@.map_values(|l: LookupInternal<'a>| l@) =~= before.push(li@));
            assert(lookups@.take(i + 1).map_values(|l: SubstLookup<'a>| l@) =~= lookups@.take(
                i as int,
            ).map_values(|l: SubstLookup<'a>| l@).push(lookups@[i as int]@));
            i += 1;
        }
        assert(lookups@.take(lookups@.len() as int) =~= lookups@);
        SubstLookupListOutgoing { lookups: out }
    }

    /// The size of the fixed part of this lookup list: the count and one
    /// offset per lookup, two bytes each.
    pub fn ot_binary_size(&self) -> (r: usize)
        requires
            2 + 2 * self.lookups@.len() <= usize::MAX,
        ensures
            r == 2 + 2 * self@.len(),
            r == enc_lookup_list_shallow(self@).len(),
    {
        proof {
            lemma_u16s_len(lookup_list_offsets(self@));
        }
        2 + 2 * self.lookups.len()
    }

    /// The lookup offsets of this list, or an error when one does not fit in 16 bits.
    fn offsets(&self) -> (r: Result<Vec<u16>, SerializeError>)
        ensures
            r is Ok <==> lookup_list_offsets_fit(self@),
            r matches Ok(o) ==> o@ == lookup_list_offsets(self@),
    {
        let ghost ls = self@;
        let ghost kids = lookup_list_children(ls);
        let n = self.lookups.len();
        assert(kids.take(0) =~= Seq::<Seq<u8>>::empty());
        let mut cur: usize = if n <= 0x7FFF {
            2 + 2 * n
        } else {
            0x10000
        };
        let mut offsets: Vec<u16> = Vec::new();
        let mut i: usize = 0;
        while i < n
            invariant
                ls == self@,
                kids == lookup_list_children(ls),
                n == ls.len(),
                0 <= i <= n,
                cur == cap(2 + 2 * n + prefix_len(kids, i as int)),
                offsets@.len() == i,
                forall|k: int| 0 <= k < i ==> #[trigger] offsets@[k] == lookup_list_offsets(ls)[k],
                forall|k: int| 0 <= k < i ==> #[trigger] lookup_list_offset(ls, k) <= 0xFFFF,
            decreases n - i,
        {
            proof {
                lemma_concat_take_step(kids, i as int);
            }
            if cur > 0xFFFF {
                assert(!(lookup_list_offset(ls, i as int) <= 0xFFFF));
                return Err(SerializeError::OffsetOverflow);
            }
            offsets.push(cur as u16);
            let size = self.lookups[i].encoded_len_capped();
            assert(kids[i as int] == enc_lookup(ls[i as int]));
            cur = if size < 0x10000 - cur {
                cur + size
            } else {
                0x10000
            };
            i += 1;
        }
        assert(offsets@ =~= lookup_list_offsets(ls));
        Ok(offsets)
    }

    /// Appends the fixed part of this lookup list, `enc_lookup_list_shallow`:
    /// the counted lookup offsets. Fails, writing nothing, when an offset
    /// does not fit in 16 bits.
    pub fn to_bytes_shallow(&self, data: &mut Vec<u8>) -> (r: Result<(), SerializeError>)
        ensures
            r is Ok <==> lookup_list_offsets_fit(self@),
            r is Ok ==> final(data)@ == old(data)@ + enc_lookup_list_shallow(self@),
            r is Err ==> final(data)@ == old(data)@,
    {
        let offsets = match self.offsets() {
            Ok(o) => o,
            Err(e) => return Err(e),
        };
        let _ = otspec_write_counted_u16(data, offsets);
        assert(data@ =~= old(data)@ + enc_lookup_list_shallow(self@));
        Ok(())
    }

    /// Appends this lookup list, `enc_lookup_list`: its fixed part, then
    /// each lookup with its subtables. Fails, writing nothing, when an offset
    /// of the list or of a lookup does not fit in 16 bits.
    pub fn to_bytes(&self, data: &mut Vec<u8>) -> (r: Result<(), SerializeError>)
        ensures
            r is Ok <==> lookup_list_fits(self@),
            r is Ok ==> final(data)@ == old(data)@ + enc_lookup_list(self@),
            r is Err ==> final(data)@ == old(data)@,
    {
        let ghost ls = self@;
        let ghost kids = lookup_list_children(ls);
        let mut out: Vec<u8> = Vec::new();
        match self.to_bytes_shallow(&mut out) {
            Ok(()) => {},
            Err(e) => {
                return Err(e);
            },
        }
        let ghost head = out@;
        let n = self.lookups.len();
        let mut i: usize = 0;
        while i < n
            invariant
                ls == self@,
                kids == lookup_list_children(ls),
                n == ls.len(),
                lookup_list_offsets_fit(ls),
                0 <= i <= n,
                forall|k: int| 0 <= k < i ==> lookup_fits(#[trigger] ls[k]),
                out@ == head + concat(kids.take(i as int)),
            decreases n - i,
        {
            let ghost before = out@;
            match self.lookups[i].to_bytes(&mut out) {
                Ok(()) => {},
                Err(e) => {
                    assert(!lookup_fits(ls[i as int]));
                    return Err(e);
                },
            }
            proof {
                lemma_concat_take_step(kids, i as int);
                assert(out@ =~= head + concat(kids.take(i + 1)));
            }
            i += 1;
        }
        proof {
            lemma_prefix_len_all(kids);
        }
        append_bytes(data, out.as_slice());
        Ok(())
    }
}


/// Lookup indices cast to `uint16`, each taken modulo 65536.
fn narrow_indices(v: &Vec<usize>) -> (r: Vec<u16>)
    ensures
        r@ == v@.map_values(|x: usize| (x % 65536) as u16),
{
    let mut r: Vec<u16> = Vec::new();
    let mut j: usize = 0;
    while j < v.len()
        invariant
            0 <= j <= v@.len(),
            r@ == v@.take(j as int).map_values(|x: usize| (x % 65536) as u16),
        decreases v@.len() - j,
    {
        r.push((v[j] % 65536) as u16);
        assert(v@.take(j + 1).map_values(|x: usize| (x % 65536) as u16) =~= v@.take(
            j as int,
        ).map_values(|x: usize| (x % 65536) as u16).push((v@[j as int] % 65536) as u16));
        j += 1;
    }
    assert(v@.take(v@.len() as int) =~= v@);
    r
}

impl<'a> gsubcoreoutgoing<'a> {
    /// The header written for `val`, `core_of_gsub`: version 1.0, its script
    /// list, one feature record per feature (with a null parameters offset
    /// and its lookup indices cast to `uint16`), and its lookups. Only single
    /// substitution lookups can be written.
    pub fn from_gsub(val: &GSUB<'a>) -> (r: gsubcoreoutgoing<'a>)
        requires
            all_single(val.lookups@),
        ensures
            r@ == core_of_gsub(val@),
    {
        let ghost g = val@;
        let mut records: Vec<FeatureRecord> = Vec::new();
        let mut i: usize = 0;
        while i < val.features.len()
            invariant
                g == val@,
                0 <= i <= val.features@.len(),
                records@.map_values(|r: FeatureRecord| r@) == g.features.take(i as int).map_values(
                    |f: FeatureModel| record_of_feature(f),
                ),
            decreases val.features@.len() - i,
        {
            let tag = val.features[i].0;
            let indices = narrow_indices(&val.features[i].1);
            let rec = FeatureRecord {
                featureTag: tag,
                feature: Some(FeatureTable { featureParamsOffset: 0, lookupListIndices: indices }),
            };
            assert(rec@ == record_of_feature(g.features[i as int]));
            let ghost before = records@.map_values(|r: FeatureRecord| r@);
            records.push(rec);
            assert(records@.map_values(|r: FeatureRecord| r@) =~= before.push(rec@));
            assert(g.features.take(i + 1).map_values(|f: FeatureModel| record_of_feature(f))
                =~= g.features.take(i as int).map_values(|f: FeatureModel| record_of_feature(f)).push(
                record_of_feature(g.features[i as int]),
            ));
            i += 1;
        }
        assert(g.features.take(g.features.len() as int) =~= g.features);
        let lookupList = SubstLookupListOutgoing::from_lookups(&val.lookups);
        let r = gsubcoreoutgoing {
            majorVersion: 1,
            minorVersion: 0,
            scriptList: val.scripts,
            featureList: FeatureList { featureRecords: records },
            lookupList,
        };
        assert(r@.lookups =~= g.lookups);
        r
    }

    /// Appends this header and its tables, `enc_core`. Fails, writing
    /// nothing, when an offset does not fit in 16 bits.
    pub fn to_bytes(&self, data: &mut Vec<u8>) -> (r: Result<(), SerializeError>)
        ensures
            r is Ok <==> core_fits(self@),
            r is Ok ==> final(data)@ == old(data)@ + enc_core(self@),
            r is Err ==> final(data)@ == old(data)@,
    {
        let fl = match self.featureList.encode() {
            Ok(b) => b,
            Err(e) => return Err(e),
        };
        let s_len = self.scriptList.len();
        let f_len = fl.len();
        if s_len > 0xFFFF - 10 || f_len > 0xFFFF - 10 - s_len {
            return Err(SerializeError::OffsetOverflow);
        }
        let mut lookups: Vec<u8> = Vec::new();
        match self.lookupList.to_bytes(&mut lookups) {
            Ok(()) => {},
            Err(e) => return Err(e),
        }
        let mut out: Vec<u8> = Vec::new();
        let _ = otspec_write_u16(&mut out, self.majorVersion);
        let _ = otspec_write_u16(&mut out, self.minorVersion);
        let _ = otspec_write_u16(&mut out, 10);
        let _ = otspec_write_u16(&mut out, (10 + s_len) as u16);
        let _ = otspec_write_u16(&mut out, (10 + s_len + f_len) as u16);
        append_bytes(&mut out, self.scriptList);
        append_bytes(&mut out, fl.as_slice());
        append_bytes(&mut out, lookups.as_slice());
        assert(out@ =~= enc_core(self@));
        append_bytes(data, out.as_slice());
        Ok(())
    }
}

impl<'a> GSUB<'a> {
    /// Appends this GSUB table, `spec_serialize_gsub`: the header of
    /// `gsubcoreoutgoing::from_gsub` and its tables. Fails, writing nothing,
    /// when an offset does not fit in 16 bits. Only tables whose lookups are
    /// all single substitution lookups can be written.
    pub fn to_bytes(&self, data: &mut Vec<u8>) -> (r: Result<(), SerializeError>)
        requires
            all_single(self.lookups@),
        ensures
            r is Ok <==> spec_serialize_gsub(self@) is Some,
            r is Ok ==> final(data)@ == old(data)@ + spec_serialize_gsub(self@).unwrap(),
            r is Err ==> final(data)@ == old(data)@,
    {
        let gsc = gsubcoreoutgoing::from_gsub(self);
        gsc.to_bytes(data)
    }
}

} // verus!
