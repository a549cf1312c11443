//! Reading a GSUB table from bytes.
//!
//! The table starts at position 0 of the data. Every offset is counted from
//! the start of the table that holds it: the header's from the GSUB table,
//! a feature record's from the feature list, a lookup offset from the lookup
//! list, and a subtable offset from its lookup. A child table that is kept
//! encoded (the script list, a lookup subtable) is walked only as far as
//! needed to find its extent, and returned as the bytes of that extent.
use vstd::prelude::*;
use vstd::slice::slice_subrange;
use crate::error::DeserializeError;
use crate::table::{
    feature_view, gsubcoreincoming, lookup_entry_view, tables_view, CoreModel, FeatureList,
    FeatureModel, FeatureParams, FeatureRecord, FeatureRecordModel, FeatureTable,
    FeatureTableModel, GsubModel, LookupModel, SubstLookup, SubstLookupListIncoming,
    Substitution, Tag, GSUB,
};
use crate::extent::{
    child_extent, coverage_extent, fits_in, glyphs_extent, glyphs_fn, langsys_extent, langsys_fn,
    ligature_extent, ligature_fn, ligature_set_extent, ligature_set_fn, offsets_extent,
    lemma_offsets_none_stays, lemma_subtable_extent_past_end, script_extent, script_fn, script_list_extent, sets_extent, single_extent,
    subtable_coverage_extent, subtable_extent,
};
use crate::wire::{otspec_read_counted_u16, otspec_read_tag, otspec_read_u16, u16_at};

verus! {

/// `k` bytes from position `p` lie within `d`.
pub open spec fn in_bounds(d: Seq<u8>, p: int, k: int) -> bool {
    0 <= p && 0 <= k && p + k <= d.len()
}

/// The feature table at position `p`, or `None` when it runs past the end of `d`.
pub open spec fn spec_feature_table(d: Seq<u8>, p: int) -> Option<FeatureTableModel> {
    if in_bounds(d, p, 4) && in_bounds(d, p + 4, 2 * u16_at(d, p + 2)) {
        Some(
            FeatureTableModel {
                params_offset: u16_at(d, p),
                indices: Seq::new(u16_at(d, p + 2) as nat, |j: int| u16_at(d, p + 4 + 2 * j)),
            },
        )
    } else {
        None
    }
}

/// The feature table offset of record `i` of the feature list at `f`.
pub open spec fn feature_offset(d: Seq<u8>, f: int, i: int) -> u16 {
    u16_at(d, f + 6 + 6 * i)
}

/// Record `i` of the feature list at `f` fails to read: its offset is not
/// null and its feature table runs past the end of `d`.
pub open spec fn feature_table_fails(d: Seq<u8>, f: int, i: int) -> bool {
    feature_offset(d, f, i) != 0 && spec_feature_table(d, f + feature_offset(d, f, i)) is None
}

/// Record `i` of the feature list at `f`.
pub open spec fn feature_record_at(d: Seq<u8>, f: int, i: int) -> FeatureRecordModel {
    FeatureRecordModel {
        tag: d.subrange(f + 2 + 6 * i, f + 6 + 6 * i),
        table: if feature_offset(d, f, i) == 0 {
            None
        } else {
            spec_feature_table(d, f + feature_offset(d, f, i))
        },
    }
}

/// The feature list at `f`: a count, then that many records of a tag and a
/// feature table offset. `None` when any part of it runs past the end of `d`.
pub open spec fn spec_feature_list(d: Seq<u8>, f: int) -> Option<Seq<FeatureRecordModel>> {
    if !in_bounds(d, f, 2) {
        None
    } else if !in_bounds(d, f + 2, 6 * u16_at(d, f)) {
        None
    } else if exists|i: int| 0 <= i < u16_at(d, f) && #[trigger] feature_table_fails(d, f, i) {
        None
    } else {
        Some(Seq::new(u16_at(d, f) as nat, |i: int| feature_record_at(d, f, i)))
    }
}

/// Subtable offset `j` of the lookup at `p`.
pub open spec fn subtable_offset(d: Seq<u8>, p: int, j: int) -> u16 {
    u16_at(d, p + 6 + 2 * j)
}

/// Lookup flag bit 0x0010 (`USE_MARK_FILTERING_SET`): the lookup has a mark
/// filtering set, a `uint16` after its subtable offsets.
pub open spec fn uses_mark_filtering_set(flags: u16) -> bool {
    flags & 0x0010 != 0
}

/// The size of the mark filtering set field of a lookup with these flags.
pub open spec fn mark_filtering_set_size(flags: u16) -> int {
    if uses_mark_filtering_set(flags) {
        2
    } else {
        0
    }
}

/// The extent of subtable `j` of the lookup at `p`, read as a subtable of the
/// lookup's type.
pub open spec fn subtable_extent_at(d: Seq<u8>, p: int, j: int) -> Option<int> {
    subtable_extent(u16_at(d, p), d, p + subtable_offset(d, p, j))
}

/// Subtable `j` of the lookup at `p` is not null and cannot be read.
pub open spec fn subtable_bad(d: Seq<u8>, p: int, j: int) -> bool {
    subtable_offset(d, p, j) != 0 && subtable_extent_at(d, p, j) is None
}

/// Subtable offset `j` of the lookup at `p` is null.
pub open spec fn subtable_null(d: Seq<u8>, p: int, j: int) -> bool {
    subtable_offset(d, p, j) == 0
}

/// Subtable `j` of the lookup at `p`: its bytes, to its extent.
pub open spec fn subtable_bytes(d: Seq<u8>, p: int, j: int) -> Seq<u8> {
    d.subrange(
        p + subtable_offset(d, p, j),
        p + subtable_offset(d, p, j) + subtable_extent_at(d, p, j).unwrap(),
    )
}

/// The lookup at `p`: its type, flags, subtable count, subtable offsets and,
/// when its flags say so, its mark filtering set. Types other than 1 to 4
/// are refused. Every subtable is read to its extent as a subtable of the
/// lookup's type; a null subtable offset is refused once all have been read.
pub open spec fn spec_lookup(d: Seq<u8>, p: int) -> Result<LookupModel, DeserializeError> {
    if !in_bounds(d, p, 4) {
        Err(DeserializeError::Truncated)
    } else if !(1 <= u16_at(d, p) <= 4) {
        Err(DeserializeError::UnsupportedLookupType(u16_at(d, p)))
    } else if !in_bounds(d, p + 4, 2) {
        Err(DeserializeError::Truncated)
    } else if !in_bounds(d, p + 6, 2 * u16_at(d, p + 4) + mark_filtering_set_size(u16_at(d, p + 2))) {
        Err(DeserializeError::Truncated)
    } else if exists|j: int| 0 <= j < u16_at(d, p + 4) && #[trigger] subtable_bad(d, p, j) {
        Err(DeserializeError::BadTable)
    } else if exists|j: int| 0 <= j < u16_at(d, p + 4) && #[trigger] subtable_null(d, p, j) {
        Err(DeserializeError::NullSubtable)
    } else {
        Ok(
            LookupModel {
                lookup_type: u16_at(d, p),
                flags: u16_at(d, p + 2),
                mark_filtering_set: if uses_mark_filtering_set(u16_at(d, p + 2)) {
                    Some(u16_at(d, p + 6 + 2 * u16_at(d, p + 4)))
                } else {
                    None
                },
                subtables: Seq::new(u16_at(d, p + 4) as nat, |j: int| subtable_bytes(d, p, j)),
            },
        )
    }
}

/// Lookup offset `i` of the lookup list at `l`.
pub open spec fn lookup_offset(d: Seq<u8>, l: int, i: int) -> u16 {
    u16_at(d, l + 2 + 2 * i)
}

/// The first `i` entries of the lookup list at `l`, read in order: each is
/// `None` for a null offset, else the lookup at its offset. The first failure
/// is the result.
pub open spec fn lookup_entries(d: Seq<u8>, l: int, i: nat) -> Result<Seq<Option<LookupModel>>, DeserializeError>
    decreases i,
{
    if i == 0 {
        Ok(Seq::empty())
    } else {
        match lookup_entries(d, l, (i - 1) as nat) {
            Err(e) => Err(e),
            Ok(acc) => if !in_bounds(d, l + 2 + 2 * (i - 1), 2) {
                Err(DeserializeError::Truncated)
            } else if lookup_offset(d, l, i - 1) == 0 {
                Ok(acc.push(None))
            } else {
                match spec_lookup(d, l + lookup_offset(d, l, i - 1)) {
                    Ok(x) => Ok(acc.push(Some(x))),
                    Err(e) => Err(e),
                }
            },
        }
    }
}

/// The lookup list at `l`: a count, then that many lookup offsets.
pub open spec fn spec_lookup_list(d: Seq<u8>, l: int) -> Result<Seq<Option<LookupModel>>, DeserializeError> {
    if !in_bounds(d, l, 2) {
        Err(DeserializeError::Truncated)
    } else {
        lookup_entries(d, l, u16_at(d, l) as nat)
    }
}

/// The GSUB header at position 0: major and minor version, then the offsets
/// of the script list, the feature list and the lookup list, each child read
/// unless its offset is null.
pub open spec fn spec_core(d: Seq<u8>) -> Result<CoreModel, DeserializeError> {
    if !in_bounds(d, 0, 6) {
        Err(DeserializeError::Truncated)
    } else if u16_at(d, 4) != 0 && script_list_extent(d, u16_at(d, 4) as int) is None {
        Err(DeserializeError::BadTable)
    } else if !in_bounds(d, 0, 10) {
        Err(DeserializeError::Truncated)
    } else if u16_at(d, 6) != 0 && spec_feature_list(d, u16_at(d, 6) as int) is None {
        Err(DeserializeError::Truncated)
    } else {
        let script_list = if u16_at(d, 4) == 0 {
            None
        } else {
            Some(
                d.subrange(
                    u16_at(d, 4) as int,
                    u16_at(d, 4) + script_list_extent(d, u16_at(d, 4) as int).unwrap(),
                ),
            )
        };
        let feature_list = if u16_at(d, 6) == 0 {
            None
        } else {
            spec_feature_list(d, u16_at(d, 6) as int)
        };
        if u16_at(d, 8) == 0 {
            Ok(
                CoreModel {
                    major: u16_at(d, 0),
                    minor: u16_at(d, 2),
                    script_list,
                    feature_list,
                    lookup_list: None,
                },
            )
        } else {
            match spec_lookup_list(d, u16_at(d, 8) as int) {
                Err(e) => Err(e),
                Ok(x) => Ok(
                    CoreModel {
                        major: u16_at(d, 0),
                        minor: u16_at(d, 2),
                        script_list,
                        feature_list,
                        lookup_list: Some(x),
                    },
                ),
            }
        }
    }
}

/// Entry `i` of the lookup list `s` is a null offset.
pub open spec fn entry_is_null(s: Seq<Option<LookupModel>>, i: int) -> bool {
    s[i] is None
}

/// Record `i` of the feature list `s` has a null feature table offset.
pub open spec fn record_is_null(s: Seq<FeatureRecordModel>, i: int) -> bool {
    s[i].table is None
}

/// The feature of a feature record with a table: its tag and lookup indices,
/// without parameters.
pub open spec fn feature_of_record(r: FeatureRecordModel) -> FeatureModel {
    FeatureModel {
        tag: r.tag,
        lookup_indices: r.table.unwrap().indices.map_values(|x: u16| x as usize),
        params: None,
    }
}

/// The GSUB table in `d`. After the header (and, for minor version 1, a
/// feature variations offset), the script list, the lookup list, every
/// lookup, the feature list and every feature table must be present, in that
/// order of checking.
pub open spec fn spec_parse_gsub(d: Seq<u8>) -> Result<GsubModel, DeserializeError> {
    match spec_core(d) {
        Err(e) => Err(e),
        Ok(c) => if c.minor == 1 && !in_bounds(d, 10, 2) {
            Err(DeserializeError::Truncated)
        } else if c.script_list is None {
            Err(DeserializeError::BadScriptList)
        } else if c.lookup_list is None {
            Err(DeserializeError::BadLookupList)
        } else if exists|i: int|
            0 <= i < c.lookup_list.unwrap().len() && #[trigger] entry_is_null(c.lookup_list.unwrap(), i) {
            Err(DeserializeError::BadLookup)
        } else if c.feature_list is None {
            Err(DeserializeError::BadFeatureList)
        } else if exists|i: int|
            0 <= i < c.feature_list.unwrap().len() && #[trigger] record_is_null(c.feature_list.unwrap(), i) {
            Err(DeserializeError::BadFeature)
        } else {
            Ok(
                GsubModel {
                    lookups: c.lookup_list.unwrap().map_values(|x: Option<LookupModel>| x.unwrap()),
                    scripts: c.script_list.unwrap(),
                    features: c.feature_list.unwrap().map_values(
                        |r: FeatureRecordModel| feature_of_record(r),
                    ),
                },
            )
        },
    }
}

/// The parse outcome of `r` in terms of models.
pub open spec fn gsub_result_view<'a>(r: Result<GSUB<'a>, DeserializeError>) -> Result<GsubModel, DeserializeError> {
    match r {
        Ok(g) => Ok(g@),
        Err(e) => Err(e),
    }
}

/// Reading `d` as a GSUB table would meet a lookup type that is not read.
pub open spec fn meets_unsupported_lookup(d: Seq<u8>) -> bool {
    spec_parse_gsub(d) matches Err(DeserializeError::UnsupportedLookupType(_))
}


/// `a + b`, or `None` when it does not fit in a `usize`.
fn pos_add(a: usize, b: usize) -> (r: Option<usize>)
    ensures
        r matches Some(s) ==> s == a + b,
        r is None ==> a + b > usize::MAX,
{
    a.checked_add(b)
}

/// The `uint16` at `pos`, or `None` when it runs past the end of `data`.
fn read_u16_at(data: &[u8], pos: usize) -> (r: Option<u16>)
    ensures
        r is Some <==> in_bounds(data@, pos as int, 2),
        r matches Some(v) ==> v == u16_at(data@, pos as int),
{
    let len = data.len();
    let end = match pos_add(pos, 2) {
        Some(e) => e,
        None => return None,
    };
    if end > len {
        return None;
    }
    let window = slice_subrange(data, pos, end);
    match otspec_read_u16(window) {
        Ok(v) => Some(v),
        Err(_) => None,
    }
}

/// The tag at `pos`, or `None` when it runs past the end of `data`.
fn read_tag_at(data: &[u8], pos: usize) -> (r: Option<[u8; 4]>)
    ensures
        r is Some <==> in_bounds(data@, pos as int, 4),
        r matches Some(t) ==> t@ == data@.subrange(pos as int, pos + 4),
{
    let len = data.len();
    let end = match pos_add(pos, 4) {
        Some(e) => e,
        None => return None,
    };
    if end > len {
        return None;
    }
    let window = slice_subrange(data, pos, end);
    match otspec_read_tag(window) {
        Ok(t) => Some(t),
        Err(_) => None,
    }
}

/// The outcome of computing an extent: `Some(n)` exactly when the spec gives
/// `n`, and then the table ends within the data.
pub open spec fn extent_result(r: Option<usize>, s: Option<int>, p: int, len: int) -> bool {
    match r {
        Some(n) => s == Some(n as int) && p + n <= len,
        None => s is None,
    }
}

/// The extent of the coverage table at `p`.
fn coverage_extent_exec(data: &[u8], p: usize) -> (r: Option<usize>)
    ensures
        extent_result(r, coverage_extent(data@, p as int), p as int, data@.len() as int),
{
    let len = data.len();
    let fmt = match read_u16_at(data, p) {
        Some(v) => v,
        None => return None,
    };
    let n = match read_u16_at(data, p + 2) {
        Some(v) => v,
        None => return None,
    };
    let size: usize = if fmt == 1 {
        4 + 2 * (n as usize)
    } else if fmt == 2 {
        4 + 6 * (n as usize)
    } else {
        return None;
    };
    let end = match pos_add(p, size) {
        Some(e) => e,
        None => return None,
    };
    if end > len {
        return None;
    }
    Some(size)
}

/// The extent of the language system table at `p`.
fn langsys_extent_exec(data: &[u8], p: usize) -> (r: Option<usize>)
    ensures
        extent_result(r, langsys_extent(data@, p as int), p as int, data@.len() as int),
{
    let len = data.len();
    let q = match pos_add(p, 4) {
        Some(q) => q,
        None => return None,
    };
    let n = match read_u16_at(data, q) {
        Some(v) => v,
        None => return None,
    };
    let size: usize = 6 + 2 * (n as usize);
    let end = match pos_add(p, size) {
        Some(e) => e,
        None => return None,
    };
    if end > len {
        return None;
    }
    Some(size)
}

/// The extent of the counted glyph list at `p`.
fn glyphs_extent_exec(data: &[u8], p: usize) -> (r: Option<usize>)
    ensures
        extent_result(r, glyphs_extent(data@, p as int), p as int, data@.len() as int),
{
    let len = data.len();
    let n = match read_u16_at(data, p) {
        Some(v) => v,
        None => return None,
    };
    let size: usize = 2 + 2 * (n as usize);
    let end = match pos_add(p, size) {
        Some(e) => e,
        None => return None,
    };
    if end > len {
        return None;
    }
    Some(size)
}

/// The extent of the ligature table at `p`.
fn ligature_extent_exec(data: &[u8], p: usize) -> (r: Option<usize>)
    ensures
        extent_result(r, ligature_extent(data@, p as int), p as int, data@.len() as int),
{
    let len = data.len();
    let q = match pos_add(p, 2) {
        Some(q) => q,
        None => return None,
    };
    let c = match read_u16_at(data, q) {
        Some(v) => v,
        None => return None,
    };
    if c < 1 {
        return None;
    }
    let size: usize = 2 + 2 * (c as usize);
    let end = match pos_add(p, size) {
        Some(e) => e,
        None => return None,
    };
    if end > len {
        return None;
    }
    Some(size)
}

/// The extent of the `language systems` that `n` offsets at `p + first + stride * i` point at.
fn langsys_offsets_extent(data: &[u8], p: usize, first: usize, stride: usize, n: usize) -> (r: Option<usize>)
    requires
        fits_in(data@, p as int, first + stride * n + 2 - stride),
        stride >= 2,
        first + 2 >= stride,
    ensures
        extent_result(r, offsets_extent(data@, p as int, first as int, stride as int, n as nat, langsys_fn()), p as int, data@.len() as int),
{
    let len = data.len();
    let ghost d = data@;
    let mut acc: usize = 0;
    let mut i: usize = 0;
    while i < n
        invariant
            d == data@,
            len == d.len(),
            fits_in(d, p as int, first + stride * n + 2 - stride),
            stride >= 2,
            first + 2 >= stride,
            0 <= i <= n,
            offsets_extent(d, p as int, first as int, stride as int, i as nat, langsys_fn()) == Some(acc as int),
            p + acc <= len,
        decreases n - i,
    {
        assert(stride * i + stride <= stride * n) by (nonlinear_arith)
            requires
                i < n,
                stride >= 2,
        ;
        let at = p + first + stride * i;
        let off = match read_u16_at(data, at) {
            Some(v) => v,
            None => return None,
        };
        if off != 0 {
            let q = match pos_add(p, off as usize) {
                Some(q) => q,
                None => {
                    assert(langsys_fn()(d, p + off) is None);
                    proof {
                        lemma_offsets_none_stays(d, p as int, first as int, stride as int, (i + 1) as nat, n as nat, langsys_fn());
                    }
                    return None;
                },
            };
            let c = match langsys_extent_exec(data, q) {
                Some(c) => c,
                None => {
                    proof {
                        lemma_offsets_none_stays(d, p as int, first as int, stride as int, (i + 1) as nat, n as nat, langsys_fn());
                    }
                    return None;
                },
            };
            let end = off as usize + c;
            if end > acc {
                acc = end;
            }
        }
        i += 1;
    }
    Some(acc)
}

/// The extent of the `scripts` that `n` offsets at `p + first + stride * i` point at.
fn script_offsets_extent(data: &[u8], p: usize, first: usize, stride: usize, n: usize) -> (r: Option<usize>)
    requires
        fits_in(data@, p as int, first + stride * n + 2 - stride),
        stride >= 2,
        first + 2 >= stride,
    ensures
        extent_result(r, offsets_extent(data@, p as int, first as int, stride as int, n as nat, script_fn()), p as int, data@.len() as int),
{
    let len = data.len();
    let ghost d = data@;
    let mut acc: usize = 0;
    let mut i: usize = 0;
    while i < n
        invariant
            d == data@,
            len == d.len(),
            fits_in(d, p as int, first + stride * n + 2 - stride),
            stride >= 2,
            first + 2 >= stride,
            0 <= i <= n,
            offsets_extent(d, p as int, first as int, stride as int, i as nat, script_fn()) == Some(acc as int),
            p + acc <= len,
        decreases n - i,
    {
        assert(stride * i + stride <= stride * n) by (nonlinear_arith)
            requires
                i < n,
                stride >= 2,
        ;
        let at = p + first + stride * i;
        let off = match read_u16_at(data, at) {
            Some(v) => v,
            None => return None,
        };
        if off != 0 {
            let q = match pos_add(p, off as usize) {
                Some(q) => q,
                None => {
                    assert(script_fn()(d, p + off) is None);
                    proof {
                        lemma_offsets_none_stays(d, p as int, first as int, stride as int, (i + 1) as nat, n as nat, script_fn());
                    }
                    return None;
                },
            };
            let c = match script_extent_exec(data, q) {
                Some(c) => c,
                None => {
                    proof {
                        lemma_offsets_none_stays(d, p as int, first as int, stride as int, (i + 1) as nat, n as nat, script_fn());
                    }
                    return None;
                },
            };
            let end = off as usize + c;
            if end > acc {
                acc = end;
            }
        }
        i += 1;
    }
    Some(acc)
}

/// The extent of the `glyph lists` that `n` offsets at `p + first + stride * i` point at.
fn glyphs_offsets_extent(data: &[u8], p: usize, first: usize, stride: usize, n: usize) -> (r: Option<usize>)
    requires
        fits_in(data@, p as int, first + stride * n + 2 - stride),
        stride >= 2,
        first + 2 >= stride,
    ensures
        extent_result(r, offsets_extent(data@, p as int, first as int, stride as int, n as nat, glyphs_fn()), p as int, data@.len() as int),
{
    let len = data.len();
    let ghost d = data@;
    let mut acc: usize = 0;
    let mut i: usize = 0;
    while i < n
        invariant
            d == data@,
            len == d.len(),
            fits_in(d, p as int, first + stride * n + 2 - stride),
            stride >= 2,
            first + 2 >= stride,
            0 <= i <= n,
            offsets_extent(d, p as int, first as int, stride as int, i as nat, glyphs_fn()) == Some(acc as int),
            p + acc <= len,
        decreases n - i,
    {
        assert(stride * i + stride <= stride * n) by (nonlinear_arith)
            requires
                i < n,
                stride >= 2,
        ;
        let at = p + first + stride * i;
        let off = match read_u16_at(data, at) {
            Some(v) => v,
            None => return None,
        };
        if off != 0 {
            let q = match pos_add(p, off as usize) {
                Some(q) => q,
                None => {
                    assert(glyphs_fn()(d, p + off) is None);
                    proof {
                        lemma_offsets_none_stays(d, p as int, first as int, stride as int, (i + 1) as nat, n as nat, glyphs_fn());
                    }
                    return None;
                },
            };
            let c = match glyphs_extent_exec(data, q) {
                Some(c) => c,
                None => {
                    proof {
                        lemma_offsets_none_stays(d, p as int, first as int, stride as int, (i + 1) as nat, n as nat, glyphs_fn());
                    }
                    return None;
                },
            };
            let end = off as usize + c;
            if end > acc {
                acc = end;
            }
        }
        i += 1;
    }
    Some(acc)
}

/// The extent of the `ligatures` that `n` offsets at `p + first + stride * i` point at.
fn ligature_offsets_extent(data: &[u8], p: usize, first: usize, stride: usize, n: usize) -> (r: Option<usize>)
    requires
        fits_in(data@, p as int, first + stride * n + 2 - stride),
        stride >= 2,
        first + 2 >= stride,
    ensures
        extent_result(r, offsets_extent(data@, p as int, first as int, stride as int, n as nat, ligature_fn()), p as int, data@.len() as int),
{
    let len = data.len();
    let ghost d = data@;
    let mut acc: usize = 0;
    let mut i: usize = 0;
    while i < n
        invariant
            d == data@,
            len == d.len(),
            fits_in(d, p as int, first + stride * n + 2 - stride),
            stride >= 2,
            first + 2 >= stride,
            0 <= i <= n,
            offsets_extent(d, p as int, first as int, stride as int, i as nat, ligature_fn()) == Some(acc as int),
            p + acc <= len,
        decreases n - i,
    {
        assert(stride * i + stride <= stride * n) by (nonlinear_arith)
            requires
                i < n,
                stride >= 2,
        ;
        let at = p + first + stride * i;
        let off = match read_u16_at(data, at) {
            Some(v) => v,
            None => return None,
        };
        if off != 0 {
            let q = match pos_add(p, off as usize) {
                Some(q) => q,
                None => {
                    assert(ligature_fn()(d, p + off) is None);
                    proof {
                        lemma_offsets_none_stays(d, p as int, first as int, stride as int, (i + 1) as nat, n as nat, ligature_fn());
                    }
                    return None;
                },
            };
            let c = match ligature_extent_exec(data, q) {
                Some(c) => c,
                None => {
                    proof {
                        lemma_offsets_none_stays(d, p as int, first as int, stride as int, (i + 1) as nat, n as nat, ligature_fn());
                    }
                    return None;
                },
            };
            let end = off as usize + c;
            if end > acc {
                acc = end;
            }
        }
        i += 1;
    }
    Some(acc)
}

/// The extent of the `ligature sets` that `n` offsets at `p + first + stride * i` point at.
fn ligature_set_offsets_extent(data: &[u8], p: usize, first: usize, stride: usize, n: usize) -> (r: Option<usize>)
    requires
        fits_in(data@, p as int, first + stride * n + 2 - stride),
        stride >= 2,
        first + 2 >= stride,
    ensures
        extent_result(r, offsets_extent(data@, p as int, first as int, stride as int, n as nat, ligature_set_fn()), p as int, data@.len() as int),
{
    let len = data.len();
    let ghost d = data@;
    let mut acc: usize = 0;
    let mut i: usize = 0;
    while i < n
        invariant
            d == data@,
            len == d.len(),
            fits_in(d, p as int, first + stride * n + 2 - stride),
            stride >= 2,
            first + 2 >= stride,
            0 <= i <= n,
            offsets_extent(d, p as int, first as int, stride as int, i as nat, ligature_set_fn()) == Some(acc as int),
            p + acc <= len,
        decreases n - i,
    {
        assert(stride * i + stride <= stride * n) by (nonlinear_arith)
            requires
                i < n,
                stride >= 2,
        ;
        let at = p + first + stride * i;
        let off = match read_u16_at(data, at) {
            Some(v) => v,
            None => return None,
        };
        if off != 0 {
            let q = match pos_add(p, off as usize) {
                Some(q) => q,
                None => {
                    assert(ligature_set_fn()(d, p + off) is None);
                    proof {
                        lemma_offsets_none_stays(d, p as int, first as int, stride as int, (i + 1) as nat, n as nat, ligature_set_fn());
                    }
                    return None;
                },
            };
            let c = match ligature_set_extent_exec(data, q) {
                Some(c) => c,
                None => {
                    proof {
                        lemma_offsets_none_stays(d, p as int, first as int, stride as int, (i + 1) as nat, n as nat, ligature_set_fn());
                    }
                    return None;
                },
            };
            let end = off as usize + c;
            if end > acc {
                acc = end;
            }
        }
        i += 1;
    }
    Some(acc)
}

/// The extent of the script table at `p`.
fn script_extent_exec(data: &[u8], p: usize) -> (r: Option<usize>)
    ensures
        extent_result(r, script_extent(data@, p as int), p as int, data@.len() as int),
{
    let len = data.len();
    let ghost d = data@;
    let def = match read_u16_at(data, p) {
        Some(v) => v,
        None => return None,
    };
    let n = match read_u16_at(data, p + 2) {
        Some(v) => v,
        None => return None,
    };
    let fixed: usize = 4 + 6 * (n as usize);
    let end = match pos_add(p, fixed) {
        Some(e) => e,
        None => return None,
    };
    if end > len {
        return None;
    }
    let def_end: usize = if def == 0 {
        0
    } else {
        let q = match pos_add(p, def as usize) {
            Some(q) => q,
            None => return None,
        };
        match langsys_extent_exec(data, q) {
            Some(c) => def as usize + c,
            None => return None,
        }
    };
    assert(child_extent(d, p as int, def as int, langsys_fn()) == Some(def_end as int));
    let recs = match langsys_offsets_extent(data, p, 8, 6, n as usize) {
        Some(m) => m,
        None => return None,
    };
    let mut r = fixed;
    if def_end > r {
        r = def_end;
    }
    if recs > r {
        r = recs;
    }
    Some(r)
}

/// The extent of the script list at `p`.
pub(crate) fn script_list_extent_exec(data: &[u8], p: usize) -> (r: Option<usize>)
    ensures
        extent_result(r, script_list_extent(data@, p as int), p as int, data@.len() as int),
{
    reveal(script_list_extent);
    let len = data.len();
    let n = match read_u16_at(data, p) {
        Some(v) => v,
        None => return None,
    };
    let fixed: usize = 2 + 6 * (n as usize);
    let end = match pos_add(p, fixed) {
        Some(e) => e,
        None => return None,
    };
    if end > len {
        return None;
    }
    let recs = match script_offsets_extent(data, p, 6, 6, n as usize) {
        Some(m) => m,
        None => return None,
    };
    if recs > fixed {
        Some(recs)
    } else {
        Some(fixed)
    }
}

/// The extent of the coverage of the subtable at `p` (whose first six bytes
/// lie within the data).
fn subtable_coverage_extent_exec(data: &[u8], p: usize) -> (r: Option<usize>)
    requires
        fits_in(data@, p as int, 6),
    ensures
        extent_result(r, subtable_coverage_extent(data@, p as int), p as int, data@.len() as int),
{
    let len = data.len();
    let cov = match read_u16_at(data, p + 2) {
        Some(v) => v,
        None => return None,
    };
    if cov == 0 {
        return None;
    }
    let q = match pos_add(p, cov as usize) {
        Some(q) => q,
        None => return None,
    };
    match coverage_extent_exec(data, q) {
        Some(c) => Some(cov as usize + c),
        None => None,
    }
}

/// The extent of the single substitution subtable at `p`.
fn single_extent_exec(data: &[u8], p: usize) -> (r: Option<usize>)
    ensures
        extent_result(r, single_extent(data@, p as int), p as int, data@.len() as int),
{
    let len = data.len();
    let fmt = match read_u16_at(data, p) {
        Some(v) => v,
        None => return None,
    };
    let x = match read_u16_at(data, p + 2) {
        Some(_) => match read_u16_at(data, p + 4) {
            Some(v) => v,
            None => return None,
        },
        None => return None,
    };
    let fixed: usize = if fmt == 1 {
        6
    } else if fmt == 2 {
        6 + 2 * (x as usize)
    } else {
        return None;
    };
    let end = match pos_add(p, fixed) {
        Some(e) => e,
        None => return None,
    };
    if end > len {
        return None;
    }
    let c = match subtable_coverage_extent_exec(data, p) {
        Some(c) => c,
        None => return None,
    };
    if c > fixed {
        Some(c)
    } else {
        Some(fixed)
    }
}

/// The extent of the ligature set at `p`.
fn ligature_set_extent_exec(data: &[u8], p: usize) -> (r: Option<usize>)
    ensures
        extent_result(r, ligature_set_extent(data@, p as int), p as int, data@.len() as int),
{
    let len = data.len();
    let n = match read_u16_at(data, p) {
        Some(v) => v,
        None => return None,
    };
    let fixed: usize = 2 + 2 * (n as usize);
    let end = match pos_add(p, fixed) {
        Some(e) => e,
        None => return None,
    };
    if end > len {
        return None;
    }
    let recs = match ligature_offsets_extent(data, p, 2, 2, n as usize) {
        Some(m) => m,
        None => return None,
    };
    if recs > fixed {
        Some(recs)
    } else {
        Some(fixed)
    }
}

/// The extent of the multiple, alternate (`ligatures` false) or ligature
/// (`ligatures` true) substitution subtable at `p`.
fn sets_extent_exec(data: &[u8], p: usize, ligatures: bool) -> (r: Option<usize>)
    ensures
        extent_result(
            r,
            sets_extent(data@, p as int, if ligatures { ligature_set_fn() } else { glyphs_fn() }),
            p as int,
            data@.len() as int,
        ),
{
    let len = data.len();
    let fmt = match read_u16_at(data, p) {
        Some(v) => v,
        None => return None,
    };
    let n = match read_u16_at(data, p + 2) {
        Some(_) => match read_u16_at(data, p + 4) {
            Some(v) => v,
            None => return None,
        },
        None => return None,
    };
    if fmt != 1 {
        return None;
    }
    let fixed: usize = 6 + 2 * (n as usize);
    let end = match pos_add(p, fixed) {
        Some(e) => e,
        None => return None,
    };
    if end > len {
        return None;
    }
    let c = match subtable_coverage_extent_exec(data, p) {
        Some(c) => c,
        None => return None,
    };
    let sets = if ligatures {
        ligature_set_offsets_extent(data, p, 6, 2, n as usize)
    } else {
        glyphs_offsets_extent(data, p, 6, 2, n as usize)
    };
    let s = match sets {
        Some(m) => m,
        None => return None,
    };
    let mut r = fixed;
    if c > r {
        r = c;
    }
    if s > r {
        r = s;
    }
    Some(r)
}

/// The extent of the subtable of lookup type `t` (1 to 4) at `p`.
fn subtable_extent_exec(t: u16, data: &[u8], p: usize) -> (r: Option<usize>)
    requires
        1 <= t <= 4,
    ensures
        extent_result(r, subtable_extent(t, data@, p as int), p as int, data@.len() as int),
{
    reveal(subtable_extent);
    if t == 1 {
        single_extent_exec(data, p)
    } else if t == 4 {
        sets_extent_exec(data, p, true)
    } else {
        sets_extent_exec(data, p, false)
    }
}

/// The feature table at `p`, or `None` when it runs past the end of `data`.
fn parse_feature_table(data: &[u8], p: usize) -> (r: Option<FeatureTable>)
    ensures
        r is Some <==> spec_feature_table(data@, p as int) is Some,
        r matches Some(t) ==> spec_feature_table(data@, p as int) == Some(t@),
{
    let len = data.len();
    let params = match read_u16_at(data, p) {
        Some(v) => v,
        None => return None,
    };
    let q = p + 2;
    let count = match read_u16_at(data, q) {
        Some(v) => v,
        None => return None,
    };
    let end = match pos_add(q, 2 + 2 * (count as usize)) {
        Some(e) => e,
        None => return None,
    };
    if end > len {
        return None;
    }
    let window = slice_subrange(data, q, end);
    let indices = match otspec_read_counted_u16(window) {
        Ok(v) => v,
        Err(_) => return None,
    };
    let t = FeatureTable { featureParamsOffset: params, lookupListIndices: indices };
    proof {
        let d = data@;
        let w = window@;
        assert(u16_at(w, 0) == u16_at(d, p + 2));
        assert forall|j: int| 0 <= j < count implies #[trigger] indices@[j] == u16_at(d, p + 4 + 2 * j) by {
            assert(u16_at(w, 2 + 2 * j) == u16_at(d, p + 4 + 2 * j));
        }
        assert(t@.indices =~= Seq::new(count as nat, |j: int| u16_at(d, p + 4 + 2 * j)));
    }
    Some(t)
}


/// The feature list at `f`, or `None` when any part of it runs past the end of `data`.
fn parse_feature_list(data: &[u8], f: usize) -> (r: Option<FeatureList>)
    ensures
        r is Some <==> spec_feature_list(data@, f as int) is Some,
        r matches Some(l) ==> spec_feature_list(data@, f as int) == Some(l@),
{
    let len = data.len();
    let n = match read_u16_at(data, f) {
        Some(v) => v,
        None => return None,
    };
    let base = f + 2;
    let end = match pos_add(base, 6 * (n as usize)) {
        Some(e) => e,
        None => return None,
    };
    if end > len {
        return None;
    }
    let ghost d = data@;
    let mut records: Vec<FeatureRecord> = Vec::new();
    let mut i: usize = 0;
    while i < n as usize
        invariant
            len == d.len(),
            d == data@,
            n == u16_at(d, f as int),
            base == f + 2,
            in_bounds(d, f + 2, 6 * n),
            0 <= i <= n,
            records@.map_values(|r: FeatureRecord| r@) == Seq::new(
                i as nat,
                |k: int| feature_record_at(d, f as int, k),
            ),
            forall|k: int| 0 <= k < i ==> !#[trigger] feature_table_fails(d, f as int, k),
        decreases n - i,
    {
        let rp = base + 6 * i;
        let tag = match read_tag_at(data, rp) {
            Some(t) => t,
            None => return None,
        };
        let off = match read_u16_at(data, rp + 4) {
            Some(v) => v,
            None => return None,
        };
        assert(off == feature_offset(d, f as int, i as int));
        let feature = if off == 0 {
            None
        } else {
            let tp = match pos_add(f, off as usize) {
                Some(q) => q,
                None => {
                    assert(feature_table_fails(d, f as int, i as int));
                    return None;
                },
            };
            match parse_feature_table(data, tp) {
                Some(t) => Some(t),
                None => {
                    assert(feature_table_fails(d, f as int, i as int));
                    return None;
                },
            }
        };
        let rec = FeatureRecord { featureTag: tag, feature };
        assert(rec@ == feature_record_at(d, f as int, i as int));
        let ghost old_records = records@;
        records.push(rec);
        assert(records@.map_values(|r: FeatureRecord| r@) =~= old_records.map_values(
            |r: FeatureRecord| r@,
        ).push(rec@));
        assert(Seq::new((i + 1) as nat, |k: int| feature_record_at(d, f as int, k)) =~= Seq::new(
            i as nat,
            |k: int| feature_record_at(d, f as int, k),
        ).push(feature_record_at(d, f as int, i as int)));
        i += 1;
    }
    let l = FeatureList { featureRecords: records };
    Some(l)
}


/// The outcome of reading a lookup, in terms of models.
pub open spec fn lookup_result_view<'a>(r: Result<SubstLookup<'a>, DeserializeError>) -> Result<LookupModel, DeserializeError> {
    match r {
        Ok(l) => Ok(l@),
        Err(e) => Err(e),
    }
}

/// The lookup at `p`, as `spec_lookup` describes it.
fn parse_lookup<'a>(data: &'a [u8], p: usize) -> (r: Result<SubstLookup<'a>, DeserializeError>)
    ensures
        lookup_result_view(r) == spec_lookup(data@, p as int),
{
    let len = data.len();
    let ghost d = data@;
    let t = match read_u16_at(data, p) {
        Some(v) => v,
        None => return Err(DeserializeError::Truncated),
    };
    let flags = match read_u16_at(data, p + 2) {
        Some(v) => v,
        None => return Err(DeserializeError::Truncated),
    };
    if t < 1 || t > 4 {
        return Err(DeserializeError::UnsupportedLookupType(t));
    }
    let k = match read_u16_at(data, p + 4) {
        Some(v) => v,
        None => return Err(DeserializeError::Truncated),
    };
    let has_set = flags & 0x0010 != 0;
    let base = p + 6;
    let size: usize = 2 * (k as usize) + if has_set {
        2
    } else {
        0
    };
    let end = match pos_add(base, size) {
        Some(e) => e,
        None => return Err(DeserializeError::Truncated),
    };
    if end > len {
        return Err(DeserializeError::Truncated);
    }
    let mut subs: Vec<&'a [u8]> = Vec::new();
    let mut saw_null = false;
    let mut j: usize = 0;
    while j < k as usize
        invariant
            len == d.len(),
            d == data@,
            k == u16_at(d, p + 4),
            t == u16_at(d, p as int),
            flags == u16_at(d, p + 2),
            1 <= t <= 4,
            in_bounds(d, p as int, 4),
            in_bounds(d, p + 4, 2),
            base == p + 6,
            in_bounds(d, p + 6, 2 * k),
            in_bounds(d, p + 6, 2 * k + mark_filtering_set_size(flags)),
            has_set == uses_mark_filtering_set(flags),
            0 <= j <= k,
            !saw_null ==> tables_view(subs@) == Seq::new(j as nat, |m: int| subtable_bytes(d, p as int, m)),
            saw_null == exists|m: int| 0 <= m < j && #[trigger] subtable_null(d, p as int, m),
            forall|m: int| 0 <= m < j ==> !#[trigger] subtable_bad(d, p as int, m),
        decreases k - j,
    {
        let off = match read_u16_at(data, base + 2 * j) {
            Some(v) => v,
            None => return Err(DeserializeError::Truncated),
        };
        assert(off == subtable_offset(d, p as int, j as int));
        if off == 0 {
            assert(subtable_null(d, p as int, j as int));
            saw_null = true;
        } else {
            let q = match pos_add(p, off as usize) {
                Some(q) => q,
                None => {
                    proof {
                        lemma_subtable_extent_past_end(t, d, p + off);
                    }
                    assert(subtable_bad(d, p as int, j as int));
                    return Err(DeserializeError::BadTable);
                },
            };
            let ext = match subtable_extent_exec(t, data, q) {
                Some(e) => e,
                None => {
                    assert(subtable_bad(d, p as int, j as int));
                    return Err(DeserializeError::BadTable);
                },
            };
            let ghost old_subs = subs@;
            subs.push(slice_subrange(data, q, q + ext));
            proof {
                if !saw_null {
                    assert(tables_view(subs@) =~= tables_view(old_subs).push(subtable_bytes(d, p as int, j as int)));
                    assert(Seq::new((j + 1) as nat, |m: int| subtable_bytes(d, p as int, m)) =~= Seq::new(
                        j as nat,
                        |m: int| subtable_bytes(d, p as int, m),
                    ).push(subtable_bytes(d, p as int, j as int)));
                }
            }
        }
        assert(!subtable_bad(d, p as int, j as int));
        j += 1;
    }
    if saw_null {
        return Err(DeserializeError::NullSubtable);
    }
    let mark_filtering_set = if has_set {
        match read_u16_at(data, base + 2 * (k as usize)) {
            Some(v) => Some(v),
            None => return Err(DeserializeError::Truncated),
        }
    } else {
        None
    };
    let substitution = if t == 1 {
        Substitution::Single(subs)
    } else if t == 2 {
        Substitution::Multiple(subs)
    } else if t == 3 {
        Substitution::Alternate(subs)
    } else {
        Substitution::Ligature(subs)
    };
    let l = SubstLookup { flags, mark_filtering_set, substitution };
    assert(l@.subtables == tables_view(subs@));
    Ok(l)
}


/// Once reading the first `i` entries of a lookup list fails, reading more
/// entries fails the same way.
proof fn lemma_entries_err_stays(d: Seq<u8>, l: int, i: nat, m: nat)
    requires
        i <= m,
        lookup_entries(d, l, i) is Err,
    ensures
        lookup_entries(d, l, m) == lookup_entries(d, l, i),
    decreases m,
{
    if i < m {
        lemma_entries_err_stays(d, l, i, (m - 1) as nat);
    }
}

/// The outcome of reading a lookup list, in terms of models.
pub open spec fn lookup_list_result_view<'a>(r: Result<SubstLookupListIncoming<'a>, DeserializeError>) -> Result<Seq<Option<LookupModel>>, DeserializeError> {
    match r {
        Ok(x) => Ok(x@),
        Err(e) => Err(e),
    }
}

/// The lookup list at `l`, as `spec_lookup_list` describes it.
fn parse_lookup_list<'a>(data: &'a [u8], l: usize) -> (r: Result<SubstLookupListIncoming<'a>, DeserializeError>)
    ensures
        lookup_list_result_view(r) == spec_lookup_list(data@, l as int),
{
    let len = data.len();
    let ghost d = data@;
    let n = match read_u16_at(data, l) {
        Some(v) => v,
        None => return Err(DeserializeError::Truncated),
    };
    let mut entries: Vec<Option<SubstLookup<'a>>> = Vec::new();
    let mut i: usize = 0;
    assert(entries@.map_values(|x: Option<SubstLookup<'a>>| lookup_entry_view(x)) =~= Seq::empty());
    while i < n as usize
        invariant
            len == d.len(),
            entries@.len() == i,
            d == data@,
            n == u16_at(d, l as int),
            in_bounds(d, l as int, 2),
            0 <= i <= n,
            lookup_entries(d, l as int, i as nat) == Ok::<Seq<Option<LookupModel>>, DeserializeError>(
                entries@.map_values(|x: Option<SubstLookup<'a>>| lookup_entry_view(x)),
            ),
        decreases n - i,
    {
        let ghost before = entries@.map_values(|x: Option<SubstLookup<'a>>| lookup_entry_view(x));
        let q = l + 2 + 2 * i;
        let off = match read_u16_at(data, q) {
            Some(v) => v,
            None => {
                proof {
                    lemma_entries_err_stays(d, l as int, (i + 1) as nat, n as nat);
                }
                return Err(DeserializeError::Truncated);
            },
        };
        assert(off == lookup_offset(d, l as int, i as int));
        if off == 0 {
            entries.push(None);
        } else {
            let p = match pos_add(l, off as usize) {
                Some(p) => p,
                None => {
                    proof {
                        lemma_entries_err_stays(d, l as int, (i + 1) as nat, n as nat);
                    }
                    return Err(DeserializeError::Truncated);
                },
            };
            match parse_lookup(data, p) {
                Ok(x) => {
                    entries.push(Some(x));
                },
                Err(e) => {
                    proof {
                        lemma_entries_err_stays(d, l as int, (i + 1) as nat, n as nat);
                    }
                    return Err(e);
                },
            }
        }
        assert(entries@.map_values(|x: Option<SubstLookup<'a>>| lookup_entry_view(x)) =~= before.push(
            lookup_entry_view(entries@[i as int]),
        ));
        assert(lookup_entries(d, l as int, (i + 1) as nat) == Ok::<Seq<Option<LookupModel>>, DeserializeError>(
            before.push(lookup_entry_view(entries@[i as int])),
        ));
        i += 1;
    }
    Ok(SubstLookupListIncoming { lookups: entries })
}


/// The outcome of reading a GSUB header, in terms of models.
pub open spec fn core_result_view<'a>(r: Result<gsubcoreincoming<'a>, DeserializeError>) -> Result<CoreModel, DeserializeError> {
    match r {
        Ok(c) => Ok(c@),
        Err(e) => Err(e),
    }
}

/// The GSUB header and its children, as `spec_core` describes them.
fn parse_core<'a>(data: &'a [u8]) -> (r: Result<gsubcoreincoming<'a>, DeserializeError>)
    ensures
        core_result_view(r) == spec_core(data@),
{
    let len = data.len();
    let major = match read_u16_at(data, 0) {
        Some(v) => v,
        None => return Err(DeserializeError::Truncated),
    };
    let minor = match read_u16_at(data, 2) {
        Some(v) => v,
        None => return Err(DeserializeError::Truncated),
    };
    let s = match read_u16_at(data, 4) {
        Some(v) => v,
        None => return Err(DeserializeError::Truncated),
    };
    let script_len: usize = if s == 0 {
        0
    } else {
        match script_list_extent_exec(data, s as usize) {
            Some(e) => e,
            None => return Err(DeserializeError::BadTable),
        }
    };
    let f = match read_u16_at(data, 6) {
        Some(v) => v,
        None => return Err(DeserializeError::Truncated),
    };
    let l = match read_u16_at(data, 8) {
        Some(v) => v,
        None => return Err(DeserializeError::Truncated),
    };
    let scriptList = if s == 0 {
        None
    } else {
        Some(slice_subrange(data, s as usize, s as usize + script_len))
    };
    let featureList = if f == 0 {
        None
    } else {
        match parse_feature_list(data, f as usize) {
            Some(x) => Some(x),
            None => return Err(DeserializeError::Truncated),
        }
    };
    let lookupList = if l == 0 {
        None
    } else {
        match parse_lookup_list(data, l as usize) {
            Ok(x) => Some(x),
            Err(e) => return Err(e),
        }
    };
    Ok(gsubcoreincoming { majorVersion: major, minorVersion: minor, scriptList, featureList, lookupList })
}

/// The lookup indices of a feature table, as indices into the lookup list.
fn widen_indices(v: &Vec<u16>) -> (r: Vec<usize>)
    ensures
        r@ == v@.map_values(|x: u16| x as usize),
{
    let mut r: Vec<usize> = Vec::new();
    let mut j: usize = 0;
    while j < v.len()
        invariant
            0 <= j <= v@.len(),
            r@ == v@.take(j as int).map_values(|x: u16| x as usize),
        decreases v@.len() - j,
    {
        r.push(v[j] as usize);
        assert(v@.take(j + 1) =~= v@.take(j as int).push(v@[j as int]));
        assert(v@.take(j + 1).map_values(|x: u16| x as usize) =~= v@.take(j as int).map_values(
            |x: u16| x as usize,
        ).push(v@[j as int] as usize));
        j += 1;
    }
    assert(v@.take(v@.len() as int) =~= v@);
    r
}

impl<'a> gsubcoreincoming<'a> {
    /// Reads the GSUB header at the start of `data` and every table it points
    /// at, as `spec_core` describes them. A null child offset gives `None`.
    /// Inputs with a lookup of a type other than 1 to 4 are not accepted.
    pub fn from_bytes(data: &'a [u8]) -> (r: Result<gsubcoreincoming<'a>, DeserializeError>)
        requires
            !(spec_core(data@) matches Err(DeserializeError::UnsupportedLookupType(_))),
        ensures
            core_result_view(r) == spec_core(data@),
    {
        parse_core(data)
    }
}

impl<'a> SubstLookup<'a> {
    /// Reads the lookup at position `pos` of `data`, as `spec_lookup`
    /// describes it; its subtable offsets count from `pos`. Lookups of a type
    /// other than 1 to 4 are not accepted.
    pub fn from_bytes(data: &'a [u8], pos: usize) -> (r: Result<SubstLookup<'a>, DeserializeError>)
        requires
            !(spec_lookup(data@, pos as int) matches Err(DeserializeError::UnsupportedLookupType(_))),
        ensures
            lookup_result_view(r) == spec_lookup(data@, pos as int),
    {
        parse_lookup(data, pos)
    }
}

impl<'a> GSUB<'a> {
    /// Reads the GSUB table at the start of `data`, as `spec_parse_gsub`
    /// describes it. Where a lookup has a type other than 1 to 4 the result
    /// is `Err(UnsupportedLookupType(t))` with that type.
    #[verifier::loop_isolation(false)]
    pub fn try_from_bytes(data: &'a [u8]) -> (r: Result<GSUB<'a>, DeserializeError>)
        ensures
            gsub_result_view(r) == spec_parse_gsub(data@),
    {
        let ghost d = data@;
        let core = match parse_core(data) {
            Ok(c) => c,
            Err(e) => return Err(e),
        };
        let ghost cm = core@;
        if core.minorVersion == 1 {
            if read_u16_at(data, 10).is_none() {
                return Err(DeserializeError::Truncated);
            }
        }
        let gsubcoreincoming { majorVersion, minorVersion, scriptList, featureList, lookupList } = core;
        let scripts = match scriptList {
            Some(s) => s,
            None => return Err(DeserializeError::BadScriptList),
        };
        let mut entries = match lookupList {
            Some(x) => x.lookups,
            None => return Err(DeserializeError::BadLookupList),
        };
        let ghost orig = entries@;
        let ghost ll = cm.lookup_list.unwrap();
        assert(ll == orig.map_values(|x: Option<SubstLookup<'a>>| lookup_entry_view(x)));
        let n = entries.len();
        let mut i: usize = 0;
        while i < n
            invariant
                n == entries@.len(),
                entries@ == orig,
                ll == orig.map_values(|x: Option<SubstLookup<'a>>| lookup_entry_view(x)),
                0 <= i <= n,
                forall|k: int| 0 <= k < i ==> !#[trigger] entry_is_null(ll, k),
            decreases n - i,
        {
            if entries[i].is_none() {
                assert(entry_is_null(ll, i as int));
                return Err(DeserializeError::BadLookup);
            }
            assert(!entry_is_null(ll, i as int));
            i += 1;
        }
        assert forall|k: int| 0 <= k < n implies (#[trigger] orig[k]) is Some by {
            assert(!entry_is_null(ll, k));
        }
        let mut lookups: Vec<SubstLookup<'a>> = Vec::new();
        let mut i: usize = 0;
        while i < n
            invariant
                n == entries@.len(),
                n == orig.len(),
                0 <= i <= n,
                lookups@.len() == i,
                forall|k: int| i <= k < n ==> #[trigger] entries@[k] == orig[k],
                forall|k: int| 0 <= k < n ==> (#[trigger] orig[k]) is Some,
                forall|k: int| 0 <= k < i ==> Some(#[trigger] lookups@[k]) == orig[k],
            decreases n - i,
        {
            let mut slot: Option<SubstLookup<'a>> = None;
            entries.set_and_swap(i, &mut slot);
            match slot {
                Some(x) => lookups.push(x),
                None => {
                    assert(orig[i as int] is Some);
                    return Err(DeserializeError::BadLookup);
                },
            }
            i += 1;
        }
        assert(lookups@.map_values(|x: SubstLookup<'a>| x@) =~= ll.map_values(
            |x: Option<LookupModel>| x.unwrap(),
        ));
        let records = match featureList {
            Some(x) => x.featureRecords,
            None => return Err(DeserializeError::BadFeatureList),
        };
        let ghost fl = cm.feature_list.unwrap();
        assert(fl == records@.map_values(|r: FeatureRecord| r@));
        let m = records.len();
        let mut i: usize = 0;
        while i < m
            invariant
                m == records@.len(),
                fl == records@.map_values(|r: FeatureRecord| r@),
                0 <= i <= m,
                forall|k: int| 0 <= k < i ==> !#[trigger] record_is_null(fl, k),
            decreases m - i,
        {
            if records[i].feature.is_none() {
                assert(record_is_null(fl, i as int));
                return Err(DeserializeError::BadFeature);
            }
            assert(!record_is_null(fl, i as int));
            i += 1;
        }
        let mut features: Vec<(Tag, Vec<usize>, Option<FeatureParams<'a>>)> = Vec::new();
        let mut i: usize = 0;
        while i < m
            invariant
                m == records@.len(),
                fl == records@.map_values(|r: FeatureRecord| r@),
                forall|k: int| 0 <= k < m ==> !#[trigger] record_is_null(fl, k),
                0 <= i <= m,
                features@.len() == i,
                forall|k: int| 0 <= k < i ==> #[trigger] feature_view(features@[k]) == feature_of_record(fl[k]),
            decreases m - i,
        {
            let tag = records[i].featureTag;
            assert(!record_is_null(fl, i as int));
            let idx = match &records[i].feature {
                Some(t) => widen_indices(&t.lookupListIndices),
                None => return Err(DeserializeError::BadFeature),
            };
            features.push((tag, idx, None));
            i += 1;
        }
        let g = GSUB { lookups, scripts, features };
        assert(g@.features =~= fl.map_values(|r: FeatureRecordModel| feature_of_record(r)));
        Ok(g)
    }

    /// Reads the GSUB table at the start of `data`, as `spec_parse_gsub`
    /// describes it. Inputs with a lookup of a type other than 1 to 4 are not
    /// accepted.
    pub fn from_bytes(data: &'a [u8]) -> (r: Result<GSUB<'a>, DeserializeError>)
        requires
            !meets_unsupported_lookup(data@),
        ensures
            gsub_result_view(r) == spec_parse_gsub(data@),
    {
        Self::try_from_bytes(data)
    }
}

} // verus!
