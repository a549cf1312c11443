//! The GSUB table and the records it is made of, with their mathematical models.
//!
//! Tables whose layout belongs to other parts of OpenType layout (the script
//! list, lookup subtables and feature parameters) are held as their encoding:
//! a byte slice whose first byte is the first byte of the table.
use vstd::prelude::*;

verus! {

/// A four-byte OpenType tag.
pub type Tag = [u8; 4];

/// An encoded `ScriptList` table.
pub type ScriptList<'a> = &'a [u8];

/// An encoded single substitution subtable (lookup type 1).
pub type SingleSubst<'a> = &'a [u8];

/// An encoded multiple substitution subtable (lookup type 2).
pub type MultipleSubst<'a> = &'a [u8];

/// An encoded alternate substitution subtable (lookup type 3).
pub type AlternateSubst<'a> = &'a [u8];

/// An encoded ligature substitution subtable (lookup type 4).
pub type LigatureSubst<'a> = &'a [u8];

/// An encoded feature parameters table.
pub type FeatureParams<'a> = &'a [u8];

/// Model of a lookup: its type, flags, mark filtering set and encoded subtables.
pub struct LookupModel {
    pub lookup_type: u16,
    pub flags: u16,
    pub mark_filtering_set: Option<u16>,
    pub subtables: Seq<Seq<u8>>,
}

/// Model of a feature: its tag, the lookup indices it uses and its parameters.
pub struct FeatureModel {
    pub tag: Seq<u8>,
    pub lookup_indices: Seq<usize>,
    pub params: Option<Seq<u8>>,
}

/// Model of a GSUB table.
pub struct GsubModel {
    pub lookups: Seq<LookupModel>,
    pub scripts: Seq<u8>,
    pub features: Seq<FeatureModel>,
}

/// Model of a feature table: its feature parameters offset and lookup indices.
pub struct FeatureTableModel {
    pub params_offset: u16,
    pub indices: Seq<u16>,
}

/// Model of a feature record; `table` is `None` for a null offset.
pub struct FeatureRecordModel {
    pub tag: Seq<u8>,
    pub table: Option<FeatureTableModel>,
}

/// Model of the GSUB header as read, each child `None` for a null offset.
pub struct CoreModel {
    pub major: u16,
    pub minor: u16,
    pub script_list: Option<Seq<u8>>,
    pub feature_list: Option<Seq<FeatureRecordModel>>,
    pub lookup_list: Option<Seq<Option<LookupModel>>>,
}

/// Model of the GSUB header as written, with its three child tables.
pub struct CoreOutModel {
    pub major: u16,
    pub minor: u16,
    pub scripts: Seq<u8>,
    pub features: Seq<FeatureRecordModel>,
    pub lookups: Seq<LookupModel>,
}

/// The contents of a list of encoded tables.
pub open spec fn tables_view<'a>(v: Seq<&'a [u8]>) -> Seq<Seq<u8>> {
    v.map_values(|t: &'a [u8]| t@)
}

/// A container which represents a generic substitution rule.
///
/// Each rule is expressed as a vector of subtables.
#[derive(Debug, PartialEq, Clone)]
pub enum Substitution<'a> {
    /// Contains a single substitution rule.
    Single(Vec<SingleSubst<'a>>),
    /// Contains a multiple substitution rule.
    Multiple(Vec<MultipleSubst<'a>>),
    /// Contains an alternate substitution rule.
    Alternate(Vec<AlternateSubst<'a>>),
    /// Contains a ligature substitution rule.
    Ligature(Vec<LigatureSubst<'a>>),
    /// Contains a contextual substitution rule.
    Contextual,
    /// Contains a chained contextual substitution rule.
    ChainedContextual,
    /// Contains an extension subtable.
    Extension,
    /// Contains a reverse chaining single substitution rule.
    ReverseChaining,
}

impl<'a> Substitution<'a> {
    /// The OpenType lookup type of this kind of substitution.
    pub open spec fn spec_lookup_type(&self) -> u16 {
        match self {
            Substitution::Single(_) => 1,
            Substitution::Multiple(_) => 2,
            Substitution::Alternate(_) => 3,
            Substitution::Ligature(_) => 4,
            Substitution::Contextual => 5,
            Substitution::ChainedContextual => 6,
            Substitution::Extension => 7,
            Substitution::ReverseChaining => 8,
        }
    }

    /// The encoded subtables held (none for the kinds without subtables).
    pub open spec fn spec_subtables(&self) -> Seq<Seq<u8>> {
        match self {
            Substitution::Single(v) => tables_view(v@),
            Substitution::Multiple(v) => tables_view(v@),
            Substitution::Alternate(v) => tables_view(v@),
            Substitution::Ligature(v) => tables_view(v@),
            _ => Seq::empty(),
        }
    }
}

/// A general substitution lookup rule, of whatever type
#[derive(Debug, PartialEq, Clone)]
pub struct SubstLookup<'a> {
    /// Lookup flags
    pub flags: u16,
    /// The mark filtering set index in the `GDEF` table.
    pub mark_filtering_set: Option<u16>,
    /// The concrete substitution rule.
    pub substitution: Substitution<'a>,
}

impl<'a> View for SubstLookup<'a> {
    type V = LookupModel;

    open spec fn view(&self) -> LookupModel {
        LookupModel {
            lookup_type: self.substitution.spec_lookup_type(),
            flags: self.flags,
            mark_filtering_set: self.mark_filtering_set,
            subtables: self.substitution.spec_subtables(),
        }
    }
}

impl<'a> SubstLookup<'a> {
    /// The OpenType lookup type of this lookup: 1 for single, 2 for multiple,
    /// 3 for alternate, 4 for ligature, 5 for contextual, 6 for chained
    /// contextual, 7 for extension and 8 for reverse chaining substitution.
    pub fn lookup_type(&self) -> (t: u16)
        ensures
            t == self.substitution.spec_lookup_type(),
            1 <= t <= 8,
    {
        match self.substitution {
            Substitution::Single(_) => 1,
            Substitution::Multiple(_) => 2,
            Substitution::Alternate(_) => 3,
            Substitution::Ligature(_) => 4,
            Substitution::Contextual => 5,
            Substitution::ChainedContextual => 6,
            Substitution::Extension => 7,
            Substitution::ReverseChaining => 8,
        }
    }
}

/// The model of one entry of `GSUB::features`.
pub open spec fn feature_view<'a>(f: (Tag, Vec<usize>, Option<FeatureParams<'a>>)) -> FeatureModel {
    FeatureModel {
        tag: f.0@,
        lookup_indices: f.1@,
        params: match f.2 {
            Some(p) => Some(p@),
            None => None,
        },
    }
}

/// The Glyph Substitution table
#[derive(Debug, PartialEq, Clone)]
pub struct GSUB<'a> {
    /// A list of substitution lookups
    pub lookups: Vec<SubstLookup<'a>>,
    /// A mapping between script tags and `Script` tables, encoded.
    pub scripts: ScriptList<'a>,
    /// The association between feature tags and the list of indices into the
    /// lookup table used to process this feature, together with any feature parameters.
    pub features: Vec<(Tag, Vec<usize>, Option<FeatureParams<'a>>)>,
}

impl<'a> View for GSUB<'a> {
    type V = GsubModel;

    open spec fn view(&self) -> GsubModel {
        GsubModel {
            lookups: self.lookups@.map_values(|l: SubstLookup<'a>| l@),
            scripts: self.scripts@,
            features: self.features@.map_values(
                |f: (Tag, Vec<usize>, Option<FeatureParams<'a>>)| feature_view(f),
            ),
        }
    }
}

/// A feature table: its feature parameters offset and the indices of the
/// lookups of its feature.
#[derive(Debug, Clone)]
pub struct FeatureTable {
    pub featureParamsOffset: u16,
    pub lookupListIndices: Vec<u16>,
}

impl View for FeatureTable {
    type V = FeatureTableModel;

    open spec fn view(&self) -> FeatureTableModel {
        FeatureTableModel { params_offset: self.featureParamsOffset, indices: self.lookupListIndices@ }
    }
}

/// A feature record: a tag and its feature table (`None` for a null offset).
#[derive(Debug, Clone)]
pub struct FeatureRecord {
    pub featureTag: Tag,
    pub feature: Option<FeatureTable>,
}

impl View for FeatureRecord {
    type V = FeatureRecordModel;

    open spec fn view(&self) -> FeatureRecordModel {
        FeatureRecordModel {
            tag: self.featureTag@,
            table: match self.feature {
                Some(t) => Some(t@),
                None => None,
            },
        }
    }
}

/// A feature list: its feature records in order.
#[derive(Debug, Clone)]
pub struct FeatureList {
    pub featureRecords: Vec<FeatureRecord>,
}

impl View for FeatureList {
    type V = Seq<FeatureRecordModel>;

    open spec fn view(&self) -> Seq<FeatureRecordModel> {
        self.featureRecords@.map_values(|r: FeatureRecord| r@)
    }
}

/// The lookup list as read: one entry per lookup offset, `None` for a null one.
#[derive(Debug, Clone)]
pub struct SubstLookupListIncoming<'a> {
    pub lookups: Vec<Option<SubstLookup<'a>>>,
}

/// The model of one entry of the lookup list as read.
pub open spec fn lookup_entry_view<'a>(l: Option<SubstLookup<'a>>) -> Option<LookupModel> {
    match l {
        Some(x) => Some(x@),
        None => None,
    }
}

impl<'a> View for SubstLookupListIncoming<'a> {
    type V = Seq<Option<LookupModel>>;

    open spec fn view(&self) -> Seq<Option<LookupModel>> {
        self.lookups@.map_values(|l: Option<SubstLookup<'a>>| lookup_entry_view(l))
    }
}

/// The GSUB header as read, each child table `None` for a null offset.
#[derive(Debug, Clone)]
pub struct gsubcoreincoming<'a> {
    pub majorVersion: u16,
    pub minorVersion: u16,
    pub scriptList: Option<ScriptList<'a>>,
    pub featureList: Option<FeatureList>,
    pub lookupList: Option<SubstLookupListIncoming<'a>>,
}

impl<'a> View for gsubcoreincoming<'a> {
    type V = CoreModel;

    open spec fn view(&self) -> CoreModel {
        CoreModel {
            major: self.majorVersion,
            minor: self.minorVersion,
            script_list: match self.scriptList {
                Some(s) => Some(s@),
                None => None,
            },
            feature_list: match self.featureList {
                Some(f) => Some(f@),
                None => None,
            },
            lookup_list: match self.lookupList {
                Some(l) => Some(l@),
                None => None,
            },
        }
    }
}

/// A lookup as written: its type, flags, encoded subtables and mark filtering set.
#[derive(Debug)]
pub struct LookupInternal<'a> {
    pub lookupType: u16,
    pub flags: u16,
    pub subtables: Vec<&'a [u8]>,
    pub mark_filtering_set: Option<u16>,
}

impl<'a> View for LookupInternal<'a> {
    type V = LookupModel;

    open spec fn view(&self) -> LookupModel {
        LookupModel {
            lookup_type: self.lookupType,
            flags: self.flags,
            mark_filtering_set: self.mark_filtering_set,
            subtables: tables_view(self.subtables@),
        }
    }
}

/// The lookup list as written.
#[derive(Debug)]
pub struct SubstLookupListOutgoing<'a> {
    pub lookups: Vec<LookupInternal<'a>>,
}

impl<'a> View for SubstLookupListOutgoing<'a> {
    type V = Seq<LookupModel>;

    open spec fn view(&self) -> Seq<LookupModel> {
        self.lookups@.map_values(|l: LookupInternal<'a>| l@)
    }
}

/// The GSUB header as written, with its three child tables.
#[derive(Debug)]
pub struct gsubcoreoutgoing<'a> {
    pub majorVersion: u16,
    pub minorVersion: u16,
    pub scriptList: ScriptList<'a>,
    pub featureList: FeatureList,
    pub lookupList: SubstLookupListOutgoing<'a>,
}

impl<'a> View for gsubcoreoutgoing<'a> {
    type V = CoreOutModel;

    open spec fn view(&self) -> CoreOutModel {
        CoreOutModel {
            major: self.majorVersion,
            minor: self.minorVersion,
            scripts: self.scriptList@,
            features: self.featureList@,
            lookups: self.lookupList@,
        }
    }
}

} // verus!
