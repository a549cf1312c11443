use gsub::error::{DeserializeError, SerializeError};
use gsub::table::{
    gsubcoreincoming, gsubcoreoutgoing, LookupInternal, SubstLookup, SubstLookupListOutgoing,
    Substitution, GSUB,
};

/// Header with the given version and offsets.
fn header(minor: u16, s: u16, f: u16, l: u16) -> Vec<u8> {
    let mut v = vec![0x00, 0x01];
    for x in [minor, s, f, l] {
        v.extend_from_slice(&x.to_be_bytes());
    }
    v
}

/// A table with an empty script list, feature list and lookup list.
fn empty_table() -> Vec<u8> {
    let mut v = header(0, 10, 12, 14);
    v.extend_from_slice(&[0, 0, 0, 0, 0, 0]);
    v
}

fn single(subs: Vec<&[u8]>) -> SubstLookup<'_> {
    SubstLookup { flags: 0, mark_filtering_set: None, substitution: Substitution::Single(subs) }
}

#[test]
fn lookup_type_of_each_kind() {
    let kinds = vec![
        Substitution::Single(vec![]),
        Substitution::Multiple(vec![]),
        Substitution::Alternate(vec![]),
        Substitution::Ligature(vec![]),
        Substitution::Contextual,
        Substitution::ChainedContextual,
        Substitution::Extension,
        Substitution::ReverseChaining,
    ];
    for (i, k) in kinds.into_iter().enumerate() {
        let l = SubstLookup { flags: 0, mark_filtering_set: None, substitution: k };
        assert_eq!(l.lookup_type() as usize, i + 1);
    }
}

#[test]
fn empty_table_reads() {
    let data = empty_table();
    let g = GSUB::from_bytes(&data).unwrap();
    assert!(g.lookups.is_empty());
    assert!(g.features.is_empty());
    assert_eq!(g.scripts, &data[10..12]);
}

#[test]
fn short_header_is_truncated() {
    let data = empty_table();
    assert_eq!(GSUB::from_bytes(&[]).unwrap_err(), DeserializeError::Truncated);
    let data = header(0, 0, 0, 0);
    assert_eq!(GSUB::from_bytes(&data[..9]).unwrap_err(), DeserializeError::Truncated);
    // The script list is followed first: at offset 10 of nine bytes it is
    // not there.
    let data = empty_table();
    assert_eq!(GSUB::from_bytes(&data[..9]).unwrap_err(), DeserializeError::BadTable);
}

#[test]
fn minor_version_one_needs_feature_variations_offset() {
    let mut data = header(1, 0, 0, 0);
    assert_eq!(GSUB::from_bytes(&data).unwrap_err(), DeserializeError::Truncated);
    data.extend_from_slice(&[0, 0]);
    assert_eq!(GSUB::from_bytes(&data).unwrap_err(), DeserializeError::BadScriptList);
}

#[test]
fn null_offsets_are_refused_in_order() {
    let mut data = header(0, 0, 0, 0);
    data.extend_from_slice(&[0, 0, 0, 0, 0, 0]);
    assert_eq!(GSUB::from_bytes(&data).unwrap_err(), DeserializeError::BadScriptList);
    let mut data = header(0, 10, 0, 0);
    data.extend_from_slice(&[0, 0, 0, 0, 0, 0]);
    assert_eq!(GSUB::from_bytes(&data).unwrap_err(), DeserializeError::BadLookupList);
    let mut data = header(0, 10, 0, 12);
    data.extend_from_slice(&[0, 0, 0, 0, 0, 0]);
    assert_eq!(GSUB::from_bytes(&data).unwrap_err(), DeserializeError::BadFeatureList);
    // A lookup list with one null lookup offset.
    let mut data = header(0, 10, 12, 14);
    data.extend_from_slice(&[0, 0, 0, 0, 0, 1, 0, 0]);
    assert_eq!(GSUB::from_bytes(&data).unwrap_err(), DeserializeError::BadLookup);
    // A feature list with one record whose table offset is null.
    let mut data = header(0, 10, 12, 20);
    data.extend_from_slice(&[0, 0, 0, 1, b'l', b'i', b'g', b'a', 0, 0, 0, 0]);
    assert_eq!(GSUB::from_bytes(&data).unwrap_err(), DeserializeError::BadFeature);
}

#[test]
fn offsets_past_the_end_are_truncated() {
    // The script list offset points past the data.
    let mut data = header(0, 200, 12, 14);
    data.extend_from_slice(&[0, 0, 0, 0, 0, 0]);
    assert_eq!(GSUB::from_bytes(&data).unwrap_err(), DeserializeError::BadTable);
    // The feature list announces one record but has none.
    let mut data = header(0, 10, 12, 14);
    data.extend_from_slice(&[0, 0, 0, 1, 0, 0]);
    assert_eq!(GSUB::from_bytes(&data).unwrap_err(), DeserializeError::Truncated);
}

#[test]
fn null_subtable_is_refused() {
    // Lookup list at 14 with one lookup at 14 + 4 = 18 of type 1 and one null subtable.
    let mut data = header(0, 10, 12, 14);
    data.extend_from_slice(&[0, 0, 0, 0, 0, 1, 0, 4, 0, 1, 0, 0, 0, 1, 0, 0]);
    assert_eq!(GSUB::from_bytes(&data).unwrap_err(), DeserializeError::NullSubtable);
}

#[test]
fn unsupported_lookup_type_is_reported() {
    let mut data = header(0, 10, 12, 14);
    data.extend_from_slice(&[0, 0, 0, 0, 0, 1, 0, 4, 0, 5, 0, 0, 0, 0]);
    assert_eq!(
        GSUB::try_from_bytes(&data).unwrap_err(),
        DeserializeError::UnsupportedLookupType(5)
    );
}

#[test]
fn header_and_lookup_read_alone() {
    let mut data = header(0, 10, 12, 14);
    // scripts, empty feature list, lookup list with one lookup at 18:
    // type 4, flags 8, one subtable at 18 + 8 = 26, then two more bytes.
    data.extend_from_slice(&[0, 0, 0, 0, 0, 1, 0, 4, 0, 4, 0, 8, 0, 1, 0, 8]);
    // Ligature substitution 66 68 => 67: coverage of glyph 66 at 8, one
    // ligature set at 14 holding one ligature at 14 + 4.
    let lig: Vec<u8> = vec![
        0, 1, 0, 8, 0, 1, 0, 14, 0, 1, 0, 1, 0, 0x42, 0, 1, 0, 4, 0, 0x43, 0, 2, 0, 0x44,
    ];
    data.extend_from_slice(&lig);
    data.extend_from_slice(&[0xab, 0xcd]);
    let core = gsubcoreincoming::from_bytes(&data).unwrap();
    assert_eq!(core.majorVersion, 1);
    assert_eq!(core.minorVersion, 0);
    assert_eq!(core.scriptList, Some(&data[10..12]));
    assert_eq!(core.featureList.unwrap().featureRecords.len(), 0);
    let lookups = core.lookupList.unwrap().lookups;
    assert_eq!(lookups.len(), 1);
    let l = SubstLookup::from_bytes(&data, 18).unwrap();
    assert_eq!(lookups[0], Some(l.clone()));
    assert_eq!(l.flags, 8);
    assert_eq!(l.mark_filtering_set, None);
    assert_eq!(l.substitution, Substitution::Ligature(vec![&data[26..50]]));
    assert_eq!(&data[26..50], lig.as_slice());
}

#[test]
fn write_then_read_back() {
    let scripts: Vec<u8> = vec![0, 0];
    // Format 1, delta 1, coverage of glyph 66.
    let a: Vec<u8> = vec![0, 1, 0, 6, 0, 1, 0, 1, 0, 1, 0, 0x42];
    // Format 2, coverage at 8 of glyph 68, substitute 67.
    let b: Vec<u8> = vec![0, 2, 0, 8, 0, 1, 0, 0x43, 0, 1, 0, 1, 0, 0x44];
    // Format 1, delta -1, coverage of glyphs 16 to 32 as one range.
    let c: Vec<u8> = vec![0, 1, 0, 6, 0xff, 0xff, 0, 2, 0, 1, 0, 0x10, 0, 0x20, 0, 0];
    let g = GSUB {
        lookups: vec![
            single(vec![a.as_slice(), b.as_slice()]),
            SubstLookup {
                flags: 0x0010,
                mark_filtering_set: Some(7),
                substitution: Substitution::Single(vec![c.as_slice()]),
            },
        ],
        scripts: scripts.as_slice(),
        features: vec![(*b"sing", vec![0, 1], None), (*b"test", vec![1], None)],
    };
    let mut out = vec![0xee];
    g.to_bytes(&mut out).unwrap();
    assert_eq!(out[0], 0xee);
    let bytes = &out[1..];
    assert_eq!(&bytes[..4], &[0, 1, 0, 0]);
    let r = GSUB::from_bytes(bytes).unwrap();
    assert_eq!(r, g);
    assert_eq!(r.lookups[1].mark_filtering_set, Some(7));
}

#[test]
fn feature_parameters_are_not_written() {
    let scripts: Vec<u8> = vec![0, 0];
    let params: Vec<u8> = vec![1, 2, 3];
    let g = GSUB {
        lookups: vec![],
        scripts: scripts.as_slice(),
        features: vec![(*b"ss01", vec![], Some(params.as_slice()))],
    };
    let mut out = vec![];
    g.to_bytes(&mut out).unwrap();
    let r = GSUB::from_bytes(&out).unwrap();
    assert_eq!(r.features, vec![(*b"ss01", vec![], None)]);
}

#[test]
fn mark_filtering_set_is_read_after_offsets() {
    // Type 1, flags 0x0010, one subtable at 10, mark filtering set 7.
    let data: Vec<u8> = vec![
        0, 1, 0, 0x10, 0, 1, 0, 10, 0, 7, 0, 1, 0, 6, 0, 1, 0, 1, 0, 1, 0, 0x42,
    ];
    let l = SubstLookup::from_bytes(&data, 0).unwrap();
    assert_eq!(l.flags, 0x0010);
    assert_eq!(l.mark_filtering_set, Some(7));
    assert_eq!(l.substitution, Substitution::Single(vec![&data[10..]]));
    // Without the flag the same bytes have no mark filtering set.
    let mut plain = data.clone();
    plain[3] = 0;
    let l = SubstLookup::from_bytes(&plain, 0).unwrap();
    assert_eq!(l.mark_filtering_set, None);
    // With the flag but no room for the field.
    let short: Vec<u8> = vec![0, 1, 0, 0x10, 0, 1, 0, 8];
    assert_eq!(SubstLookup::from_bytes(&short, 0).unwrap_err(), DeserializeError::Truncated);
}

#[test]
fn malformed_child_tables_are_refused() {
    // A single substitution subtable whose coverage has format 3.
    let data: Vec<u8> = vec![0, 1, 0, 0, 0, 1, 0, 8, 0, 1, 0, 6, 0, 1, 0, 3, 0, 1, 0, 0x42];
    assert_eq!(SubstLookup::from_bytes(&data, 0).unwrap_err(), DeserializeError::BadTable);
    // A subtable whose coverage offset is null.
    let data: Vec<u8> = vec![0, 1, 0, 0, 0, 1, 0, 8, 0, 1, 0, 0, 0, 1];
    assert_eq!(SubstLookup::from_bytes(&data, 0).unwrap_err(), DeserializeError::BadTable);
    // A multiple substitution subtable of format 2.
    let data: Vec<u8> = vec![0, 2, 0, 0, 0, 1, 0, 8, 0, 2, 0, 6, 0, 0, 0, 1, 0, 1, 0, 0x42];
    assert_eq!(SubstLookup::from_bytes(&data, 0).unwrap_err(), DeserializeError::BadTable);
    // A script list announcing one script record that is not there.
    let mut data = header(0, 10, 12, 14);
    data.extend_from_slice(&[0, 1, 0, 0, 0, 0]);
    assert_eq!(GSUB::from_bytes(&data).unwrap_err(), DeserializeError::BadTable);
}

#[test]
fn lookup_with_mark_filtering_set_is_written_after_offsets() {
    let s: Vec<u8> = vec![9, 9];
    let l = SubstLookup {
        flags: 0x0010,
        mark_filtering_set: Some(3),
        substitution: Substitution::Single(vec![s.as_slice()]),
    };
    let li = LookupInternal::from_lookup(&l);
    assert_eq!(li.lookupType, 1);
    assert_eq!(li.ot_binary_size(), 10);
    let mut shallow = vec![];
    li.to_bytes_shallow(&mut shallow).unwrap();
    assert_eq!(shallow, vec![0, 1, 0, 0x10, 0, 1, 0, 10, 0, 3]);
    let mut full = vec![];
    li.to_bytes(&mut full).unwrap();
    assert_eq!(full, vec![0, 1, 0, 0x10, 0, 1, 0, 10, 0, 3, 9, 9]);
    let plain = LookupInternal::from_lookup(&single(vec![s.as_slice()]));
    assert_eq!(plain.ot_binary_size(), 8);
}

#[test]
fn lookup_list_is_written_depth_first() {
    let s1: Vec<u8> = vec![1, 1, 1];
    let s2: Vec<u8> = vec![2, 2];
    let lookups = vec![single(vec![s1.as_slice()]), single(vec![s2.as_slice()])];
    let list = SubstLookupListOutgoing::from_lookups(&lookups);
    assert_eq!(list.ot_binary_size(), 6);
    let mut shallow = vec![];
    list.to_bytes_shallow(&mut shallow).unwrap();
    // First lookup at 6 (8 bytes and a 3-byte subtable), second at 6 + 11 = 17.
    assert_eq!(shallow, vec![0, 2, 0, 6, 0, 17]);
    let mut full = vec![];
    list.to_bytes(&mut full).unwrap();
    assert_eq!(
        full,
        vec![0, 2, 0, 6, 0, 17, 0, 1, 0, 0, 0, 1, 0, 8, 1, 1, 1, 0, 1, 0, 0, 0, 1, 0, 8, 2, 2]
    );
}

#[test]
fn feature_indices_are_written_as_uint16() {
    let scripts: Vec<u8> = vec![0, 0];
    let g = GSUB { lookups: vec![], scripts: scripts.as_slice(), features: vec![(*b"abcd", vec![65537], None)] };
    let core = gsubcoreoutgoing::from_gsub(&g);
    assert_eq!(core.majorVersion, 1);
    assert_eq!(core.minorVersion, 0);
    let t = core.featureList.featureRecords[0].feature.as_ref().unwrap();
    assert_eq!(t.featureParamsOffset, 0);
    assert_eq!(t.lookupListIndices, vec![1]);
    let mut out = vec![];
    g.to_bytes(&mut out).unwrap();
    let r = GSUB::from_bytes(&out).unwrap();
    assert_eq!(r.features, vec![(*b"abcd", vec![1], None)]);
}

#[test]
fn oversized_script_list_overflows_offsets() {
    let scripts: Vec<u8> = vec![0; 70000];
    let g = GSUB { lookups: vec![], scripts: scripts.as_slice(), features: vec![] };
    let mut out = vec![1, 2, 3];
    assert_eq!(g.to_bytes(&mut out).unwrap_err(), SerializeError::OffsetOverflow);
    assert_eq!(out, vec![1, 2, 3]);
}

#[test]
fn oversized_subtables_overflow_offsets() {
    let big: Vec<u8> = vec![0; 70000];
    let small: Vec<u8> = vec![1];
    let l = single(vec![big.as_slice(), small.as_slice()]);
    let li = LookupInternal::from_lookup(&l);
    let mut out = vec![];
    assert_eq!(li.to_bytes(&mut out).unwrap_err(), SerializeError::OffsetOverflow);
    assert!(out.is_empty());
}
