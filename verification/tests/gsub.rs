use gsub::error::{DeserializeError, SerializeError};
use gsub::table::{SubstLookup, Substitution, GSUB};

fn simple_gsub_bytes() -> Vec<u8> {
    /* languagesystem DFLT dflt;
       lookup ssf1 { sub a by b; sub c by d; } ssf1;
       lookup ssf2 { sub A by a; sub B by a; sub C by a; } ssf2;
       lookup mult { sub i by f i; sub l by f l; } mult;
       lookup aalt {sub a from [b c d]; } aalt;

       feature sing { lookup ssf1; lookup ssf2; } sing;
       feature mult { lookup mult; } mult;
       feature alte { lookup aalt; } alte;
    */
    vec![
        0x00, 0x01, 0x00, 0x00, 0x00, 0x0a, 0x00, 0x24, 0x00, 0x58, 0x00, 0x01, 0x44, 0x46,
        0x4c, 0x54, 0x00, 0x08, 0x00, 0x04, 0x00, 0x00, 0x00, 0x00, 0xff, 0xff, 0x00, 0x04,
        0x00, 0x00, 0x00, 0x01, 0x00, 0x02, 0x00, 0x03, 0x00, 0x04, 0x61, 0x6c, 0x74, 0x65,
        0x00, 0x1a, 0x6c, 0x69, 0x67, 0x61, 0x00, 0x20, 0x6d, 0x75, 0x6c, 0x74, 0x00, 0x26,
        0x73, 0x69, 0x6e, 0x67, 0x00, 0x2c, 0x00, 0x00, 0x00, 0x01, 0x00, 0x03, 0x00, 0x00,
        0x00, 0x01, 0x00, 0x04, 0x00, 0x00, 0x00, 0x01, 0x00, 0x02, 0x00, 0x00, 0x00, 0x02,
        0x00, 0x00, 0x00, 0x01, 0x00, 0x05, 0x00, 0x0c, 0x00, 0x22, 0x00, 0x40, 0x00, 0x66,
        0x00, 0x7e, 0x00, 0x01, 0x00, 0x00, 0x00, 0x01, 0x00, 0x08, 0x00, 0x01, 0x00, 0x06,
        0x00, 0x01, 0x00, 0x01, 0x00, 0x02, 0x00, 0x42, 0x00, 0x44, 0x00, 0x01, 0x00, 0x00,
        0x00, 0x01, 0x00, 0x08, 0x00, 0x02, 0x00, 0x0c, 0x00, 0x03, 0x00, 0x42, 0x00, 0x42,
        0x00, 0x42, 0x00, 0x01, 0x00, 0x03, 0x00, 0x22, 0x00, 0x23, 0x00, 0x24, 0x00, 0x02,
        0x00, 0x00, 0x00, 0x01, 0x00, 0x08, 0x00, 0x01, 0x00, 0x0a, 0x00, 0x02, 0x00, 0x12,
        0x00, 0x18, 0x00, 0x01, 0x00, 0x02, 0x00, 0x4a, 0x00, 0x4d, 0x00, 0x02, 0x00, 0x47,
        0x00, 0x4a, 0x00, 0x02, 0x00, 0x47, 0x00, 0x4d, 0x00, 0x03, 0x00, 0x00, 0x00, 0x01,
        0x00, 0x08, 0x00, 0x01, 0x00, 0x2a, 0x00, 0x01, 0x00, 0x08, 0x00, 0x03, 0x00, 0x43,
        0x00, 0x44, 0x00, 0x45, 0x00, 0x04, 0x00, 0x00, 0x00, 0x01, 0x00, 0x08, 0x00, 0x01,
        0x00, 0x12, 0x00, 0x01, 0x00, 0x08, 0x00, 0x01, 0x00, 0x04, 0x00, 0x44, 0x00, 0x02,
        0x00, 0x43, 0x00, 0x01, 0x00, 0x01, 0x00, 0x42,
    ]
}

#[test]
fn test_simple_gsub_de() {
    let binary_gsub = simple_gsub_bytes();
    let b = binary_gsub.as_slice();
    // Each subtable is read as its own bytes: the single substitution
    // subtables with their coverage of glyphs 66 and 68 (ssf1) and 34, 35, 36
    // (ssf2), the multiple one with its coverage and two sequences, the
    // alternate one up to the coverage it shares with the ligature one.
    let expected = GSUB {
        lookups: vec![
            SubstLookup {
                flags: 0,
                mark_filtering_set: None,
                substitution: Substitution::Single(vec![&b[0x6c..0x7a]]),
            },
            SubstLookup {
                flags: 0,
                mark_filtering_set: None,
                substitution: Substitution::Single(vec![&b[0x82..0x98]]),
            },
            SubstLookup {
                flags: 0,
                mark_filtering_set: None,
                substitution: Substitution::Multiple(vec![&b[0xa0..0xbe]]),
            },
            SubstLookup {
                flags: 0,
                mark_filtering_set: None,
                substitution: Substitution::Alternate(vec![&b[0xc6..0xf6]]),
            },
            SubstLookup {
                flags: 0,
                mark_filtering_set: None,
                substitution: Substitution::Ligature(vec![&b[0xde..0xf6]]),
            },
        ],
        scripts: &b[0x0a..0x24],
        features: vec![
            (*b"alte", vec![3], None),
            (*b"liga", vec![4], None),
            (*b"mult", vec![2], None),
            (*b"sing", vec![0, 1], None),
        ],
    };
    let deserialized: GSUB = GSUB::from_bytes(b).unwrap();
    assert_eq!(deserialized, expected);
    // The script list holds one script, DFLT, whose default language system
    // uses features 0, 1, 2 and 3.
    assert_eq!(&deserialized.scripts[..6], &[0x00, 0x01, 0x44, 0x46, 0x4c, 0x54]);
    assert_eq!(&deserialized.scripts[14..], &b[0x18..0x24]);
}

#[test]
fn test_very_simple_gsub_ser() {
    // The DFLT script with a default language system using feature 0.
    let script_list: Vec<u8> = vec![
        0x00, 0x01, 0x44, 0x46, 0x4c, 0x54, 0x00, 0x08, 0x00, 0x04, 0x00, 0x00, 0x00, 0x00, 0xff,
        0xff, 0x00, 0x01, 0x00, 0x00,
    ];
    // Single substitution 386 => 459: format 1, delta 73, coverage of glyph 386.
    let single_subst: Vec<u8> = vec![0x00, 0x01, 0x00, 0x06, 0x00, 0x49, 0x00, 0x01, 0x00, 0x01, 0x01, 0x82];
    let gsub = GSUB {
        lookups: vec![SubstLookup {
            flags: 0,
            mark_filtering_set: None,
            substitution: Substitution::Single(vec![single_subst.as_slice()]),
        }],
        scripts: script_list.as_slice(),
        features: vec![(*b"liga", vec![0], None)],
    };

    let mut serialized = vec![];
    gsub.to_bytes(&mut serialized).unwrap();

    assert_eq!(
        serialized,
        vec![
            /* 00 */ 0x00, 0x01, 0x00, 0x00, // version 1.0
            /* 04 */ 0x00, 0x0a, // offset to script list
            /* 06 */ 0x00, 0x1e, // offset to feature list
            /* 08 */ 0x00, 0x2c, // offset to lookup list
            /* 0a */ 0x00, 0x01, // ScriptList: script count
            /* 0c */ 0x44, 0x46, 0x4c, 0x54, // script tag
            /* 10 */ 0x00, 0x08, // script table offset: 0x08 + 0x0a = 0x12
            /* 12 */ 0x00,
            0x04, // ScriptTable: default langsys offset = 0x12 + 0x14 = 0x16
            /* 14 */ 0x00, 0x00, // langsys count
            /* 16 */ 0x00, 0x00, // LangSys table: lookupOrderOffset
            /* 18 */ 0xff, 0xff, // required feature index
            /* 1a */ 0x00, 0x01, // feature index count
            /* 1c */ 0x00, 0x00, // feature index = 0
            /* 1e */ 0x00, 0x01, // Feature list: Feature count = 1
            /* 20 */ 0x6c, 0x69, 0x67, 0x61, // Tag: liga
            /* 24 */ 0x00, 0x08, // Offset 1e + 08 = 26
            /* 26 */ 0x00, 0x00, // Feature table; featureParamsOffset
            /* 28 */ 0x00, 0x01, // lookupIndexCount
            /* 2a */ 0x00, 0x00, // lookup index = 0
            /* 2c */ 0x00, 0x01, // Lookup list: lookupCount = 1
            /* 2e */ 0x00, 0x04, // Offset to first lookup = 2c+04 = 30
            /* 30 */ 0x00, 0x01, // Lookup table Lookup type
            /* 32 */ 0x00, 0x00, // lookup flag
            /* 34 */ 0x00, 0x01, // subtable count
            /* 36 */ 0x00, 0x08, // subtable offset 30 + 08 = 38
            0x00, 0x01, 0x00, 0x06, 0x00, 0x49, 0x00, 0x01, 0x00, 0x01, 0x01, 0x82
        ]
    );
    let _ = SerializeError::OffsetOverflow;
    let _ = DeserializeError::Truncated;
}
