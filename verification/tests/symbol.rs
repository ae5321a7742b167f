use tc_otel::error::AdsError;
use tc_otel::symbol::{
    parse_symbol_table, AdsSymbolEntry, AdsSymbolUploadInfo, ADSIGRP_SYM_UPLOAD, ADSIGRP_SYM_UPLOADINFO,
};

#[test]
fn test_upload_info_parse() {
    let mut data = vec![0u8; 8];
    data[0..4].copy_from_slice(&42u32.to_le_bytes()); // symbol_count
    data[4..8].copy_from_slice(&1024u32.to_le_bytes()); // symbol_size

    let info = AdsSymbolUploadInfo::parse(&data).unwrap();
    assert_eq!(info.symbol_count, 42);
    assert_eq!(info.symbol_size, 1024);
}

#[test]
fn test_upload_info_roundtrip() {
    let info = AdsSymbolUploadInfo {
        symbol_count: 256,
        symbol_size: 65536,
    };
    let bytes = info.serialize();
    let parsed = AdsSymbolUploadInfo::parse(&bytes).unwrap();
    assert_eq!(parsed, info);
}

#[test]
fn test_upload_info_too_short() {
    let data = [0u8; 4]; // only 4 bytes, need 8
    let result = AdsSymbolUploadInfo::parse(&data);
    assert!(result.is_err());
}

#[test]
fn test_symbol_entry_parse_basic() {
    let entry = AdsSymbolEntry {
        index_group: 0x4020,
        index_offset: 0x0000,
        size: 1,
        data_type: 33, // ADST_BIT
        flags: 0x0008,
        name: "MAIN.bFlag".to_string(),
        data_type_name: "BOOL".to_string(),
        comment: "A test flag".to_string(),
    };

    let bytes = entry.serialize();
    let (parsed, consumed) = AdsSymbolEntry::parse(&bytes).unwrap();

    assert_eq!(parsed.index_group, 0x4020);
    assert_eq!(parsed.index_offset, 0x0000);
    assert_eq!(parsed.size, 1);
    assert_eq!(parsed.data_type, 33);
    assert_eq!(parsed.flags, 0x0008);
    assert_eq!(parsed.name, "MAIN.bFlag");
    assert_eq!(parsed.data_type_name, "BOOL");
    assert_eq!(parsed.comment, "A test flag");
    assert_eq!(consumed, bytes.len());
}

#[test]
fn test_symbol_entry_roundtrip_empty_comment() {
    let entry = AdsSymbolEntry {
        index_group: 0x4020,
        index_offset: 256,
        size: 8,
        data_type: 5, // ADST_REAL64
        flags: 0,
        name: "GVL.fTemperature".to_string(),
        data_type_name: "LREAL".to_string(),
        comment: String::new(),
    };

    let bytes = entry.serialize();
    let (parsed, _) = AdsSymbolEntry::parse(&bytes).unwrap();
    assert_eq!(parsed, entry);
}

#[test]
fn test_symbol_entry_header_too_short() {
    let data = [0u8; 10]; // less than 30 bytes
    let result = AdsSymbolEntry::parse(&data);
    assert!(result.is_err());
}

#[test]
fn test_symbol_entry_data_truncated() {
    // Valid header but not enough data for strings
    let entry = AdsSymbolEntry {
        index_group: 1,
        index_offset: 2,
        size: 4,
        data_type: 3,
        flags: 0,
        name: "MAIN.longVariableName".to_string(),
        data_type_name: "INT".to_string(),
        comment: String::new(),
    };

    let bytes = entry.serialize();
    // Truncate the data
    let truncated = &bytes[..bytes.len() - 5];
    let result = AdsSymbolEntry::parse(truncated);
    assert!(result.is_err());
}

#[test]
fn test_parse_symbol_table_multiple_entries() {
    let entries = vec![
        AdsSymbolEntry {
            index_group: 0x4020,
            index_offset: 0,
            size: 1,
            data_type: 33,
            flags: 0x0008,
            name: "MAIN.bMotorRunning".to_string(),
            data_type_name: "BOOL".to_string(),
            comment: "Motor status".to_string(),
        },
        AdsSymbolEntry {
            index_group: 0x4020,
            index_offset: 8,
            size: 8,
            data_type: 5,
            flags: 0x0008,
            name: "MAIN.fSpeed".to_string(),
            data_type_name: "LREAL".to_string(),
            comment: "Motor speed".to_string(),
        },
        AdsSymbolEntry {
            index_group: 0x4020,
            index_offset: 16,
            size: 2,
            data_type: 3,
            flags: 0x0008,
            name: "GVL.nCycleCount".to_string(),
            data_type_name: "INT".to_string(),
            comment: String::new(),
        },
    ];

    // Concatenate serialized entries
    let mut data = Vec::new();
    for e in &entries {
        data.extend(e.serialize());
    }

    let parsed = parse_symbol_table(&data).unwrap();
    assert_eq!(parsed.len(), 3);
    assert_eq!(parsed[0].name, "MAIN.bMotorRunning");
    assert_eq!(parsed[1].name, "MAIN.fSpeed");
    assert_eq!(parsed[2].name, "GVL.nCycleCount");
}

#[test]
fn test_parse_symbol_table_empty() {
    let parsed = parse_symbol_table(&[]).unwrap();
    assert!(parsed.is_empty());
}

#[test]
fn test_index_group_constants() {
    assert_eq!(ADSIGRP_SYM_UPLOADINFO, 0xF00C);
    assert_eq!(ADSIGRP_SYM_UPLOAD, 0xF00B);
}

#[test]
fn test_symbol_entry_various_data_types() {
    let test_cases = vec![
        ("MAIN.bVal", "BOOL", 1, 33),
        ("MAIN.nVal", "INT", 2, 3),
        ("MAIN.fVal", "REAL", 4, 4),
        ("MAIN.fBigVal", "LREAL", 8, 5),
        ("MAIN.sVal", "STRING(80)", 81, 30),
    ];

    for (name, data_type_name, size, data_type) in test_cases {
        let entry = AdsSymbolEntry {
            index_group: 0x4020,
            index_offset: 0,
            size,
            data_type,
            flags: 0,
            name: name.to_string(),
            data_type_name: data_type_name.to_string(),
            comment: String::new(),
        };

        let bytes = entry.serialize();
        let (parsed, _) = AdsSymbolEntry::parse(&bytes).unwrap();
        assert_eq!(parsed.name, name);
        assert_eq!(parsed.data_type_name, data_type_name);
        assert_eq!(parsed.size, size);
        assert_eq!(parsed.data_type, data_type);
    }
}

fn named(name: &str, comment: &str) -> AdsSymbolEntry {
    AdsSymbolEntry {
        index_group: 1,
        index_offset: 2,
        size: 3,
        data_type: 4,
        flags: 5,
        name: name.to_string(),
        data_type_name: "INT".to_string(),
        comment: comment.to_string(),
    }
}

#[test]
fn entry_bytes_in_order() {
    let bytes = named("A", "").serialize();
    let mut expected: Vec<u8> = Vec::new();
    expected.extend_from_slice(&[37, 0, 0, 0, 1, 0, 0, 0, 2, 0, 0, 0, 3, 0, 0, 0, 4, 0, 0, 0, 5, 0, 0, 0]);
    expected.extend_from_slice(&[1, 0, 3, 0, 0, 0]);
    expected.extend_from_slice(b"A\0INT\0\0");
    assert_eq!(bytes, expected);
}

#[test]
fn table_of_non_ascii_names_reads_back() {
    let entries = vec![named("MAIN.größe", "größer als 0"), named("GVL.温度", "")];
    let mut table: Vec<u8> = Vec::new();
    for e in &entries {
        table.extend_from_slice(&e.serialize());
    }
    table.extend_from_slice(&[1, 2, 3]);
    assert_eq!(parse_symbol_table(&table).unwrap(), entries);
}

#[test]
fn table_errors() {
    let mut zero = named("A", "").serialize();
    zero[0] = 0;
    assert_eq!(
        parse_symbol_table(&zero).unwrap_err(),
        AdsError::ParseError("symbol entry with zero length".to_string())
    );
    let mut bad = named("A", "").serialize();
    bad[30] = 0xFF;
    assert_eq!(
        parse_symbol_table(&bad).unwrap_err(),
        AdsError::InvalidStringEncoding(
            "invalid utf-8 sequence of 1 bytes from index 0".to_string()
        )
    );
    assert_eq!(
        AdsSymbolEntry::parse(&[0; 29]).unwrap_err(),
        AdsError::IncompleteMessage { expected: 30, got: 29 }
    );
    let short = named("A", "").serialize();
    assert_eq!(
        AdsSymbolEntry::parse(&short[..36]).unwrap_err(),
        AdsError::IncompleteMessage { expected: 37, got: 36 }
    );
}

#[test]
fn cut_entries_are_incomplete() {
    let entry = AdsSymbolEntry {
        index_group: 1,
        index_offset: 2,
        size: 3,
        data_type: 4,
        flags: 5,
        name: "MAIN.x".to_string(),
        data_type_name: "INT".to_string(),
        comment: "c".to_string(),
    };
    let bytes = entry.serialize();
    assert_eq!(bytes.len(), 43);
    for n in 0..bytes.len() {
        let expected = if n < 30 { 30 } else { 43 };
        assert_eq!(
            AdsSymbolEntry::parse(&bytes[..n]).unwrap_err(),
            AdsError::IncompleteMessage { expected, got: n as u64 }
        );
    }
    let table = parse_symbol_table(&[&bytes[..], &[1, 2, 3]].concat()).unwrap();
    assert_eq!(table, vec![entry]);
}
