use tc_otel::client::browse::{
    parse_upload, parse_upload_info, DecodedSymbol, SymbolNode, SymbolTree, UploadInfo,
};
use tc_otel::client::error::ClientError;
use tc_otel::symbol::AdsSymbolEntry;

/// Build the 30-byte header + name + type + comment + null terminators
/// for one `AdsSymbolEntry`, and return the packed bytes.
fn build_entry(
    name: &str,
    type_text: &str,
    comment: &str,
    igroup: u32,
    ioffset: u32,
    size: u32,
    datatype: u32,
    flags: u32,
) -> Vec<u8> {
    let name_b = name.as_bytes();
    let type_b = type_text.as_bytes();
    let com_b = comment.as_bytes();
    // header (30) + name + \0 + type + \0 + comment + \0
    let entry_len = 30 + name_b.len() + 1 + type_b.len() + 1 + com_b.len() + 1;
    let mut out = Vec::with_capacity(entry_len);
    out.extend_from_slice(&(entry_len as u32).to_le_bytes());
    out.extend_from_slice(&igroup.to_le_bytes());
    out.extend_from_slice(&ioffset.to_le_bytes());
    out.extend_from_slice(&size.to_le_bytes());
    out.extend_from_slice(&datatype.to_le_bytes());
    out.extend_from_slice(&flags.to_le_bytes());
    out.extend_from_slice(&(name_b.len() as u16).to_le_bytes());
    out.extend_from_slice(&(type_b.len() as u16).to_le_bytes());
    out.extend_from_slice(&(com_b.len() as u16).to_le_bytes());
    out.extend_from_slice(name_b);
    out.push(0);
    out.extend_from_slice(type_b);
    out.push(0);
    out.extend_from_slice(com_b);
    out.push(0);
    assert_eq!(out.len(), entry_len);
    out
}

fn build_upload_info_bytes(info: &UploadInfo) -> Vec<u8> {
    let mut out = Vec::with_capacity(24);
    out.extend_from_slice(&info.symbol_count.to_le_bytes());
    out.extend_from_slice(&info.symbol_length.to_le_bytes());
    out.extend_from_slice(&info.datatype_count.to_le_bytes());
    out.extend_from_slice(&info.datatype_length.to_le_bytes());
    out.extend_from_slice(&info.extra_count.to_le_bytes());
    out.extend_from_slice(&info.extra_length.to_le_bytes());
    out
}

#[test]
fn parses_upload_info_header() {
    let info = UploadInfo {
        symbol_count: 3,
        symbol_length: 200,
        datatype_count: 42,
        datatype_length: 1024,
        extra_count: 0,
        extra_length: 0,
    };
    let bytes = build_upload_info_bytes(&info);
    let parsed = parse_upload_info(&bytes).unwrap();
    assert_eq!(parsed, info);
}

#[test]
fn upload_info_rejects_short_buffer() {
    let too_short = vec![0u8; 16];
    let err = parse_upload_info(&too_short).unwrap_err();
    assert!(err.to_string().contains("need 24 bytes"));
}

#[test]
fn parses_three_scalar_symbols() {
    let e1 = build_entry(
        "MAIN.fTemp",
        "REAL",
        "Kessel-Temperatur",
        0x4040,
        0,
        4,
        4,
        0,
    );
    let e2 = build_entry("MAIN.bRun", "BOOL", "", 0x4040, 4, 1, 33, 0);
    let e3 = build_entry("GVL.nCount", "DINT", "count", 0x4041, 0, 4, 18, 1);

    let body_len = e1.len() + e2.len() + e3.len();
    let mut body = Vec::with_capacity(body_len);
    body.extend(&e1);
    body.extend(&e2);
    body.extend(&e3);

    let info = UploadInfo {
        symbol_count: 3,
        symbol_length: body_len as u32,
        datatype_count: 0,
        datatype_length: 0,
        extra_count: 0,
        extra_length: 0,
    };

    let tree = parse_upload(&body, &info).unwrap();
    assert_eq!(tree.len(), 3);

    let n = tree.get("MAIN.fTemp").unwrap();
    assert_eq!(n.data_type_name, "REAL");
    assert_eq!(n.comment, "Kessel-Temperatur");
    assert_eq!(n.igroup, 0x4040);
    assert_eq!(n.size, 4);
    assert_eq!(n.datatype, 4);

    let n = tree.get("MAIN.bRun").unwrap();
    assert_eq!(n.data_type_name, "BOOL");
    assert_eq!(n.comment, "");
    assert_eq!(n.ioffset, 4);
    assert_eq!(n.size, 1);

    let n = tree.get("GVL.nCount").unwrap();
    assert_eq!(n.igroup, 0x4041);
    assert_eq!(n.flags, 1);
}

#[test]
fn prefix_iter_filters_case_insensitive() {
    let e1 = build_entry("MAIN.fTemp", "REAL", "", 0, 0, 4, 4, 0);
    let e2 = build_entry("main.fSetpoint", "REAL", "", 0, 4, 4, 4, 0);
    let e3 = build_entry("GVL.nCount", "DINT", "", 0, 0, 4, 18, 0);
    let body: Vec<u8> = [e1.clone(), e2.clone(), e3.clone()].concat();

    let info = UploadInfo {
        symbol_count: 3,
        symbol_length: body.len() as u32,
        datatype_count: 0,
        datatype_length: 0,
        extra_count: 0,
        extra_length: 0,
    };
    let tree = parse_upload(&body, &info).unwrap();

    let names: Vec<_> = tree.iter_prefix("main").iter().map(|n| n.name.as_str()).collect();
    assert_eq!(names, vec!["MAIN.fTemp", "main.fSetpoint"]);
}

#[test]
fn rejects_entry_that_overruns_buffer() {
    let mut entry = build_entry("X", "BOOL", "", 0, 0, 1, 33, 0);
    // Corrupt entry_length to point past end.
    let bogus = (entry.len() as u32 + 100).to_le_bytes();
    entry[..4].copy_from_slice(&bogus);

    let info = UploadInfo {
        symbol_count: 1,
        symbol_length: entry.len() as u32,
        datatype_count: 0,
        datatype_length: 0,
        extra_count: 0,
        extra_length: 0,
    };

    let err = parse_upload(&entry, &info).err().unwrap();
    assert!(err.to_string().contains("overruns buffer"));
}

#[test]
fn stops_at_declared_symbol_count_even_with_more_bytes() {
    // Build 3 entries but lie in info: symbol_count=2.
    let e1 = build_entry("A", "BOOL", "", 0, 0, 1, 33, 0);
    let e2 = build_entry("B", "BOOL", "", 0, 1, 1, 33, 0);
    let e3 = build_entry("C", "BOOL", "", 0, 2, 1, 33, 0);
    let body: Vec<u8> = [e1.clone(), e2.clone(), e3.clone()].concat();

    let info = UploadInfo {
        symbol_count: 2,
        symbol_length: body.len() as u32,
        datatype_count: 0,
        datatype_length: 0,
        extra_count: 0,
        extra_length: 0,
    };
    let tree = parse_upload(&body, &info).unwrap();
    assert_eq!(tree.len(), 2);
    assert!(tree.get("A").is_some());
    assert!(tree.get("B").is_some());
    assert!(tree.get("C").is_none());
}

fn info_for(count: u32, length: usize) -> UploadInfo {
    UploadInfo {
        symbol_count: count,
        symbol_length: length as u32,
        datatype_count: 0,
        datatype_length: 0,
        extra_count: 0,
        extra_length: 0,
    }
}

fn refused(body: &[u8], info: &UploadInfo) -> String {
    match parse_upload(body, info).err().unwrap() {
        ClientError::Decode(text) => text,
        other => panic!("expected a decoding error, got {:?}", other),
    }
}

#[test]
fn uploads_that_are_refused() {
    let entry = build_entry("X", "BOOL", "", 0, 0, 1, 33, 0);
    assert_eq!(
        refused(&entry, &info_for(1, entry.len() + 1)),
        format!("symbol upload: info says {} bytes, buffer has {}", entry.len() + 1, entry.len())
    );
    let mut short = entry.clone();
    short[0] = 31;
    assert_eq!(refused(&short, &info_for(1, short.len())), "strings overrun entry at cursor 0");
    let mut bad = entry.clone();
    bad[30] = 0xC0;
    assert_eq!(
        refused(&bad, &info_for(1, bad.len())),
        "non-utf8 in symbol string: invalid utf-8 sequence of 1 bytes from index 0"
    );
    let mut two = entry.clone();
    let mut second = entry.clone();
    second[0] = 200;
    two.extend_from_slice(&second);
    assert_eq!(
        refused(&two, &info_for(2, two.len())),
        format!(
            "entry at {} overruns buffer (ends at {}, limit {})",
            entry.len(),
            entry.len() + 200,
            two.len()
        )
    );
}

#[test]
fn last_of_equal_names_is_found() {
    let body: Vec<u8> = [
        build_entry("A", "BOOL", "", 0, 0, 1, 33, 0),
        build_entry("A", "INT", "", 0, 8, 2, 33, 0),
    ]
    .concat();
    let tree = parse_upload(&body, &info_for(2, body.len())).unwrap();
    assert_eq!(tree.len(), 2);
    assert_eq!(tree.get("A").unwrap().ioffset, 8);
    assert!(tree.get("a").is_none());
    assert!(SymbolTree::default().is_empty());
}

#[test]
fn decoded_symbols_become_nodes() {
    let tree = SymbolTree::from_ads_symbols(vec![DecodedSymbol {
        name: "GVL.x".to_string(),
        ix_group: 1,
        ix_offset: 2,
        typ: "DINT".to_string(),
        size: 4,
        base_type: 3,
        flags: 5,
    }]);
    let n = tree.get("GVL.x").unwrap();
    assert_eq!((n.igroup, n.ioffset, n.size, n.datatype, n.flags), (1, 2, 4, 3, 5));
    assert_eq!(n.data_type_name, "DINT");
    assert_eq!(n.comment, "");
}

#[test]
fn fewer_entries_than_announced() {
    let e1 = build_entry("A", "BOOL", "", 1, 2, 3, 33, 4);
    let e2 = build_entry("B", "INT", "c", 5, 6, 7, 8, 9);
    let mut body: Vec<u8> = [e1, e2].concat();
    let tree = parse_upload(&body, &info_for(9, body.len())).unwrap();
    assert_eq!(tree.len(), 2);
    assert_eq!(tree.nodes[1].name, "B");
    assert_eq!(tree.nodes[1].comment, "c");
    // Too few bytes for another header are passed over.
    body.extend_from_slice(&[1; 29]);
    assert_eq!(parse_upload(&body, &info_for(9, body.len())).unwrap().len(), 2);
}

#[test]
fn serialized_tables_are_uploads() {
    let entry = |name: &str, offset: u32| AdsSymbolEntry {
        index_group: 0x4020,
        index_offset: offset,
        size: 2,
        data_type: 2,
        flags: 8,
        name: name.to_string(),
        data_type_name: "INT".to_string(),
        comment: "note".to_string(),
    };
    let body: Vec<u8> = [entry("A", 0).serialize(), entry("B", 2).serialize(), entry("C", 4).serialize()].concat();
    for (count, expected) in [(0u32, 0usize), (2, 2), (3, 3), (5, 3)] {
        assert_eq!(parse_upload(&body, &info_for(count, body.len())).unwrap().len(), expected);
    }
    let tree = parse_upload(&body, &info_for(3, body.len())).unwrap();
    let b = tree.get("B").unwrap();
    assert_eq!((b.igroup, b.ioffset, b.size, b.datatype, b.flags), (0x4020, 2, 2, 2, 8));
    assert_eq!((b.data_type_name.as_str(), b.comment.as_str()), ("INT", "note"));
}

#[test]
fn trees_of_nodes_lead_to_the_last_of_a_name() {
    let node = |name: &str, igroup: u32| SymbolNode {
        name: name.to_string(),
        data_type_name: "BOOL".to_string(),
        comment: String::new(),
        igroup,
        ioffset: 0,
        size: 1,
        datatype: 33,
        flags: 0,
    };
    let tree = SymbolTree::from_nodes(vec![node("A", 1), node("B", 2), node("A", 3)]);
    assert_eq!(tree.len(), 3);
    assert_eq!(tree.get("A").unwrap().igroup, 3);
    assert_eq!(tree.get("B").unwrap().igroup, 2);
    assert!(tree.get("C").is_none());
}
