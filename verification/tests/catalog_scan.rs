use codex_administrator::catalog_scan::{
    catalog_scan_step, json_scan_step, CatalogScan, CatalogScanStep, JsonScan, JsonScanStep, MAX_MODEL_CATALOG_BYTES,
};

#[test]
fn a_catalog_start_split_between_chunks_is_found() {
    let mut scan = CatalogScan::new();
    assert_eq!(catalog_scan_step(&mut scan, b"binary bytes {\n  \"mod"), CatalogScanStep::Continue);
    assert_eq!(scan.read, 21);
    assert_eq!(scan.carry, b" bytes {\n  \"mod".to_vec());
    assert_eq!(catalog_scan_step(&mut scan, b"els\": [1]}"), CatalogScanStep::Found(13));
    let mut crlf = CatalogScan::new();
    assert_eq!(catalog_scan_step(&mut crlf, b"xx{\r\n  \"models\": ["), CatalogScanStep::Found(2));
    let mut none = CatalogScan::new();
    assert_eq!(catalog_scan_step(&mut none, b"{\"models\": []}"), CatalogScanStep::Continue);
}

fn scan_all(bytes: &[u8]) -> (JsonScanStep, usize) {
    let mut scan = JsonScan::new();
    for (i, byte) in bytes.iter().enumerate() {
        let step = json_scan_step(&mut scan, *byte);
        if step != JsonScanStep::Continue {
            return (step, i + 1);
        }
    }
    (JsonScanStep::Continue, bytes.len())
}

#[test]
fn a_json_value_ends_where_its_brackets_close() {
    assert_eq!(scan_all(b"{\"a\": \"}]\\\"\", \"b\": [1, {}]} trailing"), (JsonScanStep::Complete, 27));
    assert_eq!(scan_all(b"] {"), (JsonScanStep::ClosedEarly, 1));
    assert_eq!(scan_all(b"{\"open\": ["), (JsonScanStep::Continue, 10));
    let long = vec![b' '; MAX_MODEL_CATALOG_BYTES + 1];
    assert_eq!(scan_all(&long), (JsonScanStep::TooLarge, MAX_MODEL_CATALOG_BYTES + 1));
}
