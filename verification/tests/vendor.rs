use ouilookup::{decode_snapshot, encode_snapshot, format_oui, parse_csv, refresh_from_content,
    Vendor, VendorError};
use pnet_datalink::MacAddr;

const HEADER: &str = "Registry,Assignment,Organization Name,Organization Address\n";

fn store_from(rows: &str) -> Vendor {
    let content = format!("{}{}", HEADER, rows);
    let (store, _snapshot) = refresh_from_content(&content).expect("registry should load");
    store
}

#[test]
fn should_create_vendor_resolver() {
    let vendor = store_from("MA-L,405582,Nokia,Corp HQ\n");

    assert_eq!(vendor.has_vendor_db(), true);
}

#[test]
fn should_handle_unresolved_database() {
    let vendor = store_from("");

    assert_eq!(vendor.has_vendor_db(), false);
}

#[test]
fn should_find_specific_mac_vendor() {
    let mut vendor = store_from("MA-L,405582,Nokia,\n");
    let mac = MacAddr::new(0x40, 0x55, 0x82, 0xc3, 0xe5, 0x5b);

    assert_eq!(vendor.search_by_mac(&mac), Some("Nokia".to_string()));
}

#[test]
fn should_find_first_mac_vendor() {
    let mut vendor = store_from("MA-L,002272,American Micro-Fuel Device Corp.,\n");
    let mac = MacAddr::new(0x00, 0x22, 0x72, 0xd7, 0xb5, 0x23);

    assert_eq!(
        vendor.search_by_mac(&mac),
        Some("American Micro-Fuel Device Corp.".to_string())
    );
}

#[test]
fn should_find_last_mac_vendor() {
    let mut vendor = store_from(
        "MA-L,002272,American Micro-Fuel Device Corp.,\nMA-L,CC9DA2,Eltex Enterprise Ltd.,\n",
    );
    let mac = MacAddr::new(0xcc, 0x9d, 0xa2, 0x14, 0x2e, 0x6f);

    assert_eq!(
        vendor.search_by_mac(&mac),
        Some("Eltex Enterprise Ltd.".to_string())
    );
}

#[test]
fn should_handle_unknown_mac_vendor() {
    let mut vendor = store_from("MA-L,405582,Nokia,Corp HQ\n");
    let mac = MacAddr::new(0xbb, 0xbb, 0xbb, 0xd2, 0xf5, 0xb6);

    assert_eq!(vendor.search_by_mac(&mac), None);
}

#[test]
fn should_pad_correctly_with_zeroes() {
    let mut vendor = store_from("MA-L,010101,SomeCorp,\n");
    let mac = MacAddr::new(0x01, 0x01, 0x01, 0x67, 0xb2, 0x1d);

    assert_eq!(vendor.search_by_mac(&mac), Some("SomeCorp".to_string()));
}

#[test]
fn resolve_concatenates_name_and_address() {
    let mut vendor = store_from("MA-L,405582,Nokia,Corp HQ\n");
    let mac = MacAddr::new(0x40, 0x55, 0x82, 0xc3, 0xe5, 0x5b);

    assert_eq!(vendor.search_by_mac(&mac), Some("NokiaCorp HQ".to_string()));
}

#[test]
fn format_oui_pads_each_byte_to_two_characters() {
    assert_eq!(format_oui(0x01, 0x01, 0x01), "010101");
    assert_eq!(format_oui(0x40, 0x55, 0x82), "405582");
    assert_eq!(format_oui(0x00, 0x22, 0x72), "002272");
    assert_eq!(format_oui(0x0a, 0xb0, 0xff), "0AB0FF");
}

#[test]
fn snapshot_round_trips_entries() {
    let entries: Vec<(u32, String)> = vec![
        (0x405582, "NokiaCorp HQ".to_string()),
        (0x000001, "".to_string()),
        (0xffffff, "Last, with comma".to_string()),
    ];
    let snapshot = encode_snapshot(&entries);
    let decoded = decode_snapshot(&snapshot).expect("own snapshot should decode");

    assert_eq!(decoded, entries);
}

#[test]
fn refresh_snapshot_loads_back_to_same_store() {
    let content = format!(
        "{}MA-L,405582,Nokia,Corp HQ\nMA-L,010101,SomeCorp,\n",
        HEADER
    );
    let (store, snapshot) = refresh_from_content(&content).expect("registry should load");
    let reloaded = Vendor::from_snapshot(&snapshot).expect("snapshot should load");

    assert!(reloaded == store);
}

#[test]
fn open_twice_yields_identical_stores() {
    let content = format!("{}MA-L,405582,Nokia,Corp HQ\n", HEADER);
    let (_, snapshot) = refresh_from_content(&content).expect("registry should load");
    let first = Vendor::from_snapshot(&snapshot).expect("snapshot should load");
    let second = Vendor::from_snapshot(&snapshot).expect("snapshot should load");

    assert!(first == second);
}

#[test]
fn refresh_rejects_row_with_missing_column() {
    let content = format!("{}MA-L,405582,Nokia\n", HEADER);

    assert_eq!(
        refresh_from_content(&content),
        Err(VendorError::MalformedRecord)
    );
}

#[test]
fn refresh_rejects_row_with_bad_key() {
    let content = format!("{}MA-L,40558,Nokia,Corp HQ\n", HEADER);
    assert_eq!(
        refresh_from_content(&content),
        Err(VendorError::MalformedRecord)
    );

    let lowercase = format!("{}MA-L,40ab82,Nokia,Corp HQ\n", HEADER);
    assert_eq!(
        refresh_from_content(&lowercase),
        Err(VendorError::MalformedRecord)
    );
}

#[test]
fn corrupt_snapshot_is_rejected() {
    assert_eq!(
        decode_snapshot("this is not a snapshot"),
        Err(VendorError::SnapshotCorrupt)
    );
    assert!(Vendor::from_snapshot("405582") == Err(VendorError::SnapshotCorrupt));
}

#[test]
fn empty_snapshot_is_an_empty_store() {
    let store = Vendor::from_snapshot("").expect("empty snapshot should load");

    assert_eq!(store.has_vendor_db(), false);
}

#[test]
fn later_row_with_same_key_overwrites_earlier() {
    let mut vendor = store_from("MA-L,405582,Old Name,\nMA-L,405582,New Name,\n");
    let mac = MacAddr::new(0x40, 0x55, 0x82, 0x00, 0x00, 0x00);

    assert_eq!(vendor.search_by_mac(&mac), Some("New Name".to_string()));
}

#[test]
fn header_row_is_not_loaded() {
    let content = "MA-L,AAAAAA,Header Lookalike,\nMA-L,BBBBBB,Real Entry,\n";
    let (mut vendor, _) = refresh_from_content(content).expect("registry should load");

    assert_eq!(
        vendor.search_by_mac(&MacAddr::new(0xaa, 0xaa, 0xaa, 0, 0, 0)),
        None
    );
    assert_eq!(
        vendor.search_by_mac(&MacAddr::new(0xbb, 0xbb, 0xbb, 0, 0, 0)),
        Some("Real Entry".to_string())
    );
}

#[test]
fn quoted_fields_keep_commas_and_quotes() {
    let mut vendor = store_from("MA-L,AABBCC,\"Acme, Inc.\",\"HQ \"\"West\"\"\"\n");
    let mac = MacAddr::new(0xaa, 0xbb, 0xcc, 0x01, 0x02, 0x03);

    assert_eq!(
        vendor.search_by_mac(&mac),
        Some("Acme, Inc.HQ \"West\"".to_string())
    );
}

#[test]
fn parse_csv_splits_rows_and_fields() {
    let rows = parse_csv("a,b\n\"c,d\",e\r\nf,g\n").expect("well-formed content");

    assert_eq!(rows.len(), 3);
    assert_eq!(rows[0], vec!["a".to_string(), "b".to_string()]);
    assert_eq!(rows[1], vec!["c,d".to_string(), "e".to_string()]);
    assert_eq!(rows[2], vec!["f".to_string(), "g".to_string()]);
}

#[test]
fn parse_csv_rejects_unterminated_quote() {
    assert!(parse_csv("a,\"unterminated\n").is_none());
    assert!(parse_csv("a,\"closed\" trailing,b\n").is_none());
}
