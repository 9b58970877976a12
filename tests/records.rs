use ddns_rs::address::Addr;
use ddns_rs::records::{group_records, more_pages, record_type, Credentials, ListedRecord, PAGE_SIZE};

#[test]
fn grouping_by_name() {
    let listing = vec![
        ListedRecord { name: "@".to_string(), addr: Addr::V4(1) },
        ListedRecord { name: "www".to_string(), addr: Addr::V4(2) },
        ListedRecord { name: "@".to_string(), addr: Addr::V4(3) },
    ];
    let groups = group_records(&listing);
    assert_eq!(groups.len(), 2);
    assert_eq!(groups[0].prefix, "@");
    assert_eq!(groups[0].records.len(), 2);
    assert_eq!((groups[0].records[0].id, groups[0].records[0].addr), (0, Addr::V4(1)));
    assert_eq!((groups[0].records[1].id, groups[0].records[1].addr), (2, Addr::V4(3)));
    assert_eq!(groups[1].prefix, "www");
    assert_eq!((groups[1].records[0].id, groups[1].records[0].addr), (1, Addr::V4(2)));
    assert!(group_records(&vec![]).is_empty());
}

#[test]
fn record_types() {
    assert_eq!(record_type(&Addr::V4(1)), "A");
    assert_eq!(record_type(&Addr::V6(1)), "AAAA");
}

#[test]
fn authorization_header() {
    let c = Credentials { api_key: "key".to_string(), secret: "s3".to_string() };
    assert_eq!(c.authorization(), "sso-key key:s3");
}

#[test]
fn paging_stops_on_short_page() {
    assert_eq!(PAGE_SIZE, 50);
    assert!(more_pages(50));
    assert!(!more_pages(49));
    assert!(!more_pages(0));
}
