use ddns_rs::dns_name::{first_zone_id, get_dns_prefix_root, prefix_root_of, zone_name, DnsNameError, Zone, ZoneError};

#[test]
fn test_get_dns_root_prefix() {
    assert!(get_dns_prefix_root("").is_err());
    assert!(get_dns_prefix_root("a").is_err());
    assert_eq!(get_dns_prefix_root("a.b").unwrap(), ("@".to_owned(), "a.b".to_owned()));
    assert_eq!(get_dns_prefix_root("a.b.c").unwrap(), ("a".to_owned(), "b.c".to_owned()));
    assert_eq!(get_dns_prefix_root("a.b.c.d").unwrap(), ("a.b".to_owned(), "c.d".to_owned()));
}

#[test]
fn prefix_root_of_each_case() {
    assert_eq!(prefix_root_of(None), Err(DnsNameError::Unparsable));
    assert_eq!(prefix_root_of(Some((Some("x".to_string()), None))), Err(DnsNameError::NoRoot));
    assert_eq!(
        prefix_root_of(Some((None, Some("example.com".to_string())))),
        Ok(("@".to_string(), "example.com".to_string()))
    );
    assert_eq!(
        prefix_root_of(Some((Some("www".to_string()), Some("example.com".to_string())))),
        Ok(("www".to_string(), "example.com".to_string()))
    );
}

#[test]
fn zone_is_last_two_labels() {
    assert_eq!(zone_name("a.b.example.com"), "example.com");
    assert_eq!(zone_name("www.example.com."), "example.com");
    assert_eq!(zone_name("example.com"), "example.com");
    assert_eq!(zone_name("localhost"), "localhost");
    assert_eq!(zone_name(""), "");
}

#[test]
fn zone_choice() {
    assert_eq!(first_zone_id(&vec![]), Err(ZoneError::NotFound));
    let zones = vec![
        Zone { id: "z1".to_string(), name: "example.com".to_string() },
        Zone { id: "z2".to_string(), name: "example.com".to_string() },
    ];
    assert_eq!(first_zone_id(&zones), Ok("z1".to_string()));
    assert_eq!(zones[0].describe(), "Zone example.com with id: z1");
}
