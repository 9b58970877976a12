use ddns_rs::address::{is_global, Addr, IpType};
use ddns_rs::interfaces::{family_consistent, select_addresses, AddressError, InterfaceInfo, Stock, LXD};

fn v4(a: u8, b: u8, c: u8, d: u8) -> Addr {
    Addr::V4(u32::from_be_bytes([a, b, c, d]))
}

fn v6(s: [u16; 8]) -> Addr {
    let mut v: u128 = 0;
    for x in s {
        v = (v << 16) | x as u128;
    }
    Addr::V6(v)
}

#[test]
fn global_v4() {
    assert!(is_global(&v4(1, 1, 1, 1)));
    assert!(is_global(&v4(8, 8, 8, 8)));
    assert!(is_global(&v4(192, 0, 0, 9)));
    assert!(!is_global(&v4(0, 1, 2, 3)));
    assert!(!is_global(&v4(10, 0, 0, 1)));
    assert!(!is_global(&v4(172, 16, 0, 1)));
    assert!(is_global(&v4(172, 32, 0, 1)));
    assert!(!is_global(&v4(192, 168, 1, 1)));
    assert!(!is_global(&v4(100, 64, 0, 1)));
    assert!(!is_global(&v4(127, 0, 0, 1)));
    assert!(!is_global(&v4(169, 254, 0, 1)));
    assert!(!is_global(&v4(192, 0, 0, 8)));
    assert!(!is_global(&v4(192, 0, 2, 1)));
    assert!(!is_global(&v4(198, 51, 100, 1)));
    assert!(!is_global(&v4(203, 0, 113, 1)));
    assert!(!is_global(&v4(198, 19, 0, 1)));
    assert!(!is_global(&v4(240, 0, 0, 1)));
    assert!(!is_global(&v4(255, 255, 255, 255)));
}

#[test]
fn global_v6() {
    assert!(is_global(&v6([0x2606, 0x4700, 0, 0, 0, 0, 0, 0x1111])));
    assert!(!is_global(&v6([0, 0, 0, 0, 0, 0, 0, 0])));
    assert!(!is_global(&v6([0, 0, 0, 0, 0, 0, 0, 1])));
    assert!(!is_global(&v6([0, 0, 0, 0, 0, 0xffff, 0x0101, 0x0101])));
    assert!(!is_global(&v6([0x64, 0xff9b, 1, 0, 0, 0, 0, 1])));
    assert!(!is_global(&v6([0x100, 0, 0, 0, 1, 2, 3, 4])));
    assert!(!is_global(&v6([0x2001, 0x0100, 0, 0, 0, 0, 0, 1])));
    assert!(is_global(&v6([0x2001, 1, 0, 0, 0, 0, 0, 1])));
    assert!(is_global(&v6([0x2001, 3, 0, 0, 0, 0, 0, 1])));
    assert!(is_global(&v6([0x2001, 0x20, 0, 0, 0, 0, 0, 1])));
    assert!(!is_global(&v6([0x2002, 0, 0, 0, 0, 0, 0, 1])));
    assert!(!is_global(&v6([0x2001, 0xdb8, 0, 0, 0, 0, 0, 1])));
    assert!(!is_global(&v6([0xfd00, 0, 0, 0, 0, 0, 0, 1])));
    assert!(!is_global(&v6([0xfe80, 0, 0, 0, 0, 0, 0, 1])));
}

#[test]
fn selection_keeps_global_of_family() {
    let addrs = vec![v4(10, 0, 0, 1), v4(1, 2, 3, 4), v6([0x2606, 0, 0, 0, 0, 0, 0, 1]), v4(5, 6, 7, 8)];
    assert_eq!(select_addresses(&addrs, IpType::V4), vec![v4(1, 2, 3, 4), v4(5, 6, 7, 8)]);
    assert_eq!(select_addresses(&addrs, IpType::V6), vec![v6([0x2606, 0, 0, 0, 0, 0, 0, 1])]);
}

#[test]
fn stock_interface_lookup() {
    let ifs = vec![
        InterfaceInfo { name: "lo".to_string(), addrs: vec![v4(127, 0, 0, 1)] },
        InterfaceInfo { name: "eth0".to_string(), addrs: vec![v4(192, 168, 0, 2), v4(1, 2, 3, 4)] },
    ];
    let eth0 = Stock::create("eth0").unwrap();
    assert_eq!(eth0.name(), "eth0");
    assert_eq!(eth0.get_ip(&ifs, IpType::V4), Ok(vec![v4(1, 2, 3, 4)]));
    assert_eq!(eth0.get_ip(&ifs, IpType::V6), Err(AddressError::NoAddress));
    assert_eq!(Stock::create("lo").unwrap().get_ip(&ifs, IpType::V4), Err(AddressError::NoAddress));
    assert_eq!(Stock::create("wlan0").unwrap().get_ip(&ifs, IpType::V4), Err(AddressError::NotFound));
}

#[test]
fn lxd_never_finds() {
    let lxd = LXD::create("c1").unwrap();
    assert_eq!(lxd.name(), "c1");
    assert_eq!(lxd.get_ip(IpType::V4), Err(AddressError::NotFound));
}

#[test]
fn family_check() {
    assert!(family_consistent(&vec![v4(1, 2, 3, 4)], IpType::V4));
    assert!(!family_consistent(&vec![v4(1, 2, 3, 4), v6([1, 0, 0, 0, 0, 0, 0, 0])], IpType::V4));
    assert!(family_consistent(&vec![], IpType::V6));
    assert!(v4(1, 1, 1, 1).in_family(IpType::V4));
    assert!(!v4(1, 1, 1, 1).in_family(IpType::V6));
    assert_eq!(IpType::V4.name(), "IPV4");
    assert_eq!(IpType::V6.name(), "IPV6");
}
