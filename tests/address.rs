use esp_at_nal::commands::{AtError, ObtainLocalAddressCommand};
use esp_at_nal::wifi::{AddressErrors, LocalAddress, LocalAddressResponse};

fn line(address_type: &str, address: &str) -> LocalAddressResponse {
    LocalAddressResponse {
        address_type: address_type.as_bytes().to_vec(),
        address: address.as_bytes().to_vec(),
    }
}

const LINK_LOCAL: [u16; 8] = [0xfe80, 0, 0, 0, 0xe6ee, 0xe64e, 0x084c, 0xa745];
const GLOBAL: [u16; 8] = [0x2a02, 0x810d, 0x1340, 0x2df5, 0x68e1, 0x704d, 0x4a72, 0x656a];

#[test]
fn test_all_addresses() {
    let address = LocalAddress::from_responses(vec![
        line("STAIP", "10.0.0.181"),
        line("STAIP6LL", "fe80::e6ee:e64e:84c:a745"),
        line("STAMAC", "10:fe:ed:05:ba:50"),
        line("STAIP6GL", "2a02:810d:1340:2df5:68e1:704d:4a72:656a"),
    ])
    .unwrap();
    assert_eq!(b"10:fe:ed:05:ba:50".to_vec(), address.mac.unwrap());
    assert_eq!([10, 0, 0, 181], address.ipv4.unwrap().octets);
    assert_eq!(LINK_LOCAL, address.ipv6_link_local.unwrap().segments);
    assert_eq!(GLOBAL, address.ipv6_global.unwrap().segments);
}

#[test]
fn test_ipv6_missing() {
    let address = LocalAddress::from_responses(vec![
        line("STAIP", "10.0.0.181"),
        line("STAMAC", "10:fe:ed:05:ba:50"),
    ])
    .unwrap();
    assert_eq!(b"10:fe:ed:05:ba:50".to_vec(), address.mac.unwrap());
    assert_eq!([10, 0, 0, 181], address.ipv4.unwrap().octets);
    assert!(address.ipv6_global.is_none());
    assert!(address.ipv6_link_local.is_none());
}

#[test]
fn test_ipv4_missing() {
    let address = LocalAddress::from_responses(vec![
        line("STAIP6LL", "fe80::e6ee:e64e:84c:a745"),
        line("STAMAC", "10:fe:ed:05:ba:50"),
        line("STAIP6GL", "2a02:810d:1340:2df5:68e1:704d:4a72:656a"),
    ])
    .unwrap();
    assert_eq!(b"10:fe:ed:05:ba:50".to_vec(), address.mac.unwrap());
    assert!(address.ipv4.is_none());
    assert_eq!(LINK_LOCAL, address.ipv6_link_local.unwrap().segments);
    assert_eq!(GLOBAL, address.ipv6_global.unwrap().segments);
}

#[test]
fn test_missing_mac() {
    let address = LocalAddress::from_responses(vec![
        line("STAIP", "10.0.0.181"),
        line("STAIP6LL", "fe80::e6ee:e64e:84c:a745"),
        line("STAIP6GL", "2a02:810d:1340:2df5:68e1:704d:4a72:656a"),
    ])
    .unwrap();
    assert!(address.mac.is_none());
    assert_eq!([10, 0, 0, 181], address.ipv4.unwrap().octets);
    assert_eq!(LINK_LOCAL, address.ipv6_link_local.unwrap().segments);
    assert_eq!(GLOBAL, address.ipv6_global.unwrap().segments);
}

#[test]
fn test_unknown_type() {
    let address =
        LocalAddress::from_responses(vec![line("STAIP", "10.0.0.181"), line("MAGCIC", "123")]).unwrap();
    assert_eq!([10, 0, 0, 181], address.ipv4.unwrap().octets);
    assert!(address.ipv6_global.is_none());
    assert!(address.ipv6_link_local.is_none());
    assert!(address.mac.is_none());
}

#[test]
fn test_ipv4_parse_error() {
    let result = LocalAddress::from_responses(vec![line("STAIP", "10.0.0.0.1")]);
    assert_eq!(AddressErrors::AddressParseError, result.unwrap_err());
}

#[test]
fn test_link_local_ipv6_parse_error() {
    let result = LocalAddress::from_responses(vec![line("STAIP6LL", "zzz")]);
    assert_eq!(AddressErrors::AddressParseError, result.unwrap_err());
}

#[test]
fn test_global_ipv6_parse_error() {
    let result = LocalAddress::from_responses(vec![line("STAIP6GL", "123")]);
    assert_eq!(AddressErrors::AddressParseError, result.unwrap_err());
}

#[test]
fn test_mac_to_long() {
    let result = LocalAddress::from_responses(vec![line("STAMAC", "10:fe:ed:05:ba:50_")]);
    assert_eq!(AddressErrors::AddressParseError, result.unwrap_err());
}

#[test]
fn test_command_error() {
    let command = ObtainLocalAddressCommand::new();
    assert_eq!(AddressErrors::CommandError(AtError::Parse), command.command_error(AtError::Parse));
}

#[test]
fn address_ipv4_leading_zero_refused() {
    let result = LocalAddress::from_responses(vec![line("STAIP", "10.0.0.01")]);
    assert_eq!(AddressErrors::AddressParseError, result.unwrap_err());
}

#[test]
fn address_ipv6_full_form_and_upper_case() {
    let address = LocalAddress::from_responses(vec![line("STAIP6GL", "2A02:810D:1340:2DF5:68E1:704D:4A72:656A")])
        .unwrap();
    assert_eq!(GLOBAL, address.ipv6_global.unwrap().segments);
}

#[test]
fn address_ipv6_all_zero_and_edges() {
    let zero = LocalAddress::from_responses(vec![line("STAIP6GL", "::")]).unwrap();
    assert_eq!([0u16; 8], zero.ipv6_global.unwrap().segments);
    let tail = LocalAddress::from_responses(vec![line("STAIP6GL", "1::")]).unwrap();
    assert_eq!([1, 0, 0, 0, 0, 0, 0, 0], tail.ipv6_global.unwrap().segments);
    let head = LocalAddress::from_responses(vec![line("STAIP6GL", "::8")]).unwrap();
    assert_eq!([0, 0, 0, 0, 0, 0, 0, 8], head.ipv6_global.unwrap().segments);
    for bad in ["1::2::3", ":1:2:3:4:5:6:7", "1:2:3:4:5:6:7:8:9", "1:2:3:4:5:6:7:8::", "12345::", "1:2:3:4:5:6:7"] {
        let result = LocalAddress::from_responses(vec![line("STAIP6GL", bad)]);
        assert_eq!(AddressErrors::AddressParseError, result.unwrap_err(), "{}", bad);
    }
}

#[test]
fn address_later_line_wins_and_error_stops() {
    let address = LocalAddress::from_responses(vec![line("STAIP", "10.0.0.1"), line("STAIP", "10.0.0.2")]).unwrap();
    assert_eq!([10, 0, 0, 2], address.ipv4.unwrap().octets);
    let result = LocalAddress::from_responses(vec![line("STAIP", "300.0.0.1"), line("STAMAC", "aa")]);
    assert_eq!(AddressErrors::AddressParseError, result.unwrap_err());
}

#[test]
fn address_ipv6_embedded_ipv4() {
    let mapped = LocalAddress::from_responses(vec![line("STAIP6GL", "::ffff:1.2.3.4")]).unwrap();
    assert_eq!([0, 0, 0, 0, 0, 0xffff, 0x0102, 0x0304], mapped.ipv6_global.unwrap().segments);
    let full = LocalAddress::from_responses(vec![line("STAIP6LL", "1:2:3:4:5:6:10.0.0.181")]).unwrap();
    assert_eq!([1, 2, 3, 4, 5, 6, 0x0a00, 0x00b5], full.ipv6_link_local.unwrap().segments);
    for bad in ["1.2.3.4::", "1:2:3:4:5:6:7:1.2.3.4", "::1.2.3.04", "::1.2.3", "1:2:3:4:5:1.2.3.4", "::1.2.3.4:5"] {
        let result = LocalAddress::from_responses(vec![line("STAIP6GL", bad)]);
        assert_eq!(AddressErrors::AddressParseError, result.unwrap_err(), "{}", bad);
    }
}
