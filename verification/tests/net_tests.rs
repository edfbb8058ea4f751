use metalbond::net::{
    InvalidAddressLength, IpAddr, IpNet, InvalidPrefix, PrefixLenError, SocketAddr,
};

#[test]
fn octets_come_back() {
    let v4 = IpAddr::V4(0x0a00_0001);
    assert_eq!(v4.addr_bytes_vec(), vec![10, 0, 0, 1]);
    assert_eq!(IpAddr::from_slice(&[10, 0, 0, 1]), Ok(v4));

    let v6 = IpAddr::V6(0x2001_0db8_0000_0000_0000_0000_0000_0102);
    let bytes = v6.addr_bytes_vec();
    assert_eq!(bytes, vec![0x20, 1, 0x0d, 0xb8, 0, 0, 0, 0, 0, 0, 0, 0, 0, 0, 1, 2]);
    assert_eq!(IpAddr::from_slice(&bytes), Ok(v6));
    assert_eq!(IpAddr::from_slice(&[255; 16]), Ok(IpAddr::V6(u128::MAX)));
    assert_eq!(IpAddr::from_slice(&[255; 4]), Ok(IpAddr::V4(u32::MAX)));

    assert_eq!(IpAddr::from_slice(&[1; 5]), Err(InvalidAddressLength(5)));
    assert_eq!(IpAddr::from_slice(&[]), Err(InvalidAddressLength(0)));
}

#[test]
fn addresses_as_text() {
    assert_eq!(IpAddr::V4(0x0a00_0001).to_string(), "10.0.0.1");
    assert_eq!(IpAddr::V4(u32::MAX).to_string(), "255.255.255.255");
    assert_eq!(IpAddr::V6(1).to_string(), "::1");
    assert_eq!(IpAddr::V6(0xffff_0a00_0001).to_string(), "::ffff:10.0.0.1");
    assert_eq!(IpAddr::from_str("10.0.0.1"), Ok(IpAddr::V4(0x0a00_0001)));
    assert_eq!(IpAddr::from_str("::1"), Ok(IpAddr::V6(1)));
    assert!(IpAddr::from_str("10.0.0").is_err());
    assert!(IpAddr::from_str("").is_err());
}

#[test]
fn prefix_lengths() {
    let v4 = IpAddr::V4(0x0a00_0001);
    assert_eq!(IpNet::new(v4, 33), Err(PrefixLenError {}));
    assert!(IpNet::new(v4, 32).is_ok());
    assert!(IpNet::new(IpAddr::V6(1), 128).is_ok());
    assert_eq!(IpNet::new(IpAddr::V6(1), 129), Err(PrefixLenError {}));
    let net = IpNet::new(v4, 24).unwrap();
    assert_eq!(net.addr(), v4);
    assert_eq!(net.prefix_len(), 24);
}

#[test]
fn networks() {
    let network = |text: &str| IpNet::from_str(text).unwrap().network().to_string();
    assert_eq!(network("172.16.123.123/16"), "172.16.0.0");
    assert_eq!(network("10.1.2.3/32"), "10.1.2.3");
    assert_eq!(network("10.1.2.3/0"), "0.0.0.0");
    assert_eq!(network("10.1.2.255/31"), "10.1.2.254");
    assert_eq!(network("2001:db8:ffff::1/33"), "2001:db8:8000::");
    assert_eq!(network("ffff::1/128"), "ffff::1");
    assert_eq!(network("ffff::1/0"), "::");
}

#[test]
fn prefixes_as_text() {
    for text in ["192.168.1.0/24", "10.0.0.1/8", "::/0", "2001:db8::/64", "::ffff:1.2.3.4/128"] {
        let net = IpNet::from_str(text).unwrap();
        assert_eq!(net.to_string(), text);
        assert_eq!(IpNet::from_str(&net.to_string()), Ok(net));
    }
    assert_eq!(IpNet::from_str("10.0.0.0/33"), Err(InvalidPrefix {}));
    assert_eq!(IpNet::from_str("10.0.0.0"), Err(InvalidPrefix {}));
    assert_eq!(IpNet::from_str("::/129"), Err(InvalidPrefix {}));
}

#[test]
fn socket_addresses() {
    let addr = SocketAddr::new(IpAddr::V4(0x7f00_0001), 4711);
    assert_eq!(addr.ip, IpAddr::V4(0x7f00_0001));
    assert_eq!(addr.port, 4711);
    assert_eq!(addr.flowinfo, 0);
    assert_eq!(addr.scope_id, 0);
}
