use relay_rank::numbers::{decimal_chars, parse_u16, parse_u32, parse_u8, parse_usize};
use relay_rank::parse_exclusion_list;
use relay_rank::text::{lines_at, split_all_at, split_n_at, split_once_at, str_to_chars};
use relay_rank::tor_status::net::{Ipv4Addr, SocketAddrV6};
use relay_rank::tor_status::paths::{consensus_file_name, descriptor_dir_name, previous_month};
use relay_rank::tor_status::{
    BandwithWeights, Bandwidth, Digest, FamilyMember, ParseError, Port, RelayFlag, RelayFlags,
    RelayId, Uptime, Version,
};

fn strings(v: Vec<&[char]>) -> Vec<String> {
    v.into_iter().map(|p| p.iter().collect()).collect()
}

#[test]
fn descriptor_bandwith() {
    let b: Bandwidth = "4194304 5242880 4655958".parse().unwrap();
    assert_eq!(b, Bandwidth { average: 4194304, burst: 5242880, observed: 4655958 });
}

#[test]
fn bandwidth_errors() {
    assert_eq!("1 2".parse::<Bandwidth>().unwrap_err(), ParseError::MissingField);
    assert_eq!("1 x 3".parse::<Bandwidth>().unwrap_err(), ParseError::InvalidNumber);
    let b: Bandwidth = "1 2 3 4".parse().unwrap();
    assert_eq!(b.observed, 3);
}

#[test]
fn numbers_as_str_parse_reads_them() {
    assert_eq!(parse_u32(&str_to_chars("+5")), Some(5));
    assert_eq!(parse_u32(&str_to_chars("007")), Some(7));
    assert_eq!(parse_u32(&str_to_chars("")), None);
    assert_eq!(parse_u32(&str_to_chars("+")), None);
    assert_eq!(parse_u32(&str_to_chars("-1")), None);
    assert_eq!(parse_u32(&str_to_chars("4294967295")), Some(4294967295));
    assert_eq!(parse_u32(&str_to_chars("4294967296")), None);
    assert_eq!(parse_u16(&str_to_chars("65536")), None);
    assert_eq!(parse_u8(&str_to_chars("255")), Some(255));
    assert_eq!(parse_u8(&str_to_chars("256")), None);
    assert_eq!(parse_usize(&str_to_chars("12")), Some(12));
    for s in ["0", "+7", "12x", "99999999999", "00", " 1"] {
        assert_eq!(parse_u32(&str_to_chars(s)), s.parse::<u32>().ok());
    }
}

#[test]
fn decimal_digits() {
    assert_eq!(decimal_chars(0).iter().collect::<String>(), "0");
    assert_eq!(decimal_chars(40960).iter().collect::<String>(), "40960");
}

#[test]
fn text_splitting() {
    let s = str_to_chars("a  b ");
    assert_eq!(strings(split_all_at(&s, ' ')), vec!["a", "", "b", ""]);
    let t = str_to_chars("0.4.9.6.7");
    assert_eq!(strings(split_n_at(&t, '.', 4)), vec!["0", "4", "9", "6.7"]);
    assert!(split_once_at(&str_to_chars("abc"), ' ').is_none());
    let l = str_to_chars("a\r\nb\n\nc\r");
    assert_eq!(strings(lines_at(&l)), vec!["a", "b", "", "c\r"]);
    assert_eq!(strings(lines_at(&str_to_chars("x\n"))), vec!["x"]);
    assert!(lines_at(&str_to_chars("")).is_empty());
}

#[test]
fn relay_flags_each_name() {
    let names = [
        ("Authority", RelayFlag::Authority, 0x0001),
        ("BadExit", RelayFlag::BadExit, 0x0002),
        ("Exit", RelayFlag::Exit, 0x0004),
        ("Fast", RelayFlag::Fast, 0x0008),
        ("Guard", RelayFlag::Guard, 0x0010),
        ("HSDir", RelayFlag::HSDir, 0x0020),
        ("MiddleOnly", RelayFlag::MiddleOnly, 0x0040),
        ("NoEdConsensus", RelayFlag::NoEdConsensus, 0x0080),
        ("Stable", RelayFlag::Stable, 0x0100),
        ("StaleDesc", RelayFlag::StaleDesc, 0x0200),
        ("Sybil", RelayFlag::Sybil, 0x0400),
        ("Running", RelayFlag::Running, 0x0800),
        ("Valid", RelayFlag::Valid, 0x1000),
        ("V2Dir", RelayFlag::V2Dir, 0x2000),
    ];
    for (name, flag, bit) in names {
        let f: RelayFlags = name.parse().unwrap();
        assert_eq!(f.bits(), bit);
        assert_eq!(f, RelayFlags::flag(flag));
    }
    assert_eq!("guard".parse::<RelayFlags>().unwrap_err(), ParseError::UnknownFlag);
    assert_eq!("".parse::<RelayFlags>().unwrap_err(), ParseError::UnknownFlag);
}

#[test]
fn version_parsing() {
    let v: Version = "Tor 0.4.9.6".parse().unwrap();
    assert_eq!(v.numbers(), (0, 4, 9, 6));
    assert!(v.status().is_none());
    let v: Version = "Tor 0.4.8.10-alpha-dev".parse().unwrap();
    assert_eq!(v.numbers(), (0, 4, 8, 10));
    assert_eq!(v.status().unwrap(), "alpha-dev");
    assert_eq!("Tor".parse::<Version>().unwrap_err(), ParseError::InvalidVersion);
    assert_eq!("Tor 0.4.9".parse::<Version>().unwrap_err(), ParseError::InvalidVersion);
    assert_eq!("Tor 0.4.9.6.7".parse::<Version>().unwrap_err(), ParseError::InvalidNumber);
    assert_eq!("Tor 0.4.9.256".parse::<Version>().unwrap_err(), ParseError::InvalidNumber);
    assert!(Version::new(0, 4, 9, 6, None) < Version::new(0, 4, 9, 7, None));
}

#[test]
fn identities_from_base64() {
    let id: RelayId = "ACg7VWTjBy3N2rMdbvYi3Um/Uk8".parse().unwrap();
    assert_eq!(
        id.bytes(),
        [0, 40, 59, 85, 100, 227, 7, 45, 205, 218, 179, 29, 110, 246, 34, 221, 73, 191, 82, 79]
    );
    let d: Digest = "1YAPbIMOGGyEAWUQLWGYj6akKK4".parse().unwrap();
    assert_eq!(d.encode_hex(), "d5800f6c830e186c840165102d61988fa6a428ae");
    assert_eq!("ACg7VWTjBy3N2rMdbvYi3Um/Uk".parse::<RelayId>().unwrap_err(), ParseError::InvalidId);
    assert_eq!("ACg7VWTjBy3N2rMdbvYi3Um/Uk8=".parse::<RelayId>().unwrap_err(), ParseError::InvalidId);
    assert_eq!("ACg7VWTjBy3N2rMdbvYi3Um/Uk!".parse::<RelayId>().unwrap_err(), ParseError::InvalidId);
    assert_eq!("ACg7VWTjBy3N2rMdbvYi3Um/Uk9".parse::<RelayId>().unwrap_err(), ParseError::InvalidId);
}

#[test]
fn identities_from_hex() {
    let hex = str_to_chars("00283B5564E3072DCDDAB31D6EF622DD49BF524F");
    let id = RelayId::from_hex(&hex).unwrap();
    let b64: RelayId = "ACg7VWTjBy3N2rMdbvYi3Um/Uk8".parse().unwrap();
    assert_eq!(id, b64);
    assert_eq!(id.fingerprint(), "00283B5564E3072DCDDAB31D6EF622DD49BF524F");
    let lower = str_to_chars("00283b5564e3072dcddab31d6ef622dd49bf524f");
    assert_eq!(RelayId::from_hex(&lower).unwrap(), id);
    assert_eq!(RelayId::from_hex(&str_to_chars("00283B")).unwrap_err(), ParseError::InvalidHex);
    assert_eq!(
        RelayId::from_hex(&str_to_chars("00283B5564E3072DCDDAB31D6EF622DD49BF524G")).unwrap_err(),
        ParseError::InvalidHex
    );
    let d = Digest::new([0xab; 20]);
    assert_eq!(Digest::from_hex(&str_to_chars(&d.encode_hex())).unwrap(), d);
    assert_eq!(Digest::from_hex(&str_to_chars(&d.encode_hex_upper())).unwrap(), d);
    assert_eq!(d.encode_hex(), "abababababababababababababababababababab");
}

#[test]
fn family_members() {
    let m: FamilyMember = "$00283B5564E3072DCDDAB31D6EF622DD49BF524F".parse().unwrap();
    assert_eq!(
        m,
        FamilyMember::Digest(Digest::new([
            0, 40, 59, 85, 100, 227, 7, 45, 205, 218, 179, 29, 110, 246, 34, 221, 73, 191, 82, 79
        ]))
    );
    let n: FamilyMember = "SomeRelay".parse().unwrap();
    assert_eq!(n, FamilyMember::Nickname("SomeRelay".to_string()));
    assert_eq!("$1234".parse::<FamilyMember>().unwrap_err(), ParseError::InvalidHex);
    assert_eq!("$".parse::<FamilyMember>().unwrap_err(), ParseError::InvalidHex);
}

#[test]
fn ports_and_uptimes() {
    assert_eq!("9001".parse::<Port>().unwrap().number(), 9001);
    assert_eq!("65536".parse::<Port>().unwrap_err(), ParseError::InvalidNumber);
    assert_eq!("86400".parse::<Uptime>().unwrap().seconds(), 86400);
    assert_eq!("-1".parse::<Uptime>().unwrap_err(), ParseError::InvalidNumber);
}

#[test]
fn ipv4_addresses() {
    assert_eq!("84.234.21.98".parse::<Ipv4Addr>().unwrap().octets(), [84, 234, 21, 98]);
    assert_eq!("0.0.0.0".parse::<Ipv4Addr>().unwrap().octets(), [0, 0, 0, 0]);
    assert_eq!("255.255.255.255".parse::<Ipv4Addr>().unwrap().octets(), [255, 255, 255, 255]);
    assert_eq!("10.0.0.1".parse::<Ipv4Addr>().unwrap().octets(), [10, 0, 0, 1]);
    for bad in ["01.2.3.4", "256.1.1.1", "1.2.3", "1.2.3.4.5", "1..2.3", "", "1.2.3.4 ", "+1.2.3.4", "1234.1.1.1"] {
        assert_eq!(bad.parse::<Ipv4Addr>().unwrap_err(), ParseError::InvalidAddress, "{bad}");
    }
}

#[test]
fn ipv6_socket_addresses() {
    let cases: [(&str, [u16; 8], u16, u32); 11] = [
        ("[2001:1600:18:100::10c]:9001", [0x2001, 0x1600, 0x18, 0x100, 0, 0, 0, 0x10c], 9001, 0),
        ("[::1]:80", [0, 0, 0, 0, 0, 0, 0, 1], 80, 0),
        ("[::]:0", [0; 8], 0, 0),
        ("[1:2:3:4:5:6:7:8]:65535", [1, 2, 3, 4, 5, 6, 7, 8], 65535, 0),
        ("[::ffff:1.2.3.4]:1", [0, 0, 0, 0, 0, 0xffff, 0x0102, 0x0304], 1, 0),
        ("[1:2:3:4:5:6:1.2.3.4]:2", [1, 2, 3, 4, 5, 6, 0x0102, 0x0304], 2, 0),
        ("[1::]:3", [1, 0, 0, 0, 0, 0, 0, 0], 3, 0),
        ("[1:2:3:4:5:6:7::]:4", [1, 2, 3, 4, 5, 6, 7, 0], 4, 0),
        ("[fe80::1%5]:22", [0xfe80, 0, 0, 0, 0, 0, 0, 1], 22, 5),
        ("[::1]:0080", [0, 0, 0, 0, 0, 0, 0, 1], 80, 0),
        ("[ABCD::ef]:1", [0xabcd, 0, 0, 0, 0, 0, 0, 0xef], 1, 0),
    ];
    for (text, segments, port, scope) in cases {
        let a = text.parse::<SocketAddrV6>().unwrap();
        assert_eq!(a.segments(), segments, "{text}");
        assert_eq!(a.port(), port, "{text}");
        assert_eq!(a.scope_id(), scope, "{text}");
    }
    let bad = [
        "[1::2::3]:1",
        "[::1]",
        "[::1]:+80",
        "[::1]:",
        "::1:80",
        "[1:2:3:4:5:6:7:8:9]:1",
        "[1:2:3:4:5:6:7:8::]:1",
        "[12345::]:1",
        "[1.2.3.4::]:1",
        "[::1%]:1",
        "[::1]:65536",
        "[:1::]:1",
        "[1:2:3:4:5:6:7:1.2.3.4]:1",
        "[::1]]:1",
        "[]:1",
        "[:::]:1",
    ];
    for c in bad {
        assert_eq!(c.parse::<SocketAddrV6>().unwrap_err(), ParseError::InvalidAddress, "{c}");
    }
}

#[test]
fn file_names() {
    assert_eq!(consensus_file_name(2026, 5, 1, 0, 0, 0), "2026-05-01-00-00-00-consensus");
    assert_eq!(consensus_file_name(2021, 11, 30, 23, 59, 7), "2021-11-30-23-59-07-consensus");
    assert_eq!(descriptor_dir_name(2021, 11), "server-descriptors-2021-11");
    assert_eq!(descriptor_dir_name(-5, 1), format!("server-descriptors-{:04}-{:02}", -5, 1));
    assert_eq!(descriptor_dir_name(12345, 10), format!("server-descriptors-{:04}-{:02}", 12345, 10));
}

#[test]
fn bandwidth_weights_read_back_what_was_set() {
    let mut w = BandwithWeights::new();
    assert_eq!(w.get("Wgg"), None);
    w.insert("Wgg".to_string(), 5570);
    w.insert("Wgd".to_string(), 1276);
    w.insert("Wgg".to_string(), 4000);
    assert_eq!(w.get("Wgg"), Some(4000));
    assert_eq!(w.get("Wgd"), Some(1276));
}

#[test]
fn exclusion_lists() {
    let ids = parse_exclusion_list(
        "00283B5564E3072DCDDAB31D6EF622DD49BF524F\r\nd5800f6c830e186c840165102d61988fa6a428ae\n",
    )
    .unwrap();
    assert_eq!(ids.len(), 2);
    assert_eq!(ids[0].fingerprint(), "00283B5564E3072DCDDAB31D6EF622DD49BF524F");
    assert_eq!(ids[1].fingerprint(), "D5800F6C830E186C840165102D61988FA6A428AE");
    assert_eq!(parse_exclusion_list("").unwrap().len(), 0);
    assert_eq!(
        parse_exclusion_list("00283B5564E3072DCDDAB31D6EF622DD49BF524F\n\n").unwrap_err(),
        ParseError::InvalidHex
    );
}

#[test]
fn fingerprint_reads_back_through_exclusion_list() {
    let id = RelayId::new([7; 20]);
    let ids = parse_exclusion_list(&id.fingerprint()).unwrap();
    assert_eq!(ids, vec![id]);
}

#[test]
fn version_written_as_tor_writes_it_reads_back() {
    for (a, b, c, d) in [(0u8, 4u8, 9u8, 6u8), (255, 0, 10, 199)] {
        let v: Version = format!("Tor {a}.{b}.{c}.{d}").parse().unwrap();
        assert_eq!(v, Version::new(a, b, c, d, None));
        let v: Version = format!("Tor {a}.{b}.{c}.{d}-rc-dev x.y").parse().unwrap();
        assert_eq!(v, Version::new(a, b, c, d, Some("rc-dev x.y".to_string())));
    }
}

#[test]
fn previous_month_of_the_descriptor_folder() {
    assert_eq!(previous_month(2026, 5), Some((2026, 4)));
    assert_eq!(previous_month(2026, 1), Some((2025, 12)));
    assert_eq!(previous_month(i32::MIN, 1), None);
    let (y, m) = previous_month(2026, 1).unwrap();
    assert_eq!(descriptor_dir_name(y, m), "server-descriptors-2025-12");
}
