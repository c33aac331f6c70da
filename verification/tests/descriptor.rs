use relay_rank::text::str_to_chars;
use relay_rank::tor_status::consensus::Relay as ListedRelay;
use relay_rank::tor_status::descriptor::Descriptor;
use relay_rank::tor_status::{
    partners, Bandwidth, Consensus, Digest, FamilyMember, ParseError, Relay, RelayFlag,
};

const DESCRIPTOR: &str = "@type server-descriptor 1.0
router StarAppsMobley 84.234.21.98 9001 0 0
identity-ed25519
-----BEGIN ED25519 CERT-----
AQQABv2pAbzrZQ3yFcbeaKWAI4PhUUrBtxcCUmYxd0w6pSzhsTAnAQAgBADdWKhr
-----END ED25519 CERT-----
master-key-ed25519 3VioazEjeJqpTxsg7SeGmPzZ5qbA0MGvh4aS4lYGkuQ
or-address [2001:1600:18:100::10c]:9001
platform Tor 0.4.9.6 on Linux
proto Conflux=1 Cons=1-2 Desc=1-4 DirCache=2 FlowCtrl=1-2 HSDir=2 HSIntro=4-5 HSRend=1-2 Link=3-5 LinkAuth=3 Microdesc=1-3 Padding=2 Relay=2-6
published 2026-04-30 09:36:01
fingerprint 0028 3B55 64E3 072D CDDA B31D 6EF6 22DD 49BF 524F
uptime 1814400
bandwidth 4194304 5242880 4655958
extra-info-digest 2E2DF6C4A4F8D8B5D0F8D7D1F9BF5A80D3B8B1BC
onion-key
-----BEGIN RSA PUBLIC KEY-----
MIGJAoGBAMwwPwGZ
-----END RSA PUBLIC KEY-----
family $00283B5564E3072DCDDAB31D6EF622DD49BF524F $D5800F6C830E186C840165102D61988FA6A428AE FriendRelay
hidden-service-dir
contact Ünïcödé operator <op AT example DOT org>
ntor-onion-key uJ7kw6Ukp+0Zt5HlNLVOxHRk+X2xqF1sdVhi3aTnoXs
reject *:*
router-signature
-----BEGIN SIGNATURE-----
IwVnJ7bXHJnEpZhbGXQw
-----END SIGNATURE-----
";

#[test]
fn descriptor_descriptor() {
    let descriptor: Descriptor = DESCRIPTOR.parse().unwrap();
    assert_eq!(descriptor.uptime.seconds(), 1814400);
    assert_eq!(
        descriptor.bandwidth,
        Bandwidth { average: 4194304, burst: 5242880, observed: 4655958 }
    );
    assert_eq!(descriptor.family.len(), 3);
    assert_eq!(
        descriptor.family[0],
        FamilyMember::Digest(Digest::from_hex(&str_to_chars("00283B5564E3072DCDDAB31D6EF622DD49BF524F")).unwrap())
    );
    assert_eq!(descriptor.family[2], FamilyMember::Nickname("FriendRelay".to_string()));
}

#[test]
fn descriptor_requirements() {
    assert_eq!(
        "bandwidth 1 2 3\n".parse::<Descriptor>().unwrap_err(),
        ParseError::MissingField
    );
    assert_eq!("uptime 5\n".parse::<Descriptor>().unwrap_err(), ParseError::MissingField);
    let d: Descriptor = "uptime 5\r\nbandwidth 1 2 3".parse().unwrap();
    assert!(d.family.is_empty());
    assert_eq!(
        "uptime 5\nbandwidth 1 2 3\nfamily $XYZ\n".parse::<Descriptor>().unwrap_err(),
        ParseError::InvalidHex
    );
    assert_eq!("uptime x\n".parse::<Descriptor>().unwrap_err(), ParseError::InvalidNumber);
}

#[test]
fn descriptor_later_lines_replace_earlier_ones() {
    let d: Descriptor =
        "uptime 5\nbandwidth 1 2 3\nfamily A B\nuptime 9\nfamily C\n".parse().unwrap();
    assert_eq!(d.uptime.seconds(), 9);
    assert_eq!(d.family, vec![FamilyMember::Nickname("C".to_string())]);
}

fn listed(nickname: &str, id_b64: &str, ip: &str, flags: &str) -> ListedRelay {
    let text = format!(
        "r {nickname} {id_b64} 1YAPbIMOGGyEAWUQLWGYj6akKK4 2026-04-30 09:36:01 {ip} 9001 0\ns {flags}\nv Tor 0.4.9.6\nw Bandwidth=100\np reject 1-65535\n"
    );
    let chars = str_to_chars(&text);
    let (relay, _) = ListedRelay::parse_relay(&chars).unwrap();
    relay
}

fn described(family: &str) -> Descriptor {
    format!("uptime 10\nbandwidth 1 2 3\nfamily {family}\n").parse().unwrap()
}

#[test]
fn joined_relay_keeps_both_parts() {
    let l = listed("Alpha", "ACg7VWTjBy3N2rMdbvYi3Um/Uk8", "84.234.21.98", "Guard Exit Fast");
    let d = described("Beta");
    let relay = Relay::from((l.clone(), d.clone()));
    assert_eq!(relay.nickname, l.nickname);
    assert_eq!(relay.id, l.id);
    assert_eq!(relay.consensus_bandwith, 100);
    assert_eq!(relay.uptime, d.uptime);
    assert_eq!(relay.family, d.family);
    assert!(relay.is_guard() && relay.is_exit() && relay.is_dual());
    assert_eq!(relay.fingerprint(), "00283B5564E3072DCDDAB31D6EF622DD49BF524F");
}

#[test]
fn relays_that_may_share_a_circuit() {
    let a = Relay::from((
        listed("Alpha", "ACg7VWTjBy3N2rMdbvYi3Um/Uk8", "84.234.21.98", "Guard"),
        described("Beta"),
    ));
    let b = Relay::from((
        listed("Beta", "1YAPbIMOGGyEAWUQLWGYj6akKK4", "10.0.0.1", "Exit"),
        described("$00283B5564E3072DCDDAB31D6EF622DD49BF524F"),
    ));
    let c = Relay::from((
        listed("Gamma", "1YAPbIMOGGyEAWUQLWGYj6akKK4", "10.0.0.1", "Exit"),
        described("Delta"),
    ));
    let d = Relay::from((
        listed("Delta", "AAAAAAAAAAAAAAAAAAAAAAAAAAA", "84.234.1.1", "Exit"),
        described("Alpha"),
    ));
    // a and b declare each other: one family
    assert!(a.declares(&b) && b.declares(&a));
    assert!(!a.reach(&b) && !b.reach(&a));
    // a declares Beta by nickname, but c is Gamma: no family; different networks
    assert!(a.reach(&c) && c.reach(&a));
    // same /16 network
    assert!(!a.reach(&d) && !d.reach(&a));
    // a relay never reaches itself
    assert!(!a.reach(&a));
    // same identity
    assert!(!b.reach(&c));
}

#[test]
fn position_weights() {
    let guard = Relay::from((
        listed("Alpha", "ACg7VWTjBy3N2rMdbvYi3Um/Uk8", "84.234.21.98", "Guard"),
        described("Beta"),
    ));
    let dual = Relay::from((
        listed("Beta", "1YAPbIMOGGyEAWUQLWGYj6akKK4", "10.0.0.1", "Guard Exit"),
        described("Alpha"),
    ));
    let footer = str_to_chars("directory-footer\nbandwidth-weights Wgg=5570 Wgd=1276 Wee=10000 Wed=7447\nx\n");
    let w = relay_rank::tor_status::consensus::Consensus::parse_footer(&footer).unwrap();
    assert_eq!(guard.guard_weight(&w), 5570);
    assert_eq!(guard.exit_weight(&w), 7447);
    assert_eq!(dual.guard_weight(&w), 1276);
    assert_eq!(dual.exit_weight(&w), 7447);
    let empty = relay_rank::tor_status::BandwithWeights::new();
    assert_eq!(guard.guard_weight(&empty), 0);
}

#[test]
fn dotted_address_reads_back() {
    let relay = Relay::from((
        listed("Alpha", "ACg7VWTjBy3N2rMdbvYi3Um/Uk8", "84.234.21.98", "Guard"),
        described("Beta"),
    ));
    assert_eq!(relay.ip.dotted(), "84.234.21.98");
    let back: relay_rank::tor_status::net::Ipv4Addr = relay.ip.dotted().parse().unwrap();
    assert_eq!(back, relay.ip);
    let zero = relay_rank::tor_status::net::Ipv4Addr::new([0, 10, 100, 255]);
    assert_eq!(zero.dotted(), "0.10.100.255");
}

#[test]
fn consensus_of_joined_relays() {
    let l = listed("Alpha", "ACg7VWTjBy3N2rMdbvYi3Um/Uk8", "84.234.21.98", "Guard");
    let relay = Relay::from((l, described("Beta")));
    let footer = str_to_chars("directory-footer\nbandwidth-weights Wgg=5570\nx\n");
    let weights = relay_rank::tor_status::consensus::Consensus::parse_footer(&footer).unwrap();
    let consensus = Consensus::from_parts(vec![relay.clone()], weights);
    assert_eq!(consensus.relays(), &[relay][..]);
    assert_eq!(consensus.bandwidth_weights().get("Wgg"), Some(5570));
}

#[test]
fn partners_of_guards_and_exits() {
    let a = Relay::from((
        listed("Alpha", "ACg7VWTjBy3N2rMdbvYi3Um/Uk8", "84.234.21.98", "Guard"),
        described("Beta"),
    ));
    let b = Relay::from((
        listed("Beta", "1YAPbIMOGGyEAWUQLWGYj6akKK4", "10.0.0.1", "Exit"),
        described("$00283B5564E3072DCDDAB31D6EF622DD49BF524F"),
    ));
    let c = Relay::from((
        listed("Gamma", "1YAPbIMOGGyEAWUQLWGYj6akKK8", "10.1.0.1", "Exit Guard"),
        described("Delta"),
    ));
    let d = Relay::from((
        listed("Delta", "AAAAAAAAAAAAAAAAAAAAAAAAAAA", "84.234.1.1", "Exit"),
        described("Alpha"),
    ));
    let e = Relay::from((
        listed("Epsilon", "AAAAAAAAAAAAAAAAAAAAAAAAAAE", "192.168.0.1", "Fast"),
        described("Alpha"),
    ));
    let relays = vec![a.clone(), b.clone(), c.clone(), d.clone(), e];
    // b is in a's family, d in a's /16: only c remains
    assert_eq!(partners(&relays, &a, RelayFlag::Exit), vec![2]);
    assert_eq!(partners(&relays, &c, RelayFlag::Guard), vec![0]);
    // c as a guard: every other exit, not itself
    assert_eq!(partners(&relays, &c, RelayFlag::Exit), vec![1, 3]);
    assert_eq!(partners(&relays, &b, RelayFlag::Guard), vec![2]);
    assert_eq!(partners(&relays, &d, RelayFlag::Guard), vec![2]);
}
