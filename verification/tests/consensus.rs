use relay_rank::text::str_to_chars;
use relay_rank::tor_status::consensus::{Consensus, Relay};
use relay_rank::tor_status::{ParseError, RelayFlag, RelayFlags};

const FOOTER: &str = "directory-footer
bandwidth-weights Wbd=1276 Wbe=0 Wbg=4430 Wbm=10000 Wdb=10000 Web=10000 Wed=7447 Wee=10000 Weg=7447 Wem=10000 Wgb=10000 Wgd=1276 Wgg=5570 Wgm=5570 Wmb=10000 Wmd=1276 Wme=0 Wmg=4430 Wmm=10000
directory-signature 0232AF901C31A04EE9848595AF9BB7620D4C5B2E 79ABAEE942F8F0F6E5FEB989D2539B05AB86DD8B
-----BEGIN SIGNATURE-----
Dtx5MNHwIZ/peN77uhDz70LSVHuFcSRZnpvxTnTTI63Sliz8rgAEy7XVn+vVnyQi
TF81h0QR+JyDOiX8UqlKWyV7Q9FdsQ2Q581hiHH7AUOgUh4vKGodr+yijTfdYw5U
9ivFKcLShXfo8m4tSsPpAd0sEpTwL1L9V9Kjb+qR8nb0DNiE+Ntq7AhBFKj6xPPq
U539pXSIgzKgSbAE2pTIEHqLoHVHBStZ5+g6QxY8zp457u0F0kLoS2Qdev69Ayft
UNPylxjvX0nB5XWwlSRhFRjrPHU+l+pi8L7qKiFnrmKQVbb4ADbFQZXDOY7UX6fP
T0YyB5oFq5qcZfS+lNjeiQ==
-----END SIGNATURE-----";

const RELAY: &str = "r StarAppsMobley ACg7VWTjBy3N2rMdbvYi3Um/Uk8 1YAPbIMOGGyEAWUQLWGYj6akKK4 2026-04-30 09:36:01 84.234.21.98 9001 0
a [2001:1600:18:100::10c]:9001
s Fast Guard Running Stable V2Dir Valid
v Tor 0.4.9.6
pr Conflux=1 Cons=1-2 Desc=1-4 DirCache=2 FlowCtrl=1-2 HSDir=2 HSIntro=4-5 HSRend=1-2 Link=3-5 LinkAuth=3 Microdesc=1-3 Padding=2 Relay=2-6
w Bandwidth=61000
p reject 1-65535
";

const SECOND_RELAY: &str = "r SecondRelay 1YAPbIMOGGyEAWUQLWGYj6akKK4 ACg7VWTjBy3N2rMdbvYi3Um/Uk8 2026-04-30 10:00:00 10.1.2.3 443 80
s Exit Fast Running Valid
v Tor 0.4.8.10-alpha
w Bandwidth=1200 Unmeasured=1
p accept 80,443
";

fn consensus_text() -> String {
    let mut text = String::new();
    text.push_str("network-status-version 3\n");
    text.push_str("vote-status consensus\n");
    text.push_str("consensus-method 34\n");
    text.push_str("valid-after 2026-05-01 00:00:00\n");
    text.push_str("known-flags Authority BadExit Exit Fast Guard HSDir MiddleOnly NoEdConsensus Running Stable StaleDesc Sybil V2Dir Valid\n");
    text.push_str("dir-source moria1 F533C81CEF0BC0267857C99B2F471ADF249FA232 128.31.0.39 128.31.0.39 9131 9101\n");
    text.push_str("contact 1024D/EB5A896A28988BF5 arma mit edu\n");
    text.push_str("vote-digest 2E2DF6C4A4F8D8B5D0F8D7D1F9BF5A80D3B8B1BC\n");
    text.push_str(RELAY);
    text.push_str(SECOND_RELAY);
    text.push_str(FOOTER);
    text
}

#[test]
fn consensus_footer() {
    let footer = str_to_chars(FOOTER);
    let weights = Consensus::parse_footer(&footer).unwrap();
    assert_eq!(weights.get("Wbd"), Some(1276));
    assert_eq!(weights.get("Wgg"), Some(5570));
    assert_eq!(weights.get("Wmm"), Some(10000));
    assert_eq!(weights.get("bandwidth-weights"), None);
    assert_eq!(weights.entries().len(), 19);
}

#[test]
fn consensus_relay() {
    let description = str_to_chars(RELAY);
    let (relay, rest) = Relay::parse_relay(&description).unwrap();
    assert!(rest.is_empty());
    assert_eq!(relay.nickname, "StarAppsMobley");
    assert_eq!(relay.id.fingerprint(), "00283B5564E3072DCDDAB31D6EF622DD49BF524F");
    assert_eq!(relay.digest.encode_hex_upper(), "D5800F6C830E186C840165102D61988FA6A428AE");
    assert_eq!(relay.ip.octets(), [84, 234, 21, 98]);
    assert_eq!(relay.orport.number(), 9001);
    assert_eq!(relay.dirport.number(), 0);
    let v6 = relay.ipv6.unwrap();
    assert_eq!(v6.segments(), [0x2001, 0x1600, 0x18, 0x100, 0, 0, 0, 0x10c]);
    assert_eq!(v6.port(), 9001);
    assert_eq!(v6.scope_id(), 0);
    assert!(relay.flags.has(RelayFlag::Guard));
    assert!(relay.flags.has(RelayFlag::Fast));
    assert!(!relay.flags.has(RelayFlag::Exit));
    assert_eq!(relay.flags.bits(), 0x0008 | 0x0010 | 0x0800 | 0x0100 | 0x2000 | 0x1000);
    assert_eq!(relay.verison.numbers(), (0, 4, 9, 6));
    assert!(relay.verison.status().is_none());
    assert_eq!(relay.bandwidth, 61000);
}

#[test]
fn consensus_parse_consensus() {
    let content = consensus_text();
    let consensus: Consensus = content.parse().unwrap();
    assert_eq!(consensus.relays.len(), 2);
    assert_eq!(consensus.relays[0].nickname, "StarAppsMobley");
    assert_eq!(consensus.relays[1].nickname, "SecondRelay");
    assert!(consensus.relays[1].ipv6.is_none());
    assert_eq!(consensus.relays[1].bandwidth, 1200);
    assert_eq!(consensus.relays[1].verison.status().map(|s| s.as_str()), Some("alpha"));
    assert_eq!(consensus.relays[1].verison.numbers(), (0, 4, 8, 10));
    assert_eq!(consensus.bandwidth_weights.get("Wed"), Some(7447));
}

#[test]
fn consensus_parse_str_matches_from_str() {
    let content = consensus_text();
    let a = Consensus::parse_str(&content).unwrap();
    let b: Consensus = content.parse().unwrap();
    assert_eq!(a, b);
}

#[test]
fn consensus_unknown_line_between_entries_is_refused() {
    let mut text = String::from(RELAY);
    text.push_str("m 8,9 sha256=abc\n");
    text.push_str(FOOTER);
    let chars = str_to_chars(&text);
    assert_eq!(Consensus::parse_relays(&chars).unwrap_err(), ParseError::MissingSeparator);
}

#[test]
fn consensus_relay_list_ends_at_footer() {
    let mut text = String::from(RELAY);
    text.push_str(FOOTER);
    let chars = str_to_chars(&text);
    let (relays, rest) = Consensus::parse_relays(&chars).unwrap();
    assert_eq!(relays.len(), 1);
    assert_eq!(rest.len(), str_to_chars(FOOTER).len());
}

#[test]
fn consensus_missing_dir_source_fails() {
    let chars = str_to_chars("network-status-version 3\nvote-status consensus\n");
    assert_eq!(Consensus::parse_preamble(&chars).unwrap_err(), ParseError::MissingSeparator);
}

#[test]
fn consensus_preamble_stops_at_dir_source() {
    let chars = str_to_chars("a b\ndir-source x\nr y\n");
    let rest = Consensus::parse_preamble(&chars).unwrap();
    assert_eq!(rest.iter().collect::<String>(), "dir-source x\nr y\n");
    let rest = Consensus::parse_authorities(rest).unwrap();
    assert_eq!(rest.iter().collect::<String>(), "r y\n");
}

#[test]
fn consensus_relay_errors() {
    let missing_version = "r A ACg7VWTjBy3N2rMdbvYi3Um/Uk8 1YAPbIMOGGyEAWUQLWGYj6akKK4 2026-04-30 09:36:01 84.234.21.98 9001 0\ns Fast\nw Bandwidth=1\np reject 1-65535\n";
    assert_eq!(Relay::parse_relay(&str_to_chars(missing_version)).unwrap_err(), ParseError::MissingField);
    let bad_id = "r A ACg7VWTjBy3N2rMdbvYi3Um/Uk 1YAPbIMOGGyEAWUQLWGYj6akKK4 2026-04-30 09:36:01 84.234.21.98 9001 0\n";
    assert_eq!(Relay::parse_relay(&str_to_chars(bad_id)).unwrap_err(), ParseError::InvalidId);
    let bad_ip = "r A ACg7VWTjBy3N2rMdbvYi3Um/Uk8 1YAPbIMOGGyEAWUQLWGYj6akKK4 2026-04-30 09:36:01 84.234.021.98 9001 0\n";
    assert_eq!(Relay::parse_relay(&str_to_chars(bad_ip)).unwrap_err(), ParseError::InvalidAddress);
    let short = "r A ACg7VWTjBy3N2rMdbvYi3Um/Uk8 1YAPbIMOGGyEAWUQLWGYj6akKK4 2026-04-30 09:36:01 84.234.21.98 9001\n";
    assert_eq!(Relay::parse_relay(&str_to_chars(short)).unwrap_err(), ParseError::MissingField);
    let bad_flag = "s Fast Fastest\n";
    assert_eq!(Relay::parse_relay(&str_to_chars(bad_flag)).unwrap_err(), ParseError::UnknownFlag);
    let bad_w = "w Bandwidth\n";
    assert_eq!(Relay::parse_relay(&str_to_chars(bad_w)).unwrap_err(), ParseError::MissingSeparator);
    let no_newline = "r A";
    assert_eq!(Relay::parse_relay(&str_to_chars(no_newline)).unwrap_err(), ParseError::MissingSeparator);
    let no_space = "p\n";
    assert_eq!(Relay::parse_relay(&str_to_chars(no_space)).unwrap_err(), ParseError::MissingSeparator);
}

#[test]
fn consensus_footer_errors_and_repeats() {
    let missing_eq = str_to_chars("directory-footer\nbandwidth-weights Wbd=1 Wbe\nx\n");
    assert_eq!(Consensus::parse_footer(&missing_eq).unwrap_err(), ParseError::MissingSeparator);
    let bad_number = str_to_chars("directory-footer\nbandwidth-weights Wbd=-1\nx\n");
    assert_eq!(Consensus::parse_footer(&bad_number).unwrap_err(), ParseError::InvalidNumber);
    let repeated = str_to_chars("directory-footer\nbandwidth-weights Wbd=1 Wbd=2\nx\n");
    assert_eq!(Consensus::parse_footer(&repeated).unwrap().get("Wbd"), Some(2));
    let one_line = str_to_chars("directory-footer\nbandwidth-weights Wbd=1");
    assert_eq!(Consensus::parse_footer(&one_line).unwrap_err(), ParseError::MissingSeparator);
}

#[test]
fn consensus_flags_of_joined_lines() {
    let a = Relay::parse_flags(&str_to_chars("Fast Guard")).unwrap();
    let b = Relay::parse_flags(&str_to_chars("Exit Guard")).unwrap();
    let joined = Relay::parse_flags(&str_to_chars("Fast Guard Exit Guard")).unwrap();
    assert_eq!(joined, a.union(&b));
    assert!(joined.contains(&RelayFlags::flag(RelayFlag::Exit)));
    assert!(Relay::parse_flags(&str_to_chars("Fast  Guard")).is_err());
}
