use headless_client::address::{format_ipv4, format_ipv6};
use headless_client::socks::{SocksConn, SocksError, SocksNext};

/// What a connection comes to on `input`.
#[derive(Debug, PartialEq)]
enum End {
    Short,
    Refused(SocksError),
    Target(String, i32, Vec<u8>),
}

fn converse(conn: &mut SocksConn, input: &[u8]) -> (Vec<u8>, End) {
    let mut replies = Vec::new();
    let mut rest = input;
    loop {
        let wanted = match conn.wanted() {
            Some(n) => n,
            None => panic!("nothing wanted"),
        };
        if rest.len() < wanted {
            return (replies, End::Short);
        }
        let step = conn.on_bytes(&rest[..wanted]);
        rest = &rest[wanted..];
        let must_arrive = step.reply_must_arrive();
        replies.extend_from_slice(&step.reply);
        match step.next {
            SocksNext::Read(n) => {
                assert!(must_arrive);
                assert_eq!(conn.wanted(), Some(n));
            }
            SocksNext::Connect { host, port } => {
                assert_eq!(conn.wanted(), None);
                return (replies, End::Target(host, port, rest.to_vec()));
            }
            SocksNext::Refuse(e) => {
                assert!(!must_arrive);
                assert_eq!(conn.wanted(), None);
                return (replies, End::Refused(e));
            }
            _ => panic!("no session was opened yet"),
        }
    }
}

fn run(input: &[u8]) -> (Vec<u8>, End) {
    converse(&mut SocksConn::new(), input)
}

const REPLY_7: [u8; 10] = [5, 7, 0, 1, 0, 0, 0, 0, 0, 0];
const REPLY_8: [u8; 10] = [5, 8, 0, 1, 0, 0, 0, 0, 0, 0];

#[test]
fn greeting_asks_for_two_bytes() {
    assert_eq!(SocksConn::new().wanted(), Some(2));
}

#[test]
fn connect_to_ipv4() {
    let (replies, end) = run(&[5, 1, 0, 5, 1, 0, 1, 192, 168, 0, 10, 0x1f, 0x90]);
    assert_eq!(replies, vec![5, 0]);
    assert_eq!(end, End::Target("192.168.0.10".to_string(), 8080, vec![]));
}

#[test]
fn connect_to_domain_with_early_data() {
    let mut input = vec![5, 2, 0, 2, 5, 1, 9, 3, 11];
    input.extend_from_slice(b"example.com");
    input.extend_from_slice(&[1, 187]);
    input.extend_from_slice(b"GET");
    let (replies, end) = run(&input);
    assert_eq!(replies, vec![5, 0]);
    assert_eq!(
        end,
        End::Target("example.com".to_string(), 443, b"GET".to_vec())
    );
}

#[test]
fn domain_is_not_changed() {
    let domain = "пример.рф";
    let mut input = vec![5, 0, 5, 1, 0, 3, domain.len() as u8];
    input.extend_from_slice(domain.as_bytes());
    input.extend_from_slice(&[255, 255]);
    assert_eq!(run(&input).1, End::Target(domain.to_string(), 65535, vec![]));
}

#[test]
fn empty_domain_is_a_domain() {
    let (_, end) = run(&[5, 0, 5, 1, 0, 3, 0, 0, 80]);
    assert_eq!(end, End::Target(String::new(), 80, vec![]));
}

#[test]
fn connect_to_ipv6() {
    let mut input = vec![5, 0, 5, 1, 0, 4];
    input.extend_from_slice(&[0x20, 0x01, 0x0d, 0xb8, 0, 0, 0, 0, 0, 0, 0, 0, 0, 0, 0, 1]);
    input.extend_from_slice(&[0, 22]);
    assert_eq!(run(&input).1, End::Target("2001:db8::1".to_string(), 22, vec![]));
}

#[test]
fn no_methods_are_answered_too() {
    let (replies, end) = run(&[5, 0]);
    assert_eq!(replies, vec![5, 0]);
    assert_eq!(end, End::Short);
}

#[test]
fn short_input_is_answered_with_nothing_more() {
    assert_eq!(run(&[]), (vec![], End::Short));
    assert_eq!(run(&[5]), (vec![], End::Short));
    assert_eq!(run(&[5, 3, 0, 1]), (vec![], End::Short));
    assert_eq!(run(&[5, 0, 5, 1, 0, 1, 127, 0, 0, 1, 0]), (vec![5, 0], End::Short));
}

#[test]
fn other_versions_are_not_answered() {
    assert_eq!(run(&[4, 1, 0]), (vec![], End::Refused(SocksError::Version(4))));
    assert_eq!(
        run(&[5, 0, 4, 1, 0, 1]),
        (vec![5, 0], End::Refused(SocksError::Version(4)))
    );
}

#[test]
fn bind_and_udp_are_refused_with_code_7() {
    for cmd in [0u8, 2, 3, 255] {
        let (replies, end) = run(&[5, 0, 5, cmd, 0, 1, 127, 0, 0, 1, 0, 80]);
        assert_eq!(replies[..2], [5, 0]);
        assert_eq!(replies[2..], REPLY_7);
        assert_eq!(end, End::Refused(SocksError::Command(cmd)));
    }
}

#[test]
fn unknown_address_types_are_refused_with_code_8() {
    for kind in [0u8, 2, 5, 255] {
        let (replies, end) = run(&[5, 0, 5, 2, 0, kind]);
        assert_eq!(replies[2..], REPLY_8);
        assert_eq!(end, End::Refused(SocksError::AddressType(kind)));
    }
}

#[test]
fn domain_that_is_not_text_is_refused() {
    let (replies, end) = run(&[5, 0, 5, 1, 0, 3, 2, 0xff, 0xfe, 0, 80]);
    assert_eq!(replies, vec![5, 0]);
    assert_eq!(end, End::Refused(SocksError::Domain));
}

#[test]
fn session_result_is_answered() {
    let input = [5, 0, 5, 1, 0, 1, 127, 0, 0, 1, 0, 80];
    let mut conn = SocksConn::new();
    converse(&mut conn, &input);
    let step = conn.on_session(true);
    assert_eq!(step.reply, vec![5, 0, 0, 1, 0, 0, 0, 0, 0, 0]);
    assert!(step.reply_must_arrive());
    assert!(matches!(step.next, SocksNext::Relay));

    let mut conn = SocksConn::new();
    converse(&mut conn, &input);
    let step = conn.on_session(false);
    assert_eq!(step.reply, vec![5, 5, 0, 1, 0, 0, 0, 0, 0, 0]);
    assert!(!step.reply_must_arrive());
    assert!(matches!(step.next, SocksNext::GiveUp));
}

#[test]
fn socks_errors_in_words() {
    assert_eq!(
        SocksError::Version(4).message(),
        "неподдерживаемая версия SOCKS: 4"
    );
    assert_eq!(SocksError::AddressType(17).message(), "неподдерживаемый ATYP 17");
    assert_eq!(
        SocksError::Domain.message(),
        "некорректный домен в SOCKS-запросе"
    );
    assert_eq!(
        SocksError::Command(3).message(),
        "неподдерживаемая SOCKS-команда 3 (поддерживается только CONNECT)"
    );
}

#[test]
fn ipv4_addresses() {
    assert_eq!(format_ipv4(&[0, 0, 0, 0]), "0.0.0.0");
    assert_eq!(format_ipv4(&[255, 10, 9, 100]), "255.10.9.100");
}

fn v6(groups: [u16; 8]) -> String {
    let mut bytes = Vec::new();
    for g in groups {
        bytes.extend_from_slice(&g.to_be_bytes());
    }
    format_ipv6(&bytes)
}

#[test]
fn ipv6_addresses() {
    assert_eq!(v6([0, 0, 0, 0, 0, 0, 0, 0]), "::");
    assert_eq!(v6([0, 0, 0, 0, 0, 0, 0, 1]), "::1");
    assert_eq!(v6([1, 0, 0, 0, 0, 0, 0, 0]), "1::");
    assert_eq!(v6([0xfe80, 0, 0, 0, 0xabcd, 0, 0, 0x10]), "fe80::abcd:0:0:10");
    assert_eq!(v6([1, 0, 0, 2, 0, 0, 3, 4]), "1::2:0:0:3:4");
    assert_eq!(v6([1, 0, 2, 0, 3, 0, 4, 0]), "1:0:2:0:3:0:4:0");
    assert_eq!(v6([1, 0, 0, 2, 0, 0, 0, 4]), "1:0:0:2::4");
    assert_eq!(
        v6([0x2001, 0xdb8, 0x85a3, 0x1, 0x2, 0x8a2e, 0x370, 0x7334]),
        "2001:db8:85a3:1:2:8a2e:370:7334"
    );
}

#[test]
fn mapped_ipv4_addresses() {
    assert_eq!(v6([0, 0, 0, 0, 0, 0xffff, 0xc0a8, 0x0001]), "::ffff:192.168.0.1");
    assert_eq!(v6([0, 0, 0, 0, 0, 0, 0xc0a8, 0x0001]), "::c0a8:1");
    assert_eq!(v6([0, 0, 0, 0, 1, 0xffff, 0, 1]), "::1:ffff:0:1");
}

#[test]
fn addresses_have_texts_of_their_own() {
    let mut texts = Vec::new();
    for position in 0..8 {
        for value in [1u16, 0x10, 0xffff] {
            let mut g = [0u16; 8];
            g[position] = value;
            texts.push(v6(g));
            g[7 - position] = 0xab;
            texts.push(v6(g));
        }
    }
    texts.push(v6([0, 0, 0, 0, 0, 0xffff, 0, 1]));
    texts.push(v6([0, 0, 0, 0, 0, 0xffff, 1, 0]));
    let n = texts.len();
    texts.sort();
    texts.dedup();
    assert_eq!(texts.len(), n);
}
