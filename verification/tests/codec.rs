use lsdp::protocol::address::parse_ip;
use lsdp::protocol::class_id::decode_class_list;
use lsdp::protocol::wire::{be_u16, be_u8, parse_str, take_field};
use lsdp::{
    to_ip, AnnounceMessage, AnnounceRecord, ClassID, DecodeError, DeleteMessage, Header,
    IpAddress, IpParseError, MessageType, Packet, QueryMessage,
};

const ANNOUNCE: &str = "064c534450016a41069056820e1b00040a00012402000105046e616d650a5345414c504c4159455204706f7274053131303030056d6f64656c04433338380776657273696f6e06322e31362e35027a730130000402046e616d650a5345414c504c4159455204706f7274053131343331";

const QUERY: &str = "064c53445001055101ffff";

fn pair(key: &str, value: &str) -> (String, String) {
    (key.to_string(), value.to_string())
}

fn with_header(body: &[u8]) -> Vec<u8> {
    let mut bytes = vec![6, b'L', b'S', b'D', b'P', 1];
    bytes.extend_from_slice(body);
    bytes
}

fn sample_announce() -> AnnounceMessage {
    AnnounceMessage {
        node_id: vec![1, 2, 3],
        addr: IpAddress::V6([0x20, 0x01, 0x0d, 0xb8, 0, 0, 0, 0, 0, 0, 0, 0, 0, 0, 0, 1]),
        records: vec![
            AnnounceRecord {
                cid: ClassID::Server,
                data: vec![pair("name", "caf\u{e9}"), pair("port", "11000")],
            },
            AnnounceRecord { cid: ClassID::All, data: vec![] },
        ],
    }
}

#[test]
fn announce_holds_every_pair_in_order() {
    let p = Packet::decode(&hex::decode(ANNOUNCE).unwrap()).unwrap();
    assert_eq!(p.header, Header { length: 6, protocol_version: 1 });
    let v = match p.message {
        MessageType::Announce(v) => v,
        _ => panic!("not an announcement"),
    };
    assert_eq!(v.node_id, vec![144, 86, 130, 14, 27, 0]);
    assert_eq!(v.addr, IpAddress::V4([10, 0, 1, 36]));
    assert_eq!(v.records.len(), 2);
    assert_eq!(
        v.records[0],
        AnnounceRecord {
            cid: ClassID::Player,
            data: vec![
                pair("name", "SEALPLAYER"),
                pair("port", "11000"),
                pair("model", "C388"),
                pair("version", "2.16.5"),
                pair("zs", "0"),
            ],
        }
    );
    assert_eq!(
        v.records[1],
        AnnounceRecord {
            cid: ClassID::Testing,
            data: vec![pair("name", "SEALPLAYER"), pair("port", "11431")],
        }
    );
    assert_eq!(v.records[1].get("port").unwrap(), "11431");
    assert_eq!(v.records[1].get("model"), None);
}

#[test]
fn announce_is_written_as_it_was_read() {
    let bytes = hex::decode(ANNOUNCE).unwrap();
    let p = Packet::decode(&bytes).unwrap();
    assert_eq!(p.bytes(), bytes);
}

#[test]
fn query_is_one_class_and_is_written_as_it_was_read() {
    let bytes = hex::decode(QUERY).unwrap();
    let p = Packet::decode(&bytes).unwrap();
    assert_eq!(
        p,
        Packet {
            header: Header { length: 6, protocol_version: 1 },
            message: MessageType::BroadcastQuery(QueryMessage { classes: vec![ClassID::All] }),
        }
    );
    assert_eq!(p.bytes(), bytes);
}

#[test]
fn empty_input_is_truncated() {
    assert_eq!(Packet::decode(&[]), Err(DecodeError::Truncated));
}

#[test]
fn wrong_magic_is_bad_magic() {
    let bytes = hex::decode("064c53445101055101ffff").unwrap();
    assert_eq!(Packet::decode(&bytes), Err(DecodeError::BadMagic));
    assert_eq!(Packet::decode(&[6, 0, 0, 0, 0]), Err(DecodeError::BadMagic));
    assert_eq!(Header::header(&[6, b'l', b's', b'd', b'p', 1]), Err(DecodeError::BadMagic));
}

#[test]
fn magic_cut_short_is_truncated() {
    assert_eq!(Packet::decode(&[6]), Err(DecodeError::Truncated));
    assert_eq!(Packet::decode(&[6, 0x4c, 0x53]), Err(DecodeError::Truncated));
    assert_eq!(Packet::decode(&[6, 0, 0, 0]), Err(DecodeError::Truncated));
    assert_eq!(Packet::decode(&[6, 0x4c, 0x53, 0x44, 0x50]), Err(DecodeError::Truncated));
    assert_eq!(Packet::decode(&[6, 0x4c, 0x53, 0x44, 0x50, 1]), Err(DecodeError::Truncated));
    assert_eq!(Packet::decode(&[6, 0x4c, 0x53, 0x44, 0x50, 1, 2]), Err(DecodeError::Truncated));
}

#[test]
fn address_of_five_octets_is_refused() {
    let five = with_header(&[0, 0x41, 2, 1, 2, 5, 1, 2, 3, 4, 5, 0]);
    assert_eq!(Packet::decode(&five), Err(DecodeError::BadAddressLength(5)));
    let none = with_header(&[0, 0x41, 2, 1, 2, 0, 0]);
    assert_eq!(Packet::decode(&none), Err(DecodeError::BadAddressLength(0)));
    let mut many = vec![0, 0x41, 0, 255];
    many.extend_from_slice(&[7; 255]);
    assert_eq!(Packet::decode(&with_header(&many)), Err(DecodeError::BadAddressLength(255)));
}

#[test]
fn address_is_read_before_it_is_judged() {
    let bytes = with_header(&[0, 0x41, 2, 1, 2, 5, 1, 2]);
    assert_eq!(Packet::decode(&bytes), Err(DecodeError::Truncated));
}

#[test]
fn string_that_is_not_utf8_is_refused() {
    let key = with_header(&[0, 0x41, 0, 4, 1, 2, 3, 4, 1, 0, 1, 1, 1, 0xff, 1, b'a']);
    assert_eq!(Packet::decode(&key), Err(DecodeError::InvalidUtf8));
    let value = with_header(&[0, 0x41, 0, 4, 1, 2, 3, 4, 1, 0, 1, 1, 1, b'a', 2, 0xc3, 0x28]);
    assert_eq!(Packet::decode(&value), Err(DecodeError::InvalidUtf8));
    assert_eq!(parse_str(&[2, 0xed, 0xa0, 0x80]), Err(DecodeError::InvalidUtf8));
    assert_eq!(parse_str(&[3, 0xed, 0xa0, 0x80]), Err(DecodeError::InvalidUtf8));
    assert_eq!(parse_str(&[2, 0xc0, 0x80]), Err(DecodeError::InvalidUtf8));
    assert_eq!(parse_str(&[4, 0xf4, 0x90, 0x80, 0x80]), Err(DecodeError::InvalidUtf8));
    assert_eq!(parse_str(&[2, 0xc3]), Err(DecodeError::Truncated));
}

#[test]
fn string_of_several_bytes_a_character_is_read() {
    let input = [5, b'c', b'a', b'f', 0xc3, 0xa9, 7];
    assert_eq!(parse_str(&input), Ok((&input[6..], "caf\u{e9}".to_string())));
    let empty = [0, 9];
    assert_eq!(parse_str(&empty), Ok((&empty[1..], String::new())));
}

#[test]
fn every_cut_of_a_packet_is_truncated() {
    let bytes = hex::decode(ANNOUNCE).unwrap();
    for cut in 0..bytes.len() {
        assert_eq!(Packet::decode(&bytes[..cut]), Err(DecodeError::Truncated), "cut at {}", cut);
    }
    let query = hex::decode(QUERY).unwrap();
    for cut in 0..query.len() {
        assert_eq!(Packet::decode(&query[..cut]), Err(DecodeError::Truncated), "cut at {}", cut);
    }
}

#[test]
fn any_bytes_give_a_packet_or_an_error() {
    let mut state: u32 = 0x2545_f491;
    let valid = hex::decode(ANNOUNCE).unwrap();
    for round in 0..2000usize {
        let mut bytes = if round % 2 == 0 { valid.clone() } else { Vec::new() };
        let length = if round % 2 == 0 { valid.len() } else { round % 97 };
        for i in 0..length {
            state = state.wrapping_mul(1664525).wrapping_add(1013904223);
            let byte = (state >> 24) as u8;
            if round % 2 == 0 {
                if state % 23 == 0 {
                    bytes[i] = byte;
                }
            } else {
                bytes.push(byte);
            }
        }
        match Packet::decode(&bytes) {
            Ok(packet) => {
                let again = packet.clone().bytes();
                if !matches!(packet.message, MessageType::Delete(_)) {
                    assert_eq!(Packet::decode(&again), Ok(packet));
                }
            }
            Err(e) => assert!(matches!(
                e,
                DecodeError::BadMagic
                    | DecodeError::Truncated
                    | DecodeError::BadAddressLength(_)
                    | DecodeError::InvalidUtf8
            )),
        }
    }
}

#[test]
fn tag_that_names_no_kind_is_unimplemented() {
    let bytes = hex::decode("074c534450030299aabb").unwrap();
    let p = Packet::decode(&bytes).unwrap();
    assert_eq!(
        p,
        Packet {
            header: Header { length: 7, protocol_version: 3 },
            message: MessageType::Unimplemented,
        }
    );
    assert_eq!(p.bytes(), hex::decode("074c534450030200").unwrap());
    assert_eq!(MessageType::Unimplemented.mtype(), 0);
}

#[test]
fn type_tags() {
    let q = QueryMessage { classes: vec![] };
    assert_eq!(MessageType::Announce(sample_announce()).mtype(), 0x41);
    assert_eq!(
        MessageType::Delete(DeleteMessage { node_id: vec![], classes: vec![] }).mtype(),
        0x44
    );
    assert_eq!(MessageType::BroadcastQuery(q.clone()).mtype(), 0x51);
    assert_eq!(MessageType::UnicastQuery(q).mtype(), 0x52);
}

#[test]
fn unicast_query_is_read_and_written() {
    let bytes = with_header(&[9, 0x52, 3, 0, 1, 0, 2, 0, 3]);
    let p = Packet::decode(&bytes).unwrap();
    assert_eq!(
        p.message,
        MessageType::UnicastQuery(QueryMessage {
            classes: vec![ClassID::Player, ClassID::Server, ClassID::SecondaryPlayer],
        })
    );
    assert_eq!(p.bytes(), bytes);
}

#[test]
fn class_codes() {
    assert_eq!(ClassID::from(0x0001), ClassID::Player);
    assert_eq!(ClassID::from(0x0002), ClassID::Server);
    assert_eq!(ClassID::from(0x0003), ClassID::SecondaryPlayer);
    assert_eq!(ClassID::from(0x0004), ClassID::Testing);
    assert_eq!(ClassID::from(0xFFFF), ClassID::All);
    assert_eq!(ClassID::from(0x0000), ClassID::Unimplemented);
    assert_eq!(ClassID::from(0x0005), ClassID::Unimplemented);
    assert_eq!(ClassID::from(0x0100), ClassID::Unimplemented);
    assert_eq!(u16::from(ClassID::Player), 0x0001);
    assert_eq!(u16::from(ClassID::Server), 0x0002);
    assert_eq!(u16::from(ClassID::SecondaryPlayer), 0x0003);
    assert_eq!(u16::from(ClassID::Testing), 0x0004);
    assert_eq!(u16::from(ClassID::All), 0xFFFF);
    assert_eq!(u16::from(ClassID::Unimplemented), 0x0000);
    let code: u16 = ClassID::Testing.into();
    assert_eq!(code, 4);
}

#[test]
fn class_is_written_big_endian() {
    assert_eq!(ClassID::Player.bytes(), [0x00, 0x01]);
    assert_eq!(ClassID::Testing.bytes(), [0x00, 0x04]);
    assert_eq!(ClassID::All.bytes(), [0xff, 0xff]);
    assert_eq!(ClassID::Unimplemented.bytes(), [0x00, 0x00]);
    let input = [0x00, 0x03, 0xaa];
    assert_eq!(ClassID::decode(&input), Ok((&input[2..], ClassID::SecondaryPlayer)));
    assert_eq!(ClassID::decode(&[0x03, 0x00]), Ok((&[][..], ClassID::Unimplemented)));
    assert_eq!(ClassID::decode(&[0x03]), Err(DecodeError::Truncated));
}

#[test]
fn class_that_has_no_name_is_written_as_zero() {
    let bytes = hex::decode("064c5344500107510212340001").unwrap();
    let p = Packet::decode(&bytes).unwrap();
    assert_eq!(
        p.message,
        MessageType::BroadcastQuery(QueryMessage {
            classes: vec![ClassID::Unimplemented, ClassID::Player],
        })
    );
    assert_eq!(p.bytes(), hex::decode("064c5344500107510200000001").unwrap());
}

#[test]
fn integers_are_read_big_endian() {
    let input = [0x12, 0x34, 0x56];
    assert_eq!(be_u16(&input), Ok((&input[2..], 0x1234)));
    assert_eq!(be_u8(&input), Ok((&input[1..], 0x12)));
    assert_eq!(be_u16(&[0x12]), Err(DecodeError::Truncated));
    assert_eq!(be_u8(&[]), Err(DecodeError::Truncated));
}

#[test]
fn field_is_as_long_as_its_first_byte_says() {
    let input = [3, 10, 20, 30, 40];
    assert_eq!(take_field(&input), Ok((&input[4..], &input[1..4])));
    let empty = [0];
    assert_eq!(take_field(&empty), Ok((&empty[1..], &empty[1..])));
    assert_eq!(take_field(&[3, 10, 20]), Err(DecodeError::Truncated));
    assert_eq!(take_field(&[]), Err(DecodeError::Truncated));
}

#[test]
fn query_bytes() {
    let q = QueryMessage::new(vec![ClassID::All, ClassID::Player]);
    assert_eq!(q.bytes(), vec![2, 0xff, 0xff, 0x00, 0x01]);
    assert_eq!(QueryMessage::new(vec![]).bytes(), vec![0]);
    let input = [2, 0xff, 0xff, 0x00, 0x02, 0x07];
    assert_eq!(
        QueryMessage::decode(&input),
        Ok((&input[5..], QueryMessage { classes: vec![ClassID::All, ClassID::Server] }))
    );
    assert_eq!(QueryMessage::decode(&[2, 0xff, 0xff, 0x00]), Err(DecodeError::Truncated));
    assert_eq!(decode_class_list(&[1, 0, 4]), Ok((&[][..], vec![ClassID::Testing])));
}

#[test]
fn new_packet_has_the_header_of_this_library() {
    let p = Packet::new(MessageType::BroadcastQuery(QueryMessage::new(vec![ClassID::All])));
    assert_eq!(p.header, Header { length: 6, protocol_version: 1 });
    assert_eq!(p.bytes(), hex::decode(QUERY).unwrap());
}

#[test]
fn header_bytes() {
    assert_eq!(Header::new(), Header { length: 6, protocol_version: 1 });
    assert_eq!(Header::new().bytes(), vec![6, b'L', b'S', b'D', b'P', 1]);
    assert_eq!(
        Header { length: 200, protocol_version: 9 }.bytes(),
        vec![200, 0x4c, 0x53, 0x44, 0x50, 9]
    );
    let input = [200, 0x4c, 0x53, 0x44, 0x50, 9, 77];
    assert_eq!(
        Header::header(&input),
        Ok((&input[6..], Header { length: 200, protocol_version: 9 }))
    );
}

#[test]
fn header_length_is_kept_and_not_checked() {
    let bytes = hex::decode("ff4c53445001005101ffff").unwrap();
    let p = Packet::decode(&bytes).unwrap();
    assert_eq!(p.header.length, 0xff);
    assert_eq!(
        p.message,
        MessageType::BroadcastQuery(QueryMessage { classes: vec![ClassID::All] })
    );
    assert_eq!(p.bytes(), hex::decode("ff4c53445001055101ffff").unwrap());
}

#[test]
fn record_bytes() {
    let r = AnnounceRecord { cid: ClassID::Server, data: vec![pair("a", "bc"), pair("", "x")] };
    assert_eq!(r.bytes(), vec![0, 2, 2, 1, b'a', 2, b'b', b'c', 0, 1, b'x']);
    let input = [0, 2, 2, 1, b'a', 2, b'b', b'c', 0, 1, b'x', 5];
    assert_eq!(
        AnnounceRecord::decode(&input),
        Ok((
            &input[11..],
            AnnounceRecord { cid: ClassID::Server, data: vec![pair("a", "bc"), pair("", "x")] }
        ))
    );
    let accent = AnnounceRecord { cid: ClassID::Player, data: vec![pair("\u{e9}", "\u{20ac}")] };
    assert_eq!(accent.bytes(), vec![0, 1, 1, 2, 0xc3, 0xa9, 3, 0xe2, 0x82, 0xac]);
}

#[test]
fn key_that_comes_again_replaces_its_value() {
    let input = [0, 1, 3, 1, b'k', 1, b'1', 1, b'j', 1, b'2', 1, b'k', 1, b'3'];
    let (rest, r) = AnnounceRecord::decode(&input).unwrap();
    assert!(rest.is_empty());
    assert_eq!(r.data, vec![pair("k", "3"), pair("j", "2")]);
    assert_eq!(r.get("k").unwrap(), "3");
    assert_eq!(r.bytes(), vec![0, 1, 2, 1, b'k', 1, b'3', 1, b'j', 1, b'2']);
}

#[test]
fn insert_and_get() {
    let mut r = AnnounceRecord { cid: ClassID::Testing, data: vec![] };
    assert_eq!(r.get("name"), None);
    r.insert("name".to_string(), "one".to_string());
    r.insert("port".to_string(), "1".to_string());
    r.insert("name".to_string(), "two".to_string());
    assert_eq!(r.data, vec![pair("name", "two"), pair("port", "1")]);
    assert_eq!(r.get("name").unwrap(), "two");
    assert_eq!(r.get("port").unwrap(), "1");
    assert_eq!(r.get("nam"), None);
    assert_eq!(r.cid, ClassID::Testing);
}

#[test]
fn announce_bytes() {
    let m = AnnounceMessage {
        node_id: vec![7, 8],
        addr: IpAddress::V4([192, 168, 0, 9]),
        records: vec![AnnounceRecord { cid: ClassID::Player, data: vec![pair("n", "v")] }],
    };
    let expected = vec![2, 7, 8, 4, 192, 168, 0, 9, 1, 0, 1, 1, 1, b'n', 1, b'v'];
    assert_eq!(m.clone().bytes(), expected);
    assert_eq!(AnnounceMessage::decode(&expected), Ok((&[][..], m.clone())));
    let mut packet = vec![6, b'L', b'S', b'D', b'P', 1, 18, 0x41];
    packet.extend_from_slice(&expected);
    assert_eq!(MessageType::Announce(m.clone()).bytes(), packet[6..].to_vec());
    assert_eq!(Packet::new(MessageType::Announce(m)).bytes(), packet);
}

#[test]
fn packet_comes_back_from_its_bytes() {
    let packets = vec![
        Packet::new(MessageType::Announce(sample_announce())),
        Packet::new(MessageType::BroadcastQuery(QueryMessage::new(vec![
            ClassID::Player,
            ClassID::Unimplemented,
            ClassID::All,
        ]))),
        Packet::new(MessageType::UnicastQuery(QueryMessage::new(vec![]))),
        Packet { header: Header { length: 0, protocol_version: 255 }, message: MessageType::Unimplemented },
        Packet::new(MessageType::Announce(AnnounceMessage {
            node_id: vec![],
            addr: IpAddress::V4([0, 0, 0, 0]),
            records: vec![],
        })),
    ];
    for p in packets {
        let bytes = p.clone().bytes();
        let back = Packet::decode(&bytes).unwrap();
        assert_eq!(back, p);
        assert_eq!(back.bytes(), bytes);
        let mut followed = bytes.clone();
        followed.extend_from_slice(&[1, 2, 3]);
        assert_eq!(Packet::decode(&followed), Ok(p));
    }
}

#[test]
fn address_of_sixteen_octets() {
    let m = sample_announce();
    let bytes = m.clone().bytes();
    assert_eq!(bytes[..4], [3, 1, 2, 3]);
    assert_eq!(bytes[4], 16);
    assert_eq!(bytes[5..21], [0x20, 0x01, 0x0d, 0xb8, 0, 0, 0, 0, 0, 0, 0, 0, 0, 0, 0, 1]);
    let (_, back) = AnnounceMessage::decode(&bytes).unwrap();
    assert_eq!(back.addr, m.addr);
    assert_eq!(back.addr.octets(), bytes[5..21].to_vec());
    assert_eq!(IpAddress::V4([10, 0, 1, 36]).octets(), vec![10, 0, 1, 36]);
}

#[test]
fn to_ip_takes_four_or_sixteen_octets() {
    assert_eq!(to_ip(&[10, 0, 1, 36]), Ok(IpAddress::V4([10, 0, 1, 36])));
    let long: Vec<u8> = (1..=16).collect();
    assert_eq!(
        to_ip(&long),
        Ok(IpAddress::V6([1, 2, 3, 4, 5, 6, 7, 8, 9, 10, 11, 12, 13, 14, 15, 16]))
    );
    assert_eq!(to_ip(&[]), Err(IpParseError::UnknownLength(0)));
    assert_eq!(to_ip(&[1, 2, 3]), Err(IpParseError::UnknownLength(3)));
    assert_eq!(to_ip(&[0; 5]), Err(IpParseError::UnknownLength(5)));
    assert_eq!(to_ip(&[0; 17]), Err(IpParseError::UnknownLength(17)));
    let input = [4, 10, 0, 1, 36, 99];
    assert_eq!(parse_ip(&input), Ok((&input[5..], IpAddress::V4([10, 0, 1, 36]))));
    assert_eq!(parse_ip(&[3, 10, 0, 1, 36]), Err(DecodeError::BadAddressLength(3)));
}

#[test]
fn deletion_is_read() {
    let bytes = hex::decode("064c5344500109440290560200010004").unwrap();
    let p = Packet::decode(&bytes).unwrap();
    let d = DeleteMessage { node_id: vec![0x90, 0x56], classes: vec![ClassID::Player, ClassID::Testing] };
    assert_eq!(p.message, MessageType::Delete(d.clone()));
    let payload = &bytes[8..];
    assert_eq!(DeleteMessage::decode(payload), Ok((&[][..], d)));
    assert_eq!(DeleteMessage::decode(&payload[..6]), Err(DecodeError::Truncated));
}

#[test]
fn deletion_is_written_without_its_content() {
    let d = DeleteMessage { node_id: vec![0x90, 0x56], classes: vec![ClassID::Player] };
    assert_eq!(MessageType::Delete(d.clone()).bytes(), vec![2, 0x44]);
    let bytes = Packet::new(MessageType::Delete(d)).bytes();
    assert_eq!(bytes, hex::decode("064c534450010244").unwrap());
    assert_eq!(Packet::decode(&bytes), Err(DecodeError::Truncated));
}

#[test]
fn what_follows_the_message_is_left_out() {
    let mut bytes = hex::decode(QUERY).unwrap();
    bytes.extend_from_slice(&[0xde, 0xad]);
    let p = Packet::decode(&bytes).unwrap();
    assert_eq!(p.bytes(), hex::decode(QUERY).unwrap());
}

#[test]
fn message_gives_back_the_input_after_the_tag() {
    let input = [5, 0x51, 1, 0xff, 0xff, 9];
    let (rest, m) = MessageType::decode(&input).unwrap();
    assert_eq!(rest, &input[2..]);
    assert_eq!(m, MessageType::BroadcastQuery(QueryMessage { classes: vec![ClassID::All] }));
    assert_eq!(MessageType::decode(&[5]), Err(DecodeError::Truncated));
    assert_eq!(MessageType::decode(&[0, 0x51]), Err(DecodeError::Truncated));
    assert_eq!(MessageType::decode(&[0, 0x07]), Ok((&[][..], MessageType::Unimplemented)));
}

#[test]
fn stated_body_length_is_not_checked() {
    let bytes = hex::decode("064c53445001ff5101ffff").unwrap();
    let p = Packet::decode(&bytes).unwrap();
    assert_eq!(p.bytes(), hex::decode(QUERY).unwrap());
}

#[test]
fn body_length_is_the_low_byte_of_payload_plus_two() {
    let long = "x".repeat(255);
    let m = AnnounceMessage {
        node_id: vec![9; 255],
        addr: IpAddress::V4([1, 2, 3, 4]),
        records: vec![AnnounceRecord { cid: ClassID::Player, data: vec![pair(&long, &long)] }],
    };
    let payload = m.clone().bytes();
    assert_eq!(payload.len(), 256 + 5 + 1 + 3 + 512);
    let bytes = MessageType::Announce(m.clone()).bytes();
    assert_eq!(bytes.len(), payload.len() + 2);
    assert_eq!(bytes[0], ((payload.len() + 2) % 256) as u8);
    assert_eq!(bytes[0], 11);
    assert_eq!(bytes[1], 0x41);
    let p = Packet::new(MessageType::Announce(m));
    assert_eq!(Packet::decode(&p.clone().bytes()), Ok(p));
    let q = QueryMessage::new(vec![ClassID::Player; 127]);
    assert_eq!(MessageType::UnicastQuery(q).bytes()[0], 1);
}

#[test]
fn count_is_the_low_byte_of_the_number() {
    let q = QueryMessage::new(vec![ClassID::Player; 256]);
    let bytes = q.bytes();
    assert_eq!(bytes.len(), 513);
    assert_eq!(bytes[0], 0);
    let q = QueryMessage::new(vec![ClassID::Player; 255]);
    let bytes = q.clone().bytes();
    assert_eq!(bytes[0], 255);
    assert_eq!(QueryMessage::decode(&bytes), Ok((&[][..], q)));
}
