use lsdp::{ClassID, IpAddress, MessageType, Packet};

#[test]
fn announce() {
    let decoded_string = hex::decode(
        "064c534450016a41069056820e1\
        b00040a00012402000105046\
    e616d650a5345414c504c4159455204\
    706f7274053131303030056d6f64656\
    c04433338380776657273696f6e0633\
    2e31362e35027a730130000402046e6\
    16d650a5345414c504c415945520470\
    6f7274053131343331",
    )
    .unwrap();

    let p = Packet::decode(&decoded_string).unwrap();

    match p.message {
        MessageType::Announce(v) => {
            assert_eq!(v.node_id, [144, 86, 130, 14, 27, 0]);
            assert_eq!(v.addr, IpAddress::V4([10, 0, 1, 36]));
            assert_eq!(v.records[0].cid, ClassID::Player);
            assert_eq!(
                v.records[0].get("name").unwrap().to_string(),
                "SEALPLAYER"
            );
            assert_eq!(v.records[1].cid, ClassID::Testing);
        }
        _ => {
            panic!("does not parse correctly");
        }
    }
}

#[test]
fn decode_encode() {
    let decoded_string = hex::decode("064c53445001055101ffff").unwrap();

    let p = Packet::decode(&decoded_string).unwrap();

    assert_eq!(decoded_string, p.bytes());
}

#[test]
fn decode_encode_complex() {
    let decoded_string = hex::decode(
        "064c534450016a41069056820e1\
        b00040a00012402000105046\
    e616d650a5345414c504c4159455204\
    706f7274053131303030056d6f64656\
    c04433338380776657273696f6e0633\
    2e31362e35027a730130000402046e6\
    16d650a5345414c504c415945520470\
    6f7274053131343331",
    )
    .unwrap();

    let p = Packet::decode(&decoded_string).unwrap();

    let b = p.bytes();

    let decoded = Packet::decode(&b).unwrap();

    match decoded.message {
        MessageType::Announce(v) => {
            assert_eq!(v.node_id, [144, 86, 130, 14, 27, 0]);
            assert_eq!(v.addr, IpAddress::V4([10, 0, 1, 36]));
            assert_eq!(v.records[0].cid, ClassID::Player);
            assert_eq!(
                v.records[0].get("name").unwrap().to_string(),
                "SEALPLAYER"
            );
            assert_eq!(v.records[1].cid, ClassID::Testing);
        }
        _ => {
            panic!("does not parse correctly");
        }
    }
}

#[test]
fn broadcast_query() {
    let decoded_string = hex::decode("064c53445001055101ffff").unwrap();

    let p = Packet::decode(&decoded_string).unwrap();

    match p.message {
        MessageType::BroadcastQuery(v) => {
            assert_eq!(v.classes[0], ClassID::All)
        }
        _ => {
            panic!("does not parse correctly");
        }
    }
}
