use mosh_client::bytes::{
    bytes_equal, clone_bytes, copy_range, extend_bytes, push_u16_be, push_u64_be, read_u16_be,
    read_u64_be,
};
use mosh_client::transport::proto::hostinput;
use mosh_client::transport::proto::transportinstruction::Instruction;
use mosh_client::transport::proto::userinput;
use mosh_client::transport::proto::wire::{
    int32_wire, parse_field, parse_fields, parse_varint, push_bytes_field, push_varint,
    push_varint_field, wire_int32, wire_uint32, WireValue,
};

fn varint(v: u64) -> Vec<u8> {
    let mut out = Vec::new();
    push_varint(&mut out, v);
    out
}

#[test]
fn varint_agrees_with_the_reference_encoder() {
    let mut values = vec![0u64, 1, 127, 128, 300, 16383, 16384, u32::MAX as u64, u64::MAX];
    for shift in 0..64 {
        values.push(1u64 << shift);
        values.push((1u64 << shift) - 1);
    }
    for v in values {
        let mut want = Vec::new();
        prost::encoding::encode_varint(v, &mut want);
        assert_eq!(varint(v), want);
        assert_eq!(parse_varint(&want, 0), Some((v, want.len())));
        let mut slice: &[u8] = &want;
        assert_eq!(prost::encoding::decode_varint(&mut slice).ok(), Some(v));
    }
}

#[test]
fn varint_examples() {
    assert_eq!(varint(0), vec![0]);
    assert_eq!(varint(300), vec![0xAC, 0x02]);
    assert_eq!(varint(u64::MAX), vec![0xFF, 0xFF, 0xFF, 0xFF, 0xFF, 0xFF, 0xFF, 0xFF, 0xFF, 0x01]);
    assert_eq!(parse_varint(&[0xAC, 0x02, 0x55], 0), Some((300, 2)));
    assert_eq!(parse_varint(&[0x00, 0xAC, 0x02], 1), Some((300, 3)));
    // Not the shortest form, but a varint.
    assert_eq!(parse_varint(&[0x80, 0x00], 0), Some((0, 2)));
    // Cut short, too long, too large.
    assert_eq!(parse_varint(&[], 0), None);
    assert_eq!(parse_varint(&[0x80], 0), None);
    assert_eq!(parse_varint(&[0xFF; 11], 0), None);
    let too_large = [0xFF, 0xFF, 0xFF, 0xFF, 0xFF, 0xFF, 0xFF, 0xFF, 0xFF, 0x02];
    assert_eq!(parse_varint(&too_large, 0), None);
    let mut slice: &[u8] = &too_large;
    assert!(prost::encoding::decode_varint(&mut slice).is_err());
}

#[test]
fn fields() {
    let mut buf = Vec::new();
    push_varint_field(&mut buf, 3, 300);
    push_bytes_field(&mut buf, 6, b"ab");
    assert_eq!(buf, vec![0x18, 0xAC, 0x02, 0x32, 0x02, b'a', b'b']);
    let fields = parse_fields(&buf).unwrap();
    assert_eq!(fields.len(), 2);
    assert_eq!(fields[0].number, 3);
    assert!(matches!(fields[0].value, WireValue::Varint(300)));
    assert_eq!(fields[1].number, 6);
    assert!(matches!(&fields[1].value, WireValue::Bytes(b) if b == b"ab"));
    let (first, next) = parse_field(&buf, 0).unwrap();
    assert_eq!((first.number, next), (3, 3));
    // Fixed-width fields are read over.
    let fixed = [0x09, 1, 2, 3, 4, 5, 6, 7, 8, 0x15, 1, 2, 3, 4];
    let fields = parse_fields(&fixed).unwrap();
    assert!(matches!(fields[0].value, WireValue::Fixed64));
    assert!(matches!(fields[1].value, WireValue::Fixed32));
    assert!(parse_fields(&[]).unwrap().is_empty());
    // Field number zero, a group, a length past the end, a cut fixed field.
    assert!(parse_fields(&[0x00, 0x00]).is_none());
    assert!(parse_fields(&[0x0B]).is_none());
    assert!(parse_fields(&[0x0A, 0x02, 0x00]).is_none());
    assert!(parse_fields(&[0x09, 1, 2]).is_none());
    assert!(parse_fields(&[0x0D, 1, 2, 3]).is_none());
    assert!(parse_fields(&[0xFF, 0xFF, 0xFF, 0xFF, 0x1F, 0x00]).is_none());
}

#[test]
fn integers_on_the_wire() {
    assert_eq!(int32_wire(0), 0);
    assert_eq!(int32_wire(80), 80);
    assert_eq!(int32_wire(-1), u64::MAX);
    assert_eq!(int32_wire(i32::MIN), 0xFFFF_FFFF_8000_0000);
    assert_eq!(wire_int32(u64::MAX), -1);
    assert_eq!(wire_int32(0x1_0000_0005), 5);
    assert_eq!(wire_int32(0x8000_0000), i32::MIN);
    assert_eq!(wire_uint32(0x1_0000_0002), 2);
    for v in [0, 1, -1, 7, i32::MAX, i32::MIN, -12345] {
        assert_eq!(wire_int32(int32_wire(v)), v);
    }
}

#[test]
fn transport_instruction_round_trips() {
    let ti = Instruction {
        protocol_version: Some(2),
        old_num: Some(1),
        new_num: Some(u64::MAX),
        ack_num: Some(300),
        throwaway_num: Some(0),
        diff: Some(b"diff".to_vec()),
        chaff: Some(vec![1, 2, 3]),
    };
    let bytes = ti.encode_to_vec();
    assert_eq!(
        bytes,
        [
            vec![0x08, 0x02, 0x10, 0x01, 0x18],
            vec![0xFF; 9],
            vec![0x01, 0x20, 0xAC, 0x02, 0x28, 0x00],
            vec![0x32, 0x04, b'd', b'i', b'f', b'f', 0x3A, 0x03, 1, 2, 3],
        ]
        .concat()
    );
    let back = Instruction::decode(&bytes).unwrap();
    assert_eq!(back.protocol_version, Some(2));
    assert_eq!(back.old_num, Some(1));
    assert_eq!(back.new_num, Some(u64::MAX));
    assert_eq!(back.ack_num, Some(300));
    assert_eq!(back.throwaway_num, Some(0));
    assert_eq!(back.diff, Some(b"diff".to_vec()));
    assert_eq!(back.chaff, Some(vec![1, 2, 3]));
    let empty = Instruction::decode(&[]).unwrap();
    assert_eq!(empty.protocol_version, None);
    assert_eq!(empty.diff, None);
    // A later field replaces an earlier one; a wrong wire type is refused.
    let twice = Instruction::decode(&[0x10, 0x01, 0x10, 0x05, 0x48, 0x09]).unwrap();
    assert_eq!(twice.old_num, Some(5));
    assert!(Instruction::decode(&[0x12, 0x00]).is_err());
    assert!(Instruction::decode(&[0x30, 0x00]).is_err());
    assert!(Instruction::decode(&[0x08]).is_err());
}

#[test]
fn host_message_round_trips() {
    let msg = hostinput::HostMessage {
        instruction: vec![
            hostinput::Instruction {
                hostbytes: Some(hostinput::HostBytes { hoststring: Some(b"hi".to_vec()) }),
                resize: None,
                echoack: None,
            },
            hostinput::Instruction {
                hostbytes: None,
                resize: Some(hostinput::ResizeMessage { width: Some(80), height: Some(24) }),
                echoack: Some(hostinput::EchoAck { echo_ack_num: Some(9) }),
            },
        ],
    };
    let bytes = msg.encode_to_vec();
    assert_eq!(
        bytes,
        vec![
            0x0A, 0x06, 0x12, 0x04, 0x22, 0x02, b'h', b'i', // host octets
            0x0A, 0x0A, 0x1A, 0x04, 0x28, 80, 0x30, 24, 0x3A, 0x02, 0x40, 9, // size, echo
        ]
    );
    let back = hostinput::HostMessage::decode(&bytes).unwrap();
    assert_eq!(back.instruction.len(), 2);
    assert_eq!(
        back.instruction[0].hostbytes.as_ref().unwrap().hoststring.as_deref(),
        Some(&b"hi"[..])
    );
    assert!(back.instruction[0].resize.is_none());
    let r = back.instruction[1].resize.unwrap();
    assert_eq!((r.width, r.height), (Some(80), Some(24)));
    assert_eq!(back.instruction[1].echoack.unwrap().echo_ack_num, Some(9));
    assert!(hostinput::HostMessage::decode(&[0x0A, 0x03, 0x12]).is_err());
    assert!(hostinput::Instruction::decode(&[0x3A, 0x01, 0x42]).is_err());
    assert_eq!(
        mosh_client::transport::host_strings(&bytes),
        Ok(vec![b"hi".to_vec()])
    );
}

#[test]
fn user_message_records() {
    let k = userinput::Keystroke { keys: Some(b"ab".to_vec()) };
    assert_eq!(k.encode_to_vec(), vec![0x22, 0x02, b'a', b'b']);
    let r = userinput::ResizeMessage { width: Some(-1), height: None };
    assert_eq!(r.encode_to_vec(), [vec![0x28], vec![0xFF; 9], vec![0x01]].concat());
    let both = userinput::Instruction { keystroke: Some(k.clone()), resize: Some(r) };
    let back = userinput::Instruction::decode(&both.encode_to_vec()).unwrap();
    assert_eq!(back.keystroke.unwrap().keys, Some(b"ab".to_vec()));
    assert_eq!(back.resize.unwrap().width, Some(-1));
    // A record that comes twice is merged.
    let merged = userinput::Instruction::decode(&[0x1A, 0x02, 0x28, 0x05, 0x1A, 0x02, 0x30, 0x06])
        .unwrap();
    let size = merged.resize.unwrap();
    assert_eq!((size.width, size.height), (Some(5), Some(6)));
    let msg = userinput::UserMessage { instruction: vec![both.clone(), both] };
    assert_eq!(userinput::UserMessage::decode(&msg.encode_to_vec()).unwrap().instruction.len(), 2);
}

#[test]
fn byte_helpers() {
    let mut buf = vec![9u8];
    push_u16_be(&mut buf, 0x1234);
    push_u64_be(&mut buf, 0x0102_0304_0506_0708);
    extend_bytes(&mut buf, &[0xAA]);
    assert_eq!(buf, vec![9, 0x12, 0x34, 1, 2, 3, 4, 5, 6, 7, 8, 0xAA]);
    assert_eq!(read_u16_be(&buf, 1), 0x1234);
    assert_eq!(read_u64_be(&buf, 3), 0x0102_0304_0506_0708);
    assert_eq!(read_u64_be(&[0xFF; 8], 0), u64::MAX);
    assert_eq!(copy_range(&buf, 1, 3), vec![0x12, 0x34]);
    assert!(copy_range(&buf, 4, 4).is_empty());
    assert_eq!(clone_bytes(&buf), buf);
    assert!(bytes_equal(&buf, &buf.clone()));
    assert!(!bytes_equal(&buf, &buf[1..]));
    assert!(!bytes_equal(&[1, 2], &[1, 3]));
    assert!(bytes_equal(&[], &[]));
}
