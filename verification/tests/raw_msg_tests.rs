use std::collections::VecDeque;

use rbtl_steamsockets::raw_msg::{RawMsgCommon, RawMsgIn, RawMsgOut, ACK_MAX_LEN};
use rbtl_steamsockets::SeqId;

fn test_ser_deser(acks: &[SeqId], has_data: bool, seq_id: SeqId, data: &[u8]) {
    let common = RawMsgCommon {
        ack_len: acks.len(),
        raw_acks: [0; ACK_MAX_LEN],
        has_data,
        seq_id,
    };
    let mut raw_bytes = Vec::new();
    let msg_out = RawMsgOut { common, data };
    msg_out.encode_into(&mut raw_bytes);
    let mut buf_in = Vec::new();
    let raw_msg_in = RawMsgIn::decode_from(&mut buf_in, &raw_bytes).unwrap();
    assert_eq!(raw_msg_in.common.ack_len, common.ack_len);
    assert_eq!(&raw_msg_in.common.raw_acks, &common.raw_acks);
    assert_eq!(raw_msg_in.common.has_data, common.has_data);
    assert_eq!(raw_msg_in.common.seq_id, common.seq_id);
    assert_eq!(buf_in, data);
}

#[test]
fn test_encode_decode_no_acks_no_data() {
    test_ser_deser(&[], false, 0, &[]);
}

#[test]
fn test_encode_decode_with_acks_no_data() {
    test_ser_deser(&[1, 2, 3], false, 0, &[]);
}

#[test]
fn test_encode_decode_no_acks_with_data() {
    test_ser_deser(&[], true, 4, &[1, 2, 3, 4]);
}

#[test]
fn test_encode_decode_with_acks_and_data() {
    test_ser_deser(&[1, 2, 3], true, 4, &[1, 2, 3, 4]);
}

#[test]
fn test_encode_decode_max_acks_with_data() {
    test_ser_deser(&[1, 2, 3, 4, 5, 6, 7, 8], true, 4, &[1, 2, 3, 4]);
}

#[test]
fn encode_exact_bytes() {
    let mut pending: VecDeque<SeqId> = VecDeque::new();
    pending.push_back(1);
    pending.push_back(0x0102_0304);
    let data = [9u8, 8];
    let msg = RawMsgOut::new(&mut pending, 5, &data);
    let mut buf = vec![77u8; 3];
    msg.encode_into(&mut buf);
    assert_eq!(buf, vec![2, 0, 0, 0, 1, 1, 2, 3, 4, 0, 0, 0, 5, 9, 8]);
    assert!(pending.is_empty());
}

#[test]
fn encode_without_data_keeps_seq_id() {
    let mut pending: VecDeque<SeqId> = VecDeque::from(vec![0xdead_beef]);
    let msg = RawMsgOut::new(&mut pending, 42, &[]);
    assert!(!msg.common.has_data);
    let mut buf = Vec::new();
    msg.encode_into(&mut buf);
    assert_eq!(buf, vec![1, 0xde, 0xad, 0xbe, 0xef, 0, 0, 0, 42]);
    let mut data_buf = vec![3u8];
    let back = RawMsgIn::decode_from(&mut data_buf, &buf).unwrap();
    assert_eq!(back.common.acks(), &[0xdead_beef]);
    assert!(!back.common.has_data);
    assert_eq!(back.common.seq_id, 42);
    assert_eq!(data_buf, vec![3]);
}

#[test]
fn new_takes_at_most_eight_acks_in_order() {
    let mut pending: VecDeque<SeqId> = (10..20).collect();
    let msg = RawMsgOut::new(&mut pending, 3, &[1]);
    assert_eq!(msg.common.ack_len, 8);
    assert_eq!(msg.common.acks(), &[10, 11, 12, 13, 14, 15, 16, 17]);
    assert_eq!(pending, VecDeque::from(vec![18, 19]));
    assert!(msg.common.has_data);
    assert_eq!(msg.common.seq_id, 3);
}

#[test]
fn roundtrip_with_real_acks() {
    let mut pending: VecDeque<SeqId> = VecDeque::from(vec![7, u32::MAX, 0x1234_5678]);
    let data = [0u8, 255, 128];
    let msg = RawMsgOut::new(&mut pending, 0xabcd_ef01, &data);
    let mut bytes = Vec::new();
    msg.encode_into(&mut bytes);
    let mut buf = Vec::new();
    let decoded = RawMsgIn::decode_from(&mut buf, &bytes).unwrap();
    assert_eq!(decoded.common.acks(), &[7, u32::MAX, 0x1234_5678]);
    assert_eq!(decoded.common.raw_acks[3..], [0; 5]);
    assert!(decoded.common.has_data);
    assert_eq!(decoded.common.seq_id, 0xabcd_ef01);
    assert_eq!(buf, data.to_vec());
}

#[test]
fn decode_rejects_cut_headers() {
    let mut buf = vec![5u8];
    assert!(RawMsgIn::decode_from(&mut buf, &[]).is_none());
    assert!(RawMsgIn::decode_from(&mut buf, &[2, 0, 0, 0, 1, 0, 0]).is_none());
    // acknowledgements complete, sequence id cut short
    assert!(RawMsgIn::decode_from(&mut buf, &[1, 0, 0, 0, 1, 0, 0, 0]).is_none());
    assert_eq!(buf, vec![5]);
}

#[test]
fn decode_without_data_reads_seq_id_and_keeps_buffer() {
    let mut buf = vec![42u8];
    // one ack, then the sequence id and no data
    let m = RawMsgIn::decode_from(&mut buf, &[1, 0, 0, 0, 9, 0, 0, 0, 3]).unwrap();
    assert_eq!(m.common.acks(), &[9]);
    assert!(!m.common.has_data);
    assert_eq!(m.common.seq_id, 3);
    assert_eq!(buf, vec![42]);
}

#[test]
fn decode_replaces_buffer_with_data() {
    let mut buf = vec![1u8, 2, 3, 4, 5, 6];
    let m = RawMsgIn::decode_from(&mut buf, &[0, 0, 0, 1, 0, 200]).unwrap();
    assert!(m.common.has_data);
    assert_eq!(m.common.seq_id, 256);
    assert_eq!(buf, vec![200]);
}
