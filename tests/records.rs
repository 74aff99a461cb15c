use event_filesystem::{FsError, IndexBlock, TopicHeaderBlock};

#[test]
fn index_block_it_serializes_and_deserializes() {
    let idx = IndexBlock {
        height: 1,
        data_size: 100,
        start_idx: 200,
        end_idx: 300,
        timestamp: 123456789,
    };

    let res = idx.to_bytes();
    assert_eq!(res.len(), 40);
    assert_eq!(idx, IndexBlock::from_bytes(&res));
}

#[test]
fn topic_header_block_it_serializes_and_deserializes() {
    let idx = TopicHeaderBlock {
        event_stream_name: "test_stream".parse().unwrap(),
        first_message_ptr: 0,
        binary_version: 1_000_000,
    };

    let res = idx.to_bytes();
    assert!(res.len() <= 512);
    assert_eq!(idx, TopicHeaderBlock::from_bytes(&res).unwrap());
}

#[test]
fn index_block_layout_is_five_little_endian_words() {
    let idx = IndexBlock {
        height: 1,
        data_size: 0x0102,
        start_idx: 3,
        end_idx: 4,
        timestamp: 0x0a0b0c0d,
    };
    let mut expected = vec![0u8; 40];
    expected[0] = 1;
    expected[8] = 0x02;
    expected[9] = 0x01;
    expected[16] = 3;
    expected[24] = 4;
    expected[32] = 0x0d;
    expected[33] = 0x0c;
    expected[34] = 0x0b;
    expected[35] = 0x0a;
    assert_eq!(idx.to_bytes(), expected);
}

#[test]
fn index_block_matches_bincode_layout() {
    let idx = IndexBlock {
        height: 7,
        data_size: 100,
        start_idx: 200,
        end_idx: 300,
        timestamp: 123456789,
    };
    let fields = (7u64, 100u64, 200u64, 300u64, 123456789u64);
    assert_eq!(idx.to_bytes(), bincode::serialize(&fields).unwrap());
}

#[test]
fn topic_header_block_matches_bincode_layout() {
    let header = TopicHeaderBlock::new("stream é".to_string());
    let fields = ("stream é".to_string(), 0u64, 1_000_000u32);
    assert_eq!(header.to_bytes(), bincode::serialize(&fields).unwrap());
    assert_eq!(TopicHeaderBlock::from_bytes(&header.to_bytes()).unwrap(), header);
}

#[test]
fn topic_header_block_rejects_bad_bytes() {
    let mut bytes = TopicHeaderBlock::new("ab".to_string()).to_bytes();
    bytes[8] = 0xff;
    assert_eq!(TopicHeaderBlock::from_bytes(&bytes), Err(FsError::DecodeError));
    let short = vec![0u8; 19];
    assert_eq!(TopicHeaderBlock::from_bytes(&short), Err(FsError::DecodeError));
    let mut long = TopicHeaderBlock::new("ab".to_string()).to_bytes();
    long.push(0);
    assert_eq!(TopicHeaderBlock::from_bytes(&long), Err(FsError::DecodeError));
}

#[test]
fn errors_have_messages() {
    assert_eq!(FsError::EncodeError.message(), "failed to serialize");
    assert_eq!(FsError::DecodeError.message(), "failed to deserialize");
    assert_eq!(FsError::PayloadTooLarge.message(), "payload is too large");
    assert_eq!(FsError::RecordNotFound.message(), "record not found");
}
