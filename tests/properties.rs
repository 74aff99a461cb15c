use event_filesystem::{
    get_block_count, ConstantClock, EventFilesystem, FsError, MemoryWriter, StableMemory,
    VecMemory, BINARY_VERSION, FREE_MEMORY_BLOCK_SIZE, MAX_BLOCKS, TOPIC_HEADER_MAGIC,
};

fn fresh(name: &str) -> EventFilesystem<VecMemory, ConstantClock> {
    EventFilesystem::get_or_create(VecMemory::new(), ConstantClock { time: 5 }, name.to_string())
        .unwrap()
}

fn encode<T: serde::Serialize>(value: &T) -> Vec<u8> {
    bincode::serialize(value).unwrap()
}

#[test]
fn round_trip_of_strings_and_blobs() {
    let mut fs = fresh("rt");
    let a = encode(&"first".to_string());
    let b = encode(&vec![9u8; 2000]);
    let ia = fs.write_topic_message(&a).unwrap();
    let ib = fs.write_topic_message(&b).unwrap();
    assert_eq!(fs.read_topic_message(ia).unwrap(), a);
    assert_eq!(fs.read_topic_message(ib).unwrap(), b);
    let back: Vec<u8> = bincode::deserialize(&fs.read_topic_message(ib).unwrap()).unwrap();
    assert_eq!(back, vec![9u8; 2000]);
}

#[test]
fn identifiers_are_the_height_before_each_append() {
    let mut fs = fresh("ids");
    let sizes = [1usize, 512, 513, 5170, 3];
    let mut last: Option<u64> = None;
    for size in sizes {
        let before = fs.get_topic_height();
        let id = fs.write_topic_message(&vec![1u8; size]).unwrap();
        assert_eq!(id, before);
        assert_eq!(fs.get_topic_height(), before + get_block_count(size as u64));
        if let Some(prev) = last {
            assert!(id > prev);
        }
        last = Some(id);
    }
    assert_eq!(fs.get_topic_height(), 1 + 1 + 2 + 11 + 1);
}

#[test]
fn height_and_messages_survive_reopen() {
    let mut fs = fresh("persist");
    let payloads: Vec<Vec<u8>> = vec![vec![1u8; 10], vec![2u8; 1500], vec![3u8; 512]];
    let mut ids = Vec::new();
    for p in &payloads {
        ids.push(fs.write_topic_message(p).unwrap());
    }
    assert_eq!(ids, vec![0, 1, 4]);
    let fs = EventFilesystem::get_file_system(fs.into_memory(), ConstantClock { time: 0 }).unwrap();
    assert_eq!(fs.get_topic_height(), 5);
    for (id, p) in ids.iter().zip(payloads.iter()) {
        assert_eq!(&fs.read_topic_message(*id).unwrap(), p);
    }
    assert_eq!(fs.topic_header().event_stream_name, "persist");
}

#[test]
fn block_accounting_values() {
    assert_eq!(get_block_count(0), 0);
    assert_eq!(get_block_count(1), 1);
    assert_eq!(get_block_count(512), 1);
    assert_eq!(get_block_count(513), 2);
    assert_eq!(get_block_count(5120 + 50), 11);
}

#[test]
fn oversize_append_is_rejected_and_height_kept() {
    let fs = fresh("big");
    let mut memory = fs.into_memory();
    memory.write(8, &(MAX_BLOCKS - 1).to_le_bytes());
    let mut fs = EventFilesystem::get_file_system(memory, ConstantClock { time: 0 }).unwrap();
    assert_eq!(fs.get_topic_height(), MAX_BLOCKS - 1);
    assert_eq!(fs.write_topic_message(&vec![0u8; 513]), Err(FsError::PayloadTooLarge));
    assert_eq!(fs.get_topic_height(), MAX_BLOCKS - 1);
    assert_eq!(fs.write_topic_message(&vec![0u8; 512]), Ok(MAX_BLOCKS - 1));
    assert_eq!(fs.get_topic_height(), MAX_BLOCKS);
    assert_eq!(fs.write_topic_message(&vec![0u8; 1]), Err(FsError::PayloadTooLarge));
    assert_eq!(fs.get_topic_height(), MAX_BLOCKS);
}

#[test]
fn writer_rejects_payload_past_the_last_block() {
    let mut memory = VecMemory::new();
    let mut writer = MemoryWriter::new(MAX_BLOCKS - 2, ConstantClock { time: 0 });
    assert_eq!(writer.write(&vec![0u8; 1025], &mut memory), Err(FsError::PayloadTooLarge));
    assert_eq!(writer.block_offset(), MAX_BLOCKS - 2);
    assert!(memory.bytes.is_empty());
    let idx = writer.write(&vec![0u8; 1024], &mut memory).unwrap();
    assert_eq!(idx.end_idx, MAX_BLOCKS);
    assert_eq!(writer.block_offset(), MAX_BLOCKS);
}

#[test]
fn oversize_snapshot_is_rejected_and_height_kept() {
    let mut fs = fresh("snap");
    fs.write_topic_message(&[1u8, 2, 3]).unwrap();
    let too_big = vec![0u8; FREE_MEMORY_BLOCK_SIZE as usize + 1];
    assert_eq!(fs.stable_store(&too_big), Err(FsError::PayloadTooLarge));
    assert_eq!(fs.get_topic_height(), 1);
    let just_fits = vec![7u8; FREE_MEMORY_BLOCK_SIZE as usize];
    assert_eq!(fs.stable_store(&just_fits), Ok(()));
    assert_eq!(fs.stable_restore().unwrap(), just_fits);
    assert_eq!(fs.read_topic_message(0).unwrap(), vec![1u8, 2, 3]);
}

#[test]
fn fresh_store_bootstrap_and_reopen() {
    let fs = fresh("stream-a");
    let bytes = &fs.memory().bytes;
    assert_eq!(u64::from_le_bytes(bytes[0..8].try_into().unwrap()), TOPIC_HEADER_MAGIC);
    assert_eq!(fs.get_topic_height(), 0);
    assert_eq!(fs.topic_header().event_stream_name, "stream-a");
    assert_eq!(fs.topic_header().first_message_ptr, 0);
    assert_eq!(fs.topic_header().binary_version, BINARY_VERSION);
    let header = fs.topic_header().clone();
    let fs = EventFilesystem::get_file_system(fs.into_memory(), ConstantClock { time: 0 }).unwrap();
    assert_eq!(fs.topic_header(), &header);
    let fs = EventFilesystem::get_or_create(fs.into_memory(), ConstantClock { time: 0 }, "other".to_string())
        .unwrap();
    assert_eq!(fs.topic_header(), &header);
    assert_eq!(fs.get_topic_height(), 0);
}

#[test]
fn opening_zeroed_memory_fails() {
    let r = EventFilesystem::get_file_system(VecMemory::new(), ConstantClock { time: 0 });
    assert!(matches!(r, Err(FsError::DecodeError)));
}

#[test]
fn hello_world_scenario() {
    let mut fs = fresh("test");
    let a = fs.write_topic_message(&encode(&"hello world".to_string())).unwrap();
    let b = fs.write_topic_message(&encode(&"hello world2".to_string())).unwrap();
    assert_eq!(a, 0);
    assert_eq!(b, 1);
    assert_eq!(fs.get_topic_height(), 2);
    let ra: String = bincode::deserialize(&fs.read_topic_message(0).unwrap()).unwrap();
    let rb: String = bincode::deserialize(&fs.read_topic_message(1).unwrap()).unwrap();
    assert_eq!(ra, "hello world");
    assert_eq!(rb, "hello world2");
    let both = fs.read_topic_messages(0, 2).unwrap();
    assert_eq!(both, vec![encode(&"hello world".to_string()), encode(&"hello world2".to_string())]);
}

#[test]
fn two_mebibyte_blobs_round_trip() {
    let mut fs = fresh("blobs");
    let one = encode(&vec![12u8; 1024 * 1024]);
    let two = encode(&vec![33u8; 1024 * 1024]);
    let ia = fs.write_topic_message(&one).unwrap();
    let ib = fs.write_topic_message(&two).unwrap();
    assert_eq!(ia, 0);
    assert_eq!(ib, get_block_count(one.len() as u64));
    let back_one: Vec<u8> = bincode::deserialize(&fs.read_topic_message(ia).unwrap()).unwrap();
    let back_two: Vec<u8> = bincode::deserialize(&fs.read_topic_message(ib).unwrap()).unwrap();
    assert_eq!(back_one, vec![12u8; 1024 * 1024]);
    assert_eq!(back_two, vec![33u8; 1024 * 1024]);
}

#[test]
fn snapshot_slot_replaces_wholesale() {
    let mut fs = fresh("snapshots");
    let before = fs.stable_restore().unwrap();
    assert!(before.is_empty());
    assert!(bincode::deserialize::<String>(&before).is_err());
    fs.stable_store(&encode(&"x".to_string())).unwrap();
    let got: String = bincode::deserialize(&fs.stable_restore().unwrap()).unwrap();
    assert_eq!(got, "x");
    fs.stable_store(&encode(&"a much longer snapshot".to_string())).unwrap();
    fs.stable_store(&encode(&"y".to_string())).unwrap();
    assert_eq!(fs.stable_restore().unwrap(), encode(&"y".to_string()));
}

#[test]
fn unknown_identifiers_are_not_found() {
    let mut fs = fresh("missing");
    fs.write_topic_message(&vec![5u8; 1300]).unwrap();
    assert_eq!(fs.read_topic_message(1), Err(FsError::RecordNotFound));
    assert_eq!(fs.read_topic_message(3), Err(FsError::RecordNotFound));
    assert_eq!(fs.read_topic_message(MAX_BLOCKS), Err(FsError::RecordNotFound));
    assert_eq!(fs.read_topic_messages(0, 2), Err(FsError::RecordNotFound));
}

#[test]
fn uncommitted_record_is_not_read() {
    let fs = fresh("crash");
    let mut memory = fs.into_memory();
    let mut writer = MemoryWriter::new(0, ConstantClock { time: 0 });
    writer.write(&[4u8, 4, 4], &mut memory).unwrap();
    let mut fs = EventFilesystem::get_file_system(memory, ConstantClock { time: 0 }).unwrap();
    assert_eq!(fs.get_topic_height(), 0);
    assert_eq!(fs.read_topic_message(0), Err(FsError::RecordNotFound));
    assert_eq!(fs.write_topic_message(&[6u8]), Ok(0));
    assert_eq!(fs.read_topic_message(0), Ok(vec![6u8]));
}

#[test]
fn empty_payload_takes_no_block() {
    let mut fs = fresh("empty");
    assert_eq!(fs.write_topic_message(&[]), Ok(0));
    assert_eq!(fs.get_topic_height(), 0);
    assert_eq!(fs.read_topic_message(0), Ok(Vec::new()));
    assert_eq!(fs.write_topic_message(&[1u8]), Ok(0));
    assert_eq!(fs.get_topic_height(), 1);
}

#[test]
fn vec_memory_reads_zero_past_its_end() {
    let mut memory = VecMemory::new();
    memory.write(4, &[1u8, 2]);
    assert_eq!(memory.read(0, 8), vec![0u8, 0, 0, 0, 1, 2, 0, 0]);
    assert_eq!(memory.bytes.len(), 6);
}
