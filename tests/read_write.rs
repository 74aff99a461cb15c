use event_filesystem::{
    get_block_count, get_data_offset_from_height, ConstantClock, MemoryReader, MemoryWriter,
    VecMemory, BLOCK_SIZE, IDX_ZONE_END,
};

fn get_writer() -> MemoryWriter<ConstantClock> {
    MemoryWriter::new(0, ConstantClock { time: 0 })
}

fn get_reader() -> MemoryReader {
    MemoryReader::new()
}

fn encode<T: serde::Serialize>(value: &T) -> Vec<u8> {
    bincode::serialize(value).unwrap()
}

fn decode<T: serde::de::DeserializeOwned>(bytes: &[u8]) -> T {
    bincode::deserialize(bytes).unwrap()
}

#[test]
fn it_writes_and_reads_a_blob() {
    let message = "Hello, world!".to_string();
    let mut memory = VecMemory::new();
    let mut writer = get_writer();
    let reader = get_reader();

    let res = writer.write(&encode(&message), &mut memory).unwrap();
    let out: String = decode(&reader.read_topic_message(res.start_idx, &memory).unwrap());

    assert_eq!(out, message);
}

#[test]
fn it_writes_and_reads_multiple() {
    let bytes = "Hello, world!".to_string();
    let bytes_two = "Foo Bar Baz".to_string();
    let bytes_three = "A".to_string();

    let mut memory = VecMemory::new();
    let mut writer = get_writer();
    let reader = get_reader();

    let res = writer.write(&encode(&bytes), &mut memory).unwrap();
    let res_two = writer.write(&encode(&bytes_two), &mut memory).unwrap();
    let res_three = writer.write(&encode(&bytes_three), &mut memory).unwrap();

    let out: String = decode(&reader.read_topic_message(res.start_idx, &memory).unwrap());
    let out_two: String = decode(&reader.read_topic_message(res_two.start_idx, &memory).unwrap());
    let out_three: String =
        decode(&reader.read_topic_message(res_three.start_idx, &memory).unwrap());

    assert_eq!(out, bytes);
    assert_eq!(out_two, bytes_two);
    assert_eq!(out_three, bytes_three);
}

#[test]
fn it_writes_and_reads_large_multiple() {
    let bytes = vec![12u8; 1024 * 1024];
    let bytes_two = vec![33u8; 1024 * 1024];

    let mut memory = VecMemory::new();
    let mut writer = get_writer();
    let reader = get_reader();

    let res = writer.write(&encode(&bytes), &mut memory).unwrap();
    let res_two = writer.write(&encode(&bytes_two), &mut memory).unwrap();

    let out: Vec<u8> = decode(&reader.read_topic_message(res.start_idx, &memory).unwrap());
    let out_two: Vec<u8> = decode(&reader.read_topic_message(res_two.start_idx, &memory).unwrap());

    assert_eq!(out, bytes);
    assert_eq!(out_two, bytes_two);
}

#[test]
fn it_writes_partial_block() {
    let bytes = vec![12u8; 512];
    let bytes_two = vec![33u8; 513];
    let bytes_three = vec![55u8; 512 * 2 + 1];

    let mut memory = VecMemory::new();
    let mut writer = get_writer();
    let reader = get_reader();

    let res = writer.write(&encode(&bytes), &mut memory).unwrap();
    let res_two = writer.write(&encode(&bytes_two), &mut memory).unwrap();
    let res_three = writer.write(&encode(&bytes_three), &mut memory).unwrap();

    let out: Vec<u8> = decode(&reader.read_topic_message(res.start_idx, &memory).unwrap());
    let out_two: Vec<u8> = decode(&reader.read_topic_message(res_two.start_idx, &memory).unwrap());
    let out_three: Vec<u8> =
        decode(&reader.read_topic_message(res_three.start_idx, &memory).unwrap());

    assert_eq!(out, bytes);
    assert_eq!(out_two, bytes_two);
    assert_eq!(out_three, bytes_three);
}

#[test]
fn it_gets_block_count_for_data() {
    assert_eq!(get_block_count(0), 0);
    assert_eq!(get_block_count(1), 1);
    assert_eq!(get_block_count(512 * 1), 1);
    assert_eq!(get_block_count(512 * 2), 2);
    assert_eq!(get_block_count(512 * 2 + 1), 3);
    assert_eq!(get_block_count(512 * 10 + 50), 11);
}

#[test]
fn it_get_offset_from_block_height() {
    assert_eq!(get_data_offset_from_height(0), IDX_ZONE_END);
    assert_eq!(get_data_offset_from_height(1), IDX_ZONE_END + BLOCK_SIZE);
    assert_eq!(get_data_offset_from_height(10), IDX_ZONE_END + BLOCK_SIZE * 10);
}
