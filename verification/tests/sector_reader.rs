use oxi_search::sector::MemSource;
use oxi_search::sector::SectorReader;

fn sample(n: usize) -> Vec<u8> {
    (0..n).map(|i| (i % 251) as u8).collect()
}

#[test]
fn read_within_one_sector() {
    let data = sample(100);
    let mut reader = SectorReader::new(MemSource { bytes: data.clone() }, 16);
    reader.seek_to(5);
    let out = reader.read(8);
    assert_eq!(out, data[5..13].to_vec());
    assert_eq!(reader.current_position(), 13);
}

#[test]
fn split_reads_match_one_unbuffered_read() {
    let data = sample(100);
    let mut reader = SectorReader::new(MemSource { bytes: data.clone() }, 16);
    reader.seek_to(12);
    let first = reader.read(8);
    // the read stops at the sector boundary
    assert_eq!(first, data[12..16].to_vec());
    let second = reader.read(8 - first.len());
    let mut joined = first.clone();
    joined.extend_from_slice(&second);
    assert_eq!(joined, data[12..20].to_vec());
}

#[test]
fn read_exact_crosses_boundaries() {
    let data = sample(100);
    let mut reader = SectorReader::new(MemSource { bytes: data.clone() }, 16);
    reader.seek_to(10);
    let out = reader.read_exact(40).unwrap();
    assert_eq!(out, data[10..50].to_vec());
    assert_eq!(reader.current_position(), 50);
}

#[test]
fn read_exact_fails_past_the_end() {
    let data = sample(100);
    let mut reader = SectorReader::new(MemSource { bytes: data }, 16);
    reader.seek_to(90);
    assert!(reader.read_exact(11).is_none());
}

#[test]
fn read_past_the_end_is_empty() {
    let data = sample(40);
    let mut reader = SectorReader::new(MemSource { bytes: data }, 16);
    reader.seek_to(40);
    assert!(reader.read(8).is_empty());
    reader.seek_to(1000);
    assert!(reader.read(8).is_empty());
}

#[test]
fn zero_length_read_is_empty() {
    let data = sample(40);
    let mut reader = SectorReader::new(MemSource { bytes: data }, 16);
    reader.seek_to(3);
    assert!(reader.read(0).is_empty());
    assert_eq!(reader.current_position(), 3);
}

#[test]
fn sequential_reads_concatenate_to_the_backing_slice() {
    let data = sample(200);
    let mut reader = SectorReader::new(MemSource { bytes: data.clone() }, 32);
    reader.seek_to(7);
    let mut gathered: Vec<u8> = Vec::new();
    loop {
        let chunk = reader.read(13);
        if chunk.is_empty() {
            break;
        }
        gathered.extend_from_slice(&chunk);
    }
    assert_eq!(gathered, data[7..].to_vec());
}

#[test]
fn short_source_serves_its_tail() {
    // the data ends inside a sector: reads still hand the tail out once
    let data = sample(20);
    let mut reader = SectorReader::new(MemSource { bytes: data.clone() }, 16);
    reader.seek_to(14);
    let out = reader.read(10);
    assert_eq!(out, data[14..16].to_vec());
    let out = reader.read(10);
    assert_eq!(out, data[16..20].to_vec());
    let out = reader.read(10);
    assert!(out.is_empty());
}
