use oss_uploader::error::TransferError;
use oss_uploader::reader::{PartReader, ReadRequest};
use oss_uploader::session::PartTask;

fn read_all(data: &[u8], part_size: u64) -> Vec<PartTask> {
    let mut reader = PartReader::new(data.len() as u64, part_size);
    while let Some(request) = reader.next_request() {
        let from = request.offset as usize;
        let to = from + request.len as usize;
        reader.accept(data[from..to].to_vec()).unwrap();
    }
    reader.finish().unwrap()
}

#[test]
fn reader_asks_for_each_part_in_turn() {
    let data: Vec<u8> = (0u8..25).collect();
    let mut reader = PartReader::new(25, 10);
    assert!(!reader.is_complete());
    assert_eq!(
        reader.next_request(),
        Some(ReadRequest { part_number: 1, offset: 0, len: 10 })
    );
    assert_eq!(reader.accept(data[0..10].to_vec()), Ok(()));
    assert_eq!(
        reader.next_request(),
        Some(ReadRequest { part_number: 2, offset: 10, len: 10 })
    );
    assert_eq!(reader.accept(data[10..20].to_vec()), Ok(()));
    assert_eq!(
        reader.next_request(),
        Some(ReadRequest { part_number: 3, offset: 20, len: 5 })
    );
    assert_eq!(reader.accept(data[20..25].to_vec()), Ok(()));
    assert_eq!(reader.next_request(), None);
    assert!(reader.is_complete());
    let parts = reader.finish().unwrap();
    assert_eq!(
        parts,
        vec![
            PartTask { part_number: 1, payload: (0u8..10).collect() },
            PartTask { part_number: 2, payload: (10u8..20).collect() },
            PartTask { part_number: 3, payload: (20u8..25).collect() },
        ]
    );
}

#[test]
fn reading_yields_the_planned_buffers() {
    for part_size in 1u64..=7 {
        for file_size in 0usize..=30 {
            let data: Vec<u8> = (0..file_size).map(|i| (i % 251) as u8).collect();
            let parts = read_all(&data, part_size);
            let expected = (file_size as u64 + part_size - 1) / part_size;
            assert_eq!(parts.len() as u64, expected);
            let total: usize = parts.iter().map(|p| p.payload.len()).sum();
            assert_eq!(total, file_size);
            for (i, part) in parts.iter().enumerate() {
                assert_eq!(part.part_number, i as u64 + 1);
                if i + 1 < parts.len() {
                    assert_eq!(part.payload.len() as u64, part_size);
                } else {
                    assert!(part.payload.len() >= 1);
                    assert!(part.payload.len() as u64 <= part_size);
                }
            }
            let joined: Vec<u8> = parts.iter().flat_map(|p| p.payload.clone()).collect();
            assert_eq!(joined, data);
        }
    }
}

#[test]
fn part_numbers_are_contiguous_from_one() {
    let data = vec![7u8; 103];
    let parts = read_all(&data, 10);
    let mut numbers: Vec<u64> = parts.iter().map(|p| p.part_number).collect();
    numbers.sort();
    assert_eq!(numbers, (1u64..=11).collect::<Vec<u64>>());
}

#[test]
fn short_read_is_an_io_error_and_leaves_the_reader_unchanged() {
    let mut reader = PartReader::new(25, 10);
    assert_eq!(
        reader.accept(vec![0u8; 9]),
        Err(TransferError::Io("read ended before the part was complete".to_string()))
    );
    assert_eq!(
        reader.accept(vec![0u8; 11]),
        Err(TransferError::Io("read ended before the part was complete".to_string()))
    );
    assert_eq!(
        reader.accept(Vec::new()),
        Err(TransferError::Io("read ended before the part was complete".to_string()))
    );
    assert_eq!(
        reader.next_request(),
        Some(ReadRequest { part_number: 1, offset: 0, len: 10 })
    );
    assert_eq!(reader.accept(vec![0u8; 10]), Ok(()));
    assert_eq!(reader.accept(vec![0u8; 10]), Ok(()));
    assert_eq!(
        reader.accept(vec![0u8; 10]),
        Err(TransferError::Io("read ended before the part was complete".to_string()))
    );
    assert_eq!(reader.accept(vec![0u8; 5]), Ok(()));
    assert!(reader.is_complete());
}

#[test]
fn bytes_after_the_last_part_are_an_io_error() {
    let mut reader = PartReader::new(10, 10);
    assert_eq!(reader.accept(vec![1u8; 10]), Ok(()));
    assert_eq!(
        reader.accept(vec![1u8; 1]),
        Err(TransferError::Io("read past the last part".to_string()))
    );
    assert_eq!(
        reader.accept(Vec::new()),
        Err(TransferError::Io("read past the last part".to_string()))
    );
    assert_eq!(reader.finish().unwrap().len(), 1);
}

#[test]
fn parts_are_not_handed_out_before_the_file_is_read() {
    let mut reader = PartReader::new(25, 10);
    reader.accept(vec![0u8; 10]).unwrap();
    assert_eq!(
        reader.finish(),
        Err(TransferError::Io("file was not read to its end".to_string()))
    );
}

#[test]
fn empty_file_has_no_parts() {
    let reader = PartReader::new(0, 10);
    assert!(reader.is_complete());
    assert_eq!(reader.next_request(), None);
    assert_eq!(reader.finish(), Ok(Vec::new()));
}

#[test]
fn file_smaller_than_a_part_is_one_short_part() {
    let parts = read_all(&[1, 2, 3], 10);
    assert_eq!(parts, vec![PartTask { part_number: 1, payload: vec![1, 2, 3] }]);
}
