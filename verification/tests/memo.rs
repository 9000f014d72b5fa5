use dbase::{Error, MemoFile, MemoKind};

#[test]
fn new_classic_memo_file_is_a_header_that_names_block_one() {
    let memo = MemoFile::new(MemoKind::Classic);
    assert_eq!(memo.kind(), MemoKind::Classic);
    assert_eq!(memo.block_size(), 512);
    assert_eq!(memo.next_free_block(), 1);
    let bytes = memo.as_bytes();
    assert_eq!(bytes.len(), 512);
    assert_eq!(&bytes[..4], &[1, 0, 0, 0]);
    assert!(bytes[4..].iter().all(|b| *b == 0));
    assert_eq!(MemoFile::open(MemoKind::Classic, bytes.to_vec()).unwrap(), memo);
}

#[test]
fn new_foxpro_memo_file_keeps_its_numbers_most_significant_byte_first() {
    let memo = MemoFile::new(MemoKind::FoxPro);
    assert_eq!(memo.kind(), MemoKind::FoxPro);
    assert_eq!(memo.block_size(), 64);
    assert_eq!(memo.next_free_block(), 8);
    let bytes = memo.as_bytes();
    assert_eq!(bytes.len(), 512);
    assert_eq!(&bytes[..8], &[0, 0, 0, 8, 0, 0, 0, 64]);
    assert!(bytes[8..].iter().all(|b| *b == 0));
    assert_eq!(MemoFile::open(MemoKind::FoxPro, bytes.to_vec()).unwrap(), memo);
}

#[test]
fn classic_block_ends_with_two_terminators_and_fills_its_block() {
    let mut memo = MemoFile::new(MemoKind::Classic);
    let index = memo.append_block(b"hello").unwrap();
    assert_eq!(index, 1);
    assert_eq!(memo.next_free_block(), 2);
    let bytes = memo.as_bytes();
    assert_eq!(bytes.len(), 1024);
    assert_eq!(&bytes[..4], &[2, 0, 0, 0]);
    assert_eq!(&bytes[512..519], b"hello\x1a\x1a");
    assert!(bytes[519..].iter().all(|b| *b == 0));
    assert_eq!(memo.read_block(1).unwrap(), b"hello".to_vec());
}

#[test]
fn foxpro_block_starts_with_its_type_and_length() {
    let mut memo = MemoFile::new(MemoKind::FoxPro);
    let index = memo.append_block(b"hello").unwrap();
    assert_eq!(index, 8);
    assert_eq!(memo.next_free_block(), 9);
    let bytes = memo.as_bytes();
    assert_eq!(bytes.len(), 576);
    assert_eq!(&bytes[..4], &[0, 0, 0, 9]);
    assert_eq!(&bytes[6..8], &[0, 64]);
    assert_eq!(&bytes[512..520], &[0, 0, 0, 1, 0, 0, 0, 5]);
    assert_eq!(&bytes[520..525], b"hello");
    assert!(bytes[525..].iter().all(|b| *b == 0));
    assert_eq!(memo.read_block(8).unwrap(), b"hello".to_vec());
}

#[test]
fn text_longer_than_one_block_comes_back_whole() {
    for kind in [MemoKind::Classic, MemoKind::FoxPro] {
        let mut memo = MemoFile::new(kind);
        let long: Vec<u8> = (0..2000u32).map(|i| b'a' + (i % 26) as u8).collect();
        let first = memo.append_block(b"short").unwrap();
        let second = memo.append_block(&long).unwrap();
        let third = memo.append_block(b"").unwrap();
        assert_eq!(memo.read_block(first).unwrap(), b"short".to_vec());
        assert_eq!(memo.read_block(second).unwrap(), long);
        assert_eq!(memo.read_block(third).unwrap(), Vec::<u8>::new());
        let size = memo.block_size() as usize;
        assert_eq!(memo.as_bytes().len(), memo.next_free_block() as usize * size);
        let blocks = (2000 + if kind == MemoKind::Classic { 2 } else { 8 } + size - 1) / size;
        assert_eq!(third - second, blocks as u32);

        let reopened = MemoFile::open(kind, memo.as_bytes().to_vec()).unwrap();
        assert_eq!(reopened, memo);
        assert_eq!(reopened.read_block(second).unwrap(), long);
    }
}

#[test]
fn appending_leaves_earlier_blocks_as_they_were() {
    for kind in [MemoKind::Classic, MemoKind::FoxPro] {
        let mut memo = MemoFile::new(kind);
        let first = memo.append_block(b"one").unwrap();
        let before = memo.as_bytes().to_vec();
        let second = memo.append_block(b"two two").unwrap();
        assert_eq!(&memo.as_bytes()[4..before.len()], &before[4..]);
        assert_eq!(memo.read_block(first).unwrap(), b"one".to_vec());
        assert_eq!(memo.read_block(second).unwrap(), b"two two".to_vec());
    }
}

#[test]
fn classic_text_cannot_hold_the_terminator() {
    let mut memo = MemoFile::new(MemoKind::Classic);
    let before = memo.clone();
    match memo.append_block(b"a\x1ab") {
        Err(Error::Message(text)) => {
            assert_eq!(text, "the text holds the byte that ends a text in this memo file")
        }
        other => panic!("unexpected result {:?}", other),
    }
    assert_eq!(memo, before);
    let mut fox = MemoFile::new(MemoKind::FoxPro);
    let index = fox.append_block(b"a\x1ab").unwrap();
    assert_eq!(fox.read_block(index).unwrap(), b"a\x1ab".to_vec());
}

#[test]
fn blocks_that_are_not_there_are_io_errors() {
    let mut memo = MemoFile::new(MemoKind::Classic);
    memo.append_block(b"text").unwrap();
    for index in [0, 2, 3, u32::MAX] {
        match memo.read_block(index) {
            Err(Error::IoError(e)) => assert_eq!(e.kind(), std::io::ErrorKind::UnexpectedEof),
            other => panic!("unexpected result {:?}", other),
        }
    }
    let mut fox = MemoFile::new(MemoKind::FoxPro);
    fox.append_block(b"text").unwrap();
    for index in [0, 1, 7, 9, u32::MAX] {
        assert!(matches!(fox.read_block(index), Err(Error::IoError(_))));
    }
}

#[test]
fn classic_block_without_terminator_is_an_io_error() {
    let mut bytes = vec![0u8; 1024];
    bytes[0] = 2;
    for b in bytes[512..].iter_mut() {
        *b = b'x';
    }
    let memo = MemoFile::open(MemoKind::Classic, bytes).unwrap();
    assert!(matches!(memo.read_block(1), Err(Error::IoError(_))));
}

#[test]
fn foxpro_block_longer_than_the_file_is_an_io_error() {
    let mut bytes = vec![0u8; 576];
    bytes[3] = 9;
    bytes[7] = 64;
    bytes[512 + 3] = 1;
    bytes[512 + 7] = 57;
    let memo = MemoFile::open(MemoKind::FoxPro, bytes.clone()).unwrap();
    assert!(matches!(memo.read_block(8), Err(Error::IoError(_))));
    bytes[512 + 7] = 56;
    let memo = MemoFile::open(MemoKind::FoxPro, bytes).unwrap();
    assert_eq!(memo.read_block(8).unwrap(), vec![0u8; 56]);
}

#[test]
fn memo_file_with_an_unusable_header_cannot_be_opened() {
    for kind in [MemoKind::Classic, MemoKind::FoxPro] {
        match MemoFile::open(kind, vec![0u8; 100]) {
            Err(Error::ErrorOpeningMemoFile(e)) => {
                assert_eq!(e.kind(), std::io::ErrorKind::InvalidData)
            }
            other => panic!("unexpected result {:?}", other),
        }
    }
    let mut no_block_size = vec![0u8; 512];
    no_block_size[3] = 8;
    assert!(matches!(
        MemoFile::open(MemoKind::FoxPro, no_block_size),
        Err(Error::ErrorOpeningMemoFile(_))
    ));
    let mut too_long = vec![0u8; 1025];
    too_long[0] = 2;
    assert!(matches!(
        MemoFile::open(MemoKind::Classic, too_long),
        Err(Error::ErrorOpeningMemoFile(_))
    ));
}

#[test]
fn foxpro_header_is_read_most_significant_byte_first() {
    let mut bytes = vec![0u8; 0x0102 * 0x0304];
    bytes[2] = 0x01;
    bytes[3] = 0x02;
    bytes[6] = 0x03;
    bytes[7] = 0x04;
    let memo = MemoFile::open(MemoKind::FoxPro, bytes).unwrap();
    assert_eq!(memo.next_free_block(), 0x0102);
    assert_eq!(memo.block_size(), 0x0304);
    assert_eq!(memo.into_bytes().len(), 0x0102 * 0x0304);
}

#[test]
fn appending_fills_the_room_up_to_the_next_free_block() {
    let mut bytes = vec![0u8; 600];
    bytes[0] = 3;
    let mut memo = MemoFile::open(MemoKind::Classic, bytes).unwrap();
    let index = memo.append_block(b"late").unwrap();
    assert_eq!(index, 3);
    assert_eq!(memo.as_bytes().len(), 4 * 512);
    assert_eq!(&memo.as_bytes()[1536..1542], b"late\x1a\x1a");
    assert_eq!(memo.read_block(3).unwrap(), b"late".to_vec());
}
