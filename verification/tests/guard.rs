use rager::error::PagerError;
use rager::reader::{Search, ValidReader};
use rager::searcher::SearchMatch;
use rager::source::{ByteSource, SeekFrom, StdinCursor};

fn thai_bytes() -> Vec<u8> {
    let text = "\u{0e2a}\u{0e27}\u{0e31}\u{0e2a}\u{0e14}\u{0e35}\
                \u{0e0a}\u{0e32}\u{0e27}\u{0e42}\u{0e25}\u{0e01}\n";
    text.as_bytes().to_vec()
}

fn thai_file() -> StdinCursor {
    StdinCursor::new(thai_bytes())
}

#[test]
fn test_seek_to_end() {
    let mut reader = ValidReader::new(thai_file());
    assert_eq!(
        reader.seek(SeekFrom::End(0)).unwrap(),
        reader.seek(SeekFrom::Current(0)).unwrap()
    );
}

#[test]
fn test_seek_0_returns_0() {
    let mut reader = ValidReader::new(thai_file());
    assert_eq!(reader.seek(SeekFrom::Start(0)).unwrap(), 0);
}

#[test]
fn test_valid_from_1() {
    let mut reader = ValidReader::new(thai_file());

    let pos = reader.seek(SeekFrom::Start(1)).unwrap();
    assert_eq!(pos, 3);

    let buf = reader.read(1000).unwrap();
    assert!(std::str::from_utf8(&buf[..]).is_ok());
}

#[test]
fn test_err_at_end() {
    let mut reader = ValidReader::new(thai_file());
    let buf = reader.read(10).unwrap();
    println!("b {}", buf.len());
    assert!(std::str::from_utf8(&buf[..]).is_err());
}

#[test]
fn test_bufreader_fails_start() {
    let mut reader = thai_file();

    reader.seek(SeekFrom::Start(1)).unwrap();

    let buf = reader.read(1000).unwrap();
    assert!(std::str::from_utf8(&buf[..]).is_err());
}

#[test]
fn test_bufreader_fails_end() {
    let mut reader = thai_file();

    let buf = reader.read(10).unwrap();
    assert!(std::str::from_utf8(&buf[..]).is_err());
}

#[test]
fn seek_to_end_gives_the_length() {
    let mut reader = ValidReader::new(thai_file());
    assert_eq!(reader.seek(SeekFrom::End(0)), Ok(37));
}

#[test]
fn every_seek_lands_on_a_code_point_start() {
    let bytes = thai_bytes();
    let mut target = 0;
    while target <= bytes.len() as u64 {
        let mut reader = ValidReader::new(StdinCursor::new(thai_bytes()));
        let pos = reader.seek(SeekFrom::Start(target)).unwrap();
        assert!(pos >= target);
        assert!(pos < target + 3);
        let rest = reader.read(1000).unwrap();
        assert!(std::str::from_utf8(&rest[..]).is_ok());
        assert_eq!(rest.len() as u64, bytes.len() as u64 - pos);
        target += 1;
    }
}

#[test]
fn seek_relative_to_end_and_position() {
    let mut reader = ValidReader::new(thai_file());
    assert_eq!(reader.seek(SeekFrom::End(-2)), Ok(36));
    assert_eq!(reader.seek(SeekFrom::Current(-35)), Ok(3));
    assert_eq!(reader.seek(SeekFrom::Current(2)), Ok(6));
}

#[test]
fn seek_behind_the_end_is_kept() {
    let mut reader = ValidReader::new(thai_file());
    assert_eq!(reader.seek(SeekFrom::Start(50)), Ok(50));
    assert_eq!(reader.read(10), Ok(Vec::new()));
}

#[test]
fn seek_without_code_point_start_fails_and_stays() {
    let mut bytes = vec![b'a'];
    bytes.extend_from_slice(&[0x80; 9]);
    bytes.push(b'b');
    let mut reader = ValidReader::new(StdinCursor::new(bytes));
    assert_eq!(reader.seek(SeekFrom::Start(10)), Ok(10));
    assert_eq!(reader.seek(SeekFrom::Start(1)), Err(PagerError::BoundaryNotFound));
    assert_eq!(reader.seek(SeekFrom::Current(0)), Ok(10));
    assert_eq!(reader.seek(SeekFrom::Start(2)), Err(PagerError::BoundaryNotFound));
    assert_eq!(reader.seek(SeekFrom::Start(3)), Ok(10));
}

#[test]
fn seek_before_the_start_fails_and_stays() {
    let mut reader = ValidReader::new(thai_file());
    assert_eq!(reader.seek(SeekFrom::Start(6)), Ok(6));
    assert_eq!(reader.seek(SeekFrom::Current(-7)), Err(PagerError::Io));
    assert_eq!(reader.seek(SeekFrom::End(-38)), Err(PagerError::Io));
    assert_eq!(reader.seek(SeekFrom::Current(0)), Ok(6));
}

#[test]
fn source_reads_what_is_left() {
    let mut source = StdinCursor::new(b"hello world".to_vec());
    assert_eq!(source.read(5), Ok(b"hello".to_vec()));
    assert_eq!(source.seek(SeekFrom::Current(0)), Ok(5));
    assert_eq!(source.read(0), Ok(Vec::new()));
    assert_eq!(source.read(100), Ok(b" world".to_vec()));
    assert_eq!(source.read(100), Ok(Vec::new()));
    assert_eq!(source.seek(SeekFrom::Current(0)), Ok(11));
}

#[test]
fn source_seek_outside_of_u64_fails() {
    let mut source = StdinCursor::new(b"hello".to_vec());
    assert_eq!(source.seek(SeekFrom::Current(-1)), Err(PagerError::Io));
    assert_eq!(source.seek(SeekFrom::Start(u64::MAX)), Ok(u64::MAX));
    assert_eq!(source.seek(SeekFrom::Current(1)), Err(PagerError::Io));
    assert_eq!(source.seek(SeekFrom::Current(0)), Ok(u64::MAX));
    assert_eq!(source.seek(SeekFrom::End(-5)), Ok(0));
}

#[test]
fn guard_search_returns_to_its_position() {
    let mut reader = ValidReader::new(thai_file());
    assert_eq!(reader.seek(SeekFrom::Start(9)), Ok(9));
    let found = reader.search("\u{0e2a}").unwrap();
    assert_eq!(
        found,
        vec![
            SearchMatch { offset: 0, length: 3 },
            SearchMatch { offset: 9, length: 3 }
        ]
    );
    assert_eq!(reader.seek(SeekFrom::Current(0)), Ok(9));
    assert_eq!(reader.search("("), Err(PagerError::InvalidPattern));
    assert_eq!(reader.seek(SeekFrom::Current(0)), Ok(9));
}

#[test]
fn seek_into_the_last_code_point_lands_at_the_end() {
    let text = "a\u{0e2a}";
    let mut reader = ValidReader::new(StdinCursor::new(text.as_bytes().to_vec()));
    assert_eq!(reader.seek(SeekFrom::Start(1)), Ok(1));
    assert_eq!(reader.seek(SeekFrom::Start(2)), Ok(4));
    assert_eq!(reader.seek(SeekFrom::Start(3)), Ok(4));
    assert_eq!(reader.seek(SeekFrom::Start(4)), Ok(4));
    assert_eq!(reader.read(10), Ok(Vec::new()));
}

#[test]
fn seek_fails_only_before_a_full_lookahead_of_continuation_bytes() {
    let mut bytes = vec![b'a'];
    bytes.extend_from_slice(&[0x80; 8]);
    let mut reader = ValidReader::new(StdinCursor::new(bytes));
    assert_eq!(reader.seek(SeekFrom::Start(1)), Err(PagerError::BoundaryNotFound));
    assert_eq!(reader.seek(SeekFrom::Start(2)), Ok(9));
    assert_eq!(reader.seek(SeekFrom::Start(8)), Ok(9));
}
