use std::io::{Cursor, Read, Seek};

use rager::commands::State;
use rager::error::PagerError;
use rager::input::Input;
use rager::reader::{BiBufReader, Search, ValidReader};
use rager::searcher::SearchMatch;
use rager::source::{ByteSource, SeekFrom, StdinCursor};
use rager::util::ScreenGeometry;

const SCREEN: ScreenGeometry = ScreenGeometry { width: 80, height: 10 };

fn numbered_lines(count: usize) -> Vec<u8> {
    let mut bytes = Vec::new();
    let mut i = 1;
    while i <= count {
        bytes.extend_from_slice(format!("line {}\n", i).as_bytes());
        i += 1;
    }
    bytes
}

/// A source that seeks and reads as a file does.
struct FileLike {
    inner: Cursor<Vec<u8>>,
}

impl ByteSource for FileLike {
    fn seek(&mut self, pos: SeekFrom) -> Result<u64, PagerError> {
        let pos = match pos {
            SeekFrom::Start(offset) => std::io::SeekFrom::Start(offset),
            SeekFrom::End(delta) => std::io::SeekFrom::End(delta),
            SeekFrom::Current(delta) => std::io::SeekFrom::Current(delta),
        };
        self.inner.seek(pos).map_err(|_| PagerError::Io)
    }

    fn read(&mut self, limit: usize) -> Result<Vec<u8>, PagerError> {
        let mut bytes = Vec::new();
        (&mut self.inner)
            .take(limit as u64)
            .read_to_end(&mut bytes)
            .map_err(|_| PagerError::Io)?;
        Ok(bytes)
    }
}

/// A source that fails from its nth call on.
struct Failing {
    inner: StdinCursor,
    calls_left: usize,
}

impl ByteSource for Failing {
    fn seek(&mut self, pos: SeekFrom) -> Result<u64, PagerError> {
        if self.calls_left == 0 {
            return Err(PagerError::Io);
        }
        self.calls_left -= 1;
        self.inner.seek(pos)
    }

    fn read(&mut self, limit: usize) -> Result<Vec<u8>, PagerError> {
        if self.calls_left == 0 {
            return Err(PagerError::Io);
        }
        self.calls_left -= 1;
        self.inner.read(limit)
    }
}

/// A source whose answers cannot be true.
struct Lying {
    position: u64,
    bytes: usize,
}

impl ByteSource for Lying {
    fn seek(&mut self, _pos: SeekFrom) -> Result<u64, PagerError> {
        Ok(self.position)
    }

    fn read(&mut self, _limit: usize) -> Result<Vec<u8>, PagerError> {
        Ok(vec![b'x'; self.bytes])
    }
}

#[test]
fn file_like_source_moves_as_memory_does() {
    let mut reader = BiBufReader::new(FileLike { inner: Cursor::new(numbered_lines(100)) });
    assert_eq!(reader.down_n_lines(10, SCREEN), Ok(()));
    assert_eq!(reader.current_offset(), 71);
    assert_eq!(reader.up_n_lines(10, SCREEN), Ok(()));
    assert_eq!(reader.current_offset(), 0);
    assert_eq!(reader.jump_end(SCREEN), Ok(()));
    assert_eq!(reader.current_offset(), 719);
    assert_eq!(reader.jump_percentage(50, SCREEN), Ok(()));
    assert_eq!(reader.current_offset(), 391);
    let (offset, bytes) = reader.page(ScreenGeometry { width: 2, height: 1 }).unwrap();
    assert_eq!(offset, 391);
    assert_eq!(bytes, b"line 51\n".to_vec());
    assert_eq!(
        reader.search("line 100"),
        Ok(vec![SearchMatch { offset: 783, length: 8 }])
    );
    assert_eq!(reader.current_offset(), 391);
}

#[test]
fn file_like_source_is_guarded() {
    let text = "\u{0e2a}\u{0e27}\u{0e31}\n";
    let mut reader = ValidReader::new(FileLike { inner: Cursor::new(text.as_bytes().to_vec()) });
    assert_eq!(reader.seek(SeekFrom::Start(1)), Ok(3));
    assert_eq!(reader.seek(SeekFrom::Start(5)), Ok(6));
    assert_eq!(reader.seek(SeekFrom::End(0)), Ok(10));
    assert_eq!(reader.seek(SeekFrom::Current(-11)), Err(PagerError::Io));
}

#[test]
fn a_failing_device_leaves_the_cursor() {
    let mut calls = 0;
    let mut failed = 0;
    while calls < 30 {
        let source = Failing {
            inner: StdinCursor::new(numbered_lines(100)),
            calls_left: calls + 40,
        };
        let mut reader = BiBufReader::new(source);
        assert_eq!(reader.down_n_lines(10, SCREEN), Ok(()));
        assert_eq!(reader.current_offset(), 71);
        let source = Failing { inner: StdinCursor::new(numbered_lines(100)), calls_left: calls };
        let mut reader = BiBufReader::new(source);
        match reader.down_n_lines(10, SCREEN) {
            Ok(()) => assert_eq!(reader.current_offset(), 71),
            Err(e) => {
                assert_eq!(e, PagerError::Io);
                assert_eq!(reader.current_offset(), 0);
                failed += 1;
            }
        }
        let before = reader.current_offset();
        match reader.jump_end(SCREEN) {
            Ok(()) => assert_eq!(reader.current_offset(), 719),
            Err(e) => {
                assert_eq!(e, PagerError::Io);
                assert_eq!(reader.current_offset(), before);
            }
        }
        match reader.search("line") {
            Ok(found) => assert_eq!(found.len(), 100),
            Err(e) => assert_eq!(e, PagerError::Io),
        }
        calls += 1;
    }
    assert!(failed > 0);
}

#[test]
fn a_failing_device_fails_the_update() {
    let source = Failing { inner: StdinCursor::new(numbered_lines(100)), calls_left: 0 };
    let mut state = State::new(source);
    assert_eq!(state.update(&Input::Char('j'), SCREEN), Err(PagerError::Io));
    assert_eq!(state.current_offset(), 0);
    assert_eq!(state.update(&Input::Char('q'), SCREEN), Ok(()));
    assert!(state.quit());
    assert_eq!(state.page(SCREEN), Err(PagerError::Io));
}

#[test]
fn answers_that_cannot_be_true_do_no_harm() {
    let positions = [0, 1, 7, 1000, u64::MAX - 3, u64::MAX];
    let sizes = [0, 1, 8, 50, 5000];
    for position in positions {
        for bytes in sizes {
            let mut reader = BiBufReader::new(Lying { position, bytes });
            let moves: [fn(&mut BiBufReader<Lying>) -> Result<(), PagerError>; 5] = [
                |r| r.down_n_lines(3, SCREEN),
                |r| r.up_n_lines(3, SCREEN),
                |r| r.jump_end(SCREEN),
                |r| r.jump_percentage(50, SCREEN),
                |r| r.jump_offset(12),
            ];
            for step in moves {
                let before = reader.current_offset();
                if step(&mut reader).is_err() {
                    assert_eq!(reader.current_offset(), before);
                }
            }
            let before = reader.current_offset();
            let _ = reader.page(SCREEN);
            let _ = reader.search("x+");
            assert_eq!(reader.current_offset(), before);
        }
    }
}
