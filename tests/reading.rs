use std::io::{self, Read};

use read_exact::{begin, fill_or_eof, FillError, Next, Progress, ReadExactExt, MAX_INTERRUPTS};

/// A source that hands out `data` at most `chunk` bytes per read, after
/// `interrupts` interrupted reads, and counts the reads made of it.
struct Scripted {
    data: Vec<u8>,
    pos: usize,
    chunk: usize,
    interrupts: usize,
    reads: usize,
}

impl Scripted {
    fn new(data: &[u8], chunk: usize, interrupts: usize) -> Scripted {
        Scripted { data: data.to_vec(), pos: 0, chunk, interrupts, reads: 0 }
    }
}

impl Read for Scripted {
    fn read(&mut self, buf: &mut [u8]) -> io::Result<usize> {
        self.reads += 1;
        if self.interrupts > 0 {
            self.interrupts -= 1;
            return Err(io::Error::new(io::ErrorKind::Interrupted, "interrupted"));
        }
        let n = buf.len().min(self.chunk).min(self.data.len() - self.pos);
        buf[..n].copy_from_slice(&self.data[self.pos..self.pos + n]);
        self.pos += n;
        Ok(n)
    }
}

/// A source whose every read fails with the given kind.
struct Failing(io::ErrorKind);

impl Read for Failing {
    fn read(&mut self, _buf: &mut [u8]) -> io::Result<usize> {
        Err(io::Error::new(self.0, "broken source"))
    }
}

#[test]
fn eof() {
    let mut read = io::empty();
    let mut buf = [0, 0];

    let ret = read.read_exact_or_eof(&mut buf);

    assert_eq!(ret.unwrap(), false);
}

#[test]
fn ok() {
    let mut read = io::repeat(1);
    let mut buf = [0, 0];

    let ret = read.read_exact_or_eof(&mut buf);

    assert_eq!(ret.unwrap(), true);
    assert_eq!(buf, [1, 1]);
}

#[test]
fn unexpected_eof() {
    let mut read = io::repeat(1).take(1);
    let mut buf = [0, 0];

    let ret = read.read_exact_or_eof(&mut buf);

    assert!(ret.is_err());
}

#[test]
fn truncated_fill_reports_unexpected_eof_kind() {
    let mut read = io::repeat(1).take(1);
    let mut buf = [0, 0];

    let err = read.read_exact_or_eof(&mut buf).unwrap_err();

    assert_eq!(err.kind(), io::ErrorKind::UnexpectedEof);
}

#[test]
fn empty_buffer_never_reads() {
    let mut src = Scripted::new(&[7, 8], 1, 0);
    let mut buf: [u8; 0] = [];

    for _ in 0..3 {
        assert_eq!(src.read_exact_or_eof(&mut buf).unwrap(), true);
    }
    assert_eq!(src.reads, 0);
}

#[test]
fn empty_buffer_with_failing_source_succeeds() {
    let mut src = Failing(io::ErrorKind::Other);
    let mut buf: [u8; 0] = [];

    assert_eq!(src.read_exact_or_eof(&mut buf).unwrap(), true);
}

#[test]
fn ended_source_is_read_once() {
    for len in 1..5usize {
        let mut src = Scripted::new(&[], 4, 0);
        let mut buf = vec![9u8; len];

        assert_eq!(src.read_exact_or_eof(&mut buf).unwrap(), false);
        assert_eq!(src.reads, 1);
    }
}

#[test]
fn short_reads_fill_in_order() {
    let mut src = Scripted::new(&[1, 2, 3, 4, 5, 6], 1, 0);
    let mut buf = [0u8; 4];

    assert_eq!(src.read_exact_or_eof(&mut buf).unwrap(), true);
    assert_eq!(buf, [1, 2, 3, 4]);
    assert_eq!(src.reads, 4);
}

#[test]
fn uneven_reads_fill_in_order() {
    let mut src = Scripted::new(&[10, 20, 30, 40, 50], 3, 0);
    let mut buf = [0u8; 5];

    assert_eq!(src.read_exact_or_eof(&mut buf).unwrap(), true);
    assert_eq!(buf, [10, 20, 30, 40, 50]);
    assert_eq!(src.reads, 2);
}

#[test]
fn source_ending_partway_is_an_error() {
    let mut src = Scripted::new(&[1, 2, 3], 2, 0);
    let mut buf = [0u8; 5];

    let err = src.read_exact_or_eof(&mut buf).unwrap_err();
    assert_eq!(err.kind(), io::ErrorKind::UnexpectedEof);
}

#[test]
fn interruptions_do_not_change_a_full_fill() {
    let mut plain = Scripted::new(&[4, 5, 6], 2, 0);
    let mut interrupted = Scripted::new(&[4, 5, 6], 2, 5);
    let mut a = [0u8; 3];
    let mut b = [0u8; 3];

    assert_eq!(plain.read_exact_or_eof(&mut a).unwrap(), true);
    assert_eq!(interrupted.read_exact_or_eof(&mut b).unwrap(), true);
    assert_eq!(a, b);
    assert_eq!(interrupted.reads, plain.reads + 5);
}

#[test]
fn interruptions_do_not_change_an_empty_source() {
    let mut src = Scripted::new(&[], 2, 3);
    let mut buf = [0u8; 2];

    assert_eq!(src.read_exact_or_eof(&mut buf).unwrap(), false);
    assert_eq!(src.reads, 4);
}

#[test]
fn interruptions_do_not_change_a_truncated_fill() {
    let mut src = Scripted::new(&[1], 2, 2);
    let mut buf = [0u8; 2];

    let err = src.read_exact_or_eof(&mut buf).unwrap_err();
    assert_eq!(err.kind(), io::ErrorKind::UnexpectedEof);
}

#[test]
fn other_errors_are_handed_back() {
    let mut src = Failing(io::ErrorKind::PermissionDenied);
    let mut buf = [0u8; 2];

    let err = src.read_exact_or_eof(&mut buf).unwrap_err();
    assert_eq!(err.kind(), io::ErrorKind::PermissionDenied);
    assert_eq!(err.to_string(), "broken source");
}

#[test]
fn fill_or_eof_names_each_outcome() {
    let mut buf = [0u8; 2];
    assert!(matches!(fill_or_eof(&mut io::repeat(3), &mut buf), Ok(true)));
    assert_eq!(buf, [3, 3]);
    assert!(matches!(fill_or_eof(&mut io::empty(), &mut buf), Ok(false)));
    assert!(matches!(
        fill_or_eof(&mut io::repeat(1).take(1), &mut buf),
        Err(FillError::UnexpectedEof)
    ));
    match fill_or_eof(&mut Failing(io::ErrorKind::Other), &mut buf) {
        Err(FillError::Source(e)) => assert_eq!(e.kind(), io::ErrorKind::Other),
        _ => panic!("a failing source must be reported"),
    }
}

#[test]
fn begin_with_empty_buffer_is_done() {
    assert_eq!(begin::<()>(0), Next::Done(Ok(true)));
}

#[test]
fn begin_with_room_reads() {
    assert_eq!(
        begin::<()>(4),
        Next::Read(Progress { len: 4, filled: 0, retries_left: MAX_INTERRUPTS })
    );
}

#[test]
fn after_read_steps() {
    let fresh = Progress { len: 4, filled: 0, retries_left: 7 };
    let half = Progress { len: 4, filled: 2, retries_left: 7 };

    assert_eq!(fresh.after_read::<()>(0), Next::Done(Ok(false)));
    assert_eq!(half.after_read::<()>(0), Next::Done(Err(FillError::UnexpectedEof)));
    assert_eq!(half.after_read::<()>(2), Next::Done(Ok(true)));
    assert_eq!(fresh.after_read::<()>(4), Next::Done(Ok(true)));
    assert_eq!(fresh.after_read::<()>(1), Next::Read(Progress { len: 4, filled: 1, retries_left: 7 }));
}

#[test]
fn after_interrupt_steps() {
    let p = Progress { len: 4, filled: 1, retries_left: 2 };
    let spent = Progress { len: 4, filled: 1, retries_left: 0 };

    assert_eq!(p.after_interrupt(5u8), Next::Read(Progress { len: 4, filled: 1, retries_left: 1 }));
    assert_eq!(spent.after_interrupt(5u8), Next::Done(Err(FillError::Source(5u8))));
}
