use std::cell::RefCell;

use httpwg::buf::{distribute, BufOrSlice};
use httpwg::write::{after_writev, pending_len, wrap_all, WriteAll, WriteError, Writev, WritevStep};

enum Mode {
    WriteZero,
    WritePartial,
    /// Accepts this many bytes per call, or all that is offered if fewer.
    Schedule(Vec<usize>),
}

struct Writer {
    mode: Mode,
    bytes: RefCell<Vec<u8>>,
    calls: RefCell<usize>,
}

impl Writer {
    fn new(mode: Mode) -> Writer {
        Writer { mode, bytes: RefCell::new(Vec::new()), calls: RefCell::new(0) }
    }

    fn write(&self, buf: &[u8]) -> Result<usize, ()> {
        assert!(buf.len() > 0, "zero-length writes are forbidden");
        let call = *self.calls.borrow();
        *self.calls.borrow_mut() = call + 1;
        let n = match &self.mode {
            Mode::WriteZero => 0,
            Mode::WritePartial => match buf.len() {
                1 => 1,
                _ => buf.len() / 2,
            },
            Mode::Schedule(s) => std::cmp::min(s[call % s.len()], buf.len()),
        };
        self.bytes.borrow_mut().extend_from_slice(&buf[..n]);
        Ok(n)
    }

    fn write_all(&self, buf: Vec<u8>) -> Result<(), WriteError<()>> {
        let mut st = WriteAll::new(buf.len());
        while !st.is_done() {
            let (a, b) = st.next_range();
            let res = self.write(&buf[a..b]);
            st.on_write(res)?;
        }
        Ok(())
    }

    fn writev(&self, list: Vec<BufOrSlice>) -> (Result<usize, WriteError<()>>, Vec<BufOrSlice>) {
        let lens: Vec<usize> = list.iter().map(|b| b.len()).collect();
        let mut st = Writev::new(lens);
        let mut step = st.start();
        loop {
            match step {
                WritevStep::Finished(n) => return (Ok(n), list),
                WritevStep::Next => {
                    let res = self.write(list[st.idx].as_slice());
                    match st.on_write(res) {
                        Ok(s) => step = s,
                        Err(e) => return (Err(e), list),
                    }
                }
            }
        }
    }

    fn writev_all(&self, bufs: Vec<Vec<u8>>) -> Result<(), WriteError<()>> {
        let mut list = wrap_all(bufs);
        while !list.is_empty() {
            let (res, back) = self.writev(list);
            let res = match res {
                Ok(n) => Ok(n),
                Err(WriteError::WriteZero) => Ok(0),
                Err(WriteError::Io(e)) => Err(e),
            };
            list = after_writev(res, back)?;
        }
        Ok(())
    }
}

#[test]
fn test_write_all() {
    let writer = Writer::new(Mode::WriteZero);
    let buf_a = vec![1, 2, 3, 4, 5];
    let res = writer.write_all(buf_a);
    assert!(res.is_err());

    let writer = Writer::new(Mode::WriteZero);
    let buf_a = vec![1, 2, 3, 4, 5];
    let buf_b = vec![6, 7, 8, 9, 10];
    let res = writer.writev_all(vec![buf_a, buf_b]);
    assert!(res.is_err());

    let writer = Writer::new(Mode::WritePartial);
    let buf_a = vec![1, 2, 3, 4, 5];
    assert!(writer.write_all(buf_a).is_ok());
    assert_eq!(&writer.bytes.borrow()[..], &[1, 2, 3, 4, 5]);

    let writer = Writer::new(Mode::WritePartial);
    let buf_a = vec![1, 2, 3, 4, 5];
    let buf_b = vec![6, 7, 8, 9, 10];
    assert!(writer.writev_all(vec![buf_a, buf_b]).is_ok());
    assert_eq!(&writer.bytes.borrow()[..], &[1, 2, 3, 4, 5, 6, 7, 8, 9, 10]);
}

#[test]
fn write_all_delivers_every_schedule() {
    let data: Vec<u8> = (0..37).collect();
    for schedule in [vec![1], vec![2, 5], vec![3, 1, 7], vec![100], vec![36, 1]] {
        let writer = Writer::new(Mode::Schedule(schedule));
        assert!(writer.write_all(data.clone()).is_ok());
        assert_eq!(&writer.bytes.borrow()[..], &data[..]);
    }
}

#[test]
fn write_all_fails_on_first_zero_report() {
    let writer = Writer::new(Mode::Schedule(vec![2, 0]));
    let res = writer.write_all(vec![1, 2, 3, 4, 5]);
    assert!(matches!(res, Err(WriteError::WriteZero)));
    assert_eq!(&writer.bytes.borrow()[..], &[1, 2]);
    assert_eq!(*writer.calls.borrow(), 2);
}

#[test]
fn write_all_zero_sink_stops_after_one_call() {
    let writer = Writer::new(Mode::WriteZero);
    let res = writer.write_all(vec![1, 2, 3]);
    assert!(matches!(res, Err(WriteError::WriteZero)));
    assert_eq!(*writer.calls.borrow(), 1);
    assert!(writer.bytes.borrow().is_empty());
}

#[test]
fn write_all_of_empty_buffer_makes_no_call() {
    let writer = Writer::new(Mode::WriteZero);
    assert!(writer.write_all(Vec::new()).is_ok());
    assert_eq!(*writer.calls.borrow(), 0);
}

#[test]
fn write_all_passes_transport_error_on() {
    let mut st = WriteAll::new(4);
    let res: Result<(), WriteError<u32>> = st.on_write(Err(7));
    assert!(matches!(res, Err(WriteError::Io(7))));
    assert_eq!(st.written, 0);
}

#[test]
fn write_all_counts_progress() {
    let mut st = WriteAll::new(10);
    assert!(st.on_write::<()>(Ok(4)).is_ok());
    assert_eq!(st.next_range(), (4, 10));
    assert!(st.on_write::<()>(Ok(60)).is_ok());
    assert!(st.is_done());
}

#[test]
fn writev_all_delivers_every_schedule() {
    let bufs = vec![vec![1, 2, 3], vec![4], vec![5, 6, 7, 8, 9], vec![10, 11]];
    let all: Vec<u8> = (1..12).collect();
    for schedule in [vec![1], vec![2], vec![3, 1], vec![4, 2, 1], vec![100]] {
        let writer = Writer::new(Mode::Schedule(schedule));
        assert!(writer.writev_all(bufs.clone()).is_ok());
        assert_eq!(&writer.bytes.borrow()[..], &all[..]);
    }
}

#[test]
fn writev_all_half_sink() {
    let writer = Writer::new(Mode::WritePartial);
    assert!(writer.writev_all(vec![vec![1, 2, 3, 4, 5], vec![6, 7, 8, 9, 10]]).is_ok());
    assert_eq!(&writer.bytes.borrow()[..], &[1, 2, 3, 4, 5, 6, 7, 8, 9, 10]);
}

#[test]
fn zero_sink_sends_nothing() {
    let writer = Writer::new(Mode::WriteZero);
    assert!(matches!(writer.write_all(vec![1, 2, 3, 4, 5]), Err(WriteError::WriteZero)));
    assert!(writer.bytes.borrow().is_empty());
    let writer = Writer::new(Mode::WriteZero);
    let res = writer.writev_all(vec![vec![1, 2, 3, 4, 5], vec![6, 7, 8, 9, 10]]);
    assert!(matches!(res, Err(WriteError::WriteZero)));
    assert!(writer.bytes.borrow().is_empty());
}

#[test]
fn writev_stops_at_partial_element() {
    let mut st = Writev::new(vec![3, 4, 5]);
    assert!(matches!(st.start(), WritevStep::Next));
    assert!(matches!(st.on_write::<()>(Ok(3)), Ok(WritevStep::Next)));
    assert_eq!(st.idx, 1);
    assert!(matches!(st.on_write::<()>(Ok(2)), Ok(WritevStep::Finished(5))));
}

#[test]
fn writev_reports_all_when_every_element_is_sent() {
    let mut st = Writev::new(vec![2, 1]);
    assert!(matches!(st.on_write::<()>(Ok(2)), Ok(WritevStep::Next)));
    assert!(matches!(st.on_write::<()>(Ok(1)), Ok(WritevStep::Finished(3))));
    let st = Writev::new(Vec::new());
    assert!(matches!(st.start(), WritevStep::Finished(0)));
}

#[test]
fn writev_errors() {
    let mut st = Writev::new(vec![2, 1]);
    assert!(matches!(st.on_write::<()>(Ok(0)), Err(WriteError::WriteZero)));
    let mut st = Writev::new(vec![2, 1]);
    assert!(matches!(st.on_write::<i32>(Err(-5)), Err(WriteError::Io(-5))));
}

#[test]
fn after_writev_outcomes() {
    let list = wrap_all(vec![vec![1, 2], vec![3, 4, 5]]);
    let rest = after_writev::<()>(Ok(3), list).ok().unwrap();
    assert_eq!(rest.len(), 1);
    assert_eq!(rest[0].as_slice(), &[4, 5]);
    let list = wrap_all(vec![vec![1, 2]]);
    assert!(matches!(after_writev::<()>(Ok(0), list), Err(WriteError::WriteZero)));
    let list = wrap_all(vec![vec![1, 2]]);
    assert!(matches!(after_writev::<u8>(Err(9), list), Err(WriteError::Io(9))));
}

#[test]
fn distribute_drops_sent_and_slices_partial() {
    let list = wrap_all(vec![vec![1, 2], vec![3, 4, 5], vec![6]]);
    let rest = distribute(list, 3);
    assert_eq!(rest.len(), 2);
    assert!(matches!(rest[0], BufOrSlice::Slice { begin: 1, .. }));
    assert_eq!(rest[0].as_slice(), &[4, 5]);
    assert!(matches!(rest[1], BufOrSlice::Buf(_)));
    assert_eq!(rest[1].as_slice(), &[6]);

    let list = wrap_all(vec![vec![1, 2], vec![3]]);
    assert!(distribute(list, 3).is_empty());

    let list = wrap_all(vec![vec![1, 2], vec![3]]);
    let rest = distribute(list, 0);
    assert_eq!(rest.len(), 2);
    assert_eq!(rest[0].as_slice(), &[1, 2]);
}

#[test]
fn consume_accumulates_offset() {
    let b = BufOrSlice::Buf(vec![1, 2, 3, 4, 5]);
    assert_eq!(b.len(), 5);
    let b = b.consume(2);
    assert_eq!(b.begin(), 2);
    assert_eq!(b.as_slice(), &[3, 4, 5]);
    let b = b.consume(2);
    assert_eq!(b.begin(), 4);
    assert_eq!(b.bytes_init(), 1);
    assert_eq!(b.as_slice(), &[5]);
    assert_eq!(b.into_inner(), vec![1, 2, 3, 4, 5]);
}

#[test]
fn pending_len_sums_unsent_bytes() {
    let mut list = wrap_all(vec![vec![1, 2], vec![3, 4, 5]]);
    assert_eq!(pending_len(&list), Some(5));
    let first = list.remove(0).consume(1);
    list.insert(0, first);
    assert_eq!(pending_len(&list), Some(4));
    assert_eq!(pending_len(&Vec::new()), Some(0));
}
