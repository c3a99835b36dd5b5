use std::sync::{Arc, Mutex};
use trade_watch::file_line_reader::{
    split_lines, FileLineReader, FileLineReaderSource, Len, TailError,
};
use trade_watch::model::{Model, TradeInfo};

struct BufState {
    data: Vec<u8>,
    read: usize,
}

/// An in-memory log source with independent write and read positions,
/// shared between clones.
#[derive(Clone)]
struct DoubleBuffer {
    inner: Arc<Mutex<BufState>>,
}

impl DoubleBuffer {
    fn new() -> Self {
        DoubleBuffer { inner: Arc::new(Mutex::new(BufState { data: Vec::new(), read: 0 })) }
    }

    fn write(&mut self, buf: &[u8]) -> Result<usize, TailError> {
        let mut st = self.inner.lock().unwrap();
        st.data.extend_from_slice(buf);
        Ok(buf.len())
    }

    fn read(&mut self, buf: &mut [u8]) -> Result<usize, TailError> {
        let mut st = self.inner.lock().unwrap();
        let n = buf.len().min(st.data.len() - st.read);
        let start = st.read;
        buf[..n].copy_from_slice(&st.data[start..start + n]);
        st.read += n;
        Ok(n)
    }

    fn truncate_to(&mut self, n: usize) {
        let mut st = self.inner.lock().unwrap();
        st.data.truncate(n);
        if st.read > n {
            st.read = n;
        }
    }
}

impl Len for DoubleBuffer {
    fn len(&self) -> Result<u64, TailError> {
        Ok(self.inner.lock().unwrap().data.len() as u64)
    }
}

impl FileLineReaderSource for DoubleBuffer {
    fn seek_to_end(&mut self) -> Result<u64, TailError> {
        let mut st = self.inner.lock().unwrap();
        st.read = st.data.len();
        Ok(st.read as u64)
    }

    fn read_rest(&mut self) -> Result<String, TailError> {
        let mut st = self.inner.lock().unwrap();
        let start = st.read;
        let s = String::from_utf8(st.data[start..].to_vec()).map_err(|_| TailError::IoFailure)?;
        st.read = st.data.len();
        Ok(s)
    }
}

/// A call counter that can be captured by subscriber callbacks.
#[derive(Clone)]
struct Callable {
    n: Arc<Mutex<u64>>,
}

impl Callable {
    fn new() -> Self {
        Callable { n: Arc::new(Mutex::new(0)) }
    }

    fn call(&self) {
        *self.n.lock().unwrap() += 1;
    }

    fn count(&self) -> u64 {
        *self.n.lock().unwrap()
    }
}

#[test]
fn double_buffer_usage() {
    let mut db = DoubleBuffer::new();
    db.write("buf".as_bytes()).unwrap();
    let mut b = [0; 3];
    db.read(&mut b).unwrap();
    assert_eq!(b, "buf".as_bytes());
}

const INCOMING_MSG: &[u8] = r#"2023/10/13 01:54:50 1054470421 cffb0719 [INFO Client 30680] @From SambaLe: Hi, I would like to buy your The Pandemonius, Jade Amulet listed for 4 divine in Ancestor (stash tab "pub"; position: left 11, top 1)"#.as_bytes();

#[test]
fn basic_usage() {
    let mut buf = DoubleBuffer::new();
    let mut model = Model::new();
    let mut rdr = FileLineReader::new(buf.clone()).unwrap();
    let clb = Callable::new();

    {
        let clb = clb.clone();
        model.incoming_subscribe(move |_ig: &TradeInfo| {
            clb.call();
        });
    }
    buf.write(INCOMING_MSG).unwrap();
    buf.write(b"\n").unwrap();
    buf.write(INCOMING_MSG).unwrap();
    rdr.process_new_content(&mut model).unwrap();

    assert_eq!(clb.count(), 2);

    buf.write(b"\n").unwrap();
    buf.write(INCOMING_MSG).unwrap();
    rdr.process_new_content(&mut model).unwrap();

    assert_eq!(clb.count(), 3);
}

#[test]
fn truncation_resets_offset_and_emits_nothing() {
    let mut buf = DoubleBuffer::new();
    let mut model = Model::new();
    let mut rdr = FileLineReader::new(buf.clone()).unwrap();
    let clb = Callable::new();
    {
        let clb = clb.clone();
        model.incoming_subscribe(move |_ig: &TradeInfo| {
            clb.call();
        });
    }

    buf.write(INCOMING_MSG).unwrap();
    buf.write(b"\n").unwrap();
    rdr.process_new_content(&mut model).unwrap();
    assert_eq!(clb.count(), 1);
    let grown = rdr.current_offset();
    assert!(grown > 0);

    buf.truncate_to(10);
    rdr.process_new_content(&mut model).unwrap();
    assert_eq!(clb.count(), 1);
    assert_eq!(rdr.current_offset(), 10);
}

struct Broken;

impl Len for Broken {
    fn len(&self) -> Result<u64, TailError> {
        Err(TailError::IoFailure)
    }
}

impl FileLineReaderSource for Broken {
    fn seek_to_end(&mut self) -> Result<u64, TailError> {
        Ok(0)
    }

    fn read_rest(&mut self) -> Result<String, TailError> {
        Err(TailError::IoFailure)
    }
}

#[test]
fn unreadable_source_reports_io_failure() {
    let r = FileLineReader::new(Broken);
    assert!(matches!(r, Err(TailError::IoFailure)));
}

#[test]
fn split_lines_handles_terminators() {
    assert_eq!(split_lines(""), Vec::<String>::new());
    assert_eq!(split_lines("a\r\nb\nc"), vec!["a", "b", "c"]);
    assert_eq!(split_lines("a\n"), vec!["a"]);
    assert_eq!(split_lines("\nx"), vec!["", "x"]);
    assert_eq!(split_lines("tail without end"), vec!["tail without end"]);
}

#[test]
fn from_parts_records_the_given_offset() {
    let rdr = FileLineReader::from_parts(DoubleBuffer::new(), 5);
    assert_eq!(rdr.current_offset(), 5);
}

#[test]
fn content_present_at_open_is_never_emitted() {
    let mut buf = DoubleBuffer::new();
    buf.write(INCOMING_MSG).unwrap();
    buf.write(b"\n").unwrap();
    let pre = buf.inner.lock().unwrap().data.len() as u64;

    let mut model = Model::new();
    let mut rdr = FileLineReader::new(buf.clone()).unwrap();
    assert_eq!(rdr.current_offset(), pre);
    let clb = Callable::new();
    {
        let clb = clb.clone();
        model.incoming_subscribe(move |_ig: &TradeInfo| {
            clb.call();
        });
    }

    rdr.process_new_content(&mut model).unwrap();
    assert_eq!(clb.count(), 0);
    assert_eq!(model.records().len(), 0);

    buf.write(INCOMING_MSG).unwrap();
    buf.write(b"\n").unwrap();
    rdr.process_new_content(&mut model).unwrap();
    assert_eq!(clb.count(), 1);
    assert_eq!(model.records().len(), 1);
}
