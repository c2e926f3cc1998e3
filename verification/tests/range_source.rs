use fung_preng_app::range_source::{
    check_status, opening_total_size, range_header, total_size_from_content_range, HttpRangeSource, ReadStep,
    SeekError, SeekTarget, StreamError, DEFAULT_CHUNK_SIZE,
};

fn content(len: usize) -> Vec<u8> {
    (0..len).map(|i| (i % 251) as u8).collect()
}

fn open(total: usize, first: usize) -> (HttpRangeSource, Vec<u8>) {
    let c = content(total);
    let header = format!("bytes 0-{}/{}", first.saturating_sub(1), total);
    let total_size = opening_total_size(206, Some(&header)).expect("opens");
    let src = HttpRangeSource::new("http://example.test/a.m4a".to_string(), total_size, c[..first].to_vec());
    (src, c)
}

#[test]
fn content_range_total_size() {
    assert_eq!(total_size_from_content_range(Some("bytes 0-262143/5000000")), Ok(5000000));
    assert_eq!(total_size_from_content_range(Some("5000")), Ok(5000));
    assert_eq!(total_size_from_content_range(Some("bytes 0-9/*")), Err(StreamError::InvalidTotalSize));
    assert_eq!(total_size_from_content_range(Some("bytes 0-9/")), Err(StreamError::InvalidTotalSize));
    assert_eq!(total_size_from_content_range(None), Err(StreamError::MissingTotalSize));
}

#[test]
fn open_requires_partial_content() {
    assert_eq!(opening_total_size(200, Some("bytes 0-1/2")), Err(StreamError::BadStatus(200)));
    assert_eq!(opening_total_size(206, None), Err(StreamError::MissingTotalSize));
    assert_eq!(opening_total_size(206, Some("bytes 0-1/x")), Err(StreamError::InvalidTotalSize));
    assert_eq!(opening_total_size(206, Some("bytes 0-1/2")), Ok(2));
    assert_eq!(check_status(206), Ok(()));
    assert_eq!(check_status(416), Err(StreamError::BadStatus(416)));
}

#[test]
fn opened_source_state() {
    let (src, _) = open(1000, 100);
    assert_eq!(src.position(), 0);
    assert_eq!(src.byte_len(), Some(1000));
    assert!(src.is_seekable());
    assert_eq!(src.url(), "http://example.test/a.m4a");
    assert_eq!(HttpRangeSource::initial_range(), (0, 262143));
}

#[test]
fn range_header_text() {
    assert_eq!(range_header(0, 262143), "bytes=0-262143");
    assert_eq!(range_header(300000, 562143), "bytes=300000-562143");
}

#[test]
fn reads_give_back_the_resource() {
    let (mut src, c) = open(1000, 100);
    let mut out = Vec::new();
    let mut buf = [0u8; 64];
    loop {
        match src.read_step() {
            ReadStep::EndOfStream => break,
            ReadStep::Fetch { start, end } => {
                let body = c[start as usize..=end as usize].to_vec();
                assert!(!src.fetch_overflows());
                src.accept_chunk(body);
            }
            ReadStep::Ready => {}
        }
        let n = src.read(&mut buf);
        out.extend_from_slice(&buf[..n]);
    }
    assert_eq!(out, c);
    assert_eq!(src.read(&mut buf), 0);
}

#[test]
fn fetch_range_stops_at_the_end() {
    let (mut src, _) = open(1000, 100);
    assert_eq!(src.seek(SeekTarget::Start(500)), Ok(500));
    assert_eq!(src.read_step(), ReadStep::Fetch { start: 500, end: 999 });
    assert_eq!(src.ensure_buffered(), Some((500, 999)));
    let (mut big, _) = open(1_000_000, 10);
    big.seek(SeekTarget::Start(100)).unwrap();
    assert_eq!(big.read_step(), ReadStep::Fetch { start: 100, end: 100 + DEFAULT_CHUNK_SIZE - 1 });
}

#[test]
fn read_copies_at_most_the_buffer() {
    let (mut src, c) = open(1000, 10);
    let mut buf = [9u8; 16];
    let n = src.read(&mut buf);
    assert_eq!(n, 10);
    assert_eq!(&buf[..10], &c[..10]);
    assert_eq!(&buf[10..], &[9u8; 6]);
    assert_eq!(src.position(), 10);
}

#[test]
fn accepted_chunk_becomes_window() {
    let (mut src, _) = open(1000, 10);
    src.seek(SeekTarget::Start(20)).unwrap();
    assert_eq!(src.ensure_buffered(), Some((20, 999)));
    src.accept_chunk(vec![1, 2, 3]);
    assert_eq!(src.ensure_buffered(), None);
    let mut b = [0u8; 8];
    assert_eq!(src.read(&mut b), 3);
    assert_eq!(&b[..3], &[1, 2, 3]);
}

#[test]
fn seek_targets() {
    let (mut src, _) = open(1000, 10);
    assert_eq!(src.seek(SeekTarget::End(-10)), Ok(990));
    assert_eq!(src.seek(SeekTarget::Current(5)), Ok(995));
    assert_eq!(src.seek(SeekTarget::Current(-995)), Ok(0));
    assert_eq!(src.seek(SeekTarget::Current(-1)), Err(SeekError::NegativePosition));
    assert_eq!(src.position(), 0);
    assert_eq!(src.seek(SeekTarget::End(10)), Ok(1010));
    let mut b = [0u8; 4];
    assert_eq!(src.read_step(), ReadStep::EndOfStream);
    assert_eq!(src.read(&mut b), 0);
    assert_eq!(src.seek(SeekTarget::Start(u64::MAX)), Err(SeekError::NegativePosition));
    assert!(src.seek_overflows(SeekTarget::Current(i64::MAX)));
    assert!(!src.seek_overflows(SeekTarget::Current(-5)));
}

#[test]
fn relative_seeks_add_up() {
    let (mut a, _) = open(1000, 10);
    let (mut b, _) = open(1000, 10);
    a.seek(SeekTarget::Current(30)).unwrap();
    a.seek(SeekTarget::Current(-12)).unwrap();
    b.seek(SeekTarget::Current(18)).unwrap();
    assert_eq!(a.position(), b.position());
}

#[test]
fn empty_chunk_reads_nothing() {
    let (mut src, _) = open(1000, 10);
    src.seek(SeekTarget::Start(50)).unwrap();
    src.accept_chunk(Vec::new());
    let mut b = [0u8; 4];
    assert_eq!(src.read(&mut b), 0);
    assert_eq!(src.position(), 50);
}
