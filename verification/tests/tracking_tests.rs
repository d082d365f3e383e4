use sendme::{ConcatenateSliceWriter, TrackingReader, TrackingWriter};

#[test]
fn tracking_reader_counts_bytes() {
    let mut reader = TrackingReader::new("endpoint");
    assert_eq!(reader.bytes_read(), 0);
    reader.record_read(10);
    reader.record_read(32);
    assert_eq!(reader.bytes_read(), 42);
    let (inner, count) = reader.into_parts();
    assert_eq!(inner, "endpoint");
    assert_eq!(count, 42);
}

#[test]
fn tracking_reader_saturates_instead_of_wrapping() {
    let mut reader = TrackingReader::new(());
    reader.record_read(usize::MAX);
    reader.record_read(usize::MAX);
    reader.record_read(usize::MAX);
    assert!(reader.bytes_read() >= usize::MAX as u64);
    let before = reader.bytes_read();
    reader.record_read(1);
    assert!(reader.bytes_read() >= before);
}

#[test]
fn tracking_writer_counts_bytes() {
    let mut writer = TrackingWriter::new(vec![0u8; 4]);
    assert_eq!(writer.bytes_written(), 0);
    writer.record_write(7);
    writer.record_write(1);
    assert_eq!(writer.bytes_written(), 8);
    let (inner, count) = writer.into_parts();
    assert_eq!(inner, vec![0u8; 4]);
    assert_eq!(count, 8);
}

#[test]
fn concatenate_slice_writer_carries_its_endpoint() {
    let writer = ConcatenateSliceWriter::new(String::from("sink"));
    assert_eq!(writer.into_inner(), "sink");
}
