use qbench::batch::{batch_lines, BatchLineReader, LinePush};
use qbench::source::{assemble_batches, assemble_uri, BatchAssembler, DocumentBatch};

fn lines(ls: &[&str]) -> Vec<Vec<u8>> {
    ls.iter().map(|l| l.as_bytes().to_vec()).collect()
}

#[test]
fn test_batch_lines_concat_preserved() {
    // Three 3-byte lines under a 7-byte budget: two batches, concatenation
    // equals the input, every batch ends on a line boundary.
    let input = lines(&["aa\n", "bb\n", "cc\n"]);
    let batches = batch_lines(&input, 7);
    assert_eq!(batches.len(), 2);
    assert_eq!(batches[0], b"aa\nbb\n".to_vec());
    assert_eq!(batches[1], b"cc\n".to_vec());
    let joined: Vec<u8> = batches.concat();
    assert_eq!(joined, b"aa\nbb\ncc\n".to_vec());
}

#[test]
fn test_batch_lines_exact_budget() {
    let input = lines(&["aa\n", "bb\n"]);
    let batches = batch_lines(&input, 6);
    assert_eq!(batches.len(), 1);
    assert_eq!(batches[0], b"aa\nbb\n".to_vec());
}

#[test]
fn test_batch_lines_oversize_line_dropped_whole() {
    // The middle line exceeds the budget: it is dropped whole, never
    // split, and the surrounding lines are delivered intact.
    let input = lines(&["aa\n", "xxxxxxxxxx\n", "bb\n"]);
    let batches = batch_lines(&input, 6);
    let joined: Vec<u8> = batches.concat();
    assert_eq!(joined, b"aa\nbb\n".to_vec());
}

#[test]
fn test_batch_line_reader_steps() {
    let mut reader = BatchLineReader::new(4);
    assert!(reader.has_next());
    assert_eq!(reader.max_batch_num_bytes(), 4);
    assert!(matches!(reader.push_line(b"aa\n".to_vec()), LinePush::Buffered));
    // Appending 3 more bytes would exceed 4: the old buffer is emitted.
    match reader.push_line(b"bb\n".to_vec()) {
        LinePush::Emitted(batch) => assert_eq!(batch, b"aa\n".to_vec()),
        _ => panic!("expected a batch"),
    }
    assert!(matches!(reader.push_line(b"xxxxx".to_vec()), LinePush::Skipped));
    let rest = reader.end_of_input();
    assert_eq!(rest, Some(b"bb\n".to_vec()));
    assert!(!reader.has_next());
}

#[test]
fn test_batch_line_reader_empty_input() {
    let mut reader = BatchLineReader::new(4);
    assert_eq!(reader.end_of_input(), None);
}

#[test]
fn test_assembler_flush_on_overflow() {
    let mut assembler = BatchAssembler::new(6);
    assert_eq!(assembler.push_chunk(b"aaa\n".to_vec()), None);
    let flushed = assembler.push_chunk(b"bbb\n".to_vec());
    assert_eq!(flushed, Some(b"aaa\n".to_vec()));
    assert_eq!(assembler.take_rest(), Some(b"bbb\n".to_vec()));
    assert_eq!(assembler.take_rest(), None);
}

#[test]
fn test_assemble_uri_content() {
    let chunks = lines(&["aaa\n", "bbb\n", "c\n"]);
    let batches = assemble_uri(&chunks, 8);
    assert_eq!(batches.len(), 2);
    assert_eq!(batches[0], b"aaa\nbbb\n".to_vec());
    assert_eq!(batches[1], b"c\n".to_vec());
}

#[test]
fn test_last_flag_exactly_once() {
    // Two URIs, several batches: exactly one batch has `last == true`,
    // and it is the final batch of the final URI.
    let uri_chunks = vec![lines(&["aaa\n", "bbb\n"]), lines(&["ccc\n", "ddd\n"])];
    let batches: Vec<DocumentBatch> = assemble_batches(&uri_chunks, 4);
    assert_eq!(batches.len(), 4);
    let last_count = batches.iter().filter(|b| b.last).count();
    assert_eq!(last_count, 1);
    assert!(batches[batches.len() - 1].last);
    assert_eq!(batches[3].bytes, b"ddd\n".to_vec());
}

#[test]
fn test_last_flag_single_uri_single_batch() {
    let uri_chunks = vec![lines(&["doc\n"])];
    let batches = assemble_batches(&uri_chunks, 100);
    assert_eq!(batches.len(), 1);
    assert!(batches[0].last);
    assert_eq!(batches[0].bytes, b"doc\n".to_vec());
}

#[test]
fn test_document_batch_default() {
    let d = DocumentBatch::default();
    assert!(d.bytes.is_empty());
    assert!(!d.last);
}
