//! Chunk streams, buffer reassembly and the part-ordered adapter.

use condow::errors::{CondowError, CondowErrorKind};
use condow::streams::bytes_hint::BytesHint;
use condow::streams::chunk::{Chunk, ChunkStreamItem};
use condow::streams::chunk_stream::ChunkStream;

/// Builds the items of a clean stream: `n_parts` parts of `n_chunks`
/// chunks each, every chunk `chunk_len` bytes, with a counting byte
/// pattern. Returns the items and the expected assembled bytes.
fn make_chunk_items(
    n_parts: u64,
    n_chunks: usize,
    chunk_len: usize,
) -> (Vec<ChunkStreamItem>, Vec<u8>) {
    let part_len = (n_chunks * chunk_len) as u64;
    let total = n_parts * part_len;
    let expected: Vec<u8> = (0..total).map(|i| (i % 256) as u8).collect();
    let mut items: Vec<ChunkStreamItem> = Vec::new();
    for p in 0..n_parts {
        for c in 0..n_chunks {
            let range_offset = p * part_len + (c * chunk_len) as u64;
            let bytes: Vec<u8> = expected
                [(range_offset as usize)..(range_offset as usize + chunk_len)]
                .to_vec();
            items.push(Ok(Chunk {
                part_index: p,
                chunk_index: c,
                blob_offset: range_offset,
                range_offset,
                bytes,
                bytes_left: part_len - ((c + 1) * chunk_len) as u64,
            }));
        }
    }
    (items, expected)
}

fn check_stream(mut stream: ChunkStream, data: &[u8]) -> Result<(), CondowError> {
    let mut bytes_left = data.len() as u64;
    assert_eq!(stream.bytes_hint(), BytesHint::new(bytes_left, Some(bytes_left)));
    while let Some(next) = stream.next() {
        let chunk = match next {
            Err(err) => return Err(err),
            Ok(chunk) => chunk,
        };
        let range_offset = chunk.range_offset as usize;
        bytes_left -= chunk.bytes.len() as u64;
        assert_eq!(stream.bytes_hint(), BytesHint::new(bytes_left, Some(bytes_left)));
        assert_eq!(
            &chunk.bytes[..],
            &data[range_offset..range_offset + chunk.bytes.len()],
            "chunk bytes at range_offset"
        );
        assert_eq!(chunk.blob_offset, chunk.range_offset, "blob vs range");
    }
    Ok(())
}

#[test]
fn check_ok() {
    for n_parts in 1..10u64 {
        for n_chunks in 1..10usize {
            let (items, expected) = make_chunk_items(n_parts, n_chunks, 2);
            let stream = ChunkStream::new(BytesHint::new_exact(expected.len() as u64), items);
            check_stream(stream, &expected).unwrap()
        }
    }
}

fn items_with_error_at(
    n_parts: u64,
    n_chunks: usize,
    err_at: usize,
) -> (Vec<ChunkStreamItem>, Vec<u8>) {
    let (mut items, expected) = make_chunk_items(n_parts, n_chunks, 2);
    let err = CondowError::new_io("a simulated stream failure");
    if err_at >= items.len() {
        items.push(Err(err));
    } else {
        items.insert(err_at, Err(err));
    }
    (items, expected)
}

#[test]
fn check_err_begin() {
    for n_parts in 1..10u64 {
        for n_chunks in 1..10usize {
            let (items, expected) = items_with_error_at(n_parts, n_chunks, 0);
            let stream = ChunkStream::new(BytesHint::new_exact(expected.len() as u64), items);
            assert!(check_stream(stream, &expected).is_err())
        }
    }
}

#[test]
fn check_err_end() {
    for n_parts in 1..10u64 {
        for n_chunks in 1..10usize {
            let err_at = (n_parts as usize) * n_chunks - 1;
            let (items, expected) = items_with_error_at(n_parts, n_chunks, err_at);
            let stream = ChunkStream::new(BytesHint::new_exact(expected.len() as u64), items);
            assert!(check_stream(stream, &expected).is_err())
        }
    }
}

#[test]
fn check_err_after_end() {
    for n_parts in 1..10u64 {
        for n_chunks in 1..10usize {
            let err_at = (n_parts as usize) * n_chunks;
            let (items, expected) = items_with_error_at(n_parts, n_chunks, err_at);
            let stream = ChunkStream::new(BytesHint::new_exact(expected.len() as u64), items);
            assert!(check_stream(stream, &expected).is_err())
        }
    }
}

#[test]
fn write_buffer_is_independent_of_chunk_order() {
    // The same chunks in two different orders
    // write the same buffer.
    let (items, expected) = make_chunk_items(3, 2, 2);
    let reversed: Vec<ChunkStreamItem> = {
        let (mut items2, _) = make_chunk_items(3, 2, 2);
        items2.reverse();
        items2
    };

    let stream1 = ChunkStream::new(BytesHint::new_exact(expected.len() as u64), items);
    let stream2 = ChunkStream::new(BytesHint::new_exact(expected.len() as u64), reversed);

    let mut buf1 = vec![0u8; expected.len()];
    let mut buf2 = vec![0u8; expected.len()];
    let n1 = stream1.write_buffer(&mut buf1).unwrap();
    let n2 = stream2.write_buffer(&mut buf2).unwrap();

    assert_eq!(n1, expected.len());
    assert_eq!(n2, expected.len());
    assert_eq!(buf1, buf2);
    assert_eq!(buf1, expected);
}

#[test]
fn write_buffer_keeps_written_chunks_on_error() {
    // The chunk before the offending one stays written; the failing
    // write is not applied at all.
    let items: Vec<ChunkStreamItem> = vec![
        Ok(Chunk {
            part_index: 0,
            chunk_index: 0,
            blob_offset: 0,
            range_offset: 0,
            bytes: vec![7, 8],
            bytes_left: 0,
        }),
        Ok(Chunk {
            part_index: 1,
            chunk_index: 0,
            blob_offset: 10,
            range_offset: 10,
            bytes: vec![9, 9],
            bytes_left: 0,
        }),
    ];
    let stream = ChunkStream::new(BytesHint::new(0, None), items);
    let mut buf = vec![0u8; 4];
    assert!(stream.write_buffer(&mut buf).is_err());
    assert_eq!(buf, vec![7, 8, 0, 0]);
}

#[test]
fn write_buffer_leaves_the_buffer_alone_before_any_write() {
    let (items, expected) = make_chunk_items(1, 2, 2);
    let mut stream = ChunkStream::new(BytesHint::new_exact(expected.len() as u64), items);
    let _ = stream.next();
    let mut buf = vec![5u8; expected.len()];
    assert!(stream.write_buffer(&mut buf).is_err());
    assert_eq!(buf, vec![5u8; expected.len()]);
}

#[test]
fn into_vec_returns_the_streams_terminal_error() {
    let (items, expected) = items_with_error_at(2, 2, 2 * 2);
    let stream = ChunkStream::new(BytesHint::new_exact(expected.len() as u64), items);
    let err = stream.into_vec().unwrap_err();
    assert_eq!(err.kind(), CondowErrorKind::Io);
    assert_eq!(err.msg(), "a simulated stream failure");
}

#[test]
fn write_buffer_refuses_a_small_buffer() {
    let (items, expected) = make_chunk_items(2, 2, 2);
    let stream = ChunkStream::new(BytesHint::new_exact(expected.len() as u64), items);
    let mut buf = vec![0u8; expected.len() - 1];
    assert!(stream.write_buffer(&mut buf).is_err());
}

#[test]
fn write_buffer_refuses_an_iterated_stream() {
    let (items, expected) = make_chunk_items(1, 2, 2);
    let mut stream = ChunkStream::new(BytesHint::new_exact(expected.len() as u64), items);
    let _ = stream.next();
    let mut buf = vec![0u8; expected.len()];
    let err = stream.write_buffer(&mut buf).unwrap_err();
    assert_eq!(err.msg(), "stream already iterated");
}

#[test]
fn into_vec_with_unknown_size_zero_fills_gaps() {
    // A chunk landing past the current end grows the buffer; skipped
    // positions read as zero.
    let items: Vec<ChunkStreamItem> = vec![Ok(Chunk {
        part_index: 1,
        chunk_index: 0,
        blob_offset: 4,
        range_offset: 4,
        bytes: vec![9, 9],
        bytes_left: 0,
    })];
    let stream = ChunkStream::new(BytesHint::new_no_hint(), items);
    let v = stream.into_vec().unwrap();
    assert_eq!(v, vec![0, 0, 0, 0, 9, 9]);
}

#[test]
fn empty_stream_collects_to_nothing() {
    let stream = ChunkStream::empty();
    assert!(stream.is_fresh());
    assert!(stream.bytes_hint().is_exact());
    let v = stream.into_vec().unwrap();
    assert!(v.is_empty());
}

#[test]
fn part_stream_emits_parts_in_order() {
    // Interleave chunks of two parts; the part stream reorders them.
    let mut items: Vec<ChunkStreamItem> = Vec::new();
    items.push(Ok(Chunk {
        part_index: 1,
        chunk_index: 0,
        blob_offset: 2,
        range_offset: 2,
        bytes: vec![2, 3],
        bytes_left: 0,
    }));
    items.push(Ok(Chunk {
        part_index: 0,
        chunk_index: 0,
        blob_offset: 0,
        range_offset: 0,
        bytes: vec![0],
        bytes_left: 1,
    }));
    items.push(Ok(Chunk {
        part_index: 0,
        chunk_index: 1,
        blob_offset: 1,
        range_offset: 1,
        bytes: vec![1],
        bytes_left: 0,
    }));
    let stream = ChunkStream::new(BytesHint::new_exact(4), items);
    let mut parts = stream.try_into_part_stream().unwrap();

    let part0 = parts.next_part().unwrap().unwrap();
    assert_eq!(part0.part_index, 0);
    assert_eq!(part0.chunks.len(), 2);
    assert_eq!(part0.chunks[0].bytes, vec![0]);
    assert_eq!(part0.chunks[1].bytes, vec![1]);

    let part1 = parts.next_part().unwrap().unwrap();
    assert_eq!(part1.part_index, 1);
    assert_eq!(part1.chunks.len(), 1);
    assert_eq!(part1.chunks[0].bytes, vec![2, 3]);

    assert!(parts.next_part().is_none());
}

#[test]
fn part_stream_propagates_errors() {
    let items: Vec<ChunkStreamItem> = vec![Err(CondowError::new_io("broken"))];
    let stream = ChunkStream::new(BytesHint::new_no_hint(), items);
    let mut parts = stream.try_into_part_stream().unwrap();
    match parts.next_part().unwrap() {
        Ok(_) => panic!("the stream error must surface"),
        Err(err) => assert_eq!(err.kind(), CondowErrorKind::Io),
    }
}

#[test]
fn part_stream_refuses_an_iterated_stream() {
    let (items, expected) = make_chunk_items(1, 1, 2);
    let mut stream = ChunkStream::new(BytesHint::new_exact(expected.len() as u64), items);
    let _ = stream.next();
    assert!(stream.try_into_part_stream().is_err());
}

#[test]
fn chunk_accessors() {
    let chunk = Chunk {
        part_index: 3,
        chunk_index: 2,
        blob_offset: 30,
        range_offset: 20,
        bytes: vec![1, 2, 3],
        bytes_left: 0,
    };
    assert!(chunk.is_last());
    assert_eq!(chunk.len(), 3);
    assert!(!chunk.is_empty());
}
