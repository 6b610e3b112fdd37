use garage::chunker::BodyChunker;

fn pseudo_random(n: usize, seed: u64) -> Vec<u8> {
    let mut x = seed;
    (0..n)
        .map(|_| {
            x = x.wrapping_mul(6364136223846793005).wrapping_add(1442695040888963407);
            (x >> 33) as u8
        })
        .collect()
}

/// Runs the chunker over `data`, delivered in pieces of `piece` bytes.
fn chunk_all(data: &[u8], block_size: usize, piece: usize) -> Vec<Vec<u8>> {
    let mut c = BodyChunker::new(block_size);
    let mut pos = 0;
    let mut blocks = Vec::new();
    loop {
        while c.wants_more() {
            if pos < data.len() {
                let end = std::cmp::min(pos + piece, data.len());
                c.push(Some(&data[pos..end]));
                pos = end;
            } else {
                c.push(None);
            }
        }
        match c.next_block() {
            Some(b) => blocks.push(b),
            None => break,
        }
    }
    blocks
}

#[test]
fn chunks_reassemble_to_body() {
    let data = pseudo_random(50_000, 7);
    let blocks = chunk_all(&data, 1024, 500);
    let joined: Vec<u8> = blocks.concat();
    assert_eq!(joined, data);
    for (i, b) in blocks.iter().enumerate() {
        assert!(b.len() <= 2048);
        if i + 1 < blocks.len() {
            assert!(b.len() > 768);
        }
    }
}

#[test]
fn chunks_match_fastcdc_on_whole_body() {
    let data = pseudo_random(30_000, 42);
    let blocks = chunk_all(&data, 1024, 333);
    let expected: Vec<usize> = fastcdc::FastCDC::new(&data, 768, 1024, 2048).map(|c| c.length).collect();
    let got: Vec<usize> = blocks.iter().map(|b| b.len()).collect();
    assert_eq!(got, expected);
}

#[test]
fn zeros_are_chunked_as_fastcdc_does() {
    let data = vec![0u8; 5000];
    let blocks = chunk_all(&data, 1024, 4096);
    let sizes: Vec<usize> = blocks.iter().map(|b| b.len()).collect();
    let expected: Vec<usize> = fastcdc::FastCDC::new(&data, 768, 1024, 2048).map(|c| c.length).collect();
    assert_eq!(sizes, expected);
    assert_eq!(sizes.iter().sum::<usize>(), 5000);
}

#[test]
fn small_body_is_one_block() {
    let data = b"hello".to_vec();
    let blocks = chunk_all(&data, 1024, 100);
    assert_eq!(blocks, vec![data]);
}

#[test]
fn empty_body_has_no_block() {
    let blocks = chunk_all(&[], 1024, 100);
    assert!(blocks.is_empty());
}

#[test]
fn framing_does_not_change_blocks() {
    let data = pseudo_random(20_000, 3);
    let whole = chunk_all(&data, 1024, 20_000);
    assert_eq!(chunk_all(&data, 1024, 1), whole);
    assert_eq!(chunk_all(&data, 1024, 777), whole);
}

#[test]
fn no_block_after_the_end() {
    let mut c = BodyChunker::new(1024);
    c.push(Some(&[1, 2, 3, 4, 5]));
    c.push(None);
    assert_eq!(c.next_block(), Some(vec![1, 2, 3, 4, 5]));
    assert_eq!(c.next_block(), None);
    assert_eq!(c.next_block(), None);
}

#[test]
fn pending_and_sizes() {
    let mut c = BodyChunker::new(1024);
    assert!(c.sizes_ok());
    assert!(!c.has_pending());
    c.push(Some(&[1, 2, 3]));
    assert!(c.has_pending());
    assert!(c.wants_more());
    c.push(None);
    assert!(!c.wants_more());
    assert!(!BodyChunker::new(16).sizes_ok());
}

#[test]
fn small_block_size_with_empty_body() {
    let mut c = BodyChunker::new(16);
    c.push(None);
    assert_eq!(c.next_block(), None);
}
