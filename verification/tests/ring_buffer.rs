use workset_core::ring::RingBuffer;
use workset_core::ring::RING_BUFFER_MAX_BYTES;

#[test]
fn empty_buffer_has_no_content() {
    let r = RingBuffer::new();
    assert_eq!(r.len(), 0);
    assert!(r.is_empty());
    assert_eq!(r.contents(), Vec::<u8>::new());
}

#[test]
fn small_appends_are_kept_whole() {
    let mut r = RingBuffer::new();
    r.push_chunk(b"hello ");
    r.push_chunk(b"world");
    assert_eq!(r.contents(), b"hello world".to_vec());
    assert_eq!(r.len(), 11);
}

#[test]
fn capacity_is_never_exceeded_and_content_is_the_suffix() {
    // Feed well over the capacity in uneven chunks; after every append the
    // stored byte count stays within bounds and the content equals the
    // newest suffix of everything appended so far.
    let mut r = RingBuffer::new();
    let mut all: Vec<u8> = Vec::new();
    let mut seed: u32 = 7;
    while all.len() < 3 * RING_BUFFER_MAX_BYTES / 2 {
        seed = seed.wrapping_mul(1103515245).wrapping_add(12345);
        let n = (seed % 5000) as usize + 1;
        let chunk: Vec<u8> = (0..n).map(|i| (seed as usize + i) as u8).collect();
        r.push_chunk(&chunk);
        all.extend_from_slice(&chunk);
        assert!(r.len() <= RING_BUFFER_MAX_BYTES);
        let keep = all.len().min(RING_BUFFER_MAX_BYTES);
        assert_eq!(r.contents(), all[all.len() - keep..].to_vec());
    }
}

#[test]
fn exact_capacity_boundary() {
    let mut r = RingBuffer::new();
    let block = vec![0xabu8; RING_BUFFER_MAX_BYTES];
    r.push_chunk(&block);
    assert_eq!(r.len(), RING_BUFFER_MAX_BYTES);
    r.push_chunk(b"xyz");
    assert_eq!(r.len(), RING_BUFFER_MAX_BYTES);
    let c = r.contents();
    assert_eq!(&c[RING_BUFFER_MAX_BYTES - 3..], b"xyz");
    assert_eq!(c[0], 0xab);
}
