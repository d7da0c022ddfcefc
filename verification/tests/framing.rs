//! Extraction of documents from the stream.

use hikvision_unifi_fire_bridge::framing::{
    find, BufferOverflow, FrameExtractor, CLOSE_TAG, OPEN_TAG, SLICE,
};

const DOC: &[u8] =
    b"<EventNotificationAlert><eventType>fireDetection</eventType></EventNotificationAlert>";

fn extractor() -> FrameExtractor {
    FrameExtractor::new(1024)
}

#[test]
fn whole_document_in_one_chunk() {
    let frames = extractor().push(DOC).unwrap();
    assert_eq!(frames, vec![DOC.to_vec()]);
}

#[test]
fn document_surrounded_by_multipart_noise() {
    let mut input = Vec::new();
    input.extend_from_slice(b"--boundary\r\nContent-Type: application/xml\r\n\r\n");
    input.extend_from_slice(DOC);
    input.extend_from_slice(b"\r\n--boundary\r\n");
    let frames = extractor().push(&input).unwrap();
    assert_eq!(frames, vec![DOC.to_vec()]);
}

#[test]
fn document_split_across_many_chunks() {
    let mut ex = extractor();
    let mut collected = Vec::new();
    // Split at every 7 bytes: guaranteed to split tags mid-way.
    for chunk in DOC.chunks(7) {
        collected.extend(ex.push(chunk).unwrap());
    }
    assert_eq!(collected, vec![DOC.to_vec()]);
}

#[test]
fn open_tag_split_exactly_across_a_noise_boundary() {
    let mut ex = extractor();
    // Noise then half an opening tag; the tail must be retained.
    assert!(ex.push(b"noise noise <EventNotifica").unwrap().is_empty());
    let frames = ex.push(b"tionAlert>x</EventNotificationAlert>").unwrap();
    assert_eq!(frames.len(), 1);
    assert!(frames[0].starts_with(OPEN_TAG.as_bytes()));
    assert!(frames[0].ends_with(CLOSE_TAG.as_bytes()));
}

#[test]
fn multiple_documents_in_one_chunk() {
    let mut input = DOC.to_vec();
    input.extend_from_slice(b"\r\n--b\r\n");
    input.extend_from_slice(DOC);
    let frames = extractor().push(&input).unwrap();
    assert_eq!(frames.len(), 2);
}

#[test]
fn pure_noise_is_discarded_and_does_not_accumulate() {
    let mut ex = FrameExtractor::new(64);
    for _ in 0..100 {
        // 100 x 32 bytes of noise would overflow a 64-byte cap if kept.
        assert!(ex
            .push(b"0123456789abcdef0123456789abcdef")
            .unwrap()
            .is_empty());
    }
}

#[test]
fn missing_close_tag_overflows_instead_of_growing_forever() {
    let mut ex = FrameExtractor::new(64);
    ex.push(b"<EventNotificationAlert>").unwrap();
    let err = ex
        .push(&[b'x'; 128])
        .expect_err("an unterminated document must trip the safety limit");
    assert!(err.buffered > err.max);
}

#[test]
fn open_tag_with_attributes_is_recognised() {
    let doc = b"<EventNotificationAlert version=\"2.0\" \
                    xmlns=\"http://www.hikvision.com/ver20/XMLSchema\">\
                    <eventType>fireDetection</eventType></EventNotificationAlert>";
    let frames = extractor().push(doc).unwrap();
    assert_eq!(frames, vec![doc.to_vec()]);
}

#[test]
fn every_way_to_cut_a_stream_gives_the_same_documents() {
    let mut stream = b"--b\r\nX: 1\r\n\r\n".to_vec();
    stream.extend_from_slice(DOC);
    stream.extend_from_slice(b"\r\n<EventNotificationAler noise ");
    stream.extend_from_slice("<EventNotificationAlert>\u{fc}</EventNotificationAlert>".as_bytes());
    let whole = extractor().push(&stream).unwrap();
    assert_eq!(whole.len(), 2);
    for size in 1..stream.len() {
        let mut ex = extractor();
        let mut collected = Vec::new();
        for chunk in stream.chunks(size) {
            collected.extend(ex.push(chunk).unwrap());
        }
        assert_eq!(collected, whole, "chunks of {size}");
    }
}

#[test]
fn overflow_reports_what_was_buffered() {
    let mut ex = FrameExtractor::new(64);
    ex.push(b"<EventNotificationAlert>").unwrap();
    let err = ex.push(&[b'x'; 128]).unwrap_err();
    assert_eq!(err, BufferOverflow { buffered: 152, max: 64 });
    assert_eq!(
        err.message(),
        "frame buffer exceeded safety limit (152 > 64 bytes) without a closing tag"
    );
}

#[test]
fn a_large_chunk_overflows_after_its_first_slice() {
    let mut ex = FrameExtractor::new(1024);
    let mut chunk = b"<EventNotificationAlert>".to_vec();
    chunk.resize(4 * SLICE, b'x');
    let err = ex.push(&chunk).unwrap_err();
    assert_eq!(err.buffered, SLICE);
}

#[test]
fn a_large_chunk_of_documents_does_not_overflow() {
    let mut ex = FrameExtractor::new(1024);
    let chunk = DOC.repeat(3000);
    assert!(chunk.len() > 3 * SLICE);
    assert_eq!(ex.push(&chunk).unwrap(), vec![DOC.to_vec(); 3000]);
}

#[test]
fn an_empty_chunk_gives_nothing() {
    assert_eq!(extractor().push(b"").unwrap(), Vec::<Vec<u8>>::new());
}

#[test]
fn find_gives_the_first_position() {
    assert_eq!(find(b"abcabc", b"bc"), Some(1));
    assert_eq!(find(b"abcabc", b"abc"), Some(0));
    assert_eq!(find(b"abc", b"c"), Some(2));
    assert_eq!(find(b"abc", b"x"), None);
    assert_eq!(find(b"ab", b"abc"), None);
}

#[test]
fn the_limit_can_be_as_high_as_it_gets() {
    let mut ex = FrameExtractor::new(usize::MAX);
    assert!(ex.push(&vec![b'<'; 3 * SLICE]).unwrap().is_empty());
    assert_eq!(ex.push(DOC).unwrap(), vec![DOC.to_vec()]);
}
