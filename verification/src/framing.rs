//! Byte-level extraction of `<EventNotificationAlert>...</EventNotificationAlert>`
//! documents from the Hikvision ISAPI multipart alert stream.
//!
//! The stream interleaves multipart boundaries, part headers, and XML
//! documents, and network chunks can split anything anywhere, including in
//! the middle of a UTF-8 character or an XML tag. So this module never
//! decodes text: it scans raw bytes for complete documents and hands them to
//! the XML parser only once whole.

use bytes::Buf;
use bytes::BytesMut;
use vstd::prelude::*;
use vstd::slice::slice_subrange;
use vstd::string::StringSliceAdditionalSpecFns;

use crate::text::decimal;
use crate::text::decimal_text;
use crate::text::occurs_at;

verus! {

/// What a document starts with.
pub const OPEN_TAG: &'static str = "<EventNotificationAlert";

/// What a document ends with.
pub const CLOSE_TAG: &'static str = "</EventNotificationAlert>";

/// A chunk is taken in slices of this size, with extraction in between.
pub const SLICE: usize = 65536;

const INITIAL_CAPACITY: usize = 16384;

pub open spec fn open_tag() -> Seq<u8> {
    OPEN_TAG.spec_bytes()
}

pub open spec fn close_tag() -> Seq<u8> {
    CLOSE_TAG.spec_bytes()
}

/// The first position at or after `from` at which `needle` stands in `hay`.
pub open spec fn first_from(hay: Seq<u8>, needle: Seq<u8>, from: int) -> Option<int>
    decreases hay.len() - from + 1,
{
    if from + needle.len() > hay.len() {
        None
    } else if occurs_at(hay, needle, from) {
        Some(from)
    } else {
        first_from(hay, needle, from + 1)
    }
}

/// The first position at which `needle` stands in `hay`.
pub open spec fn first_at(hay: Seq<u8>, needle: Seq<u8>) -> Option<int> {
    first_from(hay, needle, 0)
}

/// What is kept of bytes without an opening tag: enough of the end to
/// recognise an opening tag that the next bytes complete.
pub open spec fn noise_tail(buf: Seq<u8>) -> Seq<u8> {
    let keep = open_tag().len() - 1;
    if buf.len() > keep {
        buf.skip(buf.len() - keep)
    } else {
        buf
    }
}

/// The complete documents in `buf`, in order, and the bytes left over.
pub open spec fn drained(buf: Seq<u8>) -> (Seq<Seq<u8>>, Seq<u8>)
    decreases buf.len(),
{
    match first_at(buf, open_tag()) {
        None => (Seq::empty(), noise_tail(buf)),
        Some(start) => {
            let doc = buf.skip(start);
            match first_at(doc, close_tag()) {
                None => (Seq::empty(), doc),
                Some(at) => {
                    let end = at + close_tag().len();
                    proof {
                        lemma_first_from(buf, open_tag(), 0);
                        lemma_first_from(doc, close_tag(), 0);
                        lemma_tags();
                    }
                    let rest = drained(doc.skip(end));
                    (seq![doc.take(end)] + rest.0, rest.1)
                },
            }
        },
    }
}

#[derive(Debug, PartialEq, Eq)]
pub struct BufferOverflow {
    pub buffered: usize,
    pub max: usize,
}

/// What taking `chunk` into a buffer that holds `buf` gives: the documents it
/// completes, or the overflow; and the bytes buffered afterwards.
pub open spec fn ingested(buf: Seq<u8>, chunk: Seq<u8>, max: int) -> (
    Result<Seq<Seq<u8>>, int>,
    Seq<u8>,
)
    decreases chunk.len(),
{
    if chunk.len() == 0 {
        (Ok(Seq::empty()), buf)
    } else {
        let n = if chunk.len() < SLICE {
            chunk.len() as int
        } else {
            SLICE as int
        };
        let (frames, rest) = drained(buf + chunk.take(n));
        if rest.len() > max {
            (Err(rest.len() as int), rest)
        } else {
            let (later, last) = ingested(rest, chunk.skip(n), max);
            match later {
                Ok(more) => (Ok(frames + more), last),
                Err(buffered) => (Err(buffered), last),
            }
        }
    }
}

/// The first position is one at which the needle stands, with none before it.
pub proof fn lemma_first_from(hay: Seq<u8>, needle: Seq<u8>, from: int)
    requires
        0 <= from,
    ensures
        match first_from(hay, needle, from) {
            Some(i) => from <= i && occurs_at(hay, needle, i) && forall|j: int|
                from <= j < i ==> !occurs_at(hay, needle, j),
            None => forall|j: int| from <= j ==> !occurs_at(hay, needle, j),
        },
    decreases hay.len() - from + 1,
{
    if from + needle.len() > hay.len() {
    } else if occurs_at(hay, needle, from) {
    } else {
        lemma_first_from(hay, needle, from + 1);
    }
}

/// The first position is the only one at which the needle stands and before
/// which it does not.
proof fn lemma_first_at_is(hay: Seq<u8>, needle: Seq<u8>, i: int)
    requires
        occurs_at(hay, needle, i),
        forall|j: int| 0 <= j < i ==> !occurs_at(hay, needle, j),
    ensures
        first_at(hay, needle) == Some(i),
{
    lemma_first_from(hay, needle, 0);
    match first_at(hay, needle) {
        Some(k) => {
            if k < i {
                assert(occurs_at(hay, needle, k));
            } else if i < k {
                assert(!occurs_at(hay, needle, i));
            }
        },
        None => {
            assert(!occurs_at(hay, needle, i));
        },
    }
}

pub proof fn lemma_tags()
    ensures
        open_tag().len() == 23,
        close_tag().len() == 25,
{
    reveal_strlit("<EventNotificationAlert");
    reveal_strlit("</EventNotificationAlert>");
    vstd::string::is_ascii_spec_bytes(OPEN_TAG);
    vstd::string::is_ascii_spec_bytes(CLOSE_TAG);
}

/// Bytes whose first `k` positions start no opening tag drain as if those `k`
/// bytes had never come, where enough bytes are left to stand for them.
proof fn lemma_skip_noise(buf: Seq<u8>, k: int)
    requires
        0 <= k <= buf.len(),
        k > 0 ==> buf.len() - k >= open_tag().len() - 1,
        forall|j: int| 0 <= j < k ==> !occurs_at(buf, open_tag(), j),
    ensures
        drained(buf) == drained(buf.skip(k)),
{
    lemma_tags();
    let tag = open_tag();
    let n = tag.len() as int;
    let rest = buf.skip(k);
    lemma_first_from(buf, tag, 0);
    assert forall|j: int| 0 <= j implies occurs_at(rest, tag, j) == occurs_at(buf, tag, j + k) by {
        if j + n <= rest.len() {
            assert(rest.subrange(j, j + n) =~= buf.subrange(j + k, j + k + n));
        }
    }
    match first_at(buf, tag) {
        Some(start) => {
            assert(start >= k);
            assert(occurs_at(rest, tag, start - k));
            assert forall|j: int| 0 <= j < start - k implies !occurs_at(rest, tag, j) by {
                assert(!occurs_at(buf, tag, j + k));
            }
            lemma_first_at_is(rest, tag, start - k);
            assert(rest.skip(start - k) =~= buf.skip(start));
        },
        None => {
            lemma_first_from(rest, tag, 0);
            match first_at(rest, tag) {
                Some(i) => {
                    assert(occurs_at(buf, tag, i + k));
                },
                None => {},
            }
            assert(noise_tail(rest) =~= noise_tail(buf));
        },
    }
}

/// A position that is the first in `a` is the first in `a + b`.
proof fn lemma_first_at_extends(a: Seq<u8>, b: Seq<u8>, needle: Seq<u8>)
    requires
        first_at(a, needle) is Some,
    ensures
        first_at(a + b, needle) == first_at(a, needle),
{
    lemma_first_from(a, needle, 0);
    let i = first_at(a, needle)->0;
    let n = needle.len() as int;
    assert((a + b).subrange(i, i + n) =~= a.subrange(i, i + n));
    assert forall|j: int| 0 <= j < i implies !occurs_at(a + b, needle, j) by {
        assert((a + b).subrange(j, j + n) =~= a.subrange(j, j + n));
        assert(!occurs_at(a, needle, j));
    }
    lemma_first_at_is(a + b, needle, i);
}

/// Where a stream is cut makes no difference: the documents of `a + b` are
/// those of `a`, then those that `b` completes after what `a` left over, and
/// the same bytes are left over in the end.
pub proof fn lemma_split_anywhere(a: Seq<u8>, b: Seq<u8>)
    ensures
        drained(a + b) == (
            drained(a).0 + drained(drained(a).1 + b).0,
            drained(drained(a).1 + b).1,
        ),
    decreases a.len(),
{
    lemma_tags();
    lemma_first_from(a, open_tag(), 0);
    let whole = a + b;
    match first_at(a, open_tag()) {
        None => {
            let keep = noise_tail(a);
            let k = a.len() - keep.len();
            let n = open_tag().len() as int;
            assert forall|j: int| 0 <= j < k implies !occurs_at(whole, open_tag(), j) by {
                assert(whole.subrange(j, j + n) =~= a.subrange(j, j + n));
                assert(!occurs_at(a, open_tag(), j));
            }
            lemma_skip_noise(whole, k);
            assert(whole.skip(k) =~= keep + b);
            assert(drained(a).0 + drained(keep + b).0 =~= drained(keep + b).0);
        },
        Some(start) => {
            let doc = a.skip(start);
            lemma_first_at_extends(a, b, open_tag());
            assert(whole.skip(start) =~= doc + b);
            lemma_first_from(doc, close_tag(), 0);
            match first_at(doc, close_tag()) {
                None => {
                    assert(doc.subrange(0, open_tag().len() as int) =~= a.subrange(
                        start,
                        start + open_tag().len(),
                    ));
                    assert((doc + b).subrange(0, open_tag().len() as int) =~= doc.subrange(
                        0,
                        open_tag().len() as int,
                    ));
                    lemma_first_at_is(doc + b, open_tag(), 0);
                    assert((doc + b).skip(0) =~= doc + b);
                    assert(drained(a).0 + drained(doc + b).0 =~= drained(doc + b).0);
                },
                Some(at) => {
                    let end = at + close_tag().len();
                    lemma_first_at_extends(doc, b, close_tag());
                    assert((doc + b).take(end) =~= doc.take(end));
                    assert((doc + b).skip(end) =~= doc.skip(end) + b);
                    lemma_split_anywhere(doc.skip(end), b);
                    let r = drained(doc.skip(end));
                    assert(drained(a).0 == seq![doc.take(end)] + r.0);
                    assert(seq![doc.take(end)] + (r.0 + drained(r.1 + b).0) =~= (seq![doc.take(end)]
                        + r.0) + drained(r.1 + b).0);
                },
            }
        },
    }
}

/// What is left over holds no further document and is left over again.
pub proof fn lemma_rest_is_drained(buf: Seq<u8>)
    ensures
        drained(drained(buf).1) == (Seq::<Seq<u8>>::empty(), drained(buf).1),
{
    let rest = drained(buf).1;
    lemma_split_anywhere(buf, Seq::empty());
    assert(buf + Seq::<u8>::empty() =~= buf);
    assert(rest + Seq::<u8>::empty() =~= rest);
    assert(drained(rest).0.len() == 0) by {
        assert((drained(buf).0 + drained(rest).0).len() == drained(buf).0.len()
            + drained(rest).0.len());
    }
    assert(drained(rest).0 =~= Seq::<Seq<u8>>::empty());
}

/// What chunks give when they are taken one after the other: the documents
/// they complete and the bytes left over, or `None` where one of them overflows
/// the buffer.
pub open spec fn fed(buf: Seq<u8>, chunks: Seq<Seq<u8>>, max: int) -> Option<
    (Seq<Seq<u8>>, Seq<u8>),
>
    decreases chunks.len(),
{
    if chunks.len() == 0 {
        Some((Seq::empty(), buf))
    } else {
        match ingested(buf, chunks[0], max) {
            (Ok(frames), rest) => match fed(rest, chunks.drop_first(), max) {
                Some((more, last)) => Some((frames + more, last)),
                None => None,
            },
            (Err(_), _) => None,
        }
    }
}

/// `chunks` put together.
pub open spec fn joined(chunks: Seq<Seq<u8>>) -> Seq<u8>
    decreases chunks.len(),
{
    if chunks.len() == 0 {
        Seq::empty()
    } else {
        chunks[0] + joined(chunks.drop_first())
    }
}

/// Slicing a chunk makes no difference: one that does not overflow gives the
/// documents of the buffered bytes followed by the whole chunk.
pub proof fn lemma_ingested_is_drained(buf: Seq<u8>, chunk: Seq<u8>, max: int)
    requires
        drained(buf) == (Seq::<Seq<u8>>::empty(), buf),
    ensures
        match ingested(buf, chunk, max) {
            (Ok(frames), rest) => (frames, rest) == drained(buf + chunk) && (chunk.len() > 0
                ==> rest.len() <= max),
            (Err(buffered), rest) => buffered == rest.len() && max < rest.len() && drained(rest)
                == (Seq::<Seq<u8>>::empty(), rest),
        },
    decreases chunk.len(),
{
    if chunk.len() == 0 {
        assert(buf + chunk =~= buf);
    } else {
        let n = if chunk.len() < SLICE {
            chunk.len() as int
        } else {
            SLICE as int
        };
        let piece = chunk.take(n);
        let (frames, rest) = drained(buf + piece);
        lemma_rest_is_drained(buf + piece);
        if rest.len() <= max {
            lemma_ingested_is_drained(rest, chunk.skip(n), max);
            lemma_split_anywhere(buf + piece, chunk.skip(n));
            assert((buf + piece) + chunk.skip(n) =~= buf + chunk);
            assert(chunk.skip(n).len() == 0 ==> rest + chunk.skip(n) =~= rest);
        }
    }
}

/// However a stream is cut into chunks, chunks that do not overflow give the
/// documents of the stream as a whole.
pub proof fn lemma_fed_is_drained(buf: Seq<u8>, chunks: Seq<Seq<u8>>, max: int)
    requires
        drained(buf) == (Seq::<Seq<u8>>::empty(), buf),
        fed(buf, chunks, max) is Some,
    ensures
        fed(buf, chunks, max) == Some(drained(buf + joined(chunks))),
    decreases chunks.len(),
{
    if chunks.len() == 0 {
        assert(buf + joined(chunks) =~= buf);
    } else {
        let tail = chunks.drop_first();
        lemma_ingested_is_drained(buf, chunks[0], max);
        let (got, rest) = ingested(buf, chunks[0], max);
        lemma_rest_is_drained(buf + chunks[0]);
        lemma_fed_is_drained(rest, tail, max);
        lemma_split_anywhere(buf + chunks[0], joined(tail));
        assert((buf + chunks[0]) + joined(tail) =~= buf + joined(chunks));
    }
}

/// Two ways to cut the same stream give the same documents and leave the same
/// bytes, where neither overflows.
pub proof fn lemma_cuts_agree(one: Seq<Seq<u8>>, other: Seq<Seq<u8>>, max: int)
    requires
        joined(one) == joined(other),
        fed(Seq::empty(), one, max) is Some,
        fed(Seq::empty(), other, max) is Some,
    ensures
        fed(Seq::empty(), one, max) == fed(Seq::empty(), other, max),
{
    lemma_empty_is_drained();
    lemma_fed_is_drained(Seq::empty(), one, max);
    lemma_fed_is_drained(Seq::empty(), other, max);
}

proof fn lemma_empty_is_drained()
    ensures
        drained(Seq::<u8>::empty()) == (Seq::<Seq<u8>>::empty(), Seq::<u8>::empty()),
{
    lemma_tags();
    lemma_first_from(Seq::<u8>::empty(), open_tag(), 0);
}

/// A whole document: it starts with the opening tag, and the first closing tag
/// in it ends it.
pub open spec fn is_document(doc: Seq<u8>) -> bool {
    &&& occurs_at(doc, open_tag(), 0)
    &&& first_at(doc, close_tag()) == Some(doc.len() - close_tag().len())
}

/// Every frame handed out is a whole document.
pub proof fn lemma_frames_are_documents(buf: Seq<u8>, i: int)
    requires
        0 <= i < drained(buf).0.len(),
    ensures
        is_document(drained(buf).0[i]),
    decreases buf.len(),
{
    lemma_tags();
    lemma_first_from(buf, open_tag(), 0);
    let start = first_at(buf, open_tag())->0;
    let doc = buf.skip(start);
    lemma_first_from(doc, close_tag(), 0);
    let at = first_at(doc, close_tag())->0;
    let end = at + close_tag().len();
    if i > 0 {
        lemma_frames_are_documents(doc.skip(end), i - 1);
    } else {
        lemma_document_head(buf);
    }
}

/// The first frame of a buffer is a whole document.
proof fn lemma_document_head(buf: Seq<u8>)
    requires
        drained(buf).0.len() > 0,
    ensures
        is_document(drained(buf).0[0]),
{
    lemma_tags();
    lemma_first_from(buf, open_tag(), 0);
    let start = first_at(buf, open_tag())->0;
    let doc = buf.skip(start);
    lemma_first_from(doc, close_tag(), 0);
    let at = first_at(doc, close_tag())->0;
    let end = at + close_tag().len();
    let frame = doc.take(end);
    let n = open_tag().len() as int;
    let m = close_tag().len() as int;
    assert(frame.subrange(at, at + m) =~= doc.subrange(at, at + m));
    assert forall|j: int| 0 <= j < at implies !occurs_at(frame, close_tag(), j) by {
        assert(frame.subrange(j, j + m) =~= doc.subrange(j, j + m));
        assert(!occurs_at(doc, close_tag(), j));
    }
    lemma_first_at_is(frame, close_tag(), at);
    assert(doc.subrange(0, n) =~= buf.subrange(start, start + n));
    assert(frame.subrange(0, n) =~= doc.subrange(0, n));
}

/// A whole document is found wherever it stands in the stream, and what comes
/// after it is treated as if it came first, provided no opening tag starts in
/// the bytes before it.
pub proof fn lemma_document_is_found(noise: Seq<u8>, doc: Seq<u8>, after: Seq<u8>)
    requires
        is_document(doc),
        forall|j: int|
            0 <= j < noise.len() ==> !occurs_at(noise + doc + after, open_tag(), j),
    ensures
        drained(noise + doc + after) == (seq![doc] + drained(after).0, drained(after).1),
{
    lemma_tags();
    let whole = noise + doc + after;
    let start = noise.len() as int;
    let n = open_tag().len() as int;
    lemma_first_from(doc, close_tag(), 0);
    assert(whole.subrange(start, start + n) =~= doc.subrange(0, n));
    lemma_first_at_is(whole, open_tag(), start);
    assert(whole.skip(start) =~= doc + after);
    lemma_first_at_extends(doc, after, close_tag());
    assert((doc + after).take(doc.len() as int) =~= doc);
    assert((doc + after).skip(doc.len() as int) =~= after);
}

/// Bytes without an opening tag do not accumulate.
pub proof fn lemma_noise_does_not_accumulate(buf: Seq<u8>)
    requires
        first_at(buf, open_tag()) is None,
    ensures
        drained(buf) == (Seq::<Seq<u8>>::empty(), noise_tail(buf)),
        noise_tail(buf).len() < open_tag().len(),
{
    lemma_tags();
}

/// A part of bytes without an opening tag holds none either.
proof fn lemma_part_of_noise(buf: Seq<u8>, from: int, to: int)
    requires
        first_at(buf, open_tag()) is None,
        0 <= from <= to <= buf.len(),
    ensures
        first_at(buf.subrange(from, to), open_tag()) is None,
{
    let part = buf.subrange(from, to);
    let n = open_tag().len() as int;
    lemma_first_from(buf, open_tag(), 0);
    lemma_first_from(part, open_tag(), 0);
    if let Some(i) = first_at(part, open_tag()) {
        assert(buf.subrange(from + i, from + i + n) =~= part.subrange(i, i + n));
        assert(occurs_at(buf, open_tag(), from + i));
    }
}

proof fn lemma_noise_is_ingested(buf: Seq<u8>, chunk: Seq<u8>, max: int)
    requires
        max >= open_tag().len() - 1,
        first_at(buf + chunk, open_tag()) is None,
        buf.len() < open_tag().len(),
    ensures
        ingested(buf, chunk, max) == (
            Ok::<Seq<Seq<u8>>, int>(Seq::empty()),
            noise_tail(buf + chunk),
        ),
    decreases chunk.len(),
{
    lemma_tags();
    let whole = buf + chunk;
    if chunk.len() == 0 {
        assert(whole =~= buf);
    } else {
        let n = if chunk.len() < SLICE {
            chunk.len() as int
        } else {
            SLICE as int
        };
        let seen = buf + chunk.take(n);
        let rest = noise_tail(seen);
        let k = seen.len() - rest.len();
        assert(seen =~= whole.subrange(0, buf.len() + n));
        lemma_part_of_noise(whole, 0, buf.len() + n);
        lemma_noise_does_not_accumulate(seen);
        assert(rest + chunk.skip(n) =~= whole.subrange(k, whole.len() as int));
        lemma_part_of_noise(whole, k, whole.len() as int);
        lemma_noise_is_ingested(rest, chunk.skip(n), max);
        assert(noise_tail(rest + chunk.skip(n)) =~= noise_tail(whole));
        assert(Seq::<Seq<u8>>::empty() + Seq::<Seq<u8>>::empty() =~= Seq::<Seq<u8>>::empty());
    }
}

/// Noise never overflows: however much comes without an opening tag, and
/// however it is cut, it gives no document and leaves fewer bytes than a tag,
/// where the limit has room for those.
pub proof fn lemma_noise_never_overflows(chunks: Seq<Seq<u8>>, max: int)
    requires
        max >= open_tag().len() - 1,
        first_at(joined(chunks), open_tag()) is None,
    ensures
        fed(Seq::empty(), chunks, max) == Some(
            (Seq::<Seq<u8>>::empty(), noise_tail(joined(chunks))),
        ),
        noise_tail(joined(chunks)).len() < open_tag().len(),
{
    lemma_tags();
    assert(Seq::<u8>::empty() + joined(chunks) =~= joined(chunks));
    lemma_noise_is_fed(Seq::empty(), chunks, max);
}

proof fn lemma_noise_is_fed(buf: Seq<u8>, chunks: Seq<Seq<u8>>, max: int)
    requires
        max >= open_tag().len() - 1,
        first_at(buf + joined(chunks), open_tag()) is None,
        buf.len() < open_tag().len(),
    ensures
        fed(buf, chunks, max) == Some(
            (Seq::<Seq<u8>>::empty(), noise_tail(buf + joined(chunks))),
        ),
    decreases chunks.len(),
{
    lemma_tags();
    let whole = buf + joined(chunks);
    if chunks.len() == 0 {
        assert(whole =~= buf);
    } else {
        let later = chunks.drop_first();
        let seen = buf + chunks[0];
        let rest = noise_tail(seen);
        let k = seen.len() - rest.len();
        assert(seen =~= whole.subrange(0, seen.len() as int));
        lemma_part_of_noise(whole, 0, seen.len() as int);
        lemma_noise_is_ingested(buf, chunks[0], max);
        assert(rest + joined(later) =~= whole.subrange(k, whole.len() as int));
        lemma_part_of_noise(whole, k, whole.len() as int);
        lemma_noise_is_fed(rest, later, max);
        assert(noise_tail(rest + joined(later)) =~= noise_tail(whole));
        assert(Seq::<Seq<u8>>::empty() + Seq::<Seq<u8>>::empty() =~= Seq::<Seq<u8>>::empty());
    }
}

/// `bytes::BytesMut`, a growable buffer of bytes, of which nothing is stated
/// but through the functions below.
#[verifier::external_type_specification]
#[verifier::external_body]
pub struct ExBytesMut(BytesMut);

/// The bytes that a `BytesMut` holds.
pub uninterp spec fn buffered(buf: BytesMut) -> Seq<u8>;

/// `BytesMut::with_capacity` makes an empty buffer. It panics on a capacity
/// that no allocation can have.
#[verifier::external_body]
fn buffer_with_capacity(capacity: usize) -> (buf: BytesMut)
    requires
        capacity <= isize::MAX / 4,
    ensures
        buffered(buf) == Seq::<u8>::empty(),
{
    BytesMut::with_capacity(capacity)
}

/// `BytesMut` dereferences to the bytes that it holds.
#[verifier::external_body]
fn buffer_bytes(buf: &BytesMut) -> (bytes: &[u8])
    ensures
        bytes@ == buffered(*buf),
{
    buf
}

/// `BytesMut::extend_from_slice` appends the bytes of a slice. The buffer grows
/// by doubling and may carry a dropped front along, which makes it up to four
/// times as large as what it holds; it panics where no allocation can be that
/// large.
#[verifier::external_body]
fn buffer_append(buf: &mut BytesMut, bytes: &[u8])
    requires
        buffered(*old(buf)).len() + bytes@.len() <= isize::MAX / 4,
    ensures
        buffered(*final(buf)) == buffered(*old(buf)) + bytes@,
{
    buf.extend_from_slice(bytes)
}

/// `Buf::advance` drops the first `n` bytes of a `BytesMut`. It panics past the
/// end.
#[verifier::external_body]
fn buffer_advance(buf: &mut BytesMut, n: usize)
    requires
        n <= buffered(*old(buf)).len(),
    ensures
        buffered(*final(buf)) == buffered(*old(buf)).skip(n as int),
{
    buf.advance(n)
}

/// `BytesMut::split_to` takes the first `n` bytes out of the buffer. It panics
/// past the end.
#[verifier::external_body]
fn buffer_split_to(buf: &mut BytesMut, n: usize) -> (front: Vec<u8>)
    requires
        n <= buffered(*old(buf)).len(),
    ensures
        front@ == buffered(*old(buf)).take(n as int),
        buffered(*final(buf)) == buffered(*old(buf)).skip(n as int),
{
    buf.split_to(n).to_vec()
}

/// The first position at which `needle` stands in `hay`.
pub fn find(hay: &[u8], needle: &[u8]) -> (r: Option<usize>)
    requires
        needle@.len() > 0,
    ensures
        match r {
            Some(i) => first_at(hay@, needle@) == Some(i as int),
            None => first_at(hay@, needle@) is None,
        },
{
    if hay.len() < needle.len() {
        return None;
    }
    let last: usize = hay.len() - needle.len();
    let mut i: usize = 0;
    loop
        invariant
            last == hay.len() - needle.len(),
            i <= last,
            first_from(hay@, needle@, i as int) == first_at(hay@, needle@),
        decreases last - i,
    {
        if crate::text::same_bytes(slice_subrange(hay, i, i + needle.len()), needle) {
            return Some(i);
        }
        if i == last {
            assert(first_from(hay@, needle@, i + 1) is None);
            return None;
        }
        i += 1;
    }
}

/// What an operator is told about an overflow.
pub open spec fn overflow_text(buffered: nat, max: nat) -> Seq<char> {
    "frame buffer exceeded safety limit ("@ + decimal(buffered) + " > "@ + decimal(max)
        + " bytes) without a closing tag"@
}

impl BufferOverflow {
    pub fn message(&self) -> (out: String)
        ensures
            out@ == overflow_text(self.buffered as nat, self.max as nat),
            out@ == "frame buffer exceeded safety limit ("@ + decimal(self.buffered as nat)
                + " > "@ + decimal(self.max as nat) + " bytes) without a closing tag"@,
    {
        let mut out = "frame buffer exceeded safety limit (".to_owned();
        out.append(decimal_text(self.buffered as u128).as_str());
        out.append(" > ");
        out.append(decimal_text(self.max as u128).as_str());
        out.append(" bytes) without a closing tag");
        out
    }
}

/// The byte sequences that a vector of byte vectors holds.
pub open spec fn frames_of(frames: Seq<Vec<u8>>) -> Seq<Seq<u8>> {
    frames.map_values(|f: Vec<u8>| f@)
}

/// An allocation can hold what a chunk makes of the buffer: all of its bytes,
/// or a slice of them more than the limit lets stay.
pub open spec fn has_room(held: int, coming: int, limit: int) -> bool {
    ||| held + coming <= isize::MAX / 4
    ||| held + SLICE <= isize::MAX / 4 && limit + SLICE <= isize::MAX / 4
}

pub struct FrameExtractor {
    buf: BytesMut,
    max: usize,
}

impl FrameExtractor {
    /// The bytes kept until the document they belong to is complete.
    pub closed spec fn bytes(&self) -> Seq<u8> {
        buffered(self.buf)
    }

    /// The safety limit on the bytes kept.
    pub closed spec fn limit(&self) -> int {
        self.max as int
    }

    /// No complete document waits in the buffer.
    pub open spec fn wf(&self) -> bool {
        drained(self.bytes()) == (Seq::<Seq<u8>>::empty(), self.bytes())
    }

    pub fn new(max: usize) -> (ex: Self)
        ensures
            ex.wf(),
            ex.bytes() == Seq::<u8>::empty(),
            ex.limit() == max,
    {
        proof {
            lemma_empty_is_drained();
        }
        FrameExtractor { buf: buffer_with_capacity(INITIAL_CAPACITY), max }
    }

    /// Append a network chunk and return every complete XML document it
    /// completes, in order. Returns an error if the residual buffer exceeds
    /// the safety limit (a closing tag that never arrives must not consume
    /// unbounded memory).
    ///
    /// The chunk is ingested in slices with extraction between them, so even
    /// an adversarially large chunk cannot grow memory much past the limit
    /// before the overflow trips.
    pub fn push(&mut self, chunk: &[u8]) -> (r: Result<Vec<Vec<u8>>, BufferOverflow>)
        requires
            old(self).wf(),
            has_room(old(self).bytes().len() as int, chunk@.len() as int, old(self).limit()),
        ensures
            final(self).wf(),
            final(self).limit() == old(self).limit(),
            final(self).bytes() == ingested(old(self).bytes(), chunk@, old(self).limit()).1,
            match r {
                Ok(frames) => ingested(old(self).bytes(), chunk@, old(self).limit()).0 == Ok::<
                    Seq<Seq<u8>>,
                    int,
                >(frames_of(frames@)),
                Err(e) => ingested(old(self).bytes(), chunk@, old(self).limit()).0 == Err::<
                    Seq<Seq<u8>>,
                    int,
                >(e.buffered as int) && e.max == old(self).limit(),
            },
            // the bytes kept stay within the limit, and within a slice of it
            // where the push fails
            r is Ok && old(self).bytes().len() <= old(self).limit() ==> final(self).bytes().len()
                <= old(self).limit(),
            old(self).bytes().len() <= old(self).limit() ==> final(self).bytes().len() <= old(
                self,
            ).limit() + SLICE,
            // a push that succeeds gives the documents of everything received
            r matches Ok(frames) ==> (frames_of(frames@), final(self).bytes()) == drained(
                old(self).bytes() + chunk@,
            ),
            r matches Err(e) ==> e.buffered > e.max && e.buffered == final(self).bytes().len(),
    {
        let ghost start = self.bytes();
        proof {
            lemma_ingested_is_drained(start, chunk@, self.limit());
        }
        let mut frames: Vec<Vec<u8>> = Vec::new();
        let mut pos: usize = 0;
        assert(chunk@.skip(0) =~= chunk@);
        assert(frames_of(frames@) =~= Seq::<Seq<u8>>::empty());
        while pos < chunk.len()
            invariant
                pos <= chunk@.len(),
                self.wf(),
                self.limit() == old(self).limit(),
                has_room(self.bytes().len() as int, chunk@.len() - pos, self.limit()),
                pos > 0 ==> self.bytes().len() <= self.limit(),
                pos == 0 ==> self.bytes() == start && frames@.len() == 0,
                start == old(self).bytes(),
                ({
                    let all = ingested(start, chunk@, self.limit());
                    let rest = ingested(self.bytes(), chunk@.skip(pos as int), self.limit());
                    &&& all.1 == rest.1
                    &&& all.0 == match rest.0 {
                        Ok(more) => Ok::<Seq<Seq<u8>>, int>(frames_of(frames@) + more),
                        Err(n) => Err::<Seq<Seq<u8>>, int>(n),
                    }
                }),
                match ingested(start, chunk@, self.limit()) {
                    (Ok(got), rest) => (got, rest) == drained(start + chunk@),
                    (Err(n), rest) => n == rest.len() && self.limit() < rest.len(),
                },
            decreases chunk@.len() - pos,
        {
            let left: usize = chunk.len() - pos;
            let end: usize = if left < SLICE {
                chunk.len()
            } else {
                pos + SLICE
            };
            let piece = slice_subrange(chunk, pos, end);
            let ghost before = self.bytes();
            let ghost so_far = frames_of(frames@);
            let ghost todo = chunk@.skip(pos as int);
            assert(piece@ =~= todo.take(end - pos));
            assert(todo.skip(end - pos) =~= chunk@.skip(end as int));
            buffer_append(&mut self.buf, piece);
            self.drain_into(&mut frames);
            proof {
                lemma_rest_is_drained(before + piece@);
                lemma_drained_shrinks(before + piece@);
            }
            if buffer_bytes(&self.buf).len() > self.max {
                return Err(
                    BufferOverflow { buffered: buffer_bytes(&self.buf).len(), max: self.max },
                );
            }
            proof {
                let step = drained(before + piece@);
                let rest = ingested(step.1, todo.skip(end - pos), self.limit());
                if let Ok(more) = rest.0 {
                    assert(so_far + (step.0 + more) =~= (so_far + step.0) + more);
                }
            }
            pos = end;
        }
        assert(chunk@.skip(pos as int) =~= Seq::<u8>::empty());
        assert(frames_of(frames@) + Seq::<Seq<u8>>::empty() =~= frames_of(frames@));
        Ok(frames)
    }

    /// Move every complete document from the buffer to `frames`.
    fn drain_into(&mut self, frames: &mut Vec<Vec<u8>>)
        ensures
            final(self).limit() == old(self).limit(),
            final(self).bytes() == drained(old(self).bytes()).1,
            frames_of(final(frames)@) == frames_of(old(frames)@) + drained(old(self).bytes()).0,
    {
        loop
            invariant
                self.limit() == old(self).limit(),
                drained(old(self).bytes()).1 == drained(self.bytes()).1,
                frames_of(old(frames)@) + drained(old(self).bytes()).0 == frames_of(frames@)
                    + drained(self.bytes()).0,
            decreases self.bytes().len(),
        {
            let ghost before = self.bytes();
            let ghost so_far = frames@;
            match self.next_frame() {
                Some(frame) => {
                    frames.push(frame);
                    proof {
                        assert(frames_of(frames@) =~= frames_of(so_far).push(frame@));
                        assert(frames_of(so_far) + drained(before).0 =~= frames_of(frames@)
                            + drained(self.bytes()).0);
                    }
                },
                None => {
                    assert(frames_of(frames@) + drained(before).0 =~= frames_of(frames@));
                    return ;
                },
            }
        }
    }

    fn next_frame(&mut self) -> (r: Option<Vec<u8>>)
        ensures
            final(self).limit() == old(self).limit(),
            match r {
                Some(frame) => {
                    &&& drained(old(self).bytes()) == (
                        seq![frame@] + drained(final(self).bytes()).0,
                        drained(final(self).bytes()).1,
                    )
                    &&& final(self).bytes().len() < old(self).bytes().len()
                },
                None => drained(old(self).bytes()) == (
                    Seq::<Seq<u8>>::empty(),
                    final(self).bytes(),
                ),
            },
    {
        proof {
            lemma_tags();
            lemma_first_from(self.bytes(), open_tag(), 0);
        }
        let start: usize = match find(buffer_bytes(&self.buf), OPEN_TAG.as_bytes()) {
            Some(start) => start,
            None => {
                // No opening tag: discard noise (multipart boundaries, part
                // headers) but keep enough tail bytes to recognise an opening
                // tag split across chunks.
                let retain: usize = OPEN_TAG.as_bytes().len() - 1;
                let held: usize = buffer_bytes(&self.buf).len();
                if held > retain {
                    buffer_advance(&mut self.buf, held - retain);
                }
                return None;
            },
        };
        if start > 0 {
            buffer_advance(&mut self.buf, start);
        } else {
            assert(self.bytes().skip(0) =~= self.bytes());
        }
        proof {
            lemma_first_from(self.bytes(), close_tag(), 0);
        }
        let held: usize = buffer_bytes(&self.buf).len();
        match find(buffer_bytes(&self.buf), CLOSE_TAG.as_bytes()) {
            Some(at) => {
                assert(at + close_tag().len() <= held);
                Some(buffer_split_to(&mut self.buf, at + CLOSE_TAG.as_bytes().len()))
            },
            None => None,
        }
    }
}

/// What is left over is no longer than what was there.
proof fn lemma_drained_shrinks(buf: Seq<u8>)
    ensures
        drained(buf).1.len() <= buf.len(),
    decreases buf.len(),
{
    lemma_tags();
    lemma_first_from(buf, open_tag(), 0);
    if let Some(start) = first_at(buf, open_tag()) {
        let doc = buf.skip(start);
        lemma_first_from(doc, close_tag(), 0);
        if let Some(at) = first_at(doc, close_tag()) {
            lemma_drained_shrinks(doc.skip(at + close_tag().len()));
        }
    }
}

/// The two tags, in full.
pub proof fn lemma_tags_in_full()
    ensures
        open_tag() == "<EventNotificationAlert".spec_bytes(),
        close_tag() == "</EventNotificationAlert>".spec_bytes(),
{
}

/// Of bytes in which no document starts the last 22 are kept, one less than an
/// opening tag has, or all of them where there are no more.
pub proof fn lemma_noise_leaves_its_end(buf: Seq<u8>)
    requires
        forall|i: int, j: int|
            #![trigger buf.subrange(i, j)]
            0 <= i && j == i + 23 && j <= buf.len() ==> buf.subrange(i, j)
                != "<EventNotificationAlert".spec_bytes(),
    ensures
        drained(buf).0 == Seq::<Seq<u8>>::empty(),
        buf.len() <= 22 ==> drained(buf).1 == buf,
        buf.len() > 22 ==> drained(buf).1 == buf.subrange(buf.len() - 22, buf.len() as int),
{
    lemma_tags();
    lemma_first_from(buf, open_tag(), 0);
    if let Some(i) = first_at(buf, open_tag()) {
        assert(buf.subrange(i, i + 23) == open_tag());
    }
    assert(buf.skip(buf.len() - 22) =~= buf.subrange(buf.len() - 22, buf.len() as int));
}

/// Of bytes in which a document starts and does not end, all from its opening
/// tag on is kept.
pub proof fn lemma_begun_document_is_kept(noise: Seq<u8>, begun: Seq<u8>)
    requires
        begun.len() >= 23,
        begun.subrange(0, 23) == "<EventNotificationAlert".spec_bytes(),
        forall|i: int, j: int|
            #![trigger (noise + begun).subrange(i, j)]
            0 <= i < noise.len() && j == i + 23 && j <= noise.len() + begun.len() ==> (noise
                + begun).subrange(i, j) != "<EventNotificationAlert".spec_bytes(),
        forall|i: int, j: int|
            #![trigger begun.subrange(i, j)]
            0 <= i && j == i + 25 && j <= begun.len() ==> begun.subrange(i, j)
                != "</EventNotificationAlert>".spec_bytes(),
    ensures
        drained(noise + begun) == (Seq::<Seq<u8>>::empty(), begun),
{
    lemma_tags();
    let whole = noise + begun;
    let start = noise.len() as int;
    assert(whole.subrange(start, start + 23) =~= begun.subrange(0, 23));
    assert(occurs_at(whole, open_tag(), start));
    assert forall|j: int| 0 <= j < start implies !occurs_at(whole, open_tag(), j) by {
        if occurs_at(whole, open_tag(), j) {
            assert(whole.subrange(j, j + 23) == open_tag());
        }
    }
    lemma_first_at_is(whole, open_tag(), start);
    assert(whole.skip(start) =~= begun);
    lemma_first_from(begun, close_tag(), 0);
    if let Some(i) = first_at(begun, close_tag()) {
        assert(begun.subrange(i, i + 25) == close_tag());
    }
}

/// A chunk of up to 65536 bytes is taken at once: it overflows the buffer
/// exactly where more than `max` bytes are then left over. A longer one is
/// taken as that many bytes and then the rest, unless the first overflow.
pub proof fn lemma_chunk_by_slices(buf: Seq<u8>, slice: Seq<u8>, rest: Seq<u8>, max: int)
    requires
        slice.len() > 0,
    ensures
        ingested(buf, Seq::empty(), max) == (Ok::<Seq<Seq<u8>>, int>(Seq::empty()), buf),
        slice.len() <= 65536 && drained(buf + slice).1.len() > max ==> ingested(buf, slice, max)
            == (
            Err::<Seq<Seq<u8>>, int>(drained(buf + slice).1.len() as int),
            drained(buf + slice).1,
        ),
        slice.len() <= 65536 && drained(buf + slice).1.len() <= max ==> ingested(buf, slice, max)
            == (Ok::<Seq<Seq<u8>>, int>(drained(buf + slice).0), drained(buf + slice).1),
        slice.len() == 65536 ==> match ingested(buf, slice, max) {
            (Err(n), left) => ingested(buf, slice + rest, max) == (
                Err::<Seq<Seq<u8>>, int>(n),
                left,
            ),
            (Ok(frames), left) => ingested(buf, slice + rest, max) == match ingested(
                left,
                rest,
                max,
            ) {
                (Err(n), last) => (Err::<Seq<Seq<u8>>, int>(n), last),
                (Ok(more), last) => (Ok::<Seq<Seq<u8>>, int>(frames + more), last),
            },
        },
{
    let whole = slice + rest;
    if slice.len() <= 65536 {
        assert(slice.take(slice.len() as int) =~= slice);
        assert(slice.skip(slice.len() as int) =~= Seq::<u8>::empty());
        let step = drained(buf + slice);
        assert(ingested(step.1, Seq::empty(), max) == (
            Ok::<Seq<Seq<u8>>, int>(Seq::empty()),
            step.1,
        ));
        assert(step.0 + Seq::<Seq<u8>>::empty() =~= step.0);
    }
    if slice.len() == 65536 {
        assert(whole.take(65536) =~= slice);
        assert(whole.skip(65536) =~= rest);
    }
}

/// An overflow names what is buffered and what was allowed, in this order.
pub proof fn lemma_overflow_names_both_numbers(buffered: nat, max: nat)
    ensures
        overflow_text(buffered, max) == "frame buffer exceeded safety limit ("@ + decimal(buffered)
            + " > "@ + decimal(max) + " bytes) without a closing tag"@,
{
}

} // verus!
