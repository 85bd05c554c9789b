use vstd::prelude::*;
use vstd::string::StringSliceAdditionalSpecFns;
use vstd::slice::slice_subrange;
use vstd::utf8::{encode_utf8, valid_utf8};
use crate::client::Error;
use crate::lexical::{
    find_sequence, first_occurrence, has_name_prefix, has_prefix_ignore_case, occurs_at,
};
use crate::number::{parse_unsigned, parse_unsigned_bytes};
use crate::request::{Response, Status, status_of};

verus! {

/// Offset of the three status digits in a status line `HTTP/N.N 200 ...`.
pub const STATUS_OFFSET: usize = 9;

/// Number of status digits.
pub const STATUS_DIGITS: usize = 3;

/// The line break `\r\n`.
pub open spec fn crlf() -> Seq<u8> {
    seq![13u8, 10u8]
}

/// The header terminator `\r\n\r\n`.
pub open spec fn terminator() -> Seq<u8> {
    seq![13u8, 10u8, 13u8, 10u8]
}

/// Whitespace skipped before a header value: space, tab, line feed, form feed, carriage return.
pub open spec fn is_space(b: u8) -> bool {
    b == 32 || b == 9 || b == 10 || b == 12 || b == 13
}

/// The first offset at or after `i` and before `end` that holds no whitespace, else `end`.
pub open spec fn skip_space(s: Seq<u8>, i: int, end: int) -> int
    decreases end - i,
{
    if i < end && is_space(s[i]) {
        skip_space(s, i + 1, end)
    } else {
        i
    }
}

/// `s` starts with `p`, byte for byte.
pub open spec fn starts_with(s: Seq<u8>, p: Seq<u8>) -> bool {
    s.len() >= p.len() && s.take(p.len() as int) == p
}

/// The token that opens a status line.
pub open spec fn status_token() -> Seq<u8> {
    "HTTP".spec_bytes()
}

/// The field name of the content type header.
pub open spec fn content_type_name() -> Seq<u8> {
    "content-type".spec_bytes()
}

/// The field name of the content length header.
pub open spec fn content_length_name() -> Seq<u8> {
    "content-length".spec_bytes()
}

/// What the header block says of the response: its status, where the content type's
/// value lies in the buffer (start and end offsets), and the declared payload length.
#[derive(Clone, Copy, Debug)]
pub struct Head {
    pub status: Status,
    pub content_type: Option<(usize, usize)>,
    pub content_length: usize,
}

/// The head before any line was read: `BadRequest`, no content type, no payload.
pub open spec fn initial_head() -> Head {
    Head { status: Status::BadRequest, content_type: None, content_length: 0 }
}

/// Where the value of a header line `s[a..b]` whose field name is `name` begins: one byte
/// past the name (the colon), with leading whitespace skipped.
pub open spec fn value_start(s: Seq<u8>, a: int, b: int, name: Seq<u8>) -> int {
    let after = if a + name.len() < b {
        a + name.len() + 1
    } else {
        b
    };
    skip_space(s, after, b)
}

/// The head after the header line `s[a..b]`; `None` where the line fails to parse.
pub open spec fn apply_line(s: Seq<u8>, a: int, b: int, h: Head) -> Option<Head> {
    let line = s.subrange(a, b);
    if starts_with(line, status_token()) {
        if b - a < STATUS_OFFSET + STATUS_DIGITS {
            None
        } else {
            match parse_unsigned(
                s.subrange(a + STATUS_OFFSET, a + STATUS_OFFSET + STATUS_DIGITS),
                u32::MAX as nat,
            ) {
                Some(code) => Some(Head { status: status_of(code as u32), ..h }),
                None => None,
            }
        }
    } else if has_name_prefix(line, content_type_name()) {
        let v = value_start(s, a, b, content_type_name());
        Some(Head { content_type: Some((v as usize, b as usize)), ..h })
    } else if has_name_prefix(line, content_length_name()) {
        let v = value_start(s, a, b, content_length_name());
        match parse_unsigned(s.subrange(v, b), usize::MAX as nat) {
            Some(n) => Some(Head { content_length: n as usize, ..h }),
            None => None,
        }
    } else {
        Some(h)
    }
}

/// The head after the lines of `s` from offset `start` on, lines split at `\r\n`.
pub open spec fn parse_lines(s: Seq<u8>, start: int, h: Head) -> Option<Head>
    decreases s.len() - start,
{
    if start < 0 || start > s.len() {
        None
    } else {
        match first_occurrence(s.subrange(start, s.len() as int), crlf()) {
            Some(i) => if i < 0 || start + i + 2 > s.len() {
                None
            } else {
                match apply_line(s, start, start + i, h) {
                    Some(h2) => parse_lines(s, start + i + 2, h2),
                    None => None,
                }
            },
            None => apply_line(s, start, s.len() as int, h),
        }
    }
}

/// The head that a header block `s` gives, `None` where it is not UTF-8 text or a
/// line fails to parse.
pub open spec fn parse_header(s: Seq<u8>) -> Option<Head> {
    if valid_utf8(s) {
        parse_lines(s, 0, initial_head())
    } else {
        None
    }
}

/// Relies on core::str::from_utf8: text exactly when the bytes are well-formed UTF-8,
/// the text then holding those very bytes.
#[verifier::external_body]
pub(crate) fn utf8_text(b: &[u8]) -> (r: Option<&str>)
    ensures
        r is Some <==> valid_utf8(b@),
        r matches Some(t) ==> t.spec_bytes() == b@,
{
    core::str::from_utf8(b).ok()
}

/// Tells whether `s` starts with `p`, byte for byte.
fn starts_with_bytes(s: &[u8], p: &[u8]) -> (r: bool)
    ensures
        r == starts_with(s@, p@),
{
    if s.len() < p.len() {
        return false;
    }
    let mut i: usize = 0;
    while i < p.len()
        invariant
            p@.len() <= s@.len(),
            i <= p@.len(),
            forall|t: int| 0 <= t < i ==> s@[t] == p@[t],
        decreases p@.len() - i,
    {
        if s[i] != p[i] {
            proof {
                assert(s@.take(p@.len() as int)[i as int] != p@[i as int]);
            }
            return false;
        }
        i = i + 1;
    }
    proof {
        assert(s@.take(p@.len() as int) =~= p@);
    }
    true
}

/// The first offset at or after `i` and before `end` that holds no whitespace, else `end`.
fn skip_space_bytes(s: &[u8], i: usize, end: usize) -> (r: usize)
    requires
        i <= end <= s@.len(),
    ensures
        r == skip_space(s@, i as int, end as int),
        i <= r <= end,
{
    let mut k: usize = i;
    while k < end && (s[k] == 32 || s[k] == 9 || s[k] == 10 || s[k] == 12 || s[k] == 13)
        invariant
            i <= k <= end,
            end <= s@.len(),
            skip_space(s@, k as int, end as int) == skip_space(s@, i as int, end as int),
        decreases end - k,
    {
        k = k + 1;
    }
    k
}

/// Where the value of the header line `s[a..b]` named `name` begins.
fn value_start_bytes(s: &[u8], a: usize, b: usize, name: &[u8]) -> (r: usize)
    requires
        a <= b <= s@.len(),
    ensures
        r == value_start(s@, a as int, b as int, name@),
        a <= r <= b,
{
    let after: usize = if name.len() < b - a {
        a + name.len() + 1
    } else {
        b
    };
    skip_space_bytes(s, after, b)
}

/// The head after the header line `s[a..b]`; `None` where the line fails to parse.
fn apply_line_bytes(s: &[u8], a: usize, b: usize, h: Head) -> (r: Option<Head>)
    requires
        a <= b <= s@.len(),
    ensures
        r == apply_line(s@, a as int, b as int, h),
{
    let line = slice_subrange(s, a, b);
    if starts_with_bytes(line, "HTTP".as_bytes()) {
        if b - a < STATUS_OFFSET + STATUS_DIGITS {
            return None;
        }
        let digits = slice_subrange(s, a + STATUS_OFFSET, a + STATUS_OFFSET + STATUS_DIGITS);
        match parse_unsigned_bytes(digits, u32::MAX as u64) {
            Some(code) => Some(Head { status: Status::from_code(code as u32), ..h }),
            None => None,
        }
    } else if has_prefix_ignore_case(line, "content-type".as_bytes()) {
        let v = value_start_bytes(s, a, b, "content-type".as_bytes());
        Some(Head { content_type: Some((v, b)), ..h })
    } else if has_prefix_ignore_case(line, "content-length".as_bytes()) {
        let v = value_start_bytes(s, a, b, "content-length".as_bytes());
        match parse_unsigned_bytes(slice_subrange(s, v, b), usize::MAX as u64) {
            Some(n) => Some(Head { content_length: n as usize, ..h }),
            None => None,
        }
    } else {
        Some(h)
    }
}

/// Parses the header block `buf[..header_end]`: the status line and the `Content-Type`
/// and `Content-Length` fields. A status line is read as `HTTP/N.N ` followed by three
/// digits at a fixed offset. Fails with a codec error where the block is not UTF-8 text,
/// a status line is too short to hold a code or its code is not a number, or a content
/// length is not a number that fits in `usize`.
pub fn parse_head(buf: &[u8], header_end: usize) -> (r: Result<Head, Error>)
    requires
        header_end <= buf@.len(),
    ensures
        match parse_header(buf@.take(header_end as int)) {
            Some(h) => r == Ok::<Head, Error>(h),
            None => r == Err::<Head, Error>(Error::Codec),
        },
{
    let header = slice_subrange(buf, 0, header_end);
    assert(header@ =~= buf@.take(header_end as int));
    if utf8_text(header).is_none() {
        return Err(Error::Codec);
    }
    let crlf_bytes: [u8; 2] = [13u8, 10u8];
    let crlf_slice: &[u8] = &crlf_bytes;
    assert(crlf_slice@ =~= crlf());
    let ghost s = header@;
    let mut h = Head { status: Status::BadRequest, content_type: None, content_length: 0 };
    let mut start: usize = 0;
    loop
        invariant
            s == header@,
            s == buf@.take(header_end as int),
            valid_utf8(s),
            header@.len() == header_end,
            crlf_slice@ == crlf(),
            start <= header_end,
            parse_lines(s, start as int, h) == parse_lines(s, 0, initial_head()),
        decreases header_end - start,
    {
        let rest = slice_subrange(header, start, header_end);
        assert(rest@ =~= s.subrange(start as int, s.len() as int));
        match find_sequence(rest, crlf_slice) {
            Some(i) => {
                proof {
                    assert(occurs_at(rest@, crlf(), i as int));
                }
                match apply_line_bytes(header, start, start + i, h) {
                    Some(h2) => {
                        h = h2;
                        start = start + i + 2;
                    },
                    None => {
                        return Err(Error::Codec);
                    },
                }
            },
            None => {
                return match apply_line_bytes(header, start, header_end, h) {
                    Some(h2) => Ok(h2),
                    None => Err(Error::Codec),
                };
            },
        }
    }
}

/// Looks for the header terminator in the first `filled` bytes of `buf`, after a read.
/// Gives the offset just past the terminator where it is found; `None` where more bytes
/// are needed; a codec error where the buffer is full and holds no terminator.
pub fn scan_header(buf: &[u8], filled: usize) -> (r: Result<Option<usize>, Error>)
    requires
        filled <= buf@.len(),
    ensures
        match first_occurrence(buf@.take(filled as int), terminator()) {
            Some(i) => r == Ok::<Option<usize>, Error>(Some((i + 4) as usize)),
            None => if filled == buf@.len() {
                r == Err::<Option<usize>, Error>(Error::Codec)
            } else {
                r == Ok::<Option<usize>, Error>(None)
            },
        },
        r matches Ok(Some(e)) ==> 4 <= e <= filled,
{
    let term_bytes: [u8; 4] = [13u8, 10u8, 13u8, 10u8];
    let term: &[u8] = &term_bytes;
    assert(term@ =~= terminator());
    let filled_part = slice_subrange(buf, 0, filled);
    assert(filled_part@ =~= buf@.take(filled as int));
    let found = find_sequence(filled_part, term);
    match found {
        Some(i) => {
            assert(first_occurrence(buf@.take(filled as int), terminator()) == Some(i as int));
            assert(i + 4 <= filled);
            Ok(Some(i + 4))
        },
        None => {
            assert(first_occurrence(buf@.take(filled as int), terminator()) is None);
            if filled == buf.len() {
                Err(Error::Codec)
            } else {
                Ok(None)
            }
        },
    }
}

/// Slides the bytes `buf[header_end..filled]`, payload that arrived with the header,
/// to the front of the buffer, and gives their number.
pub fn compact(buf: &mut [u8], header_end: usize, filled: usize) -> (r: usize)
    requires
        header_end <= filled <= old(buf)@.len(),
    ensures
        r == filled - header_end,
        final(buf)@.len() == old(buf)@.len(),
        final(buf)@.take(r as int) == old(buf)@.subrange(header_end as int, filled as int),
        final(buf)@.skip(r as int) == old(buf)@.skip(r as int),
{
    let n: usize = filled - header_end;
    let ghost before = buf@;
    let mut i: usize = 0;
    while i < n
        invariant
            n == filled - header_end,
            filled <= before.len(),
            i <= n,
            buf@.len() == before.len(),
            forall|t: int| 0 <= t < i ==> buf@[t] == before[header_end + t],
            forall|t: int| i <= t < before.len() ==> buf@[t] == before[t],
        decreases n - i,
    {
        let b = buf[header_end + i];
        buf[i] = b;
        i = i + 1;
    }
    assert(buf@.take(n as int) =~= before.subrange(header_end as int, filled as int));
    assert(buf@.skip(n as int) =~= before.skip(n as int));
    n
}

/// How many payload bytes are still to be read, with `buffered` bytes of payload at the
/// front of a buffer of `capacity` bytes and `content_length` declared. Nothing is read
/// for a zero length. A declared length below what is buffered, or above the capacity
/// of the buffer, is a codec error.
pub fn payload_to_read(content_length: usize, buffered: usize, capacity: usize) -> (r: Result<
    usize,
    Error,
>)
    requires
        buffered <= capacity,
    ensures
        content_length == 0 ==> r == Ok::<usize, Error>(0),
        content_length > 0 && (content_length < buffered || content_length > capacity) ==> r
            == Err::<usize, Error>(Error::Codec),
        content_length > 0 && buffered <= content_length <= capacity ==> r == Ok::<usize, Error>(
            (content_length - buffered) as usize,
        ),
{
    if content_length == 0 {
        Ok(0)
    } else if content_length < buffered || content_length > capacity {
        Err(Error::Codec)
    } else {
        Ok(content_length - buffered)
    }
}

/// A response whose header has been read and whose payload is being read into the front
/// of the receive buffer: `filled` bytes are there, `remaining` are still to come.
#[derive(Debug)]
pub struct PendingResponse {
    pub status: Status,
    pub content_type: Option<String>,
    pub content_length: usize,
    pub filled: usize,
    pub remaining: usize,
}

impl PendingResponse {
    /// The payload read so far and still to read make up the declared length, and no
    /// payload is read where the declared length is zero.
    pub open spec fn wf(&self) -> bool {
        if self.content_length == 0 {
            self.remaining == 0
        } else {
            self.filled + self.remaining == self.content_length
        }
    }

    /// Records that a read placed `n` more payload bytes at offset `filled`.
    pub fn record_read(&mut self, n: usize)
        requires
            n <= old(self).remaining,
            old(self).wf(),
        ensures
            final(self).filled == old(self).filled + n,
            final(self).remaining == old(self).remaining - n,
            final(self).status == old(self).status,
            final(self).content_type == old(self).content_type,
            final(self).content_length == old(self).content_length,
            final(self).wf(),
            *final(self) == after_reads(*old(self), seq![n as nat]),
    {
        self.filled = self.filled + n;
        self.remaining = self.remaining - n;
        assert(seq![n as nat].drop_last() =~= Seq::<nat>::empty());
        assert(after_reads(*old(self), Seq::<nat>::empty()) == *old(self));
    }

    /// The response, its payload the first `filled` bytes of `buf`; `None` where the
    /// declared length is zero. Once nothing remains, the payload has the declared length.
    pub fn into_response<'a>(self, buf: &'a [u8]) -> (r: Response<'a>)
        requires
            self.filled <= buf@.len(),
        ensures
            r.status == self.status,
            r.content_type == self.content_type,
            self.content_length == 0 ==> r.payload is None,
            self.content_length > 0 ==> (r.payload matches Some(p) && p@ == buf@.take(
                self.filled as int,
            )),
            self.wf() && self.remaining == 0 && self.content_length > 0 ==> (
            r.payload matches Some(p) && p@.len() == self.content_length),
    {
        let payload = if self.content_length > 0 {
            Some(slice_subrange(buf, 0, self.filled))
        } else {
            None
        };
        Response { status: self.status, content_type: self.content_type, payload }
    }
}

/// The total of the read sizes `reads`.
pub open spec fn total(reads: Seq<nat>) -> nat
    decreases reads.len(),
{
    if reads.len() == 0 {
        0
    } else {
        total(reads.drop_last()) + reads.last()
    }
}

/// The pending response after reads of the sizes `reads`, each recorded in turn as
/// `record_read` does.
pub open spec fn after_reads(p: PendingResponse, reads: Seq<nat>) -> PendingResponse
    decreases reads.len(),
{
    if reads.len() == 0 {
        p
    } else {
        let q = after_reads(p, reads.drop_last());
        PendingResponse {
            filled: (q.filled + reads.last()) as usize,
            remaining: (q.remaining - reads.last()) as usize,
            ..q
        }
    }
}

proof fn lemma_after_reads(p: PendingResponse, reads: Seq<nat>)
    requires
        p.wf(),
        total(reads) <= p.remaining,
    ensures
        after_reads(p, reads).filled == p.filled + total(reads),
        after_reads(p, reads).remaining == p.remaining - total(reads),
        after_reads(p, reads).content_length == p.content_length,
        after_reads(p, reads).wf(),
    decreases reads.len(),
{
    if reads.len() > 0 {
        lemma_after_reads(p, reads.drop_last());
    }
}

/// However the payload still to come is split into reads, once reads totalling what
/// remained have been recorded, nothing remains and the payload read has the declared
/// length.
pub proof fn lemma_reads_complete_payload(p: PendingResponse, reads: Seq<nat>)
    requires
        p.wf(),
        total(reads) == p.remaining,
    ensures
        after_reads(p, reads).remaining == 0,
        p.content_length > 0 ==> after_reads(p, reads).filled == p.content_length,
{
    lemma_after_reads(p, reads);
}

/// The text of the content type's value, held at `buf[a..b]`; a codec error where the
/// range lies outside the buffer or its bytes are not UTF-8.
fn content_type_text(buf: &[u8], range: Option<(usize, usize)>) -> (r: Result<Option<String>, Error>)
    ensures
        match range {
            None => r == Ok::<Option<String>, Error>(None),
            Some((a, b)) => if a <= b <= buf@.len() && valid_utf8(buf@.subrange(a as int, b as int)) {
                r matches Ok(Some(t)) && encode_utf8(t@) == buf@.subrange(a as int, b as int)
            } else {
                r == Err::<Option<String>, Error>(Error::Codec)
            },
        },
{
    match range {
        None => Ok(None),
        Some((a, b)) => {
            if a > b || b > buf.len() {
                return Err(Error::Codec);
            }
            match utf8_text(slice_subrange(buf, a, b)) {
                Some(t) => Ok(Some(t.to_owned())),
                None => Err(Error::Codec),
            }
        },
    }
}

/// The content type's value range `range` lies in `s` and holds UTF-8 text.
pub open spec fn content_type_readable(s: Seq<u8>, range: Option<(usize, usize)>) -> bool {
    match range {
        None => true,
        Some((a, b)) => a <= b <= s.len() && valid_utf8(s.subrange(a as int, b as int)),
    }
}

/// The header block was read into `buf[..header_end]` and payload bytes after it up to
/// `filled`: parses the header, slides the payload already read to the front of the
/// buffer, and says how much payload is still to be read behind it.
///
/// Fails with a codec error where the header does not parse, the content type is not
/// text, or the declared length is below what was already read or above the buffer's
/// size.
pub fn begin_payload(buf: &mut [u8], header_end: usize, filled: usize) -> (r: Result<
    PendingResponse,
    Error,
>)
    requires
        header_end <= filled <= old(buf)@.len(),
    ensures
        r is Ok <==> (parse_header(old(buf)@.take(header_end as int)) matches Some(h)
            && content_type_readable(old(buf)@, h.content_type) && (h.content_length == 0 || (
        filled - header_end <= h.content_length <= old(buf)@.len()))),
        r is Err ==> r == Err::<PendingResponse, Error>(Error::Codec),
        r matches Ok(p) ==> {
            &&& parse_header(old(buf)@.take(header_end as int)) matches Some(h)
            &&& p.status == h.status
            &&& p.content_length == h.content_length
            &&& p.filled == filled - header_end
            &&& p.wf()
            &&& (h.content_type matches Some((a, b)) ==> (p.content_type matches Some(t)
                && encode_utf8(t@) == old(buf)@.subrange(a as int, b as int)))
            &&& (h.content_type is None ==> p.content_type is None)
            &&& final(buf)@.len() == old(buf)@.len()
            &&& final(buf)@.take(p.filled as int) == old(buf)@.subrange(
                header_end as int,
                filled as int,
            )
        },
{
    let head = match parse_head(buf, header_end) {
        Ok(h) => h,
        Err(e) => {
            return Err(e);
        },
    };
    let content_type = match content_type_text(buf, head.content_type) {
        Ok(t) => t,
        Err(e) => {
            return Err(e);
        },
    };
    let buffered = compact(buf, header_end, filled);
    let remaining = match payload_to_read(head.content_length, buffered, buf.len()) {
        Ok(n) => n,
        Err(e) => {
            return Err(e);
        },
    };
    Ok(
        PendingResponse {
            status: head.status,
            content_type,
            content_length: head.content_length,
            filled: buffered,
            remaining,
        },
    )
}

} // verus!
