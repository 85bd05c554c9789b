//! Laws relating the bytes a peer writes to what the decoder reads back from them.
use vstd::prelude::*;
use vstd::string::{StringSliceAdditionalSpecFns, is_ascii};
use vstd::utf8::{
    encode_utf8_valid_utf8, partial_valid_utf8, partial_valid_utf8_extend_ascii_block, valid_utf8,
    valid_utf8_concat,
};
use crate::decode::{
    Head, apply_line, is_space, parse_header, content_length_name, content_type_name, crlf, initial_head, parse_lines,
    skip_space, starts_with, status_token, value_start,
};
use crate::encode::header_line;
use crate::lexical::{
    ascii_lower, first_occurrence, has_name_prefix, lemma_first_occurrence, occurs_at,
};
use crate::number::{decimal, lemma_decimal_digits, lemma_decimal_round_trip};
use crate::request::{ContentType, content_type_token, status_of};

verus! {

broadcast use vstd::string::is_ascii_spec_bytes;

/// A status line with a three-digit `code`.
pub open spec fn status_line(code: nat) -> Seq<u8> {
    "HTTP/1.1 ".spec_bytes() + decimal(code) + " OK".spec_bytes()
}

/// The head of a response as a peer writes it: a status line, then the content type
/// and the content length as header lines, then a blank line.
pub open spec fn response_head(code: nat, c: ContentType, len: nat) -> Seq<u8> {
    status_line(code) + "\r\n".spec_bytes() + header_line(
        "Content-Type".spec_bytes(),
        content_type_token(c).spec_bytes(),
    ) + header_line("Content-Length".spec_bytes(), decimal(len)) + "\r\n".spec_bytes()
}

/// No byte of `s` is a carriage return.
pub open spec fn no_cr(s: Seq<u8>) -> bool {
    forall|i: int| 0 <= i < s.len() ==> s[i] != 13
}

proof fn lemma_line_ends(s: Seq<u8>, start: int, len: int)
    requires
        0 <= start,
        0 <= len,
        start + len + 2 <= s.len(),
        no_cr(s.subrange(start, start + len)),
        s.subrange(start + len, start + len + 2) == crlf(),
    ensures
        first_occurrence(s.subrange(start, s.len() as int), crlf()) == Some(len),
{
    let r = s.subrange(start, s.len() as int);
    assert(s.subrange(start + len, start + len + 2)[0] == s[start + len]);
    assert(s.subrange(start + len, start + len + 2)[1] == s[start + len + 1]);
    assert(r.subrange(len, len + 2) =~= crlf());
    assert forall|j: int| 0 <= j < len implies !occurs_at(r, crlf(), j) by {
        assert(r.subrange(j, j + 2)[0] == r[j]);
        assert(r[j] == s.subrange(start, start + len)[j]);
    }
    lemma_first_occurrence(r, crlf(), Some(len));
}

proof fn lemma_decimal_three_digits(code: nat)
    requires
        100 <= code <= 999,
    ensures
        decimal(code).len() == 3,
{
    assert(10 <= code / 10 <= 99) by (nonlinear_arith)
        requires
            100 <= code <= 999,
    ;
    assert(1 <= code / 10 / 10 <= 9) by (nonlinear_arith)
        requires
            10 <= code / 10 <= 99,
    ;
    assert(decimal(code / 10 / 10).len() == 1);
    assert(decimal(code / 10).len() == 2);
    assert(decimal(code).len() == 3);
}

proof fn lemma_decimal_no_cr(n: nat)
    ensures
        no_cr(decimal(n)),
        decimal(n).len() > 0,
    decreases n,
{
    if n >= 10 {
        lemma_decimal_no_cr(n / 10);
        let d = decimal(n);
        assert forall|i: int| 0 <= i < d.len() implies d[i] != 13 by {
            if i < d.len() - 1 {
                assert(d[i] == decimal(n / 10)[i]);
            }
        }
    }
}

proof fn lemma_status_line(s: Seq<u8>, a: int, code: nat, h: Head)
    requires
        100 <= code <= 999,
        0 <= a,
        a + 15 <= s.len(),
        s.subrange(a, a + 15) == status_line(code),
    ensures
        status_line(code).len() == 15,
        no_cr(status_line(code)),
        apply_line(s, a, a + 15, h) == Some(Head { status: status_of(code as u32), ..h }),
{
    reveal_strlit("HTTP/1.1 ");
    assert(is_ascii("HTTP/1.1 "));
    reveal_strlit(" OK");
    assert(is_ascii(" OK"));
    reveal_strlit("HTTP");
    assert(is_ascii("HTTP"));
    lemma_decimal_three_digits(code);
    lemma_decimal_no_cr(code);
    let sl = status_line(code);
    assert("HTTP/1.1 ".spec_bytes() =~= seq![72u8, 84, 84, 80, 47, 49, 46, 49, 32]);
    assert(" OK".spec_bytes() =~= seq![32u8, 79, 75]);
    assert(status_token() =~= seq![72u8, 84, 84, 80]);
    assert forall|i: int| 0 <= i < sl.len() implies sl[i] != 13 by {
        if 9 <= i < 12 {
            assert(sl[i] == decimal(code)[i - 9]);
        }
    }
    let line = s.subrange(a, a + 15);
    assert(line.take(4) =~= status_token());
    assert forall|i: int| 0 <= i < 3 implies s.subrange(a + 9, a + 12)[i] == decimal(code)[i] by {
        assert(s.subrange(a + 9, a + 12)[i] == line[9 + i]);
        assert(line[9 + i] == sl[9 + i]);
    }
    assert(s.subrange(a + 9, a + 12) =~= decimal(code));
    lemma_decimal_round_trip(code, u32::MAX as nat);
}

proof fn lemma_empty_line(s: Seq<u8>, a: int, h: Head)
    requires
        0 <= a <= s.len(),
    ensures
        apply_line(s, a, a, h) == Some(h),
{
    reveal_strlit("HTTP");
    assert(is_ascii("HTTP"));
    reveal_strlit("content-type");
    assert(is_ascii("content-type"));
    reveal_strlit("content-length");
    assert(is_ascii("content-length"));
    assert(status_token().len() == 4);
    assert(content_type_name().len() == 12);
    assert(content_length_name().len() == 14);
}

/// A content type line as the encoder writes it, without its line break.
pub open spec fn content_type_line(c: ContentType) -> Seq<u8> {
    "Content-Type".spec_bytes() + ": ".spec_bytes() + content_type_token(c).spec_bytes()
}

/// A content length line as the encoder writes it, without its line break.
pub open spec fn content_length_line(len: nat) -> Seq<u8> {
    "Content-Length".spec_bytes() + ": ".spec_bytes() + decimal(len)
}

proof fn lemma_token(c: ContentType)
    ensures
        content_type_token(c).spec_bytes().len() > 0,
        no_cr(content_type_token(c).spec_bytes()),
        !is_space(content_type_token(c).spec_bytes()[0]),
{
    reveal_strlit("text/plain");
    assert(is_ascii("text/plain"));
    reveal_strlit("application/json");
    assert(is_ascii("application/json"));
    reveal_strlit("application/cbor");
    assert(is_ascii("application/cbor"));
    reveal_strlit("application/octet-stream");
    assert(is_ascii("application/octet-stream"));
}

proof fn lemma_names()
    ensures
        "Content-Type".spec_bytes() =~= seq![67u8, 111, 110, 116, 101, 110, 116, 45, 84, 121, 112, 101],
        "Content-Length".spec_bytes() =~= seq![67u8, 111, 110, 116, 101, 110, 116, 45, 76, 101, 110, 103, 116, 104],
        content_type_name() =~= seq![99u8, 111, 110, 116, 101, 110, 116, 45, 116, 121, 112, 101],
        content_length_name() =~= seq![99u8, 111, 110, 116, 101, 110, 116, 45, 108, 101, 110, 103, 116, 104],
        ": ".spec_bytes() =~= seq![58u8, 32],
        "\r\n".spec_bytes() =~= seq![13u8, 10],
        status_token() =~= seq![72u8, 84, 84, 80],
{
    reveal_strlit("Content-Type");
    assert(is_ascii("Content-Type"));
    reveal_strlit("Content-Length");
    assert(is_ascii("Content-Length"));
    reveal_strlit("content-type");
    assert(is_ascii("content-type"));
    reveal_strlit("content-length");
    assert(is_ascii("content-length"));
    reveal_strlit(": ");
    assert(is_ascii(": "));
    reveal_strlit("\r\n");
    assert(is_ascii("\r\n"));
    reveal_strlit("HTTP");
    assert(is_ascii("HTTP"));
}

proof fn lemma_content_type_line(s: Seq<u8>, a: int, c: ContentType, h: Head)
    requires
        0 <= a,
        a + content_type_line(c).len() <= s.len(),
        a + content_type_line(c).len() <= usize::MAX,
        s.subrange(a, a + content_type_line(c).len()) == content_type_line(c),
    ensures
        no_cr(content_type_line(c)),
        content_type_line(c).len() == 14 + content_type_token(c).spec_bytes().len(),
        apply_line(s, a, a + content_type_line(c).len(), h) == Some(
            Head { content_type: Some(((a + 14) as usize, (a + content_type_line(c).len()) as usize)), ..h },
        ),
        s.subrange(a + 14, a + content_type_line(c).len()) == content_type_token(c).spec_bytes(),
{
    lemma_names();
    lemma_token(c);
    let t = content_type_token(c).spec_bytes();
    let l = content_type_line(c);
    let b = a + l.len();
    assert forall|i: int| 0 <= i < l.len() implies l[i] != 13 by {
        if i >= 14 {
            assert(l[i] == t[i - 14]);
        }
    }
    let line = s.subrange(a, b);
    assert(line =~= l);
    assert(line.take(4)[0] != status_token()[0]);
    let name = content_type_name();
    assert forall|i: int| 0 <= i < name.len() implies #[trigger] ascii_lower(line[i]) == ascii_lower(name[i]) by {
        assert(i == 0 || i == 1 || i == 2 || i == 3 || i == 4 || i == 5 || i == 6 || i == 7 || i == 8
            || i == 9 || i == 10 || i == 11);
    }
    assert(has_name_prefix(line, name));
    assert(line[13] == s[a + 13] && line[14] == s[a + 14]);
    assert(l[13] == 32 && l[14] == t[0]);
    assert(skip_space(s, a + 14, b) == a + 14);
    assert(skip_space(s, a + 13, b) == a + 14);
    assert(value_start(s, a, b, name) == a + 14);
    assert forall|i: int| 0 <= i < t.len() implies s.subrange(a + 14, b)[i] == t[i] by {
        assert(s.subrange(a + 14, b)[i] == line[14 + i]);
        assert(l[14 + i] == t[i]);
    }
    assert(s.subrange(a + 14, b) =~= t);
}

proof fn lemma_content_length_line(s: Seq<u8>, a: int, len: nat, h: Head)
    requires
        0 <= a,
        a + content_length_line(len).len() <= s.len(),
        len <= usize::MAX,
        s.subrange(a, a + content_length_line(len).len()) == content_length_line(len),
    ensures
        no_cr(content_length_line(len)),
        apply_line(s, a, a + content_length_line(len).len(), h) == Some(
            Head { content_length: len as usize, ..h },
        ),
{
    lemma_names();
    lemma_decimal_no_cr(len);
    lemma_decimal_digits(len);
    let d = decimal(len);
    let l = content_length_line(len);
    let b = a + l.len();
    assert forall|i: int| 0 <= i < l.len() implies l[i] != 13 by {
        if i >= 16 {
            assert(l[i] == d[i - 16]);
        }
    }
    let line = s.subrange(a, b);
    assert(line =~= l);
    assert(line.take(4)[0] != status_token()[0]);
    assert(ascii_lower(line[8]) != ascii_lower(content_type_name()[8]));
    let name = content_length_name();
    assert forall|i: int| 0 <= i < name.len() implies #[trigger] ascii_lower(line[i]) == ascii_lower(name[i]) by {
        assert(i == 0 || i == 1 || i == 2 || i == 3 || i == 4 || i == 5 || i == 6 || i == 7 || i == 8
            || i == 9 || i == 10 || i == 11 || i == 12 || i == 13);
    }
    assert(has_name_prefix(line, name));
    assert(line[15] == s[a + 15] && line[16] == s[a + 16]);
    assert(l[15] == 32 && l[16] == d[0]);
    assert(skip_space(s, a + 16, b) == a + 16);
    assert(skip_space(s, a + 15, b) == a + 16);
    assert(value_start(s, a, b, name) == a + 16);
    assert forall|i: int| 0 <= i < d.len() implies s.subrange(a + 16, b)[i] == d[i] by {
        assert(s.subrange(a + 16, b)[i] == line[16 + i]);
        assert(l[16 + i] == d[i]);
    }
    assert(s.subrange(a + 16, b) =~= d);
    lemma_decimal_round_trip(len, usize::MAX as nat);
}

proof fn lemma_front(p: Seq<u8>, q: Seq<u8>, i: int, j: int)
    requires
        0 <= i <= j <= p.len(),
    ensures
        (p + q).subrange(i, j) == p.subrange(i, j),
{
    assert((p + q).subrange(i, j) =~= p.subrange(i, j));
}

proof fn lemma_back(p: Seq<u8>, q: Seq<u8>, i: int, j: int)
    requires
        p.len() <= i <= j <= p.len() + q.len(),
    ensures
        (p + q).subrange(i, j) == q.subrange(i - p.len(), j - p.len()),
{
    assert((p + q).subrange(i, j) =~= q.subrange(i - p.len(), j - p.len()));
}

proof fn lemma_decimal_utf8(n: nat)
    ensures
        valid_utf8(decimal(n)),
{
    lemma_decimal_digits(n);
    let d = decimal(n);
    assert(d.subrange(0, 0) =~= Seq::<u8>::empty());
    assert(partial_valid_utf8(d, 0));
    partial_valid_utf8_extend_ascii_block(d, 0, d.len() as int);
    assert(d.subrange(0, d.len() as int) =~= d);
}

proof fn lemma_response_head_utf8(code: nat, c: ContentType, len: nat)
    ensures
        valid_utf8(response_head(code, c, len)),
{
    broadcast use encode_utf8_valid_utf8, valid_utf8_concat;

    lemma_decimal_utf8(code);
    lemma_decimal_utf8(len);
    assert(valid_utf8("HTTP/1.1 ".spec_bytes()));
    assert(valid_utf8(" OK".spec_bytes()));
    assert(valid_utf8("\r\n".spec_bytes()));
    assert(valid_utf8(": ".spec_bytes()));
    assert(valid_utf8("Content-Type".spec_bytes()));
    assert(valid_utf8("Content-Length".spec_bytes()));
    assert(valid_utf8(content_type_token(c).spec_bytes()));
    assert(valid_utf8(status_line(code)));
    let t = content_type_token(c).spec_bytes();
    let d = decimal(len);
    assert(valid_utf8("Content-Type".spec_bytes() + ": ".spec_bytes()));
    assert(valid_utf8("Content-Type".spec_bytes() + ": ".spec_bytes() + t));
    assert(valid_utf8("Content-Type".spec_bytes() + ": ".spec_bytes() + t + "\r\n".spec_bytes()));
    assert(valid_utf8("Content-Length".spec_bytes() + ": ".spec_bytes()));
    assert(valid_utf8("Content-Length".spec_bytes() + ": ".spec_bytes() + d));
    assert(valid_utf8("Content-Length".spec_bytes() + ": ".spec_bytes() + d + "\r\n".spec_bytes()));
    assert(valid_utf8(header_line("Content-Type".spec_bytes(), t)));
    assert(valid_utf8(header_line("Content-Length".spec_bytes(), d)));
    assert(valid_utf8(status_line(code) + "\r\n".spec_bytes()));
    assert(valid_utf8(status_line(code) + "\r\n".spec_bytes() + header_line("Content-Type".spec_bytes(), t)));
    assert(valid_utf8(status_line(code) + "\r\n".spec_bytes() + header_line("Content-Type".spec_bytes(), t)
        + header_line("Content-Length".spec_bytes(), d)));
}

#[verifier::rlimit(100)]
proof fn lemma_response_head_lines(code: nat, c: ContentType, len: nat)
    requires
        100 <= code <= 999,
        len <= usize::MAX,
    ensures
        ({
            let s = response_head(code, c, len);
            &&& parse_lines(s, 0, initial_head()) matches Some(h)
            &&& h.status == status_of(code as u32)
            &&& h.content_length == len
            &&& h.content_type matches Some((a, b))
            &&& s.subrange(a as int, b as int) == content_type_token(c).spec_bytes()
        }),
{
    lemma_names();
    lemma_token(c);
    lemma_decimal_three_digits(code);
    reveal_strlit("HTTP/1.1 ");
    assert(is_ascii("HTTP/1.1 "));
    reveal_strlit(" OK");
    assert(is_ascii(" OK"));
    let s = response_head(code, c, len);
    let sl = status_line(code);
    let ctl = content_type_line(c);
    let cll = content_length_line(len);
    let t = content_type_token(c).spec_bytes();
    let cr = crlf();
    assert(sl.len() == 15);
    assert(ctl.len() == 14 + t.len());
    assert(t.len() <= 24) by {
        reveal_strlit("text/plain");
        assert(is_ascii("text/plain"));
        reveal_strlit("application/json");
        assert(is_ascii("application/json"));
        reveal_strlit("application/cbor");
        assert(is_ascii("application/cbor"));
        reveal_strlit("application/octet-stream");
        assert(is_ascii("application/octet-stream"));
    }
    let with_status = sl + cr;
    let with_type = with_status + (ctl + cr);
    let with_length = with_type + (cll + cr);
    assert(header_line("Content-Type".spec_bytes(), t) =~= ctl + cr);
    assert(header_line("Content-Length".spec_bytes(), decimal(len)) =~= cll + cr);
    assert(s =~= with_length + cr);
    let ct_end: int = 17 + ctl.len() as int;
    let cl_start: int = ct_end + 2;
    let cl_end: int = cl_start + cll.len() as int;
    let blank_start: int = cl_end + 2;
    let block_end: int = blank_start + 2;
    assert(with_status.len() == 17 && with_type.len() == cl_start && with_length.len() == blank_start && s.len() == block_end);
    // the status line and its line break
    lemma_front(with_length, cr, 0, 15);
    lemma_front(with_type, cll + cr, 0, 15);
    lemma_front(with_status, ctl + cr, 0, 15);
    lemma_front(sl, cr, 0, 15);
    assert(sl.subrange(0, 15) =~= sl);
    lemma_front(with_length, cr, 15, 17);
    lemma_front(with_type, cll + cr, 15, 17);
    lemma_front(with_status, ctl + cr, 15, 17);
    lemma_back(sl, cr, 15, 17);
    assert(cr.subrange(0, 2) =~= cr);
    let h0 = initial_head();
    lemma_status_line(s, 0, code, h0);
    let h1 = Head { status: status_of(code as u32), ..h0 };
    lemma_line_ends(s, 0, 15);
    assert(parse_lines(s, 0, h0) == parse_lines(s, 17, h1));
    // the content type line and its line break
    let ct_len = ctl.len() as int;
    lemma_front(with_length, cr, 17, ct_end);
    lemma_front(with_type, cll + cr, 17, ct_end);
    lemma_back(with_status, ctl + cr, 17, ct_end);
    lemma_front(ctl, cr, 0, ct_len);
    assert(ctl.subrange(0, ct_len) =~= ctl);
    lemma_front(with_length, cr, ct_end, cl_start);
    lemma_front(with_type, cll + cr, ct_end, cl_start);
    lemma_back(with_status, ctl + cr, ct_end, cl_start);
    lemma_back(ctl, cr, ct_len, ct_len + 2);
    lemma_content_type_line(s, 17, c, h1);
    let h2 = Head { content_type: Some((31usize, ct_end as usize)), ..h1 };
    lemma_line_ends(s, 17, ctl.len() as int);
    assert(parse_lines(s, 17, h1) == parse_lines(s, cl_start, h2));
    // the content length line and its line break
    let cl_len = cll.len() as int;
    lemma_front(with_length, cr, cl_start, cl_end);
    lemma_back(with_type, cll + cr, cl_start, cl_end);
    lemma_front(cll, cr, 0, cl_len);
    assert(cll.subrange(0, cl_len) =~= cll);
    lemma_front(with_length, cr, cl_end, blank_start);
    lemma_back(with_type, cll + cr, cl_end, blank_start);
    lemma_back(cll, cr, cl_len, cl_len + 2);
    lemma_content_length_line(s, cl_start, len, h2);
    let h3 = Head { content_length: len as usize, ..h2 };
    lemma_line_ends(s, cl_start, cll.len() as int);
    assert(parse_lines(s, cl_start, h2) == parse_lines(s, blank_start, h3));
    // the blank line
    lemma_back(with_length, cr, blank_start, block_end);
    assert(s.subrange(blank_start, blank_start) =~= Seq::<u8>::empty());
    lemma_line_ends(s, blank_start, 0);
    lemma_empty_line(s, blank_start, h3);
    assert(parse_lines(s, blank_start, h3) == parse_lines(s, block_end, h3));
    // the end of the block
    assert(s.subrange(block_end, block_end) =~= Seq::<u8>::empty());
    lemma_first_occurrence(s.subrange(block_end, block_end), cr, None);
    lemma_empty_line(s, block_end, h3);
    assert(parse_lines(s, block_end, h3) == Some(h3));
}

/// A response head as a peer writes it, with a three-digit status code, a content type
/// and a content length, is read back as that status (or `BadRequest` for a code outside
/// the supported set), that content type and that length.
pub proof fn lemma_response_head_round_trip(code: nat, c: ContentType, len: nat)
    requires
        100 <= code <= 999,
        len <= usize::MAX,
    ensures
        ({
            let s = response_head(code, c, len);
            &&& parse_header(s) matches Some(h)
            &&& h.status == status_of(code as u32)
            &&& h.content_length == len
            &&& h.content_type matches Some((a, b))
            &&& s.subrange(a as int, b as int) == content_type_token(c).spec_bytes()
        }),
{
    lemma_response_head_lines(code, c, len);
    lemma_response_head_utf8(code, c, len);
}

} // verus!
