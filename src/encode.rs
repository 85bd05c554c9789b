use vstd::prelude::*;
use vstd::string::StringSliceAdditionalSpecFns;
use crate::client::Error;
use crate::number::decimal;
use crate::request::{Auth, Request, content_type_token, method_token};

verus! {

/// Most bytes that `username:password` may take before it is encoded.
pub const CREDENTIALS_CAPACITY: usize = 128;

#[verifier::external_type_specification]
#[verifier::external_body]
pub struct ExBoundedString<const N: usize>(heapless::String<N>);

/// The bytes that a bounded credentials buffer holds.
pub uninterp spec fn bounded_bytes(s: heapless::String<CREDENTIALS_CAPACITY>) -> Seq<u8>;

/// Relies on heapless::String::new: an empty string.
#[verifier::external_body]
fn bounded_new() -> (r: heapless::String<CREDENTIALS_CAPACITY>)
    ensures
        bounded_bytes(r) == Seq::<u8>::empty(),
{
    heapless::String::new()
}

/// Relies on heapless::String::push_str: appends the text where the result fits the
/// capacity, and otherwise fails and leaves the string as it was.
#[verifier::external_body]
fn bounded_push(s: &mut heapless::String<CREDENTIALS_CAPACITY>, t: &str) -> (ok: bool)
    ensures
        ok == (bounded_bytes(*old(s)).len() + t.spec_bytes().len() <= CREDENTIALS_CAPACITY),
        ok ==> bounded_bytes(*final(s)) == bounded_bytes(*old(s)) + t.spec_bytes(),
        !ok ==> bounded_bytes(*final(s)) == bounded_bytes(*old(s)),
{
    s.push_str(t).is_ok()
}

/// Relies on heapless::String::as_str: the text made of the bytes held.
#[verifier::external_body]
fn bounded_str(s: &heapless::String<CREDENTIALS_CAPACITY>) -> (r: &str)
    ensures
        r.spec_bytes() == bounded_bytes(*s),
{
    s.as_str()
}

/// The standard base64 encoding of `b`, with padding.
pub uninterp spec fn base64_of(b: Seq<u8>) -> Seq<u8>;

/// Relies on base64::encode_config_slice with base64::STANDARD: writes the padded
/// standard base64 of the input to the front of the output and gives its length. The
/// output holds 256 bytes, room for the encoding of 192 input bytes.
#[verifier::external_body]
fn base64_standard(b: &[u8]) -> (r: Vec<u8>)
    requires
        b@.len() <= 192,
    ensures
        r@ == base64_of(b@),
{
    let mut out = [0u8; 256];
    let n = base64::encode_config_slice(b, base64::STANDARD, &mut out);
    out[..n].to_vec()
}

/// The header line `name: value\r\n`.
pub open spec fn header_line(name: Seq<u8>, value: Seq<u8>) -> Seq<u8> {
    name + ": ".spec_bytes() + value + "\r\n".spec_bytes()
}

/// `username:password`, as Basic credentials join them.
pub open spec fn credentials(username: &str, password: &str) -> Seq<u8> {
    username.spec_bytes() + ":".spec_bytes() + password.spec_bytes()
}

/// The credentials fit the bounded buffer they are joined in.
pub open spec fn auth_fits(auth: Option<Auth>) -> bool {
    match auth {
        None => true,
        Some(Auth::Basic { username, password }) => credentials(username, password).len()
            <= CREDENTIALS_CAPACITY,
    }
}

/// The `Authorization` line for `auth`, empty where there is none.
pub open spec fn auth_lines(auth: Option<Auth>) -> Seq<u8> {
    match auth {
        None => Seq::empty(),
        Some(Auth::Basic { username, password }) => "Authorization: Basic ".spec_bytes()
            + base64_of(credentials(username, password)) + "\r\n".spec_bytes(),
    }
}

/// The extra header lines, in order.
pub open spec fn extra_lines(hs: Seq<(&str, &str)>) -> Seq<u8>
    decreases hs.len(),
{
    if hs.len() == 0 {
        Seq::empty()
    } else {
        extra_lines(hs.drop_last()) + header_line(
            hs.last().0.spec_bytes(),
            hs.last().1.spec_bytes(),
        )
    }
}

/// The bytes of a request's head: request line, `Host`, the optional `Authorization`,
/// `Content-Type` and `Content-Length` lines, the extra headers, and a blank line.
pub open spec fn request_head(req: Request, host: &str) -> Seq<u8> {
    let path = match req.path {
        Some(p) => p.spec_bytes(),
        None => "/".spec_bytes(),
    };
    let content_type = match req.content_type {
        Some(c) => header_line("Content-Type".spec_bytes(), content_type_token(c).spec_bytes()),
        None => Seq::empty(),
    };
    let content_length = match req.payload {
        Some(p) => header_line("Content-Length".spec_bytes(), decimal(p@.len())),
        None => Seq::empty(),
    };
    let extra = match req.extra_headers {
        Some(hs) => extra_lines(hs@),
        None => Seq::empty(),
    };
    method_token(req.method).spec_bytes() + " ".spec_bytes() + path + " HTTP/1.1\r\n".spec_bytes()
        + header_line("Host".spec_bytes(), host.spec_bytes()) + auth_lines(req.auth)
        + content_type + content_length + extra + "\r\n".spec_bytes()
}

/// Appends `s` to `v`.
fn append(v: &mut Vec<u8>, s: &[u8])
    ensures
        final(v)@ == old(v)@ + s@,
{
    let mut i: usize = 0;
    while i < s.len()
        invariant
            i <= s@.len(),
            v@ == old(v)@ + s@.take(i as int),
        decreases s@.len() - i,
    {
        v.push(s[i]);
        i = i + 1;
        assert(s@.take(i as int) =~= s@.take(i - 1).push(s@[i - 1]));
    }
    assert(s@.take(i as int) =~= s@);
}

/// Appends the decimal digits of `n` to `v`.
fn append_decimal(v: &mut Vec<u8>, n: usize)
    ensures
        final(v)@ == old(v)@ + decimal(n as nat),
    decreases n,
{
    if n >= 10 {
        append_decimal(v, n / 10);
    }
    v.push((48 + n % 10) as u8);
    assert(v@ =~= old(v)@ + decimal(n as nat));
}

/// Appends the header line `name: value\r\n` to `v`.
fn append_header(v: &mut Vec<u8>, name: &[u8], value: &[u8])
    ensures
        final(v)@ == old(v)@ + header_line(name@, value@),
{
    append(v, name);
    append(v, ": ".as_bytes());
    append(v, value);
    append(v, "\r\n".as_bytes());
    assert(v@ =~= old(v)@ + header_line(name@, value@));
}

/// Encodes the head of `req` for the target `host`: everything that goes on the wire
/// before the payload. Fails with a codec error where Basic credentials joined as
/// `username:password` take more than the bounded buffer holds.
pub fn encode_head(req: &Request, host: &str) -> (r: Result<Vec<u8>, Error>)
    ensures
        r is Ok <==> auth_fits(req.auth),
        r is Err ==> r == Err::<Vec<u8>, Error>(Error::Codec),
        r matches Ok(v) ==> v@ == request_head(*req, host),
{
    let mut v: Vec<u8> = Vec::new();
    append(&mut v, req.method.as_str().as_bytes());
    append(&mut v, " ".as_bytes());
    match req.path {
        Some(p) => append(&mut v, p.as_bytes()),
        None => append(&mut v, "/".as_bytes()),
    }
    append(&mut v, " HTTP/1.1\r\n".as_bytes());
    append_header(&mut v, "Host".as_bytes(), host.as_bytes());
    let ghost after_host = v@;
    match req.auth {
        Some(Auth::Basic { username, password }) => {
            let mut joined = bounded_new();
            let ok = bounded_push(&mut joined, username) && bounded_push(&mut joined, ":")
                && bounded_push(&mut joined, password);
            if !ok {
                return Err(Error::Codec);
            }
            let joined = bounded_str(&joined).as_bytes();
            assert(joined@ =~= credentials(username, password));
            let encoded = base64_standard(joined);
            append(&mut v, "Authorization: Basic ".as_bytes());
            append(&mut v, encoded.as_slice());
            append(&mut v, "\r\n".as_bytes());
        },
        None => {},
    }
    assert(v@ =~= after_host + auth_lines(req.auth));
    match req.content_type {
        Some(c) => append_header(&mut v, "Content-Type".as_bytes(), c.as_str().as_bytes()),
        None => {},
    }
    match req.payload {
        Some(p) => {
            let mut digits: Vec<u8> = Vec::new();
            append_decimal(&mut digits, p.len());
            assert(digits@ =~= decimal(p@.len()));
            append_header(&mut v, "Content-Length".as_bytes(), digits.as_slice());
        },
        None => {},
    }
    match req.extra_headers {
        Some(hs) => {
            let ghost before = v@;
            let mut i: usize = 0;
            while i < hs.len()
                invariant
                    i <= hs@.len(),
                    v@ == before + extra_lines(hs@.take(i as int)),
                decreases hs@.len() - i,
            {
                let (name, value) = hs[i];
                append_header(&mut v, name.as_bytes(), value.as_bytes());
                i = i + 1;
                assert(hs@.take(i as int).drop_last() =~= hs@.take(i - 1));
            }
            assert(hs@.take(i as int) =~= hs@);
        },
        None => {},
    }
    append(&mut v, "\r\n".as_bytes());
    assert(v@ =~= request_head(*req, host));
    Ok(v)
}

} // verus!
