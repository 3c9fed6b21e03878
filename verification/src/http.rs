//! HTTP/1.1 plumbing the connectors share: URL parsing and response
//! parsing.  The sockets and TLS live in the surrounding program; the
//! functions here work on bytes and text alone.

use vstd::prelude::*;
use vstd::string::*;

use crate::num::all_digits;
use crate::num::dec_value_of;
use crate::num::hex_value_of;
use crate::num::all_hex_digits;
use crate::text::chars_to_string;
use crate::text::contains_seq;
use crate::text::find_char;
use crate::text::split_char_seq;
use crate::text::str_to_chars;
use crate::text::subrange_chars;
use crate::text::trim_spec;

verus! {

/// A complete HTTP response.
pub struct HttpResponse {
    pub status: u16,
    pub headers: Vec<(String, String)>,
    pub body: Vec<u8>,
}

/// Error from the HTTP layer.
#[derive(Debug)]
pub enum HttpError {
    InvalidUrl(String),
    Dns(String),
    Connect(String),
    Tls(String),
    Io(String),
    Timeout,
    Protocol(String),
}

// ── URLs ────────────────────────────────────────────────────────────────────

/// A URL taken apart: host, port and path.
#[derive(Debug)]
pub struct ParsedUrl {
    pub host: String,
    pub port: u16,
    pub path: String,
}

/// What a URL text means: an `https://` scheme, a host, an optional port
/// (443 otherwise), and a path (`/` otherwise); or the error text.
pub open spec fn url_spec(url: Seq<char>) -> Result<(Seq<char>, u16, Seq<char>), Seq<char>> {
    if !"https://"@.is_prefix_of(url) {
        Err("URL must start with https://"@)
    } else {
        let rest = url.skip(8);
        let si = find_char(rest, '/');
        let host_port = if 0 <= si < rest.len() {
            rest.take(si)
        } else {
            rest
        };
        let path = if 0 <= si < rest.len() {
            rest.skip(si)
        } else {
            "/"@
        };
        let ci = find_char(host_port, ':');
        if 0 <= ci < host_port.len() {
            let h = host_port.take(ci);
            let p = host_port.skip(ci + 1);
            if p.len() > 0 && all_digits(p) && dec_value_of(p) <= u16::MAX {
                if h.len() == 0 {
                    Err("empty host"@)
                } else {
                    Ok((h, dec_value_of(p) as u16, path))
                }
            } else {
                Err("invalid port"@)
            }
        } else {
            if host_port.len() == 0 {
                Err("empty host"@)
            } else {
                Ok((host_port, 443u16, path))
            }
        }
    }
}

/// Take a URL apart; only `https` URLs are accepted.
pub fn parse_url(url: &str) -> (r: Result<ParsedUrl, HttpError>)
    ensures
        match r {
            Ok(u) => url_spec(url@) == Ok::<_, Seq<char>>((u.host@, u.port, u.path@)),
            Err(e) => e matches HttpError::InvalidUrl(m) && url_spec(url@) == Err::<
                (Seq<char>, u16, Seq<char>),
                _,
            >(m@),
        },
{
    let chars = str_to_chars(url);
    let scheme = str_to_chars("https://");
    if !crate::text::is_prefix_chars(&scheme, &chars) {
        return Err(HttpError::InvalidUrl(String::from_str("URL must start with https://")));
    }
    proof {
        reveal_strlit("https://");
    }
    let n = chars.len();
    let rest = subrange_chars(&chars, 8, n);
    proof {
        assert(rest@ =~= chars@.skip(8));
    }
    let (host_port, path) = match crate::text::find_in_chars(&rest, '/') {
        Some(si) => {
            let hp = subrange_chars(&rest, 0, si);
            let pa = subrange_chars(&rest, si, rest.len());
            proof {
                assert(hp@ =~= rest@.take(si as int));
                assert(pa@ =~= rest@.skip(si as int));
            }
            (hp, pa)
        },
        None => {
            let pa = str_to_chars("/");
            (rest, pa)
        },
    };
    let (host, port) = match crate::text::find_in_chars(&host_port, ':') {
        Some(ci) => {
            let h = subrange_chars(&host_port, 0, ci);
            let p = subrange_chars(&host_port, ci + 1, host_port.len());
            proof {
                assert(h@ =~= host_port@.take(ci as int));
                assert(p@ =~= host_port@.skip(ci as int + 1));
            }
            match crate::num::parse_u64_chars(&p) {
                Some(v) if v <= 65535 => (h, v as u16),
                _ => {
                    return Err(HttpError::InvalidUrl(String::from_str("invalid port")));
                },
            }
        },
        None => (host_port, 443u16),
    };
    if host.len() == 0 {
        return Err(HttpError::InvalidUrl(String::from_str("empty host")));
    }
    Ok(
        ParsedUrl {
            host: chars_to_string(&host),
            port,
            path: chars_to_string(&path),
        },
    )
}

// ── Status line and headers ─────────────────────────────────────────────────

/// What a status line means: the numeric code between the first and second
/// blanks, or the error text.
pub open spec fn status_line_spec(line: Seq<char>) -> Result<u16, Seq<char>> {
    let i = find_char(line, ' ');
    if !(0 <= i < line.len()) {
        Err("malformed status line"@)
    } else {
        let rest = line.skip(i + 1);
        let j = find_char(rest, ' ');
        let code = if 0 <= j < rest.len() {
            rest.take(j)
        } else {
            rest
        };
        if code.len() > 0 && all_digits(code) && dec_value_of(code) <= u16::MAX {
            Ok(dec_value_of(code) as u16)
        } else {
            Err("invalid status code"@)
        }
    }
}

/// Read the status code out of a status line.
pub fn parse_status_line(line: &str) -> (r: Result<u16, HttpError>)
    ensures
        match r {
            Ok(st) => status_line_spec(line@) == Ok::<_, Seq<char>>(st),
            Err(e) => e matches HttpError::Protocol(m) && status_line_spec(line@) == Err::<
                u16,
                _,
            >(m@),
        },
{
    let chars = str_to_chars(line);
    parse_status_line_chars(&chars)
}

fn parse_status_line_chars(chars: &Vec<char>) -> (r: Result<u16, HttpError>)
    ensures
        match r {
            Ok(st) => status_line_spec(chars@) == Ok::<_, Seq<char>>(st),
            Err(e) => e matches HttpError::Protocol(m) && status_line_spec(chars@) == Err::<
                u16,
                _,
            >(m@),
        },
{
    let i = match crate::text::find_in_chars(chars, ' ') {
        Some(i) => i,
        None => {
            return Err(HttpError::Protocol(String::from_str("malformed status line")));
        },
    };
    let n = chars.len();
    proof {
        assert(i < n);
    }
    let rest = subrange_chars(chars, i + 1, n);
    proof {
        assert(rest@ =~= chars@.skip(i as int + 1));
    }
    let code = match crate::text::find_in_chars(&rest, ' ') {
        Some(j) => {
            let c = subrange_chars(&rest, 0, j);
            proof {
                assert(c@ =~= rest@.take(j as int));
            }
            c
        },
        None => rest,
    };
    match crate::num::parse_u64_chars(&code) {
        Some(v) if v <= 65535 => Ok(v as u16),
        _ => Err(HttpError::Protocol(String::from_str("invalid status code"))),
    }
}

/// A header list as name/value character sequences.
pub open spec fn headers_view(hs: Seq<(String, String)>) -> Seq<(Seq<char>, Seq<char>)> {
    Seq::new(hs.len(), |i: int| (hs[i].0@, hs[i].1@))
}

/// The value of the first header with this (already lowercased) name.
pub open spec fn find_header(headers: Seq<(Seq<char>, Seq<char>)>, key: Seq<char>) -> Option<
    Seq<char>,
>
    decreases headers.len(),
{
    if headers.len() == 0 {
        None
    } else if headers[0].0 == key {
        Some(headers[0].1)
    } else {
        find_header(headers.skip(1), key)
    }
}

/// Look a header up by its lowercase name.
pub fn get_header<'a>(headers: &'a Vec<(String, String)>, key: &str) -> (r: Option<&'a String>)
    ensures
        match r {
            Some(v) => find_header(headers_view(headers@), key@) == Some(v@),
            None => find_header(headers_view(headers@), key@) is None,
        },
{
    let ghost hv = headers_view(headers@);
    let target = str_to_chars(key);
    let n = headers.len();
    let mut i: usize = 0;
    proof {
        assert(hv.skip(0) =~= hv);
    }
    while i < n
        invariant
            i <= n,
            n == headers@.len(),
            hv == headers_view(headers@),
            target@ == key@,
            find_header(hv, key@) == find_header(hv.skip(i as int), key@),
        decreases n - i,
    {
        proof {
            assert(hv.skip(i as int)[0] == hv[i as int]);
            assert(hv.skip(i as int).skip(1) =~= hv.skip(i + 1));
        }
        let hk = str_to_chars(headers[i].0.as_str());
        if crate::text::eq_chars(&hk, &target) {
            return Some(&headers[i].1);
        }
        i = i + 1;
    }
    None
}


// ── Bytes ───────────────────────────────────────────────────────────────────

/// Only 7-bit bytes.
pub open spec fn ascii_bytes(bs: Seq<u8>) -> bool {
    forall|i: int| 0 <= i < bs.len() ==> (#[trigger] bs[i]) < 128
}

/// 7-bit bytes read as characters.
pub open spec fn chars_of_bytes(bs: Seq<u8>) -> Seq<char> {
    Seq::new(bs.len(), |i: int| bs[i] as char)
}

/// Copy `v[from..to]` into a fresh vector.
fn subrange_bytes(v: &[u8], from: usize, to: usize) -> (r: Vec<u8>)
    requires
        from <= to <= v@.len(),
    ensures
        r@ == v@.subrange(from as int, to as int),
{
    let mut r: Vec<u8> = Vec::new();
    let mut i: usize = from;
    while i < to
        invariant
            from <= i <= to <= v@.len(),
            r@ == v@.subrange(from as int, i as int),
        decreases to - i,
    {
        r.push(v[i]);
        proof {
            assert(r@ =~= v@.subrange(from as int, i + 1));
        }
        i = i + 1;
    }
    r
}

/// Decode `v[from..to]` as characters; fails on any non-ASCII byte.
fn ascii_chars_range(v: &[u8], from: usize, to: usize) -> (r: Option<Vec<char>>)
    requires
        from <= to <= v@.len(),
    ensures
        match r {
            Some(cs) => ascii_bytes(v@.subrange(from as int, to as int)) && cs@ == chars_of_bytes(
                v@.subrange(from as int, to as int),
            ),
            None => !ascii_bytes(v@.subrange(from as int, to as int)),
        },
{
    let ghost sub = v@.subrange(from as int, to as int);
    let mut r: Vec<char> = Vec::new();
    let mut i: usize = from;
    while i < to
        invariant
            from <= i <= to <= v@.len(),
            sub == v@.subrange(from as int, to as int),
            r@ == chars_of_bytes(sub).take(i - from),
            ascii_bytes(sub.take(i - from)),
        decreases to - i,
    {
        let b = v[i];
        if b >= 128 {
            proof {
                assert(sub[i - from] == v@[i as int]);
            }
            return None;
        }
        r.push(b as char);
        proof {
            assert(sub[i - from] == v@[i as int]);
            assert(r@ =~= chars_of_bytes(sub).take(i + 1 - from));
            assert(sub.take(i + 1 - from).drop_last() =~= sub.take(i - from));
            assert(ascii_bytes(sub.take(i + 1 - from)));
        }
        i = i + 1;
    }
    proof {
        assert(chars_of_bytes(sub).take(to - from) =~= chars_of_bytes(sub));
        assert(sub.take(to - from) =~= sub);
    }
    Some(r)
}

/// First index at or after `i` where a CRLF pair begins.
pub open spec fn crlf_from(data: Seq<u8>, i: int) -> Option<int>
    decreases data.len() - i,
{
    if i < 0 || i + 2 > data.len() {
        None
    } else if data[i] == 13 && data[i + 1] == 10 {
        Some(i)
    } else {
        crlf_from(data, i + 1)
    }
}

/// Find the next CRLF pair at or after `start`.
pub fn find_crlf(data: &[u8], start: usize) -> (r: Option<usize>)
    ensures
        match r {
            Some(i) => crlf_from(data@, start as int) == Some(i as int) && start <= i && i + 2
                <= data@.len() && data@[i as int] == 13 && data@[i as int + 1] == 10,
            None => crlf_from(data@, start as int) is None,
        },
{
    let n = data.len();
    if n < 2 {
        return None;
    }
    let mut i: usize = start;
    while i <= n - 2
        invariant
            start <= i,
            2 <= n == data@.len(),
            crlf_from(data@, start as int) == crlf_from(data@, i as int),
        decreases n - i,
    {
        if data[i] == 13 && data[i + 1] == 10 {
            return Some(i);
        }
        i = i + 1;
    }
    None
}

/// First index where the header/body boundary `\r\n\r\n` begins.
pub open spec fn header_end_from(data: Seq<u8>, i: int) -> Option<int>
    decreases data.len() - i,
{
    if i < 0 || i + 4 > data.len() {
        None
    } else if data[i] == 13 && data[i + 1] == 10 && data[i + 2] == 13 && data[i + 3] == 10 {
        Some(i)
    } else {
        header_end_from(data, i + 1)
    }
}

/// Find the header/body boundary.
pub fn find_header_end(data: &[u8]) -> (r: Option<usize>)
    ensures
        match r {
            Some(i) => header_end_from(data@, 0) == Some(i as int) && i + 4 <= data@.len(),
            None => header_end_from(data@, 0) is None,
        },
{
    let n = data.len();
    if n < 4 {
        return None;
    }
    let mut i: usize = 0;
    while i <= n - 4
        invariant
            4 <= n == data@.len(),
            header_end_from(data@, 0) == header_end_from(data@, i as int),
        decreases n - i,
    {
        if data[i] == 13 && data[i + 1] == 10 && data[i + 2] == 13 && data[i + 3] == 10 {
            return Some(i);
        }
        i = i + 1;
    }
    None
}

// ── Chunked bodies ──────────────────────────────────────────────────────────

/// The hexadecimal part of a chunk-size line: the text up to any `;`
/// extension, trimmed.
pub open spec fn size_hex_of(size_bytes: Seq<u8>) -> Seq<char> {
    let text = trim_spec(chars_of_bytes(size_bytes));
    let k = find_char(text, ';');
    let first = if 0 <= k < text.len() {
        text.take(k)
    } else {
        text
    };
    trim_spec(first)
}

/// Decode a chunked body from `pos` on: size lines in hexadecimal, chunk
/// data, a zero-size chunk ending the body.  A final chunk cut short by the
/// end of the data is kept.
pub open spec fn decode_chunked_spec(data: Seq<u8>, pos: int) -> Result<Seq<u8>, Seq<char>>
    decreases data.len() - pos,
{
    if !(0 <= pos <= data.len()) {
        Err("malformed chunked data"@)
    } else {
        match crlf_from(data, pos) {
            None => Err("malformed chunked data"@),
            Some(le0) => {
                let le = if le0 < pos {
                    pos
                } else {
                    le0
                };
                let size_bytes = data.subrange(pos, le);
                if !ascii_bytes(size_bytes) {
                    Err("chunk size not UTF-8"@)
                } else {
                    let hexpart = size_hex_of(size_bytes);
                    if hexpart.len() > 0 && all_hex_digits(hexpart) && hex_value_of(hexpart)
                        <= usize::MAX {
                        let size = hex_value_of(hexpart);
                        if size <= 0 {
                            Ok(Seq::empty())
                        } else {
                            let start = le + 2;
                            if start + size > data.len() {
                                Ok(data.skip(start))
                            } else if start + size + 2 > data.len() {
                                Err("malformed chunked data"@)
                            } else {
                                match decode_chunked_spec(data, start + size + 2) {
                                    Ok(rest) => Ok(data.subrange(start, start + size) + rest),
                                    Err(e) => Err(e),
                                }
                            }
                        }
                    } else {
                        Err("invalid chunk size: '"@ + hexpart + "'"@)
                    }
                }
            },
        }
    }
}

/// Decode a chunked body.
pub fn decode_chunked(data: &[u8]) -> (r: Result<Vec<u8>, HttpError>)
    ensures
        match r {
            Ok(body) => decode_chunked_spec(data@, 0) == Ok::<_, Seq<char>>(body@),
            Err(e) => e matches HttpError::Protocol(m) && decode_chunked_spec(data@, 0) == Err::<
                Seq<u8>,
                _,
            >(m@),
        },
{
    let n = data.len();
    let mut result: Vec<u8> = Vec::new();
    let mut pos: usize = 0;
    proof {
        assert(Seq::<u8>::empty() + Seq::<u8>::empty() =~= Seq::<u8>::empty());
    }
    loop
        invariant
            pos <= n,
            n == data@.len(),
            forall|b: Seq<u8>|
                decode_chunked_spec(data@, pos as int) == Ok::<_, Seq<char>>(b)
                    ==> decode_chunked_spec(data@, 0) == Ok::<_, Seq<char>>(result@ + b),
            forall|e: Seq<char>|
                decode_chunked_spec(data@, pos as int) == Err::<Seq<u8>, _>(e)
                    ==> decode_chunked_spec(data@, 0) == Err::<Seq<u8>, _>(e),
        decreases n - pos,
    {
        let le = match find_crlf(data, pos) {
            Some(le) => le,
            None => {
                return Err(HttpError::Protocol(String::from_str("malformed chunked data")));
            },
        };
        let size_bytes_chars = match ascii_chars_range(data, pos, le) {
            Some(cs) => cs,
            None => {
                return Err(HttpError::Protocol(String::from_str("chunk size not UTF-8")));
            },
        };
        let trimmed = crate::text::trim_chars(&size_bytes_chars);
        let first = match crate::text::find_in_chars(&trimmed, ';') {
            Some(k) => subrange_chars(&trimmed, 0, k),
            None => trimmed,
        };
        let hexpart = crate::text::trim_chars(&first);
        proof {
            assert(hexpart@ == size_hex_of(data@.subrange(pos as int, le as int)));
        }
        let size = match crate::num::parse_hex_usize_chars(&hexpart) {
            Some(sz) => sz,
            None => {
                return Err(
                    HttpError::Protocol(
                        String::from_str("invalid chunk size: '").concat(
                            chars_to_string(&hexpart).as_str(),
                        ).concat("'"),
                    ),
                );
            },
        };
        if size == 0 {
            proof {
                assert(result@ + Seq::<u8>::empty() =~= result@);
            }
            return Ok(result);
        }
        let start = le + 2;
        if size > n || start > n - size {
            let ghost pre = result@;
            let mut tail = subrange_bytes(data, start, n);
            proof {
                assert(tail@ =~= data@.skip(start as int));
            }
            result.append(&mut tail);
            proof {
                assert(result@ == pre + data@.skip(start as int));
            }
            return Ok(result);
        }
        if n - (start + size) < 2 {
            return Err(HttpError::Protocol(String::from_str("malformed chunked data")));
        }
        let ghost pre = result@;
        let mut chunk = subrange_bytes(data, start, start + size);
        result.append(&mut chunk);
        proof {
            assert(result@ == pre + data@.subrange(start as int, (start + size) as int));
            assert forall|b: Seq<u8>|
                decode_chunked_spec(data@, (start + size + 2) as int) == Ok::<_, Seq<char>>(b)
                    implies decode_chunked_spec(data@, 0) == Ok::<_, Seq<char>>(result@ + b) by {
                assert(result@ + b =~= pre + (data@.subrange(start as int, (start + size) as int)
                    + b));
            }
        }
        pos = start + size + 2;
    }
}

// ── Bodies and whole responses ──────────────────────────────────────────────

/// ASCII lowercase of one character.
pub open spec fn lower_char(c: char) -> char {
    if c == 'A' { 'a' } else if c == 'B' { 'b' } else if c == 'C' { 'c' }
    else if c == 'D' { 'd' } else if c == 'E' { 'e' } else if c == 'F' { 'f' }
    else if c == 'G' { 'g' } else if c == 'H' { 'h' } else if c == 'I' { 'i' }
    else if c == 'J' { 'j' } else if c == 'K' { 'k' } else if c == 'L' { 'l' }
    else if c == 'M' { 'm' } else if c == 'N' { 'n' } else if c == 'O' { 'o' }
    else if c == 'P' { 'p' } else if c == 'Q' { 'q' } else if c == 'R' { 'r' }
    else if c == 'S' { 's' } else if c == 'T' { 't' } else if c == 'U' { 'u' }
    else if c == 'V' { 'v' } else if c == 'W' { 'w' } else if c == 'X' { 'x' }
    else if c == 'Y' { 'y' } else if c == 'Z' { 'z' } else { c }
}

/// ASCII lowercase of a text.
pub open spec fn lower_seq(s: Seq<char>) -> Seq<char> {
    Seq::new(s.len(), |i: int| lower_char(s[i]))
}

fn lower_char_of(c: char) -> (r: char)
    ensures
        r == lower_char(c),
{
    if c == 'A' { 'a' } else if c == 'B' { 'b' } else if c == 'C' { 'c' }
    else if c == 'D' { 'd' } else if c == 'E' { 'e' } else if c == 'F' { 'f' }
    else if c == 'G' { 'g' } else if c == 'H' { 'h' } else if c == 'I' { 'i' }
    else if c == 'J' { 'j' } else if c == 'K' { 'k' } else if c == 'L' { 'l' }
    else if c == 'M' { 'm' } else if c == 'N' { 'n' } else if c == 'O' { 'o' }
    else if c == 'P' { 'p' } else if c == 'Q' { 'q' } else if c == 'R' { 'r' }
    else if c == 'S' { 's' } else if c == 'T' { 't' } else if c == 'U' { 'u' }
    else if c == 'V' { 'v' } else if c == 'W' { 'w' } else if c == 'X' { 'x' }
    else if c == 'Y' { 'y' } else if c == 'Z' { 'z' } else { c }
}

/// ASCII-lowercase a character vector.
fn lower_chars(v: &Vec<char>) -> (r: Vec<char>)
    ensures
        r@ == lower_seq(v@),
{
    let n = v.len();
    let mut r: Vec<char> = Vec::new();
    let mut i: usize = 0;
    while i < n
        invariant
            i <= n,
            n == v@.len(),
            r@ == lower_seq(v@).take(i as int),
        decreases n - i,
    {
        r.push(lower_char_of(v[i]));
        proof {
            assert(r@ =~= lower_seq(v@).take(i + 1));
        }
        i = i + 1;
    }
    proof {
        assert(lower_seq(v@).take(n as int) =~= lower_seq(v@));
    }
    r
}

/// The body a content-length header promises: that many bytes, or all of
/// them when fewer arrived.
pub open spec fn content_length_body(raw: Seq<u8>, headers: Seq<(Seq<char>, Seq<char>)>)
    -> Result<Seq<u8>, Seq<char>> {
    match find_header(headers, "content-length"@) {
        Some(cl) => if cl.len() > 0 && all_digits(cl) && dec_value_of(cl) <= usize::MAX {
            if raw.len() >= dec_value_of(cl) {
                Ok(raw.take(dec_value_of(cl)))
            } else {
                Ok(raw)
            }
        } else {
            Err("invalid content-length"@)
        },
        None => Ok(raw),
    }
}

/// The body of a response, from the raw bytes after the boundary and the
/// headers: chunked decoding when announced, a content-length prefix
/// otherwise, the raw bytes failing either.
pub open spec fn decode_body_spec(raw: Seq<u8>, headers: Seq<(Seq<char>, Seq<char>)>) -> Result<
    Seq<u8>,
    Seq<char>,
> {
    match find_header(headers, "transfer-encoding"@) {
        Some(te) => if contains_seq(lower_seq(te), "chunked"@) {
            decode_chunked_spec(raw, 0)
        } else {
            content_length_body(raw, headers)
        },
        None => content_length_body(raw, headers),
    }
}

/// Decode a response body according to its headers.
pub fn decode_body(raw: &[u8], headers: &Vec<(String, String)>) -> (r: Result<Vec<u8>, HttpError>)
    ensures
        match r {
            Ok(body) => decode_body_spec(raw@, headers_view(headers@)) == Ok::<_, Seq<char>>(
                body@,
            ),
            Err(e) => e matches HttpError::Protocol(m) && decode_body_spec(
                raw@,
                headers_view(headers@),
            ) == Err::<Seq<u8>, _>(m@),
        },
{
    let ghost hv = headers_view(headers@);
    match get_header(headers, "transfer-encoding") {
        Some(te) => {
            let tec = lower_chars(&str_to_chars(te.as_str()));
            let needle = str_to_chars("chunked");
            if crate::text::contains_chars(&tec, &needle) {
                return decode_chunked(raw);
            }
        },
        None => {},
    }
    match get_header(headers, "content-length") {
        Some(cl) => {
            let clc = str_to_chars(cl.as_str());
            match crate::num::parse_u64_chars(&clc) {
                Some(v) if v <= usize::MAX as u64 => {
                    let len = v as usize;
                    if raw.len() >= len {
                        let b = subrange_bytes(raw, 0, len);
                        proof {
                            assert(b@ =~= raw@.take(len as int));
                        }
                        Ok(b)
                    } else {
                        let b = subrange_bytes(raw, 0, raw.len());
                        proof {
                            assert(b@ =~= raw@);
                        }
                        Ok(b)
                    }
                },
                _ => Err(HttpError::Protocol(String::from_str("invalid content-length"))),
            }
        },
        None => {
            let b = subrange_bytes(raw, 0, raw.len());
            proof {
                assert(b@ =~= raw@);
            }
            Ok(b)
        },
    }
}

/// One trailing carriage return removed.
pub open spec fn strip_cr(line: Seq<char>) -> Seq<char> {
    if line.len() > 0 && line.last() == '\r' {
        line.drop_last()
    } else {
        line
    }
}

/// The lines of a header block: split at newlines, a trailing carriage
/// return dropped from each.
pub open spec fn header_block_lines(text: Seq<char>) -> Seq<Seq<char>> {
    let ls = split_char_seq(text, '\n');
    Seq::new(ls.len(), |i: int| strip_cr(ls[i]))
}

/// The headers among these lines: each line with a colon yields one, its
/// name trimmed and lowercased, its value trimmed; an empty line ends them.
pub open spec fn headers_of_lines(lines: Seq<Seq<char>>) -> Seq<(Seq<char>, Seq<char>)>
    decreases lines.len(),
{
    if lines.len() == 0 {
        Seq::empty()
    } else {
        let line = lines[0];
        if line.len() == 0 {
            Seq::empty()
        } else {
            let c = find_char(line, ':');
            let rest = headers_of_lines(lines.skip(1));
            if 0 <= c < line.len() {
                seq![
                    (lower_seq(trim_spec(line.take(c))), trim_spec(line.skip(c + 1))),
                ] + rest
            } else {
                rest
            }
        }
    }
}

/// What a raw response means: its status code, its headers, and its decoded
/// body; or the error text.
pub open spec fn parse_response_spec(raw: Seq<u8>) -> Result<
    (u16, Seq<(Seq<char>, Seq<char>)>, Seq<u8>),
    Seq<char>,
> {
    match header_end_from(raw, 0) {
        None => Err("no header/body boundary found"@),
        Some(he) => {
            let hb = raw.take(he);
            if !ascii_bytes(hb) {
                Err("headers not valid UTF-8"@)
            } else {
                let lines = header_block_lines(chars_of_bytes(hb));
                match status_line_spec(lines[0]) {
                    Err(e) => Err(e),
                    Ok(st) => {
                        let hdrs = headers_of_lines(lines.skip(1));
                        match decode_body_spec(raw.skip(he + 4), hdrs) {
                            Ok(b) => Ok((st, hdrs, b)),
                            Err(e) => Err(e),
                        }
                    },
                }
            }
        },
    }
}

/// Parse a complete raw response.
pub fn parse_response(raw: &[u8]) -> (r: Result<HttpResponse, HttpError>)
    ensures
        match r {
            Ok(resp) => parse_response_spec(raw@) matches Ok((st, hdrs, body)) && resp.status
                == st && headers_view(resp.headers@) == hdrs && resp.body@ == body,
            Err(e) => e matches HttpError::Protocol(m) && parse_response_spec(raw@) matches Err(
                me,
            ) && m@ == me,
        },
{
    let he = match find_header_end(raw) {
        Some(he) => he,
        None => {
            return Err(
                HttpError::Protocol(String::from_str("no header/body boundary found")),
            );
        },
    };
    let chars = match ascii_chars_range(raw, 0, he) {
        Some(cs) => cs,
        None => {
            proof {
                assert(raw@.subrange(0, he as int) =~= raw@.take(he as int));
            }
            return Err(HttpError::Protocol(String::from_str("headers not valid UTF-8")));
        },
    };
    proof {
        assert(raw@.subrange(0, he as int) =~= raw@.take(he as int));
    }
    let raw_lines = crate::text::split_on_char(&chars, '\n');
    let ghost lines = header_block_lines(chars_of_bytes(raw@.take(he as int)));
    let mut stripped: Vec<Vec<char>> = Vec::new();
    let nl = raw_lines.len();
    let mut i: usize = 0;
    while i < nl
        invariant
            i <= nl,
            nl == raw_lines@.len(),
            raw_lines.deep_view() == split_char_seq(chars@, '\n'),
            lines == header_block_lines(chars@),
            stripped.deep_view() == lines.take(i as int),
        decreases nl - i,
    {
        let line = &raw_lines[i];
        let m = line.len();
        let s = if m > 0 && line[m - 1] == '\r' {
            subrange_chars(line, 0, m - 1)
        } else {
            subrange_chars(line, 0, m)
        };
        proof {
            assert(raw_lines@[i as int]@ == raw_lines.deep_view()[i as int]);
            if m > 0 && raw_lines@[i as int]@.last() == '\r' {
                assert(s@ =~= strip_cr(raw_lines.deep_view()[i as int]));
            } else {
                assert(s@ =~= strip_cr(raw_lines.deep_view()[i as int]));
            }
        }
        let ghost pre = stripped.deep_view();
        let ghost sv = s@;
        stripped.push(s);
        proof {
            assert(stripped.deep_view() =~~= pre.push(sv));
            assert(stripped.deep_view() =~= lines.take(i + 1));
        }
        i = i + 1;
    }
    proof {
        assert(lines.take(nl as int) =~= lines);
        crate::text::lemma_split_nonempty(chars@, '\n');
        assert(lines.len() > 0);
        assert(stripped.deep_view()[0] == lines[0]);
        assert(stripped@[0]@ == lines[0]);
    }
    let st = match parse_status_line_chars(&stripped[0]) {
        Ok(st) => st,
        Err(e) => {
            return Err(e);
        },
    };
    // Collect the headers after the status line.
    let mut headers: Vec<(String, String)> = Vec::new();
    let mut j: usize = 1;
    proof {
        assert(lines.skip(1).skip(0) =~= lines.skip(1));
        assert(headers_view(headers@) + headers_of_lines(lines.skip(1)) =~= headers_of_lines(
            lines.skip(1),
        ));
    }
    while j < nl && stripped[j].len() > 0
        invariant
            1 <= j <= nl,
            nl == lines.len(),
            lines == header_block_lines(chars_of_bytes(raw@.take(he as int))),
            stripped.deep_view() == lines,
            stripped@.len() == nl,
            headers_of_lines(lines.skip(1)) == headers_view(headers@) + headers_of_lines(
                lines.skip(j as int),
            ),
        decreases nl - j,
    {
        proof {
            assert(lines.skip(j as int)[0] == lines[j as int]);
            assert(lines.skip(j as int).skip(1) =~= lines.skip(j + 1));
            assert(stripped.deep_view()[j as int] == stripped@[j as int]@);
        }
        let line = &stripped[j];
        match crate::text::find_in_chars(line, ':') {
            Some(c) => {
                let keyb = subrange_chars(line, 0, c);
                let key = lower_chars(&crate::text::trim_chars(&keyb));
                let valb = subrange_chars(line, c + 1, line.len());
                let val = crate::text::trim_chars(&valb);
                proof {
                    assert(keyb@ =~= lines[j as int].take(c as int));
                    assert(valb@ =~= lines[j as int].skip(c as int + 1));
                }
                let ghost pre = headers_view(headers@);
                headers.push((chars_to_string(&key), chars_to_string(&val)));
                proof {
                    assert(headers_view(headers@) =~= pre.push((key@, val@)));
                    assert(headers_view(headers@) + headers_of_lines(lines.skip(j + 1)) =~= pre
                        + (seq![(key@, val@)] + headers_of_lines(lines.skip(j + 1))));
                }
            },
            None => {},
        }
        j = j + 1;
    }
    proof {
        if j == nl {
            assert(headers_of_lines(lines.skip(nl as int)) =~= Seq::<(Seq<char>, Seq<char>)>::empty());
        } else {
            assert(stripped.deep_view()[j as int] == stripped@[j as int]@);
            assert(lines.skip(j as int)[0] == lines[j as int]);
            assert(lines[j as int].len() == 0);
            assert(headers_of_lines(lines.skip(j as int)) =~= Seq::<(Seq<char>, Seq<char>)>::empty());
        }
        assert(headers_view(headers@) + Seq::<(Seq<char>, Seq<char>)>::empty() =~= headers_view(
            headers@,
        ));
        assert(headers_view(headers@) == headers_of_lines(lines.skip(1)));
    }
    let n = raw.len();
    let body_raw = subrange_bytes(raw, he + 4, n);
    proof {
        assert(body_raw@ =~= raw@.skip(he as int + 4));
    }
    let body = match decode_body(&body_raw, &headers) {
        Ok(b) => b,
        Err(e) => {
            return Err(e);
        },
    };
    Ok(HttpResponse { status: st, headers, body })
}

/// Relies on `String::from_utf8`: it succeeds exactly on valid UTF-8 and
/// decodes it, leaving the byte sequence unchanged.
#[verifier::external_body]
fn bytes_to_string(v: Vec<u8>) -> (r: Option<String>)
    ensures
        match r {
            Some(s) => vstd::utf8::valid_utf8(v@) && vstd::utf8::encode_utf8(s@) == v@,
            None => !vstd::utf8::valid_utf8(v@),
        },
{
    String::from_utf8(v).ok()
}

impl HttpResponse {
    /// The body decoded as UTF-8 text.
    pub fn body_string(&self) -> (r: Result<String, HttpError>)
        ensures
            match r {
                Ok(s) => vstd::utf8::valid_utf8(self.body@) && vstd::utf8::encode_utf8(s@) == self.body@,
                Err(e) => e matches HttpError::Protocol(m) && !vstd::utf8::valid_utf8(self.body@)
                    && m@ == "response body is not valid UTF-8"@,
            },
    {
        let copy = subrange_bytes(self.body.as_slice(), 0, self.body.len());
        proof {
            assert(copy@ =~= self.body@);
        }
        match bytes_to_string(copy) {
            Some(s) => Ok(s),
            None => Err(
                HttpError::Protocol(String::from_str("response body is not valid UTF-8")),
            ),
        }
    }
}
} // verus!
