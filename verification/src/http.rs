//! The pure parts of the HTTP/1.1 client: splitting a URL into host,
//! port and path, assembling a request, and splitting a raw response
//! into header and body bytes. The socket work around them stays with
//! the caller.

use vstd::prelude::*;

use crate::uuid::{dec_digits, u64_dec};
use vstd::string::StringSliceAdditionalSpecFns;

verus! {

/// The index of the first occurrence of `c`, or the length when there
/// is none.
pub open spec fn first_index_of(s: Seq<char>, c: char) -> int
    decreases s.len(),
{
    if s.len() == 0 {
        0
    } else if s[0] == c {
        0
    } else {
        1 + first_index_of(s.skip(1), c)
    }
}

pub proof fn lemma_first_index_of(s: Seq<char>, c: char)
    ensures
        0 <= first_index_of(s, c) <= s.len(),
        forall|k: int| 0 <= k < first_index_of(s, c) ==> s[k] != c,
        first_index_of(s, c) < s.len() ==> s[first_index_of(s, c)] == c,
    decreases s.len(),
{
    if s.len() == 0 {
    } else if s[0] == c {
    } else {
        lemma_first_index_of(s.skip(1), c);
        assert forall|k: int| 0 <= k < first_index_of(s, c) implies s[k] != c by {
            if k > 0 {
                assert(s.skip(1)[k - 1] != c);
            }
        }
    }
}

/// A scan that sees no `c` before `i`, and `c` or the end at `i`, has
/// found the first occurrence.
pub proof fn lemma_first_index_of_unique(s: Seq<char>, c: char, i: int)
    requires
        0 <= i <= s.len(),
        forall|k: int| 0 <= k < i ==> s[k] != c,
        i < s.len() ==> s[i] == c,
    ensures
        first_index_of(s, c) == i,
    decreases s.len(),
{
    if s.len() == 0 {
    } else if s[0] == c {
    } else {
        assert forall|k: int| 0 <= k < i - 1 implies s.skip(1)[k] != c by {
            assert(s[k + 1] != c);
        }
        lemma_first_index_of_unique(s.skip(1), c, i - 1);
    }
}

/// The numeric value of a digit string, most significant digit first.
pub open spec fn dec_val(s: Seq<char>) -> int
    decreases s.len(),
{
    if s.len() == 0 {
        0
    } else {
        dec_val(s.drop_last()) * 10 + (s.last() as u32 - 48)
    }
}

/// An ASCII decimal digit.
pub open spec fn is_digit(c: char) -> bool {
    48 <= c as u32 <= 57
}

/// The digits of a port string: everything after an optional leading
/// `+` sign, which integer parsing accepts.
pub open spec fn port_digits(s: Seq<char>) -> Seq<char> {
    if s.len() > 0 && s[0] == '+' {
        s.skip(1)
    } else {
        s
    }
}

/// A valid port string: one or more digits, optionally after a leading
/// `+`, whose value fits in 16 bits.
pub open spec fn valid_port_str(s: Seq<char>) -> bool {
    &&& port_digits(s).len() > 0
    &&& forall|k: int| 0 <= k < port_digits(s).len() ==> is_digit(#[trigger] port_digits(s)[k])
    &&& dec_val(port_digits(s)) <= 0xffff
}

/// The value of a digit string is nonnegative and grows with every
/// appended digit.
proof fn lemma_dec_val_nonneg(s: Seq<char>)
    requires
        forall|k: int| 0 <= k < s.len() ==> is_digit(#[trigger] s[k]),
    ensures
        dec_val(s) >= 0,
    decreases s.len(),
{
    if s.len() > 0 {
        lemma_dec_val_nonneg(s.drop_last());
    }
}

/// A digit prefix never exceeds the value of the whole string.
proof fn lemma_dec_val_prefix(s: Seq<char>, i: int)
    requires
        0 <= i <= s.len(),
        forall|k: int| 0 <= k < s.len() ==> is_digit(#[trigger] s[k]),
    ensures
        dec_val(s.take(i)) <= dec_val(s),
    decreases s.len() - i,
{
    if i < s.len() {
        lemma_dec_val_prefix(s, i + 1);
        let pre = s.take(i);
        let nxt = s.take(i + 1);
        assert(nxt.drop_last() =~= pre);
        assert(nxt.last() == s[i]);
        lemma_dec_val_nonneg(pre);
    } else {
        assert(s.take(i) =~= s);
    }
}

/// The host, port and path a URL names.
#[derive(Debug)]
pub struct UrlParts {
    pub host: String,
    pub port: u16,
    pub path: String,
}

/// What `parse_url` accepts: a `http://` or `https://` prefix, then a
/// host up to the first `:` or `/`, an optional `:port` of digits
/// fitting 16 bits, and a path beginning at the first `/`.
pub open spec fn url_rest(url: Seq<char>) -> Seq<char>
    recommends
        url_has_protocol(url),
{
    if url.len() >= 7 && url.take(7) == "http://"@ {
        url.skip(7)
    } else {
        url.skip(8)
    }
}

/// Whether the URL begins with `http://` or `https://`.
pub open spec fn url_has_protocol(url: Seq<char>) -> bool {
    (url.len() >= 7 && url.take(7) == "http://"@) || (url.len() >= 8 && url.take(8)
        == "https://"@)
}

/// The host-and-port portion: everything before the first `/`.
pub open spec fn url_host_port(url: Seq<char>) -> Seq<char> {
    let rest = url_rest(url);
    rest.take(first_index_of(rest, '/'))
}

/// The path: `/` followed by everything after the first `/`, or just
/// `/` when the rest has none.
pub open spec fn url_path(url: Seq<char>) -> Seq<char> {
    let rest = url_rest(url);
    let sl = first_index_of(rest, '/');
    if sl < rest.len() {
        seq!['/'] + rest.skip(sl + 1)
    } else {
        seq!['/']
    }
}

/// The host: the host-and-port portion up to the first `:`.
pub open spec fn url_host(url: Seq<char>) -> Seq<char> {
    let hp = url_host_port(url);
    hp.take(first_index_of(hp, ':'))
}

/// The port string after the first `:` of the host-and-port portion, or
/// nothing when it has no `:`.
pub open spec fn url_port_str(url: Seq<char>) -> Option<Seq<char>> {
    let hp = url_host_port(url);
    let ci = first_index_of(hp, ':');
    if ci < hp.len() {
        Some(hp.skip(ci + 1))
    } else {
        None
    }
}

/// Splits a URL into host, port (80 when none is named) and path.
/// Fails exactly when the protocol prefix is missing or a named port is
/// not a digit string fitting 16 bits (a leading `+` sign is accepted),
/// with a message saying which.
pub fn parse_url(url: &str) -> (r: Result<UrlParts, String>)
    ensures
        r matches Ok(parts) ==> {
            &&& url_has_protocol(url@)
            &&& parts.host@ == url_host(url@)
            &&& parts.path@ == url_path(url@)
            &&& (match url_port_str(url@) {
                Some(p) => valid_port_str(p) && parts.port == dec_val(port_digits(p)),
                None => parts.port == 80,
            })
        },
        r matches Err(e) ==> {
            ||| (!url_has_protocol(url@) && e@ == "Invalid URL: Missing protocol (http or https)"@)
            ||| (url_has_protocol(url@) && (url_port_str(url@) matches Some(p)
                && !valid_port_str(p)) && e@ == "Invalid port"@)
        },
        r is Ok <==> url_has_protocol(url@) && (url_port_str(url@) matches Some(p)
            ==> valid_port_str(p)),
{
    let n = url.unicode_len();
    let http = "http://";
    let https = "https://";
    proof {
        reveal_strlit("http://");
        reveal_strlit("https://");
    }
    let prefix_len: usize = if n >= 7 && str_eq_at(url, http, 0, 7) {
        proof {
            assert(url@.take(7) =~= url@.subrange(0, 7));
        }
        7
    } else if n >= 8 && str_eq_at(url, https, 0, 8) {
        proof {
            assert(url@.take(8) =~= url@.subrange(0, 8));
        }
        8
    } else {
        proof {
            reveal_strlit("Invalid URL: Missing protocol (http or https)");
            assert(!url_has_protocol(url@)) by {
                if url@.len() >= 7 {
                    assert(url@.take(7) =~= url@.subrange(0, 7));
                }
                if url@.len() >= 8 {
                    assert(url@.take(8) =~= url@.subrange(0, 8));
                }
            }
        }
        let msg = "Invalid URL: Missing protocol (http or https)";
        return Err(msg.to_owned());
    };
    proof {
        assert(url_has_protocol(url@));
        if prefix_len == 7 {
            assert(url@.take(7) == "http://"@);
        } else {
            reveal_strlit("http://");
            reveal_strlit("https://");
            assert(url@.take(8) == "https://"@);
            assert(url@.take(7) != "http://"@) by {
                if url@.take(7) == "http://"@ {
                    assert(url@.take(8)[4] == url@[4]);
                    assert(url@.take(7)[4] == url@[4]);
                    assert("https://"@[4] == ':');
                    assert("http://"@[4] == ':');
                    assert("https://"@[4] == 's' && "http://"@[4] == ':');
                    assert(false);
                }
            }
        }
        assert(url_rest(url@) =~= url@.skip(prefix_len as int));
    }
    let rest = url.substring_char(prefix_len, n);
    proof {
        assert(rest@ =~= url_rest(url@));
    }
    let rn = rest.unicode_len();
    let sl = find_char(rest, '/');
    let host_port = rest.substring_char(0, sl);
    let path = if sl < rn {
        let mut p = String::new();
        let slash = "/";
        proof {
            reveal_strlit("/");
            assert(slash@ =~= seq!['/']);
        }
        p.append(slash);
        p.append(rest.substring_char(sl + 1, rn));
        proof {
            assert(rest@.subrange(sl + 1, rn as int) =~= rest@.skip(sl + 1));
        }
        p
    } else {
        let slash = "/";
        proof {
            reveal_strlit("/");
            assert(slash@ =~= seq!['/']);
        }
        slash.to_owned()
    };
    proof {
        assert(path@ =~= url_path(url@));
        assert(host_port@ =~= url_host_port(url@));
    }
    let hn = host_port.unicode_len();
    let ci = find_char(host_port, ':');
    let host = host_port.substring_char(0, ci).to_owned();
    proof {
        assert(host@ =~= url_host(url@));
    }
    let port: u16 = if ci < hn {
        let pstr = host_port.substring_char(ci + 1, hn);
        proof {
            assert(host_port@.subrange(ci + 1, hn as int) =~= host_port@.skip(ci + 1));
            assert(url_port_str(url@) == Some(pstr@));
        }
        match parse_port(pstr) {
            Some(p) => p,
            None => {
                proof {
                    reveal_strlit("Invalid port");
                }
                let msg = "Invalid port";
                return Err(msg.to_owned());
            },
        }
    } else {
        proof {
            assert(url_port_str(url@) is None);
        }
        80
    };
    Ok(UrlParts { host, port, path })
}

/// Whether `s[from..to]` equals the whole of `pat`.
fn str_eq_at(s: &str, pat: &str, from: usize, to: usize) -> (b: bool)
    requires
        from <= to <= s@.len(),
        pat@.len() == to - from,
    ensures
        b == (s@.subrange(from as int, to as int) == pat@),
{
    let mut i: usize = from;
    while i < to
        invariant
            from <= i <= to <= s@.len(),
            pat@.len() == to - from,
            forall|k: int| from <= k < i ==> s@[k] == pat@[k - from],
        decreases to - i,
    {
        if s.get_char(i) != pat.get_char(i - from) {
            proof {
                assert(s@.subrange(from as int, to as int)[i - from] != pat@[i - from]);
            }
            return false;
        }
        i = i + 1;
    }
    proof {
        assert(s@.subrange(from as int, to as int) =~= pat@);
    }
    true
}

/// The index of the first occurrence of `c` in `s`, or the length when
/// there is none.
fn find_char(s: &str, c: char) -> (r: usize)
    ensures
        r == first_index_of(s@, c),
        r <= s@.len(),
{
    let n = s.unicode_len();
    let mut i: usize = 0;
    while i < n
        invariant
            i <= n,
            n == s@.len(),
            forall|k: int| 0 <= k < i ==> s@[k] != c,
        decreases n - i,
    {
        if s.get_char(i) == c {
            proof {
                lemma_first_index_of_unique(s@, c, i as int);
            }
            return i;
        }
        i = i + 1;
    }
    proof {
        lemma_first_index_of_unique(s@, c, n as int);
    }
    n
}

/// Parses a port number: an optional leading `+`, then digits; nothing
/// when no digits follow, a non-digit appears, or the value exceeds 16
/// bits.
fn parse_port(s: &str) -> (r: Option<u16>)
    ensures
        r matches Some(p) ==> valid_port_str(s@) && p == dec_val(port_digits(s@)),
        r is None <==> !valid_port_str(s@),
{
    let n = s.unicode_len();
    let start: usize = if n > 0 && s.get_char(0) == '+' {
        1
    } else {
        0
    };
    let ghost d = port_digits(s@);
    proof {
        assert(d =~= s@.skip(start as int));
    }
    if n == start {
        return None;
    }
    let mut acc: u32 = 0;
    let mut i: usize = start;
    while i < n
        invariant
            start <= i <= n,
            start <= 1,
            n == s@.len(),
            d == port_digits(s@),
            d =~= s@.skip(start as int),
            forall|k: int| 0 <= k < i - start ==> is_digit(#[trigger] d[k]),
            acc == dec_val(d.take(i - start)),
            acc <= 0xffff,
        decreases n - i,
    {
        let c = s.get_char(i);
        let u = c as u32;
        if !(48 <= u && u <= 57) {
            proof {
                assert(d[i - start] == s@[i as int]);
                assert(!is_digit(d[i - start]));
            }
            return None;
        }
        acc = acc * 10 + (u - 48);
        i = i + 1;
        proof {
            assert(d.take(i - start).drop_last() =~= d.take(i - 1 - start));
            assert(d.take(i - start).last() == d[i - 1 - start]);
            assert(d[i - 1 - start] == s@[i - 1]);
        }
        if acc > 0xffff {
            proof {
                if forall|k: int| 0 <= k < d.len() ==> is_digit(#[trigger] d[k]) {
                    lemma_dec_val_prefix(d, i - start);
                    assert(d.take(d.len() as int) =~= d);
                }
            }
            return None;
        }
    }
    proof {
        assert(d.take(n - start) =~= d);
    }
    Some(acc as u16)
}

/// The fixed lines every request carries.
pub open spec fn request_prologue(method: Seq<char>, path: Seq<char>, host: Seq<char>) -> Seq<
    char,
> {
    method + seq![' '] + path + " HTTP/1.1\r\nHost: "@ + host + "\r\n"@
        + "User-Agent: Rust HTTP Client\r\n"@
}

/// The header lines, one `name: value` pair per line, in order.
pub open spec fn headers_text(hs: Seq<(Seq<char>, Seq<char>)>) -> Seq<char>
    decreases hs.len(),
{
    if hs.len() == 0 {
        Seq::empty()
    } else {
        headers_text(hs.drop_last()) + hs.last().0 + ": "@ + hs.last().1 + "\r\n"@
    }
}

/// The whole request: prologue, the caller's headers, `Connection:
/// close`, a `Content-Length` line when a body is sent, the blank line,
/// and the body.
pub open spec fn request_text(
    method: Seq<char>,
    path: Seq<char>,
    host: Seq<char>,
    hs: Seq<(Seq<char>, Seq<char>)>,
    body: Option<(Seq<char>, nat)>,
) -> Seq<char> {
    let head = request_prologue(method, path, host) + headers_text(hs) + "Connection: close\r\n"@;
    match body {
        Some((b, blen)) => head + "Content-Length: "@ + dec_digits(blen) + "\r\n"@ + "\r\n"@ + b,
        None => head + "\r\n"@,
    }
}

/// Assembles the text of a request. The `Content-Length` counts the
/// body's UTF-8 bytes.
pub fn build_request(
    method: &str,
    path: &str,
    host: &str,
    headers: &Vec<(String, String)>,
    body: Option<&str>,
) -> (r: String)
    ensures
        r@ == request_text(
            method@,
            path@,
            host@,
            headers@.map_values(|h: (String, String)| (h.0@, h.1@)),
            match body {
                Some(b) => Some((b@, b.spec_bytes().len())),
                None => None::<(Seq<char>, nat)>,
            },
        ),
{
    let sp = " ";
    let line1 = " HTTP/1.1\r\nHost: ";
    let crlf = "\r\n";
    let agent = "User-Agent: Rust HTTP Client\r\n";
    let sep = ": ";
    let conn = "Connection: close\r\n";
    let clen = "Content-Length: ";
    proof {
        reveal_strlit(" ");
        reveal_strlit(" HTTP/1.1\r\nHost: ");
        reveal_strlit("\r\n");
        reveal_strlit("User-Agent: Rust HTTP Client\r\n");
        reveal_strlit(": ");
        reveal_strlit("Connection: close\r\n");
        reveal_strlit("Content-Length: ");
        assert(sp@ =~= seq![' ']);
    }
    let mut r = String::new();
    r.append(method);
    r.append(sp);
    r.append(path);
    r.append(line1);
    r.append(host);
    r.append(crlf);
    r.append(agent);
    proof {
        assert(r@ =~= request_prologue(method@, path@, host@));
    }
    let ghost hs = headers@.map_values(|h: (String, String)| (h.0@, h.1@));
    let mut i: usize = 0;
    proof {
        assert(headers_text(hs.take(0)) =~= Seq::<char>::empty());
    }
    while i < headers.len()
        invariant
            i <= headers@.len(),
            hs == headers@.map_values(|h: (String, String)| (h.0@, h.1@)),
            sep@ == ": "@,
            crlf@ == "\r\n"@,
            r@ == request_prologue(method@, path@, host@) + headers_text(hs.take(i as int)),
        decreases headers@.len() - i,
    {
        r.append(headers[i].0.as_str());
        r.append(sep);
        r.append(headers[i].1.as_str());
        r.append(crlf);
        i = i + 1;
        proof {
            let cur = hs.take(i as int);
            assert(cur.drop_last() =~= hs.take(i - 1));
            assert(cur.last() == hs[i - 1]);
            assert(hs[i - 1].0 == headers@[i - 1].0@);
            assert(hs[i - 1].1 == headers@[i - 1].1@);
            assert(r@ =~= request_prologue(method@, path@, host@) + headers_text(cur));
        }
    }
    proof {
        assert(hs.take(headers@.len() as int) =~= hs);
    }
    r.append(conn);
    match body {
        Some(b) => {
            let blen = b.as_bytes().len();
            r.append(clen);
            let num = u64_dec(blen as u64);
            r.append(num.as_str());
            r.append(crlf);
            r.append(crlf);
            r.append(b);
            proof {
                assert(blen == b.spec_bytes().len());
                assert(r@ =~= request_text(
                    method@,
                    path@,
                    host@,
                    hs,
                    Some((b@, b.spec_bytes().len())),
                ));
            }
        },
        None => {
            r.append(crlf);
            proof {
                assert(r@ =~= request_text(method@, path@, host@, hs, None::<(Seq<char>, nat)>));
            }
        },
    }
    r
}

/// Whether the blank line separating headers from body starts at `i`.
pub open spec fn sep_at(s: Seq<u8>, i: int) -> bool {
    &&& 0 <= i
    &&& i + 4 <= s.len()
    &&& s[i] == 13
    &&& s[i + 1] == 10
    &&& s[i + 2] == 13
    &&& s[i + 3] == 10
}

/// Splits a raw response at the first `\r\n\r\n` into the header bytes
/// before it and the body bytes after it. Fails exactly when the
/// response has no such separator.
pub fn parse_http_response(response: &[u8]) -> (r: Result<(Vec<u8>, Vec<u8>), String>)
    ensures
        r matches Ok(hb) ==> exists|i: int|
            #[trigger] sep_at(response@, i) && (forall|k: int| 0 <= k < i ==> !sep_at(response@, k))
                && hb.0@ == response@.take(i) && hb.1@ == response@.skip(i + 4),
        r matches Err(e) ==> e@ == "Invalid HTTP response"@,
        r is Err <==> forall|i: int| !#[trigger] sep_at(response@, i),
{
    let n = response.len();
    if n >= 4 {
        let mut i: usize = 0;
        while i <= n - 4
            invariant
                4 <= n == response@.len(),
                i <= n - 3,
                forall|k: int| 0 <= k < i ==> !sep_at(response@, k),
            decreases n - i,
        {
            if response[i] == 13 && response[i + 1] == 10 && response[i + 2] == 13 && response[i
                + 3] == 10 {
                let mut head: Vec<u8> = Vec::new();
                let mut j: usize = 0;
                while j < i
                    invariant
                        j <= i <= n == response@.len(),
                        head@ =~= response@.take(j as int),
                    decreases i - j,
                {
                    head.push(response[j]);
                    j = j + 1;
                    proof {
                        assert(head@ =~= response@.take(j as int));
                    }
                }
                let mut bod: Vec<u8> = Vec::new();
                let mut k: usize = i + 4;
                while k < n
                    invariant
                        i + 4 <= k <= n == response@.len(),
                        bod@ =~= response@.skip(i + 4).take(k - i - 4),
                    decreases n - k,
                {
                    bod.push(response[k]);
                    k = k + 1;
                    proof {
                        assert(bod@ =~= response@.skip(i + 4).take(k - i - 4));
                    }
                }
                proof {
                    assert(bod@ =~= response@.skip(i + 4));
                    assert(sep_at(response@, i as int));
                }
                return Ok((head, bod));
            }
            i = i + 1;
        }
        proof {
            assert forall|k: int| !#[trigger] sep_at(response@, k) by {
                if 0 <= k < n - 3 {
                    assert(!sep_at(response@, k));
                }
            }
        }
    }
    proof {
        if response@.len() < 4 {
            assert forall|k: int| !#[trigger] sep_at(response@, k) by {}
        }
    }
    let msg = "Invalid HTTP response";
    proof {
        reveal_strlit("Invalid HTTP response");
    }
    Err(msg.to_owned())
}

} // verus!
