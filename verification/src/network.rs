//! The way to a server: directly, or through an HTTP or SOCKS5 proxy.

#![verifier::loop_isolation(false)]

use crate::assets::{self, host_is_bad};
use crate::error::{self, AppError, ErrorView};
use crate::models::{Duplicate, ProxyRequest, ProxyRequestView, ProxyType, clone_bytes};
use crate::outside::{self, ip_octets, utf8_text, wipe};
use crate::text::{
    self, byte_len, cat2, cat3, cat4, cat5, char_len, chars_of, contains_char, decimal_text,
    find_first, has_break, parse_number, starts_with, text_between, words_of,
};
use vstd::prelude::*;
use vstd::utf8::*;

verus! {

/// The longest answer of an HTTP proxy that is read.
pub const MAX_HTTP_RESPONSE_HEADER: usize = 16384;

/// The error for a connection through a proxy that could not be made.
pub open spec fn proxy_connect_fault(context: Seq<char>, reason: Seq<char>) -> ErrorView {
    error::ssh_error(
        "PROXY-CONNECT-FAILED"@,
        "无法通过代理建立连接"@,
        context + ": "@ + reason,
        true,
    )
}

/// The error for an answer of a proxy that makes no sense.
pub open spec fn proxy_protocol_fault(details: Seq<char>) -> ErrorView {
    error::ssh_error("PROXY-PROTOCOL-FAILED"@, "代理服务器返回了无效响应"@, details, false)
}

/// The error for a connection through a proxy that could not be made.
pub fn proxy_connect_error(context: &str, reason: &str) -> (r: AppError)
    ensures
        r@ == proxy_connect_fault(context@, reason@),
{
    AppError::ssh(
        "PROXY-CONNECT-FAILED",
        "无法通过代理建立连接",
        cat3(context, ": ", reason).as_str(),
        true,
    )
}

/// The error for an answer of a proxy that makes no sense.
pub fn proxy_protocol_error(details: &str) -> (r: AppError)
    ensures
        r@ == proxy_protocol_fault(details@),
{
    AppError::ssh("PROXY-PROTOCOL-FAILED", "代理服务器返回了无效响应", details, false)
}

/// The error for a proxy that takes too long.
pub open spec fn proxy_timeout_fault() -> ErrorView {
    error::ssh_error(
        "PROXY-CONNECT-FAILED"@,
        "连接代理服务器超时"@,
        "proxy connection or handshake timed out"@,
        true,
    )
}

/// The error for a proxy that takes too long.
pub fn proxy_timeout_error() -> (r: AppError)
    ensures
        r@ == proxy_timeout_fault(),
{
    AppError::ssh(
        "PROXY-CONNECT-FAILED",
        "连接代理服务器超时",
        "proxy connection or handshake timed out",
        true,
    )
}

/// What is wrong with the host of a target.
pub open spec fn target_fault(host: Seq<char>) -> Option<ErrorView> {
    if assets::bad_host(host) {
        Some(error::validation_error("目标主机地址无效"@))
    } else {
        None
    }
}

/// Checks the host of a target.
pub fn validate_target(host: &str) -> (r: Result<(), AppError>)
    ensures
        error::error_of(r) == target_fault(host@),
{
    if host_is_bad(host) {
        return Err(AppError::validation("目标主机地址无效"));
    }
    Ok(())
}

/// What is wrong with a proxy.
pub open spec fn proxy_fault(proxy: ProxyRequestView) -> Option<ErrorView> {
    if assets::bad_host(proxy.host) {
        Some(error::validation_error("代理主机地址无效"@))
    } else if proxy.username matches Some(value) && (value.len() == 0 || text::utf8_len(value) > 255
        || text::breaks_line(value)) {
        Some(error::validation_error("代理用户名无效"@))
    } else if proxy.password matches Some(value) && (text::utf8_len(value) > 255 || text::breaks_line(value)) {
        Some(error::validation_error("代理密码无效"@))
    } else {
        None
    }
}

/// Checks a proxy.
pub fn validate_proxy(proxy: &ProxyRequest) -> (r: Result<(), AppError>)
    ensures
        error::error_of(r) == proxy_fault(proxy@),
{
    if host_is_bad(proxy.host.as_str()) {
        return Err(AppError::validation("代理主机地址无效"));
    }
    if let Some(value) = &proxy.username {
        if char_len(value.as_str()) == 0 || byte_len(value.as_str()) > 255 || has_break(
            value.as_str(),
        ) {
            return Err(AppError::validation("代理用户名无效"));
        }
    }
    if let Some(value) = &proxy.password {
        if byte_len(value.as_str()) > 255 || has_break(value.as_str()) {
            return Err(AppError::validation("代理密码无效"));
        }
    }
    Ok(())
}

/// Where a TCP connection is made to, and the proxy protocol that is spoken on it.
#[derive(Debug)]
pub struct Dial {
    pub host: String,
    pub port: u16,
    pub proxy: Option<ProxyType>,
}

/// What a [`Dial`] says.
#[verifier::ext_equal]
pub struct DialView {
    pub host: Seq<char>,
    pub port: u16,
    pub proxy: Option<ProxyType>,
}

impl View for Dial {
    type V = DialView;

    open spec fn view(&self) -> DialView {
        DialView { host: self.host@, port: self.port, proxy: self.proxy }
    }
}

impl DeepView for Dial {
    type V = DialView;

    open spec fn deep_view(&self) -> DialView {
        self@
    }
}

/// Where the connection to a target is made to: the target, or its proxy.
pub open spec fn dialled(
    host: Seq<char>,
    port: u16,
    proxy: Option<ProxyRequestView>,
) -> Result<DialView, ErrorView> {
    match target_fault(host) {
        Some(fault) => Err(fault),
        None => match proxy {
            None => Ok(DialView { host, port, proxy: None }),
            Some(proxy) => match proxy_fault(proxy) {
                Some(fault) => Err(fault),
                None => Ok(
                    DialView { host: proxy.host, port: proxy.port, proxy: Some(proxy.proxy_type) },
                ),
            },
        },
    }
}

/// Where the connection to a target is made to, once the target and its proxy
/// were checked.
pub fn connect_target(host: &str, port: u16, proxy: Option<&ProxyRequest>) -> (r: Result<
    Dial,
    AppError,
>)
    ensures
        error::ends_as(r, dialled(host@, port, proxy.deep_view())),
{
    validate_target(host)?;
    match proxy {
        None => Ok(Dial { host: host.to_owned(), port, proxy: None }),
        Some(proxy) => {
            validate_proxy(proxy)?;
            Ok(
                Dial { host: proxy.host.clone(), port: proxy.port, proxy: Some(proxy.proxy_type) },
            )
        },
    }
}

/// The error for a TCP connection that could not be made.
pub open spec fn dial_fault(proxied: bool, reason: Seq<char>) -> ErrorView {
    proxy_connect_fault(
        if proxied {
            "proxy TCP connection failed"@
        } else {
            "direct TCP connection failed"@
        },
        reason,
    )
}

impl Dial {
    /// The error for a TCP connection that could not be made.
    pub fn failed(&self, reason: &str) -> (r: AppError)
        ensures
            r@ == dial_fault(self@.proxy is Some, reason@),
    {
        let context = if self.proxy.is_some() {
            "proxy TCP connection failed"
        } else {
            "direct TCP connection failed"
        };
        proxy_connect_error(context, reason)
    }
}

/// A host and a port in one text; a host with a colon in it stands in brackets.
pub open spec fn authority(host: Seq<char>, port: u16) -> Seq<char> {
    if host.contains(':') && !"["@.is_prefix_of(host) {
        "["@ + host + "]:"@ + text::decimal(port as nat)
    } else {
        host + ":"@ + text::decimal(port as nat)
    }
}

/// A host and a port in one text.
pub fn format_authority(host: &str, port: u16) -> (r: String)
    ensures
        r@ == authority(host@, port),
{
    let number = decimal_text(port as u64);
    if contains_char(host, ':') && !starts_with(host, "[") {
        cat4("[", host, "]:", number.as_str())
    } else {
        cat3(host, ":", number.as_str())
    }
}

/// The character for six bits.
pub open spec fn base64_char(n: int) -> char {
    if n < 26 {
        (n + 65) as char
    } else if n < 52 {
        (n + 71) as char
    } else if n < 62 {
        (n - 4) as char
    } else if n == 62 {
        '+'
    } else {
        '/'
    }
}

/// Up to three bytes as one number, those that are missing taken as zero.
pub open spec fn base64_group(bytes: Seq<u8>) -> int {
    bytes[0] * 65536 + (if bytes.len() > 1 {
        bytes[1] * 256
    } else {
        0
    }) + (if bytes.len() > 2 {
        bytes[2] as int
    } else {
        0
    })
}

/// The four characters for the first three bytes, or for those that are there.
pub open spec fn base64_quad(bytes: Seq<u8>) -> Seq<char> {
    let value = base64_group(bytes);
    seq![
        base64_char(value / 262144),
        base64_char((value / 4096) % 64),
        if bytes.len() > 1 {
            base64_char((value / 64) % 64)
        } else {
            '='
        },
        if bytes.len() > 2 {
            base64_char(value % 64)
        } else {
            '='
        },
    ]
}

/// Bytes in base 64, as RFC 4648 has it.
pub open spec fn base64(bytes: Seq<u8>) -> Seq<char>
    decreases bytes.len(),
{
    if bytes.len() == 0 {
        Seq::empty()
    } else if bytes.len() <= 3 {
        base64_quad(bytes)
    } else {
        base64_quad(bytes) + base64(bytes.skip(3))
    }
}

/// The character for six bits.
fn sextet(n: u32) -> (r: char)
    requires
        n < 64,
    ensures
        r == base64_char(n as int),
{
    if n < 26 {
        (n as u8 + 65) as char
    } else if n < 52 {
        (n as u8 + 71) as char
    } else if n < 62 {
        (n as u8 - 4) as char
    } else if n == 62 {
        '+'
    } else {
        '/'
    }
}

/// Bytes in base 64.
pub fn base64_encode(input: &[u8]) -> (r: String)
    ensures
        r@ == base64(input@),
{
    let mut output = String::new();
    let total: usize = input.len();
    let mut i: usize = 0;
    let ghost whole = base64(input@);
    proof {
        assert(input@.skip(0) =~= input@);
        assert(output@ + whole =~= whole);
    }
    while i < total
        invariant
            i <= total,
            total == input@.len(),
            whole == output@ + base64(input@.skip(i as int)),
        decreases total - i,
    {
        let left: usize = total - i;
        let ghost rest = input@.skip(i as int);
        let first: u32 = input[i] as u32;
        let second: u32 = if left > 1 {
            input[i + 1] as u32
        } else {
            0
        };
        let third: u32 = if left > 2 {
            input[i + 2] as u32
        } else {
            0
        };
        let value: u32 = first * 65536 + second * 256 + third;
        let ghost before = output@;
        proof {
            assert(rest[0] == input@[i as int]);
            if left > 1 {
                assert(rest[1] == input@[i + 1]);
            }
            if left > 2 {
                assert(rest[2] == input@[i + 2]);
            }
            assert(value == base64_group(rest));
        }
        output.push(sextet(value / 262144));
        output.push(sextet((value / 4096) % 64));
        output.push(
            if left > 1 {
                sextet((value / 64) % 64)
            } else {
                '='
            },
        );
        output.push(
            if left > 2 {
                sextet(value % 64)
            } else {
                '='
            },
        );
        assert(output@ =~= before + base64_quad(rest));
        if left <= 3 {
            i = total;
            proof {
                assert(input@.skip(i as int) =~= Seq::empty());
                assert(base64(rest) == base64_quad(rest));
                assert(output@ + Seq::<char>::empty() =~= output@);
            }
        } else {
            i = i + 3;
            proof {
                assert(rest.skip(3) =~= input@.skip(i as int));
                assert(before + (base64_quad(rest) + base64(rest.skip(3))) =~= output@ + base64(
                    rest.skip(3),
                ));
            }
        }
    }
    assert(input@.skip(i as int) =~= Seq::empty());
    assert(output@ =~= whole);
    output
}

/// The six bits that a character stands for.
pub open spec fn base64_value(c: char) -> int {
    let n = c as int;
    if 65 <= n <= 90 {
        n - 65
    } else if 97 <= n <= 122 {
        n - 71
    } else if 48 <= n <= 57 {
        n + 4
    } else if n == 43 {
        62
    } else {
        63
    }
}

/// The bytes that a text in base 64 stands for.
pub open spec fn base64_decoded(text: Seq<char>) -> Seq<u8>
    decreases text.len(),
{
    if text.len() < 4 {
        Seq::empty()
    } else {
        let first = base64_value(text[0]) * 4 + base64_value(text[1]) / 16;
        let second = (base64_value(text[1]) % 16) * 16 + base64_value(text[2]) / 4;
        let third = (base64_value(text[2]) % 4) * 64 + base64_value(text[3]);
        let head = if text[2] == '=' {
            seq![first as u8]
        } else if text[3] == '=' {
            seq![first as u8, second as u8]
        } else {
            seq![first as u8, second as u8, third as u8]
        };
        head + base64_decoded(text.skip(4))
    }
}

/// The character for six bits stands for them, and is no padding.
proof fn lemma_base64_char(n: int)
    requires
        0 <= n < 64,
    ensures
        base64_value(base64_char(n)) == n,
        base64_char(n) != '=',
{
}

/// Three bytes come back from the four groups of six bits that they make.
proof fn lemma_sextets(value: u32, a: u32, b: u32, c: u32)
    by (bit_vector)
    requires
        a < 256,
        b < 256,
        c < 256,
        value == a * 65536 + b * 256 + c,
    ensures
        value < 16777216,
        (value / 262144) * 4 + ((value / 4096) % 64) / 16 == a,
        (((value / 4096) % 64) % 16) * 16 + ((value / 64) % 64) / 4 == b,
        (((value / 64) % 64) % 4) * 64 + value % 64 == c,
{
}

/// The four characters for up to three bytes stand for them.
proof fn lemma_quad(bytes: Seq<u8>)
    requires
        0 < bytes.len(),
    ensures
        ({
            let quad = base64_quad(bytes);
            let first = base64_value(quad[0]) * 4 + base64_value(quad[1]) / 16;
            let second = (base64_value(quad[1]) % 16) * 16 + base64_value(quad[2]) / 4;
            let third = (base64_value(quad[2]) % 4) * 64 + base64_value(quad[3]);
            &&& first == bytes[0]
            &&& (bytes.len() > 1) == (quad[2] != '=')
            &&& (bytes.len() > 2) == (quad[3] != '=')
            &&& bytes.len() > 1 ==> second == bytes[1]
            &&& bytes.len() > 2 ==> third == bytes[2]
        }),
{
    let a = bytes[0] as u32;
    let b = if bytes.len() > 1 {
        bytes[1] as u32
    } else {
        0u32
    };
    let c = if bytes.len() > 2 {
        bytes[2] as u32
    } else {
        0u32
    };
    let value = (a * 65536 + b * 256 + c) as u32;
    assert(value == base64_group(bytes));
    lemma_sextets(value, a, b, c);
    lemma_base64_char((value / 262144) as int);
    lemma_base64_char(((value / 4096) % 64) as int);
    lemma_base64_char(((value / 64) % 64) as int);
    lemma_base64_char((value % 64) as int);
}

/// Bytes written in base 64 read back as they were.
pub proof fn base64_reads_back(bytes: Seq<u8>)
    ensures
        base64_decoded(base64(bytes)) == bytes,
        base64(bytes).len() == 4 * ((bytes.len() + 2) / 3),
    decreases bytes.len(),
{
    let text = base64(bytes);
    if bytes.len() == 0 {
        assert(base64_decoded(text) =~= bytes);
    } else {
        let quad = base64_quad(bytes);
        lemma_quad(bytes);
        assert(text[0] == quad[0] && text[1] == quad[1] && text[2] == quad[2] && text[3] == quad[3]);
        if bytes.len() > 3 {
            base64_reads_back(bytes.skip(3));
            assert(text.skip(4) =~= base64(bytes.skip(3)));
            assert(base64_decoded(text) =~= seq![bytes[0], bytes[1], bytes[2]] + bytes.skip(3));
            assert(seq![bytes[0], bytes[1], bytes[2]] + bytes.skip(3) =~= bytes);
        } else {
            assert(text.skip(4) =~= Seq::empty());
            assert(base64_decoded(text.skip(4)) =~= Seq::empty());
            assert(base64_decoded(text) =~= bytes);
        }
    }
}

/// Whether a character stands for six bits: a letter, a digit, a plus or a slash.
pub open spec fn in_base64_alphabet(c: char) -> bool {
    ('A' <= c && c <= 'Z') || ('a' <= c && c <= 'z') || ('0' <= c && c <= '9') || c == '+' || c
        == '/'
}

/// The number of padding characters at the end of bytes in base 64.
pub open spec fn base64_padding(bytes: Seq<u8>) -> int {
    (3 - bytes.len() % 3) % 3
}

/// The character for six bits is one of the alphabet.
proof fn lemma_base64_alphabet(n: int)
    requires
        0 <= n < 64,
    ensures
        in_base64_alphabet(base64_char(n)),
{
}

/// Up to three bytes make four characters: as many of the alphabet as there are bytes
/// and one more, and then padding.
proof fn lemma_quad_chars(bytes: Seq<u8>)
    requires
        0 < bytes.len(),
    ensures
        ({
            let quad = base64_quad(bytes);
            &&& quad.len() == 4
            &&& in_base64_alphabet(quad[0])
            &&& in_base64_alphabet(quad[1])
            &&& if bytes.len() > 1 {
                in_base64_alphabet(quad[2])
            } else {
                quad[2] == '='
            }
            &&& if bytes.len() > 2 {
                in_base64_alphabet(quad[3])
            } else {
                quad[3] == '='
            }
        }),
{
    let value = base64_group(bytes);
    assert(0 <= value < 16777216);
    lemma_base64_alphabet(value / 262144);
    lemma_base64_alphabet((value / 4096) % 64);
    lemma_base64_alphabet((value / 64) % 64);
    lemma_base64_alphabet(value % 64);
}

/// Bytes in base 64 are characters of its alphabet, four for each three bytes, and at
/// the end as much padding as the last three lack.
pub proof fn base64_has_its_form(bytes: Seq<u8>)
    ensures
        base64(bytes).len() == 4 * ((bytes.len() + 2) / 3),
        base64_padding(bytes) <= base64(bytes).len(),
        forall|i: int|
            0 <= i < base64(bytes).len() - base64_padding(bytes) ==> in_base64_alphabet(
                #[trigger] base64(bytes)[i],
            ),
        forall|i: int|
            base64(bytes).len() - base64_padding(bytes) <= i < base64(bytes).len()
                ==> #[trigger] base64(bytes)[i] == '=',
    decreases bytes.len(),
{
    let text = base64(bytes);
    if bytes.len() > 0 {
        let quad = base64_quad(bytes);
        lemma_quad_chars(bytes);
        if bytes.len() > 3 {
            let rest = bytes.skip(3);
            let tail = base64(rest);
            base64_has_its_form(rest);
            assert(base64_padding(rest) == base64_padding(bytes));
            assert(text =~= quad + tail);
            assert forall|i: int| 0 <= i < text.len() - base64_padding(bytes) implies in_base64_alphabet(
                #[trigger] text[i],
            ) by {
                if i < 4 {
                    assert(text[i] == quad[i]);
                } else {
                    assert(text[i] == tail[i - 4]);
                }
            }
            assert forall|i: int|
                text.len() - base64_padding(bytes) <= i < text.len() implies #[trigger] text[i]
                == '=' by {
                assert(text[i] == tail[i - 4]);
            }
        }
    }
}

/// Different bytes are written differently in base 64.
pub proof fn base64_tells_apart(a: Seq<u8>, b: Seq<u8>)
    requires
        a != b,
    ensures
        base64(a) != base64(b),
{
    base64_reads_back(a);
    base64_reads_back(b);
}

/// The credentials of a proxy as an HTTP proxy wants them.
pub open spec fn basic_credentials(username: Seq<char>, password: Option<Seq<char>>) -> Seq<char> {
    base64(
        encode_utf8(
            username + ":"@ + (match password {
                Some(password) => password,
                None => Seq::empty(),
            }),
        ),
    )
}

/// What is sent to an HTTP proxy.
pub open spec fn connect_request(host: Seq<char>, port: u16, proxy: ProxyRequestView) -> Seq<char> {
    "CONNECT "@ + authority(host, port) + " HTTP/1.1\r\nHost: "@ + authority(host, port)
        + "\r\nProxy-Connection: Keep-Alive\r\n"@ + (match proxy.username {
        Some(username) => "Proxy-Authorization: Basic "@ + basic_credentials(
            username,
            proxy.password,
        ) + "\r\n"@,
        None => Seq::empty(),
    }) + "\r\n"@
}

/// What is sent to an HTTP proxy. The texts that hold the password on the way are
/// wiped.
pub fn http_connect_request(host: &str, port: u16, proxy: &ProxyRequest) -> (r: String)
    ensures
        r@ == connect_request(host@, port, proxy@),
{
    let target = format_authority(host, port);
    let mut request = cat5(
        "CONNECT ",
        target.as_str(),
        " HTTP/1.1\r\nHost: ",
        target.as_str(),
        "\r\nProxy-Connection: Keep-Alive\r\n",
    );
    let ghost head = request@;
    if let Some(username) = &proxy.username {
        let mut password = match &proxy.password {
            Some(password) => password.clone(),
            None => String::new(),
        };
        let mut credentials = cat3(username.as_str(), ":", password.as_str());
        let mut encoded = base64_encode(credentials.as_str().as_bytes());
        proof {
            assert(password@ =~= (match proxy@.password {
                Some(password) => password,
                None => Seq::empty(),
            }));
            assert(encoded@ == basic_credentials(username@, proxy@.password));
        }
        let text = cat3("Proxy-Authorization: Basic ", encoded.as_str(), "\r\n");
        request.append(text.as_str());
        wipe(&mut password);
        wipe(&mut credentials);
        wipe(&mut encoded);
    } else {
        assert(head + Seq::<char>::empty() =~= head);
    }
    request.append("\r\n");
    request
}

/// Whether bytes end the header of an HTTP answer.
pub open spec fn header_ends(header: Seq<u8>) -> bool {
    header.len() >= 4 && header.subrange(header.len() - 4, header.len() as int) == seq![
        13u8,
        10u8,
        13u8,
        10u8,
    ]
}

/// What comes next while the header of an HTTP answer is read.
#[derive(Debug)]
pub enum HeaderStep {
    /// One more byte is read.
    Read,
    /// The header is complete.
    Complete,
    /// The header is too long.
    Refuse(AppError),
}

/// What comes next after this much of the header of an HTTP answer was read.
pub fn next_header_step(header: &Vec<u8>) -> (r: HeaderStep)
    ensures
        match r {
            HeaderStep::Complete => header_ends(header@),
            HeaderStep::Read => !header_ends(header@) && header@.len() < MAX_HTTP_RESPONSE_HEADER,
            HeaderStep::Refuse(error) => !header_ends(header@) && header@.len()
                >= MAX_HTTP_RESPONSE_HEADER && error@ == proxy_protocol_fault(
                "HTTP CONNECT response header exceeded 16 KiB"@,
            ),
        },
{
    let n: usize = header.len();
    if n >= 4 && header[n - 4] == 13 && header[n - 3] == 10 && header[n - 2] == 13 && header[n - 1]
        == 10 {
        assert(header@.subrange(n - 4, n as int) =~= seq![13u8, 10u8, 13u8, 10u8]);
        return HeaderStep::Complete;
    }
    proof {
        if header_ends(header@) {
            let end = header@.subrange(n - 4, n as int);
            assert(end[0] == 13 && end[1] == 10 && end[2] == 13 && end[3] == 10);
        }
    }
    if n >= MAX_HTTP_RESPONSE_HEADER {
        return HeaderStep::Refuse(
            proxy_protocol_error("HTTP CONNECT response header exceeded 16 KiB"),
        );
    }
    HeaderStep::Read
}

/// The first line of a text, without its end.
pub open spec fn first_line(s: Seq<char>) -> Seq<char> {
    match text::first_position(s, '\n') {
        Some(at) => if at > 0 && s[at - 1] == '\r' {
            s.take(at - 1)
        } else {
            s.take(at)
        },
        None => s,
    }
}

/// The first line of a text, without its end.
fn line_of(text: &str) -> (r: String)
    ensures
        r@ == first_line(text@),
{
    let chars = chars_of(text);
    match find_first(&chars, '\n') {
        Some(at) => {
            let to: usize = if at > 0 && chars[at - 1] == '\r' {
                at - 1
            } else {
                at
            };
            assert(chars@.subrange(0, to as int) =~= text@.take(to as int));
            text_between(&chars, 0, to)
        },
        None => text.to_owned(),
    }
}

/// The status of an HTTP answer: the second word of its first line.
pub open spec fn status_of(text: Seq<char>) -> Option<nat> {
    let parts = text::words(first_line(text), true);
    if parts.len() > 1 {
        text::number(parts[1], 65535)
    } else {
        None
    }
}

/// What is wrong with the answer of an HTTP proxy.
pub open spec fn connect_response_fault(header: Seq<u8>) -> Option<ErrorView> {
    if !valid_utf8(header) {
        Some(proxy_protocol_fault("HTTP CONNECT response was not valid UTF-8"@))
    } else {
        match status_of(decode_utf8(header)) {
            None => Some(proxy_protocol_fault("HTTP CONNECT response had no valid status"@)),
            Some(status) => if 200 <= status <= 299 {
                None
            } else if status == 407 {
                Some(
                    error::ssh_error(
                        "PROXY-AUTH-FAILED"@,
                        "代理服务器拒绝了认证信息"@,
                        "HTTP CONNECT returned status 407"@,
                        true,
                    ),
                )
            } else {
                Some(
                    error::ssh_error(
                        "PROXY-CONNECT-FAILED"@,
                        "代理服务器拒绝了目标连接"@,
                        "HTTP CONNECT returned status "@ + text::decimal(status),
                        true,
                    ),
                )
            },
        }
    }
}

/// Reads the answer of an HTTP proxy.
pub fn http_connect_response(header: &Vec<u8>) -> (r: Result<(), AppError>)
    ensures
        error::error_of(r) == connect_response_fault(header@),
{
    let text = match utf8_text(header) {
        Ok(text) => text,
        Err(_) => {
            return Err(proxy_protocol_error("HTTP CONNECT response was not valid UTF-8"));
        },
    };
    let line = line_of(text.as_str());
    let parts = words_of(line.as_str(), true);
    let status: Option<u64> = if parts.len() > 1 {
        assert(parts.deep_view()[1] == parts@[1]@);
        parse_number(parts[1].as_str(), 65535)
    } else {
        None
    };
    match status {
        None => Err(proxy_protocol_error("HTTP CONNECT response had no valid status")),
        Some(status) => if status >= 200 && status <= 299 {
            Ok(())
        } else if status == 407 {
            Err(
                AppError::ssh(
                    "PROXY-AUTH-FAILED",
                    "代理服务器拒绝了认证信息",
                    "HTTP CONNECT returned status 407",
                    true,
                ),
            )
        } else {
            Err(
                AppError::ssh(
                    "PROXY-CONNECT-FAILED",
                    "代理服务器拒绝了目标连接",
                    cat2("HTTP CONNECT returned status ", decimal_text(status).as_str()).as_str(),
                    true,
                ),
            )
        },
    }
}

/// A host as a SOCKS5 proxy wants it, where `octets` is the address that it reads
/// as: the kind of address and its bytes, or the length of the name and the name.
pub open spec fn socks_address(host: Seq<char>, octets: Option<Seq<u8>>) -> Result<
    Seq<u8>,
    ErrorView,
> {
    match octets {
        Some(octets) => if octets.len() == 4 {
            Ok(seq![1u8] + octets)
        } else {
            Ok(seq![4u8] + octets)
        },
        None => if host.len() == 0 || text::utf8_len(host) > 255 || host.contains('\0') {
            Err(error::validation_error("代理目标主机地址无效"@))
        } else {
            Ok(seq![3u8, text::utf8_len(host) as u8] + encode_utf8(host))
        },
    }
}

/// What asks a SOCKS5 proxy to connect to a target.
pub open spec fn socks_connect_request(
    host: Seq<char>,
    port: u16,
    octets: Option<Seq<u8>>,
) -> Result<Seq<u8>, ErrorView> {
    match socks_address(host, octets) {
        Err(error) => Err(error),
        Ok(address) => Ok(
            seq![5u8, 1u8, 0u8] + address + seq![(port / 256) as u8, (port % 256) as u8],
        ),
    }
}

/// Adds bytes at the end.
pub fn append_bytes(buffer: &mut Vec<u8>, more: &[u8])
    ensures
        final(buffer)@ == old(buffer)@ + more@,
{
    let ghost before = buffer@;
    let mut i: usize = 0;
    assert(before + more@.take(0) =~= before);
    while i < more.len()
        invariant
            i <= more@.len(),
            buffer@ == before + more@.take(i as int),
        decreases more@.len() - i,
    {
        buffer.push(more[i]);
        assert(more@.take(i + 1) =~= more@.take(i as int).push(more@[i as int]));
        assert(buffer@ =~= before + more@.take(i + 1));
        i = i + 1;
    }
    assert(more@.take(i as int) =~= more@);
}

/// Adds a host as a SOCKS5 proxy wants it, given the address that it reads as.
pub fn encode_socks_host(buffer: &mut Vec<u8>, host: &str, octets: &Option<Vec<u8>>) -> (r: Result<
    (),
    AppError,
>)
    ensures
        match socks_address(host@, octets.deep_view()) {
            Ok(address) => r is Ok && final(buffer)@ == old(buffer)@ + address,
            Err(error) => error::error_of(r) == Some(error) && final(buffer)@ == old(buffer)@,
        },
{
    let ghost before = buffer@;
    match octets {
        Some(octets) => {
            assert(octets.deep_view() =~= octets@);
            if octets.len() == 4 {
                buffer.push(1);
            } else {
                buffer.push(4);
            }
            append_bytes(buffer, octets.as_slice());
            assert(buffer@ =~= before + socks_address(host@, Some(octets@))->Ok_0);
        },
        None => {
            if char_len(host) == 0 || byte_len(host) > 255 || contains_char(host, '\0') {
                return Err(AppError::validation("代理目标主机地址无效"));
            }
            buffer.push(3);
            buffer.push(byte_len(host) as u8);
            append_bytes(buffer, host.as_bytes());
            assert(buffer@ =~= before + socks_address(host@, None)->Ok_0);
        },
    }
    Ok(())
}

/// Adds a host as a SOCKS5 proxy wants it.
pub fn encode_socks_address(buffer: &mut Vec<u8>, host: &str) -> (r: Result<(), AppError>)
    ensures
        match socks_address(host@, outside::ip_octets_of(host@)) {
            Ok(address) => r is Ok && final(buffer)@ == old(buffer)@ + address,
            Err(error) => error::error_of(r) == Some(error) && final(buffer)@ == old(buffer)@,
        },
{
    encode_socks_host(buffer, host, &ip_octets(host))
}

/// How far the talk with a SOCKS5 proxy has come.
#[derive(Debug)]
pub enum SocksStep {
    /// The ways to log in are offered.
    SendMethods,
    /// The way that the proxy picked is read.
    ReadMethod,
    /// The credentials are sent.
    SendCredentials,
    /// The answer to the credentials is read.
    ReadVerdict,
    /// The target is sent.
    SendTarget,
    /// The start of the answer is read.
    ReadReply,
    /// The length of the name in the answer is read.
    ReadNameLength,
    /// The rest of the answer is read.
    ReadRest { length: usize },
    /// The connection stands.
    Connected,
    /// The connection failed.
    Failed { error: AppError },
}

/// What a [`SocksStep`] says.
#[verifier::ext_equal]
pub enum SocksStepView {
    SendMethods,
    ReadMethod,
    SendCredentials,
    ReadVerdict,
    SendTarget,
    ReadReply,
    ReadNameLength,
    ReadRest { length: int },
    Connected,
    Failed { error: ErrorView },
}

impl View for SocksStep {
    type V = SocksStepView;

    open spec fn view(&self) -> SocksStepView {
        match self {
            SocksStep::SendMethods => SocksStepView::SendMethods,
            SocksStep::ReadMethod => SocksStepView::ReadMethod,
            SocksStep::SendCredentials => SocksStepView::SendCredentials,
            SocksStep::ReadVerdict => SocksStepView::ReadVerdict,
            SocksStep::SendTarget => SocksStepView::SendTarget,
            SocksStep::ReadReply => SocksStepView::ReadReply,
            SocksStep::ReadNameLength => SocksStepView::ReadNameLength,
            SocksStep::ReadRest { length } => SocksStepView::ReadRest { length: *length as int },
            SocksStep::Connected => SocksStepView::Connected,
            SocksStep::Failed { error } => SocksStepView::Failed { error: error@ },
        }
    }
}

/// What the caller does next on the connection to the proxy.
#[derive(Debug)]
pub enum SocksAction {
    Write(Vec<u8>),
    Read(usize),
    Finish,
}

/// What a [`SocksAction`] says.
#[verifier::ext_equal]
pub enum SocksActionView {
    Write(Seq<u8>),
    Read(int),
    Finish,
}

impl View for SocksAction {
    type V = SocksActionView;

    open spec fn view(&self) -> SocksActionView {
        match self {
            SocksAction::Write(bytes) => SocksActionView::Write(bytes@),
            SocksAction::Read(count) => SocksActionView::Read(*count as int),
            SocksAction::Finish => SocksActionView::Finish,
        }
    }
}

/// The ways to log in that are offered to a SOCKS5 proxy.
pub open spec fn socks_methods(proxy: ProxyRequestView) -> Seq<u8> {
    if proxy.username is Some {
        seq![5u8, 2u8, 0u8, 2u8]
    } else {
        seq![5u8, 1u8, 0u8]
    }
}

/// The text of an optional value.
pub open spec fn text_or_empty(value: Option<Seq<char>>) -> Seq<char> {
    match value {
        Some(text) => text,
        None => Seq::empty(),
    }
}

/// The credentials as a SOCKS5 proxy wants them.
pub open spec fn socks_credentials(proxy: ProxyRequestView) -> Seq<u8> {
    let username = encode_utf8(text_or_empty(proxy.username));
    let password = encode_utf8(text_or_empty(proxy.password));
    seq![1u8, username.len() as u8] + username + seq![password.len() as u8] + password
}

/// What the caller does in a step. `target` is what asks for the target.
pub open spec fn socks_action(
    step: SocksStepView,
    proxy: ProxyRequestView,
    target: Result<Seq<u8>, ErrorView>,
) -> SocksActionView {
    match step {
        SocksStepView::SendMethods => SocksActionView::Write(socks_methods(proxy)),
        SocksStepView::ReadMethod => SocksActionView::Read(2),
        SocksStepView::SendCredentials => SocksActionView::Write(socks_credentials(proxy)),
        SocksStepView::ReadVerdict => SocksActionView::Read(2),
        SocksStepView::SendTarget => match target {
            Ok(bytes) => SocksActionView::Write(bytes),
            Err(_) => SocksActionView::Finish,
        },
        SocksStepView::ReadReply => SocksActionView::Read(4),
        SocksStepView::ReadNameLength => SocksActionView::Read(1),
        SocksStepView::ReadRest { length } => SocksActionView::Read(length),
        SocksStepView::Connected => SocksActionView::Finish,
        SocksStepView::Failed { .. } => SocksActionView::Finish,
    }
}

/// What failed where the connection broke in a step.
pub open spec fn socks_context(step: SocksStepView) -> Seq<char> {
    match step {
        SocksStepView::SendMethods => "failed to write SOCKS5 method negotiation"@,
        SocksStepView::ReadMethod => "failed to read SOCKS5 method negotiation"@,
        SocksStepView::SendCredentials => "failed to write SOCKS5 authentication request"@,
        SocksStepView::ReadVerdict => "failed to read SOCKS5 authentication response"@,
        SocksStepView::SendTarget => "failed to write SOCKS5 CONNECT request"@,
        SocksStepView::ReadReply => "failed to read SOCKS5 CONNECT response"@,
        SocksStepView::ReadNameLength => "failed to read SOCKS5 bound domain length"@,
        _ => "failed to read SOCKS5 bound address"@,
    }
}

/// The step after the connection failed with an error.
pub open spec fn socks_failed(error: ErrorView) -> SocksStepView {
    SocksStepView::Failed { error }
}

/// The step in which the target is sent, or the failure where it cannot be.
pub open spec fn socks_target_step(target: Result<Seq<u8>, ErrorView>) -> SocksStepView {
    match target {
        Ok(_) => SocksStepView::SendTarget,
        Err(error) => socks_failed(error),
    }
}

/// The step after the proxy picked a way to log in.
pub open spec fn after_method(
    method: Seq<u8>,
    proxy: ProxyRequestView,
    target: Result<Seq<u8>, ErrorView>,
) -> SocksStepView {
    if method[0] != 5 {
        socks_failed(proxy_protocol_fault("SOCKS5 server returned an invalid version"@))
    } else if method[1] == 0 {
        socks_target_step(target)
    } else if method[1] == 2 && proxy.username is Some {
        SocksStepView::SendCredentials
    } else if method[1] == 255 {
        socks_failed(
            error::ssh_error(
                "PROXY-AUTH-FAILED"@,
                "代理服务器不接受当前认证方式"@,
                "SOCKS5 server rejected all authentication methods"@,
                true,
            ),
        )
    } else {
        socks_failed(
            proxy_protocol_fault(
                "SOCKS5 server selected unsupported method "@ + text::decimal(method[1] as nat),
            ),
        )
    }
}

/// The step after the proxy answered the credentials.
pub open spec fn after_verdict(verdict: Seq<u8>, target: Result<Seq<u8>, ErrorView>) -> SocksStepView {
    if verdict[0] == 1 && verdict[1] == 0 {
        socks_target_step(target)
    } else {
        socks_failed(
            error::ssh_error(
                "PROXY-AUTH-FAILED"@,
                "SOCKS5 代理拒绝了认证信息"@,
                "SOCKS5 username/password authentication failed"@,
                true,
            ),
        )
    }
}

/// The step after the start of the answer to the target.
pub open spec fn after_reply(reply: Seq<u8>) -> SocksStepView {
    if reply[0] != 5 || reply[2] != 0 {
        socks_failed(proxy_protocol_fault("SOCKS5 CONNECT response header was invalid"@))
    } else if reply[1] != 0 {
        socks_failed(
            error::ssh_error(
                "PROXY-CONNECT-FAILED"@,
                "SOCKS5 代理无法连接目标服务器"@,
                "SOCKS5 CONNECT returned reply code "@ + text::decimal(reply[1] as nat),
                true,
            ),
        )
    } else if reply[3] == 1 {
        SocksStepView::ReadRest { length: 6 }
    } else if reply[3] == 4 {
        SocksStepView::ReadRest { length: 18 }
    } else if reply[3] == 3 {
        SocksStepView::ReadNameLength
    } else {
        socks_failed(proxy_protocol_fault("SOCKS5 response used an invalid address type"@))
    }
}

/// The step after the caller wrote, or read `received`.
pub open spec fn socks_after(
    step: SocksStepView,
    received: Seq<u8>,
    proxy: ProxyRequestView,
    target: Result<Seq<u8>, ErrorView>,
) -> SocksStepView {
    match step {
        SocksStepView::SendMethods => SocksStepView::ReadMethod,
        SocksStepView::ReadMethod => after_method(received, proxy, target),
        SocksStepView::SendCredentials => SocksStepView::ReadVerdict,
        SocksStepView::ReadVerdict => after_verdict(received, target),
        SocksStepView::SendTarget => SocksStepView::ReadReply,
        SocksStepView::ReadReply => after_reply(received),
        SocksStepView::ReadNameLength => SocksStepView::ReadRest { length: received[0] + 2 },
        SocksStepView::ReadRest { .. } => SocksStepView::Connected,
        SocksStepView::Connected => step,
        SocksStepView::Failed { .. } => step,
    }
}

/// How many bytes a step reads.
pub open spec fn socks_reads(step: SocksStepView) -> int {
    match step {
        SocksStepView::ReadMethod => 2,
        SocksStepView::ReadVerdict => 2,
        SocksStepView::ReadReply => 4,
        SocksStepView::ReadNameLength => 1,
        SocksStepView::ReadRest { length } => length,
        _ => 0,
    }
}

/// A talk with a SOCKS5 proxy.
pub struct SocksClient {
    proxy: ProxyRequest,
    target: Result<Vec<u8>, AppError>,
    step: SocksStep,
}

impl SocksClient {
    /// The proxy.
    pub closed spec fn proxy(self) -> ProxyRequestView {
        self.proxy@
    }

    /// What asks for the target.
    pub closed spec fn target(self) -> Result<Seq<u8>, ErrorView> {
        match self.target {
            Ok(bytes) => Ok(bytes@),
            Err(error) => Err(error@),
        }
    }

    /// How far the talk has come.
    pub closed spec fn step(self) -> SocksStepView {
        self.step@
    }

    /// Starts a talk, given the address that the host reads as.
    pub fn start(host: &str, port: u16, proxy: &ProxyRequest, octets: &Option<Vec<u8>>) -> (r: Self)
        ensures
            r.proxy() == proxy@,
            r.target() == socks_connect_request(host@, port, octets.deep_view()),
            r.step() == SocksStepView::SendMethods,
    {
        let mut bytes: Vec<u8> = Vec::new();
        bytes.push(5);
        bytes.push(1);
        bytes.push(0);
        assert(bytes@ =~= seq![5u8, 1u8, 0u8]);
        let target = match encode_socks_host(&mut bytes, host, octets) {
            Ok(()) => {
                let ghost head = bytes@;
                bytes.push((port / 256) as u8);
                bytes.push((port % 256) as u8);
                assert(bytes@ =~= head + seq![(port / 256) as u8, (port % 256) as u8]);
                Ok(bytes)
            },
            Err(error) => Err(error),
        };
        SocksClient { proxy: proxy.duplicate(), target, step: SocksStep::SendMethods }
    }

    /// Starts a talk that asks for a target.
    pub fn new(host: &str, port: u16, proxy: &ProxyRequest) -> (r: Self)
        ensures
            r.proxy() == proxy@,
            r.target() == socks_connect_request(host@, port, outside::ip_octets_of(host@)),
            r.step() == SocksStepView::SendMethods,
    {
        SocksClient::start(host, port, proxy, &ip_octets(host))
    }

    /// What the caller does next.
    pub fn action(&self) -> (r: SocksAction)
        requires
            proxy_fault(self.proxy()) is None,
        ensures
            r@ == socks_action(self.step(), self.proxy(), self.target()),
    {
        match &self.step {
            SocksStep::SendMethods => {
                let mut bytes: Vec<u8> = Vec::new();
                bytes.push(5);
                if self.proxy.username.is_some() {
                    bytes.push(2);
                    bytes.push(0);
                    bytes.push(2);
                } else {
                    bytes.push(1);
                    bytes.push(0);
                }
                assert(bytes@ =~= socks_methods(self.proxy()));
                SocksAction::Write(bytes)
            },
            SocksStep::ReadMethod => SocksAction::Read(2),
            SocksStep::SendCredentials => {
                let username = match &self.proxy.username {
                    Some(text) => text.clone(),
                    None => String::new(),
                };
                let mut password = match &self.proxy.password {
                    Some(text) => text.clone(),
                    None => String::new(),
                };
                proof {
                    assert(username@ =~= text_or_empty(self.proxy().username));
                    assert(password@ =~= text_or_empty(self.proxy().password));
                }
                let mut bytes: Vec<u8> = Vec::new();
                bytes.push(1);
                bytes.push(byte_len(username.as_str()) as u8);
                assert(bytes@ =~= seq![1u8, encode_utf8(username@).len() as u8]);
                append_bytes(&mut bytes, username.as_str().as_bytes());
                bytes.push(byte_len(password.as_str()) as u8);
                append_bytes(&mut bytes, password.as_str().as_bytes());
                assert(bytes@ =~= socks_credentials(self.proxy()));
                wipe(&mut password);
                SocksAction::Write(bytes)
            },
            SocksStep::ReadVerdict => SocksAction::Read(2),
            SocksStep::SendTarget => match &self.target {
                Ok(bytes) => SocksAction::Write(clone_bytes(bytes)),
                Err(_) => SocksAction::Finish,
            },
            SocksStep::ReadReply => SocksAction::Read(4),
            SocksStep::ReadNameLength => SocksAction::Read(1),
            SocksStep::ReadRest { length } => SocksAction::Read(*length),
            SocksStep::Connected => SocksAction::Finish,
            SocksStep::Failed { .. } => SocksAction::Finish,
        }
    }

    /// The step in which the target is sent, or the failure where it cannot be.
    fn target_step(&self) -> (r: SocksStep)
        ensures
            r@ == socks_target_step(self.target()),
    {
        match &self.target {
            Ok(_) => SocksStep::SendTarget,
            Err(error) => SocksStep::Failed { error: error.duplicate() },
        }
    }

    /// Goes on after the caller wrote, or read as many bytes as were asked for.
    pub fn advance(&mut self, received: &Vec<u8>)
        requires
            received@.len() == socks_reads(old(self).step()),
        ensures
            final(self).proxy() == old(self).proxy(),
            final(self).target() == old(self).target(),
            final(self).step() == socks_after(
                old(self).step(),
                received@,
                old(self).proxy(),
                old(self).target(),
            ),
    {
        let next = match &self.step {
            SocksStep::SendMethods => SocksStep::ReadMethod,
            SocksStep::ReadMethod => {
                if received[0] != 5 {
                    SocksStep::Failed {
                        error: proxy_protocol_error("SOCKS5 server returned an invalid version"),
                    }
                } else if received[1] == 0 {
                    self.target_step()
                } else if received[1] == 2 && self.proxy.username.is_some() {
                    SocksStep::SendCredentials
                } else if received[1] == 255 {
                    SocksStep::Failed {
                        error: AppError::ssh(
                            "PROXY-AUTH-FAILED",
                            "代理服务器不接受当前认证方式",
                            "SOCKS5 server rejected all authentication methods",
                            true,
                        ),
                    }
                } else {
                    SocksStep::Failed {
                        error: proxy_protocol_error(
                            cat2(
                                "SOCKS5 server selected unsupported method ",
                                decimal_text(received[1] as u64).as_str(),
                            ).as_str(),
                        ),
                    }
                }
            },
            SocksStep::SendCredentials => SocksStep::ReadVerdict,
            SocksStep::ReadVerdict => {
                if received[0] == 1 && received[1] == 0 {
                    self.target_step()
                } else {
                    SocksStep::Failed {
                        error: AppError::ssh(
                            "PROXY-AUTH-FAILED",
                            "SOCKS5 代理拒绝了认证信息",
                            "SOCKS5 username/password authentication failed",
                            true,
                        ),
                    }
                }
            },
            SocksStep::SendTarget => SocksStep::ReadReply,
            SocksStep::ReadReply => {
                if received[0] != 5 || received[2] != 0 {
                    SocksStep::Failed {
                        error: proxy_protocol_error("SOCKS5 CONNECT response header was invalid"),
                    }
                } else if received[1] != 0 {
                    SocksStep::Failed {
                        error: AppError::ssh(
                            "PROXY-CONNECT-FAILED",
                            "SOCKS5 代理无法连接目标服务器",
                            cat2(
                                "SOCKS5 CONNECT returned reply code ",
                                decimal_text(received[1] as u64).as_str(),
                            ).as_str(),
                            true,
                        ),
                    }
                } else if received[3] == 1 {
                    SocksStep::ReadRest { length: 6 }
                } else if received[3] == 4 {
                    SocksStep::ReadRest { length: 18 }
                } else if received[3] == 3 {
                    SocksStep::ReadNameLength
                } else {
                    SocksStep::Failed {
                        error: proxy_protocol_error(
                            "SOCKS5 response used an invalid address type",
                        ),
                    }
                }
            },
            SocksStep::ReadNameLength => SocksStep::ReadRest { length: received[0] as usize + 2 },
            SocksStep::ReadRest { .. } => SocksStep::Connected,
            SocksStep::Connected => SocksStep::Connected,
            SocksStep::Failed { error } => SocksStep::Failed { error: error.duplicate() },
        };
        self.step = next;
    }

    /// The error for a connection that broke now.
    pub fn broken(&self, reason: &str) -> (r: AppError)
        ensures
            r@ == proxy_connect_fault(socks_context(self.step()), reason@),
    {
        let context = match &self.step {
            SocksStep::SendMethods => "failed to write SOCKS5 method negotiation",
            SocksStep::ReadMethod => "failed to read SOCKS5 method negotiation",
            SocksStep::SendCredentials => "failed to write SOCKS5 authentication request",
            SocksStep::ReadVerdict => "failed to read SOCKS5 authentication response",
            SocksStep::SendTarget => "failed to write SOCKS5 CONNECT request",
            SocksStep::ReadReply => "failed to read SOCKS5 CONNECT response",
            SocksStep::ReadNameLength => "failed to read SOCKS5 bound domain length",
            _ => "failed to read SOCKS5 bound address",
        };
        proxy_connect_error(context, reason)
    }

    /// Whether the connection stands, once the talk is over.
    pub fn outcome(self) -> (r: Option<Result<(), AppError>>)
        ensures
            match r {
                None => !(self.step() is Connected) && !(self.step() is Failed),
                Some(Ok(())) => self.step() is Connected,
                Some(Err(error)) => self.step() == socks_failed(error@),
            },
    {
        match self.step {
            SocksStep::Connected => Some(Ok(())),
            SocksStep::Failed { error } => Some(Err(error)),
            _ => None,
        }
    }
}

/// No header line can be added to what is sent to an HTTP proxy: the target that
/// passes its check has no line break.
pub proof fn checked_target_has_no_break(
    host: Seq<char>,
    port: u16,
    proxy: Option<ProxyRequestView>,
)
    ensures
        dialled(host, port, proxy) is Ok ==> !host.contains('\r') && !host.contains('\n'),
{
}

/// What a SOCKS5 proxy is sent for credentials gives their lengths: each fits in
/// one byte.
pub proof fn checked_credentials_fit(proxy: ProxyRequestView)
    requires
        proxy_fault(proxy) is None,
    ensures
        ({
            let username = encode_utf8(text_or_empty(proxy.username));
            let password = encode_utf8(text_or_empty(proxy.password));
            let sent = socks_credentials(proxy);
            &&& sent[1] == username.len()
            &&& sent[2 + username.len() as int] == password.len()
            &&& sent.len() == 3 + username.len() + password.len()
        }),
{
}

/// A connection is dialled at its own address where it has no proxy and at the proxy where
/// it has one, if and only if the host and the proxy can be meant.
pub proof fn connections_are_dialled_as_asked(
    host: Seq<char>,
    port: u16,
    proxy: Option<ProxyRequestView>,
)
    ensures
        dialled(host, port, proxy) is Ok <==> {
            &&& text::trim(host).len() > 0 && text::utf8_len(host) <= 255 && !text::breaks_line(
                host,
            )
            &&& proxy matches Some(proxy) ==> {
                &&& text::trim(proxy.host).len() > 0
                &&& text::utf8_len(proxy.host) <= 255
                &&& !text::breaks_line(proxy.host)
                &&& proxy.username matches Some(user) ==> user.len() > 0 && text::utf8_len(user)
                    <= 255 && !text::breaks_line(user)
                &&& proxy.password matches Some(word) ==> text::utf8_len(word) <= 255
                    && !text::breaks_line(word)
            }
        },
        match (proxy, dialled(host, port, proxy)) {
            (None, Ok(dial)) => dial.host == host && dial.port == port && dial.proxy is None,
            (Some(proxy), Ok(dial)) => dial.host == proxy.host && dial.port == proxy.port
                && dial.proxy == Some(proxy.proxy_type),
            _ => true,
        },
{
}

/// An address is written as the host, a colon and the port, with brackets round a host that
/// has colons itself.
pub proof fn addresses_end_in_their_port(host: Seq<char>, port: u16)
    ensures
        (":"@ + text::decimal(port as nat)).is_suffix_of(authority(host, port)),
        !host.contains(':') ==> authority(host, port) == host + ":"@ + text::decimal(port as nat),
        host.contains(':') && host[0] != '[' ==> authority(host, port)[0] == '[' && authority(
            host,
            port,
        ).subrange(1, host.len() as int + 1) == host,
{
    reveal_strlit("[");
    reveal_strlit("]:");
    reveal_strlit(":");
    let whole = authority(host, port);
    let tail = ":"@ + text::decimal(port as nat);
    assert("]:"@ =~= "]"@ + ":"@) by {
        reveal_strlit("]");
    }
    assert(whole.skip(whole.len() - tail.len()) =~= tail);
    if host.contains(':') && host[0] != '[' {
        assert(!"["@.is_prefix_of(host)) by {
            if "["@.is_prefix_of(host) {
                assert(host.take(1)[0] == "["@[0]);
            }
        }
        assert(whole.subrange(1, host.len() as int + 1) =~= host);
    }
}

/// The credentials that an HTTP proxy gets are the user, a colon and the password.
pub proof fn credentials_read_back(username: Seq<char>, password: Option<Seq<char>>)
    ensures
        base64_decoded(basic_credentials(username, password)) == encode_utf8(
            username + ":"@ + match password {
                Some(password) => password,
                None => Seq::empty(),
            },
        ),
{
    base64_reads_back(
        encode_utf8(
            username + ":"@ + match password {
                Some(password) => password,
                None => Seq::empty(),
            },
        ),
    );
}

/// An HTTP proxy is asked to connect to the address that is wanted, and gets credentials if
/// and only if it has a user; the request ends with an empty line.
pub proof fn proxies_are_asked_for_the_address(
    host: Seq<char>,
    port: u16,
    proxy: ProxyRequestView,
)
    ensures
        ({
            let request = connect_request(host, port, proxy);
            let line = "CONNECT "@ + authority(host, port) + " HTTP/1.1\r\n"@;
            let headers = "Host: "@ + authority(host, port)
                + "\r\nProxy-Connection: Keep-Alive\r\n"@;
            &&& line.is_prefix_of(request)
            &&& "\r\n"@.is_suffix_of(request)
            &&& proxy.username is None ==> request == line + headers + "\r\n"@
            &&& proxy.username matches Some(user) ==> request == line + headers
                + "Proxy-Authorization: Basic "@ + basic_credentials(user, proxy.password)
                + "\r\n\r\n"@
        }),
{
    reveal_strlit(" HTTP/1.1\r\nHost: ");
    reveal_strlit(" HTTP/1.1\r\n");
    reveal_strlit("Host: ");
    reveal_strlit("\r\n\r\n");
    reveal_strlit("\r\n");
    assert(" HTTP/1.1\r\nHost: "@ =~= " HTTP/1.1\r\n"@ + "Host: "@);
    assert("\r\n\r\n"@ =~= "\r\n"@ + "\r\n"@);
    let request = connect_request(host, port, proxy);
    let line = "CONNECT "@ + authority(host, port) + " HTTP/1.1\r\n"@;
    let headers = "Host: "@ + authority(host, port) + "\r\nProxy-Connection: Keep-Alive\r\n"@;
    match proxy.username {
        Some(user) => {
            let given = basic_credentials(user, proxy.password);
            assert(request =~= line + headers + "Proxy-Authorization: Basic "@ + given
                + "\r\n\r\n"@);
        },
        None => {
            assert(request =~= line + headers + "\r\n"@);
        },
    }
    assert(request.take(line.len() as int) =~= line);
    assert(request.skip(request.len() - 2) =~= "\r\n"@);
}

/// An HTTP proxy has connected if and only if its status is from 200 to 299; 407 is told as
/// refused credentials, any other status as a refusal, and an answer without one as no
/// answer of a proxy.
pub proof fn proxy_answers_are_read(header: Seq<u8>)
    ensures
        ({
            let status = status_of(decode_utf8(header));
            match connect_response_fault(header) {
                None => valid_utf8(header) && (status matches Some(code) && 200 <= code <= 299),
                Some(error) => if !valid_utf8(header) || status is None {
                    error.code == "PROXY-PROTOCOL-FAILED"@ && !error.retryable
                } else if status == Some(407nat) {
                    error.code == "PROXY-AUTH-FAILED"@ && error.retryable
                } else {
                    error.code == "PROXY-CONNECT-FAILED"@ && error.retryable && !(200 <= status->0
                        <= 299)
                },
            }
        }),
{
}

/// A SOCKS proxy is asked to connect to the host and the port that are wanted: an address of
/// four or sixteen bytes by its bytes, and any other host by its name and its length; the
/// port stands at the end, its high byte first.
pub proof fn socks_requests_name_the_target(
    host: Seq<char>,
    port: u16,
    octets: Option<Seq<u8>>,
)
    requires
        octets matches Some(octets) ==> octets.len() == 4 || octets.len() == 16,
    ensures
        match socks_connect_request(host, port, octets) {
            Ok(bytes) => {
                let n = bytes.len() as int;
                &&& bytes[0] == 5
                &&& bytes[1] == 1
                &&& bytes[2] == 0
                &&& bytes[n - 2] * 256 + bytes[n - 1] == port
                &&& match octets {
                    Some(octets) => bytes[3] == if octets.len() == 4 {
                        1int
                    } else {
                        4
                    } && bytes.subrange(4, n - 2) == octets,
                    None => bytes[3] == 3 && bytes[4] == text::utf8_len(host) && bytes.subrange(
                        5,
                        n - 2,
                    ) == encode_utf8(host),
                }
            },
            Err(_) => octets is None && (host.len() == 0 || text::utf8_len(host) > 255
                || host.contains('\0')),
        },
{
    if let Ok(bytes) = socks_connect_request(host, port, octets) {
        let n = bytes.len() as int;
        match octets {
            Some(octets) => {
                assert(bytes.subrange(4, n - 2) =~= octets);
            },
            None => {
                assert(bytes.subrange(5, n - 2) =~= encode_utf8(host));
            },
        }
    }
}

/// A SOCKS proxy is offered a login if and only if it has a user, and gets the user and the
/// password, each behind its length.
pub proof fn socks_proxies_get_the_credentials(proxy: ProxyRequestView)
    requires
        encode_utf8(text_or_empty(proxy.username)).len() <= 255,
        encode_utf8(text_or_empty(proxy.password)).len() <= 255,
    ensures
        socks_methods(proxy)[0] == 5,
        socks_methods(proxy).skip(2).contains(2u8) <==> proxy.username is Some,
        socks_methods(proxy).skip(2).contains(0u8),
        socks_methods(proxy).len() == 2 + socks_methods(proxy)[1],
        ({
            let bytes = socks_credentials(proxy);
            let n = encode_utf8(text_or_empty(proxy.username)).len() as int;
            &&& bytes[0] == 1
            &&& bytes[1] == n
            &&& bytes.subrange(2, 2 + n) == encode_utf8(text_or_empty(proxy.username))
            &&& bytes[2 + n] == encode_utf8(text_or_empty(proxy.password)).len()
            &&& bytes.skip(3 + n) == encode_utf8(text_or_empty(proxy.password))
        }),
        proxy.username matches Some(user) ==> text_or_empty(proxy.username) == user,
        proxy.password matches Some(word) ==> text_or_empty(proxy.password) == word,
{
    let methods = socks_methods(proxy);
    let offered = methods.skip(2);
    assert(offered[0] == 0u8);
    if proxy.username is Some {
        assert(offered[1] == 2u8);
    } else {
        assert(offered.len() == 1);
    }
    let bytes = socks_credentials(proxy);
    let (user, word) = (
        encode_utf8(text_or_empty(proxy.username)),
        encode_utf8(text_or_empty(proxy.password)),
    );
    let n = user.len() as int;
    assert(bytes.subrange(2, 2 + n) =~= user);
    assert(bytes.skip(3 + n) =~= word);
}

/// A SOCKS proxy that agrees is asked for the target, after a login where it wants one; it
/// has connected once it says so and the address behind it was read. Any other answer ends
/// the attempt: refused credentials and a refused target are told as such, and all else as
/// no answer of a proxy.
pub proof fn socks_answers_are_read(
    received: Seq<u8>,
    proxy: ProxyRequestView,
    target: Result<Seq<u8>, ErrorView>,
)
    requires
        received.len() == 4,
    ensures
        match after_method(received, proxy, target) {
            SocksStepView::SendTarget => received[0] == 5 && received[1] == 0 && target is Ok,
            SocksStepView::SendCredentials => received[0] == 5 && received[1] == 2
                && proxy.username is Some,
            SocksStepView::Failed { error } => {
                ||| received[0] != 5 && error.code == "PROXY-PROTOCOL-FAILED"@
                ||| received[0] == 5 && received[1] == 0 && target == Err::<Seq<u8>, ErrorView>(
                    error,
                )
                ||| received[0] == 5 && received[1] == 255 && error.code == "PROXY-AUTH-FAILED"@
                ||| received[0] == 5 && received[1] != 0 && received[1] != 255 && (received[1] != 2
                    || proxy.username is None) && error.code == "PROXY-PROTOCOL-FAILED"@
            },
            _ => false,
        },
        match after_verdict(received, target) {
            SocksStepView::SendTarget => received[0] == 1 && received[1] == 0 && target is Ok,
            SocksStepView::Failed { error } => {
                ||| !(received[0] == 1 && received[1] == 0) && error.code == "PROXY-AUTH-FAILED"@
                    && error.retryable
                ||| received[0] == 1 && received[1] == 0 && target == Err::<Seq<u8>, ErrorView>(
                    error,
                )
            },
            _ => false,
        },
        match after_reply(received) {
            SocksStepView::ReadRest { length } => {
                &&& received[0] == 5 && received[1] == 0 && received[2] == 0
                &&& received[3] == 1 && length == 4 + 2 || received[3] == 4 && length == 16 + 2
            },
            SocksStepView::ReadNameLength => received[0] == 5 && received[1] == 0 && received[2]
                == 0 && received[3] == 3,
            SocksStepView::Failed { error } => {
                ||| (received[0] != 5 || received[2] != 0) && error.code
                    == "PROXY-PROTOCOL-FAILED"@
                ||| received[0] == 5 && received[2] == 0 && received[1] != 0 && error.code
                    == "PROXY-CONNECT-FAILED"@ && error.retryable
                ||| received[0] == 5 && received[2] == 0 && received[1] == 0 && received[3] != 1
                    && received[3] != 3 && received[3] != 4 && error.code
                    == "PROXY-PROTOCOL-FAILED"@
            },
            _ => false,
        },
        socks_after(SocksStepView::SendMethods, received, proxy, target) is ReadMethod,
        socks_after(SocksStepView::SendCredentials, received, proxy, target) is ReadVerdict,
        socks_after(SocksStepView::SendTarget, received, proxy, target) is ReadReply,
        socks_after(SocksStepView::ReadNameLength, received, proxy, target) == (
        SocksStepView::ReadRest { length: received[0] + 2 }),
        socks_after(SocksStepView::ReadMethod, received, proxy, target) == after_method(
            received,
            proxy,
            target,
        ),
        socks_after(SocksStepView::ReadVerdict, received, proxy, target) == after_verdict(
            received,
            target,
        ),
        socks_after(SocksStepView::ReadReply, received, proxy, target) == after_reply(received),
{
}

/// A SOCKS proxy has connected only after its answer was read to the end, and each step
/// writes or reads what it is for.
pub proof fn socks_steps_do_what_they_say(
    step: SocksStepView,
    received: Seq<u8>,
    proxy: ProxyRequestView,
    target: Result<Seq<u8>, ErrorView>,
)
    ensures
        socks_after(step, received, proxy, target) is Connected ==> step is ReadRest
            || step is Connected,
        step is ReadRest ==> socks_after(step, received, proxy, target) is Connected,
        match socks_action(step, proxy, target) {
            SocksActionView::Write(bytes) => {
                ||| step is SendMethods && bytes == socks_methods(proxy)
                ||| step is SendCredentials && bytes == socks_credentials(proxy)
                ||| step is SendTarget && target == Ok::<Seq<u8>, ErrorView>(bytes)
            },
            SocksActionView::Read(count) => count == socks_reads(step) && match step {
                SocksStepView::ReadMethod => count == 2,
                SocksStepView::ReadVerdict => count == 2,
                SocksStepView::ReadReply => count == 4,
                SocksStepView::ReadNameLength => count == 1,
                SocksStepView::ReadRest { length } => count == length,
                _ => false,
            },
            SocksActionView::Finish => step is Connected || step is Failed || (step is SendTarget
                && target is Err),
        },
{
}

/// The header of an answer is over once it ends with an empty line, and the attempts that
/// fail say whether a proxy was involved.
pub proof fn headers_end_with_an_empty_line(header: Seq<u8>, proxied: bool, reason: Seq<char>)
    ensures
        header_ends(header) <==> header.len() >= 4 && header[header.len() - 4] == 13
            && header[header.len() - 3] == 10 && header[header.len() - 2] == 13
            && header[header.len() - 1] == 10,
        dial_fault(proxied, reason).code == "PROXY-CONNECT-FAILED"@,
        dial_fault(proxied, reason).retryable,
        dial_fault(true, reason) != dial_fault(false, reason),
        proxy_timeout_fault().code == "PROXY-CONNECT-FAILED"@,
        proxy_timeout_fault().retryable,
        MAX_HTTP_RESPONSE_HEADER == 16 * 1024,
{
    if header.len() >= 4 {
        let n = header.len() as int;
        let tail = header.subrange(n - 4, n);
        if header_ends(header) {
            assert(tail[0] == 13u8 && tail[1] == 10u8 && tail[2] == 13u8 && tail[3] == 10u8);
        } else if header[n - 4] == 13 && header[n - 3] == 10 && header[n - 2] == 13 && header[n - 1]
            == 10 {
            assert(tail =~= seq![13u8, 10u8, 13u8, 10u8]);
        }
    }
    reveal_strlit("proxy TCP connection failed");
    reveal_strlit("direct TCP connection failed");
    let (a, b) = (
        dial_fault(true, reason).technical_details->0,
        dial_fault(false, reason).technical_details->0,
    );
    assert(a[0] == 'p');
    assert(b[0] == 'd');
}

/// The status of an answer is the number at the second place of its first line, where that
/// is one of at most sixteen bits.
pub proof fn statuses_stand_on_the_first_line(s: Seq<char>)
    ensures
        ({
            let parts = text::words(first_line(s), true);
            match status_of(s) {
                Some(status) => parts.len() >= 2 && status < 65536 && text::number(
                    parts[1],
                    65535,
                ) == Some(status),
                None => parts.len() < 2 || text::number(parts[1], 65535) is None,
            }
        }),
        first_line(s).is_prefix_of(s),
        !first_line(s).contains('\n'),
{
    text::characters_are_found(s, '\n');
    let line = first_line(s);
    assert(line =~= s.take(line.len() as int));
    if line.contains('\n') {
        let i = choose|i: int| 0 <= i < line.len() && line[i] == '\n';
        assert(s[i] == '\n');
    }
}

} // verus!
