//! Turning a pasted cURL command line into a request.
//!
//! The command is split into words the way a POSIX shell would (by `shlex`),
//! then the words are read left to right.  The meaning of each word is stated
//! by the spec functions below (`scan`, `cluster`, `long_step`, `apply`,
//! `finish`); `parse` is proved to produce exactly what they describe.
use vstd::prelude::*;

use base64::Engine;

use super::http_header::{headers_view, Header};
use super::http_method::HttpMethod;
use super::request::{HttpRequest, RequestView};
use crate::text::{
    chars_contains, chars_ends_with, chars_eq, chars_eq_ignore_case, chars_eq_str, chars_of,
    chars_starts_with, contains, ends_with, eq_ignore_case, extend_chars, find_char, first_index,
    join, join_chars, lemma_first_index_before, lemma_first_index_bounds, lemma_trim_idempotent,
    lemma_trim_shape, lemma_trimmed_fixed, occurs_at, seqs_of, slice_chars, starts_with, string_of,
    trim, trim_chars,
};

verus! {

broadcast use vstd::string::group_string_axioms;

// ---------------------------------------------------------------------------
// Errors
// ---------------------------------------------------------------------------

/// Why a command could not be imported.
#[derive(Debug, Clone, PartialEq, Eq)]
pub enum CurlError {
    Empty,
    MissingUrl,
    UnterminatedQuote,
    InvalidMethod(String),
}

/// A `CurlError` as plain values.
pub enum CurlErrorView {
    Empty,
    MissingUrl,
    UnterminatedQuote,
    InvalidMethod(Seq<char>),
}

impl View for CurlError {
    type V = CurlErrorView;

    open spec fn view(&self) -> CurlErrorView {
        match self {
            CurlError::Empty => CurlErrorView::Empty,
            CurlError::MissingUrl => CurlErrorView::MissingUrl,
            CurlError::UnterminatedQuote => CurlErrorView::UnterminatedQuote,
            CurlError::InvalidMethod(m) => CurlErrorView::InvalidMethod(m@),
        }
    }
}

/// The text shown to the user for an import error.
pub open spec fn error_text(e: CurlErrorView) -> Seq<char> {
    match e {
        CurlErrorView::Empty => "command is empty"@,
        CurlErrorView::MissingUrl => "no URL found in command"@,
        CurlErrorView::UnterminatedQuote => "command has unterminated quotes"@,
        CurlErrorView::InvalidMethod(m) => "invalid HTTP method '"@ + m + "'"@,
    }
}

impl CurlError {
    /// The text shown to the user for this error.
    pub fn message(&self) -> (r: String)
        ensures
            r@ == error_text(self@),
    {
        match self {
            CurlError::Empty => "command is empty".to_owned(),
            CurlError::MissingUrl => "no URL found in command".to_owned(),
            CurlError::UnterminatedQuote => "command has unterminated quotes".to_owned(),
            CurlError::InvalidMethod(m) => {
                let mut out = "invalid HTTP method '".to_owned();
                out.append(m.as_str());
                out.append("'");
                out
            },
        }
    }
}

/// The outcome of an import as plain values.
pub open spec fn outcome_view(r: Result<HttpRequest, CurlError>) -> Result<RequestView, CurlErrorView> {
    match r {
        Ok(q) => Ok(q@),
        Err(e) => Err(e@),
    }
}

// ---------------------------------------------------------------------------
// Outside functions: shell word splitting and Base64
// ---------------------------------------------------------------------------

/// The words that `shlex::split` makes of `line`; `None` when the quoting
/// is unbalanced or a trailing backslash escapes nothing.
pub uninterp spec fn shell_words(line: Seq<char>) -> Option<Seq<Seq<char>>>;

/// The views of a sequence of strings.
pub open spec fn strings_view(v: Seq<String>) -> Seq<Seq<char>> {
    v.map_values(|s: String| s@)
}

/// Calls `shlex::split`; what it returns is the named result `shell_words`.
#[verifier::external_body]
fn split_words(line: &str) -> (r: Option<Vec<String>>)
    ensures
        match r {
            Some(v) => shell_words(line@) == Some(strings_view(v@)),
            None => shell_words(line@) is None,
        },
{
    shlex::split(line)
}

/// The character of the standard Base64 alphabet for `b < 64`.
pub open spec fn base64_char(b: int) -> char {
    if b < 26 {
        (('A' as int) + b) as char
    } else if b < 52 {
        (('a' as int) + (b - 26)) as char
    } else if b < 62 {
        (('0' as int) + (b - 52)) as char
    } else if b == 62 {
        '+'
    } else {
        '/'
    }
}

/// Standard Base64 (RFC 4648, alphabet `A-Za-z0-9+/`, padded with `=`).
pub open spec fn base64_standard(bytes: Seq<u8>) -> Seq<char>
    decreases bytes.len(),
{
    if bytes.len() == 0 {
        Seq::empty()
    } else {
        let b0 = bytes[0] as int;
        let b1 = if bytes.len() > 1 { bytes[1] as int } else { 0 };
        let b2 = if bytes.len() > 2 { bytes[2] as int } else { 0 };
        let quad = seq![
            base64_char(b0 / 4),
            base64_char((b0 % 4) * 16 + b1 / 16),
            if bytes.len() > 1 { base64_char((b1 % 16) * 4 + b2 / 64) } else { '=' },
            if bytes.len() > 2 { base64_char(b2 % 64) } else { '=' },
        ];
        if bytes.len() <= 3 {
            quad
        } else {
            quad + base64_standard(bytes.skip(3))
        }
    }
}

/// Calls the standard engine of the `base64` crate: `STANDARD.encode(bytes)`,
/// which is standard Base64 with padding.
#[verifier::external_body]
fn base64_encode(bytes: &[u8]) -> (r: String)
    ensures
        r@ == base64_standard(bytes@),
{
    base64::engine::general_purpose::STANDARD.encode(bytes)
}

// ---------------------------------------------------------------------------
// The meaning of the words
// ---------------------------------------------------------------------------

/// Long options that take a value which the importer ignores.
pub const VALUE_FLAGS_IGNORED: [&'static str; 18] = [
    "output",
    "max-time",
    "connect-timeout",
    "retry",
    "cacert",
    "capath",
    "cert",
    "key",
    "proxy",
    "noproxy",
    "interface",
    "limit-rate",
    "resolve",
    "dump-header",
    "cookie-jar",
    "config",
    "netrc-file",
    "engine",
];

/// Long options without a value that the importer ignores.
pub const BOOL_FLAGS_IGNORED: [&'static str; 17] = [
    "compressed",
    "insecure",
    "silent",
    "show-error",
    "verbose",
    "fail",
    "location",
    "no-buffer",
    "progress-bar",
    "http1.0",
    "http1.1",
    "http2",
    "http2-prior-knowledge",
    "http3",
    "ipv4",
    "ipv6",
    "next",
];

/// What an option does.
#[derive(Debug, Clone, Copy, PartialEq, Eq)]
pub enum FlagKind {
    /// `-X`, `--request`: the method.
    Method,
    /// `-H`, `--header`: a `Name: value` header line.
    HeaderLine,
    /// `--url`: the URL.
    Url,
    /// `-d`, `--data` and its variants: a body part.
    Data,
    /// `--json`: a body part, and JSON content type and accept headers.
    Json,
    /// `-F`, `--form`: a form body part.
    Form,
    /// `-u`, `--user`: basic credentials.
    User,
    /// `-A`, `--user-agent`.
    UserAgent,
    /// `-e`, `--referer`.
    Referer,
    /// `-b`, `--cookie` (a value starting with `@` names a file and is ignored).
    Cookie,
    /// `-G`, `--get`: body parts go into the query string.
    ForceGet,
    /// `-I`, `--head`: the HEAD method.
    Head,
    /// An option whose value is consumed and ignored.
    SkipValue,
    /// An option that does nothing here.
    NoOp,
}

pub open spec fn takes_value(k: FlagKind) -> bool {
    !(k is ForceGet || k is Head || k is NoOp)
}

pub open spec fn listed(list: Seq<&str>, name: Seq<char>) -> bool {
    exists|i: int| 0 <= i < list.len() && #[trigger] list[i]@ == name
}

/// The meaning of `--<name>`.
pub open spec fn long_kind(name: Seq<char>) -> FlagKind {
    if name == "request"@ {
        FlagKind::Method
    } else if name == "header"@ {
        FlagKind::HeaderLine
    } else if name == "url"@ {
        FlagKind::Url
    } else if name == "data"@ || name == "data-raw"@ || name == "data-binary"@ || name
        == "data-ascii"@ || name == "data-urlencode"@ {
        FlagKind::Data
    } else if name == "json"@ {
        FlagKind::Json
    } else if name == "form"@ {
        FlagKind::Form
    } else if name == "user"@ {
        FlagKind::User
    } else if name == "user-agent"@ {
        FlagKind::UserAgent
    } else if name == "referer"@ {
        FlagKind::Referer
    } else if name == "cookie"@ {
        FlagKind::Cookie
    } else if name == "get"@ {
        FlagKind::ForceGet
    } else if name == "head"@ {
        FlagKind::Head
    } else if listed(BOOL_FLAGS_IGNORED@, name) {
        FlagKind::NoOp
    } else if listed(VALUE_FLAGS_IGNORED@, name) {
        FlagKind::SkipValue
    } else {
        FlagKind::NoOp
    }
}

/// The meaning of the short option `-<c>`.
pub open spec fn short_kind(c: char) -> FlagKind {
    if c == 'X' {
        FlagKind::Method
    } else if c == 'H' {
        FlagKind::HeaderLine
    } else if c == 'd' {
        FlagKind::Data
    } else if c == 'u' {
        FlagKind::User
    } else if c == 'A' {
        FlagKind::UserAgent
    } else if c == 'e' {
        FlagKind::Referer
    } else if c == 'b' {
        FlagKind::Cookie
    } else if c == 'F' {
        FlagKind::Form
    } else if c == 'G' {
        FlagKind::ForceGet
    } else if c == 'I' {
        FlagKind::Head
    } else if c == 'o' || c == 'D' || c == 'm' || c == 'x' || c == 'c' || c == 'C' || c == 'Q'
        || c == 'T' || c == 'K' {
        FlagKind::SkipValue
    } else {
        FlagKind::NoOp
    }
}

/// What has been read so far.
pub struct ScanState {
    pub method: Option<HttpMethod>,
    pub force_get: bool,
    pub url: Option<Seq<char>>,
    pub headers: Seq<(Seq<char>, Seq<char>)>,
    pub data: Seq<Seq<char>>,
    pub is_form: bool,
}

pub open spec fn initial_state() -> ScanState {
    ScanState {
        method: None,
        force_get: false,
        url: None,
        headers: Seq::empty(),
        data: Seq::empty(),
        is_form: false,
    }
}

/// `headers` after the header line `raw`: the text before the first `:`
/// (trimmed) is the name, the rest (trimmed) the value; a line without `:` or
/// with an empty name adds nothing.
pub open spec fn push_header_line(
    headers: Seq<(Seq<char>, Seq<char>)>,
    raw: Seq<char>,
) -> Seq<(Seq<char>, Seq<char>)> {
    let p = first_index(raw, ':');
    if p >= raw.len() {
        headers
    } else if trim(raw.take(p)).len() == 0 {
        headers
    } else {
        headers.push((trim(raw.take(p)), trim(raw.skip(p + 1))))
    }
}

/// The credentials part of a basic `Authorization` header for `user:password`.
pub open spec fn basic_token(v: Seq<char>) -> Seq<char> {
    base64_standard(vstd::utf8::encode_utf8(v))
}

/// The effect of an option that takes `v` as its value.
pub open spec fn apply(k: FlagKind, v: Seq<char>, st: ScanState) -> Result<ScanState, CurlErrorView> {
    match k {
        FlagKind::Method => match HttpMethod::from_name(v) {
            Some(m) => Ok(ScanState { method: Some(m), ..st }),
            None => Err(CurlErrorView::InvalidMethod(v)),
        },
        FlagKind::HeaderLine => Ok(ScanState { headers: push_header_line(st.headers, v), ..st }),
        FlagKind::Url => Ok(ScanState { url: Some(v), ..st }),
        FlagKind::Data => Ok(ScanState { data: st.data.push(v), ..st }),
        FlagKind::Json => Ok(
            ScanState {
                data: st.data.push(v),
                headers: st.headers.push(("Content-Type"@, "application/json"@)).push(
                    ("Accept"@, "application/json"@),
                ),
                ..st
            },
        ),
        FlagKind::Form => Ok(ScanState { is_form: true, data: st.data.push(v), ..st }),
        FlagKind::User => Ok(
            ScanState {
                headers: push_header_line(st.headers, "Authorization: Basic "@ + basic_token(v)),
                ..st
            },
        ),
        FlagKind::UserAgent => Ok(
            ScanState { headers: push_header_line(st.headers, "User-Agent: "@ + v), ..st },
        ),
        FlagKind::Referer => Ok(
            ScanState { headers: push_header_line(st.headers, "Referer: "@ + v), ..st },
        ),
        FlagKind::Cookie => if v.len() > 0 && v[0] == '@' {
            Ok(st)
        } else {
            Ok(ScanState { headers: push_header_line(st.headers, "Cookie: "@ + v), ..st })
        },
        _ => Ok(st),
    }
}

/// The effect of an option without a value.
pub open spec fn flag_effect(k: FlagKind, st: ScanState) -> ScanState {
    match k {
        FlagKind::ForceGet => ScanState { force_get: true, ..st },
        FlagKind::Head => ScanState { method: Some(HttpMethod::Head), ..st },
        _ => st,
    }
}

/// `--name=value` split at the first `=`; `--name` alone has no inline value.
pub open spec fn split_long(long: Seq<char>) -> (Seq<char>, Option<Seq<char>>) {
    let p = first_index(long, '=');
    if p < long.len() {
        (long.take(p), Some(long.skip(p + 1)))
    } else {
        (long, None)
    }
}

/// The effect of a long option; the flag says whether the word after it was
/// taken as its value.
pub open spec fn long_step(
    k: FlagKind,
    inline: Option<Seq<char>>,
    args: Seq<Seq<char>>,
    next: int,
    st: ScanState,
) -> Result<(ScanState, bool), CurlErrorView> {
    if takes_value(k) {
        match inline {
            Some(v) => match apply(k, v, st) {
                Ok(s) => Ok((s, false)),
                Err(e) => Err(e),
            },
            None => if 0 <= next < args.len() {
                match apply(k, args[next], st) {
                    Ok(s) => Ok((s, true)),
                    Err(e) => Err(e),
                }
            } else {
                Ok((st, false))
            },
        }
    } else {
        Ok((flag_effect(k, st), false))
    }
}

/// The effect of a cluster of short options `c` (the word without its `-`).
/// An option taking a value takes the rest of the cluster, or, at the end of
/// the cluster, the next word; the flag says whether it took the next word.
pub open spec fn cluster(
    c: Seq<char>,
    args: Seq<Seq<char>>,
    next: int,
    st: ScanState,
) -> Result<(ScanState, bool), CurlErrorView>
    decreases c.len(),
{
    if c.len() == 0 {
        Ok((st, false))
    } else {
        let k = short_kind(c[0]);
        let rest = c.drop_first();
        if takes_value(k) {
            if rest.len() > 0 {
                match apply(k, rest, st) {
                    Ok(s) => Ok((s, false)),
                    Err(e) => Err(e),
                }
            } else if 0 <= next < args.len() {
                match apply(k, args[next], st) {
                    Ok(s) => Ok((s, true)),
                    Err(e) => Err(e),
                }
            } else {
                Ok((st, false))
            }
        } else {
            cluster(rest, args, next, flag_effect(k, st))
        }
    }
}

/// Reads the words `args` from position `index` on.
pub open spec fn scan(args: Seq<Seq<char>>, index: int, st: ScanState) -> Result<ScanState, CurlErrorView>
    decreases args.len() - index,
{
    if index < 0 || index >= args.len() {
        Ok(st)
    } else {
        let tok = args[index];
        let next = index + 1;
        if tok == "--"@ {
            Ok(
                ScanState {
                    url: if st.url is None && next < args.len() {
                        Some(args[next])
                    } else {
                        st.url
                    },
                    ..st
                },
            )
        } else if starts_with(tok, "--"@) {
            let (name, inline) = split_long(tok.skip(2));
            match long_step(long_kind(name), inline, args, next, st) {
                Ok((s, took)) => scan(
                    args,
                    if took && next < args.len() {
                        next + 1
                    } else {
                        next
                    },
                    s,
                ),
                Err(e) => Err(e),
            }
        } else if tok.len() > 0 && tok[0] == '-' {
            match cluster(tok.drop_first(), args, next, st) {
                Ok((s, took)) => scan(
                    args,
                    if took && next < args.len() {
                        next + 1
                    } else {
                        next
                    },
                    s,
                ),
                Err(e) => Err(e),
            }
        } else {
            scan(args, next, if st.url is None { ScanState { url: Some(tok), ..st } } else { st })
        }
    }
}

/// A URL without `://` gets `https://` in front.
pub open spec fn with_scheme(url: Seq<char>) -> Seq<char> {
    if contains(url, "://"@) {
        url
    } else {
        "https://"@ + url
    }
}

pub open spec fn has_content_type(headers: Seq<(Seq<char>, Seq<char>)>) -> bool {
    exists|i: int| 0 <= i < headers.len() && eq_ignore_case(#[trigger] headers[i].0, "Content-Type"@)
}

/// The request made of what was read.  With `-G`, the body parts go into the
/// query string; without a method option the method is POST when there is a
/// body and GET otherwise; body parts are joined with `&`; a form body gets a
/// form content type unless a content type was given.
pub open spec fn finish(st: ScanState) -> Result<RequestView, CurlErrorView> {
    match st.url {
        None => Err(CurlErrorView::MissingUrl),
        Some(u0) => {
            let u1 = with_scheme(u0);
            let moved = st.force_get && st.data.len() > 0;
            let url = if moved {
                u1 + (if u1.contains('?') {
                    seq!['&']
                } else {
                    seq!['?']
                }) + join(st.data, "&"@)
            } else {
                u1
            };
            let data = if moved {
                Seq::<Seq<char>>::empty()
            } else {
                st.data
            };
            let method = match st.method {
                Some(m) => m,
                None => if data.len() == 0 {
                    HttpMethod::Get
                } else {
                    HttpMethod::Post
                },
            };
            let base = RequestView { method, url, headers: st.headers, body: None };
            if data.len() == 0 {
                Ok(base)
            } else if st.is_form && !has_content_type(st.headers) {
                Ok(
                    RequestView {
                        body: Some(join(data, "&"@)),
                        headers: st.headers.push(
                            ("Content-Type"@, "application/x-www-form-urlencoded"@),
                        ),
                        ..base
                    },
                )
            } else {
                Ok(RequestView { body: Some(join(data, "&"@)), ..base })
            }
        },
    }
}

/// The program word: `curl` in any ASCII case, or a path ending in `/curl`.
pub open spec fn is_curl_word(first: Seq<char>) -> bool {
    eq_ignore_case(first, "curl"@) || ends_with(first, "/curl"@)
}

/// The request described by the words of a command.
pub open spec fn interpret(tokens: Seq<Seq<char>>) -> Result<RequestView, CurlErrorView> {
    if tokens.len() == 0 {
        Err(CurlErrorView::Empty)
    } else {
        let args = if is_curl_word(tokens[0]) {
            tokens.drop_first()
        } else {
            tokens
        };
        if args.len() == 0 {
            Err(CurlErrorView::Empty)
        } else {
            match scan(args, 0, initial_state()) {
                Ok(st) => finish(st),
                Err(e) => Err(e),
            }
        }
    }
}

/// Windows line endings turned into `\n` (`str::replace("\r\n", "\n")`).
pub open spec fn crlf_to_lf(s: Seq<char>) -> Seq<char>
    decreases s.len(),
{
    if s.len() == 0 {
        s
    } else if s.len() >= 2 && s[0] == '\r' && s[1] == '\n' {
        seq!['\n'] + crlf_to_lf(s.skip(2))
    } else {
        seq![s[0]] + crlf_to_lf(s.skip(1))
    }
}

/// The request that a pasted command describes.
pub open spec fn curl_command(input: Seq<char>) -> Result<RequestView, CurlErrorView> {
    match shell_words(trim(crlf_to_lf(input))) {
        None => Err(CurlErrorView::UnterminatedQuote),
        Some(tokens) => interpret(tokens),
    }
}

// ---------------------------------------------------------------------------
// Implementation
// ---------------------------------------------------------------------------

/// Parses a cURL command line into a request.
pub fn parse(input: &str) -> (r: Result<HttpRequest, CurlError>)
    ensures
        outcome_view(r) == curl_command(input@),
{
    let chars = chars_of(input);
    let normalized = crlf_chars_to_lf(&chars);
    let trimmed = trim_chars(&normalized);
    let line = string_of(&trimmed);
    match split_words(line.as_str()) {
        None => Err(CurlError::UnterminatedQuote),
        Some(tokens) => parse_words(&tokens),
    }
}

fn crlf_chars_to_lf(s: &[char]) -> (r: Vec<char>)
    ensures
        r@ == crlf_to_lf(s@),
{
    let mut out: Vec<char> = Vec::new();
    let mut i: usize = 0;
    assert(s@.skip(0) == s@);
    while i < s.len()
        invariant
            i <= s@.len(),
            crlf_to_lf(s@) == out@ + crlf_to_lf(s@.skip(i as int)),
        decreases s@.len() - i,
    {
        let ghost rest = s@.skip(i as int);
        if i + 1 < s.len() && s[i] == '\r' && s[i + 1] == '\n' {
            out.push('\n');
            assert(rest.skip(2) == s@.skip(i + 2));
            i += 2;
        } else {
            out.push(s[i]);
            assert(rest.skip(1) == s@.skip(i + 1));
            i += 1;
        }
    }
    assert(s@.skip(i as int).len() == 0);
    out
}

/// Reads the words of a command (as `shlex` splits it) into a request.
pub fn parse_words(tokens: &Vec<String>) -> (r: Result<HttpRequest, CurlError>)
    ensures
        outcome_view(r) == interpret(strings_view(tokens@)),
{
    let ghost words = strings_view(tokens@);
    if tokens.len() == 0 {
        return Err(CurlError::Empty);
    }
    let first = chars_of(tokens[0].as_str());
    let skip: usize = if is_curl_program(&first) {
        1
    } else {
        0
    };
    let mut args: Vec<Vec<char>> = Vec::new();
    let mut i: usize = skip;
    while i < tokens.len()
        invariant
            skip <= i <= tokens@.len(),
            seqs_of(args@) == words.subrange(skip as int, i as int),
            words == strings_view(tokens@),
        decreases tokens@.len() - i,
    {
        let ghost before = seqs_of(args@);
        let w = chars_of(tokens[i].as_str());
        assert(w@ == words[i as int]);
        args.push(w);
        i += 1;
        assert(seqs_of(args@) =~= before.push(w@));
        assert(words.subrange(skip as int, i as int) =~= words.subrange(skip as int, i - 1).push(words[i - 1]));
    }
    proof {
        if skip == 1 {
            assert(words.subrange(1, words.len() as int) == words.drop_first());
        } else {
            assert(words.subrange(0, words.len() as int) == words);
        }
    }
    if args.len() == 0 {
        return Err(CurlError::Empty);
    }
    match scan_words(&args) {
        Ok(st) => finish_request(st),
        Err(e) => Err(e),
    }
}

fn is_curl_program(first: &[char]) -> (r: bool)
    ensures
        r == is_curl_word(first@),
{
    let curl = chars_of("curl");
    let path = chars_of("/curl");
    chars_eq_ignore_case(first, &curl) || chars_ends_with(first, &path)
}

/// What has been read so far (the executable counterpart of `ScanState`).
struct Scan {
    method: Option<HttpMethod>,
    force_get: bool,
    url: Option<Vec<char>>,
    headers: Vec<Header>,
    data: Vec<Vec<char>>,
    is_form: bool,
}

impl View for Scan {
    type V = ScanState;

    closed spec fn view(&self) -> ScanState {
        ScanState {
            method: self.method,
            force_get: self.force_get,
            url: match self.url {
                Some(u) => Some(u@),
                None => None,
            },
            headers: headers_view(self.headers@),
            data: seqs_of(self.data@),
            is_form: self.is_form,
        }
    }
}

fn copy_chars(v: &Vec<char>) -> (r: Vec<char>)
    ensures
        r@ == v@,
{
    slice_chars(v, 0, v.len())
}

fn scan_words(args: &Vec<Vec<char>>) -> (r: Result<Scan, CurlError>)
    ensures
        match r {
            Ok(s) => scan(seqs_of(args@), 0, initial_state()) == Ok::<ScanState, CurlErrorView>(s@),
            Err(e) => scan(seqs_of(args@), 0, initial_state()) == Err::<ScanState, CurlErrorView>(e@),
        },
{
    let ghost words = seqs_of(args@);
    let mut st = Scan {
        method: None,
        force_get: false,
        url: None,
        headers: Vec::new(),
        data: Vec::new(),
        is_form: false,
    };
    assert(headers_view(st.headers@) =~= Seq::empty());
    assert(seqs_of(st.data@) =~= Seq::empty());
    let mut index: usize = 0;
    while index < args.len()
        invariant
            index <= args@.len(),
            words == seqs_of(args@),
            scan(words, 0, initial_state()) == scan(words, index as int, st@),
        decreases args@.len() - index,
    {
        match scan_step(args, index, &mut st) {
            Err(e) => {
                return Err(e);
            },
            Ok(None) => {
                return Ok(st);
            },
            Ok(Some(j)) => {
                index = j;
            },
        }
    }
    Ok(st)
}

/// Reads the word at `index`: stops (`None`), or gives the position of the
/// next word to read.
fn scan_step(args: &Vec<Vec<char>>, index: usize, st: &mut Scan) -> (r: Result<
    Option<usize>,
    CurlError,
>)
    requires
        index < args@.len(),
    ensures
        match r {
            Err(e) => scan(seqs_of(args@), index as int, old(st)@) == Err::<ScanState, CurlErrorView>(
                e@,
            ),
            Ok(None) => scan(seqs_of(args@), index as int, old(st)@) == Ok::<
                ScanState,
                CurlErrorView,
            >(final(st)@),
            Ok(Some(j)) => index < j <= args@.len() && scan(seqs_of(args@), index as int, old(st)@)
                == scan(seqs_of(args@), j as int, final(st)@),
        },
{
    let ghost words = seqs_of(args@);
    let n = args.len();
    let tok = &args[index];
    let next = index + 1;
    assert(words[index as int] == tok@);
    let dash_dash = chars_of("--");
    proof {
        reveal_strlit("--");
    }
    if chars_eq(tok, &dash_dash) {
        if st.url.is_none() && next < args.len() {
            st.url = Some(copy_chars(&args[next]));
        }
        return Ok(None);
    }
    let took: bool;
    if chars_starts_with(tok, &dash_dash) {
        let long = slice_chars(tok, 2, tok.len());
        assert(long@ == tok@.skip(2));
        let (name, inline) = split_long_chars(&long);
        let kind = long_kind_of(&name);
        match long_option(kind, inline, args, next, st) {
            Ok(t) => {
                took = t;
            },
            Err(e) => {
                return Err(e);
            },
        }
    } else if tok.len() > 0 && tok[0] == '-' {
        let shorts = slice_chars(tok, 1, tok.len());
        assert(shorts@ == tok@.drop_first());
        match short_cluster(&shorts, args, next, st) {
            Ok(t) => {
                took = t;
            },
            Err(e) => {
                return Err(e);
            },
        }
    } else {
        if st.url.is_none() {
            st.url = Some(copy_chars(tok));
        }
        took = false;
    }
    if took && next < args.len() {
        Ok(Some(next + 1))
    } else {
        Ok(Some(next))
    }
}

fn split_long_chars(long: &Vec<char>) -> (r: (Vec<char>, Option<Vec<char>>))
    ensures
        r.0@ == split_long(long@).0,
        match r.1 {
            Some(v) => split_long(long@).1 == Some(v@),
            None => split_long(long@).1 is None,
        },
{
    let n = long.len();
    match find_char(long, '=') {
        Some(p) => (slice_chars(long, 0, p), Some(slice_chars(long, p + 1, n))),
        None => (copy_chars(long), None),
    }
}

fn in_list(name: &[char], list: &[&str]) -> (r: bool)
    ensures
        r == listed(list@, name@),
{
    let mut i: usize = 0;
    while i < list.len()
        invariant
            i <= list@.len(),
            forall|j: int| 0 <= j < i ==> #[trigger] list@[j]@ != name@,
        decreases list@.len() - i,
    {
        if chars_eq_str(name, list[i]) {
            return true;
        }
        i += 1;
    }
    false
}

fn long_kind_of(name: &[char]) -> (k: FlagKind)
    ensures
        k == long_kind(name@),
{
    if chars_eq_str(name, "request") {
        FlagKind::Method
    } else if chars_eq_str(name, "header") {
        FlagKind::HeaderLine
    } else if chars_eq_str(name, "url") {
        FlagKind::Url
    } else if chars_eq_str(name, "data") || chars_eq_str(name, "data-raw") || chars_eq_str(
        name,
        "data-binary",
    ) || chars_eq_str(name, "data-ascii") || chars_eq_str(name, "data-urlencode") {
        FlagKind::Data
    } else if chars_eq_str(name, "json") {
        FlagKind::Json
    } else if chars_eq_str(name, "form") {
        FlagKind::Form
    } else if chars_eq_str(name, "user") {
        FlagKind::User
    } else if chars_eq_str(name, "user-agent") {
        FlagKind::UserAgent
    } else if chars_eq_str(name, "referer") {
        FlagKind::Referer
    } else if chars_eq_str(name, "cookie") {
        FlagKind::Cookie
    } else if chars_eq_str(name, "get") {
        FlagKind::ForceGet
    } else if chars_eq_str(name, "head") {
        FlagKind::Head
    } else if in_list(name, &BOOL_FLAGS_IGNORED) {
        FlagKind::NoOp
    } else if in_list(name, &VALUE_FLAGS_IGNORED) {
        FlagKind::SkipValue
    } else {
        FlagKind::NoOp
    }
}

fn short_kind_of(c: char) -> (k: FlagKind)
    ensures
        k == short_kind(c),
{
    match c {
        'X' => FlagKind::Method,
        'H' => FlagKind::HeaderLine,
        'd' => FlagKind::Data,
        'u' => FlagKind::User,
        'A' => FlagKind::UserAgent,
        'e' => FlagKind::Referer,
        'b' => FlagKind::Cookie,
        'F' => FlagKind::Form,
        'G' => FlagKind::ForceGet,
        'I' => FlagKind::Head,
        'o' | 'D' | 'm' | 'x' | 'c' | 'C' | 'Q' | 'T' | 'K' => FlagKind::SkipValue,
        _ => FlagKind::NoOp,
    }
}

fn kind_takes_value(k: FlagKind) -> (r: bool)
    ensures
        r == takes_value(k),
{
    match k {
        FlagKind::ForceGet | FlagKind::Head | FlagKind::NoOp => false,
        _ => true,
    }
}

fn apply_flag(k: FlagKind, st: &mut Scan)
    ensures
        final(st)@ == flag_effect(k, old(st)@),
{
    match k {
        FlagKind::ForceGet => {
            st.force_get = true;
        },
        FlagKind::Head => {
            st.method = Some(HttpMethod::Head);
        },
        _ => {},
    }
}

/// Adds the header that the line `raw` describes, if any.
fn push_header(headers: &mut Vec<Header>, raw: &[char])
    ensures
        headers_view(final(headers)@) == push_header_line(headers_view(old(headers)@), raw@),
{
    let n = raw.len();
    match find_char(raw, ':') {
        None => {},
        Some(p) => {
            let before = slice_chars(raw, 0, p);
            assert(before@ == raw@.take(p as int));
            let name = trim_chars(&before);
            if name.len() > 0 {
                let after = slice_chars(raw, p + 1, n);
                assert(after@ == raw@.skip(p + 1));
                let value = trim_chars(&after);
                let n = string_of(&name);
                let v = string_of(&value);
                headers.push(Header { name: n, value: v });
                assert(headers_view(headers@) =~= headers_view(old(headers)@).push((name@, value@)));
            }
        },
    }
}

/// Adds the header line `prefix` followed by `v`.
fn push_prefixed_header(headers: &mut Vec<Header>, prefix: &str, v: &[char])
    ensures
        headers_view(final(headers)@) == push_header_line(headers_view(old(headers)@), prefix@ + v@),
{
    let mut raw = chars_of(prefix);
    extend_chars(&mut raw, v);
    push_header(headers, &raw);
}

fn apply_value(k: FlagKind, v: Vec<char>, st: &mut Scan) -> (r: Result<(), CurlError>)
    ensures
        match r {
            Ok(()) => apply(k, v@, old(st)@) == Ok::<ScanState, CurlErrorView>(final(st)@),
            Err(e) => apply(k, v@, old(st)@) == Err::<ScanState, CurlErrorView>(e@),
        },
{
    match k {
        FlagKind::Method => match HttpMethod::parse_chars(&v) {
            Some(m) => {
                st.method = Some(m);
                Ok(())
            },
            None => Err(CurlError::InvalidMethod(string_of(&v))),
        },
        FlagKind::HeaderLine => {
            push_header(&mut st.headers, &v);
            Ok(())
        },
        FlagKind::Url => {
            st.url = Some(v);
            Ok(())
        },
        FlagKind::Data => {
            st.data.push(v);
            assert(seqs_of(st.data@) =~= seqs_of(old(st).data@).push(v@));
            Ok(())
        },
        FlagKind::Json => {
            st.data.push(v);
            assert(seqs_of(st.data@) =~= seqs_of(old(st).data@).push(v@));
            st.headers.push(Header::new("Content-Type", "application/json"));
            st.headers.push(Header::new("Accept", "application/json"));
            assert(headers_view(st.headers@) =~= headers_view(old(st).headers@).push(
                ("Content-Type"@, "application/json"@),
            ).push(("Accept"@, "application/json"@)));
            Ok(())
        },
        FlagKind::Form => {
            st.is_form = true;
            st.data.push(v);
            assert(seqs_of(st.data@) =~= seqs_of(old(st).data@).push(v@));
            Ok(())
        },
        FlagKind::User => {
            let text = string_of(&v);
            let token = base64_encode(text.as_str().as_bytes());
            let token_chars = chars_of(token.as_str());
            push_prefixed_header(&mut st.headers, "Authorization: Basic ", &token_chars);
            Ok(())
        },
        FlagKind::UserAgent => {
            push_prefixed_header(&mut st.headers, "User-Agent: ", &v);
            Ok(())
        },
        FlagKind::Referer => {
            push_prefixed_header(&mut st.headers, "Referer: ", &v);
            Ok(())
        },
        FlagKind::Cookie => {
            if v.len() > 0 && v[0] == '@' {
            } else {
                push_prefixed_header(&mut st.headers, "Cookie: ", &v);
            }
            Ok(())
        },
        _ => Ok(()),
    }
}

fn long_option(
    k: FlagKind,
    inline: Option<Vec<char>>,
    args: &Vec<Vec<char>>,
    next: usize,
    st: &mut Scan,
) -> (r: Result<bool, CurlError>)
    ensures
        match r {
            Ok(took) => long_step(
                k,
                match inline {
                    Some(v) => Some(v@),
                    None => None,
                },
                seqs_of(args@),
                next as int,
                old(st)@,
            ) == Ok::<(ScanState, bool), CurlErrorView>((final(st)@, took)),
            Err(e) => long_step(
                k,
                match inline {
                    Some(v) => Some(v@),
                    None => None,
                },
                seqs_of(args@),
                next as int,
                old(st)@,
            ) == Err::<(ScanState, bool), CurlErrorView>(e@),
        },
{
    if kind_takes_value(k) {
        match inline {
            Some(v) => match apply_value(k, v, st) {
                Ok(()) => Ok(false),
                Err(e) => Err(e),
            },
            None => {
                if next < args.len() {
                    let v = copy_chars(&args[next]);
                    match apply_value(k, v, st) {
                        Ok(()) => Ok(true),
                        Err(e) => Err(e),
                    }
                } else {
                    Ok(false)
                }
            },
        }
    } else {
        apply_flag(k, st);
        Ok(false)
    }
}

fn short_cluster(c: &Vec<char>, args: &Vec<Vec<char>>, next: usize, st: &mut Scan) -> (r: Result<
    bool,
    CurlError,
>)
    ensures
        match r {
            Ok(took) => cluster(c@, seqs_of(args@), next as int, old(st)@) == Ok::<
                (ScanState, bool),
                CurlErrorView,
            >((final(st)@, took)),
            Err(e) => cluster(c@, seqs_of(args@), next as int, old(st)@) == Err::<
                (ScanState, bool),
                CurlErrorView,
            >(e@),
        },
{
    let ghost words = seqs_of(args@);
    let mut j: usize = 0;
    assert(c@.skip(0) == c@);
    while j < c.len()
        invariant
            j <= c@.len(),
            words == seqs_of(args@),
            cluster(c@, words, next as int, old(st)@) == cluster(c@.skip(j as int), words, next as int, st@),
        decreases c@.len() - j,
    {
        let ghost rest = c@.skip(j as int);
        let k = short_kind_of(c[j]);
        assert(rest[0] == c@[j as int]);
        if kind_takes_value(k) {
            if j + 1 < c.len() {
                let v = slice_chars(c, j + 1, c.len());
                assert(v@ == rest.drop_first());
                return match apply_value(k, v, st) {
                    Ok(()) => Ok(false),
                    Err(e) => Err(e),
                };
            } else if next < args.len() {
                assert(rest.drop_first().len() == 0);
                let v = copy_chars(&args[next]);
                return match apply_value(k, v, st) {
                    Ok(()) => Ok(true),
                    Err(e) => Err(e),
                };
            } else {
                assert(rest.drop_first().len() == 0);
                return Ok(false);
            }
        }
        apply_flag(k, st);
        assert(rest.drop_first() == c@.skip(j + 1));
        j += 1;
    }
    assert(c@.skip(j as int).len() == 0);
    Ok(false)
}

fn has_content_type_header(headers: &Vec<Header>) -> (r: bool)
    ensures
        r == has_content_type(headers_view(headers@)),
{
    let target = chars_of("Content-Type");
    let mut i: usize = 0;
    while i < headers.len()
        invariant
            i <= headers@.len(),
            target@ == "Content-Type"@,
            forall|j: int|
                0 <= j < i ==> !eq_ignore_case(#[trigger] headers_view(headers@)[j].0, "Content-Type"@),
        decreases headers@.len() - i,
    {
        let name = chars_of(headers[i].name.as_str());
        if chars_eq_ignore_case(&name, &target) {
            assert(headers_view(headers@)[i as int].0 == name@);
            return true;
        }
        assert(headers_view(headers@)[i as int].0 == name@);
        i += 1;
    }
    false
}

/// `url`, with `https://` in front when it names no scheme.
fn complete_scheme(url: Vec<char>) -> (r: Vec<char>)
    ensures
        r@ == with_scheme(url@),
{
    let scheme_sep = chars_of("://");
    if chars_contains(&url, &scheme_sep) {
        url
    } else {
        let mut full = chars_of("https://");
        extend_chars(&mut full, &url);
        full
    }
}

fn finish_request(st: Scan) -> (r: Result<HttpRequest, CurlError>)
    ensures
        outcome_view(r) == finish(st@),
{
    let ghost sv = st@;
    let u0 = match st.url {
        None => {
            return Err(CurlError::MissingUrl);
        },
        Some(u) => u,
    };
    let mut url = complete_scheme(u0);
    let amp = chars_of("&");
    let mut data = st.data;
    if st.force_get && data.len() > 0 {
        let ghost u1 = url@;
        let sep = match find_char(&url, '?') {
            Some(q) => {
                assert(url@.contains('?')) by {
                    assert(url@[q as int] == '?');
                }
                '&'
            },
            None => '?',
        };
        assert(seq![sep] == if u1.contains('?') { seq!['&'] } else { seq!['?'] });
        url.push(sep);
        let query = join_chars(&data, &amp);
        extend_chars(&mut url, &query);
        assert(url@ =~= u1 + seq![sep] + join(sv.data, "&"@));
        data = Vec::new();
        assert(seqs_of(data@) =~= Seq::<Seq<char>>::empty());
    }
    let method = match st.method {
        Some(m) => m,
        None => if data.len() == 0 {
            HttpMethod::Get
        } else {
            HttpMethod::Post
        },
    };
    let mut request = HttpRequest::new(method, string_of(&url)).with_headers(st.headers);
    if data.len() > 0 {
        let body = join_chars(&data, &amp);
        request = request.with_body(string_of(&body));
        if st.is_form {
            if !has_content_type_header(&request.headers) {
                request = request.with_header("Content-Type", "application/x-www-form-urlencoded");
            }
        }
    }
    Ok(request)
}

} // verus!

verus! {

// ---------------------------------------------------------------------------
// Laws of the importer
// ---------------------------------------------------------------------------

proof fn lemma_contains_prefix(x: Seq<char>, y: Seq<char>, p: Seq<char>)
    requires
        contains(x, p),
    ensures
        contains(x + y, p),
{
    let i = choose|i: int| occurs_at(x, p, i);
    assert((x + y).subrange(i, i + p.len()) == x.subrange(i, i + p.len()));
    assert(occurs_at(x + y, p, i));
}

/// A completed URL always names a scheme.
pub proof fn law_scheme_completed(url: Seq<char>)
    ensures
        contains(with_scheme(url), "://"@),
{
    if !contains(url, "://"@) {
        reveal_strlit("https://");
        reveal_strlit("://");
        let full = "https://"@ + url;
        assert(full.subrange(5, 8) == "://"@);
        assert(occurs_at(full, "://"@, 5));
    }
}

/// What every imported request has: a URL with a scheme; a body exactly when
/// there were body parts and no `-G`, and then the parts joined with `&`; the
/// method given, or else POST with a body and GET without; and, for form
/// data, a content type.  The import fails for want of a URL exactly when
/// none was given.
pub proof fn law_finished_request(st: ScanState)
    ensures
        finish(st) is Err <==> st.url is None,
        finish(st) matches Ok(r) ==> {
            &&& contains(r.url, "://"@)
            &&& (r.body is Some <==> (st.data.len() > 0 && !st.force_get))
            &&& (r.body matches Some(b) ==> b == join(st.data, "&"@))
            &&& (st.method matches Some(m) ==> r.method == m)
            &&& (st.method is None ==> r.method == if r.body is Some {
                HttpMethod::Post
            } else {
                HttpMethod::Get
            })
            &&& (st.is_form && r.body is Some ==> has_content_type(r.headers))
        },
{
    if let Some(u0) = st.url {
        let u1 = with_scheme(u0);
        law_scheme_completed(u0);
        if st.force_get && st.data.len() > 0 {
            let sep = if u1.contains('?') {
                seq!['&']
            } else {
                seq!['?']
            };
            lemma_contains_prefix(u1, sep + join(st.data, "&"@), "://"@);
            assert(u1 + sep + join(st.data, "&"@) == u1 + (sep + join(st.data, "&"@)));
        }
        if st.is_form && st.data.len() > 0 && !st.force_get && !has_content_type(st.headers) {
            reveal_strlit("Content-Type");
            let h = st.headers.push(("Content-Type"@, "application/x-www-form-urlencoded"@));
            assert(h[h.len() - 1].0 == "Content-Type"@);
            assert(eq_ignore_case(h[h.len() - 1].0, "Content-Type"@));
        }
    }
}


/// A header as an import produces it: a non-empty name with no whitespace at
/// its ends and no `:`, and a value with no whitespace at its ends.
pub open spec fn header_shaped(h: (Seq<char>, Seq<char>)) -> bool {
    &&& h.0.len() > 0
    &&& trim(h.0) == h.0
    &&& !h.0.contains(':')
    &&& trim(h.1) == h.1
}

pub open spec fn headers_shaped(hs: Seq<(Seq<char>, Seq<char>)>) -> bool {
    forall|i: int| 0 <= i < hs.len() ==> header_shaped(#[trigger] hs[i])
}

proof fn lemma_push_shaped(hs: Seq<(Seq<char>, Seq<char>)>, h: (Seq<char>, Seq<char>))
    requires
        headers_shaped(hs),
        header_shaped(h),
    ensures
        headers_shaped(hs.push(h)),
{
    assert forall|i: int| 0 <= i < hs.push(h).len() implies header_shaped(#[trigger] hs.push(h)[i]) by {
        if i < hs.len() {
            assert(hs.push(h)[i] == hs[i]);
        }
    }
}

proof fn lemma_header_line_shaped(hs: Seq<(Seq<char>, Seq<char>)>, raw: Seq<char>)
    requires
        headers_shaped(hs),
    ensures
        headers_shaped(push_header_line(hs, raw)),
{
    let p = first_index(raw, ':');
    lemma_first_index_bounds(raw, ':');
    if p < raw.len() && trim(raw.take(p)).len() != 0 {
        let name = raw.take(p);
        lemma_first_index_before(raw, ':');
        lemma_trim_shape(name);
        lemma_trim_idempotent(name);
        lemma_trim_idempotent(raw.skip(p + 1));
        if trim(name).contains(':') {
            let k = choose|k: int| 0 <= k < trim(name).len() && trim(name)[k] == ':';
            assert(name.contains(trim(name)[k]));
            let j = choose|j: int| 0 <= j < name.len() && name[j] == trim(name)[k];
            assert(name[j] == raw[j]);
        }
        lemma_push_shaped(hs, (trim(name), trim(raw.skip(p + 1))));
    }
}

proof fn lemma_literal_shaped()
    ensures
        header_shaped(("Content-Type"@, "application/json"@)),
        header_shaped(("Accept"@, "application/json"@)),
        header_shaped(("Content-Type"@, "application/x-www-form-urlencoded"@)),
{
    reveal_strlit("Content-Type");
    reveal_strlit("Accept");
    reveal_strlit("application/json");
    reveal_strlit("application/x-www-form-urlencoded");
    lemma_trimmed_fixed("Content-Type"@);
    lemma_trimmed_fixed("Accept"@);
    lemma_trimmed_fixed("application/json"@);
    lemma_trimmed_fixed("application/x-www-form-urlencoded"@);
}

proof fn lemma_apply_shaped(k: FlagKind, v: Seq<char>, st: ScanState)
    requires
        headers_shaped(st.headers),
    ensures
        apply(k, v, st) matches Ok(s) ==> headers_shaped(s.headers),
{
    lemma_literal_shaped();
    match k {
        FlagKind::HeaderLine => lemma_header_line_shaped(st.headers, v),
        FlagKind::Json => {
            lemma_push_shaped(st.headers, ("Content-Type"@, "application/json"@));
            lemma_push_shaped(
                st.headers.push(("Content-Type"@, "application/json"@)),
                ("Accept"@, "application/json"@),
            );
        },
        FlagKind::User => lemma_header_line_shaped(st.headers, "Authorization: Basic "@ + basic_token(v)),
        FlagKind::UserAgent => lemma_header_line_shaped(st.headers, "User-Agent: "@ + v),
        FlagKind::Referer => lemma_header_line_shaped(st.headers, "Referer: "@ + v),
        FlagKind::Cookie => lemma_header_line_shaped(st.headers, "Cookie: "@ + v),
        _ => {},
    }
}

proof fn lemma_cluster_shaped(c: Seq<char>, args: Seq<Seq<char>>, next: int, st: ScanState)
    requires
        headers_shaped(st.headers),
    ensures
        cluster(c, args, next, st) matches Ok((s, _)) ==> headers_shaped(s.headers),
    decreases c.len(),
{
    if c.len() > 0 {
        let k = short_kind(c[0]);
        let rest = c.drop_first();
        if takes_value(k) {
            lemma_apply_shaped(k, rest, st);
            if 0 <= next < args.len() {
                lemma_apply_shaped(k, args[next], st);
            }
        } else {
            lemma_cluster_shaped(rest, args, next, flag_effect(k, st));
        }
    }
}

proof fn lemma_scan_shaped(args: Seq<Seq<char>>, index: int, st: ScanState)
    requires
        headers_shaped(st.headers),
    ensures
        scan(args, index, st) matches Ok(s) ==> headers_shaped(s.headers),
    decreases args.len() - index,
{
    if 0 <= index < args.len() {
        let tok = args[index];
        let next = index + 1;
        if tok == "--"@ {
        } else if starts_with(tok, "--"@) {
            let (name, inline) = split_long(tok.skip(2));
            let k = long_kind(name);
            if takes_value(k) {
                match inline {
                    Some(v) => lemma_apply_shaped(k, v, st),
                    None => if 0 <= next < args.len() {
                        lemma_apply_shaped(k, args[next], st);
                    },
                }
            }
            match long_step(k, inline, args, next, st) {
                Ok((s, took)) => lemma_scan_shaped(
                    args,
                    if took && next < args.len() {
                        next + 1
                    } else {
                        next
                    },
                    s,
                ),
                Err(_) => {},
            }
        } else if tok.len() > 0 && tok[0] == '-' {
            lemma_cluster_shaped(tok.drop_first(), args, next, st);
            match cluster(tok.drop_first(), args, next, st) {
                Ok((s, took)) => lemma_scan_shaped(
                    args,
                    if took && next < args.len() {
                        next + 1
                    } else {
                        next
                    },
                    s,
                ),
                Err(_) => {},
            }
        } else {
            lemma_scan_shaped(
                args,
                next,
                if st.url is None { ScanState { url: Some(tok), ..st } } else { st },
            );
        }
    }
}

/// Every header of an imported request has a non-empty name with no
/// whitespace at its ends and no `:`, and a value with no whitespace at its
/// ends, whatever words the command was split into.
pub proof fn law_imported_headers_shaped(tokens: Seq<Seq<char>>)
    ensures
        interpret(tokens) matches Ok(r) ==> headers_shaped(r.headers),
{
    if tokens.len() > 0 {
        let args = if is_curl_word(tokens[0]) {
            tokens.drop_first()
        } else {
            tokens
        };
        lemma_scan_shaped(args, 0, initial_state());
        match scan(args, 0, initial_state()) {
            Ok(st) => {
                lemma_literal_shaped();
                lemma_push_shaped(st.headers, ("Content-Type"@, "application/x-www-form-urlencoded"@));
            },
            Err(_) => {},
        }
    }
}

/// The same for a pasted command: every header the import yields is so shaped.
pub proof fn law_command_headers_shaped(input: Seq<char>)
    ensures
        curl_command(input) matches Ok(r) ==> headers_shaped(r.headers),
{
    match shell_words(trim(crlf_to_lf(input))) {
        Some(tokens) => law_imported_headers_shaped(tokens),
        None => {},
    }
}

/// The long options that give a body part.
pub open spec fn is_data_option(name: Seq<char>) -> bool {
    name == "data"@ || name == "data-raw"@ || name == "data-binary"@ || name == "data-ascii"@ || name
        == "data-urlencode"@
}

proof fn lemma_data_option_kind(name: Seq<char>)
    requires
        is_data_option(name),
    ensures
        long_kind(name) == FlagKind::Data,
        !name.contains('='),
        name.len() > 0,
{
    reveal_strlit("request");
    reveal_strlit("header");
    reveal_strlit("url");
    reveal_strlit("data");
    reveal_strlit("data-raw");
    reveal_strlit("data-binary");
    reveal_strlit("data-ascii");
    reveal_strlit("data-urlencode");
    assert(name.len() >= 4 && name.len() != 7 && name.len() != 6 && name.len() != 3);
    assert(name != "request"@ && name != "header"@ && name != "url"@);
    assert forall|j: int| 0 <= j < name.len() implies #[trigger] name[j] != '=' by {
        if name == "data"@ {
            assert(name =~= seq!['d', 'a', 't', 'a']);
        } else if name == "data-raw"@ {
            assert(name =~= seq!['d', 'a', 't', 'a', '-', 'r', 'a', 'w']);
        } else if name == "data-binary"@ {
            assert(name =~= seq!['d', 'a', 't', 'a', '-', 'b', 'i', 'n', 'a', 'r', 'y']);
        } else if name == "data-ascii"@ {
            assert(name =~= seq!['d', 'a', 't', 'a', '-', 'a', 's', 'c', 'i', 'i']);
        } else {
            assert(name =~= seq!['d', 'a', 't', 'a', '-', 'u', 'r', 'l', 'e', 'n', 'c', 'o', 'd', 'e']);
        }
    }
}

/// The state after reading the URL word `u`.
pub open spec fn url_state(u: Seq<char>) -> ScanState {
    ScanState { url: Some(u), ..initial_state() }
}

/// The state after the URL word `u` and one body part `v`.
pub open spec fn data_state(u: Seq<char>, v: Seq<char>) -> ScanState {
    ScanState { data: seq![v], ..url_state(u) }
}

proof fn lemma_interpret_curl(tokens: Seq<Seq<char>>)
    requires
        tokens.len() > 1,
        tokens[0] == "curl"@,
    ensures
        interpret(tokens) == (match scan(tokens.drop_first(), 0, initial_state()) {
            Ok(st) => finish(st),
            Err(e) => Err(e),
        }),
{
    reveal_strlit("curl");
    assert(is_curl_word("curl"@));
}

proof fn lemma_scan_url(u: Seq<char>, rest: Seq<Seq<char>>)
    requires
        u.len() > 0,
        u[0] != '-',
    ensures
        scan(seq![u] + rest, 0, initial_state()) == scan(seq![u] + rest, 1, url_state(u)),
{
    reveal_strlit("--");
    let args = seq![u] + rest;
    assert(args[0] == u);
    assert(u != "--"@) by {
        if u == "--"@ {
            assert(u[0] == '-');
        }
    };
    assert(!starts_with(u, "--"@)) by {
        if starts_with(u, "--"@) {
            assert(u.take(2)[0] == u[0]);
        }
    };
}

proof fn lemma_finish_data(u: Seq<char>, v: Seq<char>)
    ensures
        finish(data_state(u, v)) == Ok::<RequestView, CurlErrorView>(
            RequestView {
                method: HttpMethod::Post,
                url: with_scheme(u),
                headers: Seq::empty(),
                body: Some(v),
            },
        ),
{
    assert(join(seq![v], "&"@) == v);
}

proof fn lemma_long_option_word(opt: Seq<char>, name: Seq<char>, inline: Option<Seq<char>>)
    requires
        opt.len() > 2,
        opt.take(2) == "--"@,
        split_long(opt.skip(2)) == (name, inline),
    ensures
        opt != "--"@,
        starts_with(opt, "--"@),
{
    reveal_strlit("--");
}

#[verifier::rlimit(40)]
proof fn lemma_scan_data_next(u: Seq<char>, name: Seq<char>, v: Seq<char>)
    requires
        is_data_option(name),
    ensures
        scan(seq![u, "--"@ + name, v], 1, url_state(u)) == Ok::<ScanState, CurlErrorView>(
            data_state(u, v),
        ),
{
    reveal_strlit("--");
    lemma_data_option_kind(name);
    let opt = "--"@ + name;
    let args = seq![u, opt, v];
    assert(opt.take(2) =~= "--"@);
    assert(opt.skip(2) =~= name);
    crate::text::lemma_first_index(name, '=', name.len() as int);
    assert(split_long(name) == (name, None::<Seq<char>>));
    lemma_long_option_word(opt, name, None);
    let st1 = url_state(u);
    let st2 = data_state(u, v);
    assert(st1.data.push(v) =~= seq![v]);
    assert(apply(FlagKind::Data, v, st1) == Ok::<ScanState, CurlErrorView>(st2));
    assert(long_step(FlagKind::Data, None, args, 2, st1) == Ok::<(ScanState, bool), CurlErrorView>((st2, true)));
    assert(scan(args, 3, st2) == Ok::<ScanState, CurlErrorView>(st2));
}

#[verifier::rlimit(40)]
proof fn lemma_scan_data_inline(u: Seq<char>, name: Seq<char>, v: Seq<char>)
    requires
        is_data_option(name),
    ensures
        scan(seq![u, "--"@ + name + "="@ + v], 1, url_state(u)) == Ok::<ScanState, CurlErrorView>(
            data_state(u, v),
        ),
{
    reveal_strlit("--");
    reveal_strlit("=");
    lemma_data_option_kind(name);
    let opt = "--"@ + name + "="@ + v;
    let args = seq![u, opt];
    assert(opt.take(2) =~= "--"@);
    let long = opt.skip(2);
    assert(long =~= name + ("="@ + v));
    crate::text::lemma_first_index(long, '=', name.len() as int);
    assert(long.take(name.len() as int) =~= name);
    assert(long.skip(name.len() + 1int) =~= v);
    assert(split_long(long) == (name, Some(v)));
    lemma_long_option_word(opt, name, Some(v));
    let st1 = url_state(u);
    let st2 = data_state(u, v);
    assert(st1.data.push(v) =~= seq![v]);
    assert(apply(FlagKind::Data, v, st1) == Ok::<ScanState, CurlErrorView>(st2));
    assert(long_step(FlagKind::Data, Some(v), args, 2, st1) == Ok::<(ScanState, bool), CurlErrorView>((st2, false)));
    assert(scan(args, 2, st2) == Ok::<ScanState, CurlErrorView>(st2));
}

/// Every data option takes the next word as the body: `curl URL --<name> V`
/// is a POST of `V` to the URL, with no headers.
#[verifier::rlimit(40)]
pub proof fn law_data_option_next_word(name: Seq<char>, u: Seq<char>, v: Seq<char>)
    requires
        is_data_option(name),
        u.len() > 0,
        u[0] != '-',
    ensures
        interpret(seq!["curl"@, u, "--"@ + name, v]) == Ok::<RequestView, CurlErrorView>(
            RequestView {
                method: HttpMethod::Post,
                url: with_scheme(u),
                headers: Seq::empty(),
                body: Some(v),
            },
        ),
{
    let tokens = seq!["curl"@, u, "--"@ + name, v];
    lemma_interpret_curl(tokens);
    let rest = seq!["--"@ + name, v];
    assert(tokens.drop_first() == seq![u] + rest);
    assert(seq![u] + rest == seq![u, "--"@ + name, v]);
    lemma_scan_url(u, rest);
    lemma_scan_data_next(u, name, v);
    lemma_finish_data(u, v);
}

/// The same with the value written inline: `curl URL --<name>=V` is a POST
/// of `V` to the URL.
#[verifier::rlimit(40)]
pub proof fn law_data_option_inline(name: Seq<char>, u: Seq<char>, v: Seq<char>)
    requires
        is_data_option(name),
        u.len() > 0,
        u[0] != '-',
    ensures
        interpret(seq!["curl"@, u, "--"@ + name + "="@ + v]) == Ok::<RequestView, CurlErrorView>(
            RequestView {
                method: HttpMethod::Post,
                url: with_scheme(u),
                headers: Seq::empty(),
                body: Some(v),
            },
        ),
{
    let opt = "--"@ + name + "="@ + v;
    let tokens = seq!["curl"@, u, opt];
    lemma_interpret_curl(tokens);
    let rest = seq![opt];
    assert(tokens.drop_first() == seq![u] + rest);
    assert(seq![u] + rest == seq![u, opt]);
    lemma_scan_url(u, rest);
    lemma_scan_data_inline(u, name, v);
    lemma_finish_data(u, v);
}

/// How a word `-c` (one short option) is read at position `i`.
#[verifier::rlimit(40)]
proof fn lemma_scan_short(args: Seq<Seq<char>>, i: int, st: ScanState, c: char)
    requires
        0 <= i < args.len(),
        args[i] == seq!['-', c],
        c != '-',
    ensures
        scan(args, i, st) == (if takes_value(short_kind(c)) {
            if i + 1 < args.len() {
                match apply(short_kind(c), args[i + 1], st) {
                    Ok(s) => scan(args, i + 2, s),
                    Err(e) => Err(e),
                }
            } else {
                scan(args, i + 1, st)
            }
        } else {
            scan(args, i + 1, flag_effect(short_kind(c), st))
        }),
{
    reveal_strlit("--");
    let tok = args[i];
    assert(tok != "--"@) by {
        if tok == "--"@ {
            assert(tok[1] == '-');
        }
    };
    assert(!starts_with(tok, "--"@)) by {
        if starts_with(tok, "--"@) {
            assert(tok.take(2)[1] == tok[1]);
        }
    };
    let rest = tok.drop_first();
    assert(rest =~= seq![c]);
    let k = short_kind(c);
    assert(rest[0] == c);
    assert(rest.drop_first().len() == 0);
    if !takes_value(k) {
        assert(cluster(rest.drop_first(), args, i + 1, flag_effect(k, st)) == Ok::<(ScanState, bool), CurlErrorView>((flag_effect(k, st), false)));
    }
}

proof fn lemma_scan_end(args: Seq<Seq<char>>, i: int, st: ScanState)
    requires
        i >= args.len(),
    ensures
        scan(args, i, st) == Ok::<ScanState, CurlErrorView>(st),
{
}

/// `-d V` takes `V` as the body: `curl URL -d V` is a POST of `V`.
#[verifier::rlimit(40)]
pub proof fn law_short_data(u: Seq<char>, v: Seq<char>)
    requires
        u.len() > 0,
        u[0] != '-',
    ensures
        interpret(seq!["curl"@, u, seq!['-', 'd'], v]) == Ok::<RequestView, CurlErrorView>(
            RequestView {
                method: HttpMethod::Post,
                url: with_scheme(u),
                headers: Seq::empty(),
                body: Some(v),
            },
        ),
{
    let tokens = seq!["curl"@, u, seq!['-', 'd'], v];
    lemma_interpret_curl(tokens);
    let rest = seq![seq!['-', 'd'], v];
    let args = seq![u] + rest;
    assert(tokens.drop_first() == args);
    assert(args == seq![u, seq!['-', 'd'], v]);
    lemma_scan_url(u, rest);
    lemma_scan_short(args, 1, url_state(u), 'd');
    assert(short_kind('d') == FlagKind::Data);
    assert(url_state(u).data.push(v) =~= seq![v]);
    assert(apply(FlagKind::Data, v, url_state(u)) == Ok::<ScanState, CurlErrorView>(data_state(u, v)));
    lemma_scan_end(args, 3, data_state(u, v));
    assert(scan(args, 1, url_state(u)) == Ok::<ScanState, CurlErrorView>(data_state(u, v)));
    lemma_finish_data(u, v);
}

/// `-X M` sets the method to `M` (in any ASCII case); without a body part
/// the request has no body.
#[verifier::rlimit(40)]
pub proof fn law_method_option(u: Seq<char>, m: HttpMethod, name: Seq<char>)
    requires
        u.len() > 0,
        u[0] != '-',
        eq_ignore_case(m.name(), name),
    ensures
        interpret(seq!["curl"@, u, seq!['-', 'X'], name]) == Ok::<RequestView, CurlErrorView>(
            RequestView { method: m, url: with_scheme(u), headers: Seq::empty(), body: None },
        ),
{
    let tokens = seq!["curl"@, u, seq!['-', 'X'], name];
    lemma_interpret_curl(tokens);
    let rest = seq![seq!['-', 'X'], name];
    let args = seq![u] + rest;
    assert(tokens.drop_first() == args);
    assert(args == seq![u, seq!['-', 'X'], name]);
    lemma_scan_url(u, rest);
    lemma_scan_short(args, 1, url_state(u), 'X');
    super::http_method::law_method_from_equal_name(m, name);
    let st = ScanState { method: Some(m), ..url_state(u) };
    lemma_scan_end(args, 3, st);
}

/// A method name that no method has is refused, and named in the error.
#[verifier::rlimit(40)]
pub proof fn law_unknown_method_refused(u: Seq<char>, name: Seq<char>)
    requires
        u.len() > 0,
        u[0] != '-',
        HttpMethod::from_name(name) is None,
    ensures
        interpret(seq!["curl"@, u, seq!['-', 'X'], name]) == Err::<RequestView, CurlErrorView>(
            CurlErrorView::InvalidMethod(name),
        ),
{
    let tokens = seq!["curl"@, u, seq!['-', 'X'], name];
    lemma_interpret_curl(tokens);
    let rest = seq![seq!['-', 'X'], name];
    let args = seq![u] + rest;
    assert(tokens.drop_first() == args);
    assert(args == seq![u, seq!['-', 'X'], name]);
    lemma_scan_url(u, rest);
    lemma_scan_short(args, 1, url_state(u), 'X');
}

proof fn lemma_header_line_split(n: Seq<char>, val: Seq<char>)
    requires
        n.len() > 0,
        crate::text::trimmed(n),
        !n.contains(':'),
        crate::text::trimmed(val),
    ensures
        push_header_line(Seq::empty(), n + seq![':', ' '] + val) == seq![(n, val)],
{
    let line = n + seq![':', ' '] + val;
    assert forall|j: int| 0 <= j < n.len() implies #[trigger] line[j] != ':' by {
        assert(line[j] == n[j]);
    }
    crate::text::lemma_first_index(line, ':', n.len() as int);
    assert(line.take(n.len() as int) =~= n);
    assert(line.skip(n.len() + 1int) =~= seq![' '] + val);
    crate::text::lemma_trimmed_fixed(n);
    if val.len() > 0 {
        crate::text::lemma_trim_padded(seq![' '], val, Seq::empty());
        assert(seq![' '] + val + Seq::<char>::empty() == seq![' '] + val);
    } else {
        assert(seq![' '] + val =~= seq![' ']);
        assert(crate::text::all_ws(seq![' ']));
        crate::text::lemma_trim_all_ws(seq![' ']);
        assert(trim(seq![' ']) =~= val);
    }
    assert(trim(line.skip(n.len() + 1int)) == val);
    assert(trim(line.take(n.len() as int)) == n);
    assert(first_index(line, ':') == n.len());
    assert(Seq::<(Seq<char>, Seq<char>)>::empty().push((n, val)) =~= seq![(n, val)]);
}

/// `-H "N: V"` adds the header `N` with value `V`, both trimmed.
#[verifier::rlimit(40)]
pub proof fn law_header_option(u: Seq<char>, n: Seq<char>, val: Seq<char>)
    requires
        u.len() > 0,
        u[0] != '-',
        n.len() > 0,
        crate::text::trimmed(n),
        !n.contains(':'),
        crate::text::trimmed(val),
    ensures
        interpret(seq!["curl"@, u, seq!['-', 'H'], n + seq![':', ' '] + val]) == Ok::<
            RequestView,
            CurlErrorView,
        >(
            RequestView {
                method: HttpMethod::Get,
                url: with_scheme(u),
                headers: seq![(n, val)],
                body: None,
            },
        ),
{
    let line = n + seq![':', ' '] + val;
    let tokens = seq!["curl"@, u, seq!['-', 'H'], line];
    lemma_interpret_curl(tokens);
    let rest = seq![seq!['-', 'H'], line];
    let args = seq![u] + rest;
    assert(tokens.drop_first() == args);
    assert(args == seq![u, seq!['-', 'H'], line]);
    lemma_scan_url(u, rest);
    lemma_scan_short(args, 1, url_state(u), 'H');
    lemma_header_line_split(n, val);
    let st = ScanState { headers: seq![(n, val)], ..url_state(u) };
    assert(short_kind('H') == FlagKind::HeaderLine);
    assert(push_header_line(url_state(u).headers, line) == seq![(n, val)]);
    assert(apply(FlagKind::HeaderLine, line, url_state(u)) == Ok::<ScanState, CurlErrorView>(st));
    lemma_scan_end(args, 3, st);
    assert(scan(args, 1, url_state(u)) == Ok::<ScanState, CurlErrorView>(st));
}

/// `-I` asks for HEAD.
#[verifier::rlimit(40)]
pub proof fn law_head_flag(u: Seq<char>)
    requires
        u.len() > 0,
        u[0] != '-',
    ensures
        interpret(seq!["curl"@, u, seq!['-', 'I']]) == Ok::<RequestView, CurlErrorView>(
            RequestView { method: HttpMethod::Head, url: with_scheme(u), headers: Seq::empty(), body: None },
        ),
{
    let tokens = seq!["curl"@, u, seq!['-', 'I']];
    lemma_interpret_curl(tokens);
    let rest = seq![seq!['-', 'I']];
    let args = seq![u] + rest;
    assert(tokens.drop_first() == args);
    assert(args == seq![u, seq!['-', 'I']]);
    lemma_scan_url(u, rest);
    lemma_scan_short(args, 1, url_state(u), 'I');
    let st = ScanState { method: Some(HttpMethod::Head), ..url_state(u) };
    lemma_scan_end(args, 2, st);
}

#[verifier::rlimit(40)]
proof fn lemma_scan_get_data(u: Seq<char>, v: Seq<char>)
    ensures
        scan(seq![u, seq!['-', 'G'], seq!['-', 'd'], v], 1, url_state(u)) == Ok::<ScanState, CurlErrorView>(
            ScanState { force_get: true, data: seq![v], ..url_state(u) },
        ),
{
    let args = seq![u, seq!['-', 'G'], seq!['-', 'd'], v];
    lemma_scan_short(args, 1, url_state(u), 'G');
    assert(short_kind('G') == FlagKind::ForceGet);
    let st1 = ScanState { force_get: true, ..url_state(u) };
    assert(flag_effect(FlagKind::ForceGet, url_state(u)) == st1);
    lemma_scan_short(args, 2, st1, 'd');
    assert(short_kind('d') == FlagKind::Data);
    let st2 = ScanState { data: seq![v], ..st1 };
    assert(st1.data.push(v) =~= seq![v]);
    assert(apply(FlagKind::Data, v, st1) == Ok::<ScanState, CurlErrorView>(st2));
    lemma_scan_end(args, 4, st2);
}

/// With `-G` the body part goes into the query string instead: the request
/// is a GET with no body, and `V` follows the URL after `?` (or `&` when the
/// URL already has a query).
#[verifier::rlimit(40)]
pub proof fn law_get_moves_data(u: Seq<char>, v: Seq<char>)
    requires
        u.len() > 0,
        u[0] != '-',
    ensures
        interpret(seq!["curl"@, u, seq!['-', 'G'], seq!['-', 'd'], v]) == Ok::<RequestView, CurlErrorView>(
            RequestView {
                method: HttpMethod::Get,
                url: with_scheme(u) + (if with_scheme(u).contains('?') {
                    seq!['&']
                } else {
                    seq!['?']
                }) + v,
                headers: Seq::empty(),
                body: None,
            },
        ),
{
    let tokens = seq!["curl"@, u, seq!['-', 'G'], seq!['-', 'd'], v];
    lemma_interpret_curl(tokens);
    let rest = seq![seq!['-', 'G'], seq!['-', 'd'], v];
    let args = seq![u] + rest;
    assert(tokens.drop_first() == args);
    assert(args == seq![u, seq!['-', 'G'], seq!['-', 'd'], v]);
    lemma_scan_url(u, rest);
    lemma_scan_get_data(u, v);
    lemma_finish_get(u, v);
}

proof fn lemma_finish_get(u: Seq<char>, v: Seq<char>)
    ensures
        finish(ScanState { force_get: true, data: seq![v], ..url_state(u) }) == Ok::<RequestView, CurlErrorView>(
            RequestView {
                method: HttpMethod::Get,
                url: with_scheme(u) + (if with_scheme(u).contains('?') {
                    seq!['&']
                } else {
                    seq!['?']
                }) + v,
                headers: Seq::empty(),
                body: None,
            },
        ),
{
    assert(join(seq![v], "&"@) == v);
}

} // verus!
