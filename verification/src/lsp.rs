//! Language servers: the default server configurations, and the framing of
//! JSON-RPC messages on a server's standard streams (a `Content-Length`
//! header, a blank line, then the body).

use vstd::prelude::*;
use vstd::utf8::{decode_utf8, encode_utf8};
use crate::text::{chars_of, decimal, matches_at, push_str, slice_chars, string_of, string_views, trim, trim_chars, usize_to_string};

verus! {

/// Language server configuration for one language.
#[derive(Debug, Clone)]
pub struct LspConfig {
    /// Language identifier.
    pub language_id: String,
    /// Command that starts the server.
    pub command: String,
    /// Command arguments.
    pub args: Vec<String>,
    /// File extensions the server handles.
    pub extensions: Vec<String>,
    /// Idle time in seconds before the server is shut down.
    pub idle_timeout_secs: u64,
}

/// The view of a configuration.
pub open spec fn config_view(c: LspConfig) -> (Seq<char>, Seq<char>, Seq<Seq<char>>, Seq<Seq<char>>, u64) {
    (c.language_id@, c.command@, string_views(c.args@), string_views(c.extensions@), c.idle_timeout_secs)
}

/// The default server configurations: TypeScript, Rust, Python, Go and C.
pub open spec fn default_configs() -> Seq<(Seq<char>, Seq<char>, Seq<Seq<char>>, Seq<Seq<char>>, u64)> {
    seq![
        ("typescript"@, "typescript-language-server"@, seq!["--stdio"@], seq!["ts"@, "tsx"@, "js"@, "jsx"@], 300u64),
        ("rust"@, "rust-analyzer"@, Seq::empty(), seq!["rs"@], 600u64),
        ("python"@, "pyright-langserver"@, seq!["--stdio"@], seq!["py"@], 300u64),
        ("go"@, "gopls"@, Seq::empty(), seq!["go"@], 600u64),
        ("c"@, "clangd"@, Seq::empty(), seq!["c"@, "h"@], 600u64),
    ]
}

fn strings1(a: &str) -> (v: Vec<String>)
    ensures
        string_views(v@) == seq![a@],
{
    let mut v: Vec<String> = Vec::new();
    v.push(a.to_owned());
    assert(string_views(v@) =~= seq![a@]);
    v
}

fn strings2(a: &str, b: &str) -> (v: Vec<String>)
    ensures
        string_views(v@) == seq![a@, b@],
{
    let mut v: Vec<String> = Vec::new();
    v.push(a.to_owned());
    v.push(b.to_owned());
    assert(string_views(v@) =~= seq![a@, b@]);
    v
}

fn strings4(a: &str, b: &str, c: &str, d: &str) -> (v: Vec<String>)
    ensures
        string_views(v@) == seq![a@, b@, c@, d@],
{
    let mut v: Vec<String> = Vec::new();
    v.push(a.to_owned());
    v.push(b.to_owned());
    v.push(c.to_owned());
    v.push(d.to_owned());
    assert(string_views(v@) =~= seq![a@, b@, c@, d@]);
    v
}

fn config(language_id: &str, command: &str, args: Vec<String>, extensions: Vec<String>, idle: u64) -> (c: LspConfig)
    ensures
        config_view(c) == (language_id@, command@, string_views(args@), string_views(extensions@), idle),
{
    LspConfig {
        language_id: language_id.to_owned(),
        command: command.to_owned(),
        args,
        extensions,
        idle_timeout_secs: idle,
    }
}

/// The default language server configurations.
pub fn default_lsp_configs() -> (v: Vec<LspConfig>)
    ensures
        v@.map_values(|c: LspConfig| config_view(c)) == default_configs(),
{
    let mut v: Vec<LspConfig> = Vec::new();
    let ts_ext = strings4("ts", "tsx", "js", "jsx");
    v.push(config("typescript", "typescript-language-server", strings1("--stdio"), ts_ext, 300));
    let none: Vec<String> = Vec::new();
    assert(string_views(none@) =~= Seq::<Seq<char>>::empty());
    v.push(config("rust", "rust-analyzer", none, strings1("rs"), 600));
    v.push(config("python", "pyright-langserver", strings1("--stdio"), strings1("py"), 300));
    let none: Vec<String> = Vec::new();
    assert(string_views(none@) =~= Seq::<Seq<char>>::empty());
    v.push(config("go", "gopls", none, strings1("go"), 600));
    let none: Vec<String> = Vec::new();
    assert(string_views(none@) =~= Seq::<Seq<char>>::empty());
    v.push(config("c", "clangd", none, strings2("c", "h"), 600));
    assert(v@.map_values(|c: LspConfig| config_view(c)) =~= default_configs());
    v
}

/// The text of a framed message: the header with the body's length in
/// UTF-8 bytes, a blank line, then the body.
pub open spec fn frame_text(body: Seq<char>) -> Seq<char> {
    "Content-Length: "@ + decimal(encode_utf8(body).len()) + "\r\n\r\n"@ + body
}

/// Frames a JSON-RPC message body for sending: the UTF-8 bytes of
/// `frame_text(body)`.
pub fn encode_message(body: &str) -> (bytes: Vec<u8>)
    ensures
        bytes@ == encode_utf8(frame_text(body@)),
{
    let mut text = "Content-Length: ".to_owned();
    let body_bytes = body.as_bytes();
    let n = usize_to_string(body_bytes.len());
    push_str(&mut text, n.as_str());
    push_str(&mut text, "\r\n\r\n");
    push_str(&mut text, body);
    assert(n@ == decimal(encode_utf8(body@).len()));
    assert(text@ == frame_text(body@));
    let raw = text.as_str().as_bytes();
    assert(raw@ == encode_utf8(text@));
    let mut bytes: Vec<u8> = Vec::new();
    let mut i: usize = 0;
    while i < raw.len()
        invariant
            i <= raw@.len(),
            bytes@ == raw@.take(i as int),
        decreases raw@.len() - i,
    {
        bytes.push(raw[i]);
        assert(raw@.take(i + 1) == raw@.take(i as int).push(raw@[i as int]));
        i += 1;
    }
    assert(raw@.take(raw@.len() as int) == raw@);
    bytes
}

/// The value of a decimal numeral as `usize::from_str` reads it: an
/// optional `+`, then one or more ASCII digits, within `usize`.
pub open spec fn digits_value(s: Seq<char>) -> nat
    decreases s.len(),
{
    if s.len() == 0 {
        0
    } else {
        digits_value(s.drop_last()) * 10 + ((s.last() as u32) - ('0' as u32)) as nat
    }
}

/// All characters are ASCII digits.
pub open spec fn all_digits(s: Seq<char>) -> bool {
    forall|i: int| 0 <= i < s.len() ==> '0' <= #[trigger] s[i] && s[i] <= '9'
}

/// The numeral's value, if `usize::from_str` accepts it.
pub open spec fn parsed_usize(s: Seq<char>) -> Option<nat> {
    let d = if s.len() > 0 && s[0] == '+' { s.skip(1) } else { s };
    if d.len() > 0 && all_digits(d) && digits_value(d) <= usize::MAX {
        Some(digits_value(d))
    } else {
        None
    }
}

/// What a header line of a framed message says.
#[derive(Debug, Clone, PartialEq, Eq)]
pub enum HeaderLine {
    /// The blank line that ends the headers.
    End,
    /// A `Content-Length` header with its value.
    ContentLength(usize),
    /// A `Content-Length` header whose value is not a number.
    BadLength,
    /// Any other header, ignored.
    Other,
}

/// How a header line is read, once trimmed: blank ends the headers,
/// `Content-Length: ` followed by a (trimmed) number gives the length.
pub open spec fn header_meaning(line: Seq<char>) -> HeaderLine {
    let t = trim(line);
    if t.len() == 0 {
        HeaderLine::End
    } else if crate::text::starts_with(t, "Content-Length: "@) {
        match parsed_usize(trim(t.skip(16))) {
            Some(n) => HeaderLine::ContentLength(n as usize),
            None => HeaderLine::BadLength,
        }
    } else {
        HeaderLine::Other
    }
}

/// Reads a decimal numeral (see `parsed_usize`).
pub fn parse_usize(s: &[char]) -> (r: Option<usize>)
    ensures
        match (r, parsed_usize(s@)) {
            (Some(a), Some(b)) => a == b,
            (None, None) => true,
            _ => false,
        },
{
    let start: usize = if s.len() > 0 && s[0] == '+' { 1 } else { 0 };
    let ghost d = if s@.len() > 0 && s@[0] == '+' { s@.skip(1) } else { s@ };
    assert(d == s@.skip(start as int));
    if start == s.len() {
        return None;
    }
    let mut value: usize = 0;
    let mut i: usize = start;
    while i < s.len()
        invariant
            start <= i <= s@.len(),
            start == (if s@.len() > 0 && s@[0] == '+' { 1usize } else { 0usize }),
            d == (if s@.len() > 0 && s@[0] == '+' { s@.skip(1) } else { s@ }),
            d == s@.skip(start as int),
            all_digits(s@.subrange(start as int, i as int)),
            value == digits_value(s@.subrange(start as int, i as int)),
        decreases s@.len() - i,
    {
        let c = s[i];
        assert(s@.subrange(start as int, i + 1).drop_last() == s@.subrange(start as int, i as int));
        if c < '0' || c > '9' {
            proof {
                assert(d[i - start] == c);
                assert(!('0' <= d[i - start] && d[i - start] <= '9'));
                assert(!all_digits(d));
            }
            return None;
        }
        let digit = (c as u32 - '0' as u32) as usize;
        if value > (usize::MAX - digit) / 10 {
            proof {
                let whole = s@.subrange(start as int, s@.len() as int);
                assert(whole == d);
                assert(whole.take(i - start) == s@.subrange(start as int, i as int));
                assert(whole[i - start] == c);
                assert(digit == (c as u32) - ('0' as u32));
                assert(value * 10 + digit > usize::MAX) by (nonlinear_arith)
                    requires
                        value > (usize::MAX - digit) / 10,
                        digit <= 9;
                lemma_digits_grow(whole, (i - start) as int);
            }
            return None;
        }
        value = value * 10 + digit;
        i += 1;
    }
    assert(s@.subrange(start as int, s@.len() as int) == d);
    Some(value)
}

/// Once a prefix of digits is over the limit, the whole numeral is.
proof fn lemma_digits_grow(d: Seq<char>, k: int)
    requires
        0 <= k < d.len(),
        digits_value(d.take(k)) * 10 + ((d[k] as u32) - ('0' as u32)) > usize::MAX,
        '0' <= d[k] <= '9',
    ensures
        !(all_digits(d) && digits_value(d) <= usize::MAX),
    decreases d.len() - k,
{
    if all_digits(d) {
        lemma_digits_prefix_mono(d, k + 1, d.len() as int);
        assert(d.take(k + 1).drop_last() == d.take(k));
        assert(d.take(d.len() as int) == d);
    }
}

proof fn lemma_digits_prefix_mono(d: Seq<char>, a: int, b: int)
    requires
        0 <= a <= b <= d.len(),
        all_digits(d),
    ensures
        digits_value(d.take(a)) <= digits_value(d.take(b)),
    decreases b - a,
{
    if a < b {
        lemma_digits_prefix_mono(d, a, b - 1);
        assert(d.take(b).drop_last() == d.take(b - 1));
        assert('0' <= d[b - 1] <= '9');
    }
}

/// Reads one header line of a framed message (see `header_meaning`).
pub fn read_header_line(line: &str) -> (r: HeaderLine)
    ensures
        r == header_meaning(line@),
{
    let chars = chars_of(line);
    let t = trim_chars(chars.as_slice());
    if t.len() == 0 {
        return HeaderLine::End;
    }
    let prefix = chars_of("Content-Length: ");
    proof {
        reveal_strlit("Content-Length: ");
        assert(t@.skip(0) == t@);
    }
    if matches_at(t.as_slice(), 0, prefix.as_slice()) {
        let rest = slice_chars(t.as_slice(), 16, t.len());
        assert(rest@ == t@.skip(16));
        let value = trim_chars(rest.as_slice());
        match parse_usize(value.as_slice()) {
            Some(n) => HeaderLine::ContentLength(n),
            None => HeaderLine::BadLength,
        }
    } else {
        HeaderLine::Other
    }
}

proof fn lemma_decimal_digits(n: nat)
    ensures
        decimal(n).len() > 0,
        all_digits(decimal(n)),
        digits_value(decimal(n)) == n,
        decimal(n)[0] != '+',
    decreases n,
{
    if n >= 10 {
        lemma_decimal_digits(n / 10);
        let d = decimal(n);
        assert(d.drop_last() == decimal(n / 10));
        assert(forall|i: int| 0 <= i < d.len() - 1 ==> d[i] == decimal(n / 10)[i]);
    }
    let d = decimal(n);
    let c = d.last();
    assert(c == crate::text::digit_char(n % 10));
    lemma_digit_char_value(n % 10);
    if n < 10 {
        assert(d.drop_last() =~= Seq::<char>::empty());
        assert(digits_value(d.drop_last()) == 0);
    } else {
        assert(digits_value(d) == digits_value(decimal(n / 10)) * 10 + n % 10);
    }
}

proof fn lemma_digit_char_value(d: nat)
    requires
        d < 10,
    ensures
        (crate::text::digit_char(d) as u32) - ('0' as u32) == d,
        '0' <= crate::text::digit_char(d) <= '9',
{
    assert(('0' as u32) == 48);
    if d == 0 { assert(('0' as u32) == 48); }
    else if d == 1 { assert(('1' as u32) == 49); }
    else if d == 2 { assert(('2' as u32) == 50); }
    else if d == 3 { assert(('3' as u32) == 51); }
    else if d == 4 { assert(('4' as u32) == 52); }
    else if d == 5 { assert(('5' as u32) == 53); }
    else if d == 6 { assert(('6' as u32) == 54); }
    else if d == 7 { assert(('7' as u32) == 55); }
    else if d == 8 { assert(('8' as u32) == 56); }
    else { assert(('9' as u32) == 57); }
}

proof fn lemma_trim_framed(body: Seq<char>)
    requires
        body.len() > 0,
        !crate::text::is_ws(body[0]),
        !crate::text::is_ws(body.last()),
    ensures
        trim(body + "\r\n"@) == body,
        trim(body) == body,
{
    reveal_strlit("\r\n");
    let s = body + "\r\n"@;
    assert(crate::text::lead_ws(s) == 0);
    assert(crate::text::lead_ws(body) == 0);
    assert(crate::text::trail_ws(body) == 0);
    assert(s.drop_last().drop_last() =~= body);
    assert(crate::text::trail_ws(s.drop_last().drop_last()) == 0);
    assert(crate::text::trail_ws(s.drop_last()) == 1);
    assert(crate::text::trail_ws(s) == 2);
    assert(s.subrange(0, s.len() - 2) =~= body);
    assert(body.subrange(0, body.len() as int) =~= body);
}

/// What the header of a framed message says is read back: the
/// `Content-Length` line of `n` bytes gives `n`, and the blank line after it
/// ends the headers.
pub proof fn lemma_header_roundtrip(n: usize)
    ensures
        header_meaning("Content-Length: "@ + decimal(n as nat) + "\r\n"@) == HeaderLine::ContentLength(n),
        header_meaning("\r\n"@) == HeaderLine::End,
{
    reveal_strlit("Content-Length: ");
    reveal_strlit("\r\n");
    lemma_decimal_digits(n as nat);
    let digits = decimal(n as nat);
    let line = "Content-Length: "@ + digits;
    assert(line[0] == 'C');
    assert(line.last() == digits.last());
    assert(digits.last() == digits[digits.len() - 1]);
    assert('0' <= digits[digits.len() - 1] <= '9');
    lemma_trim_framed(line);
    assert(line.take(16) =~= "Content-Length: "@);
    assert(line.skip(16) =~= digits);
    assert(!crate::text::is_ws(digits[0])) by {
        assert('0' <= digits[0] <= '9');
    }
    lemma_trim_framed(digits);
    let blank = "\r\n"@;
    assert(blank.skip(1).skip(1).len() == 0);
    assert(crate::text::lead_ws(blank.skip(1).skip(1)) == 0);
    assert(crate::text::lead_ws(blank.skip(1)) == 1);
    assert(crate::text::lead_ws(blank) == 2);
}

// ------------------------------------------------------------ decoding

/// The message of the error `usize::from_str` gives for a numeral it
/// refuses (std `ParseIntError`'s text): an empty text, a sign alone, a
/// non-digit, or a value past `usize::MAX`, whichever comes first.
pub open spec fn int_error_text(s: Seq<char>) -> Seq<char> {
    if s.len() == 0 {
        "cannot parse integer from empty string"@
    } else if (s[0] == '+' || s[0] == '-') && s.len() == 1 {
        "invalid digit found in string"@
    } else {
        digit_scan_error(if s[0] == '+' { s.skip(1) } else { s }, 0, 0)
    }
}

/// The error met scanning digits from position `i`, with value `v` so far.
pub open spec fn digit_scan_error(d: Seq<char>, i: nat, v: nat) -> Seq<char>
    decreases d.len() - i,
{
    if i >= d.len() {
        "invalid digit found in string"@
    } else if !('0' <= d[i as int] && d[i as int] <= '9') {
        "invalid digit found in string"@
    } else {
        let nv = v * 10 + ((d[i as int] as u32) - ('0' as u32)) as nat;
        if nv > usize::MAX {
            "number too large to fit in target type"@
        } else {
            digit_scan_error(d, i + 1, nv)
        }
    }
}

/// The text of the error for a numeral (see `int_error_text`).
pub fn int_error_message(s: &[char]) -> (r: String)
    ensures
        r@ == int_error_text(s@),
{
    proof {
        reveal_strlit("cannot parse integer from empty string");
        reveal_strlit("invalid digit found in string");
        reveal_strlit("number too large to fit in target type");
    }
    if s.len() == 0 {
        return "cannot parse integer from empty string".to_owned();
    }
    if (s[0] == '+' || s[0] == '-') && s.len() == 1 {
        return "invalid digit found in string".to_owned();
    }
    let start: usize = if s[0] == '+' { 1 } else { 0 };
    let ghost d = if s@[0] == '+' { s@.skip(1) } else { s@ };
    let mut value: usize = 0;
    let mut i: usize = start;
    while i < s.len()
        invariant
            0 < s@.len(),
            start <= i <= s@.len(),
            start == (if s@[0] == '+' { 1usize } else { 0usize }),
            d == s@.skip(start as int),
            int_error_text(s@) == digit_scan_error(d, (i - start) as nat, value as nat),
        decreases s@.len() - i,
    {
        let c = s[i];
        assert(d[i - start] == c);
        if c < '0' || c > '9' {
            return "invalid digit found in string".to_owned();
        }
        let digit = (c as u32 - '0' as u32) as usize;
        if value > (usize::MAX - digit) / 10 {
            proof {
                assert(value * 10 + digit > usize::MAX) by (nonlinear_arith)
                    requires
                        value > (usize::MAX - digit) / 10,
                        digit <= 9;
            }
            return "number too large to fit in target type".to_owned();
        }
        proof {
            assert(value * 10 + digit <= usize::MAX) by (nonlinear_arith)
                requires
                    value <= (usize::MAX - digit) / 10,
                    digit <= 9;
        }
        value = value * 10 + digit;
        i += 1;
    }
    "invalid digit found in string".to_owned()
}

/// What reading one header line (or the end of the stream) does to the
/// decoding of a message, in specifications.
pub enum Decoded {
    /// Read on, with this length known so far.
    Continue(Option<usize>),
    /// The stream ended: no message.
    EndOfStream,
    /// The headers are done: read this many body bytes.
    Body(usize),
    /// Decoding fails with this message.
    Failed(Seq<char>),
}

/// What reading one header line does to the decoding of a message.
#[derive(Debug, Clone, PartialEq, Eq)]
pub enum HeaderStep {
    /// Read on, with this length known so far.
    Continue(Option<usize>),
    /// The stream ended: no message.
    EndOfStream,
    /// The headers are done: read this many body bytes.
    ReadBody(usize),
    /// Decoding fails with this message.
    Failed(String),
}

/// The specification view of a header step.
pub open spec fn step_view(s: HeaderStep) -> Decoded {
    match s {
        HeaderStep::Continue(l) => Decoded::Continue(l),
        HeaderStep::EndOfStream => Decoded::EndOfStream,
        HeaderStep::ReadBody(n) => Decoded::Body(n),
        HeaderStep::Failed(m) => Decoded::Failed(m@),
    }
}

/// The step for a header line, with the length known so far: the blank
/// line ends the headers (an error without a length); a length line
/// gives the length, the last one winning, or the numeral's error; any
/// other line is skipped.
pub open spec fn line_step(length: Option<usize>, line: Seq<char>) -> Decoded {
    match header_meaning(line) {
        HeaderLine::End => match length {
            Some(n) => Decoded::Body(n),
            None => Decoded::Failed("Missing Content-Length header"@),
        },
        HeaderLine::ContentLength(n) => Decoded::Continue(Some(n)),
        HeaderLine::BadLength => Decoded::Failed(int_error_text(trim(trim(line).skip(16)))),
        HeaderLine::Other => Decoded::Continue(length),
    }
}

/// The decoding of a message whose header lines are read in turn: the
/// outcome of the first line that does not continue, or the end of the
/// stream when the lines run out first.
pub open spec fn decode_lines(lines: Seq<Seq<char>>, length: Option<usize>) -> Decoded
    decreases lines.len(),
{
    if lines.len() == 0 {
        Decoded::EndOfStream
    } else {
        match line_step(length, lines[0]) {
            Decoded::Continue(l) => decode_lines(lines.drop_first(), l),
            other => other,
        }
    }
}

/// One step of decoding a message: the header line just read (`None` at
/// the end of the stream), with the length known so far (see `line_step`).
pub fn header_step(length: Option<usize>, line: Option<&str>) -> (r: HeaderStep)
    ensures
        step_view(r) == match line {
            None => Decoded::EndOfStream,
            Some(l) => line_step(length, l@),
        },
{
    match line {
        None => HeaderStep::EndOfStream,
        Some(l) => match read_header_line(l) {
            HeaderLine::End => match length {
                Some(n) => HeaderStep::ReadBody(n),
                None => HeaderStep::Failed("Missing Content-Length header".to_owned()),
            },
            HeaderLine::ContentLength(n) => HeaderStep::Continue(Some(n)),
            HeaderLine::BadLength => {
                let chars = chars_of(l);
                let t = trim_chars(chars.as_slice());
                proof {
                    reveal_strlit("Content-Length: ");
                    assert(t@ == trim(l@));
                }
                let rest = slice_chars(t.as_slice(), 16, t.len());
                let value = trim_chars(rest.as_slice());
                assert(rest@ == t@.skip(16));
                HeaderStep::Failed(int_error_message(value.as_slice()))
            },
            HeaderLine::Other => HeaderStep::Continue(length),
        },
    }
}

proof fn lemma_utf8_concat(a: Seq<char>, b: Seq<char>)
    ensures
        encode_utf8(a + b) == encode_utf8(a) + encode_utf8(b),
    decreases a.len(),
{
    if a.len() > 0 {
        assert((a + b).drop_first() =~= a.drop_first() + b);
        assert((a + b)[0] == a[0]);
        lemma_utf8_concat(a.drop_first(), b);
    }
}

/// Decoding reads back what encoding framed: the framed bytes are the
/// header lines' bytes followed by the body's, the header lines give that
/// many body bytes whatever follows, and those bytes decode to the body.
/// An exhausted stream gives no message, and headers ending without a
/// length give the missing-header error.
pub proof fn lemma_decode_roundtrip(body: Seq<char>, rest: Seq<Seq<char>>)
    requires
        encode_utf8(body).len() <= usize::MAX,
    ensures
        ({
            let n = encode_utf8(body).len();
            let h = "Content-Length: "@ + decimal(n) + "\r\n"@;
            &&& encode_utf8(frame_text(body)) == encode_utf8(h + "\r\n"@) + encode_utf8(body)
            &&& decode_lines(seq![h, "\r\n"@] + rest, None) == Decoded::Body(n as usize)
            &&& decode_utf8(encode_utf8(body)) == body
        }),
        decode_lines(Seq::empty(), None) == Decoded::EndOfStream,
        decode_lines(seq!["\r\n"@] + rest, None) == Decoded::Failed("Missing Content-Length header"@),
{
    let n = encode_utf8(body).len();
    let h = "Content-Length: "@ + decimal(n) + "\r\n"@;
    reveal_strlit("\r\n");
    reveal_strlit("\r\n\r\n");
    assert(frame_text(body) =~= (h + "\r\n"@) + body);
    lemma_utf8_concat(h + "\r\n"@, body);
    lemma_header_roundtrip(n as usize);
    let lines = seq![h, "\r\n"@] + rest;
    assert(lines[0] == h);
    assert(lines.drop_first()[0] == "\r\n"@);
    vstd::utf8::encode_utf8_valid_utf8(body);
    vstd::utf8::encode_utf8_decode_utf8(body);
    assert(line_step(None, h) == Decoded::Continue(Some(n as usize)));
    assert(lines.drop_first().drop_first() == rest);
    assert(line_step(Some(n as usize), "\r\n"@) == Decoded::Body(n as usize));
    assert(decode_lines(lines.drop_first(), Some(n as usize)) == Decoded::Body(n as usize));
    let blank = seq!["\r\n"@] + rest;
    assert(blank[0] == "\r\n"@);
}

} // verus!
