use vstd::prelude::*;

use crate::ascii::{ascii_to_string, chars_of, digits_value, is_digit, is_space_or_tab};
use vstd::string::StringSliceAdditionalSpecFns;

verus! {

/// Most headers a request head may carry before it is rejected.
pub const MAX_HEADERS: usize = 32;

/// Largest header section, in bytes, that is accepted (request line, headers
/// and the blank-line terminator together).
pub const MAX_HEAD_BYTES: usize = 8192;

pub const CR: u8 = 13;

pub const LF: u8 = 10;

/// A token byte: what may appear in a method or a header name.
pub open spec fn is_tchar(b: u8) -> bool {
    b == 33 || (35 <= b && b <= 39) || b == 42 || b == 43 || b == 45 || b == 46 || (48 <= b
        && b <= 57) || (65 <= b && b <= 90) || (94 <= b && b <= 122) || b == 124 || b == 126
}

/// A byte allowed in a request path: printable ASCII without the space.
pub open spec fn is_path_byte(b: u8) -> bool {
    33 <= b && b <= 126
}

/// A byte allowed in a header value: printable ASCII, space or horizontal tab.
pub open spec fn is_value_byte(b: u8) -> bool {
    b == 9 || (32 <= b && b <= 126)
}

pub open spec fn all_tchars(s: Seq<u8>) -> bool {
    forall|i: int| 0 <= i < s.len() ==> is_tchar(s[i])
}

pub open spec fn all_path_bytes(s: Seq<u8>) -> bool {
    forall|i: int| 0 <= i < s.len() ==> is_path_byte(s[i])
}

pub open spec fn all_value_bytes(s: Seq<u8>) -> bool {
    forall|i: int| 0 <= i < s.len() ==> is_value_byte(s[i])
}

/// Position of the first occurrence of byte `b` at or after `i`, if any.
pub open spec fn find_byte_from(s: Seq<u8>, b: u8, i: int) -> Option<int>
    decreases s.len() - i,
{
    if i < 0 || i >= s.len() {
        None
    } else if s[i] == b {
        Some(i)
    } else {
        find_byte_from(s, b, i + 1)
    }
}

/// Position of the first CR LF pair at or after `i`, if any.
pub open spec fn find_crlf_from(s: Seq<u8>, i: int) -> Option<int>
    decreases s.len() - i,
{
    if i < 0 || i + 2 > s.len() {
        None
    } else if s[i] == CR && s[i + 1] == LF {
        Some(i)
    } else {
        find_crlf_from(s, i + 1)
    }
}

/// Position of the first CR LF CR LF terminator at or after `i`, if any.
pub open spec fn find_term_from(s: Seq<u8>, i: int) -> Option<int>
    decreases s.len() - i,
{
    if i < 0 || i + 4 > s.len() {
        None
    } else if s[i] == CR && s[i + 1] == LF && s[i + 2] == CR && s[i + 3] == LF {
        Some(i)
    } else {
        find_term_from(s, i + 1)
    }
}

pub proof fn lemma_find_term_props(s: Seq<u8>, i: int)
    requires
        find_term_from(s, i) is Some,
    ensures
        ({
            let j = find_term_from(s, i)->Some_0;
            i <= j && j + 4 <= s.len()
        }),
    decreases s.len() - i,
{
    if !(i < 0 || i + 4 > s.len()) && !(s[i] == CR && s[i + 1] == LF && s[i + 2] == CR && s[i + 3]
        == LF) {
        lemma_find_term_props(s, i + 1);
    }
}

/// The HTTP version of a parsed request.
#[derive(Clone, Copy, Debug, PartialEq, Eq, Structural)]
pub enum Version {
    Http10,
    Http11,
}

impl Version {
    /// The minor version number under HTTP major version 1.
    pub open spec fn minor(self) -> int {
        match self {
            Version::Http10 => 0,
            Version::Http11 => 1,
        }
    }
}

/// `HTTP/1.0` or `HTTP/1.1`, as bytes.
pub open spec fn is_version_bytes(v: Seq<u8>) -> bool {
    v.len() == 8 && v[0] == 72 && v[1] == 84 && v[2] == 84 && v[3] == 80 && v[4] == 47 && v[5]
        == 49 && v[6] == 46 && (v[7] == 48 || v[7] == 49)
}

pub open spec fn minor_of(v: Seq<u8>) -> int {
    if v[7] == 48 {
        0
    } else {
        1
    }
}

/// The parse of a request line `METHOD SP PATH SP VERSION`:
/// method and path bytes with the minor version, or `None` if malformed.
pub open spec fn spec_request_line(line: Seq<u8>) -> Option<(Seq<u8>, Seq<u8>, int)> {
    match find_byte_from(line, 32, 0) {
        None => None,
        Some(sp1) => match find_byte_from(line, 32, sp1 + 1) {
            None => None,
            Some(sp2) => {
                let method = line.subrange(0, sp1);
                let path = line.subrange(sp1 + 1, sp2);
                let vers = line.subrange(sp2 + 1, line.len() as int);
                if method.len() > 0 && all_tchars(method) && path.len() > 0 && all_path_bytes(path)
                    && is_version_bytes(vers) {
                    Some((method, path, minor_of(vers)))
                } else {
                    None
                }
            },
        },
    }
}

/// First index at or after `i` that holds neither a space nor a tab.
pub open spec fn skip_ows_from(s: Seq<u8>, i: int) -> int
    decreases s.len() - i,
{
    if 0 <= i && i < s.len() && (s[i] == 32 || s[i] == 9) {
        skip_ows_from(s, i + 1)
    } else {
        i
    }
}

/// The parse of one header line `NAME ':' OWS VALUE` into name and value
/// bytes, or `None` if malformed.
pub open spec fn spec_header_line(line: Seq<u8>) -> Option<(Seq<u8>, Seq<u8>)> {
    match find_byte_from(line, 58, 0) {
        None => None,
        Some(c) => {
            let name = line.subrange(0, c);
            let v0 = skip_ows_from(line, c + 1);
            if v0 <= line.len() {
                let value = line.subrange(v0, line.len() as int);
                if name.len() > 0 && all_tchars(name) && all_value_bytes(value) {
                    Some((name, value))
                } else {
                    None
                }
            } else {
                None
            }
        },
    }
}

/// The parse of the header lines of a complete head section `h`, starting at
/// `i`, with at most `budget` lines left before the count bound is exceeded.
pub open spec fn spec_headers_from(h: Seq<u8>, i: int, budget: int) -> Option<
    Seq<(Seq<u8>, Seq<u8>)>,
>
    decreases h.len() - i,
{
    if 0 <= i && i + 2 <= h.len() && h[i] == CR && h[i + 1] == LF {
        if i + 2 == h.len() {
            Some(seq![])
        } else {
            None
        }
    } else {
        match find_crlf_from(h, i) {
            None => None,
            Some(j) => if budget <= 0 {
                None
            } else if i <= j && j + 2 <= h.len() {
                match spec_header_line(h.subrange(i, j)) {
                    None => None,
                    Some(hdr) => match spec_headers_from(h, j + 2, budget - 1) {
                        None => None,
                        Some(rest) => Some(seq![hdr] + rest),
                    },
                }
            } else {
                None
            },
        }
    }
}

/// A parsed head section: the request line's parts and the header list, as
/// byte sequences.
pub struct SpecHead {
    pub method: Seq<u8>,
    pub path: Seq<u8>,
    pub minor: int,
    pub headers: Seq<(Seq<u8>, Seq<u8>)>,
}

/// The parse of a complete head section `h` (ending in the blank-line
/// terminator), or `None` if it is malformed or has too many headers.
pub open spec fn spec_head_section(h: Seq<u8>) -> Option<SpecHead> {
    match find_crlf_from(h, 0) {
        None => None,
        Some(j0) => match spec_request_line(h.subrange(0, j0)) {
            None => None,
            Some(rl) => match spec_headers_from(h, j0 + 2, MAX_HEADERS as int) {
                None => None,
                Some(hs) => Some(
                    SpecHead { method: rl.0, path: rl.1, minor: rl.2, headers: hs },
                ),
            },
        },
    }
}

/// What parsing a (possibly still growing) byte stream prefix yields:
/// a complete head and its length, the need for more bytes, or failure.
pub enum SpecHeadResult {
    Complete(SpecHead, int),
    Partial,
    Failure,
}

/// The parse of a byte stream prefix: the head is complete once the blank-line
/// terminator has arrived within the size bound; absent that, the request is
/// partial until the bound is exceeded.
pub open spec fn spec_parse_head(s: Seq<u8>) -> SpecHeadResult {
    match find_term_from(s, 0) {
        None => if s.len() >= MAX_HEAD_BYTES as int {
            SpecHeadResult::Failure
        } else {
            SpecHeadResult::Partial
        },
        Some(j) => if j + 4 > MAX_HEAD_BYTES as int {
            SpecHeadResult::Failure
        } else {
            match spec_head_section(s.subrange(0, j + 4)) {
                None => SpecHeadResult::Failure,
                Some(head) => SpecHeadResult::Complete(head, j + 4),
            }
        },
    }
}

/// Scans for byte `b` from `start`, matching `find_byte_from`.
fn find_byte(s: &[u8], b: u8, start: usize) -> (r: Option<usize>)
    requires
        start <= s@.len(),
    ensures
        match r {
            Some(j) => find_byte_from(s@, b, start as int) == Some(j as int) && start <= j < s@.len(),
            None => find_byte_from(s@, b, start as int) is None,
        },
{
    let mut i: usize = start;
    while i < s.len()
        invariant
            start <= i <= s@.len(),
            find_byte_from(s@, b, start as int) == find_byte_from(s@, b, i as int),
        decreases s@.len() - i,
    {
        if s[i] == b {
            return Some(i);
        }
        assert(find_byte_from(s@, b, i as int) == find_byte_from(s@, b, i + 1 as int));
        i += 1;
    }
    assert(find_byte_from(s@, b, i as int) is None);
    None
}

/// Scans for the first CR LF pair from `start`, matching `find_crlf_from`.
fn find_crlf(s: &[u8], start: usize) -> (r: Option<usize>)
    requires
        start <= s@.len(),
    ensures
        match r {
            Some(j) => find_crlf_from(s@, start as int) == Some(j as int) && start <= j && j + 2
                <= s@.len(),
            None => find_crlf_from(s@, start as int) is None,
        },
{
    let mut i: usize = start;
    while s.len() - i >= 2
        invariant
            start <= i <= s@.len(),
            find_crlf_from(s@, start as int) == find_crlf_from(s@, i as int),
        decreases s@.len() - i,
    {
        if s[i] == CR && s[i + 1] == LF {
            return Some(i);
        }
        assert(find_crlf_from(s@, i as int) == find_crlf_from(s@, i + 1 as int));
        i += 1;
    }
    assert(find_crlf_from(s@, i as int) is None);
    None
}

/// Scans for the blank-line terminator from `start`, matching `find_term_from`.
fn find_term(s: &[u8], start: usize) -> (r: Option<usize>)
    requires
        start <= s@.len(),
    ensures
        match r {
            Some(j) => find_term_from(s@, start as int) == Some(j as int) && start <= j && j + 4
                <= s@.len(),
            None => find_term_from(s@, start as int) is None,
        },
{
    let mut i: usize = start;
    while s.len() - i >= 4
        invariant
            start <= i <= s@.len(),
            find_term_from(s@, start as int) == find_term_from(s@, i as int),
        decreases s@.len() - i,
    {
        if s[i] == CR && s[i + 1] == LF && s[i + 2] == CR && s[i + 3] == LF {
            return Some(i);
        }
        assert(find_term_from(s@, i as int) == find_term_from(s@, i + 1 as int));
        i += 1;
    }
    assert(find_term_from(s@, i as int) is None);
    None
}

/// True iff every byte of `s[from..to]` is a token byte.
fn check_tchars(s: &[u8], from: usize, to: usize) -> (r: bool)
    requires
        from <= to <= s@.len(),
    ensures
        r == all_tchars(s@.subrange(from as int, to as int)),
{
    let ghost sub = s@.subrange(from as int, to as int);
    let mut i: usize = from;
    while i < to
        invariant
            from <= i <= to <= s@.len(),
            sub == s@.subrange(from as int, to as int),
            forall|j: int| 0 <= j < i - from ==> is_tchar(sub[j]),
        decreases to - i,
    {
        let b = s[i];
        let ok = b == 33 || (35 <= b && b <= 39) || b == 42 || b == 43 || b == 45 || b == 46 || (48
            <= b && b <= 57) || (65 <= b && b <= 90) || (94 <= b && b <= 122) || b == 124 || b
            == 126;
        if !ok {
            assert(sub[i - from] == s@[i as int]);
            return false;
        }
        assert(sub[i - from] == s@[i as int]);
        i += 1;
    }
    true
}

/// True iff every byte of `s[from..to]` is allowed in a request path.
fn check_path_bytes(s: &[u8], from: usize, to: usize) -> (r: bool)
    requires
        from <= to <= s@.len(),
    ensures
        r == all_path_bytes(s@.subrange(from as int, to as int)),
{
    let ghost sub = s@.subrange(from as int, to as int);
    let mut i: usize = from;
    while i < to
        invariant
            from <= i <= to <= s@.len(),
            sub == s@.subrange(from as int, to as int),
            forall|j: int| 0 <= j < i - from ==> is_path_byte(sub[j]),
        decreases to - i,
    {
        let b = s[i];
        if !(33 <= b && b <= 126) {
            assert(sub[i - from] == s@[i as int]);
            return false;
        }
        assert(sub[i - from] == s@[i as int]);
        i += 1;
    }
    true
}

/// True iff every byte of `s[from..to]` is allowed in a header value.
fn check_value_bytes(s: &[u8], from: usize, to: usize) -> (r: bool)
    requires
        from <= to <= s@.len(),
    ensures
        r == all_value_bytes(s@.subrange(from as int, to as int)),
{
    let ghost sub = s@.subrange(from as int, to as int);
    let mut i: usize = from;
    while i < to
        invariant
            from <= i <= to <= s@.len(),
            sub == s@.subrange(from as int, to as int),
            forall|j: int| 0 <= j < i - from ==> is_value_byte(sub[j]),
        decreases to - i,
    {
        let b = s[i];
        if !(b == 9 || (32 <= b && b <= 126)) {
            assert(sub[i - from] == s@[i as int]);
            return false;
        }
        assert(sub[i - from] == s@[i as int]);
        i += 1;
    }
    true
}

/// Copies `s[from..to]` into an owned `String`; the bytes must be ASCII.
fn bytes_to_string(s: &[u8], from: usize, to: usize) -> (r: String)
    requires
        from <= to <= s@.len(),
        forall|i: int| from <= i < to ==> s@[i] < 128,
    ensures
        r@ == chars_of(s@.subrange(from as int, to as int)),
{
    let part: &[u8] = &s[from..to];
    let v = vstd::slice::slice_to_vec(part);
    assert(forall|i: int| 0 <= i < v@.len() ==> v@[i] == s@.subrange(from as int, to as int)[i]);
    ascii_to_string(v)
}

/// Parses one request line, matching `spec_request_line`.
fn parse_request_line(line: &[u8]) -> (r: Option<(String, String, Version)>)
    ensures
        match r {
            None => spec_request_line(line@) is None,
            Some(p) => {
                &&& spec_request_line(line@) is Some
                &&& p.0@ == chars_of(spec_request_line(line@)->Some_0.0)
                &&& p.1@ == chars_of(spec_request_line(line@)->Some_0.1)
                &&& p.2.minor() == spec_request_line(line@)->Some_0.2
            },
        },
{
    let n = line.len();
    let sp1 = match find_byte(line, 32, 0) {
        None => {
            return None;
        },
        Some(j) => j,
    };
    assert(sp1 < n);
    let sp2 = match find_byte(line, 32, sp1 + 1) {
        None => {
            return None;
        },
        Some(j) => j,
    };
    let ghost method = line@.subrange(0, sp1 as int);
    let ghost path = line@.subrange(sp1 + 1 as int, sp2 as int);
    let ghost vers = line@.subrange(sp2 + 1 as int, line@.len() as int);
    if sp1 == 0 || !check_tchars(line, 0, sp1) {
        return None;
    }
    if sp2 - (sp1 + 1) == 0 || !check_path_bytes(line, sp1 + 1, sp2) {
        return None;
    }
    if line.len() - (sp2 + 1) != 8 {
        assert(!is_version_bytes(vers));
        return None;
    }
    let v = sp2 + 1;
    let minor_ok = line[v] == 72 && line[v + 1] == 84 && line[v + 2] == 84 && line[v + 3] == 80
        && line[v + 4] == 47 && line[v + 5] == 49 && line[v + 6] == 46;
    let last = line[v + 7];
    if !(minor_ok && (last == 48 || last == 49)) {
        assert(!is_version_bytes(vers));
        return None;
    }
    assert(is_version_bytes(vers));
    assert forall|i: int| 0 <= i < sp1 implies line@[i] < 128 by {
        assert(method[i] == line@[i]);
        assert(is_tchar(method[i]));
    }
    assert forall|i: int| sp1 + 1 <= i < sp2 implies line@[i] < 128 by {
        assert(path[i - (sp1 + 1)] == line@[i]);
        assert(is_path_byte(path[i - (sp1 + 1)]));
    }
    let method_s = bytes_to_string(line, 0, sp1);
    let path_s = bytes_to_string(line, sp1 + 1, sp2);
    let version = if last == 48 {
        Version::Http10
    } else {
        Version::Http11
    };
    Some((method_s, path_s, version))
}

/// The header list as character sequences, each byte read as its character.
pub open spec fn headers_chars(hs: Seq<(Seq<u8>, Seq<u8>)>) -> Seq<(Seq<char>, Seq<char>)> {
    hs.map_values(|p: (Seq<u8>, Seq<u8>)| (chars_of(p.0), chars_of(p.1)))
}

/// Parses one header line, matching `spec_header_line`.
fn parse_header_line(line: &[u8]) -> (r: Option<(String, String)>)
    ensures
        match r {
            None => spec_header_line(line@) is None,
            Some(p) => {
                &&& spec_header_line(line@) is Some
                &&& p.0@ == chars_of(spec_header_line(line@)->Some_0.0)
                &&& p.1@ == chars_of(spec_header_line(line@)->Some_0.1)
            },
        },
{
    let n = line.len();
    let c = match find_byte(line, 58, 0) {
        None => {
            return None;
        },
        Some(j) => j,
    };
    let mut v0: usize = c + 1;
    while v0 < n && (line[v0] == 32 || line[v0] == 9)
        invariant
            c + 1 <= v0 <= n,
            n == line@.len(),
            skip_ows_from(line@, c + 1 as int) == skip_ows_from(line@, v0 as int),
        decreases n - v0,
    {
        assert(skip_ows_from(line@, v0 as int) == skip_ows_from(line@, v0 + 1 as int));
        v0 += 1;
    }
    assert(skip_ows_from(line@, v0 as int) == v0 as int);
    let ghost name = line@.subrange(0, c as int);
    let ghost value = line@.subrange(v0 as int, n as int);
    if c == 0 || !check_tchars(line, 0, c) {
        return None;
    }
    if !check_value_bytes(line, v0, n) {
        return None;
    }
    assert forall|i: int| 0 <= i < c implies line@[i] < 128 by {
        assert(name[i] == line@[i]);
        assert(is_tchar(name[i]));
    }
    assert forall|i: int| v0 <= i < n implies line@[i] < 128 by {
        assert(value[i - v0] == line@[i]);
        assert(is_value_byte(value[i - v0]));
    }
    let name_s = bytes_to_string(line, 0, c);
    let value_s = bytes_to_string(line, v0, n);
    Some((name_s, value_s))
}

/// Parses the header lines of a complete head section from `i` on, matching
/// `spec_headers_from`.
fn parse_headers(h: &[u8], i: usize, budget: usize) -> (r: Option<Vec<(String, String)>>)
    requires
        i <= h@.len(),
    ensures
        match spec_headers_from(h@, i as int, budget as int) {
            None => r is None,
            Some(hs) => r is Some && r->Some_0.deep_view() == headers_chars(hs),
        },
    decreases h@.len() - i,
{
    let n = h.len();
    if n - i >= 2 && h[i] == CR && h[i + 1] == LF {
        if i + 2 == n {
            let empty: Vec<(String, String)> = Vec::new();
            assert(empty.deep_view() =~= headers_chars(seq![]));
            return Some(empty);
        } else {
            return None;
        }
    }
    let j = match find_crlf(h, i) {
        None => {
            return None;
        },
        Some(j) => j,
    };
    if budget == 0 {
        return None;
    }
    let line: &[u8] = &h[i..j];
    let hdr = match parse_header_line(line) {
        None => {
            return None;
        },
        Some(p) => p,
    };
    let ghost spec_hdr = spec_header_line(h@.subrange(i as int, j as int))->Some_0;
    let rest = match parse_headers(h, j + 2, budget - 1) {
        None => {
            return None;
        },
        Some(v) => v,
    };
    let ghost spec_rest = spec_headers_from(h@, j + 2 as int, budget - 1 as int)->Some_0;
    let ghost rest_v = rest@;
    let ghost rest_dv = rest.deep_view();
    let ghost hdr_g = hdr;
    let mut out = rest;
    out.insert(0, hdr);
    proof {
        assert(out@ == rest_v.insert(0, hdr_g));
        assert(rest_dv == headers_chars(spec_rest));
        assert(rest_dv.len() == spec_rest.len());
        assert(rest_v.len() == rest_dv.len());
        assert(out.deep_view().len() == out@.len() == rest_v.len() + 1);
        assert((seq![spec_hdr] + spec_rest).len() == 1 + spec_rest.len());
        assert forall|k: int|
            0 <= k < out.deep_view().len() implies out.deep_view()[k] == headers_chars(
            seq![spec_hdr] + spec_rest,
        )[k] by {
            if k == 0 {
                assert(out@[0] == hdr_g);
                assert((seq![spec_hdr] + spec_rest)[0] == spec_hdr);
            } else {
                assert(out@[k] == rest_v[k - 1]);
                assert(out.deep_view()[k] == rest_dv[k - 1]);
                assert((seq![spec_hdr] + spec_rest)[k] == spec_rest[k - 1]);
                assert(rest_dv[k - 1] == headers_chars(spec_rest)[k - 1]);
            }
        }
        assert(out.deep_view() =~= headers_chars(seq![spec_hdr] + spec_rest));
    }
    Some(out)
}

/// First index at or after `i` whose character is neither space nor tab.
pub open spec fn skip_ws(s: Seq<char>, i: int) -> int
    decreases s.len() - i,
{
    if 0 <= i && i < s.len() && is_space_or_tab(s[i]) {
        skip_ws(s, i + 1)
    } else {
        i
    }
}

/// Last index at or before `i` such that no space or tab lies right before it.
pub open spec fn rskip_ws(s: Seq<char>, i: int) -> int
    decreases i,
{
    if 0 < i && i <= s.len() && is_space_or_tab(s[i - 1]) {
        rskip_ws(s, i - 1)
    } else {
        i
    }
}

/// `s` with leading and trailing spaces and tabs removed.
pub open spec fn spec_trim(s: Seq<char>) -> Seq<char> {
    let a = skip_ws(s, 0);
    let b = rskip_ws(s, s.len() as int);
    if 0 <= a <= b <= s.len() {
        s.subrange(a, b)
    } else {
        Seq::empty()
    }
}

/// Every character of `s` is a decimal digit.
pub open spec fn all_digits(s: Seq<char>) -> bool {
    forall|i: int| 0 <= i < s.len() ==> is_digit(s[i])
}

/// The value of a header as a non-negative size: trimmed, an optional leading
/// `+`, then decimal digits whose value fits a `usize`.
pub open spec fn spec_parse_usize(v: Seq<char>) -> Option<int> {
    let t = spec_trim(v);
    let d = if t.len() > 0 && t[0] == '+' {
        t.subrange(1, t.len() as int)
    } else {
        t
    };
    if d.len() > 0 && all_digits(d) && digits_value(d) <= usize::MAX {
        Some(digits_value(d) as int)
    } else {
        None
    }
}

proof fn lemma_digits_monotone(s: Seq<char>, k: int)
    requires
        0 <= k <= s.len(),
        all_digits(s),
    ensures
        digits_value(s.subrange(0, k)) <= digits_value(s),
    decreases s.len() - k,
{
    if k == s.len() {
        assert(s.subrange(0, k) =~= s);
    } else {
        assert(s.subrange(0, k + 1).drop_last() =~= s.subrange(0, k));
        assert(digits_value(s.subrange(0, k + 1)) == digits_value(s.subrange(0, k)) * 10 + (
        s.subrange(0, k + 1).last() as u32 - 48));
        assert(is_digit(s[k]));
        lemma_digits_monotone(s, k + 1);
    }
}



/// Parses a size out of a header value, matching `spec_parse_usize`.
#[verifier::rlimit(60)]
pub fn parse_usize(v: &str) -> (r: Option<usize>)
    ensures
        match r {
            Some(x) => spec_parse_usize(v@) == Some(x as int),
            None => spec_parse_usize(v@) is None,
        },
{
    let n = v.unicode_len();
    let mut a: usize = 0;
    while a < n && (v.get_char(a) == ' ' || v.get_char(a) == '\t')
        invariant
            0 <= a <= n,
            n == v@.len(),
            skip_ws(v@, 0) == skip_ws(v@, a as int),
        decreases n - a,
    {
        assert(skip_ws(v@, a as int) == skip_ws(v@, a + 1 as int));
        a += 1;
    }
    assert(skip_ws(v@, a as int) == a as int);
    if a == n {
        // only whitespace before the end: the trimmed value is empty
        proof {
            lemma_rskip_ws_bounds(v@, n as int);
            assert(spec_trim(v@).len() == 0);
            assert(spec_parse_usize(v@) is None);
        }
        return None;
    }
    let mut b: usize = n;
    while b > a && (v.get_char(b - 1) == ' ' || v.get_char(b - 1) == '\t')
        invariant
            a < b <= n,
            n == v@.len(),
            a < n,
            !is_space_or_tab(v@[a as int]),
            rskip_ws(v@, n as int) == rskip_ws(v@, b as int),
        decreases b,
    {
        assert(rskip_ws(v@, b as int) == rskip_ws(v@, b - 1 as int));
        b -= 1;
    }
    assert(rskip_ws(v@, b as int) == b as int);
    let ghost t = spec_trim(v@);
    assert(t == v@.subrange(a as int, b as int));
    let a2: usize = if b > a && v.get_char(a) == '+' {
        a + 1
    } else {
        a
    };
    let ghost d = if t.len() > 0 && t[0] == '+' {
        t.subrange(1, t.len() as int)
    } else {
        t
    };
    assert(d =~= v@.subrange(a2 as int, b as int));
    if a2 == b {
        assert(spec_parse_usize(v@) is None);
        return None;
    }
    let mut acc: usize = 0;
    let mut i: usize = a2;
    while i < b
        invariant
            a2 <= i <= b <= n,
            a2 < b,
            n == v@.len(),
            t == spec_trim(v@),
            d == (if t.len() > 0 && t[0] == '+' {
                t.subrange(1, t.len() as int)
            } else {
                t
            }),
            d == v@.subrange(a2 as int, b as int),
            forall|j: int| 0 <= j < i - a2 ==> is_digit(d[j]),
            acc == digits_value(v@.subrange(a2 as int, i as int)),
            acc <= usize::MAX,
        decreases b - i,
    {
        let c = v.get_char(i) as u32;
        if !(48 <= c && c <= 57) {
            assert(d[i - a2] == v@[i as int]);
            assert(!is_digit(d[i - a2]));
            assert(!all_digits(d));
            return None;
        }
        let dig = (c - 48) as usize;
        assert(v@.subrange(a2 as int, i + 1 as int).drop_last() =~= v@.subrange(
            a2 as int,
            i as int,
        ));
        assert(digits_value(v@.subrange(a2 as int, i + 1 as int)) == acc * 10 + dig);
        if acc > (usize::MAX - dig) / 10 {
            proof {
                assert(acc * 10 + dig > usize::MAX) by (nonlinear_arith)
                    requires
                        acc > (usize::MAX - dig) / 10,
                        dig <= 9,
                ;
                if all_digits(d) {
                    lemma_digits_monotone(d, i + 1 - a2);
                    assert(d.subrange(0, i + 1 - a2) =~= v@.subrange(a2 as int, i + 1 as int));
                    assert(digits_value(d) >= digits_value(d.subrange(0, i + 1 - a2)));
                    assert(digits_value(d) > usize::MAX);
                }
                assert(spec_parse_usize(v@) is None);
            }
            return None;
        }
        acc = acc * 10 + dig;
        assert(d[i - a2] == v@[i as int]);
        i += 1;
    }
    assert(v@.subrange(a2 as int, b as int) =~= d);
    assert(all_digits(d));
    Some(acc)
}

proof fn lemma_rskip_ws_bounds(s: Seq<char>, i: int)
    requires
        0 <= i <= s.len(),
    ensures
        0 <= rskip_ws(s, i) <= i,
    decreases i,
{
    if 0 < i && is_space_or_tab(s[i - 1]) {
        lemma_rskip_ws_bounds(s, i - 1);
    }
}

/// The declared content length: the value of the last `Content-Length` header
/// (compared case-insensitively) that parses as a size, if any.
pub open spec fn spec_content_length(headers: Seq<(Seq<char>, Seq<char>)>) -> Option<int>
    decreases headers.len(),
{
    if headers.len() == 0 {
        None
    } else {
        let prev = spec_content_length(headers.drop_last());
        let last = headers.last();
        if crate::ascii::eq_ignore_case(last.0, "content-length"@) {
            match spec_parse_usize(last.1) {
                Some(x) => Some(x),
                None => prev,
            }
        } else {
            prev
        }
    }
}

/// Extracts the declared content length, matching `spec_content_length`.
pub fn content_length_of(headers: &Vec<(String, String)>) -> (r: Option<usize>)
    ensures
        match r {
            Some(x) => spec_content_length(headers.deep_view()) == Some(x as int),
            None => spec_content_length(headers.deep_view()) is None,
        },
{
    let ghost dv = headers.deep_view();
    let mut cl: Option<usize> = None;
    let mut i: usize = 0;
    while i < headers.len()
        invariant
            0 <= i <= headers@.len(),
            dv == headers.deep_view(),
            dv.len() == headers@.len(),
            match cl {
                Some(x) => spec_content_length(dv.subrange(0, i as int)) == Some(x as int),
                None => spec_content_length(dv.subrange(0, i as int)) is None,
            },
        decreases headers@.len() - i,
    {
        let name: &String = &headers[i].0;
        let value: &String = &headers[i].1;
        assert(dv[i as int] == (name@, value@));
        assert(dv.subrange(0, i + 1 as int).drop_last() =~= dv.subrange(0, i as int));
        assert(dv.subrange(0, i + 1 as int).last() == dv[i as int]);
        if crate::ascii::eq_ignore_ascii_case(name.as_str(), "content-length") {
            match parse_usize(value.as_str()) {
                Some(x) => {
                    cl = Some(x);
                },
                None => {},
            }
        }
        i += 1;
    }
    assert(dv.subrange(0, dv.len() as int) =~= dv);
    cl
}

/// The value of the first `Host` header (compared case-insensitively), or the
/// empty string if there is none.
pub open spec fn spec_host_value(headers: Seq<(Seq<char>, Seq<char>)>) -> Seq<char>
    decreases headers.len(),
{
    if headers.len() == 0 {
        Seq::empty()
    } else if crate::ascii::eq_ignore_case(headers[0].0, "host"@) {
        headers[0].1
    } else {
        spec_host_value(headers.drop_first())
    }
}

/// Extracts the request's host, matching `spec_host_value`.
pub fn host_value(headers: &Vec<(String, String)>) -> (r: String)
    ensures
        r@ == spec_host_value(headers.deep_view()),
{
    let ghost dv = headers.deep_view();
    let mut i: usize = 0;
    assert(dv.skip(0) =~= dv);
    while i < headers.len()
        invariant
            0 <= i <= headers@.len(),
            dv == headers.deep_view(),
            dv.len() == headers@.len(),
            spec_host_value(dv) == spec_host_value(dv.skip(i as int)),
        decreases headers@.len() - i,
    {
        let name: &String = &headers[i].0;
        assert(dv[i as int] == (name@, headers@[i as int].1@));
        assert(dv.skip(i as int)[0] == dv[i as int]);
        if crate::ascii::eq_ignore_ascii_case(name.as_str(), "host") {
            return headers[i].1.clone();
        }
        assert(dv.skip(i as int).drop_first() =~= dv.skip(i + 1 as int));
        i += 1;
    }
    assert(dv.skip(i as int) =~= Seq::<(Seq<char>, Seq<char>)>::empty());
    String::new()
}

/// A fully parsed request head together with whatever body bytes have been
/// assembled for it.
#[derive(Debug, Clone)]
pub struct ParsedRequest {
    pub method: String,
    pub path: String,
    pub version: Version,
    pub headers: Vec<(String, String)>,
    pub body: Vec<u8>,
}

/// The mathematical content of a `ParsedRequest`.
pub struct ReqView {
    pub method: Seq<char>,
    pub path: Seq<char>,
    pub minor: int,
    pub headers: Seq<(Seq<char>, Seq<char>)>,
    pub body: Seq<u8>,
}

impl View for ParsedRequest {
    type V = ReqView;

    open spec fn view(&self) -> ReqView {
        ReqView {
            method: self.method@,
            path: self.path@,
            minor: self.version.minor(),
            headers: self.headers.deep_view(),
            body: self.body@,
        }
    }
}

/// The request `rv` carries exactly the parsed head `head` and the body `body`.
pub open spec fn req_matches_head(rv: ReqView, head: SpecHead, body: Seq<u8>) -> bool {
    &&& rv.method == chars_of(head.method)
    &&& rv.path == chars_of(head.path)
    &&& rv.minor == head.minor
    &&& rv.headers == headers_chars(head.headers)
    &&& rv.body == body
}

/// The outcome of trying to parse a head off the bytes received so far.
pub enum HeadStatus {
    /// The head is complete: the parsed request (with an empty body) and the
    /// number of bytes the head section occupies.
    Complete(ParsedRequest, usize),
    /// More bytes are needed.
    Partial,
    /// The bytes cannot be a request head this server accepts.
    Failure,
}

/// Parses a request head off the byte stream prefix received so far.
pub fn parse_head(buf: &[u8]) -> (r: HeadStatus)
    ensures
        match spec_parse_head(buf@) {
            SpecHeadResult::Partial => r is Partial,
            SpecHeadResult::Failure => r is Failure,
            SpecHeadResult::Complete(head, hl) => {
                &&& r is Complete
                &&& r->Complete_1 == hl
                &&& req_matches_head(r->Complete_0@, head, seq![])
            },
        },
{
    let n = buf.len();
    let j = match find_term(buf, 0) {
        None => {
            if n >= MAX_HEAD_BYTES {
                return HeadStatus::Failure;
            } else {
                return HeadStatus::Partial;
            }
        },
        Some(j) => j,
    };
    if j + 4 > MAX_HEAD_BYTES {
        return HeadStatus::Failure;
    }
    let hl = j + 4;
    let h: &[u8] = &buf[0..hl];
    let j0 = match find_crlf(h, 0) {
        None => {
            return HeadStatus::Failure;
        },
        Some(j0) => j0,
    };
    let line: &[u8] = &h[0..j0];
    let rl = match parse_request_line(line) {
        None => {
            return HeadStatus::Failure;
        },
        Some(rl) => rl,
    };
    let hs = match parse_headers(h, j0 + 2, MAX_HEADERS) {
        None => {
            return HeadStatus::Failure;
        },
        Some(hs) => hs,
    };
    let req = ParsedRequest {
        method: rl.0,
        path: rl.1,
        version: rl.2,
        headers: hs,
        body: Vec::new(),
    };
    HeadStatus::Complete(req, hl)
}



/// A tighter header budget can only turn a parse into a rejection: a section
/// that parses to more lines than a budget allows is rejected under it.
pub proof fn lemma_header_budget(h: Seq<u8>, i: int, b1: int, b2: int)
    requires
        0 <= b1 <= b2,
        spec_headers_from(h, i, b2) is Some,
        (spec_headers_from(h, i, b2)->Some_0).len() > b1,
    ensures
        spec_headers_from(h, i, b1) is None,
    decreases h.len() - i,
{
    if 0 <= i && i + 2 <= h.len() && h[i] == CR && h[i + 1] == LF {
        // the blank line parses to no headers at all, under any budget
    } else {
        let j = find_crlf_from(h, i)->Some_0;
        if b1 > 0 {
            let rest2 = spec_headers_from(h, j + 2, b2 - 1)->Some_0;
            lemma_header_budget(h, j + 2, b1 - 1, b2 - 1);
        }
    }
}

/// Parses a complete request head out of a string, as the original header
/// parser did: `None` when the head is still partial or malformed, otherwise
/// the request (with an empty body) and the declared content length.
pub fn parse_request_headers(req_str: &str) -> (r: Option<(ParsedRequest, Option<usize>)>)
    ensures
        match spec_parse_head(req_str.spec_bytes()) {
            SpecHeadResult::Complete(head, hl) => {
                &&& r is Some
                &&& req_matches_head(r->Some_0.0@, head, seq![])
                &&& (match spec_content_length(headers_chars(head.headers)) {
                    Some(n) => r->Some_0.1 == Some(n as usize),
                    None => r->Some_0.1 is None,
                })
            },
            SpecHeadResult::Partial => r is None,
            SpecHeadResult::Failure => r is None,
        },
{
    let bytes: &[u8] = req_str.as_bytes();
    match parse_head(bytes) {
        HeadStatus::Complete(req, _hl) => {
            let cl = content_length_of(&req.headers);
            Some((req, cl))
        },
        HeadStatus::Partial => None,
        HeadStatus::Failure => None,
    }
}

} // verus!
