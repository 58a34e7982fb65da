use vstd::prelude::*;

use crate::config::{Directive, DirectiveView, DirectiveTable, HostEntryView, spec_lookup};
use crate::head::{ParsedRequest, ReqView, spec_host_value, host_value};
use crate::pattern::{matches_pattern, spec_matches};

verus! {

pub const STATUS_FORBIDDEN: u16 = 403;

pub const STATUS_NOT_FOUND: u16 = 404;

pub const STATUS_INTERNAL_SERVER_ERROR: u16 = 500;

/// The single action decided for one request.
#[derive(Debug, Clone)]
pub enum RoutingOutcome {
    /// Serve the file at this filesystem path (directory probing is the
    /// response sender's part: see `apply_directory_index`).
    ServeFile { path: String },
    /// Forward the request, verbatim, to this absolute upstream uri.
    Proxy { method: String, uri: String, headers: Vec<(String, String)>, body: Vec<u8> },
    /// Answer with a redirect to this location.
    Redirect { location: String },
    /// Answer with this status code and close.
    Error { status: u16 },
}

/// The mathematical content of a `RoutingOutcome`.
pub enum OutcomeView {
    ServeFile { path: Seq<char> },
    Proxy {
        method: Seq<char>,
        uri: Seq<char>,
        headers: Seq<(Seq<char>, Seq<char>)>,
        body: Seq<u8>,
    },
    Redirect { location: Seq<char> },
    Error { status: int },
}

impl DeepView for RoutingOutcome {
    type V = OutcomeView;

    open spec fn deep_view(&self) -> OutcomeView {
        match self {
            RoutingOutcome::ServeFile { path } => OutcomeView::ServeFile { path: path@ },
            RoutingOutcome::Proxy { method, uri, headers, body } => OutcomeView::Proxy {
                method: method@,
                uri: uri@,
                headers: headers.deep_view(),
                body: body@,
            },
            RoutingOutcome::Redirect { location } => OutcomeView::Redirect { location: location@ },
            RoutingOutcome::Error { status } => OutcomeView::Error { status: *status as int },
        }
    }
}

/// The request path with every leading `/` removed.
pub open spec fn first_non_slash(s: Seq<char>, i: int) -> int
    decreases s.len() - i,
{
    if 0 <= i && i < s.len() && s[i] == '/' {
        first_non_slash(s, i + 1)
    } else {
        i
    }
}

pub open spec fn spec_strip_slashes(s: Seq<char>) -> Seq<char> {
    if 0 <= first_non_slash(s, 0) <= s.len() {
        s.subrange(first_non_slash(s, 0), s.len() as int)
    } else {
        s
    }
}

/// The filesystem path for `rel` under `root`: the two joined with a single
/// separator, as pushing a relative path onto a directory path does.
pub open spec fn spec_join(root: Seq<char>, rel: Seq<char>) -> Seq<char> {
    if root.len() == 0 {
        rel
    } else if root.last() == '/' {
        root + rel
    } else {
        root + seq!['/'] + rel
    }
}

/// The file that a `file_server` directive serves for `path` under `root`.
pub open spec fn spec_resolve_file(root: Seq<char>, path: Seq<char>) -> Seq<char> {
    spec_join(root, spec_strip_slashes(path))
}

/// Resolves the served file's path, matching `spec_resolve_file`: the request
/// path is stripped of its leading separators and joined under the root.
pub fn resolve_file_path(root: &str, request_path: &str) -> (r: String)
    ensures
        r@ == spec_resolve_file(root@, request_path@),
{
    let n = request_path.unicode_len();
    let mut a: usize = 0;
    while a < n && request_path.get_char(a) == '/'
        invariant
            0 <= a <= n,
            n == request_path@.len(),
            first_non_slash(request_path@, 0) == first_non_slash(request_path@, a as int),
        decreases n - a,
    {
        assert(first_non_slash(request_path@, a as int) == first_non_slash(
            request_path@,
            a + 1 as int,
        ));
        a += 1;
    }
    assert(first_non_slash(request_path@, a as int) == a as int);
    let rel: &str = request_path.substring_char(a, n);
    let rootlen = root.unicode_len();
    let mut out: String = root.to_owned();
    if rootlen == 0 {
        let r = rel.to_owned();
        assert(r@ =~= spec_resolve_file(root@, request_path@));
        return r;
    }
    if root.get_char(rootlen - 1) != '/' {
        out.append("/");
        proof {
            reveal_strlit("/");
            assert("/"@ =~= seq!['/']);
        }
    }
    out.append(rel);
    assert(out@ =~= spec_resolve_file(root@, request_path@));
    out
}

/// Appends the conventional index file name when the resolved path names a
/// directory; the caller probes the filesystem and passes what it found.
pub fn apply_directory_index(path: String, is_dir: bool) -> (r: String)
    ensures
        is_dir ==> r@ == path@ + "/index.html"@,
        !is_dir ==> r@ == path@,
{
    if is_dir {
        let mut out = path;
        out.append("/index.html");
        out
    } else {
        path
    }
}

/// The `{uri}` placeholder, as characters.
pub open spec fn placeholder() -> Seq<char> {
    seq!['{', 'u', 'r', 'i', '}']
}

/// `dest` with every occurrence of `{uri}` replaced by `path`, scanning left
/// to right without overlap.
pub open spec fn spec_replace_uri(dest: Seq<char>, path: Seq<char>) -> Seq<char>
    decreases dest.len(),
{
    if dest.len() < 5 {
        dest
    } else if dest.subrange(0, 5) == placeholder() {
        path + spec_replace_uri(dest.skip(5), path)
    } else {
        seq![dest[0]] + spec_replace_uri(dest.skip(1), path)
    }
}

/// Substitutes the request path into a redirect template, matching
/// `spec_replace_uri`.
pub fn replace_uri(dest: &str, path: &str) -> (r: String)
    ensures
        r@ == spec_replace_uri(dest@, path@),
{
    let n = dest.unicode_len();
    let mut out = String::new();
    let mut i: usize = 0;
    assert(dest@.skip(0) =~= dest@);
    assert(out@ + spec_replace_uri(dest@, path@) =~= spec_replace_uri(dest@, path@));
    while i < n
        invariant
            0 <= i <= n,
            n == dest@.len(),
            spec_replace_uri(dest@, path@) == out@ + spec_replace_uri(dest@.skip(i as int), path@),
        decreases n - i,
    {
        let ghost suf = dest@.skip(i as int);
        if n - i >= 5 && dest.get_char(i) == '{' && dest.get_char(i + 1) == 'u' && dest.get_char(
            i + 2,
        ) == 'r' && dest.get_char(i + 3) == 'i' && dest.get_char(i + 4) == '}' {
            proof {
                assert(suf.len() >= 5);
                assert forall|k: int| 0 <= k < 5 implies suf.subrange(0, 5)[k] == placeholder()[k]
                    by {
                    assert(suf[k] == dest@[i + k]);
                }
                assert(suf.subrange(0, 5) =~= placeholder());
                assert(spec_replace_uri(suf, path@) == path@ + spec_replace_uri(
                    suf.skip(5),
                    path@,
                ));
                assert(suf.skip(5) =~= dest@.skip(i + 5 as int));
            }
            out.append(path);
            proof {
                assert(out@ + spec_replace_uri(dest@.skip(i + 5 as int), path@)
                    =~= spec_replace_uri(dest@, path@));
            }
            i += 5;
        } else {
            proof {
                if suf.len() >= 5 {
                    assert(exists|k: int| 0 <= k < 5 && suf[k] != placeholder()[k]) by {
                        assert(forall|k: int|
                            0 <= k < 5 ==> #[trigger] suf[k] == dest@[i + k]);
                        if suf[0] == placeholder()[0] && suf[1] == placeholder()[1] && suf[2]
                            == placeholder()[2] && suf[3] == placeholder()[3] && suf[4]
                            == placeholder()[4] {
                            assert(dest@[i as int] == '{' && dest@[i + 1] == 'u' && dest@[i + 2]
                                == 'r' && dest@[i + 3] == 'i' && dest@[i + 4] == '}');
                            assert(false);
                        } else {
                            assert(suf[0] != placeholder()[0] || suf[1] != placeholder()[1]
                                || suf[2] != placeholder()[2] || suf[3] != placeholder()[3]
                                || suf[4] != placeholder()[4]);
                        }
                    }
                    let k = choose|k: int| 0 <= k < 5 && suf[k] != placeholder()[k];
                    assert(suf.subrange(0, 5)[k] == suf[k]);
                    assert(suf.subrange(0, 5) != placeholder());
                    assert(spec_replace_uri(suf, path@) == seq![suf[0]] + spec_replace_uri(
                        suf.skip(1),
                        path@,
                    ));
                } else {
                    assert(spec_replace_uri(suf, path@) == suf);
                    assert(seq![suf[0]] + spec_replace_uri(suf.skip(1), path@) =~= suf);
                }
                assert(suf.skip(1) =~= dest@.skip(i + 1 as int));
            }
            let c: &str = dest.substring_char(i, i + 1);
            out.append(c);
            proof {
                assert(c@ =~= seq![dest@[i as int]]);
                assert(out@ + spec_replace_uri(dest@.skip(i + 1 as int), path@)
                    =~= spec_replace_uri(dest@, path@));
            }
            i += 1;
        }
    }
    assert(dest@.skip(i as int) =~= Seq::<char>::empty());
    assert(spec_replace_uri(Seq::<char>::empty(), path@) == Seq::<char>::empty());
    assert(out@ =~= spec_replace_uri(dest@, path@));
    out
}

/// What evaluating a directive list decides, before the request's own pieces
/// are attached to the outcome.
pub enum EvalView {
    File(Seq<char>),
    ProxyTo(Seq<char>),
    RedirectTo(Seq<char>),
    Status(int),
}

/// One left-to-right pass over a host's directives: a matching `root` records
/// the filesystem root and continues; `file_server` ends the pass, serving
/// under the recorded root or failing without one; a matching `reverse_proxy`
/// ends the pass toward its destination; `redir` always ends the pass; `tls`
/// is inert; a pass that falls off the end is not found.
pub open spec fn spec_eval(ds: Seq<DirectiveView>, path: Seq<char>, root: Option<Seq<char>>) -> EvalView
    decreases ds.len(),
{
    if ds.len() == 0 {
        EvalView::Status(STATUS_NOT_FOUND as int)
    } else {
        match ds[0] {
            DirectiveView::Root { pattern, path: rp } => spec_eval(
                ds.drop_first(),
                path,
                if spec_matches(pattern, path) {
                    Some(rp)
                } else {
                    root
                },
            ),
            DirectiveView::FileServer => match root {
                None => EvalView::Status(STATUS_INTERNAL_SERVER_ERROR as int),
                Some(r) => EvalView::File(spec_resolve_file(r, path)),
            },
            DirectiveView::ReverseProxy { pattern, destination } => if spec_matches(
                pattern,
                path,
            ) {
                EvalView::ProxyTo(destination + path)
            } else {
                spec_eval(ds.drop_first(), path, root)
            },
            DirectiveView::Redir { destination } => EvalView::RedirectTo(
                spec_replace_uri(destination, path),
            ),
            DirectiveView::Tls { .. } => spec_eval(ds.drop_first(), path, root),
        }
    }
}

/// The outcome for a request under a directive table: the host named by the
/// request's `Host` header is looked up exactly; an unknown host is forbidden;
/// otherwise its directive list decides, and a proxy outcome carries the
/// request's method, headers and body verbatim.
pub open spec fn spec_route(req: ReqView, table: Seq<HostEntryView>) -> OutcomeView {
    let host = spec_host_value(req.headers);
    match spec_lookup(table, host) {
        None => OutcomeView::Error { status: STATUS_FORBIDDEN as int },
        Some(ds) => match spec_eval(ds, req.path, None) {
            EvalView::Status(s) => OutcomeView::Error { status: s },
            EvalView::File(p) => OutcomeView::ServeFile { path: p },
            EvalView::ProxyTo(u) => OutcomeView::Proxy {
                method: req.method,
                uri: u,
                headers: req.headers,
                body: req.body,
            },
            EvalView::RedirectTo(l) => OutcomeView::Redirect { location: l },
        },
    }
}

/// Decides the single outcome for one parsed request, matching `spec_route`.
#[verifier::loop_isolation(false)]
pub fn route(req: ParsedRequest, table: &DirectiveTable) -> (r: RoutingOutcome)
    ensures
        r.deep_view() == spec_route(req@, table.deep_view()),
{
    let host = host_value(&req.headers);
    let ds = match table.lookup(host.as_str()) {
        None => {
            return RoutingOutcome::Error { status: STATUS_FORBIDDEN };
        },
        Some(ds) => ds,
    };
    let ghost dsv = ds.deep_view();
    let mut root: Option<String> = None;
    let ghost rootv = None::<Seq<char>>;
    let mut i: usize = 0;
    assert(dsv.skip(0) =~= dsv);
    while i < ds.len()
        invariant
            0 <= i <= ds@.len(),
            dsv == ds.deep_view(),
            dsv.len() == ds@.len(),
            match root {
                Some(ref s) => rootv == Some(s@),
                None => rootv is None,
            },
            spec_eval(dsv, req@.path, None) == spec_eval(dsv.skip(i as int), req@.path, rootv),
        decreases ds@.len() - i,
    {
        proof {
            assert(dsv.skip(i as int)[0] == dsv[i as int]);
            assert(dsv[i as int] == ds@[i as int].deep_view());
            assert(dsv.skip(i as int).drop_first() =~= dsv.skip(i + 1 as int));
        }
        match &ds[i] {
            Directive::Root { pattern, path } => {
                if matches_pattern(pattern.as_str(), req.path.as_str()) {
                    root = Some(path.clone());
                    proof {
                        rootv = Some(path@);
                    }
                }
            },
            Directive::FileServer => {
                assert(dsv.skip(i as int)[0] == DirectiveView::FileServer);
                match root {
                    None => {
                        assert(spec_eval(dsv.skip(i as int), req@.path, rootv) == EvalView::Status(
                            STATUS_INTERNAL_SERVER_ERROR as int,
                        ));
                        let out = RoutingOutcome::Error { status: STATUS_INTERNAL_SERVER_ERROR };
                        assert(out.deep_view() == (OutcomeView::Error {
                            status: STATUS_INTERNAL_SERVER_ERROR as int,
                        }));
                        assert(out.deep_view() == spec_route(req@, table.deep_view()));
                        return out;
                    },
                    Some(r) => {
                        let resolved = resolve_file_path(r.as_str(), req.path.as_str());
                        return RoutingOutcome::ServeFile { path: resolved };
                    },
                }
            },
            Directive::ReverseProxy { pattern, destination } => {
                if matches_pattern(pattern.as_str(), req.path.as_str()) {
                    let mut uri = destination.clone();
                    uri.append(req.path.as_str());
                    return RoutingOutcome::Proxy {
                        method: req.method,
                        uri,
                        headers: req.headers,
                        body: req.body,
                    };
                }
            },
            Directive::Redir { destination } => {
                let location = replace_uri(destination.as_str(), req.path.as_str());
                return RoutingOutcome::Redirect { location };
            },
            Directive::Tls { .. } => {},
        }
        i += 1;
    }
    assert(dsv.skip(i as int) =~= Seq::<DirectiveView>::empty());
    RoutingOutcome::Error { status: STATUS_NOT_FOUND }
}

/// The pass over a directive list never decides to forbid: only the host
/// lookup does.
pub proof fn lemma_eval_never_forbidden(ds: Seq<DirectiveView>, path: Seq<char>, root: Option<Seq<char>>)
    ensures
        spec_eval(ds, path, root) != EvalView::Status(STATUS_FORBIDDEN as int),
    decreases ds.len(),
{
    if ds.len() > 0 {
        match ds[0] {
            DirectiveView::Root { pattern, path: rp } => {
                lemma_eval_never_forbidden(
                    ds.drop_first(),
                    path,
                    if spec_matches(pattern, path) {
                        Some(rp)
                    } else {
                        root
                    },
                );
            },
            DirectiveView::ReverseProxy { pattern, destination } => {
                if !spec_matches(pattern, path) {
                    lemma_eval_never_forbidden(ds.drop_first(), path, root);
                }
            },
            DirectiveView::Tls { .. } => {
                lemma_eval_never_forbidden(ds.drop_first(), path, root);
            },
            _ => {},
        }
    }
}

/// Law: a request whose `Host` header names a host present in the table is
/// never refused as an unknown host.
pub proof fn lemma_known_host_never_forbidden(req: ReqView, table: Seq<HostEntryView>, k: int)
    requires
        0 <= k < table.len(),
        table[k].host == spec_host_value(req.headers),
    ensures
        spec_route(req, table) != (OutcomeView::Error { status: STATUS_FORBIDDEN as int }),
{
    crate::config::lemma_lookup_found(table, spec_host_value(req.headers), k);
    let ds = spec_lookup(table, spec_host_value(req.headers))->Some_0;
    lemma_eval_never_forbidden(ds, req.path, None);
}

} // verus!
