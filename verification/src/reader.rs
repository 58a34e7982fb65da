use vstd::prelude::*;

use crate::head::{
    spec_parse_head, spec_content_length, headers_chars, req_matches_head, parse_head,
    content_length_of, HeadStatus, ParsedRequest, SpecHeadResult, MAX_HEAD_BYTES, find_term_from,
};

verus! {

/// What the bytes received so far amount to: a finished request, the need for
/// more bytes, or a request this server rejects.
pub enum SpecRead {
    Complete(crate::head::SpecHead, int),
    NeedMore,
    Failure,
}

/// The reading of a request off the byte stream prefix `s`: once the head is
/// complete, the body is everything after it, and the request is finished as
/// soon as the body has reached the declared content length (or at once, if
/// none was declared). The head's length accompanies a complete request.
pub open spec fn spec_read(s: Seq<u8>) -> SpecRead {
    match spec_parse_head(s) {
        SpecHeadResult::Partial => SpecRead::NeedMore,
        SpecHeadResult::Failure => SpecRead::Failure,
        SpecHeadResult::Complete(head, hl) => {
            let body = s.subrange(hl, s.len() as int);
            match spec_content_length(headers_chars(head.headers)) {
                Some(n) => if body.len() >= n {
                    SpecRead::Complete(head, hl)
                } else {
                    SpecRead::NeedMore
                },
                None => SpecRead::Complete(head, hl),
            }
        },
    }
}

/// Reads one request incrementally: the connection loop feeds it each chunk
/// read off the socket and tells it when the peer closed.
pub struct RequestReader {
    buf: Vec<u8>,
    done: bool,
}

/// What one fed chunk led to.
pub enum FeedResult {
    /// The request is finished; the body holds every byte past the head.
    Complete(ParsedRequest),
    /// More bytes are needed.
    NeedMore,
    /// The bytes cannot be a request this server accepts: answer 400 and close.
    Failure,
}

/// What closing the connection amounts to, given what had been fed.
pub enum CloseResult {
    /// The head was complete: the request is returned with a body that may be
    /// shorter than the declared content length.
    Complete(ParsedRequest),
    /// The peer closed without sending anything: close silently.
    Empty,
    /// The peer closed mid-head: close silently.
    Incomplete,
}

impl View for RequestReader {
    type V = Seq<u8>;

    /// The bytes fed so far.
    closed spec fn view(&self) -> Seq<u8> {
        self.buf@
    }
}

impl RequestReader {
    /// The reader still accepts bytes: nothing fed so far finished or failed
    /// the request.
    pub closed spec fn open_state(&self) -> bool {
        !self.done && spec_read(self@) is NeedMore
    }

    pub fn new() -> (r: RequestReader)
        ensures
            r@ == Seq::<u8>::empty(),
            r.open_state(),
    {
        let r = RequestReader { buf: Vec::new(), done: false };
        proof {
            let s = r.buf@;
            assert(find_term_from(s, 0) is None);
            assert(s.len() < MAX_HEAD_BYTES as int);
        }
        r
    }

    /// Takes the next chunk read off the connection.
    pub fn feed(&mut self, chunk: &[u8]) -> (r: FeedResult)
        requires
            old(self).open_state(),
        ensures
            final(self)@ == old(self)@ + chunk@,
            match r {
                FeedResult::NeedMore => spec_read(final(self)@) is NeedMore
                    && final(self).open_state(),
                FeedResult::Failure => spec_read(final(self)@) is Failure,
                FeedResult::Complete(req) => {
                    &&& spec_read(final(self)@) is Complete
                    &&& req_matches_head(
                        req@,
                        spec_read(final(self)@)->Complete_0,
                        final(self)@.subrange(
                            spec_read(final(self)@)->Complete_1,
                            final(self)@.len() as int,
                        ),
                    )
                },
            },
    {
        let mut extra = vstd::slice::slice_to_vec(chunk);
        self.buf.append(&mut extra);
        match parse_head(self.buf.as_slice()) {
            HeadStatus::Partial => FeedResult::NeedMore,
            HeadStatus::Failure => {
                self.done = true;
                FeedResult::Failure
            },
            HeadStatus::Complete(mut req, hl) => {
                proof {
                    crate::head::lemma_find_term_props(self.buf@, 0);
                }
                assert(hl <= self.buf@.len());
                let cl = content_length_of(&req.headers);
                let body_len = self.buf.len() - hl;
                match cl {
                    Some(n) if body_len < n => FeedResult::NeedMore,
                    _ => {
                        self.done = true;
                        let body: &[u8] = &self.buf.as_slice()[hl..self.buf.len()];
                        let body_vec = vstd::slice::slice_to_vec(body);
                        req.body = body_vec;
                        FeedResult::Complete(req)
                    },
                }
            },
        }
    }

    /// Notes that the peer closed the connection, and yields what the bytes
    /// fed so far amount to: nothing, a half-sent head, or a request whose
    /// body fell short of the declared content length and stays as received.
    pub fn close(self) -> (r: CloseResult)
        requires
            self.open_state(),
        ensures
            match spec_parse_head(self@) {
                SpecHeadResult::Partial => {
                    &&& (self@.len() == 0 ==> r is Empty)
                    &&& (self@.len() > 0 ==> r is Incomplete)
                },
                SpecHeadResult::Failure => false,
                SpecHeadResult::Complete(head, hl) => {
                    &&& r is Complete
                    &&& req_matches_head(
                        r->Complete_0@,
                        head,
                        self@.subrange(hl, self@.len() as int),
                    )
                },
            },
    {
        match parse_head(self.buf.as_slice()) {
            HeadStatus::Partial => {
                if self.buf.len() == 0 {
                    CloseResult::Empty
                } else {
                    CloseResult::Incomplete
                }
            },
            HeadStatus::Failure => {
                // unreachable while the reader is open; closing yields nothing
                CloseResult::Incomplete
            },
            HeadStatus::Complete(mut req, hl) => {
                proof {
                    crate::head::lemma_find_term_props(self.buf@, 0);
                }
                assert(hl <= self.buf@.len());
                let body: &[u8] = &self.buf.as_slice()[hl..self.buf.len()];
                let body_vec = vstd::slice::slice_to_vec(body);
                req.body = body_vec;
                CloseResult::Complete(req)
            },
        }
    }
}

/// Law: a head followed by at least the declared number of body bytes always
/// finishes the request, and the body it carries is exactly the bytes past
/// the head; in particular, a head followed by exactly `n` declared bytes
/// yields a body of length `n`.
pub proof fn lemma_content_length_round_trip(s: Seq<u8>, head: crate::head::SpecHead, hl: int, n: int)
    requires
        spec_parse_head(s) == SpecHeadResult::Complete(head, hl),
        spec_content_length(headers_chars(head.headers)) == Some(n),
        0 <= hl <= s.len(),
        s.len() - hl >= n,
    ensures
        spec_read(s) == SpecRead::Complete(head, hl),
        s.subrange(hl, s.len() as int).len() == s.len() - hl,
{
}

/// Law: a head with no declared content length finishes at once, and the body
/// is whatever bytes followed the head's terminator.
pub proof fn lemma_no_content_length_round_trip(s: Seq<u8>, head: crate::head::SpecHead, hl: int)
    requires
        spec_parse_head(s) == SpecHeadResult::Complete(head, hl),
        spec_content_length(headers_chars(head.headers)) is None,
    ensures
        spec_read(s) == SpecRead::Complete(head, hl),
{
}

/// Law: a header section that exceeds the size bound is a failure, never a
/// partial success: this holds both when the terminator lies past the bound
/// and when the bound's worth of bytes arrived without any terminator.
pub proof fn lemma_oversized_head_fails(s: Seq<u8>)
    requires
        match find_term_from(s, 0) {
            None => s.len() >= MAX_HEAD_BYTES as int,
            Some(j) => j + 4 > MAX_HEAD_BYTES as int,
        },
    ensures
        spec_read(s) == SpecRead::Failure,
{
}


/// Law: a head section holding more header lines than the count bound is a
/// failure, never a partial success: if the section's lines parse to `hs`
/// under some budget `b` at least as large as the bound, yet `hs` exceeds the
/// bound, the whole read is rejected.
pub proof fn lemma_excess_headers_fail(s: Seq<u8>, hs: Seq<(Seq<u8>, Seq<u8>)>, b: int)
    requires
        ({
            let t = find_term_from(s, 0);
            t is Some && t->Some_0 + 4 <= crate::head::MAX_HEAD_BYTES as int
        }),
        ({
            let h = s.subrange(0, find_term_from(s, 0)->Some_0 + 4);
            let j0 = crate::head::find_crlf_from(h, 0);
            j0 is Some && crate::head::spec_headers_from(h, j0->Some_0 + 2, b) == Some(hs)
        }),
        crate::head::MAX_HEADERS as int <= b,
        hs.len() > crate::head::MAX_HEADERS as int,
    ensures
        spec_parse_head(s) == SpecHeadResult::Failure,
        spec_read(s) == SpecRead::Failure,
{
    let hl = find_term_from(s, 0)->Some_0 + 4;
    let h = s.subrange(0, hl);
    let j0 = crate::head::find_crlf_from(h, 0)->Some_0;
    crate::head::lemma_header_budget(h, j0 + 2, crate::head::MAX_HEADERS as int, b);
    assert(crate::head::spec_head_section(h) is None);
}

} // verus!
