//! Parsing while the bytes arrive. What the parser decides on the first
//! bytes of a buffer stays decided when more bytes follow: only a call for
//! more bytes can turn into something else.

use crate::http_parser::{
    content_length, header_block, header_line, header_name_end, header_value, header_window,
    header_within, line_break, method_end, parse_outcome, path_end, request_line, span_range,
    token_len, version_end, Break, Fault, Outcome, Scan, MAX_HEADER_SIZE,
};
use crate::text::{lemma_scan, lemma_scan_prefix, scan, Stop};
use crate::request::Span;
use vstd::prelude::*;

verus! {

/// Whether a step on the first bytes of a buffer, `early`, agrees with the
/// same step on all of them, `late`: it needs more bytes, or it has found
/// the same.
pub open spec fn settled<T>(early: Scan<T>, late: Scan<T>) -> bool {
    early is NeedMore || early == late
}

/// The method of a prefix is the method of the whole.
pub proof fn lemma_method_settled(buf: Seq<u8>, k: int)
    requires
        0 <= k <= buf.len(),
    ensures
        settled(method_end(buf.take(k)), method_end(buf)),
{
    let pre = buf.take(k);
    if k >= 3 {
        let n = token_len(buf[0], buf[1], buf[2]);
        assert(pre[0] == buf[0] && pre[1] == buf[1] && pre[2] == buf[2]);
        if n != 0 && k >= n {
            assert(pre.take(n) =~= buf.take(n));
        }
    }
}

/// The path of a prefix is the path of the whole.
pub proof fn lemma_path_settled(buf: Seq<u8>, k: int, p: int)
    requires
        0 <= k <= buf.len(),
        0 <= p,
    ensures
        settled(path_end(buf.take(k), p), path_end(buf, p)),
{
    if p <= k {
        lemma_scan_prefix(buf, k, p, Stop::Byte(0x20));
    }
}

/// The version of a prefix is the version of the whole.
pub proof fn lemma_version_settled(buf: Seq<u8>, k: int, v: int)
    requires
        0 <= k <= buf.len(),
        0 <= v,
    ensures
        settled(version_end(buf.take(k), v), version_end(buf, v)),
{
    if k >= v + 8 {
        assert(buf.take(k).subrange(v, v + 8) =~= buf.subrange(v, v + 8));
    }
}

/// A line break in a prefix is a line break in the whole.
pub proof fn lemma_line_break_settled(buf: Seq<u8>, k: int, i: int)
    requires
        0 <= k <= buf.len(),
    ensures
        line_break(buf.take(k), i) is Unknown || line_break(buf.take(k), i) == line_break(buf, i),
        line_break(buf.take(k), i) matches Break::At(next) ==> i < next <= k,
{
}

/// The request line of a prefix is the request line of the whole.
pub proof fn lemma_request_line_settled(buf: Seq<u8>, k: int)
    requires
        0 <= k <= buf.len(),
    ensures
        settled(request_line(buf.take(k)), request_line(buf)),
        request_line(buf.take(k)) matches Scan::Found(line) ==> 0 < line.next <= k,
{
    let pre = buf.take(k);
    lemma_method_settled(buf, k);
    match method_end(pre) {
        Scan::Found(n) => {
            if k > n && pre[n] == 0x20 {
                assert(n >= 0);
                lemma_path_settled(buf, k, n + 1);
                match path_end(pre, n + 1) {
                    Scan::Found(q) => {
                        lemma_scan(pre, n + 1, Stop::Byte(0x20));
                        lemma_version_settled(buf, k, q + 1);
                        match version_end(pre, q + 1) {
                            Scan::Found(e) => {
                                lemma_line_break_settled(buf, k, e);
                            },
                            _ => {},
                        }
                    },
                    _ => {},
                }
            }
        },
        _ => {},
    }
}

/// The name of a header in a prefix is its name in the whole.
pub proof fn lemma_header_name_settled(buf: Seq<u8>, k: int, i: int)
    requires
        0 <= k <= buf.len(),
        0 <= i,
    ensures
        settled(header_name_end(buf.take(k), i), header_name_end(buf, i)),
        header_name_end(buf.take(k), i) matches Scan::Found(colon) ==> i <= colon < k,
{
    if i <= k {
        lemma_scan_prefix(buf, k, i, Stop::NameEnd);
        lemma_scan(buf.take(k), i, Stop::NameEnd);
    }
}

/// The value of a header in a prefix is its value in the whole.
pub proof fn lemma_header_value_settled(buf: Seq<u8>, k: int, i: int)
    requires
        0 <= k <= buf.len(),
        0 <= i,
    ensures
        settled(header_value(buf.take(k), i), header_value(buf, i)),
        header_value(buf.take(k), i) matches Scan::Found(value) ==> i <= value.0 <= value.1 < k,
{
    if i <= k {
        let pre = buf.take(k);
        lemma_scan_prefix(buf, k, i, Stop::ValueStart);
        lemma_scan(pre, i, Stop::ValueStart);
        let start = scan(pre, i, Stop::ValueStart);
        lemma_scan_prefix(buf, k, start, Stop::LineEnd);
        lemma_scan(pre, start, Stop::LineEnd);
    }
}

/// A header line in a prefix is the same line in the whole.
pub proof fn lemma_header_line_settled(buf: Seq<u8>, k: int, i: int)
    requires
        0 <= k <= buf.len(),
        0 <= i,
    ensures
        settled(header_line(buf.take(k), i), header_line(buf, i)),
        header_line(buf.take(k), i) matches Scan::Found(line) ==> i < line.next <= k,
{
    let pre = buf.take(k);
    lemma_header_name_settled(buf, k, i);
    match header_name_end(pre, i) {
        Scan::Found(colon) => {
            lemma_header_value_settled(buf, k, colon + 1);
            match header_value(pre, colon + 1) {
                Scan::Found(value) => {
                    lemma_line_break_settled(buf, k, value.1);
                },
                _ => {},
            }
        },
        _ => {},
    }
}

/// The headers of a prefix are the headers of the whole.
pub proof fn lemma_header_block_settled(buf: Seq<u8>, k: int, i: int)
    requires
        0 <= k <= buf.len(),
        0 <= i,
    ensures
        settled(header_block(buf.take(k), i), header_block(buf, i)),
    decreases k - i,
{
    let pre = buf.take(k);
    lemma_line_break_settled(buf, k, i);
    match line_break(pre, i) {
        Break::Missing => {
            lemma_header_line_settled(buf, k, i);
            match header_line(pre, i) {
                Scan::Found(line) => {
                    lemma_header_block_settled(buf, k, line.next);
                },
                _ => {},
            }
        },
        _ => {},
    }
}

/// The headers that are found end within the buffer, and each of them stands
/// before that end.
pub proof fn lemma_header_block_within(buf: Seq<u8>, i: int)
    requires
        0 <= i,
        buf.len() <= usize::MAX,
    ensures
        header_block(buf, i) matches Scan::Found(block) ==> i < block.end <= buf.len() && forall|
            j: int,
        |
            0 <= j < block.headers.len() ==> header_within(#[trigger] block.headers[j], block.end)
                && i <= block.headers[j].0.0,
    decreases buf.len() - i,
{
    lemma_line_break_settled(buf, buf.len() as int, i);
    assert(buf.take(buf.len() as int) =~= buf);
    match line_break(buf, i) {
        Break::Missing => {
            lemma_header_line_settled(buf, buf.len() as int, i);
            match header_line(buf, i) {
                Scan::Found(line) => {
                    lemma_header_name_settled(buf, buf.len() as int, i);
                    let colon = header_name_end(buf, i)->Found_0;
                    lemma_header_value_settled(buf, buf.len() as int, colon + 1);
                    lemma_header_block_within(buf, line.next);
                    match header_block(buf, line.next) {
                        Scan::Found(rest) => {
                            let block = header_block(buf, i)->Found_0;
                            assert forall|j: int| 0 <= j < block.headers.len() implies header_within(
                                #[trigger] block.headers[j],
                                block.end,
                            ) && i <= block.headers[j].0.0 by {
                                if j > 0 {
                                    assert(block.headers[j] == rest.headers[j - 1]);
                                }
                            }
                        },
                        _ => {},
                    }
                },
                _ => {},
            }
        },
        _ => {},
    }
}

/// Headers that stand within the first `k` bytes announce the same length
/// whatever follows those bytes.
pub proof fn lemma_content_length_settled(buf: Seq<u8>, k: int, headers: Seq<(Span, Span)>)
    requires
        0 <= k <= buf.len(),
        forall|j: int| 0 <= j < headers.len() ==> header_within(#[trigger] headers[j], k),
    ensures
        content_length(buf.take(k), headers) == content_length(buf, headers),
    decreases headers.len(),
{
    if headers.len() > 0 {
        let last = headers.last();
        assert(header_within(headers[headers.len() - 1], k));
        assert(span_range(buf.take(k), last.0) =~= span_range(buf, last.0));
        assert(span_range(buf.take(k), last.1) =~= span_range(buf, last.1));
        let front = headers.drop_last();
        assert forall|j: int| 0 <= j < front.len() implies header_within(#[trigger] front[j], k) by {
            assert(front[j] == headers[j]);
        }
        lemma_content_length_settled(buf, k, front);
    }
}

/// Where the request ends that `buf` starts with, if it holds a whole one:
/// after the headers, or after the body that they announce.
pub open spec fn request_end(buf: Seq<u8>) -> int {
    match request_line(buf) {
        Scan::Found(line) => match header_block(header_window(buf, line.next), line.next) {
            Scan::Found(block) => block.end + content_length(buf, block.headers),
            _ => 0,
        },
        _ => 0,
    }
}

/// What the parser decides on a prefix is final. Parsing the first `k` bytes
/// of a buffer either calls for more bytes or gives what parsing the whole
/// buffer gives; and a request that is found whole ends within the bytes
/// that were parsed.
pub proof fn lemma_prefix_outcome(buf: Seq<u8>, k: int)
    requires
        0 <= k <= buf.len(),
        buf.len() <= usize::MAX,
    ensures
        parse_outcome(buf.take(k)) is Partial || parse_outcome(buf.take(k)) == parse_outcome(buf),
        parse_outcome(buf.take(k)) is Complete ==> request_end(buf.take(k)) == request_end(buf)
            && request_end(buf) <= k,
{
    let pre = buf.take(k);
    lemma_request_line_settled(buf, k);
    match request_line(pre) {
        Scan::Found(line) => {
            let start = line.next;
            let early = header_window(pre, start);
            let late = header_window(buf, start);
            assert(early =~= late.take(early.len() as int));
            lemma_header_block_settled(late, early.len() as int, start);
            match header_block(early, start) {
                Scan::Found(block) => {
                    lemma_header_block_within(early, start);
                    assert forall|j: int| 0 <= j < block.headers.len() implies header_within(
                        #[trigger] block.headers[j],
                        k,
                    ) by {
                        assert(header_within(block.headers[j], block.end));
                    }
                    lemma_content_length_settled(buf, k, block.headers);
                },
                Scan::NeedMore => {
                    if k > start + MAX_HEADER_SIZE {
                        assert(early =~= late);
                    }
                },
                _ => {},
            }
        },
        _ => {},
    }
}

/// The parts of a request stand in its buffer, one after the other: the
/// method from the first byte on, then the path, then the headers, each
/// with its name before its value, then the body, if there is one.
pub proof fn lemma_parts_in_buffer(buf: Seq<u8>)
    requires
        buf.len() <= usize::MAX,
        parse_outcome(buf) is Complete,
    ensures
        ({
            let method = parse_outcome(buf)->method;
            let path = parse_outcome(buf)->path;
            let headers = parse_outcome(buf)->headers;
            let body = parse_outcome(buf)->body;
            &&& method.0 == 0 && method.0 < method.1 < path.0 < path.1 < buf.len()
            &&& forall|j: int|
                0 <= j < headers.len() ==> path.1 < (#[trigger] headers[j]).0.0 && header_within(
                    headers[j],
                    buf.len() as int,
                )
            &&& body != Span(0, 0) ==> path.1 < body.0 < body.1 <= buf.len() && forall|j: int|
                0 <= j < headers.len() ==> (#[trigger] headers[j]).1.1 < body.0
        }),
{
    assert(buf.take(buf.len() as int) =~= buf);
    lemma_request_line_settled(buf, buf.len() as int);
    let line = request_line(buf)->Found_0;
    lemma_method_settled(buf, buf.len() as int);
    lemma_path_settled(buf, buf.len() as int, line.method_end + 1);
    lemma_scan(buf, line.method_end + 1, Stop::Byte(0x20));
    lemma_line_break_settled(buf, buf.len() as int, line.path_end + 9);
    let window = header_window(buf, line.next);
    lemma_header_block_within(window, line.next);
    let block = header_block(window, line.next)->Found_0;
    assert forall|j: int| 0 <= j < block.headers.len() implies line.path_end < (
    #[trigger] block.headers[j]).0.0 && header_within(block.headers[j], buf.len() as int) by {
        assert(header_within(block.headers[j], block.end));
    }
    assert forall|j: int| 0 <= j < block.headers.len() implies (#[trigger] block.headers[j]).1.1
        < block.end by {
        lemma_header_ends_before(window, line.next, j);
    }
}

/// Each header that is found ends before the blank line that ends the
/// headers.
pub proof fn lemma_header_ends_before(buf: Seq<u8>, i: int, j: int)
    requires
        0 <= i,
        buf.len() <= usize::MAX,
        header_block(buf, i) is Found,
        0 <= j < header_block(buf, i)->Found_0.headers.len(),
    ensures
        header_block(buf, i)->Found_0.headers[j].1.1 < header_block(buf, i)->Found_0.end,
    decreases buf.len() - i,
{
    assert(buf.take(buf.len() as int) =~= buf);
    lemma_header_line_settled(buf, buf.len() as int, i);
    let line = header_line(buf, i)->Found_0;
    lemma_header_name_settled(buf, buf.len() as int, i);
    let colon = header_name_end(buf, i)->Found_0;
    lemma_header_value_settled(buf, buf.len() as int, colon + 1);
    lemma_line_break_settled(buf, buf.len() as int, header_value(buf, colon + 1)->Found_0.1);
    lemma_header_block_within(buf, line.next);
    let rest = header_block(buf, line.next)->Found_0;
    if j > 0 {
        lemma_header_ends_before(buf, line.next, j - 1);
        assert(header_block(buf, i)->Found_0.headers[j] == rest.headers[j - 1]);
    }
}

/// Whether `buf` is one whole request and nothing more: parsing it gives a
/// request, and the request ends where the buffer ends.
pub open spec fn is_whole_request(buf: Seq<u8>) -> bool {
    parse_outcome(buf) is Complete && request_end(buf) == buf.len()
}

/// Streaming. Cut a whole request at any place before its end: parsing the
/// first part calls for more bytes, and parsing the first part with the rest
/// appended gives what parsing the request in one piece gives.
pub proof fn lemma_streaming(request: Seq<u8>, cut: int)
    requires
        is_whole_request(request),
        0 <= cut < request.len(),
        request.len() <= usize::MAX,
    ensures
        parse_outcome(request.take(cut)) == Outcome::Partial,
        parse_outcome(request.take(cut) + request.skip(cut)) == parse_outcome(request),
{
    lemma_prefix_outcome(request, cut);
    assert(request.take(cut) + request.skip(cut) =~= request);
}

/// A refusal is final: a buffer that is refused stays refused, for the same
/// reason, whatever bytes are appended to it. So a request whose headers are
/// too large is refused whether or not the blank line that ends them would
/// still arrive.
pub proof fn lemma_refusal_is_final(buf: Seq<u8>, more: Seq<u8>, fault: Fault)
    requires
        parse_outcome(buf) == Outcome::Refused(fault),
        buf.len() + more.len() <= usize::MAX,
    ensures
        parse_outcome(buf + more) == Outcome::Refused(fault),
{
    assert((buf + more).take(buf.len() as int) =~= buf);
    lemma_prefix_outcome(buf + more, buf.len() as int);
}

/// The ceiling on the headers. Where the request line is complete, the
/// parser is never content with headers that take more than
/// `MAX_HEADER_SIZE` bytes: it finds a request only if the headers end within
/// that many bytes, and while they have not ended it calls for more bytes
/// only if the buffer holds no more than that many.
pub proof fn lemma_header_ceiling(buf: Seq<u8>)
    requires
        buf.len() <= usize::MAX,
        request_line(buf) is Found,
    ensures
        ({
            let start = request_line(buf)->Found_0.next;
            let block = header_block(header_window(buf, start), start);
            &&& parse_outcome(buf) is Complete ==> block is Found && block->Found_0.end <= start
                + MAX_HEADER_SIZE
            &&& block is NeedMore && buf.len() > start + MAX_HEADER_SIZE ==> parse_outcome(buf)
                == Outcome::Refused(Fault::HeaderSize)
            &&& block is NeedMore && parse_outcome(buf) is Partial ==> buf.len() <= start
                + MAX_HEADER_SIZE
        }),
{
    let start = request_line(buf)->Found_0.next;
    assert(buf.take(buf.len() as int) =~= buf);
    lemma_request_line_settled(buf, buf.len() as int);
    lemma_header_block_within(header_window(buf, start), start);
}

} // verus!
