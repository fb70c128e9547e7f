//! The router: an ordered table of routes. A route is a method, a pattern
//! and an action; the first route that matches a request wins.

use crate::method::{method_named, Method};
use crate::request::{pair_texts, span_text, Request, RequestView};
use crate::text::{bytes_eq, copy_bytes, find, lemma_piece_is_utf8, scan, text_of, Stop};
use crate::util::{
    lemma_decode_encoded_text, lemma_decode_plain, percent_decode_bytes, percent_decoded_text,
    percent_encoded, MAX_ESCAPES,
};
use vstd::prelude::*;
use vstd::std_specs::convert::IntoSpec;
use vstd::slice::slice_subrange;
use vstd::string::*;
use vstd::utf8::*;

verus! {

/// How many bytes of `s` are left when the slashes at its end are cut off.
pub open spec fn slashless_len(s: Seq<u8>) -> int
    decreases s.len(),
{
    if s.len() > 0 && s.last() == 0x2f {
        slashless_len(s.drop_last())
    } else {
        s.len() as int
    }
}

/// The part of a path that is split into segments: the path without the
/// slashes at its start and at its end.
pub open spec fn inner_range(s: Seq<u8>) -> (int, int) {
    let start = scan(s, 0, Stop::Not(0x2f));
    let end = slashless_len(s);
    if start <= end {
        (start, end)
    } else {
        (start, start)
    }
}

/// The segments of the bytes from `from` to `to`, as ranges. The bytes are
/// split at each slash; what stands between two slashes is split once more
/// at its first dot, if it has one, and the dot starts the second piece.
pub open spec fn split_spans(s: Seq<u8>, from: int, to: int) -> Seq<(int, int)>
    decreases to - from,
{
    let slash = scan(s.take(to), from, Stop::Byte(0x2f));
    let dot = scan(s.take(slash), from, Stop::Byte(0x2e));
    let pieces = if from <= dot < slash {
        seq![(from, dot), (dot, slash)]
    } else {
        seq![(from, slash)]
    };
    if from <= slash < to {
        pieces + split_spans(s, slash + 1, to)
    } else {
        pieces
    }
}

/// Where the segments of a path or of a pattern stand in it.
pub open spec fn segment_spans(s: Seq<u8>) -> Seq<(int, int)> {
    split_spans(s, inner_range(s).0, inner_range(s).1)
}

/// The segments of a path or of a pattern: `/blog/:page.md` has the
/// segments `blog`, `:page` and `.md`.
pub open spec fn segments(s: Seq<u8>) -> Seq<Seq<u8>> {
    segment_spans(s).map_values(|r: (int, int)| s.subrange(r.0, r.1))
}

/// Ranges of bytes as they are computed, read as ranges of places.
pub open spec fn places(spans: Seq<(usize, usize)>) -> Seq<(int, int)> {
    spans.map_values(|r: (usize, usize)| (r.0 as int, r.1 as int))
}

/// Whether each range lies in the first `len` bytes and is cut at ASCII
/// bytes or at the ends.
pub open spec fn cut_well(s: Seq<u8>, spans: Seq<(usize, usize)>) -> bool {
    forall|i: int|
        0 <= i < spans.len() ==> {
            let a = (#[trigger] spans[i]).0 as int;
            let b = spans[i].1 as int;
            &&& 0 <= a <= b <= s.len()
            &&& (a == 0 || a == s.len() || s[a] < 0x80 || s[a - 1] < 0x80)
            &&& (b == 0 || b == s.len() || s[b] < 0x80 || s[b - 1] < 0x80)
        }
}

/// Where the segments of `bytes` stand.
pub fn split_path(bytes: &[u8]) -> (spans: Vec<(usize, usize)>)
    ensures
        places(spans@) == segment_spans(bytes@),
        spans@.len() >= 1,
        cut_well(bytes@, spans@),
{
    let start = find(bytes, 0, Stop::Not(0x2f));
    let mut end: usize = bytes.len();
    assert(bytes@.take(end as int) =~= bytes@);
    while end > 0 && bytes[end - 1] == 0x2f
        invariant
            end <= bytes.len(),
            forall|k: int| end <= k < bytes@.len() ==> bytes@[k] == 0x2f,
            slashless_len(bytes@) == slashless_len(bytes@.take(end as int)),
        decreases end,
    {
        proof {
            assert(bytes@.take(end as int).drop_last() =~= bytes@.take(end - 1));
        }
        end -= 1;
    }
    proof {
        if end > 0 {
            assert(bytes@.take(end as int).last() == bytes@[end - 1]);
        }
    }
    let to = if start <= end {
        end
    } else {
        start
    };
    let window = slice_subrange(bytes, 0, to);
    assert(window@ =~= bytes@.take(to as int));
    let mut spans: Vec<(usize, usize)> = Vec::new();
    let mut pos = start;
    assert(places(spans@) + split_spans(bytes@, pos as int, to as int) =~= split_spans(
        bytes@,
        pos as int,
        to as int,
    ));
    loop
        invariant_except_break
            split_spans(bytes@, start as int, to as int) == places(spans@) + split_spans(
                bytes@,
                pos as int,
                to as int,
            ),
        invariant
            start <= pos <= to <= bytes@.len(),
            window@ == bytes@.take(to as int),
            pos == 0 || bytes@[pos - 1] == 0x2f,
            to == bytes@.len() || bytes@[to as int] == 0x2f,
            cut_well(bytes@, spans@),
        ensures
            split_spans(bytes@, start as int, to as int) == places(spans@),
            spans@.len() >= 1,
            cut_well(bytes@, spans@),
        decreases to - pos,
    {
        let ghost before = spans@;
        let slash = find(window, pos, Stop::Byte(0x2f));
        let piece = slice_subrange(bytes, 0, slash);
        assert(piece@ =~= bytes@.take(slash as int));
        let dot = find(piece, pos, Stop::Byte(0x2e));
        proof {
            if slash < to {
                assert(window@[slash as int] == bytes@[slash as int]);
            }
            if dot < slash {
                assert(piece@[dot as int] == bytes@[dot as int]);
            }
        }
        if dot < slash {
            spans.push((pos, dot));
            spans.push((dot, slash));
            assert(cut_well(bytes@, spans@)) by {
                assert forall|i: int| 0 <= i < spans@.len() implies {
                    let a = (#[trigger] spans@[i]).0 as int;
                    let b = spans@[i].1 as int;
                    &&& 0 <= a <= b <= bytes@.len()
                    &&& (a == 0 || a == bytes@.len() || bytes@[a] < 0x80 || bytes@[a - 1] < 0x80)
                    &&& (b == 0 || b == bytes@.len() || bytes@[b] < 0x80 || bytes@[b - 1] < 0x80)
                } by {
                    if i < before.len() {
                        assert(spans@[i] == before[i]);
                    }
                }
            }
            assert(places(spans@) =~= places(before) + seq![
                (pos as int, dot as int),
                (dot as int, slash as int),
            ]);
        } else {
            spans.push((pos, slash));
            assert(cut_well(bytes@, spans@)) by {
                assert forall|i: int| 0 <= i < spans@.len() implies {
                    let a = (#[trigger] spans@[i]).0 as int;
                    let b = spans@[i].1 as int;
                    &&& 0 <= a <= b <= bytes@.len()
                    &&& (a == 0 || a == bytes@.len() || bytes@[a] < 0x80 || bytes@[a - 1] < 0x80)
                    &&& (b == 0 || b == bytes@.len() || bytes@[b] < 0x80 || bytes@[b - 1] < 0x80)
                } by {
                    if i < before.len() {
                        assert(spans@[i] == before[i]);
                    }
                }
            }
            assert(places(spans@) =~= places(before) + seq![(pos as int, slash as int)]);
        }
        proof {
            let pieces = if dot < slash {
                seq![(pos as int, dot as int), (dot as int, slash as int)]
            } else {
                seq![(pos as int, slash as int)]
            };
            if slash < to {
                assert(places(before) + (pieces + split_spans(bytes@, slash + 1, to as int))
                    =~= (places(before) + pieces) + split_spans(bytes@, slash + 1, to as int));
            }
        }
        if slash >= to {
            break;
        }
        pos = slash + 1;
    }
    spans
}

/// The byte strings that a vector of byte vectors holds.
pub open spec fn rows(v: Seq<Vec<u8>>) -> Seq<Seq<u8>> {
    v.map_values(|r: Vec<u8>| r@)
}

/// Whether a segment of a pattern takes one segment of the path as an
/// argument: it starts with a colon.
pub open spec fn is_capture(segment: Seq<u8>) -> bool {
    segment.len() > 0 && segment[0] == 0x3a
}

/// Whether a segment of a pattern takes the rest of the path as an argument:
/// it starts with an asterisk.
pub open spec fn is_wildcard(segment: Seq<u8>) -> bool {
    segment.len() > 0 && segment[0] == 0x2a
}

/// The name under which a segment of a pattern records its argument: the
/// segment without the colons, or asterisks, at its start.
pub open spec fn capture_name(segment: Seq<u8>) -> Seq<u8> {
    segment.skip(scan(segment, 0, Stop::Not(segment[0])))
}

/// Whether a pattern can be registered: nothing follows a segment that
/// takes the rest of the path.
pub open spec fn pattern_ok(pattern: Seq<Seq<u8>>) -> bool {
    forall|i: int| 0 <= i < pattern.len() - 1 ==> !is_wildcard(#[trigger] pattern[i])
}

/// Whether a pattern matches a path whose segments stand at `spans`, from
/// segment `i` on. A literal segment matches the same bytes; a segment with
/// a colon matches any one segment that is not empty; a segment with an
/// asterisk matches whatever is left, if the segment at its place is not
/// empty. Pattern and path have to end together.
pub open spec fn matches_from(
    pattern: Seq<Seq<u8>>,
    path: Seq<u8>,
    spans: Seq<(int, int)>,
    i: int,
) -> bool
    decreases pattern.len() - i,
{
    if i < 0 {
        false
    } else if i >= pattern.len() || i >= spans.len() {
        i >= pattern.len() && i >= spans.len()
    } else {
        let part = path.subrange(spans[i].0, spans[i].1);
        if is_capture(pattern[i]) && part.len() > 0 {
            matches_from(pattern, path, spans, i + 1)
        } else if is_wildcard(pattern[i]) && part.len() > 0 {
            true
        } else {
            pattern[i] == part && matches_from(pattern, path, spans, i + 1)
        }
    }
}

/// The arguments that a pattern takes from a path, from segment `i` on, each
/// with its name and as it stands in the path. A segment with an asterisk
/// takes the path from the segment at its place to its end.
pub open spec fn captures_from(
    pattern: Seq<Seq<u8>>,
    path: Seq<u8>,
    spans: Seq<(int, int)>,
    i: int,
) -> Seq<(Seq<u8>, Seq<u8>)>
    decreases pattern.len() - i,
{
    if i < 0 || i >= pattern.len() || i >= spans.len() {
        Seq::empty()
    } else {
        let part = path.subrange(spans[i].0, spans[i].1);
        if is_capture(pattern[i]) && part.len() > 0 {
            seq![(capture_name(pattern[i]), part)] + captures_from(pattern, path, spans, i + 1)
        } else if is_wildcard(pattern[i]) && part.len() > 0 {
            seq![(capture_name(pattern[i]), path.skip(spans[i].0))]
        } else {
            captures_from(pattern, path, spans, i + 1)
        }
    }
}

/// Whether a pattern matches a path.
pub open spec fn route_matches(pattern: Seq<Seq<u8>>, path: Seq<u8>) -> bool {
    matches_from(pattern, path, segment_spans(path), 0)
}

/// The arguments that a pattern takes from a path.
pub open spec fn route_captures(pattern: Seq<Seq<u8>>, path: Seq<u8>) -> Seq<(Seq<u8>, Seq<u8>)> {
    captures_from(pattern, path, segment_spans(path), 0)
}

/// The arguments as they are recorded: each name with the decoded value.
/// An argument whose value cannot be decoded is not recorded.
pub open spec fn decoded(captures: Seq<(Seq<u8>, Seq<u8>)>) -> Seq<(Seq<char>, Seq<char>)>
    decreases captures.len(),
{
    if captures.len() == 0 {
        Seq::empty()
    } else {
        match percent_decoded_text(captures.last().1) {
            Some(text) => decoded(captures.drop_last()).push(
                (decode_utf8(captures.last().0), text),
            ),
            None => decoded(captures.drop_last()),
        }
    }
}

/// Round trip of an argument. Where a segment of the path is the escaped
/// form of a text of at most `MAX_ESCAPES` bytes, the argument that is
/// recorded for it is that text; and a segment without a percent sign is
/// recorded as it is.
pub proof fn lemma_capture_round_trip(name: Seq<u8>, text: Seq<char>)
    ensures
        encode_utf8(text).len() <= MAX_ESCAPES ==> decoded(
            seq![(name, percent_encoded(encode_utf8(text)))],
        ) == seq![(decode_utf8(name), text)],
        (forall|i: int| 0 <= i < encode_utf8(text).len() ==> encode_utf8(text)[i] != 0x25)
            ==> decoded(seq![(name, encode_utf8(text))]) == seq![(decode_utf8(name), text)],
{
    let none = Seq::<(Seq<u8>, Seq<u8>)>::empty();
    assert(decoded(none) =~= Seq::empty());
    if encode_utf8(text).len() <= MAX_ESCAPES {
        lemma_decode_encoded_text(text);
        let one = seq![(name, percent_encoded(encode_utf8(text)))];
        assert(one.drop_last() =~= none);
        assert(decoded(one) =~= seq![(decode_utf8(name), text)]);
    }
    if forall|i: int| 0 <= i < encode_utf8(text).len() ==> encode_utf8(text)[i] != 0x25 {
        lemma_decode_plain(encode_utf8(text), MAX_ESCAPES as nat);
        encode_utf8_valid_utf8(text);
        encode_utf8_decode_utf8(text);
        let one = seq![(name, encode_utf8(text))];
        assert(one.drop_last() =~= none);
        assert(decoded(one) =~= seq![(decode_utf8(name), text)]);
    }
}

/// A map after the given pairs were inserted into it, one after the other.
pub open spec fn with_pairs(
    map: Map<Seq<char>, Seq<char>>,
    pairs: Seq<(Seq<char>, Seq<char>)>,
) -> Map<Seq<char>, Seq<char>>
    decreases pairs.len(),
{
    if pairs.len() == 0 {
        map
    } else {
        with_pairs(map, pairs.drop_last()).insert(pairs.last().0, pairs.last().1)
    }
}

/// The segments of a pattern.
pub fn pattern_to_vec(pattern: &str) -> (compiled: Vec<Vec<u8>>)
    ensures
        rows(compiled@) == segments(pattern.spec_bytes()),
        forall|i: int| 0 <= i < compiled@.len() ==> valid_utf8(#[trigger] compiled@[i]@),
{
    let bytes = pattern.as_bytes();
    let spans = split_path(bytes);
    let mut compiled: Vec<Vec<u8>> = Vec::new();
    let mut i: usize = 0;
    proof {
        encode_utf8_valid_utf8(pattern@);
    }
    while i < spans.len()
        invariant
            i <= spans@.len(),
            compiled@.len() == i,
            cut_well(bytes@, spans@),
            valid_utf8(bytes@),
            forall|k: int|
                0 <= k < i ==> (#[trigger] compiled@[k])@ == bytes@.subrange(
                    spans@[k].0 as int,
                    spans@[k].1 as int,
                ),
            forall|k: int| 0 <= k < i ==> valid_utf8(#[trigger] compiled@[k]@),
        decreases spans@.len() - i,
    {
        let span = spans[i];
        proof {
            assert(spans@[i as int] == span);
            lemma_piece_is_utf8(bytes@, span.0 as int, span.1 as int);
        }
        compiled.push(copy_bytes(bytes, span.0, span.1));
        i += 1;
    }
    proof {
        assert(places(spans@).len() == spans@.len());
        assert forall|k: int| 0 <= k < compiled@.len() implies rows(compiled@)[k] == segments(
            bytes@,
        )[k] by {
            assert(places(spans@)[k] == (spans@[k].0 as int, spans@[k].1 as int));
        }
        assert(rows(compiled@) =~= segments(bytes@));
    }
    compiled
}

/// Matches a pattern against a path whose segments stand at `spans`. Where
/// the pattern matches, the arguments that it takes come back, decoded.
pub fn match_route(pattern: &Vec<Vec<u8>>, path: &[u8], spans: &Vec<(usize, usize)>) -> (found:
    Option<Vec<(String, String)>>)
    requires
        cut_well(path@, spans@),
        forall|i: int| 0 <= i < pattern@.len() ==> valid_utf8(#[trigger] pattern@[i]@),
    ensures
        found is Some <==> matches_from(rows(pattern@), path@, places(spans@), 0),
        found matches Some(pairs) ==> pair_texts(pairs@) == decoded(
            captures_from(rows(pattern@), path@, places(spans@), 0),
        ),
{
    let mut pairs: Vec<(String, String)> = Vec::new();
    let ghost mut done: Seq<(Seq<u8>, Seq<u8>)> = Seq::empty();
    let ghost segs = rows(pattern@);
    let ghost at = places(spans@);
    let mut i: usize = 0;
    proof {
        assert(done + captures_from(segs, path@, at, 0) =~= captures_from(segs, path@, at, 0));
        assert(pair_texts(pairs@) =~= decoded(done));
    }
    loop
        invariant
            i <= pattern@.len(),
            i <= spans@.len(),
            segs == rows(pattern@),
            at == places(spans@),
            cut_well(path@, spans@),
            forall|k: int| 0 <= k < pattern@.len() ==> valid_utf8(#[trigger] pattern@[k]@),
            matches_from(segs, path@, at, 0) == matches_from(segs, path@, at, i as int),
            captures_from(segs, path@, at, 0) == done + captures_from(segs, path@, at, i as int),
            pair_texts(pairs@) == decoded(done),
        decreases pattern@.len() - i,
    {
        if i >= pattern.len() || i >= spans.len() {
            proof {
                assert(done + Seq::<(Seq<u8>, Seq<u8>)>::empty() =~= done);
            }
            if i >= pattern.len() && i >= spans.len() {
                return Some(pairs);
            } else {
                return None;
            }
        }
        let segment = pattern[i].as_slice();
        let span = spans[i];
        proof {
            assert(spans@[i as int] == span);
            assert(segs[i as int] == segment@);
            assert(at[i as int] == (span.0 as int, span.1 as int));
        }
        let part = slice_subrange(path, span.0, span.1);
        let marked = segment.len() > 0 && (segment[0] == 0x3a || segment[0] == 0x2a) && span.1
            > span.0;
        if marked {
            let skip = find(segment, 0, Stop::Not(segment[0]));
            proof {
                assert(valid_utf8(pattern@[i as int]@));
                lemma_piece_is_utf8(segment@, skip as int, segment@.len() as int);
                assert(segment@.subrange(skip as int, segment@.len() as int) =~= capture_name(
                    segment@,
                ));
            }
            let name = text_of(slice_subrange(segment, skip, segment.len()));
            let whole = segment[0] == 0x2a;
            let raw = if whole {
                slice_subrange(path, span.0, path.len())
            } else {
                part
            };
            proof {
                if whole {
                    assert(raw@ =~= path@.skip(span.0 as int));
                }
                let capture = (capture_name(segment@), raw@);
                assert(done.push(capture).drop_last() =~= done);
                if !whole {
                    assert(done + (seq![capture] + captures_from(segs, path@, at, i + 1))
                        =~= done.push(capture) + captures_from(segs, path@, at, i + 1));
                } else {
                    assert(done + seq![capture] =~= done.push(capture));
                }
                done = done.push(capture);
            }
            let ghost before = pairs@;
            match percent_decode_bytes(raw) {
                Some(value) => {
                    pairs.push((name.to_owned(), value));
                    assert(pair_texts(pairs@) =~= pair_texts(before).push((name@, value@)));
                },
                None => {},
            }
            if whole {
                return Some(pairs);
            }
            i += 1;
        } else if bytes_eq(segment, part) {
            i += 1;
        } else {
            return None;
        }
    }
}

/// One route, as plain values.
pub struct RouteView<A> {
    /// The method that the route is for.
    pub method: Method,
    /// The segments of the pattern.
    pub pattern: Seq<Seq<u8>>,
    /// What the route leads to.
    pub action: A,
}

/// One route.
pub struct Route<A> {
    method: Method,
    pattern: Vec<Vec<u8>>,
    action: A,
}

impl<A> View for Route<A> {
    type V = RouteView<A>;

    closed spec fn view(&self) -> RouteView<A> {
        RouteView { method: self.method, pattern: rows(self.pattern@), action: self.action }
    }
}

/// The routes of an application, in the order in which they were inserted.
/// `A` is what a route leads to: a handler, or whatever the application
/// keeps for one.
pub struct Router<A> {
    table: Vec<Route<A>>,
}

impl<A> View for Router<A> {
    type V = Seq<RouteView<A>>;

    closed spec fn view(&self) -> Seq<RouteView<A>> {
        self.table@.map_values(|r: Route<A>| r@)
    }
}

/// The method of a request: the one that its method text names, and GET
/// where the text names none.
pub open spec fn request_method(v: RequestView) -> Method {
    match method_named(span_text(v.method, v.buffer)) {
        Some(m) => m,
        None => Method::GET,
    }
}

/// The first route at or after place `i` that is for the method and whose
/// pattern matches the path.
pub open spec fn first_match<A>(
    table: Seq<RouteView<A>>,
    method: Method,
    path: Seq<u8>,
    i: int,
) -> Option<int>
    decreases table.len() - i,
{
    if i < 0 || i >= table.len() {
        None
    } else if table[i].method == method && route_matches(table[i].pattern, path) {
        Some(i)
    } else {
        first_match(table, method, path, i + 1)
    }
}

/// First match wins. The route that is found is for the method and matches
/// the path, and no route before it does; where none is found, no route of
/// the table does.
pub proof fn lemma_first_match<A>(table: Seq<RouteView<A>>, method: Method, path: Seq<u8>, i: int)
    requires
        0 <= i,
    ensures
        match first_match(table, method, path, i) {
            Some(k) => i <= k < table.len() && table[k].method == method && route_matches(
                table[k].pattern,
                path,
            ) && forall|j: int|
                i <= j < k ==> !((#[trigger] table[j]).method == method && route_matches(
                    table[j].pattern,
                    path,
                )),
            None => forall|j: int|
                i <= j < table.len() ==> !((#[trigger] table[j]).method == method
                    && route_matches(table[j].pattern, path)),
        },
    decreases table.len() - i,
{
    if i < table.len() && !(table[i].method == method && route_matches(table[i].pattern, path)) {
        lemma_first_match(table, method, path, i + 1);
    }
}

/// Whether nothing follows a segment that takes the rest of the path.
pub fn check_pattern(pattern: &Vec<Vec<u8>>) -> (ok: bool)
    ensures
        ok == pattern_ok(rows(pattern@)),
{
    let mut i: usize = 0;
    while i < pattern.len() && i < pattern.len() - 1
        invariant
            forall|k: int| 0 <= k < i && k < pattern@.len() - 1 ==> !is_wildcard(
                #[trigger] rows(pattern@)[k],
            ),
        decreases pattern@.len() - i,
    {
        let segment = pattern[i].as_slice();
        assert(rows(pattern@)[i as int] == segment@);
        if segment.len() > 0 && segment[0] == 0x2a {
            return false;
        }
        i += 1;
    }
    true
}

/// Records the given arguments in a request, one after the other.
pub fn record_args(req: &mut Request, pairs: &Vec<(String, String)>)
    ensures
        final(req)@ == (RequestView {
            args: with_pairs(old(req)@.args, pair_texts(pairs@)),
            ..old(req)@
        }),
{
    let mut i: usize = 0;
    assert(pair_texts(pairs@).take(0) =~= Seq::<(Seq<char>, Seq<char>)>::empty());
    while i < pairs.len()
        invariant
            i <= pairs@.len(),
            req@ == (RequestView {
                args: with_pairs(old(req)@.args, pair_texts(pairs@).take(i as int)),
                ..old(req)@
            }),
        decreases pairs@.len() - i,
    {
        proof {
            let longer = pair_texts(pairs@).take(i + 1);
            assert(longer.drop_last() =~= pair_texts(pairs@).take(i as int));
            assert(longer.last() == (pairs@[i as int].0@, pairs@[i as int].1@));
        }
        req.set_arg(pairs[i].0.clone(), pairs[i].1.clone());
        i += 1;
    }
    assert(pair_texts(pairs@).take(i as int) =~= pair_texts(pairs@));
}

impl<A> Router<A> {
    #[verifier::type_invariant]
    spec fn well_formed(&self) -> bool {
        forall|i: int|
            0 <= i < self.table@.len() ==> {
                &&& pattern_ok(rows((#[trigger] self.table@[i]).pattern@))
                &&& forall|k: int|
                    0 <= k < self.table@[i].pattern@.len() ==> valid_utf8(
                        #[trigger] self.table@[i].pattern@[k]@,
                    )
            }
    }

    /// A router without routes.
    pub fn new() -> (router: Router<A>)
        ensures
            router@ == Seq::<RouteView<A>>::empty(),
    {
        let router = Router { table: Vec::new() };
        assert(router@ =~= Seq::<RouteView<A>>::empty());
        router
    }

    /// Adds a route at the end of the table. Routes that are there stay as
    /// they are. A pattern in which something follows a segment with an
    /// asterisk is refused: the table stays as it is, and the answer is
    /// `false`.
    pub fn insert<T: Into<Method>>(&mut self, method: T, pattern: &str, action: A) -> (inserted:
        bool)
        ensures
            inserted == pattern_ok(segments(pattern.spec_bytes())),
            !inserted ==> final(self)@ == old(self)@,
            inserted ==> final(self)@.len() == old(self)@.len() + 1 && final(self)@.drop_last()
                == old(self)@ && final(self)@.last().pattern == segments(pattern.spec_bytes())
                && final(self)@.last().action == action,
            inserted && T::obeys_into_spec() ==> final(self)@.last().method == method.into_spec(),
    {
        proof {
            use_type_invariant(&*self);
        }
        let compiled = pattern_to_vec(pattern);
        if !check_pattern(&compiled) {
            return false;
        }
        let method: Method = method.into();
        let ghost before = self@;
        let mut taken = Router { table: Vec::new() };
        core::mem::swap(self, &mut taken);
        let mut table = taken.table;
        let ghost old_table = table@;
        table.push(Route { method, pattern: compiled, action });
        proof {
            assert forall|i: int| 0 <= i < table@.len() implies {
                &&& pattern_ok(rows((#[trigger] table@[i]).pattern@))
                &&& forall|k: int|
                    0 <= k < table@[i].pattern@.len() ==> valid_utf8(
                        #[trigger] table@[i].pattern@[k]@,
                    )
            } by {
                if i < old_table.len() {
                    assert(table@[i] == old_table[i]);
                }
            }
        }
        *self = Router { table };
        proof {
            assert(self@.drop_last() =~= before);
        }
        true
    }

    /// The action of the first route that is for the method of the request
    /// and whose pattern matches its path. The arguments that the pattern
    /// takes from the path are recorded in the request. Where no route
    /// matches there is no action, and the request stays as it is.
    pub fn action_for(&self, req: &mut Request) -> (action: Option<&A>)
        ensures
            match first_match(self@, request_method(old(req)@), old(req)@.path_bytes(), 0) {
                Some(i) => action == Some(&self@[i].action) && final(req)@ == (RequestView {
                    args: with_pairs(
                        old(req)@.args,
                        decoded(route_captures(self@[i].pattern, old(req)@.path_bytes())),
                    ),
                    ..old(req)@
                }),
                None => action is None && final(req)@ == old(req)@,
            },
    {
        proof {
            use_type_invariant(self);
        }
        let method = match Method::from_name(req.method()) {
            Ok(method) => method,
            Err(_) => Method::GET,
        };
        let path = req.path().as_bytes();
        let spans = split_path(path);
        let mut found: Option<(usize, Vec<(String, String)>)> = None;
        let mut i: usize = 0;
        while i < self.table.len() && found.is_none()
            invariant
                i <= self.table@.len(),
                self@ == self.table@.map_values(|r: Route<A>| r@),
                self.well_formed(),
                path@ == old(req)@.path_bytes(),
                places(spans@) == segment_spans(path@),
                cut_well(path@, spans@),
                method == request_method(old(req)@),
                match found {
                    Some((at, pairs)) => first_match(self@, method, path@, 0) == Some(at as int)
                        && at < self.table@.len() && pair_texts(pairs@) == decoded(
                        route_captures(self@[at as int].pattern, path@),
                    ),
                    None => first_match(self@, method, path@, 0) == first_match(
                        self@,
                        method,
                        path@,
                        i as int,
                    ),
                },
            decreases self.table@.len() - i + if found is None { 1int } else { 0int },
        {
            let route = &self.table[i];
            assert(self@[i as int] == route@);
            if route.method == method {
                match match_route(&route.pattern, path, &spans) {
                    Some(pairs) => {
                        found = Some((i, pairs));
                    },
                    None => {
                        i += 1;
                    },
                }
            } else {
                i += 1;
            }
        }
        match found {
            Some((at, pairs)) => {
                record_args(req, &pairs);
                Some(&self.table[at].action)
            },
            None => None,
        }
    }
}

} // verus!
