//! Streamed answers: the payloads carried by one chunk of a server-sent
//! event stream, and the state kept while the answer grows.
//!
//! While an answer streams in, its text is accumulated; the text so far
//! (with its HTML rendering) is sent on to the window at most once every
//! 200 milliseconds, and once more, in full, when the answer is finished.
use vstd::prelude::*;
use vstd::string::StringSliceAdditionalSpecFns;
use vstd::utf8::{decode_utf8, encode_utf8_decode_utf8, valid_utf8};
use crate::outside::{markdown_html, markdown_to_html, utc_now, utf8_str};
use crate::text::{
    contains, is_white_space, lemma_framed_absent, lemma_remove_all_absent, lemma_split_all_absent,
    lemma_trim_end, lemma_trim_start, remove_all, split_all, str_remove_all, str_split_all, str_trim,
    trim, trim_end, trim_start, views, glue, lemma_split_prefix, starts_with, lemma_find,
};

verus! {

// ---------------------------------------------------------------------
// Server-sent event payloads
// ---------------------------------------------------------------------

/// A piece of an event stream stripped of `[DONE]` and of surrounding
/// white space.
pub open spec fn sse_payload(piece: Seq<char>) -> Seq<char> {
    trim(remove_all(piece, "[DONE]"@))
}

/// The non-empty payloads of the pieces, in order.
pub open spec fn sse_payloads(pieces: Seq<Seq<char>>) -> Seq<Seq<char>>
    decreases pieces.len(),
{
    if pieces.len() == 0 {
        Seq::<Seq<char>>::empty()
    } else {
        let rest = sse_payloads(pieces.drop_last());
        let p = sse_payload(pieces.last());
        if p.len() > 0 {
            rest.push(p)
        } else {
            rest
        }
    }
}

/// The JSON payloads carried by one chunk of the stream: the chunk is
/// split at every `data:`, and every piece that holds more than `[DONE]`
/// and white space gives its payload.
pub open spec fn chunk_payloads(text: Seq<char>) -> Seq<Seq<char>> {
    sse_payloads(split_all(text, "data:"@))
}

/// The JSON payloads of a chunk of text.
pub fn text_payloads(text: &str) -> (res: Vec<String>)
    ensures
        views(res@) == chunk_payloads(text@),
{
    let data = "data:";
    proof {
        reveal_strlit("data:");
    }
    let pieces = str_split_all(text, data);
    let mut out: Vec<String> = Vec::new();
    let n = pieces.len();
    assert(views(pieces@).take(0) =~= Seq::<Seq<char>>::empty());
    for i in 0..n
        invariant
            n == pieces.len(),
            views(pieces@) == split_all(text@, "data:"@),
            views(out@) == sse_payloads(views(pieces@).take(i as int)),
    {
        let ghost segs = views(pieces@);
        let stripped = str_remove_all(pieces[i].as_str(), "[DONE]");
        let payload = str_trim(stripped.as_str());
        proof {
            assert(segs.take(i + 1).drop_last() =~= segs.take(i as int));
            assert(segs.take(i + 1).last() == pieces@[i as int]@);
        }
        if !payload.as_str().is_empty() {
            let ghost old_out = out@;
            out.push(payload);
            assert(views(out@) =~= views(old_out).push(payload@));
        }
    }
    assert(views(pieces@).take(n as int) =~= views(pieces@));
    out
}

/// The JSON payloads of one chunk of bytes received from the stream,
/// which must be UTF-8.
pub fn chunk_payloads_of(bytes: &[u8]) -> (res: Vec<String>)
    requires
        valid_utf8(bytes@),
    ensures
        views(res@) == chunk_payloads(decode_utf8(bytes@)),
{
    let text = utf8_str(bytes).unwrap();
    proof {
        encode_utf8_decode_utf8(text@);
    }
    text_payloads(text)
}

// ---------------------------------------------------------------------
// Accumulating an answer
// ---------------------------------------------------------------------

/// The least gap, in nanoseconds, after which the text so far is sent on
/// again.
pub const EMIT_INTERVAL_NANOS: i128 = 200_000_000;

/// An instant as nanoseconds since the Unix epoch.
pub open spec fn instant_nanos(secs: i64, nanos: u32) -> int {
    secs * 1_000_000_000 + nanos
}

/// The current instant as nanoseconds since the Unix epoch. Which instant
/// that is, the clock decides.
pub fn now_nanos() -> (res: i128)
    ensures
        exists|secs: i64, nanos: u32|
            nanos < 2_000_000_000 && res == #[trigger] instant_nanos(secs, nanos),
{
    let (secs, nanos) = utc_now();
    assert(-0x8000_0000_0000_0000 * 1_000_000_000 <= secs * 1_000_000_000 <= 0x7fff_ffff_ffff_ffff
        * 1_000_000_000) by (nonlinear_arith)
        requires
            -0x8000_0000_0000_0000 <= secs <= 0x7fff_ffff_ffff_ffff,
    ;
    let res = secs as i128 * 1_000_000_000 + nanos as i128;
    assert(res == instant_nanos(secs, nanos));
    res
}

/// The text so far and its rendering, as sent on to the window.
pub struct Chunk {
    pub response: String,
    pub response_html: String,
}

/// The state of an answer being streamed.
pub struct StreamState {
    response: String,
    last_emit: i128,
    failed: bool,
}

impl StreamState {
    /// The text received so far.
    pub closed spec fn text(&self) -> Seq<char> {
        self.response@
    }

    /// When the text was last sent on (or the stream started).
    pub closed spec fn last_emit(&self) -> int {
        self.last_emit as int
    }

    /// Whether the stream has reported an error.
    pub closed spec fn failed(&self) -> bool {
        self.failed
    }

    /// A stream that starts at `start`.
    pub fn new_at(start: i128) -> (res: StreamState)
        ensures
            res.text() == Seq::<char>::empty(),
            res.last_emit() == start,
            !res.failed(),
    {
        StreamState { response: String::new(), last_emit: start, failed: false }
    }

    /// A stream that starts now: nothing received yet, and the text counts
    /// as last sent on at the instant the clock reads when it starts.
    pub fn start() -> (res: StreamState)
        ensures
            res.text() == Seq::<char>::empty(),
            !res.failed(),
            exists|secs: i64, nanos: u32|
                nanos < 2_000_000_000 && res.last_emit() == #[trigger] instant_nanos(secs, nanos),
    {
        StreamState::new_at(now_nanos())
    }

    /// The text so far, with its rendering.
    pub fn snapshot(&self) -> (res: Chunk)
        ensures
            res.response@ == self.text(),
            res.response_html@ == markdown_html(self.text()),
    {
        let html = markdown_to_html(self.response.as_str());
        Chunk { response: self.response.clone(), response_html: html }
    }

    /// Takes a piece of text that arrived at `now`: it is appended, and the
    /// text so far is sent on when more than 200 ms have passed since it
    /// was last sent on.
    pub fn on_delta(&mut self, delta: &str, now: i128) -> (res: Option<Chunk>)
        ensures
            final(self).text() == old(self).text() + delta@,
            final(self).failed() == old(self).failed(),
            now - old(self).last_emit() > EMIT_INTERVAL_NANOS ==> {
                &&& final(self).last_emit() == now
                &&& res matches Some(c) && c.response@ == final(self).text() && c.response_html@
                    == markdown_html(final(self).text())
            },
            now - old(self).last_emit() <= EMIT_INTERVAL_NANOS ==> {
                &&& final(self).last_emit() == old(self).last_emit()
                &&& res is None
            },
    {
        self.response.append(delta);
        let due = if self.last_emit <= i128::MAX - EMIT_INTERVAL_NANOS {
            now > self.last_emit + EMIT_INTERVAL_NANOS
        } else {
            false
        };
        if due {
            self.last_emit = now;
            Some(self.snapshot())
        } else {
            None
        }
    }

    /// Takes a piece of text that arrives now, as `on_delta` does with the
    /// instant the clock reads: the text so far is sent on only when more
    /// than 200 ms have passed since it was last sent on, and that instant
    /// becomes the last one it was sent on.
    pub fn on_delta_now(&mut self, delta: &str) -> (res: Option<Chunk>)
        ensures
            final(self).text() == old(self).text() + delta@,
            final(self).failed() == old(self).failed(),
            res matches Some(c) ==> (c.response@ == final(self).text() && c.response_html@
                == markdown_html(final(self).text())),
            res is Some ==> final(self).last_emit() > old(self).last_emit() + EMIT_INTERVAL_NANOS,
            res is None ==> final(self).last_emit() == old(self).last_emit(),
            exists|secs: i64, nanos: u32|
                {
                    let now = #[trigger] instant_nanos(secs, nanos);
                    &&& nanos < 2_000_000_000
                    &&& now - old(self).last_emit() > EMIT_INTERVAL_NANOS ==> (res is Some
                        && final(self).last_emit() == now)
                    &&& now - old(self).last_emit() <= EMIT_INTERVAL_NANOS ==> res is None
                },
    {
        let now = now_nanos();
        self.on_delta(delta, now)
    }

    /// Takes one choice of a streamed completion that arrived at `now`: its
    /// text, when it has some, is taken as by `on_delta`; when the choice
    /// says the answer is finished, the whole text so far is sent on.
    pub fn on_choice(&mut self, content: Option<String>, finished: bool, now: i128) -> (res: (
        Option<Chunk>,
        Option<Chunk>,
    ))
        ensures
            final(self).failed() == old(self).failed(),
            match content {
                Some(c) => {
                    &&& final(self).text() == old(self).text() + c@
                    &&& now - old(self).last_emit() > EMIT_INTERVAL_NANOS ==> (final(self).last_emit()
                        == now && (res.0 matches Some(k) && k.response@ == final(self).text()))
                    &&& now - old(self).last_emit() <= EMIT_INTERVAL_NANOS ==> (final(self).last_emit()
                        == old(self).last_emit() && res.0 is None)
                },
                None => {
                    &&& final(self).text() == old(self).text()
                    &&& final(self).last_emit() == old(self).last_emit()
                    &&& res.0 is None
                },
            },
            res.0 matches Some(k) ==> k.response_html@ == markdown_html(final(self).text()),
            finished ==> (res.1 matches Some(k) && k.response@ == final(self).text()
                && k.response_html@ == markdown_html(final(self).text())),
            !finished ==> res.1 is None,
    {
        let chunk = match content {
            Some(c) => self.on_delta(c.as_str(), now),
            None => None,
        };
        let finish = if finished {
            Some(self.snapshot())
        } else {
            None
        };
        (chunk, finish)
    }

    /// Notes that the stream reported an error.
    pub fn on_error(&mut self)
        ensures
            final(self).text() == old(self).text(),
            final(self).last_emit() == old(self).last_emit(),
            final(self).failed(),
    {
        self.failed = true;
    }

    /// What is sent on when the stream ends: the whole text, unless the
    /// stream reported an error.
    pub fn on_end(&self) -> (res: Option<Chunk>)
        ensures
            self.failed() ==> res is None,
            !self.failed() ==> (res matches Some(k) && k.response@ == self.text()
                && k.response_html@ == markdown_html(self.text())),
    {
        if self.failed {
            None
        } else {
            Some(self.snapshot())
        }
    }
}

} // verus!

verus! {

/// The pieces of text joined in order.
pub open spec fn joined(pieces: Seq<Seq<char>>) -> Seq<char>
    decreases pieces.len(),
{
    if pieces.len() == 0 {
        Seq::empty()
    } else {
        joined(pieces.drop_last()) + pieces.last()
    }
}

/// The text of a stream is every piece received, in order: along a run of
/// states that starts empty and where each state is the previous one after
/// `on_delta` (or `on_delta_now`, or `on_choice` with that content) took
/// the next piece, the last state holds all pieces joined.
pub proof fn lemma_stream_text_is_all_pieces(states: Seq<StreamState>, pieces: Seq<Seq<char>>)
    requires
        states.len() == pieces.len() + 1,
        states[0].text() == Seq::<char>::empty(),
        forall|i: int|
            0 <= i < pieces.len() ==> #[trigger] states[i + 1].text() == states[i].text() + pieces[i],
    ensures
        states.last().text() == joined(pieces),
    decreases pieces.len(),
{
    if pieces.len() == 0 {
    } else {
        let n = pieces.len() - 1;
        let s2 = states.drop_last();
        let p2 = pieces.drop_last();
        assert forall|i: int| 0 <= i < p2.len() implies #[trigger] s2[i + 1].text() == s2[i].text()
            + p2[i] by {
            assert(states[i + 1].text() == states[i].text() + pieces[i]);
        }
        lemma_stream_text_is_all_pieces(s2, p2);
        assert(states[n + 1].text() == states[n].text() + pieces[n]);
    }
}

} // verus!

verus! {

/// A chunk in which `data:` does not occur is a single piece: it gives its
/// payload when that is not empty, whether or not it ends the chunk.
pub proof fn lemma_single_piece_chunk(text: Seq<char>)
    requires
        !contains(text, "data:"@),
    ensures
        sse_payload(text).len() > 0 ==> chunk_payloads(text) == seq![sse_payload(text)],
        sse_payload(text).len() == 0 ==> chunk_payloads(text) == Seq::<Seq<char>>::empty(),
{
    lemma_split_all_absent(text, "data:"@);
    let pieces = seq![text];
    assert(pieces.drop_last() =~= Seq::<Seq<char>>::empty());
    assert(pieces.last() == text);
    assert(sse_payloads(pieces.drop_last()) == Seq::<Seq<char>>::empty());
    assert(Seq::<Seq<char>>::empty().push(sse_payload(text)) =~= seq![sse_payload(text)]);
}

/// One ordinary event in a chunk, `data: <json>` followed by a blank line,
/// gives exactly that JSON text, for every non-empty JSON text that holds
/// no `data:` and no `[DONE]` and neither starts nor ends with white space.
pub proof fn lemma_one_event_chunk(json: Seq<char>)
    requires
        json.len() > 0,
        !contains(json, "data:"@),
        !contains(json, "[DONE]"@),
        !is_white_space(json[0]),
        !is_white_space(json.last()),
    ensures
        chunk_payloads("data: "@ + json + "\n\n"@) == seq![json],
{
    let jsons = seq![json];
    assert(plain_json(jsons[0]));
    lemma_events_chunk(jsons);
    assert(jsons.drop_first() =~= Seq::<Seq<char>>::empty());
    assert(sse_events(jsons.drop_first()) == Seq::<char>::empty());
    assert(sse_events(jsons) =~= "data: "@ + json + "\n\n"@);
}

/// One event of a stream: `data: `, the JSON text and a blank line.
pub open spec fn sse_event(json: Seq<char>) -> Seq<char> {
    "data: "@ + json + "\n\n"@
}

/// Events one after the other.
pub open spec fn sse_events(jsons: Seq<Seq<char>>) -> Seq<char>
    decreases jsons.len(),
{
    if jsons.len() == 0 {
        Seq::empty()
    } else {
        sse_event(jsons[0]) + sse_events(jsons.drop_first())
    }
}

/// A JSON text that an event can carry as it is: not empty, without
/// `data:` or `[DONE]`, and neither starting nor ending with white space.
pub open spec fn plain_json(json: Seq<char>) -> bool {
    &&& json.len() > 0
    &&& !contains(json, "data:"@)
    &&& !contains(json, "[DONE]"@)
    &&& !is_white_space(json[0])
    &&& !is_white_space(json.last())
}

/// What follows the `data:` of an event.
spec fn event_body(json: Seq<char>) -> Seq<char> {
    seq![' '] + json + "\n\n"@
}

/// The body of an event gives back its JSON text.
proof fn lemma_event_body_payload(json: Seq<char>)
    requires
        plain_json(json),
    ensures
        sse_payload(event_body(json)) == json,
{
    reveal_strlit("[DONE]");
    reveal_strlit("\n\n");
    let body = event_body(json);
    lemma_framed_absent(seq![' '], json, "\n\n"@, "[DONE]"@);
    lemma_remove_all_absent(body, "[DONE]"@);
    assert(is_white_space(body[0]));
    assert(body[1] == json[0]);
    lemma_trim_start(body, 1);
    let rest = body.skip(1);
    assert(rest =~= json + "\n\n"@);
    assert forall|j: int| json.len() <= j < rest.len() implies is_white_space(#[trigger] rest[j]) by {
        assert(rest[j] == '\n');
    }
    assert(rest[json.len() - 1] == json.last());
    lemma_trim_end(rest, json.len() as int);
    assert(rest.take(json.len() as int) =~= json);
}

/// `data:` starts nowhere inside the body of an event, whatever follows it.
proof fn lemma_no_data_in_body(json: Seq<char>, r: Seq<char>)
    requires
        plain_json(json),
    ensures
        forall|j: int|
            0 <= j < event_body(json).len() ==> !starts_with(
                #[trigger] (event_body(json) + r).skip(j),
                "data:"@,
            ),
{
    reveal_strlit("data:");
    reveal_strlit("\n\n");
    let p = "data:"@;
    let t = event_body(json);
    let s = t + r;
    let m: int = json.len() as int + 1;
    lemma_find(json, p);
    assert(s[m] == '\n');
    assert(s[m + 1] == '\n');
    assert forall|j: int| 0 <= j < t.len() implies !starts_with(#[trigger] s.skip(j), p) by {
        if starts_with(s.skip(j), p) {
            let w = s.skip(j).take(5);
            assert(w == p);
            if j == 0 {
                assert(w[0] == s[0]);
            } else if j + 5 <= m {
                assert(json.skip(j - 1).take(5) =~= w);
            } else if j <= m {
                assert(w[m - j] == s[m]);
            } else {
                assert(w[0] == s[j]);
                assert(j == m + 1);
            }
        }
    }
}

/// The pieces of a run of events: the empty text before the first `data:`,
/// then the body of each event.
proof fn lemma_events_split(jsons: Seq<Seq<char>>)
    requires
        forall|i: int| 0 <= i < jsons.len() ==> plain_json(#[trigger] jsons[i]),
    ensures
        split_all(sse_events(jsons), "data:"@) == seq![Seq::<char>::empty()] + Seq::new(
            jsons.len(),
            |i: int| event_body(jsons[i]),
        ),
    decreases jsons.len(),
{
    reveal_strlit("data:");
    reveal_strlit("data: ");
    let p = "data:"@;
    let bodies = Seq::new(jsons.len(), |i: int| event_body(jsons[i]));
    if jsons.len() == 0 {
        assert(bodies =~= Seq::<Seq<char>>::empty());
        assert(seq![Seq::<char>::empty()] + bodies =~= seq![Seq::<char>::empty()]);
    } else {
        let rest = jsons.drop_first();
        assert forall|i: int| 0 <= i < rest.len() implies plain_json(#[trigger] rest[i]) by {
            assert(rest[i] == jsons[i + 1]);
        }
        lemma_events_split(rest);
        let tail = sse_events(rest);
        let e = sse_events(jsons);
        let t = event_body(jsons[0]);
        assert(e == sse_event(jsons[0]) + tail);
        assert(e.take(5) =~= p);
        assert(e.skip(5) =~= t + tail);
        assert(e.len() > 0);
        assert(split_all(e, p) == seq![Seq::<char>::empty()] + split_all(t + tail, p));
        lemma_no_data_in_body(jsons[0], tail);
        lemma_split_prefix(t, tail, p);
        let rb = Seq::new(rest.len(), |i: int| event_body(rest[i]));
        let st = seq![Seq::<char>::empty()] + rb;
        assert(split_all(tail, p) == st);
        assert(glue(t, st) =~= seq![t] + rb);
        assert(bodies =~= seq![t] + rb);
        assert(seq![Seq::<char>::empty()] + (seq![t] + rb) =~= seq![Seq::<char>::empty()] + bodies);
    }
}

/// The payloads of pieces one after the other are the payloads of each.
proof fn lemma_payloads_concat(a: Seq<Seq<char>>, b: Seq<Seq<char>>)
    ensures
        sse_payloads(a + b) == sse_payloads(a) + sse_payloads(b),
    decreases b.len(),
{
    if b.len() == 0 {
        assert(a + b =~= a);
        assert(sse_payloads(a) + sse_payloads(b) =~= sse_payloads(a));
    } else {
        assert((a + b).drop_last() =~= a + b.drop_last());
        assert((a + b).last() == b.last());
        lemma_payloads_concat(a, b.drop_last());
        let p = sse_payload(b.last());
        if p.len() > 0 {
            assert(sse_payloads(a) + sse_payloads(b.drop_last()).push(p) =~= (sse_payloads(a)
                + sse_payloads(b.drop_last())).push(p));
        }
    }
}

/// The bodies of events give back their JSON texts, in order.
proof fn lemma_bodies_payloads(jsons: Seq<Seq<char>>)
    requires
        forall|i: int| 0 <= i < jsons.len() ==> plain_json(#[trigger] jsons[i]),
    ensures
        sse_payloads(Seq::new(jsons.len(), |i: int| event_body(jsons[i]))) == jsons,
    decreases jsons.len(),
{
    let bodies = Seq::new(jsons.len(), |i: int| event_body(jsons[i]));
    if jsons.len() == 0 {
    } else {
        let front = jsons.drop_last();
        assert forall|i: int| 0 <= i < front.len() implies plain_json(#[trigger] front[i]) by {
            assert(front[i] == jsons[i]);
        }
        lemma_bodies_payloads(front);
        assert(bodies.drop_last() =~= Seq::new(front.len(), |i: int| event_body(front[i])));
        assert(bodies.last() == event_body(jsons.last()));
        assert(plain_json(jsons[jsons.len() - 1]));
        lemma_event_body_payload(jsons.last());
        assert(front.push(jsons.last()) =~= jsons);
    }
}

/// A chunk made of events, each `data: <json>` and a blank line, gives
/// exactly their JSON texts, in order, the last one included.
pub proof fn lemma_events_chunk(jsons: Seq<Seq<char>>)
    requires
        forall|i: int| 0 <= i < jsons.len() ==> plain_json(#[trigger] jsons[i]),
    ensures
        chunk_payloads(sse_events(jsons)) == jsons,
{
    lemma_events_split(jsons);
    let bodies = Seq::new(jsons.len(), |i: int| event_body(jsons[i]));
    let first = seq![Seq::<char>::empty()];
    lemma_payloads_concat(first, bodies);
    lemma_bodies_payloads(jsons);
    assert(first.drop_last() =~= Seq::<Seq<char>>::empty());
    assert(remove_all(Seq::<char>::empty(), "[DONE]"@) == Seq::<char>::empty());
    assert(trim_start(Seq::<char>::empty()) == Seq::<char>::empty());
    assert(trim_end(Seq::<char>::empty()) == Seq::<char>::empty());
    assert(sse_payload(Seq::<char>::empty()).len() == 0);
    assert(first.last() == Seq::<char>::empty());
    assert(sse_payloads(first.drop_last()) == Seq::<Seq<char>>::empty());
    assert(sse_payloads(first) == Seq::<Seq<char>>::empty());
    assert(Seq::<Seq<char>>::empty() + jsons =~= jsons);
}

} // verus!
