//! A connection's protocol: framed requests in, framed responses out.
//!
//! Framing (both directions): a 4-byte little-endian u32 length followed by
//! that many bytes of UTF-8 JSON.
use vstd::prelude::*;

use crate::text;

verus! {

// ---------------------------------------------------------------------------
// Frames
// ---------------------------------------------------------------------------
/// The four bytes of a number below 2^32, the lowest first.
pub open spec fn le_bytes(n: nat) -> Seq<u8> {
    seq![
        (n % 256) as u8,
        (n / 0x100 % 256) as u8,
        (n / 0x1_0000 % 256) as u8,
        (n / 0x100_0000 % 256) as u8,
    ]
}

/// The number of four bytes, the lowest first.
pub open spec fn le_value(bytes: Seq<u8>) -> nat {
    (bytes[0] + 0x100 * bytes[1] + 0x1_0000 * bytes[2] + 0x100_0000 * bytes[3]) as nat
}

/// A message as it is sent: its length, of which the header has room for the
/// lowest 32 bits, and its bytes.
pub open spec fn frame(body: Seq<u8>) -> Seq<u8> {
    le_bytes(body.len() % 0x1_0000_0000) + body
}

/// The first message of a stream of bytes and what follows it.
pub open spec fn unframe(stream: Seq<u8>) -> Option<(Seq<u8>, Seq<u8>)> {
    let size = le_value(stream.take(4)) as int;
    if stream.len() < 4 || stream.len() < 4 + size {
        None
    } else {
        Some((stream.subrange(4, 4 + size), stream.skip(4 + size)))
    }
}

/// The number of the header's four bytes.
pub fn header_size(header: &[u8; 4]) -> (r: u32)
    ensures
        r as nat == le_value(header@),
{
    (header[0] as u32) + 0x100 * (header[1] as u32) + 0x1_0000 * (header[2] as u32) + 0x100_0000
        * (header[3] as u32)
}

/// A message as it is sent.
pub fn to_frame(body: &[u8]) -> (r: Vec<u8>)
    ensures
        r@ == frame(body@),
{
    let size: u32 = (body.len() as u64 % 0x1_0000_0000) as u32;
    let mut out: Vec<u8> = Vec::new();
    out.push((size % 256) as u8);
    out.push((size / 0x100 % 256) as u8);
    out.push((size / 0x1_0000 % 256) as u8);
    out.push((size / 0x100_0000 % 256) as u8);
    proof {
        assert(out@ =~= le_bytes(body@.len() % 0x1_0000_0000));
        assert(body@.take(0) =~= Seq::<u8>::empty());
    }
    let mut i: usize = 0;
    while i < body.len()
        invariant
            i <= body@.len(),
            out@ == le_bytes(body@.len() % 0x1_0000_0000) + body@.take(i as int),
        decreases body@.len() - i,
    {
        out.push(body[i]);
        proof {
            assert(body@.take(i + 1) =~= body@.take(i as int).push(body@[i as int]));
            assert(out@ =~= le_bytes(body@.len() % 0x1_0000_0000) + body@.take(i + 1));
        }
        i = i + 1;
    }
    proof {
        assert(body@.take(i as int) =~= body@);
    }
    out
}

// ---------------------------------------------------------------------------
// The conversation
// ---------------------------------------------------------------------------
/// What happened on a connection: it was opened, a header or a body was read,
/// reading ended or failed, the response to a request is there (as JSON text,
/// unless it could not be written as such), or a response was sent.
#[derive(Debug)]
pub enum Event {
    Opened,
    Header([u8; 4]),
    Body(Vec<u8>),
    ReadFailed,
    Response(Option<String>),
    Sent,
}

/// What to do next on a connection: read a header, read a body of that size,
/// handle a request, send bytes, or close, with a line for the log where there
/// is one.
#[derive(Debug)]
pub enum Action {
    ReadHeader,
    ReadBody(u32),
    Handle(String),
    Send(Vec<u8>),
    Close(Option<String>),
}

/// What is logged of a packet that is too large.
pub open spec fn oversized(size: nat) -> Seq<char> {
    "Client max allowed packet size reached: "@ + text::decimal(size)
}

/// Whether `action` answers `event`. A request larger than `max` closes the
/// connection before any of its body is read; a response that cannot be
/// written as JSON is replaced by an empty object.
pub open spec fn answers(event: Event, max: u32, action: Action) -> bool {
    match event {
        Event::Opened | Event::Sent => action == Action::ReadHeader,
        Event::Header(header) => if le_value(header@) > max {
            action matches Action::Close(Some(line)) && line@ == oversized(le_value(header@))
        } else {
            action matches Action::ReadBody(size) && size as nat == le_value(header@)
        },
        Event::Body(bytes) => {
            &&& action matches Action::Handle(request)
            &&& request@ == text::utf8_lossy(bytes@)
            &&& vstd::utf8::valid_utf8(bytes@) ==> request@ == vstd::utf8::decode_utf8(bytes@)
        },
        Event::ReadFailed => action == Action::Close(None),
        Event::Response(Some(json)) => {
            &&& action matches Action::Send(bytes)
            &&& bytes@ == frame(vstd::utf8::encode_utf8(json@))
        },
        Event::Response(None) => {
            &&& action matches Action::Send(bytes)
            &&& bytes@ == frame(vstd::utf8::encode_utf8("{}"@))
        },
    }
}

/// Drive a single persistent connection: read framed requests, hand each to the
/// per-connection handler, and write the framed response. Requests on one
/// connection are processed sequentially.
pub fn handle(event: Event, max: u32) -> (action: Action)
    ensures
        answers(event, max, action),
{
    match event {
        Event::Opened | Event::Sent => Action::ReadHeader,
        Event::Header(header) => {
            let size: u32 = header_size(&header);
            if size > max {
                let number: String = text::decimal_string(size as u64);
                Action::Close(
                    Some(text::joined("Client max allowed packet size reached: ", &number)),
                )
            } else {
                Action::ReadBody(size)
            }
        },
        Event::Body(bytes) => Action::Handle(text::decode_lossy(&bytes)),
        Event::ReadFailed => Action::Close(None),
        Event::Response(Some(json)) => Action::Send(to_frame(json.as_str().as_bytes())),
        Event::Response(None) => Action::Send(to_frame("{}".as_bytes())),
    }
}

// ---------------------------------------------------------------------------
// Laws
// ---------------------------------------------------------------------------
/// The bytes of a number are read back as the number.
pub proof fn le_roundtrip(n: nat)
    requires
        n < 0x1_0000_0000,
    ensures
        le_value(le_bytes(n)) == n,
{
}

/// What is sent is what is received: the first message of a stream that starts
/// with a frame is the frame's body, and what follows the frame is left. The
/// body's length has to fit the header.
pub proof fn frame_roundtrip(body: Seq<u8>, rest: Seq<u8>)
    requires
        body.len() < 0x1_0000_0000,
    ensures
        unframe(frame(body) + rest) == Some((body, rest)),
{
    let stream = frame(body) + rest;
    le_roundtrip(body.len());
    assert(stream.take(4) =~= le_bytes(body.len()));
    assert(stream.subrange(4, 4 + body.len() as int) =~= body);
    assert(stream.skip(4 + body.len() as int) =~= rest);
}

/// Messages one after another, as they are sent.
pub open spec fn frames(bodies: Seq<Seq<u8>>) -> Seq<u8>
    decreases bodies.len(),
{
    if bodies.len() == 0 {
        Seq::empty()
    } else {
        frame(bodies[0]) + frames(bodies.drop_first())
    }
}

/// The messages of a stream of bytes, up to where it ends or breaks off.
pub open spec fn messages(stream: Seq<u8>) -> Seq<Seq<u8>>
    decreases stream.len(),
{
    match unframe(stream) {
        None => Seq::empty(),
        Some((body, rest)) => if rest.len() < stream.len() {
            seq![body] + messages(rest)
        } else {
            Seq::empty()
        },
    }
}

/// A conversation arrives as it was sent: message by message, in order.
pub proof fn frames_roundtrip(bodies: Seq<Seq<u8>>)
    requires
        forall|i: int| 0 <= i < bodies.len() ==> (#[trigger] bodies[i]).len() < 0x1_0000_0000,
    ensures
        messages(frames(bodies)) == bodies,
    decreases bodies.len(),
{
    if bodies.len() > 0 {
        let rest = bodies.drop_first();
        frame_roundtrip(bodies[0], frames(rest));
        assert forall|i: int| 0 <= i < rest.len() implies (#[trigger] rest[i]).len()
            < 0x1_0000_0000 by {
            assert(rest[i] == bodies[i + 1]);
        }
        frames_roundtrip(rest);
        assert(seq![bodies[0]] + rest =~= bodies);
    } else {
        assert(messages(frames(bodies)) =~= bodies);
    }
}

/// A request that is sent as UTF-8 is handled as the text that it is.
pub proof fn request_text_arrives(request: Seq<char>, bytes: Vec<u8>, max: u32, action: Action)
    requires
        bytes@ == vstd::utf8::encode_utf8(request),
        answers(Event::Body(bytes), max, action),
    ensures
        action matches Action::Handle(text) && text@ == request,
{
    vstd::utf8::encode_utf8_valid_utf8(request);
    vstd::utf8::encode_utf8_decode_utf8(request);
}

// ---------------------------------------------------------------------------
// Whole conversations
// ---------------------------------------------------------------------------
/// Whether an event can come of an action: a read brings what was asked for or
/// fails, a request has a response, what is sent is sent, and nothing comes of
/// closing.
pub open spec fn comes_of(action: Action, event: Event) -> bool {
    match action {
        Action::ReadHeader => event is Header || event is ReadFailed,
        Action::ReadBody(size) => match event {
            Event::Body(bytes) => bytes@.len() == size,
            _ => event is ReadFailed,
        },
        Action::Handle(_) => event is Response,
        Action::Send(_) => event is Sent,
        Action::Close(_) => false,
    }
}

/// A connection's events with the actions that answer them, from its opening
/// on: each event comes of the action before it.
pub open spec fn conversation(turns: Seq<(Event, Action)>, max: u32) -> bool {
    &&& turns.len() > 0
    &&& turns[0].0 == Event::Opened
    &&& forall|i: int|
        0 <= i < turns.len() ==> answers((#[trigger] turns[i]).0, max, turns[i].1)
    &&& forall|i: int|
        1 <= i < turns.len() ==> comes_of(turns[i - 1].1, (#[trigger] turns[i]).0)
}

/// The bytes that were read.
pub open spec fn received(turns: Seq<(Event, Action)>) -> Seq<u8>
    decreases turns.len(),
{
    if turns.len() == 0 {
        Seq::empty()
    } else {
        let earlier = received(turns.drop_last());
        match turns.last().0 {
            Event::Header(header) => earlier + header@,
            Event::Body(bytes) => earlier + bytes@,
            _ => earlier,
        }
    }
}

/// The bytes that were sent.
pub open spec fn sent(turns: Seq<(Event, Action)>) -> Seq<u8>
    decreases turns.len(),
{
    if turns.len() == 0 {
        Seq::empty()
    } else {
        let earlier = sent(turns.drop_last());
        match turns.last().1 {
            Action::Send(bytes) => earlier + bytes@,
            _ => earlier,
        }
    }
}

/// The bodies of the requests, as they were read.
pub open spec fn requests(turns: Seq<(Event, Action)>) -> Seq<Seq<u8>>
    decreases turns.len(),
{
    if turns.len() == 0 {
        Seq::empty()
    } else {
        let earlier = requests(turns.drop_last());
        match turns.last().0 {
            Event::Body(bytes) => earlier.push(bytes@),
            _ => earlier,
        }
    }
}

/// The texts that were handed on to be handled.
pub open spec fn handled(turns: Seq<(Event, Action)>) -> Seq<Seq<char>>
    decreases turns.len(),
{
    if turns.len() == 0 {
        Seq::empty()
    } else {
        let earlier = handled(turns.drop_last());
        match turns.last().1 {
            Action::Handle(request) => earlier.push(request@),
            _ => earlier,
        }
    }
}

/// The bodies of the responses, an empty object for one that could not be
/// written as JSON.
pub open spec fn responses(turns: Seq<(Event, Action)>) -> Seq<Seq<u8>>
    decreases turns.len(),
{
    if turns.len() == 0 {
        Seq::empty()
    } else {
        let earlier = responses(turns.drop_last());
        match turns.last().0 {
            Event::Response(Some(json)) => earlier.push(vstd::utf8::encode_utf8(json@)),
            Event::Response(None) => earlier.push(vstd::utf8::encode_utf8("{}"@)),
            _ => earlier,
        }
    }
}

proof fn lemma_digits(a: int, b: int, c: int, d: int)
    requires
        0 <= a < 256,
        0 <= b < 256,
        0 <= c < 256,
        0 <= d < 256,
    ensures
        ({
            let n = a + 0x100 * b + 0x1_0000 * c + 0x100_0000 * d;
            &&& 0 <= n < 0x1_0000_0000
            &&& n % 256 == a
            &&& n / 0x100 % 256 == b
            &&& n / 0x1_0000 % 256 == c
            &&& n / 0x100_0000 % 256 == d
        }),
{
    let n = a + 0x100 * b + 0x1_0000 * c + 0x100_0000 * d;
    assert(n / 0x100 == b + 0x100 * c + 0x1_0000 * d);
    assert(n / 0x1_0000 == c + 0x100 * d);
    assert(n / 0x100_0000 == d);
}

/// A number below 2^32 has one form in four bytes.
proof fn lemma_le_unique(bytes: Seq<u8>)
    requires
        bytes.len() == 4,
    ensures
        le_bytes(le_value(bytes)) == bytes,
        le_value(bytes) < 0x1_0000_0000,
{
    lemma_digits(bytes[0] as int, bytes[1] as int, bytes[2] as int, bytes[3] as int);
    assert(le_bytes(le_value(bytes)) =~= bytes);
}

proof fn lemma_frames_push(bodies: Seq<Seq<u8>>, body: Seq<u8>)
    ensures
        frames(bodies.push(body)) == frames(bodies) + frame(body),
    decreases bodies.len(),
{
    let all = bodies.push(body);
    if bodies.len() == 0 {
        assert(all.drop_first() =~= bodies);
        assert(frames(bodies) =~= Seq::<u8>::empty());
        assert(frames(all) =~= frames(bodies) + frame(body));
    } else {
        lemma_frames_push(bodies.drop_first(), body);
        assert(all.drop_first() =~= bodies.drop_first().push(body));
        assert(frames(all) =~= frames(bodies) + frame(body));
    }
}

proof fn lemma_conversation_start(turns: Seq<(Event, Action)>, max: u32)
    requires
        conversation(turns, max),
        turns.len() > 1,
    ensures
        conversation(turns.drop_last(), max),
        comes_of(turns.drop_last().last().1, turns.last().0),
        answers(turns.last().0, max, turns.last().1),
{
    let earlier = turns.drop_last();
    let n = turns.len() - 1;
    assert(answers(turns[n].0, max, turns[n].1));
    assert(comes_of(turns[n - 1].1, turns[n].0));
    assert forall|i: int| 0 <= i < earlier.len() implies answers(
        (#[trigger] earlier[i]).0,
        max,
        earlier[i].1,
    ) by {
        assert(answers(turns[i].0, max, turns[i].1));
    }
    assert forall|i: int| 1 <= i < earlier.len() implies comes_of(
        earlier[i - 1].1,
        (#[trigger] earlier[i]).0,
    ) by {
        assert(comes_of(turns[i - 1].1, turns[i].0));
    }
}

/// Of a whole conversation: the bytes sent are the frames of the responses, one
/// after the other. Every request has one response, in order, but for the last
/// one while it is handled; the texts handled are those of the requests.
pub proof fn every_request_has_one_response(turns: Seq<(Event, Action)>, max: u32)
    requires
        conversation(turns, max),
    ensures
        sent(turns) == frames(responses(turns)),
        requests(turns).len() == responses(turns).len() + (if turns.last().1 is Handle {
            1int
        } else {
            0
        }),
        handled(turns) == requests(turns).map_values(|body: Seq<u8>| text::utf8_lossy(body)),
    decreases turns.len(),
{
    let earlier = turns.drop_last();
    let (event, action) = turns.last();
    let lossy = |body: Seq<u8>| text::utf8_lossy(body);
    if turns.len() == 1 {
        assert(answers(turns[0].0, max, turns[0].1));
        assert(sent(earlier) =~= frames(responses(earlier)));
        assert(sent(turns) =~= frames(responses(turns)));
        assert(handled(earlier) =~= requests(earlier).map_values(lossy));
        assert(handled(turns) =~= requests(turns).map_values(lossy));
    } else {
        lemma_conversation_start(turns, max);
        every_request_has_one_response(earlier, max);
        match event {
            Event::Body(bytes) => {
                assert(requests(turns).map_values(lossy) =~= requests(earlier).map_values(
                    lossy,
                ).push(text::utf8_lossy(bytes@)));
            },
            Event::Response(Some(json)) => {
                lemma_frames_push(responses(earlier), vstd::utf8::encode_utf8(json@));
            },
            Event::Response(None) => {
                lemma_frames_push(responses(earlier), vstd::utf8::encode_utf8("{}"@));
            },
            _ => {},
        }
    }
}

proof fn lemma_header_turn(event: Event, max: u32, action: Action)
    requires
        answers(event, max, action),
    ensures
        event matches Event::Header(header) ==> (action matches Action::ReadBody(size) ==> header@
            == le_bytes(size as nat)),
        event is Header ==> action is ReadBody || action is Close,
        event is Body ==> action is Handle,
        action matches Action::ReadBody(size) ==> event is Header && size <= max,
{
    if let Event::Header(header) = event {
        lemma_le_unique(header@);
    }
}

proof fn lemma_frame_parts(body: Seq<u8>)
    requires
        body.len() < 0x1_0000_0000,
    ensures
        frame(body) == le_bytes(body.len()) + body,
{
}

/// Whether the bytes read are the frames of the requests, one after the other,
/// and behind them the header whose body is being read.
#[verifier::opaque]
spec fn framed(read: Seq<u8>, bodies: Seq<Seq<u8>>, action: Action, max: u32) -> bool {
    &&& action matches Action::ReadBody(size) ==> read == frames(bodies) + le_bytes(size as nat)
    &&& !(action is ReadBody || action is Close) ==> read == frames(bodies)
    &&& forall|i: int| 0 <= i < bodies.len() ==> (#[trigger] bodies[i]).len() <= max
}

proof fn lemma_framed_header(
    read: Seq<u8>,
    bodies: Seq<Seq<u8>>,
    header: [u8; 4],
    action: Action,
    max: u32,
)
    requires
        framed(read, bodies, Action::ReadHeader, max),
        answers(Event::Header(header), max, action),
    ensures
        framed(read + header@, bodies, action, max),
{
    reveal(framed);
    lemma_header_turn(Event::Header(header), max, action);
}

proof fn lemma_framed_body(
    read: Seq<u8>,
    bodies: Seq<Seq<u8>>,
    size: u32,
    body: Seq<u8>,
    action: Action,
    max: u32,
)
    requires
        framed(read, bodies, Action::ReadBody(size), max),
        body.len() == size,
        size <= max,
        action is Handle,
    ensures
        framed(read + body, bodies.push(body), action, max),
{
    reveal(framed);
    lemma_frame_parts(body);
    lemma_frames_push(bodies, body);
    assert(read + body =~= frames(bodies) + (le_bytes(size as nat) + body));
}

proof fn lemma_framed_other(
    read: Seq<u8>,
    bodies: Seq<Seq<u8>>,
    before: Action,
    action: Action,
    max: u32,
)
    requires
        framed(read, bodies, before, max),
        action is Close || !(before is ReadBody || before is Close || action is ReadBody),
    ensures
        framed(read, bodies, action, max),
{
    reveal(framed);
}

proof fn lemma_received(turns: Seq<(Event, Action)>, max: u32)
    requires
        conversation(turns, max),
    ensures
        framed(received(turns), requests(turns), turns.last().1, max),
    decreases turns.len(),
{
    let earlier = turns.drop_last();
    let (event, action) = turns.last();
    if turns.len() == 1 {
        assert(answers(turns[0].0, max, turns[0].1));
        assert(received(earlier) == Seq::<u8>::empty());
        assert(requests(earlier) == Seq::<Seq<u8>>::empty());
        assert(framed(received(turns), requests(turns), action, max)) by {
            reveal(framed);
        }
    } else {
        lemma_conversation_start(turns, max);
        lemma_received(earlier, max);
        let before = earlier.last().1;
        match event {
            Event::Header(header) => {
                lemma_framed_header(received(earlier), requests(earlier), header, action, max);
            },
            Event::Body(bytes) => {
                lemma_size_allowed(earlier, max);
                lemma_framed_body(
                    received(earlier),
                    requests(earlier),
                    before->ReadBody_0,
                    bytes@,
                    action,
                    max,
                );
            },
            _ => {
                lemma_framed_other(received(earlier), requests(earlier), before, action, max);
            },
        }
    }
}

/// A body is read only where its size is allowed.
proof fn lemma_size_allowed(turns: Seq<(Event, Action)>, max: u32)
    requires
        conversation(turns, max),
    ensures
        turns.last().1 matches Action::ReadBody(size) ==> size <= max,
{
    let (event, action) = turns[turns.len() - 1];
    assert(answers(event, max, action));
    lemma_header_turn(event, max, action);
}

/// Of a whole conversation that is open and waits for no body: the requests are
/// the messages of the bytes read, all of them, in order, and none is larger
/// than allowed.
pub proof fn requests_are_the_messages_read(turns: Seq<(Event, Action)>, max: u32)
    requires
        conversation(turns, max),
        turns.last().1 is ReadHeader || turns.last().1 is Handle || turns.last().1 is Send,
    ensures
        received(turns) == frames(requests(turns)),
        messages(received(turns)) == requests(turns),
        forall|i: int|
            0 <= i < requests(turns).len() ==> (#[trigger] requests(turns)[i]).len() <= max,
{
    lemma_received(turns, max);
    reveal(framed);
    frames_roundtrip(requests(turns));
}

} // verus!
