//! Laws of frames and of the course of a connection.
use vstd::prelude::*;

use crate::connection;
use crate::connection::{Action, Event};
use crate::text;

verus! {

/// A frame is four bytes and the body, every byte of it in its place; the four
/// bytes, the lowest first, count the body's bytes.
pub proof fn a_frame_is_length_and_body(body: &[u8], r: Vec<u8>)
    requires
        call_ensures(connection::to_frame, (body,), r),
    ensures
        r@.len() == body@.len() + 4,
        r@[0] as int + 256 * (r@[1] as int) + 65536 * (r@[2] as int) + 16777216 * (r@[3] as int)
            == body@.len() as int % 4294967296,
        forall|i: int| 0 <= i < body@.len() ==> #[trigger] r@[i + 4] == body@[i],
{
    let n = body@.len() % 0x1_0000_0000;
    connection::le_roundtrip(n);
    let head = connection::le_bytes(n);
    assert(r@[0] == head[0] && r@[1] == head[1] && r@[2] == head[2] && r@[3] == head[3]);
}

/// A header counts by its four bytes, the lowest first.
pub proof fn a_header_counts_bytes(header: &[u8; 4], r: u32)
    requires
        call_ensures(connection::header_size, (header,), r),
    ensures
        r as int == header@[0] as int + 256 * (header@[1] as int) + 65536 * (header@[2] as int)
            + 16777216 * (header@[3] as int),
{
}

/// What a frame's header says of a body is the body's length, where that fits.
pub proof fn a_frame_is_read_as_it_was_written(
    body: &[u8],
    frame: Vec<u8>,
    header: &[u8; 4],
    size: u32,
)
    requires
        body@.len() < 4294967296,
        header@ == frame@.take(4),
        call_ensures(connection::to_frame, (body,), frame),
        call_ensures(connection::header_size, (header,), size),
    ensures
        size as int == body@.len(),
        frame@.skip(4) == body@,
{
    a_frame_is_length_and_body(body, frame);
    a_header_counts_bytes(header, size);
    assert(frame@.take(4)[0] == frame@[0]);
    assert forall|i: int| 0 <= i < body@.len() implies frame@.skip(4)[i] == body@[i] by {
        assert(frame@[i + 4] == body@[i]);
    }
    assert(frame@.skip(4) =~= body@);
}

/// A connection that was opened, or has sent a response, reads the next header.
/// One that can be read no more is closed without a word.
pub proof fn a_connection_goes_on_reading(event: Event, max: u32, action: Action)
    requires
        call_ensures(connection::handle, (event, max), action),
    ensures
        event is Opened || event is Sent ==> action is ReadHeader,
        event is ReadFailed ==> action == Action::Close(None),
{
}

/// A request of up to the allowed size is read in full. A larger one closes the
/// connection, and the log names the size.
pub proof fn only_larger_packets_close_the_connection(
    header: [u8; 4],
    size: u32,
    max: u32,
    action: Action,
)
    requires
        call_ensures(connection::header_size, (&header,), size),
        call_ensures(connection::handle, (Event::Header(header), max), action),
    ensures
        size <= max ==> action == Action::ReadBody(size),
        size > max ==> (action matches Action::Close(Some(line)) && line@
            == "Client max allowed packet size reached: "@ + text::decimal(size as nat)),
{
}

/// A body is handled as the text that its bytes are in UTF-8, all of it.
pub proof fn a_body_is_handled_as_its_text(
    body: Vec<u8>,
    request: Seq<char>,
    max: u32,
    action: Action,
)
    requires
        call_ensures(connection::handle, (Event::Body(body), max), action),
    ensures
        action matches Action::Handle(text) && text@ == text::utf8_lossy(body@),
        body@ == vstd::utf8::encode_utf8(request) ==> (action matches Action::Handle(text) && text@
            == request),
{
    if body@ == vstd::utf8::encode_utf8(request) {
        connection::request_text_arrives(request, body, max, action);
    }
}

/// A response is sent as the frame of its bytes in UTF-8, all of them; one that
/// could not be written as that of an empty object.
pub proof fn a_response_is_sent_as_its_frame(
    response: Option<String>,
    max: u32,
    body: &[u8],
    frame: Vec<u8>,
    action: Action,
)
    requires
        body@ == vstd::utf8::encode_utf8(
            match response {
                Some(json) => json@,
                None => seq!['{', '}'],
            },
        ),
        call_ensures(connection::to_frame, (body,), frame),
        call_ensures(connection::handle, (Event::Response(response), max), action),
    ensures
        action matches Action::Send(bytes) && bytes@ == frame@,
{
    reveal_strlit("{}");
    assert("{}"@ =~= seq!['{', '}']);
}

} // verus!
