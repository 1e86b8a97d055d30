//! The binary frames of the recognizer's protocol.
//!
//! A frame starts with a header of as many four-byte words as the low half of
//! its first byte says. The second byte holds the kind of message and its
//! flags, the third how the payload is serialized and compressed. After the
//! header come, as the kind and the flags tell, a sequence number or an error
//! code, then the size of the payload and the payload.
use crate::bytes;
use crate::error::{Error, Failure};
use crate::gz;
use crate::json;
use crate::json::{Json, JsonView};
use crate::text;
use vstd::prelude::*;
use vstd::slice::{slice_subrange, slice_to_vec};
use vstd::utf8;

verus! {

pub const MSG_CLIENT_FULL_REQUEST: u8 = 0b0001;

pub const MSG_CLIENT_AUDIO_ONLY: u8 = 0b0010;

pub const MSG_SERVER_FULL_RESPONSE: u8 = 0b1001;

pub const MSG_SERVER_ERROR: u8 = 0b1111;

pub const FLAG_POS_SEQUENCE: u8 = 0b0001;

pub const FLAG_NEG_WITH_SEQUENCE: u8 = 0b0011;

pub const FLAG_SERVER_LAST: u8 = 0b0010;

pub const SERIALIZATION_NONE: u8 = 0b0000;

pub const SERIALIZATION_JSON: u8 = 0b0001;

pub const COMPRESSION_GZIP: u8 = 0b0001;

/// The frame that carries the compressed payload `z`. A size that takes more
/// than 32 bits is written modulo 2^32.
pub open spec fn frame_bytes(
    message_type: u8,
    flags: u8,
    serialization: u8,
    seq: i32,
    z: Seq<u8>,
) -> Seq<u8> {
    seq![0x11u8, (message_type << 4) | flags, (serialization << 4) | COMPRESSION_GZIP, 0u8]
        + bytes::be32(bytes::twos32(seq)) + bytes::be32((z.len() % 0x1_0000_0000) as u32) + z
}

/// The frame of one packet of compressed audio: the last one has a negative
/// sequence number.
pub open spec fn audio_packet(seq: i32, is_last: bool, z: Seq<u8>) -> Seq<u8> {
    if is_last {
        frame_bytes(MSG_CLIENT_AUDIO_ONLY, FLAG_NEG_WITH_SEQUENCE, SERIALIZATION_NONE, -seq as i32, z)
    } else {
        frame_bytes(MSG_CLIENT_AUDIO_ONLY, FLAG_POS_SEQUENCE, SERIALIZATION_NONE, seq, z)
    }
}

/// The frame of the request that opens a session.
pub open spec fn request_packet(z: Seq<u8>) -> Seq<u8> {
    frame_bytes(MSG_CLIENT_FULL_REQUEST, FLAG_POS_SEQUENCE, SERIALIZATION_JSON, 1, z)
}

/// How long the header of `msg` is.
pub open spec fn header_len(msg: Seq<u8>) -> int {
    if msg.len() == 0 {
        0
    } else {
        (msg[0] & 0x0f) * 4
    }
}

/// The word of `msg` at `off`, where the frame does not end before it does.
pub open spec fn word(msg: Seq<u8>, off: int) -> Option<u32> {
    if off + 4 <= msg.len() {
        Some(bytes::word_at(msg, off))
    } else {
        None
    }
}

/// The payload of `size` bytes at `off`, decompressed where the header says
/// that it is compressed.
pub open spec fn payload(msg: Seq<u8>, off: int, size: int) -> Result<
    Seq<u8>,
    Failure<Seq<char>>,
> {
    if off + size > msg.len() {
        Err(Failure::PayloadTruncated)
    } else {
        let raw = msg.subrange(off, off + size);
        if msg[2] & 0x0f == COMPRESSION_GZIP && raw.len() > 0 {
            match gz::gunzip_result(raw) {
                Ok(data) => Ok(data),
                Err(t) => Err(Failure::Gunzip(t)),
            }
        } else {
            Ok(raw)
        }
    }
}

/// The payload of a response: behind the sequence number, where the flags say
/// that there is one, and the size.
pub open spec fn response_payload(msg: Seq<u8>) -> Result<Seq<u8>, Failure<Seq<char>>> {
    let header = header_len(msg);
    let has_seq = (msg[1] & 0x0f) & FLAG_POS_SEQUENCE != 0;
    let off = if has_seq { header + 4 } else { header };
    if has_seq && word(msg, header) is None {
        Err(Failure::FrameTruncated)
    } else {
        match word(msg, off) {
            None => Err(Failure::FrameTruncated),
            Some(size) => payload(msg, off + 4, size as int),
        }
    }
}

/// The payload of an error frame, which is empty where it cannot be had.
pub open spec fn server_report(msg: Seq<u8>) -> Seq<u8> {
    let header = header_len(msg);
    match word(msg, header + 4) {
        None => Seq::empty(),
        Some(size) => match payload(msg, header + 8, size as int) {
            Ok(data) => data,
            Err(_) => Seq::empty(),
        },
    }
}

/// The error that an error frame reports: its code, and its payload as text.
pub open spec fn server_error(msg: Seq<u8>) -> Failure<Seq<char>> {
    match word(msg, header_len(msg)) {
        None => Failure::FrameTruncated,
        Some(code) => Failure::Server(code, text::lossy_text(server_report(msg))),
    }
}

/// The text that `v` is, or none where it is no string.
pub open spec fn text_of(v: Option<JsonView>) -> Seq<char> {
    match v {
        Some(JsonView::Str(s)) => s,
        _ => Seq::empty(),
    }
}

/// The texts of the utterances, one after the other.
pub open spec fn utterances_text(items: Seq<JsonView>) -> Seq<char>
    decreases items.len(),
{
    if items.len() == 0 {
        Seq::empty()
    } else {
        utterances_text(items.drop_last()) + text_of(json::member(items.last(), "text"@))
    }
}

/// The value of the key in the result of a response.
pub open spec fn result_member(v: JsonView, key: Seq<char>) -> Option<JsonView> {
    match json::member(v, "result"@) {
        Some(result) => json::member(result, key),
        None => None,
    }
}

/// The transcript in a response: the text of the result, or that of its
/// utterances where the first is blank.
pub open spec fn transcript(v: JsonView) -> Seq<char> {
    let whole = text::trimmed(text_of(result_member(v, "text"@)));
    if whole.len() > 0 {
        whole
    } else {
        match result_member(v, "utterances"@) {
            Some(JsonView::Array(items)) => text::trimmed(utterances_text(items)),
            _ => Seq::empty(),
        }
    }
}

/// What a response with the flags, serialization and payload says: whether it
/// is the last one, and the transcript.
pub open spec fn answer(flags: u8, serialization: u8, data: Seq<u8>) -> Result<
    (bool, Seq<char>),
    Failure<Seq<char>>,
> {
    if serialization == SERIALIZATION_JSON && data.len() > 0 {
        match json::json_parse(data) {
            Ok(v) => Ok((flags & FLAG_SERVER_LAST != 0, transcript(v))),
            Err(t) => Err(Failure::BadJson(t)),
        }
    } else {
        Ok((flags & FLAG_SERVER_LAST != 0, Seq::empty()))
    }
}

/// What a frame from the server says.
pub open spec fn reply(msg: Seq<u8>) -> Result<(bool, Seq<char>), Failure<Seq<char>>> {
    if msg.len() < 4 || msg.len() < header_len(msg) {
        Err(Failure::FrameTooShort)
    } else if msg[1] >> 4 == MSG_SERVER_FULL_RESPONSE {
        match response_payload(msg) {
            Ok(data) => answer(msg[1] & 0x0f, msg[2] >> 4, data),
            Err(e) => Err(e),
        }
    } else if msg[1] >> 4 == MSG_SERVER_ERROR {
        Err(server_error(msg))
    } else {
        Ok((false, Seq::empty()))
    }
}

/// Where the report of the server is well-formed UTF-8, its error tells the text
/// that the report encodes.
pub open spec fn told_as_decoded(e: Error, report: Seq<u8>) -> bool {
    e matches Failure::Server(_, t) ==> utf8::valid_utf8(report) ==> t@ == utf8::decode_utf8(report)
}

/// A parsed frame as characters.
pub open spec fn reply_view(r: Result<(bool, String), Error>) -> Result<
    (bool, Seq<char>),
    Failure<Seq<char>>,
> {
    match r {
        Ok((is_last, t)) => Ok((is_last, t@)),
        Err(e) => Err(e@),
    }
}

/// The transcript in a response.
pub fn extract_text(payload: &Json) -> (r: String)
    ensures
        r@ == transcript(payload@),
{
    let mut whole: &str = "";
    let mut items: Option<&Vec<Json>> = None;
    proof {
        reveal_strlit("");
        assert(whole@ =~= Seq::<char>::empty());
    }
    match payload.get("result") {
        None => {},
        Some(result) => {
            match result.get("text") {
                None => {},
                Some(t) => match t.as_str() {
                    None => {},
                    Some(t) => {
                        whole = t;
                    },
                },
            }
            match result.get("utterances") {
                None => {},
                Some(u) => {
                    items = u.as_array();
                },
            }
        },
    }
    assert(whole@ == text_of(result_member(payload@, "text"@)));
    let whole = whole.trim();
    if !whole.is_empty() {
        return whole.to_owned();
    }
    let mut all = String::new();
    match items {
        None => all,
        Some(items) => {
            let mut i: usize = 0;
            proof {
                json::items_view_index(items@);
            }
            let ghost views = json::items_view(items@);
            assert(views.take(0) =~= Seq::empty());
            while i < items.len()
                invariant
                    i <= items@.len(),
                    views.len() == items@.len(),
                    forall|k: int| 0 <= k < items@.len() ==> #[trigger] views[k] == items@[k]@,
                    all@ == utterances_text(views.take(i as int)),
                decreases items.len() - i,
            {
                proof {
                    let next = views.take(i + 1);
                    assert(next.drop_last() =~= views.take(i as int));
                    assert(next.last() == items@[i as int]@);
                }
                match items[i].get("text") {
                    None => {},
                    Some(t) => match t.as_str() {
                        None => {},
                        Some(t) => all.append(t),
                    },
                }
                assert(all@ =~= utterances_text(views.take(i + 1)));
                i += 1;
            }
            assert(views.take(i as int) =~= views);
            all.as_str().trim().to_owned()
        },
    }
}

/// The members of values that are alike are alike.
proof fn alike_members(v: JsonView, w: JsonView, depth: nat, key: Seq<char>)
    requires
        json::alike(v, w, depth),
    ensures
        match (json::member(v, key), json::member(w, key)) {
            (Some(a), Some(b)) => depth > 0 && json::alike(a, b, (depth - 1) as nat),
            (None, None) => true,
            _ => false,
        },
{
}

/// Utterances that are alike have the same texts.
proof fn alike_utterances(a: Seq<JsonView>, b: Seq<JsonView>, depth: nat)
    requires
        a.len() == b.len(),
        forall|i: int| 0 <= i < a.len() ==> json::alike(#[trigger] a[i], b[i], depth),
    ensures
        utterances_text(a) == utterances_text(b),
    decreases a.len(),
{
    if a.len() > 0 {
        let (a1, b1) = (a.drop_last(), b.drop_last());
        assert forall|i: int| 0 <= i < a1.len() implies json::alike(#[trigger] a1[i], b1[i], depth) by {
            assert(json::alike(a[i], b[i], depth));
        }
        alike_utterances(a1, b1, depth);
        let last = a.len() - 1;
        assert(json::alike(a[last], b[last], depth));
        alike_members(a[last], b[last], depth, "text"@);
    }
}

/// Values that are the same but for the digits of numbers have the same
/// transcript.
pub proof fn alike_values_say_the_same(v: JsonView, w: JsonView, depth: nat)
    requires
        json::alike(v, w, depth),
    ensures
        transcript(v) == transcript(w),
{
    alike_members(v, w, depth, "result"@);
    match (json::member(v, "result"@), json::member(w, "result"@)) {
        (Some(a), Some(b)) => {
            let d = (depth - 1) as nat;
            alike_members(a, b, d, "text"@);
            alike_members(a, b, d, "utterances"@);
            match (json::member(a, "utterances"@), json::member(b, "utterances"@)) {
                (Some(JsonView::Array(x)), Some(JsonView::Array(y))) => {
                    alike_utterances(x, y, (d - 2) as nat);
                },
                _ => {},
            }
        },
        _ => {},
    }
}

/// What the two halves of a header byte are.
proof fn halves(high: u8, low: u8)
    requires
        high < 16,
        low < 16,
    ensures
        ((high << 4) | low) >> 4 == high,
        ((high << 4) | low) & 0x0f == low,
{
    assert(((high << 4) | low) >> 4 == high && ((high << 4) | low) & 0x0f == low)
        by (bit_vector)
        requires
            high < 16,
            low < 16,
    ;
}

/// Where the parts of a frame stand.
proof fn frame_layout(message_type: u8, flags: u8, serialization: u8, seq: i32, z: Seq<u8>)
    requires
        z.len() < 0x1_0000_0000,
    ensures
        ({
            let msg = frame_bytes(message_type, flags, serialization, seq, z);
            &&& msg.len() == 12 + z.len()
            &&& msg[0] == 0x11
            &&& msg[1] == (message_type << 4) | flags
            &&& msg[2] == (serialization << 4) | COMPRESSION_GZIP
            &&& bytes::word_at(msg, 4) == bytes::twos32(seq)
            &&& bytes::word_at(msg, 8) == z.len()
            &&& msg.subrange(12, 12 + z.len() as int) == z
        }),
{
    let msg = frame_bytes(message_type, flags, serialization, seq, z);
    let head = seq![
        0x11u8,
        (message_type << 4) | flags,
        (serialization << 4) | COMPRESSION_GZIP,
        0u8,
    ];
    let seq_word = bytes::be32(bytes::twos32(seq));
    let size_word = bytes::be32(z.len() as u32);
    assert(z.len() % 0x1_0000_0000 == z.len());
    assert(bytes::word_at(msg, 4) == bytes::twos32(seq)) by {
        assert(msg =~= head + seq_word + (size_word + z));
        bytes::be32_reads_back(head, bytes::twos32(seq), size_word + z);
    }
    assert(bytes::word_at(msg, 8) == z.len()) by {
        assert(msg =~= (head + seq_word) + size_word + z);
        bytes::be32_reads_back(head + seq_word, z.len() as u32, z);
    }
    assert(msg.subrange(12, 12 + z.len() as int) =~= z);
}

/// A response survives framing: a frame of the server's with a sequence number
/// says what its flags, serialization and payload say. `z` is the compressed
/// payload; its size fits the frame.
pub proof fn framed_response_reads_back(
    flags: u8,
    serialization: u8,
    seq: i32,
    data: Seq<u8>,
    z: Seq<u8>,
)
    requires
        flags < 16,
        flags & FLAG_POS_SEQUENCE != 0,
        serialization < 16,
        0 < z.len() < 0x1_0000_0000,
        gz::gunzip_result(z) is Ok,
        gz::gunzip_result(z)->Ok_0 == data,
    ensures
        reply(frame_bytes(MSG_SERVER_FULL_RESPONSE, flags, serialization, seq, z)) == answer(
            flags,
            serialization,
            data,
        ),
{
    let msg = frame_bytes(MSG_SERVER_FULL_RESPONSE, flags, serialization, seq, z);
    frame_layout(MSG_SERVER_FULL_RESPONSE, flags, serialization, seq, z);
    halves(MSG_SERVER_FULL_RESPONSE, flags);
    halves(serialization, COMPRESSION_GZIP);
    assert(0x11u8 & 0x0f == 1) by (bit_vector);
    assert(header_len(msg) == 4);
    assert(word(msg, 4) is Some);
    assert(word(msg, 8) == Some(z.len() as u32));
    assert(payload(msg, 12, z.len() as int) == Ok::<Seq<u8>, Failure<Seq<char>>>(data));
    assert(response_payload(msg) == Ok::<Seq<u8>, Failure<Seq<char>>>(data));
}

/// A JSON value survives being written and framed: a frame of the server's whose
/// payload is read as `v`, but for the digits of numbers that are no integers,
/// says whether it is the last one and the transcript of `v`, whatever its
/// sequence number is.
pub proof fn framed_value_reads_back(
    flags: u8,
    seq: i32,
    v: JsonView,
    data: Seq<u8>,
    z: Seq<u8>,
)
    requires
        flags < 16,
        flags & FLAG_POS_SEQUENCE != 0,
        0 < z.len() < 0x1_0000_0000,
        gz::gunzip_result(z) is Ok,
        gz::gunzip_result(z)->Ok_0 == data,
        data.len() > 0,
        json::json_parse(data) is Ok,
        json::alike(v, json::json_parse(data)->Ok_0, json::MAX_DEPTH as nat),
    ensures
        reply(frame_bytes(MSG_SERVER_FULL_RESPONSE, flags, SERIALIZATION_JSON, seq, z)) == Ok::<
            (bool, Seq<char>),
            Failure<Seq<char>>,
        >((flags & FLAG_SERVER_LAST != 0, transcript(v))),
{
    framed_response_reads_back(flags, SERIALIZATION_JSON, seq, data, z);
    alike_values_say_the_same(v, json::json_parse(data)->Ok_0, json::MAX_DEPTH as nat);
}

/// A packet of audio tells its sequence number, whether it is the last one, and
/// its compressed audio.
pub proof fn audio_packet_tells_all(
    seq1: i32,
    last1: bool,
    z1: Seq<u8>,
    seq2: i32,
    last2: bool,
    z2: Seq<u8>,
)
    requires
        seq1 > i32::MIN,
        seq2 > i32::MIN,
        audio_packet(seq1, last1, z1) == audio_packet(seq2, last2, z2),
    ensures
        seq1 == seq2,
        last1 == last2,
        z1 == z2,
{
    let p1 = audio_packet(seq1, last1, z1);
    let p2 = audio_packet(seq2, last2, z2);
    assert((0b0010u8 << 4) | 0b0011u8 != (0b0010u8 << 4) | 0b0001u8) by (bit_vector);
    assert(p1[1] == p2[1]);
    let head = p1.take(4);
    let n1 = if last1 { -seq1 as i32 } else { seq1 };
    let n2 = if last2 { -seq2 as i32 } else { seq2 };
    let w1 = bytes::be32(bytes::twos32(n1));
    let w2 = bytes::be32(bytes::twos32(n2));
    assert(p1 =~= head + w1 + p1.skip(8));
    assert(p2 =~= p2.take(4) + w2 + p2.skip(8));
    bytes::be32_reads_back(head, bytes::twos32(n1), p1.skip(8));
    bytes::be32_reads_back(p2.take(4), bytes::twos32(n2), p2.skip(8));
    bytes::twos32_reads_back(n1);
    bytes::twos32_reads_back(n2);
    assert(p1.skip(12) =~= z1);
    assert(p2.skip(12) =~= z2);
}

/// Frames the compressed payload `z`.
pub fn frame_compressed(
    message_type: u8,
    flags: u8,
    serialization: u8,
    seq: i32,
    z: &[u8],
) -> (out: Vec<u8>)
    ensures
        out@ == frame_bytes(message_type, flags, serialization, seq, z@),
{
    let mut out: Vec<u8> = Vec::new();
    out.push(0x11);
    out.push((message_type << 4) | flags);
    out.push((serialization << 4) | COMPRESSION_GZIP);
    out.push(0);
    bytes::push_be32(&mut out, bytes::to_twos32(seq));
    bytes::push_be32(&mut out, (z.len() as u64 % 0x1_0000_0000) as u32);
    out.extend_from_slice(z);
    assert(out@ =~= frame_bytes(message_type, flags, serialization, seq, z@));
    out
}

/// Frames `body`, compressed.
pub fn frame(message_type: u8, flags: u8, serialization: u8, seq: i32, body: &[u8]) -> (r: Result<
    Vec<u8>,
    Error,
>)
    ensures
        r is Ok,
        match gz::gzip_result(body@) {
            Ok(z) => r matches Ok(out) && out@ == frame_bytes(
                message_type,
                flags,
                serialization,
                seq,
                z,
            ),
            Err(t) => r matches Err(e) && e@ == Failure::Gzip(t),
        },
        // What follows the two words behind the header decompresses to `body`.
        r matches Ok(out) ==> out@.len() >= 30 && gz::gunzip_result(out@.skip(12)) is Ok
            && gz::gunzip_result(out@.skip(12))->Ok_0 == body@,
        // A response whose size fits the frame reads back.
        r matches Ok(out) ==> message_type == MSG_SERVER_FULL_RESPONSE && flags < 16 && flags
            & FLAG_POS_SEQUENCE != 0 && serialization < 16 && out@.len() < 12 + 0x1_0000_0000
            ==> reply(out@) == answer(flags, serialization, body@),
        // So does the text of a JSON value: it says what the value says, whatever
        // the sequence number is.
        r matches Ok(out) ==> forall|v: JsonView|
            message_type == MSG_SERVER_FULL_RESPONSE && flags < 16 && flags & FLAG_POS_SEQUENCE != 0
                && serialization == SERIALIZATION_JSON && out@.len() < 12 + 0x1_0000_0000
                && body@.len() > 0 && json::json_parse(body@) is Ok && #[trigger] json::alike(
                v,
                json::json_parse(body@)->Ok_0,
                json::MAX_DEPTH as nat,
            ) ==> reply(out@) == Ok::<(bool, Seq<char>), Failure<Seq<char>>>(
                (flags & FLAG_SERVER_LAST != 0, transcript(v)),
            ),
{
    let z = gz::gzip(body)?;
    let out = frame_compressed(message_type, flags, serialization, seq, z.as_slice());
    proof {
        let z = z@;
        assert(out@.skip(12) =~= z);
        if message_type == MSG_SERVER_FULL_RESPONSE && flags < 16 && flags & FLAG_POS_SEQUENCE != 0
            && serialization < 16 && z.len() < 0x1_0000_0000 {
            framed_response_reads_back(flags, serialization, seq, body@, z);
        }
        assert forall|v: JsonView|
            message_type == MSG_SERVER_FULL_RESPONSE && flags < 16 && flags & FLAG_POS_SEQUENCE != 0
                && serialization == SERIALIZATION_JSON && out@.len() < 12 + 0x1_0000_0000
                && body@.len() > 0 && json::json_parse(body@) is Ok && #[trigger] json::alike(
                v,
                json::json_parse(body@)->Ok_0,
                json::MAX_DEPTH as nat,
            ) implies reply(out@) == Ok::<(bool, Seq<char>), Failure<Seq<char>>>(
            (flags & FLAG_SERVER_LAST != 0, transcript(v)),
        ) by {
            framed_value_reads_back(flags, seq, v, body@, z);
        }
    }
    Ok(out)
}

/// The request that opens a session with `payload`.
pub fn full_request(payload: &Json) -> (r: Result<Vec<u8>, Error>)
    ensures
        r is Ok,
        match gz::gzip_result(utf8::encode_utf8(json::json_text(payload@))) {
            Ok(z) => r matches Ok(out) && out@ == request_packet(z),
            Err(t) => r matches Err(e) && e@ == Failure::Gzip(t),
        },
        // What follows the two words behind the header decompresses to the text of
        // the payload.
        r matches Ok(out) ==> gz::gunzip_result(out@.skip(12)) is Ok && gz::gunzip_result(
            out@.skip(12),
        )->Ok_0 == utf8::encode_utf8(json::json_text(payload@)),
        // The payload reads back, but for the digits of numbers that are no
        // integers.
        r matches Ok(out) ==> json::nested(payload@, json::MAX_DEPTH as nat) ==> json::json_parse(
            gz::gunzip_result(out@.skip(12))->Ok_0,
        ) is Ok && json::alike(
            payload@,
            json::json_parse(gz::gunzip_result(out@.skip(12))->Ok_0)->Ok_0,
            json::MAX_DEPTH as nat,
        ),
        r matches Ok(out) ==> json::reads_back(payload@, json::MAX_DEPTH as nat)
            ==> gz::gunzip_result(out@.skip(12)) is Ok && json::json_parse(
            gz::gunzip_result(out@.skip(12))->Ok_0,
        ) is Ok && json::json_parse(gz::gunzip_result(out@.skip(12))->Ok_0)->Ok_0 == payload@,
{
    let body = json::render(payload);
    frame(
        MSG_CLIENT_FULL_REQUEST,
        FLAG_POS_SEQUENCE,
        SERIALIZATION_JSON,
        1,
        body.as_str().as_bytes(),
    )
}

/// One packet of audio. The last packet carries a negative sequence number and
/// flag 0b0011.
pub fn audio_request(seq: i32, audio: &[u8], is_last: bool) -> (r: Result<Vec<u8>, Error>)
    requires
        is_last ==> seq > i32::MIN,
    ensures
        r is Ok,
        match gz::gzip_result(audio@) {
            Ok(z) => r matches Ok(out) && out@ == audio_packet(seq, is_last, z),
            Err(t) => r matches Err(e) && e@ == Failure::Gzip(t),
        },
        // The audio reads back.
        r matches Ok(out) ==> gz::gunzip_result(out@.skip(12)) is Ok && gz::gunzip_result(
            out@.skip(12),
        )->Ok_0 == audio@,
{
    if is_last {
        frame(MSG_CLIENT_AUDIO_ONLY, FLAG_NEG_WITH_SEQUENCE, SERIALIZATION_NONE, -seq, audio)
    } else {
        frame(MSG_CLIENT_AUDIO_ONLY, FLAG_POS_SEQUENCE, SERIALIZATION_NONE, seq, audio)
    }
}

/// The word of `msg` at `off`.
fn read_word(msg: &[u8], off: usize) -> (r: Option<u32>)
    requires
        off <= msg@.len(),
    ensures
        r == word(msg@, off as int),
{
    if msg.len() - off < 4 {
        None
    } else {
        Some(bytes::read_be32(msg, off))
    }
}

/// The payload of `size` bytes at `off`.
fn read_payload(msg: &[u8], off: usize, size: usize) -> (r: Result<Vec<u8>, Error>)
    requires
        3 <= msg@.len(),
        off <= msg@.len(),
    ensures
        match payload(msg@, off as int, size as int) {
            Ok(data) => r matches Ok(out) && out@ == data,
            Err(e) => r matches Err(f) && f@ == e,
        },
{
    if msg.len() - off < size {
        return Err(Failure::PayloadTruncated);
    }
    let raw = slice_subrange(msg, off, off + size);
    if msg[2] & 0x0f == COMPRESSION_GZIP && raw.len() > 0 {
        gz::gunzip(raw)
    } else {
        Ok(slice_to_vec(raw))
    }
}

/// The error that an error frame reports.
fn read_error(msg: &[u8], header: usize) -> (r: Error)
    requires
        4 <= msg@.len(),
        header == header_len(msg@),
        header <= msg@.len(),
    ensures
        r@ == server_error(msg@),
        told_as_decoded(r, server_report(msg@)),
{
    let code = match read_word(msg, header) {
        None => return Failure::FrameTruncated,
        Some(code) => code,
    };
    let report = match read_word(msg, header + 4) {
        None => Ok(Vec::new()),
        Some(size) => read_payload(msg, header + 8, size as usize),
    };
    let data = match report {
        Ok(data) => data,
        Err(_) => Vec::new(),
    };
    Failure::Server(code, text::from_utf8_lossy(data.as_slice()))
}

/// Reads the payload of a response with the flags and serialization: whether
/// the response is the last one, and the transcript.
pub fn read_answer(flags: u8, serialization: u8, data: &[u8]) -> (r: Result<(bool, String), Error>)
    ensures
        reply_view(r) == answer(flags, serialization, data@),
{
    let transcript = if serialization == SERIALIZATION_JSON && data.len() > 0 {
        match json::parse(data) {
            Ok(v) => extract_text(&v),
            Err(e) => return Err(e),
        }
    } else {
        String::new()
    };
    Ok((flags & FLAG_SERVER_LAST != 0, transcript))
}

/// Reads a frame from the server: whether it is the last one, and the
/// transcript that it carries. An error frame becomes an error.
pub fn parse_frame(msg: &[u8]) -> (r: Result<(bool, String), Error>)
    ensures
        reply_view(r) == reply(msg@),
        // A well-formed report of the server is told as it decodes.
        r matches Err(e) ==> told_as_decoded(e, server_report(msg@)),
{
    if msg.len() < 4 {
        return Err(Failure::FrameTooShort);
    }
    let first: u8 = msg[0];
    assert(first & 0x0f <= 15) by (bit_vector);
    let header: usize = (first & 0x0f) as usize * 4;
    if msg.len() < header {
        return Err(Failure::FrameTooShort);
    }
    let message_type: u8 = msg[1] >> 4;
    let flags: u8 = msg[1] & 0x0f;
    let serialization: u8 = msg[2] >> 4;
    if message_type == MSG_SERVER_FULL_RESPONSE {
        let mut off: usize = header;
        if flags & FLAG_POS_SEQUENCE != 0 {
            if read_word(msg, off).is_none() {
                return Err(Failure::FrameTruncated);
            }
            off += 4;
        }
        let size: u32 = match read_word(msg, off) {
            None => return Err(Failure::FrameTruncated),
            Some(size) => size,
        };
        let data = match read_payload(msg, off + 4, size as usize) {
            Ok(data) => data,
            Err(e) => return Err(e),
        };
        read_answer(flags, serialization, data.as_slice())
    } else if message_type == MSG_SERVER_ERROR {
        Err(read_error(msg, header))
    } else {
        Ok((false, String::new()))
    }
}

/// What the bits of a header byte say, in numbers.
proof fn header_byte(b: u8)
    ensures
        b >> 4 == b / 16,
        b & 0x0f == b % 16,
        (b & 0x0f) & FLAG_POS_SEQUENCE != 0 <==> b % 2 == 1,
        (b & 0x0f) & FLAG_SERVER_LAST != 0 <==> b / 2 % 2 == 1,
{
    assert(b >> 4 == b / 16 && b & 0x0f == b % 16) by (bit_vector);
    assert((b & 0x0f) & 0b0001 != 0 <==> b % 2 == 1) by (bit_vector);
    assert((b & 0x0f) & 0b0010 != 0 <==> b / 2 % 2 == 1) by (bit_vector);
}

/// A frame starts with a header of one word that tells the kind, the flags, the
/// serialization and that gzip was used, goes on with its number and the size of
/// the payload, the highest byte first, and ends with the payload.
pub proof fn frames_are_laid_out(
    message_type: u8,
    flags: u8,
    serialization: u8,
    seq: i32,
    z: Seq<u8>,
)
    ensures
        ({
            let msg = frame_bytes(message_type, flags, serialization, seq, z);
            &&& msg.len() == 12 + z.len()
            &&& msg[0] == 0x11
            &&& msg[1] == (message_type << 4) | flags
            &&& msg[2] == (serialization << 4) | 1
            &&& msg[3] == 0
            &&& 0x100_0000 * msg[4] + 0x1_0000 * msg[5] + 0x100 * msg[6] + msg[7] == (seq as int)
                % 0x1_0000_0000
            &&& 0x100_0000 * msg[8] + 0x1_0000 * msg[9] + 0x100 * msg[10] + msg[11] == z.len()
                as int % 0x1_0000_0000
            &&& msg.skip(12) == z
        }),
{
    let msg = frame_bytes(message_type, flags, serialization, seq, z);
    let number = bytes::twos32(seq);
    let size = (z.len() % 0x1_0000_0000) as u32;
    assert(msg.subrange(4, 8) =~= bytes::be32(number));
    assert(msg.subrange(8, 12) =~= bytes::be32(size));
    assert(msg[4] == bytes::be32(number)[0] && msg[5] == bytes::be32(number)[1] && msg[6]
        == bytes::be32(number)[2] && msg[7] == bytes::be32(number)[3]);
    assert(msg[8] == bytes::be32(size)[0] && msg[9] == bytes::be32(size)[1] && msg[10]
        == bytes::be32(size)[2] && msg[11] == bytes::be32(size)[3]);
    bytes::twos32_is_the_residue(seq);
    assert(msg.skip(12) =~= z);
}

/// Every packet of audio, the last one too, says that it is raw audio and
/// compressed. The last one says so by its flags and has the negated number.
pub proof fn audio_packets_are_raw_audio(seq: i32, is_last: bool, z: Seq<u8>)
    requires
        seq > i32::MIN,
    ensures
        ({
            let msg = audio_packet(seq, is_last, z);
            let number = if is_last { -seq } else { seq as int };
            &&& msg.len() == 12 + z.len()
            &&& msg[0] == 0x11
            &&& msg[1] == if is_last { 0x23 } else { 0x21int }
            &&& msg[2] == 0x01
            &&& msg[3] == 0
            &&& 0x100_0000 * msg[4] + 0x1_0000 * msg[5] + 0x100 * msg[6] + msg[7] == number
                % 0x1_0000_0000
            &&& 0x100_0000 * msg[8] + 0x1_0000 * msg[9] + 0x100 * msg[10] + msg[11] == z.len()
                as int % 0x1_0000_0000
            &&& msg.skip(12) == z
        }),
{
    assert((0b0010u8 << 4) | 0b0011u8 == 0x23) by (bit_vector);
    assert((0b0010u8 << 4) | 0b0001u8 == 0x21) by (bit_vector);
    assert((0b0000u8 << 4) | 1u8 == 0x01) by (bit_vector);
    let msg = audio_packet(seq, is_last, z);
    if is_last {
        let n = -seq as i32;
        assert(msg == frame_bytes(0b0010, 0b0011, 0b0000, n, z));
        frames_are_laid_out(0b0010, 0b0011, 0b0000, n, z);
    } else {
        assert(msg == frame_bytes(0b0010, 0b0001, 0b0000, seq, z));
        frames_are_laid_out(0b0010, 0b0001, 0b0000, seq, z);
    }
}

/// The opening request says that it is JSON and compressed, and has the number
/// one.
pub proof fn opening_requests_are_json(z: Seq<u8>)
    ensures
        ({
            let msg = request_packet(z);
            &&& msg.len() == 12 + z.len()
            &&& msg.take(8) == seq![0x11u8, 0x11, 0x11, 0, 0, 0, 0, 1]
            &&& 0x100_0000 * msg[8] + 0x1_0000 * msg[9] + 0x100 * msg[10] + msg[11] == z.len()
                as int % 0x1_0000_0000
            &&& msg.skip(12) == z
        }),
{
    assert((0b0001u8 << 4) | 0b0001u8 == 0x11) by (bit_vector);
    frames_are_laid_out(MSG_CLIENT_FULL_REQUEST, FLAG_POS_SEQUENCE, SERIALIZATION_JSON, 1, z);
    assert(request_packet(z).take(8) =~= seq![0x11u8, 0x11, 0x11, 0, 0, 0, 0, 1]);
}

/// A frame is too short just where it ends before four bytes, or before the
/// header that its first byte announces, in words of four bytes, does.
pub proof fn frames_hold_their_header(msg: Seq<u8>)
    ensures
        reply(msg) == Err::<(bool, Seq<char>), _>(Failure::<Seq<char>>::FrameTooShort) <==> msg.len()
            < 4 || msg.len() < msg[0] % 16 * 4,
{
    if msg.len() > 0 {
        header_byte(msg[0]);
    }
}

/// A frame that is neither a response nor an error says nothing.
pub proof fn other_frames_say_nothing(msg: Seq<u8>)
    requires
        msg.len() >= 4,
        msg.len() >= msg[0] % 16 * 4,
        msg[1] / 16 != 9,
        msg[1] / 16 != 15,
    ensures
        reply(msg) == Ok::<_, Failure<Seq<char>>>((false, Seq::<char>::empty())),
{
    header_byte(msg[0]);
    header_byte(msg[1]);
}

/// Where the size of a response's payload stands: behind the header, and behind
/// the sequence number, where the flags say that there is one.
pub open spec fn size_at(msg: Seq<u8>) -> int {
    msg[0] % 16 * 4 + if msg[1] % 2 == 1 {
        4int
    } else {
        0
    }
}

/// A response is truncated where it ends before its words do, or before the
/// payload of the size that it announces does.
pub proof fn responses_hold_their_payload(msg: Seq<u8>)
    requires
        msg.len() >= 4,
        msg.len() >= msg[0] % 16 * 4,
        msg[1] / 16 == 9,
    ensures
        reply(msg) == Err::<(bool, Seq<char>), _>(Failure::<Seq<char>>::FrameTruncated)
            <==> msg.len() < size_at(msg) + 4,
        reply(msg) == Err::<(bool, Seq<char>), _>(Failure::<Seq<char>>::PayloadTruncated)
            <==> msg.len() >= size_at(msg) + 4 && msg.len() < size_at(msg) + 4 + bytes::word_at(
            msg,
            size_at(msg),
        ),
{
    header_byte(msg[0]);
    header_byte(msg[1]);
}

/// A response says what its payload says: the bytes behind the size, as they are,
/// or decompressed, where the header says that they are compressed and there are
/// any. It is the last one just where its flags say so, whatever it carries.
pub proof fn responses_say_what_their_payload_says(msg: Seq<u8>, raw: Seq<u8>)
    requires
        msg.len() >= 4,
        msg.len() >= msg[0] % 16 * 4,
        msg[1] / 16 == 9,
        msg.len() >= size_at(msg) + 4 + raw.len(),
        bytes::word_at(msg, size_at(msg)) == raw.len(),
        msg.subrange(size_at(msg) + 4, size_at(msg) + 4 + raw.len()) == raw,
    ensures
        msg[2] % 16 == 1 && raw.len() > 0 ==> match gz::gunzip_result(raw) {
            Err(t) => reply(msg) == Err::<(bool, Seq<char>), _>(Failure::Gunzip(t)),
            Ok(data) => payload_said(reply(msg), msg[1] / 2 % 2 == 1, msg[2] / 16 == 1, data),
        },
        !(msg[2] % 16 == 1 && raw.len() > 0) ==> payload_said(
            reply(msg),
            msg[1] / 2 % 2 == 1,
            msg[2] / 16 == 1,
            raw,
        ),
{
    header_byte(msg[0]);
    header_byte(msg[1]);
    header_byte(msg[2]);
}

/// Whether the outcome is that of a response with the payload: JSON is read, and
/// its transcript told; of anything else, and of nothing, there is no text.
pub open spec fn payload_said(
    outcome: Result<(bool, Seq<char>), Failure<Seq<char>>>,
    is_last: bool,
    is_json: bool,
    data: Seq<u8>,
) -> bool {
    if !is_json || data.len() == 0 {
        outcome matches Ok(said) && said.0 == is_last && said.1.len() == 0
    } else {
        match json::json_parse(data) {
            Ok(v) => outcome matches Ok(said) && said.0 == is_last && said.1 == transcript(v),
            Err(t) => outcome matches Err(e) && e == Failure::BadJson(t),
        }
    }
}

/// An error frame never goes unnoticed: it reports the code behind its header, or
/// is truncated, where it ends before that.
pub proof fn error_frames_report_their_code(msg: Seq<u8>)
    requires
        msg.len() >= 4,
        msg.len() >= msg[0] % 16 * 4,
        msg[1] / 16 == 15,
    ensures
        ({
            let n = msg[0] % 16 * 4;
            &&& msg.len() < n + 4 ==> reply(msg) == Err::<(bool, Seq<char>), _>(
                Failure::<Seq<char>>::FrameTruncated,
            )
            &&& msg.len() >= n + 4 ==> reply(msg) == Err::<(bool, Seq<char>), _>(
                Failure::Server(bytes::word_at(msg, n), text::lossy_text(server_report(msg))),
            )
        }),
{
    header_byte(msg[0]);
    header_byte(msg[1]);
}

/// The report of an error frame is its payload, all of it: the bytes behind the
/// code and the size, decompressed where the header says that they are
/// compressed. It is empty where the frame ends before it does, and where it
/// cannot be decompressed.
pub proof fn error_frames_report_their_payload(msg: Seq<u8>)
    requires
        msg.len() >= 4,
        msg.len() >= msg[0] % 16 * 4 + 4,
    ensures
        ({
            let n = msg[0] % 16 * 4;
            let size = bytes::word_at(msg, n + 4);
            if msg.len() < n + 8 || msg.len() < n + 8 + size {
                server_report(msg).len() == 0
            } else {
                let raw = msg.subrange(n + 8, n + 8 + size);
                if msg[2] % 16 != 1 || size == 0 {
                    server_report(msg) == raw
                } else {
                    match gz::gunzip_result(raw) {
                        Ok(data) => server_report(msg) == data,
                        Err(_) => server_report(msg).len() == 0,
                    }
                }
            }
        }),
{
    header_byte(msg[0]);
    header_byte(msg[2]);
}

/// What follows a frame does not change what it says.
pub proof fn what_follows_a_frame_is_ignored(msg: Seq<u8>, rest: Seq<u8>)
    requires
        reply(msg) is Ok,
    ensures
        reply(msg + rest) == reply(msg),
{
    let all = msg + rest;
    assert(all[0] == msg[0] && all[1] == msg[1] && all[2] == msg[2]);
    if msg[1] >> 4 == MSG_SERVER_FULL_RESPONSE {
        header_byte(msg[0]);
        header_byte(msg[1]);
        let at = size_at(msg);
        assert(bytes::word_at(all, at) == bytes::word_at(msg, at)) by {
            reveal(bytes::word_at);
        }
        let size = bytes::word_at(msg, at) as int;
        assert(all.subrange(at + 4, at + 4 + size) =~= msg.subrange(at + 4, at + 4 + size));
        assert(response_payload(all) == response_payload(msg));
    }
}

/// A result whose text is not blank is told by that text, without the white space
/// around it, whatever else the response holds.
pub proof fn the_text_of_a_result_is_told(
    response: Map<Seq<char>, JsonView>,
    result: Map<Seq<char>, JsonView>,
    t: Seq<char>,
)
    requires
        response.dom().contains("result"@),
        response["result"@] == JsonView::Object(result),
        result.dom().contains("text"@),
        result["text"@] == JsonView::Str(t),
        text::trimmed(t).len() > 0,
    ensures
        transcript(JsonView::Object(response)) == text::trimmed(t),
{
}

/// A result without such a text is told by its utterances, if it has any.
pub proof fn utterances_are_told_for_want_of_a_text(
    response: Map<Seq<char>, JsonView>,
    result: Map<Seq<char>, JsonView>,
)
    requires
        response.dom().contains("result"@),
        response["result"@] == JsonView::Object(result),
        result.dom().contains("text"@) && result["text"@] is Str ==> text::trimmed(
            result["text"@]->Str_0,
        ).len() == 0,
    ensures
        result.dom().contains("utterances"@) && result["utterances"@] is Array ==> transcript(
            JsonView::Object(response),
        ) == text::trimmed(utterances_text(result["utterances"@]->Array_0)),
        !(result.dom().contains("utterances"@) && result["utterances"@] is Array) ==> transcript(
            JsonView::Object(response),
        ).len() == 0,
{
    reveal_with_fuel(text::without_lead, 2);
    reveal_with_fuel(text::without_tail, 2);
}

/// A response without a result says nothing.
pub proof fn no_result_no_transcript(v: JsonView)
    requires
        v is Object && v->Object_0.dom().contains("result"@) ==> !(v->Object_0["result"@] is Object),
    ensures
        transcript(v).len() == 0,
{
    reveal_with_fuel(text::without_lead, 2);
    reveal_with_fuel(text::without_tail, 2);
}

/// The texts of utterances follow one another in order, and none is left out.
pub proof fn utterances_are_joined(a: Seq<JsonView>, b: Seq<JsonView>)
    ensures
        utterances_text(a + b) == utterances_text(a) + utterances_text(b),
    decreases b.len(),
{
    if b.len() == 0 {
        assert(a + b =~= a);
        assert(utterances_text(a) + utterances_text(b) =~= utterances_text(a));
    } else {
        utterances_are_joined(a, b.drop_last());
        assert((a + b).drop_last() =~= a + b.drop_last());
        assert(utterances_text(a + b) =~= utterances_text(a) + utterances_text(b));
    }
}

/// An utterance adds its text, as it is, and nothing where it has none.
pub proof fn an_utterance_adds_its_text(u: JsonView)
    ensures
        u is Object && u->Object_0.dom().contains("text"@) && u->Object_0["text"@] is Str
            ==> utterances_text(seq![u]) == u->Object_0["text"@]->Str_0,
        !(u is Object && u->Object_0.dom().contains("text"@) && u->Object_0["text"@] is Str)
            ==> utterances_text(seq![u]).len() == 0,
{
    assert(seq![u].drop_last() =~= Seq::empty());
    assert(utterances_text(seq![u].drop_last()) =~= Seq::empty());
    assert(utterances_text(seq![u]) =~= text_of(json::member(u, "text"@)));
}

/// What a parsed frame says is seen whole.
pub proof fn replies_are_seen_whole(is_last: bool, t: String, e: Error)
    ensures
        reply_view(Ok((is_last, t))) == Ok::<_, Failure<Seq<char>>>((is_last, t@)),
        reply_view(Err(e)) == Err::<(bool, Seq<char>), _>(e@),
{
}

} // verus!
