//! The request and response messages and their byte encoding.
//!
//! Integers are little-endian. A request starts with a tag byte:
//! `0` asks for the window list; `1` renders an image and is followed by the
//! target window (8 bytes), width and height (4 bytes each) and the pixels;
//! `2` renders a video frame and carries the same fields with an `is_last`
//! byte (`0` or `1`) before the pixels. Pixels, like every byte string and
//! text, are written as a 4-byte length followed by the bytes.
use vstd::bytes::*;
use vstd::prelude::*;
use vstd::utf8::*;

use crate::bytes_util::append_bytes;
use crate::window::{windows_view, WindowInfo, WindowView};

verus! {

broadcast use {encode_utf8_valid_utf8, encode_utf8_decode_utf8};

/// A message from the client to the remote host.
#[derive(Debug, Clone)]
pub enum ClientRequest {
    GetWindowList,
    RenderImage { target_window: u64, pixels: Vec<u8>, width: u32, height: u32 },
    RenderVideoFrame { target_window: u64, pixels: Vec<u8>, width: u32, height: u32, is_last: bool },
}

/// What a request holds, as plain values.
pub enum RequestView {
    GetWindowList,
    RenderImage { target_window: u64, pixels: Seq<u8>, width: u32, height: u32 },
    RenderVideoFrame { target_window: u64, pixels: Seq<u8>, width: u32, height: u32, is_last: bool },
}

impl View for ClientRequest {
    type V = RequestView;

    open spec fn view(&self) -> RequestView {
        match self {
            ClientRequest::GetWindowList => RequestView::GetWindowList,
            ClientRequest::RenderImage { target_window, pixels, width, height } => RequestView::RenderImage {
                target_window: *target_window,
                pixels: pixels@,
                width: *width,
                height: *height,
            },
            ClientRequest::RenderVideoFrame { target_window, pixels, width, height, is_last } => RequestView::RenderVideoFrame {
                target_window: *target_window,
                pixels: pixels@,
                width: *width,
                height: *height,
                is_last: *is_last,
            },
        }
    }
}

/// Why a message could not be encoded or decoded.
#[derive(Debug, Clone, Copy, PartialEq, Eq, Structural)]
pub enum SchemaError {
    /// The first byte names no message kind.
    UnknownTag(u8),
    /// The bytes are empty, truncated, too long, or hold an invalid field.
    Malformed,
    /// The encoded message would not fit in one frame.
    TooLarge,
}

/// Tag bytes of the request kinds.
pub const TAG_GET_WINDOW_LIST: u8 = 0;
pub const TAG_RENDER_IMAGE: u8 = 1;
pub const TAG_RENDER_VIDEO_FRAME: u8 = 2;

/// Largest number of bytes that one message may take.
pub const MAX_MESSAGE_LEN: usize = 0xffff_ffff;

/// A byte string on the wire: its length, then its bytes.
pub open spec fn blob(b: Seq<u8>) -> Seq<u8> {
    spec_u32_to_le_bytes(b.len() as u32) + b
}

/// The byte for a flag.
pub open spec fn flag_byte(f: bool) -> u8 {
    if f { 1 } else { 0 }
}

/// The bytes of the fields shared by image and video requests.
pub open spec fn render_head(tag: u8, target_window: u64, width: u32, height: u32) -> Seq<u8> {
    seq![tag] + spec_u64_to_le_bytes(target_window) + spec_u32_to_le_bytes(width)
        + spec_u32_to_le_bytes(height)
}

/// The encoding of a request.
pub open spec fn request_bytes(r: RequestView) -> Seq<u8> {
    match r {
        RequestView::GetWindowList => seq![TAG_GET_WINDOW_LIST],
        RequestView::RenderImage { target_window, pixels, width, height } =>
            render_head(TAG_RENDER_IMAGE, target_window, width, height) + blob(pixels),
        RequestView::RenderVideoFrame { target_window, pixels, width, height, is_last } =>
            render_head(TAG_RENDER_VIDEO_FRAME, target_window, width, height) + seq![flag_byte(is_last)]
                + blob(pixels),
    }
}

/// A request fits in one frame.
pub open spec fn request_fits(r: RequestView) -> bool {
    match r {
        RequestView::GetWindowList => true,
        RequestView::RenderImage { pixels, .. } => 21 + pixels.len() <= MAX_MESSAGE_LEN,
        RequestView::RenderVideoFrame { pixels, .. } => 22 + pixels.len() <= MAX_MESSAGE_LEN,
    }
}

/// The little-endian `u32` at `pos` in `b`.
pub open spec fn u32_at(b: Seq<u8>, pos: int) -> u32 {
    spec_u32_from_le_bytes(b.subrange(pos, pos + 4))
}

/// The little-endian `u64` at `pos` in `b`.
pub open spec fn u64_at(b: Seq<u8>, pos: int) -> u64 {
    spec_u64_from_le_bytes(b.subrange(pos, pos + 8))
}

/// The request that `b` encodes, if it encodes one.
pub open spec fn parse_request(b: Seq<u8>) -> Option<RequestView> {
    if b.len() == 0 {
        None
    } else if b[0] == TAG_GET_WINDOW_LIST {
        if b.len() == 1 { Some(RequestView::GetWindowList) } else { None }
    } else if b[0] == TAG_RENDER_IMAGE || b[0] == TAG_RENDER_VIDEO_FRAME {
        let video = b[0] == TAG_RENDER_VIDEO_FRAME;
        let at: int = if video { 18 } else { 17 };
        if b.len() < at + 4 || b.len() != at + 4 + u32_at(b, at) || (video && b[17] > 1) {
            None
        } else {
            let target_window = u64_at(b, 1);
            let width = u32_at(b, 9);
            let height = u32_at(b, 13);
            let pixels = b.subrange(at + 4, b.len() as int);
            if video {
                Some(RequestView::RenderVideoFrame { target_window, pixels, width, height, is_last: b[17] == 1 })
            } else {
                Some(RequestView::RenderImage { target_window, pixels, width, height })
            }
        }
    } else {
        None
    }
}

/// Reading back an encoded request gives the same request.
pub proof fn lemma_request_round_trip(r: RequestView)
    requires
        request_fits(r),
    ensures
        parse_request(request_bytes(r)) == Some(r),
{
    lemma_auto_spec_u32_to_from_le_bytes();
    lemma_auto_spec_u64_to_from_le_bytes();
    let b = request_bytes(r);
    match r {
        RequestView::GetWindowList => {},
        RequestView::RenderImage { target_window, pixels, width, height } => {
            assert(b.subrange(1, 9) == spec_u64_to_le_bytes(target_window));
            assert(b.subrange(9, 13) == spec_u32_to_le_bytes(width));
            assert(b.subrange(13, 17) == spec_u32_to_le_bytes(height));
            assert(b.subrange(17, 21) == spec_u32_to_le_bytes(pixels.len() as u32));
            assert(b.subrange(21, b.len() as int) == pixels);
        },
        RequestView::RenderVideoFrame { target_window, pixels, width, height, is_last } => {
            assert(b.subrange(1, 9) == spec_u64_to_le_bytes(target_window));
            assert(b.subrange(9, 13) == spec_u32_to_le_bytes(width));
            assert(b.subrange(13, 17) == spec_u32_to_le_bytes(height));
            assert(b[17] == flag_byte(is_last));
            assert(b.subrange(18, 22) == spec_u32_to_le_bytes(pixels.len() as u32));
            assert(b.subrange(22, b.len() as int) == pixels);
        },
    }
}

/// The bytes that decode as a request are exactly that request's encoding.
pub proof fn lemma_request_parse_exact(b: Seq<u8>)
    requires
        parse_request(b) is Some,
    ensures
        request_bytes(parse_request(b).unwrap()) == b,
{
    lemma_auto_spec_u32_to_from_le_bytes();
    lemma_auto_spec_u64_to_from_le_bytes();
    if b[0] == TAG_GET_WINDOW_LIST {
        assert(b =~= seq![TAG_GET_WINDOW_LIST]);
    } else {
        let video = b[0] == TAG_RENDER_VIDEO_FRAME;
        let at: int = if video { 18 } else { 17 };
        let pixels = b.subrange(at + 4, b.len() as int);
        assert(spec_u64_to_le_bytes(u64_at(b, 1)) == b.subrange(1, 9));
        assert(spec_u32_to_le_bytes(u32_at(b, 9)) == b.subrange(9, 13));
        assert(spec_u32_to_le_bytes(u32_at(b, 13)) == b.subrange(13, 17));
        assert(spec_u32_to_le_bytes(u32_at(b, at)) == b.subrange(at, at + 4));
        assert(pixels.len() as u32 == u32_at(b, at));
        let head = render_head(b[0], u64_at(b, 1), u32_at(b, 9), u32_at(b, 13));
        assert(head =~= b.subrange(0, 17));
        if video {
            assert(flag_byte(b[17] == 1) == b[17]);
            assert(head + seq![b[17]] + blob(pixels) =~= b);
        } else {
            assert(head + blob(pixels) =~= b);
        }
    }
}

/// The little-endian `u32` at `pos` in `b`.
fn read_u32_at(b: &[u8], pos: usize) -> (r: u32)
    requires
        pos + 4 <= b@.len(),
    ensures
        r == u32_at(b@, pos as int),
{
    let _ = b.len();
    u32_from_le_bytes(vstd::slice::slice_subrange(b, pos, pos + 4))
}

/// The little-endian `u64` at `pos` in `b`.
fn read_u64_at(b: &[u8], pos: usize) -> (r: u64)
    requires
        pos + 8 <= b@.len(),
    ensures
        r == u64_at(b@, pos as int),
{
    let _ = b.len();
    u64_from_le_bytes(vstd::slice::slice_subrange(b, pos, pos + 8))
}

/// Appends the fields shared by image and video requests.
fn push_render_head(out: &mut Vec<u8>, tag: u8, target_window: u64, width: u32, height: u32)
    requires
        old(out)@.len() == 0,
    ensures
        final(out)@ == render_head(tag, target_window, width, height),
        final(out)@.len() == 17,
{
    out.push(tag);
    append_bytes(out, u64_to_le_bytes(target_window).as_slice());
    append_bytes(out, u32_to_le_bytes(width).as_slice());
    append_bytes(out, u32_to_le_bytes(height).as_slice());
}

/// Appends a byte string as its length followed by its bytes.
fn push_blob(out: &mut Vec<u8>, b: &[u8])
    requires
        old(out)@.len() + 4 + b@.len() <= MAX_MESSAGE_LEN,
    ensures
        final(out)@ == old(out)@ + blob(b@),
{
    let ghost start = out@;
    let len = u32_to_le_bytes(b.len() as u32);
    append_bytes(out, len.as_slice());
    append_bytes(out, b);
    proof {
        assert(start + len@ + b@ == start + (len@ + b@));
    }
}

/// Encodes a request, or fails with `TooLarge` when it would not fit in one frame.
pub fn encode_request(r: &ClientRequest) -> (res: Result<Vec<u8>, SchemaError>)
    ensures
        match res {
            Ok(b) => request_fits(r@) && b@ == request_bytes(r@),
            Err(e) => !request_fits(r@) && e == SchemaError::TooLarge,
        },
{
    let mut out: Vec<u8> = Vec::new();
    match r {
        ClientRequest::GetWindowList => {
            out.push(TAG_GET_WINDOW_LIST);
            assert(out@ == seq![TAG_GET_WINDOW_LIST]);
        },
        ClientRequest::RenderImage { target_window, pixels, width, height } => {
            if pixels.len() > MAX_MESSAGE_LEN - 21 {
                return Err(SchemaError::TooLarge);
            }
            push_render_head(&mut out, TAG_RENDER_IMAGE, *target_window, *width, *height);
            push_blob(&mut out, pixels.as_slice());
        },
        ClientRequest::RenderVideoFrame { target_window, pixels, width, height, is_last } => {
            if pixels.len() > MAX_MESSAGE_LEN - 22 {
                return Err(SchemaError::TooLarge);
            }
            push_render_head(&mut out, TAG_RENDER_VIDEO_FRAME, *target_window, *width, *height);
            out.push(if *is_last { 1 } else { 0 });
            push_blob(&mut out, pixels.as_slice());
        },
    }
    Ok(out)
}

/// Decodes a request. An unknown first byte gives `UnknownTag`; any other
/// departure from the encoding gives `Malformed`.
pub fn decode_request(b: &[u8]) -> (res: Result<ClientRequest, SchemaError>)
    ensures
        match res {
            Ok(r) => parse_request(b@) == Some(r@),
            Err(SchemaError::UnknownTag(t)) => b@.len() > 0 && b@[0] == t && t > TAG_RENDER_VIDEO_FRAME,
            Err(SchemaError::Malformed) => parse_request(b@) is None && (b@.len() == 0 || b@[0]
                <= TAG_RENDER_VIDEO_FRAME),
            Err(SchemaError::TooLarge) => false,
        },
{
    if b.len() == 0 {
        return Err(SchemaError::Malformed);
    }
    let tag = b[0];
    if tag == TAG_GET_WINDOW_LIST {
        if b.len() == 1 {
            return Ok(ClientRequest::GetWindowList);
        }
        return Err(SchemaError::Malformed);
    }
    if tag > TAG_RENDER_VIDEO_FRAME {
        return Err(SchemaError::UnknownTag(tag));
    }
    let video = tag == TAG_RENDER_VIDEO_FRAME;
    let at: usize = if video { 18 } else { 17 };
    if b.len() < at + 4 {
        return Err(SchemaError::Malformed);
    }
    let n = read_u32_at(b, at);
    if b.len() - (at + 4) != n as usize || (video && b[17] > 1) {
        return Err(SchemaError::Malformed);
    }
    let target_window = read_u64_at(b, 1);
    let width = read_u32_at(b, 9);
    let height = read_u32_at(b, 13);
    let pixels = vstd::slice::slice_to_vec(vstd::slice::slice_subrange(b, at + 4, b.len()));
    if video {
        Ok(ClientRequest::RenderVideoFrame { target_window, pixels, width, height, is_last: b[17] == 1 })
    } else {
        Ok(ClientRequest::RenderImage { target_window, pixels, width, height })
    }
}

/// A message from the remote host to the client.
#[derive(Debug, Clone)]
pub enum ServerResponse {
    WindowList { windows: Vec<WindowInfo> },
    Status { success: bool, message: String },
}

/// What a response holds, as plain values.
pub enum ResponseView {
    WindowList { windows: Seq<WindowView> },
    Status { success: bool, message: Seq<char> },
}

impl View for ServerResponse {
    type V = ResponseView;

    open spec fn view(&self) -> ResponseView {
        match self {
            ServerResponse::WindowList { windows } => ResponseView::WindowList {
                windows: windows_view(windows@),
            },
            ServerResponse::Status { success, message } => ResponseView::Status {
                success: *success,
                message: message@,
            },
        }
    }
}

/// Tag bytes of the response kinds.
pub const TAG_WINDOW_LIST: u8 = 0;
pub const TAG_STATUS: u8 = 1;

/// A text on the wire: its UTF-8 bytes as a byte string.
pub open spec fn text_bytes(t: Seq<char>) -> Seq<u8> {
    blob(encode_utf8(t))
}

/// The encoding of one window description.
pub open spec fn window_bytes(w: WindowView) -> Seq<u8> {
    spec_u64_to_le_bytes(w.handle) + text_bytes(w.title) + text_bytes(w.class_name)
}

/// The encodings of a list of windows, one after the other.
pub open spec fn windows_bytes(ws: Seq<WindowView>) -> Seq<u8>
    decreases ws.len(),
{
    if ws.len() == 0 {
        Seq::empty()
    } else {
        window_bytes(ws[0]) + windows_bytes(ws.drop_first())
    }
}

/// The encoding of a response.
pub open spec fn response_bytes(r: ResponseView) -> Seq<u8> {
    match r {
        ResponseView::WindowList { windows } => seq![TAG_WINDOW_LIST] + spec_u32_to_le_bytes(
            windows.len() as u32,
        ) + windows_bytes(windows),
        ResponseView::Status { success, message } => seq![TAG_STATUS, flag_byte(success)]
            + text_bytes(message),
    }
}

/// A text whose byte string length fits in its prefix.
pub open spec fn text_fits(t: Seq<char>) -> bool {
    encode_utf8(t).len() <= MAX_MESSAGE_LEN
}

/// A response fits in one frame, and so does each of its counts and lengths.
pub open spec fn response_fits(r: ResponseView) -> bool {
    &&& response_bytes(r).len() <= MAX_MESSAGE_LEN
    &&& match r {
        ResponseView::WindowList { windows } => {
            &&& windows.len() <= MAX_MESSAGE_LEN
            &&& forall|i: int|
                0 <= i < windows.len() ==> text_fits(#[trigger] windows[i].title) && text_fits(
                    windows[i].class_name,
                )
        },
        ResponseView::Status { message, .. } => text_fits(message),
    }
}

/// The text that starts at `pos` in `b`, and where it ends.
pub open spec fn text_at(b: Seq<u8>, pos: int) -> Option<(Seq<char>, int)> {
    if pos < 0 || b.len() < pos + 4 {
        None
    } else {
        let end = pos + 4 + u32_at(b, pos);
        if b.len() < end || !valid_utf8(b.subrange(pos + 4, end)) {
            None
        } else {
            Some((decode_utf8(b.subrange(pos + 4, end)), end))
        }
    }
}

/// The window description that starts at `pos` in `b`, and where it ends.
pub open spec fn window_at(b: Seq<u8>, pos: int) -> Option<(WindowView, int)> {
    if pos < 0 || b.len() < pos + 8 {
        None
    } else {
        match text_at(b, pos + 8) {
            None => None,
            Some((title, p)) => match text_at(b, p) {
                None => None,
                Some((class_name, end)) => Some(
                    (WindowView { handle: u64_at(b, pos), title, class_name }, end),
                ),
            },
        }
    }
}

/// Exactly `count` window descriptions from `pos` to the end of `b`.
pub open spec fn windows_at(b: Seq<u8>, pos: int, count: nat) -> Option<Seq<WindowView>>
    decreases count,
{
    if count == 0 {
        if pos == b.len() { Some(Seq::empty()) } else { None }
    } else {
        match window_at(b, pos) {
            None => None,
            Some((w, next)) => match windows_at(b, next, (count - 1) as nat) {
                None => None,
                Some(ws) => Some(seq![w] + ws),
            },
        }
    }
}

/// The response that `b` encodes, if it encodes one.
pub open spec fn parse_response(b: Seq<u8>) -> Option<ResponseView> {
    if b.len() == 0 {
        None
    } else if b[0] == TAG_WINDOW_LIST {
        if b.len() < 5 {
            None
        } else {
            match windows_at(b, 5, u32_at(b, 1) as nat) {
                None => None,
                Some(windows) => Some(ResponseView::WindowList { windows }),
            }
        }
    } else if b[0] == TAG_STATUS {
        if b.len() < 2 || b[1] > 1 {
            None
        } else {
            match text_at(b, 2) {
                Some((message, end)) => if end == b.len() {
                    Some(ResponseView::Status { success: b[1] == 1, message })
                } else {
                    None
                },
                None => None,
            }
        }
    } else {
        None
    }
}

/// `some` with `prefix` put in front of the list it holds.
pub open spec fn prepend(prefix: Seq<WindowView>, rest: Option<Seq<WindowView>>) -> Option<Seq<WindowView>> {
    match rest {
        Some(ws) => Some(prefix + ws),
        None => None,
    }
}

proof fn lemma_text_at(b: Seq<u8>, pos: int, t: Seq<char>)
    requires
        0 <= pos,
        text_fits(t),
        pos + text_bytes(t).len() <= b.len(),
        b.subrange(pos, pos + text_bytes(t).len()) == text_bytes(t),
    ensures
        text_at(b, pos) == Some((t, pos + text_bytes(t).len())),
{
    lemma_auto_spec_u32_to_from_le_bytes();
    let e = encode_utf8(t);
    assert(b.subrange(pos, pos + 4) == b.subrange(pos, pos + text_bytes(t).len()).subrange(0, 4));
    assert(text_bytes(t).subrange(0, 4) == spec_u32_to_le_bytes(e.len() as u32));
    let s = b.subrange(pos, pos + text_bytes(t).len());
    assert(s.subrange(4, 4 + e.len() as int) == e);
    assert(b.subrange(pos + 4, pos + 4 + e.len()) == s.subrange(4, 4 + e.len() as int));
}

proof fn lemma_window_at(b: Seq<u8>, pos: int, w: WindowView)
    requires
        0 <= pos,
        text_fits(w.title),
        text_fits(w.class_name),
        pos + window_bytes(w).len() <= b.len(),
        b.subrange(pos, pos + window_bytes(w).len()) == window_bytes(w),
    ensures
        window_at(b, pos) == Some((w, pos + window_bytes(w).len())),
{
    lemma_auto_spec_u64_to_from_le_bytes();
    let h = spec_u64_to_le_bytes(w.handle);
    let t = text_bytes(w.title);
    let c = text_bytes(w.class_name);
    let tl = t.len() as int;
    let cl = c.len() as int;
    let s = b.subrange(pos, pos + window_bytes(w).len());
    assert(b.subrange(pos, pos + 8) == s.subrange(0, 8));
    assert(s.subrange(0, 8) == h);
    assert(b.subrange(pos + 8, pos + 8 + tl) == s.subrange(8, 8 + tl));
    assert(s.subrange(8, 8 + tl) == t);
    lemma_text_at(b, pos + 8, w.title);
    assert(b.subrange(pos + 8 + tl, pos + 8 + tl + cl) == s.subrange(8 + tl, 8 + tl + cl));
    assert(s.subrange(8 + tl, 8 + tl + cl) == c);
    lemma_text_at(b, pos + 8 + tl, w.class_name);
}

proof fn lemma_windows_at(b: Seq<u8>, pos: int, ws: Seq<WindowView>)
    requires
        0 <= pos <= b.len(),
        b.subrange(pos, b.len() as int) == windows_bytes(ws),
        forall|i: int|
            0 <= i < ws.len() ==> text_fits(#[trigger] ws[i].title) && text_fits(ws[i].class_name),
    ensures
        windows_at(b, pos, ws.len()) == Some(ws),
    decreases ws.len(),
{
    if ws.len() == 0 {
        assert(b.subrange(pos, b.len() as int).len() == 0);
    } else {
        let w = ws[0];
        let n = window_bytes(w).len() as int;
        let rest = ws.drop_first();
        assert(windows_bytes(ws) == window_bytes(w) + windows_bytes(rest));
        let whole = b.subrange(pos, b.len() as int);
        assert(whole.subrange(0, n) =~= window_bytes(w));
        assert(whole.subrange(n, whole.len() as int) =~= windows_bytes(rest));
        assert(b.subrange(pos, pos + n) == b.subrange(pos, b.len() as int).subrange(0, n));
        lemma_window_at(b, pos, w);
        assert(b.subrange(pos + n, b.len() as int) == b.subrange(pos, b.len() as int).subrange(
            n,
            b.len() - pos,
        ));
        assert forall|i: int| 0 <= i < rest.len() implies text_fits(#[trigger] rest[i].title)
            && text_fits(rest[i].class_name) by {
            assert(rest[i] == ws[i + 1]);
            assert(text_fits(ws[i + 1].title));
        }
        lemma_windows_at(b, pos + n, rest);
        assert(seq![w] + rest =~= ws);
        assert(windows_at(b, pos, ws.len()) == prepend(seq![w], windows_at(b, pos + n, rest.len())));
    }
}

proof fn lemma_text_at_exact(b: Seq<u8>, pos: int)
    requires
        text_at(b, pos) is Some,
    ensures
        pos < text_at(b, pos).unwrap().1 <= b.len(),
        b.subrange(pos, text_at(b, pos).unwrap().1) == text_bytes(text_at(b, pos).unwrap().0),
{
    lemma_auto_spec_u32_to_from_le_bytes();
    let end = text_at(b, pos).unwrap().1;
    let raw = b.subrange(pos + 4, end);
    decode_utf8_encode_utf8(raw);
    assert(encode_utf8(decode_utf8(raw)) == raw);
    assert(spec_u32_to_le_bytes(u32_at(b, pos)) == b.subrange(pos, pos + 4));
    assert(b.subrange(pos, pos + 4) + raw =~= b.subrange(pos, end));
}

proof fn lemma_window_at_exact(b: Seq<u8>, pos: int)
    requires
        window_at(b, pos) is Some,
    ensures
        pos < window_at(b, pos).unwrap().1 <= b.len(),
        b.subrange(pos, window_at(b, pos).unwrap().1) == window_bytes(window_at(b, pos).unwrap().0),
{
    lemma_auto_spec_u64_to_from_le_bytes();
    let (title, p) = text_at(b, pos + 8).unwrap();
    let (class_name, end) = text_at(b, p).unwrap();
    lemma_text_at_exact(b, pos + 8);
    lemma_text_at_exact(b, p);
    assert(spec_u64_to_le_bytes(u64_at(b, pos)) == b.subrange(pos, pos + 8));
    assert(b.subrange(pos, pos + 8) + b.subrange(pos + 8, p) + b.subrange(p, end) =~= b.subrange(pos, end));
}

proof fn lemma_windows_at_exact(b: Seq<u8>, pos: int, count: nat)
    requires
        windows_at(b, pos, count) is Some,
    ensures
        0 <= pos <= b.len(),
        windows_at(b, pos, count).unwrap().len() == count,
        b.subrange(pos, b.len() as int) == windows_bytes(windows_at(b, pos, count).unwrap()),
    decreases count,
{
    if count == 0 {
        assert(b.subrange(pos, b.len() as int) =~= Seq::<u8>::empty());
    } else {
        let (w, next) = window_at(b, pos).unwrap();
        lemma_window_at_exact(b, pos);
        lemma_windows_at_exact(b, next, (count - 1) as nat);
        let rest = windows_at(b, next, (count - 1) as nat).unwrap();
        let ws = seq![w] + rest;
        assert(ws.drop_first() =~= rest);
        assert(ws[0] == w);
        assert(b.subrange(pos, next) + b.subrange(next, b.len() as int) =~= b.subrange(pos, b.len() as int));
    }
}

/// The bytes that decode as a response are exactly that response's encoding.
pub proof fn lemma_response_parse_exact(b: Seq<u8>)
    requires
        parse_response(b) is Some,
    ensures
        response_bytes(parse_response(b).unwrap()) == b,
{
    lemma_auto_spec_u32_to_from_le_bytes();
    if b[0] == TAG_WINDOW_LIST {
        let n = u32_at(b, 1);
        lemma_windows_at_exact(b, 5, n as nat);
        let ws = windows_at(b, 5, n as nat).unwrap();
        assert(ws.len() as u32 == n);
        assert(spec_u32_to_le_bytes(n) == b.subrange(1, 5));
        assert(seq![b[0]] + b.subrange(1, 5) + b.subrange(5, b.len() as int) =~= b);
    } else {
        lemma_text_at_exact(b, 2);
        assert(flag_byte(b[1] == 1) == b[1]);
        assert(seq![b[0], b[1]] + b.subrange(2, b.len() as int) =~= b);
    }
}

/// Encoding two lists of windows one after the other gives the encoding of
/// the joined list.
proof fn lemma_windows_bytes_concat(a: Seq<WindowView>, c: Seq<WindowView>)
    ensures
        windows_bytes(a + c) == windows_bytes(a) + windows_bytes(c),
    decreases a.len(),
{
    if a.len() == 0 {
        assert(a + c == c);
    } else {
        assert((a + c).drop_first() == a.drop_first() + c);
        lemma_windows_bytes_concat(a.drop_first(), c);
    }
}

/// Reading back an encoded response gives the same response.
pub proof fn lemma_response_round_trip(r: ResponseView)
    requires
        response_fits(r),
    ensures
        parse_response(response_bytes(r)) == Some(r),
{
    lemma_auto_spec_u32_to_from_le_bytes();
    let b = response_bytes(r);
    match r {
        ResponseView::WindowList { windows } => {
            assert(b.subrange(1, 5) == spec_u32_to_le_bytes(windows.len() as u32));
            assert(b.subrange(5, b.len() as int) == windows_bytes(windows));
            lemma_windows_at(b, 5, windows);
        },
        ResponseView::Status { success, message } => {
            assert(b.subrange(2, b.len() as int) == text_bytes(message));
            lemma_text_at(b, 2, message);
        },
    }
}

/// Relies on `String::from_utf8`: it accepts exactly the valid UTF-8 byte
/// sequences, and the string it returns holds the characters they encode.
#[verifier::external_body]
fn string_from_utf8(bytes: Vec<u8>) -> (r: Option<String>)
    ensures
        r is Some <==> valid_utf8(bytes@),
        r matches Some(s) ==> s@ == decode_utf8(bytes@),
{
    String::from_utf8(bytes).ok()
}

/// Reads the text that starts at `pos`, and where it ends.
fn read_text(b: &[u8], pos: usize) -> (r: Option<(String, usize)>)
    ensures
        match r {
            Some((s, end)) => text_at(b@, pos as int) == Some((s@, end as int)),
            None => text_at(b@, pos as int) is None,
        },
{
    let len = b.len();
    if len < 4 || pos > len - 4 {
        return None;
    }
    let n = read_u32_at(b, pos);
    if len - (pos + 4) < n as usize {
        return None;
    }
    let end = pos + 4 + n as usize;
    let bytes = vstd::slice::slice_to_vec(vstd::slice::slice_subrange(b, pos + 4, end));
    match string_from_utf8(bytes) {
        Some(s) => Some((s, end)),
        None => None,
    }
}

/// Reads the window description that starts at `pos`, and where it ends.
fn read_window(b: &[u8], pos: usize) -> (r: Option<(WindowInfo, usize)>)
    ensures
        match r {
            Some((w, end)) => window_at(b@, pos as int) == Some((w@, end as int)),
            None => window_at(b@, pos as int) is None,
        },
{
    let len = b.len();
    if len < 8 || pos > len - 8 {
        return None;
    }
    let handle = read_u64_at(b, pos);
    match read_text(b, pos + 8) {
        None => None,
        Some((title, p)) => match read_text(b, p) {
            None => None,
            Some((class_name, end)) => Some((WindowInfo { handle, title, class_name }, end)),
        },
    }
}

/// Decodes a response. An unknown first byte gives `UnknownTag`; any other
/// departure from the encoding gives `Malformed`.
pub fn decode_response(b: &[u8]) -> (res: Result<ServerResponse, SchemaError>)
    ensures
        match res {
            Ok(r) => parse_response(b@) == Some(r@),
            Err(SchemaError::UnknownTag(t)) => b@.len() > 0 && b@[0] == t && t > TAG_STATUS,
            Err(SchemaError::Malformed) => parse_response(b@) is None && (b@.len() == 0 || b@[0]
                <= TAG_STATUS),
            Err(SchemaError::TooLarge) => false,
        },
{
    if b.len() == 0 {
        return Err(SchemaError::Malformed);
    }
    let tag = b[0];
    if tag == TAG_WINDOW_LIST {
        if b.len() < 5 {
            return Err(SchemaError::Malformed);
        }
        let count = read_u32_at(b, 1);
        let mut windows: Vec<WindowInfo> = Vec::new();
        let mut pos: usize = 5;
        let mut i: u32 = 0;
        while i < count
            invariant
                5 <= pos <= b@.len(),
                b@[0] == TAG_WINDOW_LIST,
                i <= count,
                count == u32_at(b@, 1),
                windows_at(b@, 5, count as nat) == prepend(
                    windows_view(windows@),
                    windows_at(b@, pos as int, (count - i) as nat),
                ),
            decreases count - i,
        {
            match read_window(b, pos) {
                None => {
                    assert(windows_at(b@, pos as int, (count - i) as nat) is None);
                    return Err(SchemaError::Malformed);
                },
                Some((w, next)) => {
                    proof {
                        let rest = windows_at(b@, next as int, (count - i - 1) as nat);
                        assert(windows_view(windows@.push(w)) =~= windows_view(windows@).push(w@));
                        if let Some(ws) = rest {
                            assert(windows_view(windows@) + (seq![w@] + ws) =~= windows_view(
                                windows@,
                            ).push(w@) + ws);
                        }
                    }
                    windows.push(w);
                    pos = next;
                    i = i + 1;
                },
            }
        }
        if pos != b.len() {
            return Err(SchemaError::Malformed);
        }
        assert(windows_view(windows@) + Seq::empty() =~= windows_view(windows@));
        Ok(ServerResponse::WindowList { windows })
    } else if tag == TAG_STATUS {
        if b.len() < 2 || b[1] > 1 {
            return Err(SchemaError::Malformed);
        }
        match read_text(b, 2) {
            Some((message, end)) => {
                if end == b.len() {
                    Ok(ServerResponse::Status { success: b[1] == 1, message })
                } else {
                    Err(SchemaError::Malformed)
                }
            },
            None => Err(SchemaError::Malformed),
        }
    } else {
        Err(SchemaError::UnknownTag(tag))
    }
}

/// Appends a text as the byte string of its UTF-8 encoding.
fn push_text(out: &mut Vec<u8>, t: &String)
    requires
        old(out)@.len() + 4 + encode_utf8(t@).len() <= MAX_MESSAGE_LEN,
    ensures
        final(out)@ == old(out)@ + text_bytes(t@),
{
    let bytes = t.as_str().as_bytes();
    push_blob(out, bytes);
}

/// Appends the encoding of one window description.
fn push_window(out: &mut Vec<u8>, w: &WindowInfo)
    requires
        old(out)@.len() + window_bytes(w@).len() <= MAX_MESSAGE_LEN,
    ensures
        final(out)@ == old(out)@ + window_bytes(w@),
{
    proof {
        lemma_auto_spec_u32_to_from_le_bytes();
        lemma_auto_spec_u64_to_from_le_bytes();
    }
    let ghost start = out@;
    let h = u64_to_le_bytes(w.handle);
    append_bytes(out, h.as_slice());
    push_text(out, &w.title);
    push_text(out, &w.class_name);
    proof {
        let t = text_bytes(w@.title);
        let c = text_bytes(w@.class_name);
        assert(start + h@ + t + c =~= start + (h@ + t + c));
        assert(window_bytes(w@) == h@ + t + c);
    }
}

/// Encodes a response that fits in one frame.
pub fn encode_response(r: &ServerResponse) -> (b: Vec<u8>)
    requires
        response_fits(r@),
    ensures
        b@ == response_bytes(r@),
{
    let mut out: Vec<u8> = Vec::new();
    match r {
        ServerResponse::WindowList { windows } => {
            let ghost ws = windows_view(windows@);
            out.push(TAG_WINDOW_LIST);
            append_bytes(&mut out, u32_to_le_bytes(windows.len() as u32).as_slice());
            let ghost head = out@;
            assert(head == seq![TAG_WINDOW_LIST] + spec_u32_to_le_bytes(ws.len() as u32));
            let mut i: usize = 0;
            while i < windows.len()
                invariant
                    ws == windows_view(windows@),
                    response_fits(ResponseView::WindowList { windows: ws }),
                    i <= windows@.len(),
                    head.len() == 5,
                    head == seq![TAG_WINDOW_LIST] + spec_u32_to_le_bytes(ws.len() as u32),
                    out@ == head + windows_bytes(ws.take(i as int)),
                decreases windows@.len() - i,
            {
                proof {
                    let w = ws[i as int];
                    assert(ws.take(i + 1) =~= ws.take(i as int) + seq![w]);
                    assert(ws =~= ws.take(i + 1) + ws.skip(i + 1));
                    lemma_windows_bytes_concat(ws.take(i as int), seq![w]);
                    lemma_windows_bytes_concat(ws.take(i + 1), ws.skip(i + 1));
                    assert(seq![w].drop_first() =~= Seq::<WindowView>::empty());
                    assert(seq![w][0] == w);
                    assert(windows_bytes(seq![w].drop_first()) == Seq::<u8>::empty());
                    assert(windows_bytes(seq![w]) == window_bytes(w) + windows_bytes(seq![w].drop_first()));
                    assert(windows_bytes(seq![w]) =~= window_bytes(w));
                    assert(text_fits(ws[i as int].title));
                }
                push_window(&mut out, &windows[i]);
                proof {
                    let w = ws[i as int];
                    assert(head + windows_bytes(ws.take(i as int)) + window_bytes(w) =~= head
                        + windows_bytes(ws.take(i + 1)));
                }
                i = i + 1;
            }
            assert(ws.take(ws.len() as int) =~= ws);
        },
        ServerResponse::Status { success, message } => {
            proof {
                lemma_auto_spec_u32_to_from_le_bytes();
            }
            out.push(TAG_STATUS);
            out.push(if *success { 1 } else { 0 });
            push_text(&mut out, message);
            assert(seq![TAG_STATUS] + seq![flag_byte(*success)] =~= seq![TAG_STATUS, flag_byte(*success)]);
        },
    }
    out
}

} // verus!
