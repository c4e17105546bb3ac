//! Building the requests that the client sends and reading the responses.
use vstd::prelude::*;

use crate::schema::{
    decode_response, encode_request, parse_response, request_bytes, request_fits, ClientRequest,
    RequestView, SchemaError, ServerResponse, TAG_STATUS,
};

verus! {

/// Builds request messages and reads response messages.
pub struct Protocol;

impl Protocol {
    /// The request for the remote host's window list.
    pub fn create_get_window_list_request() -> (r: Result<Vec<u8>, SchemaError>)
        ensures
            r matches Ok(b) && b@ == request_bytes(RequestView::GetWindowList),
    {
        encode_request(&ClientRequest::GetWindowList)
    }

    /// The request that renders an image into `hwnd`. The dimensions are left
    /// at zero: the remote host reads them from the image itself.
    pub fn create_image_render_request(hwnd: u64, image_data: Vec<u8>) -> (r: Result<Vec<u8>, SchemaError>)
        ensures
            ({
                let req = RequestView::RenderImage {
                    target_window: hwnd,
                    pixels: image_data@,
                    width: 0,
                    height: 0,
                };
                match r {
                    Ok(b) => request_fits(req) && b@ == request_bytes(req),
                    Err(e) => !request_fits(req) && e == SchemaError::TooLarge,
                }
            }),
    {
        encode_request(&ClientRequest::RenderImage { target_window: hwnd, pixels: image_data, width: 0, height: 0 })
    }

    /// The request that shows one video frame in `hwnd`. An empty frame is
    /// the end-of-stream signal, so it is marked as the last one.
    pub fn create_video_frame_request(hwnd: u64, frame_data: Vec<u8>, width: u32, height: u32) -> (r: Result<
        Vec<u8>,
        SchemaError,
    >)
        ensures
            ({
                let req = RequestView::RenderVideoFrame {
                    target_window: hwnd,
                    pixels: frame_data@,
                    width,
                    height,
                    is_last: frame_data@.len() == 0,
                };
                match r {
                    Ok(b) => request_fits(req) && b@ == request_bytes(req),
                    Err(e) => !request_fits(req) && e == SchemaError::TooLarge,
                }
            }),
    {
        let is_last = frame_data.len() == 0;
        encode_request(
            &ClientRequest::RenderVideoFrame { target_window: hwnd, pixels: frame_data, width, height, is_last },
        )
    }

    /// Reads a response message.
    pub fn parse_server_response(data: &[u8]) -> (r: Result<ServerResponse, SchemaError>)
        ensures
            match r {
                Ok(resp) => parse_response(data@) == Some(resp@),
                Err(SchemaError::UnknownTag(t)) => data@.len() > 0 && data@[0] == t && t > TAG_STATUS,
                Err(SchemaError::Malformed) => parse_response(data@) is None && (data@.len() == 0
                    || data@[0] <= TAG_STATUS),
                Err(SchemaError::TooLarge) => false,
            },
    {
        decode_response(data)
    }
}

} // verus!
