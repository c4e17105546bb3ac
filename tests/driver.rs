use windowcaster_client::codec::{read_frame, write_frame};
use windowcaster_client::connection::Connection;
use windowcaster_client::driver::{DriverAction, DriverError, DriverEvent, Phase, StreamDriver};
use windowcaster_client::schema::{decode_request, encode_response, ClientRequest, ServerResponse};

struct Session {
    requests: Vec<ClientRequest>,
    rejected: Vec<usize>,
    outcome: Result<(), DriverError>,
    phase: Phase,
}

fn ok() -> Option<ServerResponse> {
    Some(ServerResponse::Status { success: true, message: String::new() })
}

/// Runs a whole session against a mock remote. `remote` gets the number of
/// the request (from 1) and answers it, or closes the transport with `None`.
fn drive(
    target: u64,
    width: u32,
    height: u32,
    frames: Vec<Vec<u8>>,
    mut remote: impl FnMut(usize) -> Option<ServerResponse>,
) -> Session {
    let mut conn = Connection::new();
    conn.mark_connected();
    let mut driver = StreamDriver::new(target);
    let mut frames = frames.into_iter();
    let mut requests: Vec<ClientRequest> = Vec::new();
    let mut rejected: Vec<usize> = Vec::new();
    let mut outstanding = 0usize;
    let mut closed = false;
    let mut action = driver.step(DriverEvent::Opened { width, height });
    let outcome = loop {
        match action {
            DriverAction::NextFrame { remote_rejected } => {
                if remote_rejected {
                    rejected.push(requests.len());
                }
                action = match frames.next() {
                    Some(pixels) => driver.step(DriverEvent::Frame { pixels, width, height }),
                    None => driver.step(DriverEvent::Exhausted),
                };
            }
            DriverAction::Send { payload } => {
                assert!(!closed, "sent after the transport closed");
                assert_eq!(outstanding, 0, "a request was sent before the previous one was answered");
                let wire = conn.frame_outgoing(&payload).unwrap();
                let (received, used) = read_frame(&wire).unwrap();
                assert_eq!(used, wire.len());
                requests.push(decode_request(&received).unwrap());
                outstanding += 1;
                match remote(requests.len()) {
                    Some(response) => {
                        let mut reply: Vec<u8> = Vec::new();
                        write_frame(&mut reply, &encode_response(&response));
                        let (payload, _) = read_frame(&reply).unwrap();
                        outstanding -= 1;
                        action = driver.step(DriverEvent::Response { payload });
                    }
                    None => {
                        closed = true;
                        action = driver.step(DriverEvent::TransportFailed);
                    }
                }
            }
            DriverAction::Finish => break Ok(()),
            DriverAction::Abort { error } => break Err(error),
        }
    };
    Session { requests, rejected, outcome, phase: driver.phase }
}

fn video_frame(r: &ClientRequest) -> (u64, usize, u32, u32, bool) {
    match r {
        ClientRequest::RenderVideoFrame { target_window, pixels, width, height, is_last } => {
            (*target_window, pixels.len(), *width, *height, *is_last)
        }
        _ => panic!("expected a video frame request"),
    }
}

#[test]
fn n_frames_give_n_plus_one_requests() {
    for n in [0usize, 1, 3, 7] {
        let frames: Vec<Vec<u8>> = (0..n).map(|i| vec![i as u8; 6]).collect();
        let s = drive(0x42, 2, 1, frames, |_| ok());
        assert_eq!(s.outcome, Ok(()));
        assert_eq!(s.phase, Phase::Done);
        assert_eq!(s.requests.len(), n + 1);
        for (i, r) in s.requests.iter().enumerate() {
            let (target, len, w, h, last) = video_frame(r);
            assert_eq!(target, 0x42);
            assert_eq!((w, h), (2, 1));
            if i < n {
                assert!(!last);
                assert_eq!(len, 6);
                match r {
                    ClientRequest::RenderVideoFrame { pixels, .. } => assert_eq!(pixels[0], i as u8),
                    _ => unreachable!(),
                }
            } else {
                assert!(last);
                assert_eq!(len, 0);
            }
        }
    }
}

#[test]
fn remote_failure_on_one_frame_does_not_abort() {
    let frames: Vec<Vec<u8>> = (0..5).map(|_| vec![1u8; 3]).collect();
    let s = drive(9, 1, 1, frames, |k| {
        if k == 3 {
            Some(ServerResponse::Status { success: false, message: "render failed".to_string() })
        } else {
            ok()
        }
    });
    assert_eq!(s.outcome, Ok(()));
    assert_eq!(s.requests.len(), 6);
    assert_eq!(s.rejected, vec![3]);
    assert!(!video_frame(&s.requests[3]).4);
    assert!(!video_frame(&s.requests[4]).4);
    assert!(video_frame(&s.requests[5]).4);
}

#[test]
fn transport_closing_mid_stream_fails_and_halts() {
    let frames: Vec<Vec<u8>> = (0..5).map(|_| vec![1u8; 3]).collect();
    let s = drive(9, 1, 1, frames, |k| if k == 3 { None } else { ok() });
    assert_eq!(s.outcome, Err(DriverError::Transport));
    assert_eq!(s.phase, Phase::Failed(DriverError::Transport));
    assert_eq!(s.requests.len(), 3);
}

#[test]
fn two_black_frames_of_four_by_four() {
    let frames = vec![vec![0u8; 4 * 4 * 3], vec![0u8; 4 * 4 * 3]];
    let s = drive(0x1000, 4, 4, frames, |_| ok());
    assert_eq!(s.outcome, Ok(()));
    assert_eq!(s.requests.len(), 3);
    assert_eq!(video_frame(&s.requests[0]), (0x1000, 48, 4, 4, false));
    assert_eq!(video_frame(&s.requests[1]), (0x1000, 48, 4, 4, false));
    assert_eq!(video_frame(&s.requests[2]), (0x1000, 0, 4, 4, true));
}

#[test]
fn failed_driver_sends_nothing_more() {
    let mut d = StreamDriver::new(1);
    assert!(matches!(d.step(DriverEvent::MediaFailed), DriverAction::Abort { error: DriverError::Media }));
    assert!(matches!(d.step(DriverEvent::Opened { width: 1, height: 1 }), DriverAction::Abort { error: DriverError::Media }));
    assert!(matches!(d.step(DriverEvent::Exhausted), DriverAction::Abort { error: DriverError::Media }));
    assert_eq!(d.phase, Phase::Failed(DriverError::Media));
}

#[test]
fn events_out_of_turn_fail() {
    let mut d = StreamDriver::new(1);
    assert!(matches!(d.step(DriverEvent::Exhausted), DriverAction::Abort { error: DriverError::OutOfTurn }));

    let mut d = StreamDriver::new(1);
    d.step(DriverEvent::Opened { width: 1, height: 1 });
    assert!(matches!(d.step(DriverEvent::Frame { pixels: vec![0; 3], width: 1, height: 1 }), DriverAction::Send { .. }));
    assert!(matches!(
        d.step(DriverEvent::Frame { pixels: vec![0; 3], width: 1, height: 1 }),
        DriverAction::Abort { error: DriverError::OutOfTurn }
    ));
}

#[test]
fn garbled_response_is_a_schema_failure() {
    let mut d = StreamDriver::new(1);
    d.step(DriverEvent::Opened { width: 1, height: 1 });
    d.step(DriverEvent::Frame { pixels: vec![0; 3], width: 1, height: 1 });
    match d.step(DriverEvent::Response { payload: vec![5] }) {
        DriverAction::Abort { error } => {
            assert_eq!(error, DriverError::Schema(windowcaster_client::schema::SchemaError::UnknownTag(5)))
        }
        _ => panic!("expected an abort"),
    }
}

#[test]
fn end_of_stream_keeps_last_dimensions_and_any_final_reply_completes() {
    let mut d = StreamDriver::new(3);
    d.step(DriverEvent::Opened { width: 8, height: 6 });
    d.step(DriverEvent::Frame { pixels: vec![0; 12], width: 2, height: 2 });
    d.step(DriverEvent::Response { payload: encode_response(&ok().unwrap()) });
    match d.step(DriverEvent::Exhausted) {
        DriverAction::Send { payload } => {
            assert_eq!(video_frame(&decode_request(&payload).unwrap()), (3, 0, 2, 2, true));
        }
        _ => panic!("expected the end-of-stream request"),
    }
    assert!(matches!(d.step(DriverEvent::Response { payload: vec![0xff] }), DriverAction::Finish));
    assert_eq!(d.phase, Phase::Done);
}
