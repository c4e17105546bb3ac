use windowcaster_client::protocol::Protocol;
use windowcaster_client::schema::{
    decode_request, decode_response, encode_request, encode_response, ClientRequest, SchemaError,
    ServerResponse,
};
use windowcaster_client::window::WindowInfo;

fn same_request(a: &ClientRequest, b: &ClientRequest) -> bool {
    match (a, b) {
        (ClientRequest::GetWindowList, ClientRequest::GetWindowList) => true,
        (
            ClientRequest::RenderImage { target_window: t1, pixels: p1, width: w1, height: h1 },
            ClientRequest::RenderImage { target_window: t2, pixels: p2, width: w2, height: h2 },
        ) => t1 == t2 && p1 == p2 && w1 == w2 && h1 == h2,
        (
            ClientRequest::RenderVideoFrame { target_window: t1, pixels: p1, width: w1, height: h1, is_last: l1 },
            ClientRequest::RenderVideoFrame { target_window: t2, pixels: p2, width: w2, height: h2, is_last: l2 },
        ) => t1 == t2 && p1 == p2 && w1 == w2 && h1 == h2 && l1 == l2,
        _ => false,
    }
}

fn window(handle: u64, title: &str, class_name: &str) -> WindowInfo {
    WindowInfo { handle, title: title.to_string(), class_name: class_name.to_string() }
}

#[test]
fn request_round_trip_every_kind() {
    let requests = vec![
        ClientRequest::GetWindowList,
        ClientRequest::RenderImage { target_window: 0x1234, pixels: vec![9, 8, 7], width: 0, height: 0 },
        ClientRequest::RenderImage { target_window: u64::MAX, pixels: Vec::new(), width: 640, height: 480 },
        ClientRequest::RenderVideoFrame {
            target_window: 0xdead_beef,
            pixels: vec![0; 48],
            width: 4,
            height: 4,
            is_last: false,
        },
        ClientRequest::RenderVideoFrame { target_window: 1, pixels: Vec::new(), width: 4, height: 4, is_last: true },
    ];
    for r in &requests {
        let bytes = encode_request(r).unwrap();
        let back = decode_request(&bytes).unwrap();
        assert!(same_request(r, &back));
    }
}

#[test]
fn request_bytes_exact() {
    assert_eq!(encode_request(&ClientRequest::GetWindowList).unwrap(), vec![0]);
    let image = ClientRequest::RenderImage { target_window: 0x0102, pixels: vec![0xaa, 0xbb], width: 3, height: 5 };
    assert_eq!(
        encode_request(&image).unwrap(),
        vec![1, 0x02, 0x01, 0, 0, 0, 0, 0, 0, 3, 0, 0, 0, 5, 0, 0, 0, 2, 0, 0, 0, 0xaa, 0xbb]
    );
    let end = ClientRequest::RenderVideoFrame { target_window: 7, pixels: Vec::new(), width: 4, height: 4, is_last: true };
    assert_eq!(
        encode_request(&end).unwrap(),
        vec![2, 7, 0, 0, 0, 0, 0, 0, 0, 4, 0, 0, 0, 4, 0, 0, 0, 1, 0, 0, 0, 0]
    );
}

#[test]
fn request_decode_errors() {
    assert_eq!(decode_request(&[]).err(), Some(SchemaError::Malformed));
    assert_eq!(decode_request(&[9]).err(), Some(SchemaError::UnknownTag(9)));
    assert_eq!(decode_request(&[0, 0]).err(), Some(SchemaError::Malformed));
    assert_eq!(decode_request(&[1, 0, 0]).err(), Some(SchemaError::Malformed));
    let mut video = encode_request(&ClientRequest::RenderVideoFrame {
        target_window: 7,
        pixels: vec![1],
        width: 1,
        height: 1,
        is_last: false,
    })
    .unwrap();
    video[17] = 2;
    assert_eq!(decode_request(&video).err(), Some(SchemaError::Malformed));
    video[17] = 0;
    video.push(0);
    assert_eq!(decode_request(&video).err(), Some(SchemaError::Malformed));
}

#[test]
fn response_round_trip() {
    let list = ServerResponse::WindowList {
        windows: vec![window(0x1000, "A", "Win32"), window(42, "Éditeur — ünïcode", "")],
    };
    let bytes = encode_response(&list);
    match decode_response(&bytes).unwrap() {
        ServerResponse::WindowList { windows } => {
            assert_eq!(windows.len(), 2);
            assert_eq!(windows[0].handle, 0x1000);
            assert_eq!(windows[0].title, "A");
            assert_eq!(windows[0].class_name, "Win32");
            assert_eq!(windows[1].handle, 42);
            assert_eq!(windows[1].title, "Éditeur — ünïcode");
            assert_eq!(windows[1].class_name, "");
        }
        _ => panic!("expected a window list"),
    }
    let status = ServerResponse::Status { success: false, message: "no such window".to_string() };
    match decode_response(&encode_response(&status)).unwrap() {
        ServerResponse::Status { success, message } => {
            assert!(!success);
            assert_eq!(message, "no such window");
        }
        _ => panic!("expected a status"),
    }
}

#[test]
fn response_bytes_exact() {
    let status = ServerResponse::Status { success: true, message: "ok".to_string() };
    assert_eq!(encode_response(&status), vec![1, 1, 2, 0, 0, 0, b'o', b'k']);
    let empty = ServerResponse::WindowList { windows: Vec::new() };
    assert_eq!(encode_response(&empty), vec![0, 0, 0, 0, 0]);
}

#[test]
fn response_decode_errors() {
    assert_eq!(decode_response(&[]).err(), Some(SchemaError::Malformed));
    assert_eq!(decode_response(&[7, 1]).err(), Some(SchemaError::UnknownTag(7)));
    assert_eq!(decode_response(&[1, 2, 0, 0, 0, 0]).err(), Some(SchemaError::Malformed));
    assert_eq!(decode_response(&[1, 1, 1, 0, 0, 0, 0xff]).err(), Some(SchemaError::Malformed));
    assert_eq!(decode_response(&[1, 1, 5, 0, 0, 0, b'a']).err(), Some(SchemaError::Malformed));
    assert_eq!(decode_response(&[0, 1, 0, 0, 0]).err(), Some(SchemaError::Malformed));
    assert_eq!(decode_response(&[0, 0, 0, 0, 0, 9]).err(), Some(SchemaError::Malformed));
}

#[test]
fn list_windows_single_descriptor() {
    let response = ServerResponse::WindowList { windows: vec![window(0x1000, "A", "Win32")] };
    let bytes = encode_response(&response);
    match Protocol::parse_server_response(&bytes).unwrap() {
        ServerResponse::WindowList { windows } => {
            assert_eq!(windows.len(), 1);
            assert_eq!(windows[0].handle, 4096);
            assert_eq!(windows[0].title, "A");
            assert_eq!(windows[0].class_name, "Win32");
        }
        _ => panic!("expected a window list"),
    }
}

#[test]
fn protocol_builds_requests() {
    let list = Protocol::create_get_window_list_request().unwrap();
    assert!(matches!(decode_request(&list).unwrap(), ClientRequest::GetWindowList));
    let image = Protocol::create_image_render_request(0xabc, vec![1, 2, 3]).unwrap();
    assert!(same_request(
        &decode_request(&image).unwrap(),
        &ClientRequest::RenderImage { target_window: 0xabc, pixels: vec![1, 2, 3], width: 0, height: 0 }
    ));
    let frame = Protocol::create_video_frame_request(5, vec![0; 12], 2, 2).unwrap();
    assert!(same_request(
        &decode_request(&frame).unwrap(),
        &ClientRequest::RenderVideoFrame { target_window: 5, pixels: vec![0; 12], width: 2, height: 2, is_last: false }
    ));
    let end = Protocol::create_video_frame_request(5, Vec::new(), 2, 2).unwrap();
    assert!(same_request(
        &decode_request(&end).unwrap(),
        &ClientRequest::RenderVideoFrame { target_window: 5, pixels: Vec::new(), width: 2, height: 2, is_last: true }
    ));
}
