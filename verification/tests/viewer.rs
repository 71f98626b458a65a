use remote_lab::capture::{encode_capture, Capture};
use remote_lab::frame::build_frame;
use remote_lab::input::{apply_input, InputAction, Single};
use remote_lab::keys::{Key, ViewerKey};
use remote_lab::viewer::{
    event_message, update, Panel, Picture, PointerButton, RemoteViewer, WindowEvent, WindowInput,
};
use remote_lab::{parse_frame_header, InputMessage, MouseButton};

fn single(x: f32) -> Single {
    Single { bits: x.to_bits() }
}

fn still() -> WindowInput {
    WindowInput {
        hovered: true,
        pointer: None,
        scroll: (single(0.0), single(0.0)),
        events: vec![],
    }
}

fn host_frame(width: u32, height: u32) -> Vec<u8> {
    let rgba = vec![128; (width * height * 4) as usize];
    encode_capture(&Capture { rgba, width, height }, 0, 90).ok().unwrap()
}

#[test]
fn window_before_the_first_frame() {
    let viewer = RemoteViewer::new("ws://h:9753/".to_string());
    assert_eq!(viewer.status(), "Connecting…");
    assert_eq!(viewer.url_label(), "URL: ws://h:9753/");
    assert_eq!(viewer.panel(), Panel::Label("Waiting for first frame…".to_string()));
    assert!(!viewer.wants_repaint());
}

#[test]
fn frame_of_the_host_is_shown() {
    let mut viewer = RemoteViewer::new("u".to_string());
    let picture = viewer.push_frame(&host_frame(20, 10)).unwrap();
    assert_eq!((picture.width, picture.height), (20, 10));
    assert_eq!(picture.rgba.len(), 800);
    for pixel in picture.rgba.chunks(4) {
        assert!(pixel[..3].iter().all(|c| c.abs_diff(128) < 4));
        assert_eq!(pixel[3], 255);
    }
    assert_eq!(viewer.status(), "Connected");
    assert_eq!(viewer.panel(), Panel::Picture { width: 20, height: 10 });
    assert!(viewer.wants_repaint());
}

#[test]
fn frame_of_the_host_is_shown_at_the_size_it_was_sent_in() {
    let rgba = vec![60; 40 * 30 * 4];
    let capture = Capture { rgba, width: 40, height: 30 };
    for (max_width, size) in [(0, (40, 30)), (20, (20, 15)), (7, (7, 5)), (50, (40, 30))] {
        let payload = encode_capture(&capture, max_width, 60).ok().unwrap();
        let (w, h, jpeg) = parse_frame_header(&payload).unwrap();
        assert_eq!((w, h), size);
        assert_eq!(jpeg[..3], [0xff, 0xd8, 0xff]);
        let mut viewer = RemoteViewer::new("u".to_string());
        let picture = viewer.try_push_frame(&payload).unwrap().unwrap();
        assert_eq!((picture.width, picture.height), size);
        assert_eq!(viewer.panel(), Panel::Picture { width: size.0, height: size.1 });
        assert_eq!(viewer.status(), "Connected");
    }
}

#[test]
fn bad_header_keeps_the_picture() {
    let mut viewer = RemoteViewer::new("u".to_string());
    viewer.push_frame(&host_frame(8, 8));
    assert_eq!(viewer.push_frame(&[1, 2, 3]), None);
    assert_eq!(viewer.status(), "Bad frame header from host");
    assert_eq!(viewer.panel(), Panel::Picture { width: 8, height: 8 });
}

#[test]
fn bad_jpeg_keeps_the_picture() {
    let mut viewer = RemoteViewer::new("u".to_string());
    viewer.push_frame(&host_frame(8, 8));
    assert_eq!(viewer.push_frame(&build_frame(8, 8, &[0, 1, 2, 3])), None);
    assert_eq!(viewer.status(), "JPEG decode failed");
    assert_eq!(viewer.panel(), Panel::Picture { width: 8, height: 8 });
}

#[test]
fn picture_without_pixels_is_not_drawn() {
    let mut viewer = RemoteViewer::new("u".to_string());
    viewer.show_decoded(&Some(Picture { width: 5, height: 0, rgba: vec![] }));
    assert_eq!(viewer.status(), "Connected");
    assert_eq!(viewer.panel(), Panel::Label("Invalid texture size".to_string()));
}

#[test]
fn failed_decoding_is_told() {
    let mut viewer = RemoteViewer::new("u".to_string());
    viewer.show_decoded(&None);
    assert_eq!(viewer.status(), "JPEG decode failed");
    assert_eq!(viewer.panel(), Panel::Label("Waiting for first frame…".to_string()));
}

#[test]
fn nothing_is_sent_for_nothing() {
    assert_eq!(update(&still()), vec![]);
}

#[test]
fn nothing_is_sent_away_from_the_picture() {
    let window = WindowInput {
        hovered: false,
        pointer: Some((single(0.5), single(0.5))),
        scroll: (single(1.0), single(1.0)),
        events: vec![WindowEvent::Key { key: ViewerKey::A, pressed: true, repeat: false }],
    };
    assert_eq!(update(&window), vec![]);
}

#[test]
fn messages_come_in_order() {
    let window = WindowInput {
        hovered: true,
        pointer: Some((single(0.5), single(0.25))),
        scroll: (single(0.0), single(-3.0)),
        events: vec![
            WindowEvent::Key { key: ViewerKey::A, pressed: true, repeat: false },
            WindowEvent::Key { key: ViewerKey::A, pressed: true, repeat: true },
            WindowEvent::Other,
            WindowEvent::Button { button: PointerButton::Secondary, pressed: true, inside: true },
            WindowEvent::Button { button: PointerButton::Primary, pressed: true, inside: false },
            WindowEvent::Button { button: PointerButton::Extra, pressed: true, inside: true },
            WindowEvent::Key { key: ViewerKey::Other, pressed: true, repeat: false },
            WindowEvent::Key { key: ViewerKey::A, pressed: false, repeat: false },
        ],
    };
    assert_eq!(
        update(&window),
        vec![
            InputMessage::MouseMove { x: single(0.5), y: single(0.25) },
            InputMessage::Scroll { dx: single(0.0), dy: single(-3.0) },
            InputMessage::KeyDown { key: "a".to_string() },
            InputMessage::MouseDown { button: MouseButton::Right },
            InputMessage::KeyUp { key: "a".to_string() },
        ]
    );
}

#[test]
fn scroll_across_alone_is_sent() {
    let window = WindowInput { scroll: (single(0.5), single(-0.0)), ..still() };
    assert_eq!(
        update(&window),
        vec![InputMessage::Scroll { dx: single(0.5), dy: single(-0.0) }]
    );
}

#[test]
fn pointer_is_held_inside_the_picture() {
    let window = WindowInput { pointer: Some((single(1.0000001), single(-0.1))), ..still() };
    let sent = update(&window);
    assert_eq!(sent, vec![InputMessage::MouseMove { x: single(1.0), y: single(0.0) }]);
    assert_eq!(
        apply_input(&sent[0], 640, 480),
        vec![InputAction::MoveMouse { x: single(1.0), y: single(0.0), width: 640, height: 480 }]
    );
}

#[test]
fn input_reaches_the_host() {
    let click = WindowEvent::Button { button: PointerButton::Middle, pressed: false, inside: true };
    assert_eq!(
        apply_input(&event_message(&click).unwrap(), 10, 10),
        vec![InputAction::Button { button: MouseButton::Middle, pressed: false }]
    );
    let key = WindowEvent::Key { key: ViewerKey::PageDown, pressed: true, repeat: false };
    assert_eq!(
        apply_input(&event_message(&key).unwrap(), 10, 10),
        vec![InputAction::Key { key: Key::PageDown, pressed: true }]
    );
}
