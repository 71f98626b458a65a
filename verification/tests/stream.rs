use remote_lab::stream::{host_step, viewer_step, HostEvent, HostStep, ViewerEvent, ViewerStep};
use remote_lab::{InputMessage, MouseButton};

#[test]
fn host_passes_input_on() {
    let message = InputMessage::MouseDown { button: MouseButton::Right };
    let step = host_step(HostEvent::Text(Some(message.clone())));
    assert!(matches!(step, HostStep::Forward(m) if m == message));
}

#[test]
fn host_passes_other_messages_over() {
    assert!(matches!(host_step(HostEvent::Text(None)), HostStep::ReadOn));
    assert!(matches!(host_step(HostEvent::Other), HostStep::ReadOn));
}

#[test]
fn host_stops_at_the_end() {
    assert!(matches!(host_step(HostEvent::Close), HostStep::Stop));
    assert!(matches!(host_step(HostEvent::Failed), HostStep::Stop));
}

#[test]
fn viewer_shows_binary_messages() {
    let step = viewer_step(ViewerEvent::Binary(vec![1, 2]));
    assert!(matches!(step, ViewerStep::Show(b) if b == vec![1, 2]));
    assert!(matches!(viewer_step(ViewerEvent::Other), ViewerStep::ReadOn));
}

#[test]
fn viewer_ends_with_the_connection() {
    assert!(matches!(viewer_step(ViewerEvent::Ended), ViewerStep::Finish));
    assert!(matches!(viewer_step(ViewerEvent::Failed), ViewerStep::Fail));
}
