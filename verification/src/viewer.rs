//! The viewer: taking frames in, what its window shows, and the input messages that it
//! sends for what happens in the window.

use crate::capture;
use crate::frame;
use crate::input;
use crate::input::InputAction;
use crate::input::InputMessage;
use crate::input::InputModel;
use crate::input::MouseButton;
use crate::input::ScrollAxis;
use crate::input::Single;
use crate::jpeg;
use crate::keys;
use crate::keys::ViewerKey;
use vstd::prelude::*;
use vstd::string::*;

verus! {

/// A decoded picture: RGBA bytes, row by row.
#[derive(Debug, Clone, PartialEq, Eq)]
pub struct Picture {
    pub width: u32,
    pub height: u32,
    pub rgba: Vec<u8>,
}

/// The width, height and RGBA bytes that `image::load_from_memory` and
/// `DynamicImage::to_rgba8` make of image data; `None` for data that cannot be decoded.
pub uninterp spec fn decoded_picture(data: Seq<u8>) -> Option<(u32, u32, Seq<u8>)>;

/// The width and height of a picture.
pub open spec fn size_of(picture: Option<(u32, u32, Seq<u8>)>) -> Option<(u32, u32)> {
    match picture {
        Some((width, height, rgba)) => Some((width, height)),
        None => None,
    }
}

/// Whether the picture that JPEG data is decoded into, if any, has the size that the data's
/// frame header holds.
pub open spec fn sized_by_header(data: Seq<u8>) -> bool {
    jpeg::starts_as_jpeg(data) ==> (decoded_picture(data) matches Some((width, height, rgba))
        ==> jpeg::holds_size(data, width, height))
}

/// Calls `image::load_from_memory` and converts its result with `DynamicImage::to_rgba8`.
/// Trusted: the data alone decides whether it can be decoded, into which size and into which
/// bytes, of which there are four for each pixel; data that starts as JPEG data does is
/// decoded into a picture of the size in its frame header, of which it then has just one. The
/// vector routines that the decoder picks by the processor compute what its scalar ones do,
/// and no decoding hooks are registered with the `image` crate in this program. On the data
/// that `requires` leaves out the decoder can panic. What is claimed holds of a decoder built
/// without overflow checks, as optimised builds are: with them its sums panic on some damaged
/// data, whatever the header.
#[verifier::external_body]
fn decode_picture(data: &[u8]) -> (res: Option<Picture>)
    requires
        jpeg::decodable_shape(data@),
    ensures
        match res {
            Some(p) => decoded_picture(data@) == Some((p.width, p.height, p.rgba@))
                && p.rgba@.len() == p.width * p.height * 4,
            None => decoded_picture(data@) is None,
        },
        res matches Some(p) ==> jpeg::starts_as_jpeg(data@) ==> jpeg::holds_size(
            data@,
            p.width,
            p.height,
        ),
{
    match image::load_from_memory(data) {
        Ok(loaded) => {
            let rgba = loaded.to_rgba8();
            let (width, height) = (rgba.width(), rgba.height());
            Some(Picture { width, height, rgba: rgba.into_raw() })
        },
        Err(_) => None,
    }
}

/// The state of the viewer's window.
pub struct RemoteViewer {
    url: String,
    status: String,
    picture: Option<(u32, u32)>,
}

/// The model of the viewer's window: the host's address, the status line and the size of
/// the picture on show.
pub struct ViewerModel {
    pub url: Seq<char>,
    pub status: Seq<char>,
    pub picture: Option<(u32, u32)>,
}

impl View for RemoteViewer {
    type V = ViewerModel;

    closed spec fn view(&self) -> ViewerModel {
        ViewerModel { url: self.url@, status: self.status@, picture: self.picture }
    }
}

/// The window before the first frame.
pub open spec fn fresh_viewer(url: Seq<char>) -> ViewerModel {
    ViewerModel { url, status: "Connecting…"@, picture: None }
}

/// The window after the JPEG data of a frame came to a picture of a size, or to none.
pub open spec fn after_decoding(v: ViewerModel, size: Option<(u32, u32)>) -> ViewerModel {
    match size {
        Some(size) => ViewerModel { status: "Connected"@, picture: Some(size), ..v },
        None => ViewerModel { status: "JPEG decode failed"@, ..v },
    }
}

/// Whether a message can be taken in: it is no frame, or one with JPEG data that the decoder
/// can be handed.
pub open spec fn can_take(data: Seq<u8>) -> bool {
    frame::frame_parts(data) matches Some((w, h, jpeg)) ==> jpeg::decodable_shape(jpeg)
}

/// Whether a picture is the one in a message that should be a frame: that which its JPEG data
/// is decoded into, with four bytes for each pixel; none where there is none.
pub open spec fn is_picture_in(data: Seq<u8>, picture: Option<Picture>) -> bool {
    match picture {
        Some(p) => {
            &&& frame::frame_parts(data) matches Some((w, h, jpeg)) && decoded_picture(jpeg)
                == Some((p.width, p.height, p.rgba@))
            &&& p.rgba@.len() == p.width * p.height * 4
        },
        None => frame::frame_parts(data) matches Some((w, h, jpeg)) ==> decoded_picture(jpeg)
            is None,
    }
}

/// The window after a message that should be a frame.
pub open spec fn after_frame(v: ViewerModel, data: Seq<u8>) -> ViewerModel {
    match frame::frame_parts(data) {
        Some((w, h, jpeg)) => after_decoding(v, size_of(decoded_picture(jpeg))),
        None => ViewerModel { status: "Bad frame header from host"@, ..v },
    }
}

/// What the window's main part shows.
#[derive(Debug, Clone, PartialEq, Eq)]
pub enum Panel {
    /// A line of text.
    Label(String),
    /// The picture, of this size.
    Picture { width: u32, height: u32 },
}

impl RemoteViewer {
    /// The window before the first frame.
    pub fn new(url: String) -> (res: Self)
        ensures
            res@ == fresh_viewer(url@),
    {
        RemoteViewer { url, status: "Connecting…".to_owned(), picture: None }
    }

    /// Takes in what decoding a frame's JPEG data came to.
    pub fn show_decoded(&mut self, decoded: &Option<Picture>)
        ensures
            final(self)@ == after_decoding(
                old(self)@,
                match decoded {
                    Some(p) => Some((p.width, p.height)),
                    None => None,
                },
            ),
    {
        match decoded {
            Some(p) => {
                self.picture = Some((p.width, p.height));
                self.status = "Connected".to_owned();
            },
            None => {
                self.status = "JPEG decode failed".to_owned();
            },
        }
    }

    /// Takes in a message that should be a frame, and returns its picture. A message that is
    /// no frame, or whose JPEG data cannot be decoded, changes the status line only. The
    /// decoder can panic on the messages that `requires` leaves out.
    pub fn push_frame(&mut self, data: &[u8]) -> (res: Option<Picture>)
        requires
            can_take(data@),
        ensures
            final(self)@ == after_frame(old(self)@, data@),
            is_picture_in(data@, res),
            frame::frame_parts(data@) matches Some((w, h, jpeg)) ==> sized_by_header(jpeg),
    {
        match frame::parse_frame_header(data) {
            Some((_w, _h, jpeg)) => {
                let decoded: Option<Picture> = decode_picture(jpeg);
                self.show_decoded(&decoded);
                decoded
            },
            None => {
                self.status = "Bad frame header from host".to_owned();
                None
            },
        }
    }

    /// Takes in a message as `push_frame` does, where it can be taken in; `None`, and nothing
    /// changed, where it cannot. What the decoder does with such a message depends on its scan
    /// data and on the processor, and is not told here.
    pub fn try_push_frame(&mut self, data: &[u8]) -> (res: Option<Option<Picture>>)
        ensures
            res is Some <==> can_take(data@),
            match res {
                Some(shown) => {
                    &&& final(self)@ == after_frame(old(self)@, data@)
                    &&& is_picture_in(data@, shown)
                    &&& frame::frame_parts(data@) matches Some((w, h, jpeg)) ==> sized_by_header(
                        jpeg,
                    )
                },
                None => final(self)@ == old(self)@,
            },
    {
        match frame::parse_frame_header(data) {
            Some((_w, _h, jpeg)) => {
                if !jpeg::has_decodable_shape(jpeg) {
                    return None;
                }
            },
            None => {},
        }
        Some(self.push_frame(data))
    }

    /// Whether the window is to be drawn again and again: once there is a picture.
    pub fn wants_repaint(&self) -> (res: bool)
        ensures
            res == (self@.picture is Some),
    {
        self.picture.is_some()
    }

    /// The line that names the host.
    pub fn url_label(&self) -> (res: String)
        ensures
            res@ == "URL: "@ + self@.url,
    {
        let mut label = "URL: ".to_owned();
        label.append(self.url.as_str());
        label
    }

    /// The status line.
    pub fn status(&self) -> (res: &str)
        ensures
            res@ == self@.status,
    {
        self.status.as_str()
    }

    /// What the window's main part shows.
    pub fn panel(&self) -> (res: Panel)
        ensures
            match self@.picture {
                None => res matches Panel::Label(text) && text@ == "Waiting for first frame…"@,
                Some((w, h)) => if w == 0 || h == 0 {
                    res matches Panel::Label(text) && text@ == "Invalid texture size"@
                } else {
                    res == (Panel::Picture { width: w, height: h })
                },
            },
    {
        match self.picture {
            None => Panel::Label("Waiting for first frame…".to_owned()),
            Some((width, height)) => {
                if width == 0 || height == 0 {
                    Panel::Label("Invalid texture size".to_owned())
                } else {
                    Panel::Picture { width, height }
                }
            },
        }
    }
}

/// A button of the viewer's pointer.
#[derive(Debug, Clone, Copy, PartialEq, Eq, Structural)]
pub enum PointerButton {
    Primary,
    Secondary,
    Middle,
    /// A further button, which the host is not told of.
    Extra,
}

/// Something that happened in the viewer's window.
#[derive(Debug, Clone, Copy, PartialEq, Eq, Structural)]
pub enum WindowEvent {
    /// A button went down or up, inside the picture or outside of it.
    Button { button: PointerButton, pressed: bool, inside: bool },
    /// A key went down or up; `repeat` where it is only held down.
    Key { key: ViewerKey, pressed: bool, repeat: bool },
    /// Anything else.
    Other,
}

/// What happened in the viewer's window since it was last drawn.
pub struct WindowInput {
    /// Whether the pointer is over the picture.
    pub hovered: bool,
    /// The pointer's place in the picture, as fractions of its width and height; `None`
    /// where the pointer has no place in it. Rounding may take a fraction out of the range
    /// from zero to one.
    pub pointer: Option<(Single, Single)>,
    /// How far was scrolled, across and down.
    pub scroll: (Single, Single),
    /// The events, in order.
    pub events: Vec<WindowEvent>,
}

/// The host's button for a button of the viewer's pointer.
pub open spec fn host_button(button: PointerButton) -> Option<MouseButton> {
    match button {
        PointerButton::Primary => Some(MouseButton::Left),
        PointerButton::Secondary => Some(MouseButton::Right),
        PointerButton::Middle => Some(MouseButton::Middle),
        PointerButton::Extra => None,
    }
}

/// The messages that the viewer sends for an event: at most one.
pub open spec fn event_messages(event: WindowEvent) -> Seq<InputModel> {
    match event {
        WindowEvent::Button { button, pressed, inside } => match host_button(button) {
            Some(button) => if !inside {
                seq![]
            } else if pressed {
                seq![InputModel::MouseDown { button }]
            } else {
                seq![InputModel::MouseUp { button }]
            },
            None => seq![],
        },
        WindowEvent::Key { key, pressed, repeat } => match keys::host_name(key) {
            Some(key) => if repeat {
                seq![]
            } else if pressed {
                seq![InputModel::KeyDown { key }]
            } else {
                seq![InputModel::KeyUp { key }]
            },
            None => seq![],
        },
        WindowEvent::Other => seq![],
    }
}

/// The messages that the viewer sends for a list of events.
pub open spec fn events_messages(events: Seq<WindowEvent>) -> Seq<InputModel>
    decreases events.len(),
{
    if events.len() == 0 {
        seq![]
    } else {
        events_messages(events.drop_last()) + event_messages(events.last())
    }
}

/// The message for the pointer's place, held inside the picture.
pub open spec fn pointer_messages(pointer: Option<(Single, Single)>) -> Seq<InputModel> {
    match pointer {
        Some((x, y)) => seq![InputModel::MouseMove { x: x.clamped(), y: y.clamped() }],
        None => seq![],
    }
}

/// The message for a scroll; none where nothing was scrolled.
pub open spec fn scroll_messages(dx: Single, dy: Single) -> Seq<InputModel> {
    if dx.rank() != 0 || dy.rank() != 0 {
        seq![InputModel::Scroll { dx, dy }]
    } else {
        seq![]
    }
}

/// The messages that the viewer sends for what happened in its window: none unless the
/// pointer is over the picture; else first the pointer's place, then the scroll, then the
/// events in their order.
pub open spec fn window_messages(
    hovered: bool,
    pointer: Option<(Single, Single)>,
    scroll: (Single, Single),
    events: Seq<WindowEvent>,
) -> Seq<InputModel> {
    if hovered {
        pointer_messages(pointer) + scroll_messages(scroll.0, scroll.1) + events_messages(events)
    } else {
        seq![]
    }
}

/// The models of a list of messages.
pub open spec fn models(messages: Seq<InputMessage>) -> Seq<InputModel> {
    messages.map_values(|m: InputMessage| m@)
}

/// The message that the viewer sends for an event, if any.
pub fn event_message(event: &WindowEvent) -> (res: Option<InputMessage>)
    ensures
        match res {
            Some(m) => event_messages(*event) == seq![m@],
            None => event_messages(*event) == Seq::<InputModel>::empty(),
        },
{
    match event {
        WindowEvent::Button { button, pressed, inside } => {
            if !*inside {
                return None;
            }
            let button: MouseButton = match button {
                PointerButton::Primary => MouseButton::Left,
                PointerButton::Secondary => MouseButton::Right,
                PointerButton::Middle => MouseButton::Middle,
                PointerButton::Extra => {
                    return None;
                },
            };
            if *pressed {
                Some(InputMessage::MouseDown { button })
            } else {
                Some(InputMessage::MouseUp { button })
            }
        },
        WindowEvent::Key { key, pressed, repeat } => {
            if *repeat {
                return None;
            }
            match keys::key_to_host_name(*key) {
                Some(key) => {
                    if *pressed {
                        Some(InputMessage::KeyDown { key })
                    } else {
                        Some(InputMessage::KeyUp { key })
                    }
                },
                None => None,
            }
        },
        WindowEvent::Other => None,
    }
}

/// The messages that the viewer sends for what happened in its window.
pub fn update(window: &WindowInput) -> (res: Vec<InputMessage>)
    ensures
        models(res@) == window_messages(
            window.hovered,
            window.pointer,
            window.scroll,
            window.events@,
        ),
{
    let mut messages: Vec<InputMessage> = Vec::new();
    if !window.hovered {
        assert(models(messages@) =~= seq![]);
        return messages;
    }
    match window.pointer {
        Some((x, y)) => {
            messages.push(InputMessage::MouseMove { x: x.clamp_unit(), y: y.clamp_unit() });
        },
        None => {},
    }
    assert(models(messages@) =~= pointer_messages(window.pointer));
    let (dx, dy): (Single, Single) = window.scroll;
    if !dx.is_zero() || !dy.is_zero() {
        messages.push(InputMessage::Scroll { dx, dy });
    }
    let ghost first = pointer_messages(window.pointer) + scroll_messages(dx, dy);
    assert(models(messages@) =~= first);
    let mut i: usize = 0;
    assert(window.events@.take(0) =~= seq![]);
    while i < window.events.len()
        invariant
            i <= window.events.len(),
            models(messages@) =~= first + events_messages(window.events@.take(i as int)),
        decreases window.events.len() - i,
    {
        let ghost before = messages@;
        let ghost seen = window.events@.take(i + 1);
        assert(seen.drop_last() =~= window.events@.take(i as int));
        match event_message(&window.events[i]) {
            Some(m) => {
                messages.push(m);
                assert(models(messages@) =~= models(before).push(m@));
            },
            None => {},
        }
        i += 1;
    }
    assert(window.events@.take(window.events@.len() as int) =~= window.events@);
    messages
}

/// The viewer sends nothing while the pointer is away from the picture, and nothing for
/// keys that are only held down.
pub proof fn lemma_viewer_keeps_silent(
    pointer: Option<(Single, Single)>,
    scroll: (Single, Single),
    events: Seq<WindowEvent>,
    key: ViewerKey,
    pressed: bool,
)
    ensures
        window_messages(false, pointer, scroll, events).len() == 0,
        event_messages(WindowEvent::Key { key, pressed, repeat: true }).len() == 0,
{
}

/// A message that is no frame, or cannot be decoded, leaves the picture on show as it was.
pub proof fn lemma_bad_frame_keeps_picture(v: ViewerModel, data: Seq<u8>)
    ensures
        (frame::frame_parts(data) matches Some((w, h, jpeg)) ==> decoded_picture(jpeg) is None)
            ==> after_frame(v, data).picture == v.picture,
        after_frame(v, data).url == v.url,
{
}

/// A frame that the host made of a captured screen never shows as a bad frame. The viewer can
/// take it in, unless its pixels, at four bytes each, are more than memory holds. It decodes
/// the very JPEG data that the host's encoder made, and shows what it is decoded into at the
/// size that it was sent in. What the encoder and the decoder each promise of the size is
/// named here: `capture::readable_by_viewer` and `sized_by_header`.
pub proof fn lemma_viewer_takes_host_frames(
    v: ViewerModel,
    rgba: Seq<u8>,
    width: u32,
    height: u32,
    max_width: u32,
    quality: u8,
)
    ensures
        ({
            let (w, h) = crate::scale::fitted(width, height, max_width);
            let pixels = capture::sent_pixels(rgba, width, height, max_width);
            let jpeg = capture::jpeg_encoding(pixels, w, h, quality);
            let sent = capture::capture_frame(rgba, width, height, max_width, quality);
            let shown = after_frame(v, sent);
            &&& shown == after_decoding(v, size_of(decoded_picture(jpeg)))
            &&& capture::readable_by_viewer(rgba, width, height, max_width, quality) ==> {
                &&& 4 * (w * h) <= isize::MAX ==> can_take(sent)
                &&& sized_by_header(jpeg) && decoded_picture(jpeg) is Some ==> shown.picture
                    == Some((w, h)) && shown.status == "Connected"@
            }
        }),
{
    capture::lemma_capture_frame_reads_back(rgba, width, height, max_width, quality);
    let (w, h) = crate::scale::fitted(width, height, max_width);
    let pixels = capture::sent_pixels(rgba, width, height, max_width);
    let jpeg = capture::jpeg_encoding(pixels, w, h, quality);
    if capture::readable_by_viewer(rgba, width, height, max_width, quality) && sized_by_header(
        jpeg,
    ) && decoded_picture(jpeg) is Some {
        let (iw, ih, shown) = decoded_picture(jpeg)->0;
        jpeg::lemma_one_size(jpeg, w, h, iw, ih);
    }
}

/// A button that goes down or up over the picture, and a key that goes down or up, reach
/// the host as one press or release of the button or key that they stand for: the primary
/// button is the left one, the secondary the right one, the middle one the middle one. A
/// further button, and a key that has no name on the host, do nothing.
pub proof fn lemma_input_reaches_host(
    button: PointerButton,
    key: ViewerKey,
    pressed: bool,
    width: u32,
    height: u32,
)
    ensures
        ({
            let sent = event_messages(WindowEvent::Button { button, pressed, inside: true });
            let done = input::input_actions(sent[0], width, height);
            match button {
                PointerButton::Primary => sent.len() == 1 && done == seq![
                    InputAction::Button { button: MouseButton::Left, pressed },
                ],
                PointerButton::Secondary => sent.len() == 1 && done == seq![
                    InputAction::Button { button: MouseButton::Right, pressed },
                ],
                PointerButton::Middle => sent.len() == 1 && done == seq![
                    InputAction::Button { button: MouseButton::Middle, pressed },
                ],
                PointerButton::Extra => sent.len() == 0,
            }
        }),
        match keys::pressed_key(key) {
            Some(k) => {
                let sent = event_messages(WindowEvent::Key { key, pressed, repeat: false });
                &&& sent.len() == 1
                &&& input::input_actions(sent[0], width, height) == seq![
                    InputAction::Key { key: k, pressed },
                ]
            },
            None => event_messages(WindowEvent::Key { key, pressed, repeat: false }).len() == 0,
        },
{
    keys::lemma_host_understands_viewer(key);
}

/// The pointer's place reaches the host as it was sent, and a scroll turns the host's
/// wheel in each direction that was scrolled, down before across.
pub proof fn lemma_pointer_reaches_host(
    x: Single,
    y: Single,
    dx: Single,
    dy: Single,
    width: u32,
    height: u32,
)
    ensures
        ({
            let sent = pointer_messages(Some((x, y)));
            &&& sent.len() == 1
            &&& sent[0] == (InputModel::MouseMove { x: x.clamped(), y: y.clamped() })
            &&& input::input_actions(sent[0], width, height) == seq![
                InputAction::MoveMouse {
                    x: x.clamped(),
                    y: y.clamped(),
                    width: input::at_least_one(width),
                    height: input::at_least_one(height),
                },
            ]
        }),
        ({
            let sent = scroll_messages(dx, dy);
            let turns = input::scroll_actions(dy, ScrollAxis::Vertical) + input::scroll_actions(
                dx,
                ScrollAxis::Horizontal,
            );
            &&& sent.len() == 0 <==> turns.len() == 0
            &&& sent.len() <= 1
            &&& sent.len() == 1 ==> input::input_actions(sent[0], width, height) == turns
        }),
{
    input::lemma_clamped_in_unit(x);
    input::lemma_clamped_in_unit(y);
}

/// A press of the primary, the secondary or the middle button over the picture is sent as a
/// press of the left, the right or the middle button, and a release as a release. Away from the
/// picture, and for a further button, nothing is sent.
pub proof fn lemma_buttons_are_sent(button: PointerButton, pressed: bool)
    ensures
        event_messages(
            WindowEvent::Button { button: PointerButton::Primary, pressed: true, inside: true },
        ) == seq![InputModel::MouseDown { button: MouseButton::Left }],
        event_messages(
            WindowEvent::Button { button: PointerButton::Primary, pressed: false, inside: true },
        ) == seq![InputModel::MouseUp { button: MouseButton::Left }],
        event_messages(
            WindowEvent::Button { button: PointerButton::Secondary, pressed: true, inside: true },
        ) == seq![InputModel::MouseDown { button: MouseButton::Right }],
        event_messages(
            WindowEvent::Button { button: PointerButton::Secondary, pressed: false, inside: true },
        ) == seq![InputModel::MouseUp { button: MouseButton::Right }],
        event_messages(
            WindowEvent::Button { button: PointerButton::Middle, pressed: true, inside: true },
        ) == seq![InputModel::MouseDown { button: MouseButton::Middle }],
        event_messages(
            WindowEvent::Button { button: PointerButton::Middle, pressed: false, inside: true },
        ) == seq![InputModel::MouseUp { button: MouseButton::Middle }],
        event_messages(
            WindowEvent::Button { button: PointerButton::Extra, pressed, inside: true },
        ).len() == 0,
        event_messages(WindowEvent::Button { button, pressed, inside: false }).len() == 0,
        event_messages(WindowEvent::Other).len() == 0,
{
}

/// A key that goes down or up is sent once, under its name, and no key is sent again while it
/// is held down. The names are those of `keys::lemma_keys_arrive`.
pub proof fn lemma_keys_are_sent(key: ViewerKey, pressed: bool)
    ensures
        match keys::host_name(key) {
            Some(name) => {
                &&& event_messages(WindowEvent::Key { key, pressed: true, repeat: false }) == seq![
                    InputModel::KeyDown { key: name },
                ]
                &&& event_messages(WindowEvent::Key { key, pressed: false, repeat: false }) == seq![
                    InputModel::KeyUp { key: name },
                ]
            },
            None => event_messages(WindowEvent::Key { key, pressed, repeat: false }).len() == 0,
        },
        keys::host_name(key) is None <==> key == ViewerKey::Other,
        event_messages(WindowEvent::Key { key, pressed, repeat: true }).len() == 0,
{
    keys::lemma_keys_arrive(key);
}

/// Events are sent in the order in which they came, each by itself: what is sent for two lists
/// of events one after the other is what is sent for each, one after the other.
pub proof fn lemma_events_are_sent_in_order(a: Seq<WindowEvent>, b: Seq<WindowEvent>, e: WindowEvent)
    ensures
        events_messages(Seq::empty()).len() == 0,
        events_messages(seq![e]) == event_messages(e),
        events_messages(a + b) == events_messages(a) + events_messages(b),
    decreases b.len(),
{
    assert(seq![e].drop_last() =~= Seq::<WindowEvent>::empty());
    assert(events_messages(Seq::<WindowEvent>::empty()) =~= seq![]);
    assert(events_messages(seq![e]) =~= event_messages(e));
    if b.len() == 0 {
        assert(a + b =~= a);
        assert(events_messages(a + b) =~= events_messages(a) + events_messages(b));
    } else {
        assert((a + b).drop_last() =~= a + b.drop_last());
        lemma_events_are_sent_in_order(a, b.drop_last(), e);
        assert(events_messages(a + b) =~= events_messages(a) + events_messages(b));
    }
}

/// With the pointer over the picture, first its place is sent, if it has one, then the scroll,
/// as it was, unless both directions are zero, and then the events; away from the picture
/// nothing is sent. By its bits a number is zero at 0 and 0x80000000.
pub proof fn lemma_what_the_window_sends(
    x: Single,
    y: Single,
    dx: Single,
    dy: Single,
    events: Seq<WindowEvent>,
)
    ensures
        ({
            let place = seq![InputModel::MouseMove { x: x.clamped(), y: y.clamped() }];
            let turn = seq![InputModel::Scroll { dx, dy }];
            let rest = events_messages(events);
            let still = (dx.bits == 0 || dx.bits == 0x8000_0000) && (dy.bits == 0 || dy.bits
                == 0x8000_0000);
            &&& still ==> window_messages(true, Some((x, y)), (dx, dy), events) == place + rest
            &&& !still ==> window_messages(true, Some((x, y)), (dx, dy), events) == place + turn
                + rest
            &&& still ==> window_messages(true, None, (dx, dy), events) == rest
            &&& !still ==> window_messages(true, None, (dx, dy), events) == turn + rest
            &&& window_messages(false, Some((x, y)), (dx, dy), events).len() == 0
            &&& window_messages(false, None, (dx, dy), events).len() == 0
        }),
{
    let rest = events_messages(events);
    assert(pointer_messages(Some((x, y))) + scroll_messages(dx, dy) + rest =~= pointer_messages(
        Some((x, y)),
    ) + (scroll_messages(dx, dy) + rest));
    assert(window_messages(true, None, (dx, dy), events) =~= scroll_messages(dx, dy) + rest);
    if scroll_messages(dx, dy).len() == 0 {
        assert(scroll_messages(dx, dy) + rest =~= rest);
    }
}

/// What a message does to the window. Fewer than nine bytes, or a first byte other than 0xF1,
/// leave all but the status line; so does JPEG data, the bytes from the tenth on, that cannot
/// be decoded. JPEG data that is decoded is shown at the size that it is decoded into, whatever
/// size the message gives.
pub proof fn lemma_what_a_message_shows(v: ViewerModel, data: Seq<u8>)
    ensures
        ({
            let shown = after_frame(v, data);
            let jpeg = data.skip(9);
            let whole = data.len() >= 9 && data[0] == 0xf1;
            &&& shown.url == v.url
            &&& !whole ==> shown.picture == v.picture && shown.status
                == "Bad frame header from host"@
            &&& whole && decoded_picture(jpeg) is None ==> shown.picture == v.picture
                && shown.status == "JPEG decode failed"@
            &&& whole ==> (decoded_picture(jpeg) matches Some((w, h, rgba)) ==> shown.picture
                == Some((w, h)) && shown.status == "Connected"@)
            &&& can_take(data) <==> (whole ==> jpeg::decodable_shape(jpeg))
        }),
        fresh_viewer(v.url).picture is None,
        fresh_viewer(v.url).status == "Connecting…"@,
        fresh_viewer(v.url).url == v.url,
{
    frame::lemma_frame_is_read(data);
    if frame::frame_parts(data) is Some {
        assert((frame::frame_parts(data)->0).2 =~= data.skip(9));
    }
}

/// The picture that a message gives is the one that the bytes from the tenth on are decoded
/// into, pixel by pixel, and a message gives none exactly if there is none.
pub proof fn lemma_which_picture_is_given(data: Seq<u8>, picture: Option<Picture>)
    ensures
        ({
            let jpeg = data.skip(9);
            let whole = data.len() >= 9 && data[0] == 0xf1;
            is_picture_in(data, picture) ==> match picture {
                Some(p) => whole && decoded_picture(jpeg) == Some((p.width, p.height, p.rgba@)),
                None => whole ==> decoded_picture(jpeg) is None,
            }
        }),
{
    frame::lemma_frame_is_read(data);
    if frame::frame_parts(data) is Some {
        assert((frame::frame_parts(data)->0).2 =~= data.skip(9));
    }
}

} // verus!
