//! Pointer, scroll and key input: the messages that the viewer sends and the actions that
//! the host performs for them.

use crate::keys;
use crate::keys::Key;
use vstd::prelude::*;

verus! {

/// A number in the IEEE 754 single-precision format, by its bit pattern.
#[derive(Debug, Clone, Copy, PartialEq, Eq, Structural)]
pub struct Single {
    pub bits: u32,
}

/// The bit pattern of the sign.
pub const SIGN_BIT: u32 = 0x8000_0000;

/// The bit pattern of positive infinity. A pattern above it, its sign aside, is not a number.
pub const INFINITY_BITS: u32 = 0x7f80_0000;

/// The bit pattern of one.
pub const ONE_BITS: u32 = 0x3f80_0000;

impl Single {
    /// The distance from zero in steps from one number to the next, negative below zero.
    /// Two numbers compare as their ranks do; both zeros have rank zero.
    pub open spec fn rank(self) -> int {
        if self.bits >= SIGN_BIT {
            SIGN_BIT - self.bits
        } else {
            self.bits as int
        }
    }

    /// Whether the pattern stands for no number.
    pub open spec fn nan(self) -> bool {
        self.rank() > INFINITY_BITS || self.rank() < -(INFINITY_BITS as int)
    }

    /// The number held between zero and one. What is no number stays so.
    pub open spec fn clamped(self) -> Single {
        if self.nan() {
            self
        } else if self.rank() < 0 {
            Single { bits: 0 }
        } else if self.rank() > ONE_BITS {
            Single { bits: ONE_BITS }
        } else {
            self
        }
    }

    /// The sign as a number: one or minus one, and zero for what is no number.
    pub open spec fn sign(self) -> int {
        if self.nan() {
            0
        } else if self.bits >= SIGN_BIT {
            -1
        } else {
            1
        }
    }

    /// Whether the number is zero, of either sign.
    pub fn is_zero(&self) -> (res: bool)
        ensures
            res == (self.rank() == 0),
    {
        self.bits == 0 || self.bits == SIGN_BIT
    }

    /// Whether the pattern stands for no number.
    pub fn is_nan(&self) -> (res: bool)
        ensures
            res == self.nan(),
    {
        let magnitude: u32 = if self.bits >= SIGN_BIT {
            self.bits - SIGN_BIT
        } else {
            self.bits
        };
        magnitude > INFINITY_BITS
    }

    /// The number held between zero and one.
    pub fn clamp_unit(&self) -> (res: Single)
        ensures
            res == self.clamped(),
    {
        if self.is_nan() {
            *self
        } else if self.bits > SIGN_BIT {
            Single { bits: 0 }
        } else if self.bits > ONE_BITS && self.bits < SIGN_BIT {
            Single { bits: ONE_BITS }
        } else {
            *self
        }
    }

    /// The sign as a number: one or minus one, and zero for what is no number.
    pub fn signum(&self) -> (res: i32)
        ensures
            res == self.sign(),
    {
        if self.is_nan() {
            0
        } else if self.bits >= SIGN_BIT {
            -1
        } else {
            1
        }
    }
}

/// A held number lies between zero and one or is none, and holding it again changes
/// nothing.
pub proof fn lemma_clamped_in_unit(n: Single)
    ensures
        n.clamped().nan() == n.nan(),
        !n.nan() ==> 0 <= n.clamped().rank() <= ONE_BITS,
        !n.nan() && 0 <= n.rank() <= ONE_BITS ==> n.clamped() == n,
        n.clamped().clamped() == n.clamped(),
{
}

/// A button of the mouse.
#[derive(Debug, Clone, Copy, PartialEq, Eq, Structural)]
pub enum MouseButton {
    Left,
    Right,
    Middle,
}

/// An input message from the viewer. Pointer positions are fractions of the screen's
/// width and height.
#[derive(Debug, Clone, PartialEq, Eq)]
pub enum InputMessage {
    MouseMove { x: Single, y: Single },
    MouseDown { button: MouseButton },
    MouseUp { button: MouseButton },
    Scroll { dx: Single, dy: Single },
    KeyDown { key: String },
    KeyUp { key: String },
}

/// The model of an input message.
pub enum InputModel {
    MouseMove { x: Single, y: Single },
    MouseDown { button: MouseButton },
    MouseUp { button: MouseButton },
    Scroll { dx: Single, dy: Single },
    KeyDown { key: Seq<char> },
    KeyUp { key: Seq<char> },
}

impl View for InputMessage {
    type V = InputModel;

    open spec fn view(&self) -> InputModel {
        match self {
            InputMessage::MouseMove { x, y } => InputModel::MouseMove { x: *x, y: *y },
            InputMessage::MouseDown { button } => InputModel::MouseDown { button: *button },
            InputMessage::MouseUp { button } => InputModel::MouseUp { button: *button },
            InputMessage::Scroll { dx, dy } => InputModel::Scroll { dx: *dx, dy: *dy },
            InputMessage::KeyDown { key } => InputModel::KeyDown { key: key@ },
            InputMessage::KeyUp { key } => InputModel::KeyUp { key: key@ },
        }
    }
}

/// The direction of a scroll.
#[derive(Debug, Clone, Copy, PartialEq, Eq, Structural)]
pub enum ScrollAxis {
    Vertical,
    Horizontal,
}

/// One thing that the host does with its pointer or keyboard.
#[derive(Debug, Clone, Copy, PartialEq, Eq, Structural)]
pub enum InputAction {
    /// Moves the pointer to the pixel at `x` times `width` and `y` times `height`, rounded.
    MoveMouse { x: Single, y: Single, width: u32, height: u32 },
    /// Presses or releases a button of the mouse.
    Button { button: MouseButton, pressed: bool },
    /// Turns the wheel.
    Scroll { amount: i32, axis: ScrollAxis },
    /// Presses or releases a key.
    Key { key: Key, pressed: bool },
}

/// A screen's width or height, at least one.
pub open spec fn at_least_one(extent: u32) -> u32 {
    if extent == 0 {
        1
    } else {
        extent
    }
}

/// The turn of the wheel for one direction of a scroll message.
pub open spec fn scroll_actions(delta: Single, axis: ScrollAxis) -> Seq<InputAction> {
    if delta.rank() != 0 {
        seq![InputAction::Scroll { amount: (2 * delta.sign()) as i32, axis }]
    } else {
        seq![]
    }
}

/// The press or release of the key of a name; none where the host knows no such key.
pub open spec fn key_actions(name: Seq<char>, pressed: bool) -> Seq<InputAction> {
    match keys::key_named(name) {
        Some(key) => seq![InputAction::Key { key, pressed }],
        None => seq![],
    }
}

/// What the host does for a message, in order, with a captured screen of the given size.
pub open spec fn input_actions(message: InputModel, width: u32, height: u32) -> Seq<InputAction> {
    match message {
        InputModel::MouseMove { x, y } => seq![
            InputAction::MoveMouse {
                x: x.clamped(),
                y: y.clamped(),
                width: at_least_one(width),
                height: at_least_one(height),
            },
        ],
        InputModel::MouseDown { button } => seq![InputAction::Button { button, pressed: true }],
        InputModel::MouseUp { button } => seq![InputAction::Button { button, pressed: false }],
        InputModel::Scroll { dx, dy } => scroll_actions(dy, ScrollAxis::Vertical)
            + scroll_actions(dx, ScrollAxis::Horizontal),
        InputModel::KeyDown { key } => key_actions(key, true),
        InputModel::KeyUp { key } => key_actions(key, false),
    }
}

/// A screen's width or height, at least one.
fn extent_of(extent: u32) -> (res: u32)
    ensures
        res == at_least_one(extent),
{
    if extent == 0 {
        1
    } else {
        extent
    }
}

/// Appends the turn of the wheel for one direction of a scroll message.
fn push_scroll(actions: &mut Vec<InputAction>, delta: &Single, axis: ScrollAxis)
    ensures
        final(actions)@ == old(actions)@ + scroll_actions(*delta, axis),
{
    if !delta.is_zero() {
        let amount: i32 = delta.signum() * 2;
        actions.push(InputAction::Scroll { amount, axis });
    }
    assert(actions@ =~= old(actions)@ + scroll_actions(*delta, axis));
}

/// Appends the press or release of the key of a name.
fn push_key(actions: &mut Vec<InputAction>, name: &str, pressed: bool)
    ensures
        final(actions)@ == old(actions)@ + key_actions(name@, pressed),
{
    match keys::map_key(name) {
        Some(key) => {
            actions.push(InputAction::Key { key, pressed });
        },
        None => {},
    }
    assert(actions@ =~= old(actions)@ + key_actions(name@, pressed));
}

/// What the host does for a message, in order, with a captured screen of the given size.
pub fn apply_input(message: &InputMessage, width: u32, height: u32) -> (res: Vec<InputAction>)
    ensures
        res@ == input_actions(message@, width, height),
{
    let mut actions: Vec<InputAction> = Vec::new();
    match message {
        InputMessage::MouseMove { x, y } => {
            actions.push(
                InputAction::MoveMouse {
                    x: x.clamp_unit(),
                    y: y.clamp_unit(),
                    width: extent_of(width),
                    height: extent_of(height),
                },
            );
        },
        InputMessage::MouseDown { button } => {
            actions.push(InputAction::Button { button: *button, pressed: true });
        },
        InputMessage::MouseUp { button } => {
            actions.push(InputAction::Button { button: *button, pressed: false });
        },
        InputMessage::Scroll { dx, dy } => {
            push_scroll(&mut actions, dy, ScrollAxis::Vertical);
            push_scroll(&mut actions, dx, ScrollAxis::Horizontal);
        },
        InputMessage::KeyDown { key } => {
            push_key(&mut actions, key.as_str(), true);
        },
        InputMessage::KeyUp { key } => {
            push_key(&mut actions, key.as_str(), false);
        },
    }
    assert(actions@ =~= input_actions(message@, width, height));
    actions
}

/// The word that an action's failure is reported under.
pub open spec fn action_label(action: InputAction) -> Seq<char> {
    match action {
        InputAction::MoveMouse { .. } => "mouse move"@,
        InputAction::Button { pressed, .. } => if pressed {
            "mouse down"@
        } else {
            "mouse up"@
        },
        InputAction::Scroll { .. } => "scroll"@,
        InputAction::Key { .. } => "key"@,
    }
}

/// The word that an action's failure is reported under.
pub fn failure_label(action: &InputAction) -> (res: String)
    ensures
        res@ == action_label(*action),
{
    let label: &str = match action {
        InputAction::MoveMouse { .. } => "mouse move",
        InputAction::Button { pressed, .. } => if *pressed {
            "mouse down"
        } else {
            "mouse up"
        },
        InputAction::Scroll { .. } => "scroll",
        InputAction::Key { .. } => "key",
    };
    label.to_owned()
}

/// A press and a release of the same button, or of the same key, act on the same button
/// or key of the host: what is pressed can be released.
pub proof fn lemma_release_matches_press(
    button: MouseButton,
    name: Seq<char>,
    width: u32,
    height: u32,
)
    ensures
        input_actions(InputModel::MouseDown { button }, width, height) == seq![
            InputAction::Button { button, pressed: true },
        ],
        input_actions(InputModel::MouseUp { button }, width, height) == seq![
            InputAction::Button { button, pressed: false },
        ],
        match keys::key_named(name) {
            Some(key) => {
                &&& input_actions(InputModel::KeyDown { key: name }, width, height) == seq![
                    InputAction::Key { key, pressed: true },
                ]
                &&& input_actions(InputModel::KeyUp { key: name }, width, height) == seq![
                    InputAction::Key { key, pressed: false },
                ]
            },
            None => {
                &&& input_actions(InputModel::KeyDown { key: name }, width, height).len() == 0
                &&& input_actions(InputModel::KeyUp { key: name }, width, height).len() == 0
            },
        },
{
}

/// Holding a number between zero and one, by its bits: the numbers from zero to one, and minus
/// zero, stay; those above one become one, those below zero become zero; what is no number
/// stays.
pub proof fn lemma_clamped_bits(n: Single)
    ensures
        n.bits <= 0x3f80_0000 || n.bits == 0x8000_0000 ==> n.clamped() == n,
        0x3f80_0000 < n.bits <= 0x7f80_0000 ==> n.clamped().bits == 0x3f80_0000,
        0x8000_0000 < n.bits <= 0xff80_0000 ==> n.clamped().bits == 0,
        0x7f80_0000 < n.bits < 0x8000_0000 || n.bits > 0xff80_0000 ==> n.clamped() == n,
{
}

/// A message to move the pointer is one move: to the place held inside the screen, with the
/// captured width and height, each counted as one where it is zero.
pub proof fn lemma_move_is_one_move(x: Single, y: Single, width: u32, height: u32)
    ensures
        ({
            let actions = input_actions(InputModel::MouseMove { x, y }, width, height);
            &&& actions.len() == 1
            &&& actions[0] matches InputAction::MoveMouse { x: px, y: py, width: w, height: h }
                && px == x.clamped() && py == y.clamped() && (width > 0 ==> w == width) && (width
                == 0 ==> w == 1) && (height > 0 ==> h == height) && (height == 0 ==> h == 1)
        }),
{
}

/// A scroll turns the wheel the way that was scrolled, by two steps. The vertical turn comes
/// first, and a direction that was not scrolled has none. By its bits a number is above zero
/// from 1 to 0x7f800000, below zero from 0x80000001 to 0xff800000, and zero at 0 and
/// 0x80000000; what is no number turns the wheel by no step.
pub proof fn lemma_scroll_turns_the_wheel(dx: Single, dy: Single, width: u32, height: u32)
    ensures
        ({
            let actions = input_actions(InputModel::Scroll { dx, dy }, width, height);
            let down = dy.bits != 0 && dy.bits != 0x8000_0000;
            let across = dx.bits != 0 && dx.bits != 0x8000_0000;
            &&& !down && !across ==> actions.len() == 0
            &&& down != across ==> actions.len() == 1
            &&& down && across ==> actions.len() == 2
            &&& 0 < dy.bits <= 0x7f80_0000 ==> actions[0] == (InputAction::Scroll {
                amount: 2,
                axis: ScrollAxis::Vertical,
            })
            &&& 0x8000_0000 < dy.bits <= 0xff80_0000 ==> actions[0] == (InputAction::Scroll {
                amount: (-2) as i32,
                axis: ScrollAxis::Vertical,
            })
            &&& 0x7f80_0000 < dy.bits < 0x8000_0000 || dy.bits > 0xff80_0000 ==> actions[0] == (
            InputAction::Scroll { amount: 0, axis: ScrollAxis::Vertical })
            &&& 0 < dx.bits <= 0x7f80_0000 ==> actions.last() == (InputAction::Scroll {
                amount: 2,
                axis: ScrollAxis::Horizontal,
            })
            &&& 0x8000_0000 < dx.bits <= 0xff80_0000 ==> actions.last() == (InputAction::Scroll {
                amount: (-2) as i32,
                axis: ScrollAxis::Horizontal,
            })
            &&& 0x7f80_0000 < dx.bits < 0x8000_0000 || dx.bits > 0xff80_0000 ==> actions.last()
                == (InputAction::Scroll { amount: 0, axis: ScrollAxis::Horizontal })
        }),
{
}

/// The other way of scrolling turns the wheel the other way: numbers that differ in their sign
/// alone turn it by opposite amounts.
pub proof fn lemma_opposite_scrolls_are_opposite(a: Single, b: Single, width: u32, height: u32)
    requires
        0 < a.bits <= 0x7f80_0000,
        b.bits == a.bits + 0x8000_0000,
    ensures
        ({
            let zero = Single { bits: 0 };
            let there = input_actions(InputModel::Scroll { dx: zero, dy: a }, width, height);
            let back = input_actions(InputModel::Scroll { dx: zero, dy: b }, width, height);
            &&& there[0] matches InputAction::Scroll { amount: x, axis: p } && back[0] matches
                InputAction::Scroll { amount: y, axis: q } && x == -y && x > 0 && p == q
        }),
        ({
            let zero = Single { bits: 0 };
            let there = input_actions(InputModel::Scroll { dx: a, dy: zero }, width, height);
            let back = input_actions(InputModel::Scroll { dx: b, dy: zero }, width, height);
            &&& there[0] matches InputAction::Scroll { amount: x, axis: p } && back[0] matches
                InputAction::Scroll { amount: y, axis: q } && x == -y && x > 0 && p == q
        }),
{
    let zero = Single { bits: 0 };
    lemma_scroll_turns_the_wheel(zero, a, width, height);
    lemma_scroll_turns_the_wheel(zero, b, width, height);
    lemma_scroll_turns_the_wheel(a, zero, width, height);
    lemma_scroll_turns_the_wheel(b, zero, width, height);
}

/// The words that failures are reported under.
pub proof fn lemma_failure_words(action: InputAction)
    ensures
        action is MoveMouse ==> action_label(action) == "mouse move"@,
        action is Button && action->Button_pressed ==> action_label(action) == "mouse down"@,
        action is Button && !action->Button_pressed ==> action_label(action) == "mouse up"@,
        action is Scroll ==> action_label(action) == "scroll"@,
        action is Key ==> action_label(action) == "key"@,
{
}

/// What bits stand for: zero at 0 and 0x80000000, no number above 0x7f800000, the sign aside,
/// and else a number with the sign of the highest bit. Numbers above zero grow with their bits,
/// numbers below zero shrink with them.
pub proof fn lemma_bits_of_numbers(a: Single, b: Single)
    ensures
        a.rank() == 0 <==> a.bits == 0 || a.bits == 0x8000_0000,
        a.nan() <==> 0x7f80_0000 < a.bits < 0x8000_0000 || a.bits > 0xff80_0000,
        a.nan() ==> a.sign() == 0,
        !a.nan() && a.bits < 0x8000_0000 ==> a.sign() == 1,
        !a.nan() && a.bits >= 0x8000_0000 ==> a.sign() == -1,
        a.bits < b.bits < 0x8000_0000 ==> a.rank() < b.rank(),
        0x8000_0000 <= a.bits < b.bits ==> b.rank() < a.rank(),
        a.bits < 0x8000_0000 <= b.bits ==> b.rank() <= 0 <= a.rank(),
{
}

} // verus!
