//! The constants of the X protocol that the window manager's rules depend on,
//! as the `x11` bindings define them.

use vstd::prelude::*;

verus! {

/// A modifier key of the X keyboard model.
#[derive(Clone, Copy, Debug, PartialEq, Eq, Structural)]
pub enum Modifier {
    Shift,
    Control,
    Mod1,
    Mod2,
    Mod3,
    Mod4,
    Mod5,
}

/// `x11::xlib::ShiftMask`, the bit of the Shift key in a modifier mask: `0x01`.
#[verifier::external_body]
fn shift_mask() -> (m: u32)
    ensures
        m == 0x01,
{
    x11::xlib::ShiftMask
}

/// `x11::xlib::ControlMask`, the bit of the Control key in a modifier mask: `0x04`.
#[verifier::external_body]
fn control_mask() -> (m: u32)
    ensures
        m == 0x04,
{
    x11::xlib::ControlMask
}

/// `x11::xlib::Mod1Mask`, the bit of the first modifier (usually Alt): `0x08`.
#[verifier::external_body]
fn mod1_mask() -> (m: u32)
    ensures
        m == 0x08,
{
    x11::xlib::Mod1Mask
}

/// `x11::xlib::Mod2Mask`, the bit of the second modifier: `0x10`.
#[verifier::external_body]
fn mod2_mask() -> (m: u32)
    ensures
        m == 0x10,
{
    x11::xlib::Mod2Mask
}

/// `x11::xlib::Mod3Mask`, the bit of the third modifier: `0x20`.
#[verifier::external_body]
fn mod3_mask() -> (m: u32)
    ensures
        m == 0x20,
{
    x11::xlib::Mod3Mask
}

/// `x11::xlib::Mod4Mask`, the bit of the fourth modifier: `0x40`.
#[verifier::external_body]
fn mod4_mask() -> (m: u32)
    ensures
        m == 0x40,
{
    x11::xlib::Mod4Mask
}

/// `x11::xlib::Mod5Mask`, the bit of the fifth modifier: `0x80`.
#[verifier::external_body]
fn mod5_mask() -> (m: u32)
    ensures
        m == 0x80,
{
    x11::xlib::Mod5Mask
}

impl Modifier {
    /// The bit that stands for this modifier in a mask.
    pub open spec fn bit(self) -> u32 {
        match self {
            Modifier::Shift => 0x01,
            Modifier::Control => 0x04,
            Modifier::Mod1 => 0x08,
            Modifier::Mod2 => 0x10,
            Modifier::Mod3 => 0x20,
            Modifier::Mod4 => 0x40,
            Modifier::Mod5 => 0x80,
        }
    }

    /// The bit that stands for this modifier in a mask.
    pub fn mask(self) -> (m: u32)
        ensures
            m == self.bit(),
    {
        match self {
            Modifier::Shift => shift_mask(),
            Modifier::Control => control_mask(),
            Modifier::Mod1 => mod1_mask(),
            Modifier::Mod2 => mod2_mask(),
            Modifier::Mod3 => mod3_mask(),
            Modifier::Mod4 => mod4_mask(),
            Modifier::Mod5 => mod5_mask(),
        }
    }
}

/// `x11::xlib::BadAccess`, the error code with which the server refuses a
/// request for something that another client holds: `10`.
#[verifier::external_body]
fn bad_access() -> (code: u8)
    ensures
        code == 10,
{
    x11::xlib::BadAccess
}

/// `x11::xlib::SubstructureNotifyMask`, the event class of changes to the
/// children of a window: `0x0008_0000`.
#[verifier::external_body]
fn substructure_notify_mask() -> (m: i64)
    ensures
        m == 0x0008_0000,
{
    x11::xlib::SubstructureNotifyMask as i64
}

/// `x11::xlib::SubstructureRedirectMask`, the event class of requests that
/// the children of a window make and one client may answer: `0x0010_0000`.
#[verifier::external_body]
fn substructure_redirect_mask() -> (m: i64)
    ensures
        m == 0x0010_0000,
{
    x11::xlib::SubstructureRedirectMask as i64
}

/// `x11::xlib::KeyPress`, the type code of a key press event: `2`.
#[verifier::external_body]
fn key_press() -> (code: i32)
    ensures
        code == 2,
{
    x11::xlib::KeyPress
}

/// `x11::xlib::CreateNotify`, the type code of a window creation event: `16`.
#[verifier::external_body]
fn create_notify() -> (code: i32)
    ensures
        code == 16,
{
    x11::xlib::CreateNotify
}

/// `x11::xlib::DestroyNotify`, the type code of a window destruction event: `17`.
#[verifier::external_body]
fn destroy_notify() -> (code: i32)
    ensures
        code == 17,
{
    x11::xlib::DestroyNotify
}

/// `x11::xlib::MapRequest`, the type code of a request to show a window: `20`.
#[verifier::external_body]
fn map_request() -> (code: i32)
    ensures
        code == 20,
{
    x11::xlib::MapRequest
}

/// `x11::xlib::ConfigureRequest`, the type code of a request to change a
/// window's geometry: `23`.
#[verifier::external_body]
fn configure_request() -> (code: i32)
    ensures
        code == 23,
{
    x11::xlib::ConfigureRequest
}

/// Whether a protocol error code says that access was denied.
pub fn is_access_denied(error_code: u8) -> (b: bool)
    ensures
        b == (error_code == 10),
{
    error_code == bad_access()
}

/// The event classes to select on the root window in order to manage its
/// children: notifications of their changes and the right to answer their
/// requests.
pub fn root_event_mask() -> (m: i64)
    ensures
        m == 0x0018_0000,
{
    let notify = substructure_notify_mask();
    let redirect = substructure_redirect_mask();
    assert(0x0008_0000i64 | 0x0010_0000i64 == 0x0018_0000i64) by (bit_vector);
    notify | redirect
}

/// The kinds of event that the window manager tells apart.
#[derive(Clone, Copy, Debug, PartialEq, Eq, Structural)]
pub enum EventKind {
    KeyPress,
    CreateNotify,
    DestroyNotify,
    MapRequest,
    ConfigureRequest,
    Other,
}

impl EventKind {
    /// The kind that a protocol type code stands for.
    pub open spec fn of(code: i32) -> EventKind {
        if code == 2 {
            EventKind::KeyPress
        } else if code == 16 {
            EventKind::CreateNotify
        } else if code == 17 {
            EventKind::DestroyNotify
        } else if code == 20 {
            EventKind::MapRequest
        } else if code == 23 {
            EventKind::ConfigureRequest
        } else {
            EventKind::Other
        }
    }

    /// Classifies an event by its protocol type code.
    pub fn classify(code: i32) -> (kind: EventKind)
        ensures
            kind == EventKind::of(code),
    {
        if code == key_press() {
            EventKind::KeyPress
        } else if code == create_notify() {
            EventKind::CreateNotify
        } else if code == destroy_notify() {
            EventKind::DestroyNotify
        } else if code == map_request() {
            EventKind::MapRequest
        } else if code == configure_request() {
            EventKind::ConfigureRequest
        } else {
            EventKind::Other
        }
    }
}

} // verus!
