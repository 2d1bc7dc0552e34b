//! Keyboard input as the app sees it: the editing keys it acts on, the
//! text a key press types, the modifier mask, and the request to show or
//! hide the on-screen keyboard.

use vstd::prelude::*;

verus! {

pub const SF_KEY_OTHER: u32 = 0;
pub const SF_KEY_BACKSPACE: u32 = 1;
pub const SF_KEY_DELETE: u32 = 2;
pub const SF_KEY_ENTER: u32 = 3;
pub const SF_KEY_TAB: u32 = 4;
pub const SF_KEY_ESCAPE: u32 = 5;
pub const SF_KEY_LEFT: u32 = 6;
pub const SF_KEY_RIGHT: u32 = 7;
pub const SF_KEY_UP: u32 = 8;
pub const SF_KEY_DOWN: u32 = 9;
pub const SF_KEY_HOME: u32 = 10;
pub const SF_KEY_END: u32 = 11;
pub const SF_KEY_PAGE_UP: u32 = 12;
pub const SF_KEY_PAGE_DOWN: u32 = 13;
/// Reserved for the space bar; the space bar reports `SF_KEY_OTHER` and
/// types its character instead.
pub const SF_KEY_SPACE: u32 = 14;

pub const SF_MOD_SHIFT: u32 = 1;
pub const SF_MOD_CONTROL: u32 = 2;
pub const SF_MOD_ALT: u32 = 4;
pub const SF_MOD_SUPER: u32 = 8;

/// The named keys a host can report; those the app does not act on are
/// `Other`.
#[derive(Debug, Clone, Copy, PartialEq, Eq)]
pub enum NamedKey {
    Backspace,
    Delete,
    Enter,
    Tab,
    Escape,
    ArrowLeft,
    ArrowRight,
    ArrowUp,
    ArrowDown,
    Home,
    End,
    PageUp,
    PageDown,
    Space,
    Other,
}

/// A key press: a named key, a key that types characters, or a key the
/// platform could not identify.
#[derive(Debug, Clone, PartialEq, Eq)]
pub enum Key {
    Named(NamedKey),
    Character(String),
    Unidentified,
}

/// The code the app receives for a key: the editing keys have their own
/// codes; everything else, the space bar and character keys included, is
/// `SF_KEY_OTHER`, whose text arrives separately.
pub open spec fn key_code(key: Key) -> u32 {
    match key {
        Key::Named(named) => match named {
            NamedKey::Backspace => SF_KEY_BACKSPACE,
            NamedKey::Delete => SF_KEY_DELETE,
            NamedKey::Enter => SF_KEY_ENTER,
            NamedKey::Tab => SF_KEY_TAB,
            NamedKey::Escape => SF_KEY_ESCAPE,
            NamedKey::ArrowLeft => SF_KEY_LEFT,
            NamedKey::ArrowRight => SF_KEY_RIGHT,
            NamedKey::ArrowUp => SF_KEY_UP,
            NamedKey::ArrowDown => SF_KEY_DOWN,
            NamedKey::Home => SF_KEY_HOME,
            NamedKey::End => SF_KEY_END,
            NamedKey::PageUp => SF_KEY_PAGE_UP,
            NamedKey::PageDown => SF_KEY_PAGE_DOWN,
            _ => SF_KEY_OTHER,
        },
        _ => SF_KEY_OTHER,
    }
}

/// The code the app receives for `key`.
pub fn map_key(key: &Key) -> (code: u32)
    ensures
        code == key_code(*key),
{
    let named = match key {
        Key::Named(named) => *named,
        _ => {
            return SF_KEY_OTHER;
        },
    };
    match named {
        NamedKey::Backspace => SF_KEY_BACKSPACE,
        NamedKey::Delete => SF_KEY_DELETE,
        NamedKey::Enter => SF_KEY_ENTER,
        NamedKey::Tab => SF_KEY_TAB,
        NamedKey::Escape => SF_KEY_ESCAPE,
        NamedKey::ArrowLeft => SF_KEY_LEFT,
        NamedKey::ArrowRight => SF_KEY_RIGHT,
        NamedKey::ArrowUp => SF_KEY_UP,
        NamedKey::ArrowDown => SF_KEY_DOWN,
        NamedKey::Home => SF_KEY_HOME,
        NamedKey::End => SF_KEY_END,
        NamedKey::PageUp => SF_KEY_PAGE_UP,
        NamedKey::PageDown => SF_KEY_PAGE_DOWN,
        _ => SF_KEY_OTHER,
    }
}

/// The text a key press types: only a key without a code of its own, with
/// non-empty text free of control characters.
pub open spec fn printable_of(code: u32, text: Option<Seq<char>>) -> Option<Seq<char>> {
    if code != SF_KEY_OTHER {
        None
    } else {
        match text {
            None => None,
            Some(t) => if t.len() == 0 || exists|i: int|
                0 <= i < t.len() && crate::strs::is_control(#[trigger] t[i]) {
                None
            } else {
                Some(t)
            },
        }
    }
}

/// Whether `c` is a control character (`char::is_control`).
fn is_control_char(c: char) -> (b: bool)
    ensures
        b == crate::strs::is_control(c),
{
    let u = c as u32;
    u <= 0x1f || (0x7f <= u && u <= 0x9f)
}

/// The text a key press with code `code` and text `text` types, if any.
pub fn printable_text<'a>(code: u32, text: Option<&'a str>) -> (r: Option<&'a str>)
    ensures
        crate::config::opt_str_view(r) == printable_of(code, crate::config::opt_str_view(text)),
{
    if code != SF_KEY_OTHER {
        return None;
    }
    let t = match text {
        Some(t) => t,
        None => {
            return None;
        },
    };
    let v = crate::strs::chars_of(t);
    if v.len() == 0 {
        return None;
    }
    let mut i: usize = 0;
    while i < v.len()
        invariant
            v@ == t@,
            v@.len() > 0,
            code == SF_KEY_OTHER,
            crate::config::opt_str_view(text) == Some(t@),
            i <= v@.len(),
            forall|j: int| 0 <= j < i ==> !crate::strs::is_control(#[trigger] v@[j]),
        decreases v@.len() - i,
    {
        if is_control_char(v[i]) {
            proof {
                assert(crate::strs::is_control(t@[i as int]));
            }
            return None;
        }
        i = i + 1;
    }
    Some(t)
}

/// Which modifier keys are held.
#[derive(Debug, Clone, Copy, PartialEq, Eq, Default)]
pub struct Modifiers {
    pub shift: bool,
    pub control: bool,
    pub alt: bool,
    pub super_key: bool,
}

/// `bit` when `b` holds, else nothing.
pub open spec fn bit_if(b: bool, bit: u32) -> u32 {
    if b {
        bit
    } else {
        0
    }
}

/// The modifier mask the app receives: one bit per held modifier.
pub fn modifier_mask(state: Modifiers) -> (mask: u32)
    ensures
        mask == bit_if(state.shift, SF_MOD_SHIFT) | bit_if(state.control, SF_MOD_CONTROL) | bit_if(
            state.alt,
            SF_MOD_ALT,
        ) | bit_if(state.super_key, SF_MOD_SUPER),
{
    let shift = if state.shift {
        SF_MOD_SHIFT
    } else {
        0
    };
    let control = if state.control {
        SF_MOD_CONTROL
    } else {
        0
    };
    let alt = if state.alt {
        SF_MOD_ALT
    } else {
        0
    };
    let super_key = if state.super_key {
        SF_MOD_SUPER
    } else {
        0
    };
    let mask = shift | control | alt | super_key;
    mask
}

/// What a host does with one key event: the text to commit to the
/// focused field, and the editing key to report with its modifier mask,
/// whether it is pressed and whether it repeats.
#[derive(Debug, PartialEq, Eq)]
pub struct KeyDispatch<'a> {
    pub commit: Option<&'a str>,
    pub key: Option<(u32, u32, u32, u32)>,
}

/// `1` for true, `0` for false.
pub open spec fn flag(b: bool) -> u32 {
    if b {
        1
    } else {
        0
    }
}

/// Handles a key event whose code is `code`: when the key is pressed and
/// the host types text itself (no input method is composing), the key's
/// printable text is committed; a key with a code of its own is reported,
/// with the modifiers held, pressed or released, and whether it repeats.
pub fn key_event<'a>(
    code: u32,
    pressed: bool,
    repeat: bool,
    types_text: bool,
    text: Option<&'a str>,
    modifiers: Modifiers,
) -> (d: KeyDispatch<'a>)
    ensures
        crate::config::opt_str_view(d.commit) == if pressed && types_text {
            printable_of(code, crate::config::opt_str_view(text))
        } else {
            None
        },
        d.key == if code == SF_KEY_OTHER {
            None
        } else {
            Some(
                (
                    code,
                    bit_if(modifiers.shift, SF_MOD_SHIFT) | bit_if(modifiers.control, SF_MOD_CONTROL)
                        | bit_if(modifiers.alt, SF_MOD_ALT) | bit_if(modifiers.super_key, SF_MOD_SUPER),
                    flag(pressed),
                    flag(repeat),
                ),
            )
        },
{
    let commit = if pressed && types_text {
        printable_text(code, text)
    } else {
        None
    };
    let key = if code == SF_KEY_OTHER {
        None
    } else {
        Some(
            (
                code,
                modifier_mask(modifiers),
                if pressed {
                    1
                } else {
                    0
                },
                if repeat {
                    1
                } else {
                    0
                },
            ),
        )
    };
    KeyDispatch { commit, key }
}

/// A key with a code of its own never types text, and a key event never
/// both types text and reports a key.
pub proof fn law_command_keys_never_type(code: u32, text: Option<Seq<char>>)
    ensures
        code != SF_KEY_OTHER ==> printable_of(code, text) is None,
        printable_of(code, text) is Some ==> code == SF_KEY_OTHER,
{
}

/// A pending request to show or hide the on-screen keyboard, set by the
/// app and taken by the host's event loop.
#[derive(Debug)]
pub struct ImeRequest {
    allowed: bool,
    dirty: bool,
}

impl ImeRequest {
    /// The last value asked for, and whether the host has yet to take it.
    pub closed spec fn view(&self) -> (bool, bool) {
        (self.allowed, self.dirty)
    }
}

impl Default for ImeRequest {
    /// No request: the keyboard is not asked for and nothing is pending.
    fn default() -> (r: ImeRequest)
        ensures
            r.view() == (false, false),
    {
        ImeRequest { allowed: false, dirty: false }
    }
}

/// The change a request state holds for the host, if any.
pub open spec fn pending_of(state: (bool, bool)) -> Option<bool> {
    if state.1 {
        Some(state.0)
    } else {
        None
    }
}

/// Asking for `allowed`: it is stored and marked as not yet taken.
pub open spec fn request_step(state: (bool, bool), allowed: bool) -> (bool, bool) {
    (allowed, true)
}

/// Taking the pending change: it is handed over once and marked taken.
pub open spec fn take_step(state: (bool, bool)) -> ((bool, bool), Option<bool>) {
    ((state.0, false), pending_of(state))
}

/// Asks the host to allow (or stop allowing) the on-screen keyboard; a
/// later request replaces one not yet taken.
pub fn request_ime_allowed(request: &mut ImeRequest, allowed: bool)
    ensures
        final(request)@ == request_step(old(request)@, allowed),
{
    request.allowed = allowed;
    request.dirty = true;
}

/// The change asked for since the last call, once.
pub fn take_ime_allowed(request: &mut ImeRequest) -> (r: Option<bool>)
    ensures
        (final(request)@, r) == take_step(old(request)@),
{
    if request.dirty {
        request.dirty = false;
        Some(request.allowed)
    } else {
        None
    }
}

/// A change is reported once: after a request, the next take hands over
/// the value asked for and the one after hands over nothing, whatever was
/// pending before.
pub proof fn law_request_is_taken_once(state: (bool, bool), allowed: bool)
    ensures
        ({
            let (s1, first) = take_step(request_step(state, allowed));
            let (_, second) = take_step(s1);
            first == Some(allowed) && second is None
        }),
{
}

/// Of several requests made before the host looks, only the last counts.
pub proof fn law_last_request_wins(state: (bool, bool), a: bool, b: bool)
    ensures
        take_step(request_step(request_step(state, a), b)).1 == Some(b),
{
}

} // verus!
