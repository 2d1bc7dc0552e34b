//! The bridge between a platform input method's editable buffer and the
//! app's text field: it turns successive snapshots of the buffer into
//! commits and preedit updates.

use vstd::prelude::*;
use vstd::string::StringSliceAdditionalSpecFns;
use vstd::utf8::*;

verus! {

broadcast use {encode_utf8_valid_utf8, encode_utf8_decode_utf8, is_char_boundary_start_end_of_seq};

/// The largest character boundary of `b` at or below `i`.
pub open spec fn floor_boundary_of(b: Seq<u8>, i: int) -> int
    decreases i,
{
    if i <= 0 || is_char_boundary(b, i) {
        i
    } else {
        floor_boundary_of(b, i - 1)
    }
}

/// The smallest character boundary of `b` at or above `i`, or `i` itself
/// once it is at or past the end.
pub open spec fn ceil_boundary_of(b: Seq<u8>, i: int) -> int
    decreases b.len() - i,
{
    if i >= b.len() || is_char_boundary(b, i) {
        i
    } else {
        ceil_boundary_of(b, i + 1)
    }
}

pub open spec fn clamp_to(i: int, len: int) -> int {
    if i < len {
        i
    } else {
        len
    }
}

/// The bytes of the region `start..end` of `b` after both ends are
/// clamped to the text and widened outwards to character boundaries;
/// empty when the region is empty or reversed.
pub open spec fn region_bytes(b: Seq<u8>, start: int, end: int) -> Seq<u8> {
    let s = floor_boundary_of(b, clamp_to(start, b.len() as int));
    let e = ceil_boundary_of(b, clamp_to(end, b.len() as int));
    if s >= e {
        seq![]
    } else {
        b.subrange(s, e)
    }
}

/// The characters of that region of `text`.
pub open spec fn region_chars(text: Seq<char>, start: int, end: int) -> Seq<char> {
    decode_utf8(region_bytes(encode_utf8(text), start, end))
}

proof fn lemma_floor(b: Seq<u8>, i: int)
    requires
        0 <= i,
        valid_utf8(b),
    ensures
        0 <= floor_boundary_of(b, i) <= i,
        is_char_boundary(b, floor_boundary_of(b, i)),
    decreases i,
{
    if i == 0 {
    } else if !is_char_boundary(b, i) {
        lemma_floor(b, i - 1);
    }
}

proof fn lemma_ceil(b: Seq<u8>, i: int)
    requires
        0 <= i <= b.len(),
        valid_utf8(b),
    ensures
        i <= ceil_boundary_of(b, i) <= b.len(),
        is_char_boundary(b, ceil_boundary_of(b, i)),
    decreases b.len() - i,
{
    if i < b.len() && !is_char_boundary(b, i) {
        lemma_ceil(b, i + 1);
    }
}

/// A boundary of the whole text at or after `s` is a boundary of the text
/// that starts at boundary `s`.
proof fn lemma_boundary_of_tail(b: Seq<u8>, s: int, e: int)
    requires
        valid_utf8(b),
        0 <= s <= e <= b.len(),
        is_char_boundary(b, s),
        is_char_boundary(b, e),
    ensures
        valid_utf8(b.subrange(s, b.len() as int)),
        is_char_boundary(b.subrange(s, b.len() as int), e - s),
{
    let t = b.subrange(s, b.len() as int);
    valid_utf8_split(b, s);
    if e == b.len() {
        is_char_boundary_start_end_of_seq(t);
    } else {
        is_char_boundary_iff_not_is_continuation_byte(b, e);
        is_char_boundary_iff_not_is_continuation_byte(t, e - s);
        assert(t[e - s] == b[e]);
    }
}

/// The largest character boundary of `text` at or below `index`.
pub fn floor_boundary(text: &str, index: usize) -> (r: usize)
    ensures
        r == floor_boundary_of(text.spec_bytes(), index as int),
{
    let mut i = index;
    while i > 0 && !text.is_char_boundary(i)
        invariant
            i <= index,
            floor_boundary_of(text.spec_bytes(), i as int) == floor_boundary_of(
                text.spec_bytes(),
                index as int,
            ),
        decreases i,
    {
        i = i - 1;
    }
    i
}

/// The smallest character boundary of `text` at or above `index`; an
/// index at or past the end is returned as it is.
pub fn ceil_boundary(text: &str, index: usize) -> (r: usize)
    ensures
        r == ceil_boundary_of(text.spec_bytes(), index as int),
{
    let len = text.as_bytes().len();
    let mut i = index;
    while i < len && !text.is_char_boundary(i)
        invariant
            index <= i,
            len == text.spec_bytes().len(),
            ceil_boundary_of(text.spec_bytes(), i as int) == ceil_boundary_of(
                text.spec_bytes(),
                index as int,
            ),
        decreases text.spec_bytes().len() - i,
    {
        i = i + 1;
    }
    i
}

/// The part of `text` between byte offsets `start` and `end`, clamped to
/// the text and widened to whole characters, so that an input method that
/// reports a region splitting a character cannot make it panic.
pub fn slice_on_boundaries(text: &str, start: usize, end: usize) -> (r: &str)
    ensures
        r.spec_bytes() == region_bytes(text.spec_bytes(), start as int, end as int),
        r@ == region_chars(text@, start as int, end as int),
{
    let ghost b = text.spec_bytes();
    let len = text.as_bytes().len();
    let s = floor_boundary(text, if start < len { start } else { len });
    let e = ceil_boundary(text, if end < len { end } else { len });
    proof {
        lemma_floor(b, clamp_to(start as int, b.len() as int));
        lemma_ceil(b, clamp_to(end as int, b.len() as int));
    }
    if s >= e {
        let (empty, _) = text.split_at(0);
        proof {
            assert(empty.spec_bytes() =~= seq![]);
            assert(empty@ == decode_utf8(empty.spec_bytes()));
        }
        return empty;
    }
    let (_, tail) = text.split_at(s);
    proof {
        lemma_boundary_of_tail(b, s as int, e as int);
    }
    let (middle, _) = tail.split_at(e - s);
    proof {
        assert(middle.spec_bytes() =~= b.subrange(s as int, e as int));
        assert(middle@ == decode_utf8(middle.spec_bytes()));
    }
    middle
}

/// A snapshot of the input method's buffer: its text and, while the user
/// is composing, the byte range of the composition.
#[derive(Debug, Default, Clone, PartialEq)]
pub struct ImeState {
    pub text: String,
    pub compose: Option<(usize, usize)>,
}

/// What the app has to do after a snapshot: insert committed text, show
/// (or, when it is `Some("")`, stop showing) a composition, and empty the
/// platform buffer.
#[derive(Debug, Default, PartialEq)]
pub struct ImeUpdate {
    pub commit: Option<String>,
    pub preedit: Option<String>,
    pub reset_buffer: bool,
}

/// An update as plain values: commit, preedit, reset.
pub type UpdateView = (Option<Seq<char>>, Option<Seq<char>>, bool);

pub open spec fn opt_view(o: Option<String>) -> Option<Seq<char>> {
    match o {
        Some(s) => Some(s@),
        None => None,
    }
}

pub open spec fn update_view(u: ImeUpdate) -> UpdateView {
    (opt_view(u.commit), opt_view(u.preedit), u.reset_buffer)
}

/// The update that asks for nothing.
pub open spec fn quiet() -> UpdateView {
    (None, None, false)
}

/// One poll, as plain values: from the composition on screen, whether
/// the bridge is on and the snapshot, the new composition on screen and
/// the update.
pub open spec fn poll_step(
    shown: Seq<char>,
    enabled: bool,
    text: Seq<char>,
    compose: Option<(usize, usize)>,
) -> (Seq<char>, UpdateView) {
    if !enabled {
        (shown, quiet())
    } else {
        match compose {
            Some((start, end)) => {
                let composing = region_chars(text, start as int, end as int);
                if composing == shown {
                    (shown, quiet())
                } else {
                    (composing, (None, Some(composing), false))
                }
            },
            None => if text.len() > 0 {
                (
                    Seq::empty(),
                    (
                        Some(text),
                        if shown.len() > 0 {
                            Some(Seq::empty())
                        } else {
                            None
                        },
                        true,
                    ),
                )
            } else if shown.len() == 0 {
                (shown, quiet())
            } else {
                (Seq::empty(), (None, Some(Seq::empty()), false))
            },
        }
    }
}

/// Switching the bridge on or off, as plain values: the new composition
/// on screen and the update.
pub open spec fn enable_step(shown: Seq<char>, enabled: bool) -> (Seq<char>, UpdateView) {
    if enabled {
        (shown, quiet())
    } else {
        (
            Seq::empty(),
            (
                None,
                if shown.len() > 0 {
                    Some(Seq::empty())
                } else {
                    None
                },
                true,
            ),
        )
    }
}

/// Tracks whether a text field has the input method and which
/// composition is currently drawn.
#[derive(Default)]
pub struct ImeBridge {
    last_preedit: String,
    enabled: bool,
}

fn empty_update() -> (u: ImeUpdate)
    ensures
        update_view(u) == quiet(),
{
    ImeUpdate { commit: None, preedit: None, reset_buffer: false }
}

impl ImeBridge {
    /// The composition currently drawn.
    pub closed spec fn shown(&self) -> Seq<char> {
        self.last_preedit@
    }

    /// Whether a text field has the input method.
    pub closed spec fn on(&self) -> bool {
        self.enabled
    }

    /// A bridge with nothing focused and nothing drawn.
    pub fn new() -> (b: ImeBridge)
        ensures
            !b.on(),
            b.shown() == Seq::<char>::empty(),
    {
        ImeBridge { last_preedit: String::new(), enabled: false }
    }

    /// Focus gained or lost. Losing it abandons any composition: the
    /// drawn composition is cleared, nothing is committed, and the
    /// platform buffer is emptied.
    pub fn set_enabled(&mut self, enabled: bool) -> (u: ImeUpdate)
        ensures
            final(self).on() == enabled,
            (final(self).shown(), update_view(u)) == enable_step(old(self).shown(), enabled),
    {
        self.enabled = enabled;
        if enabled {
            return empty_update();
        }
        let had = !self.last_preedit.as_str().is_empty();
        self.last_preedit = String::new();
        ImeUpdate {
            commit: None,
            preedit: if had {
                Some(String::new())
            } else {
                None
            },
            reset_buffer: true,
        }
    }

    /// Whether a text field has the input method.
    pub fn is_enabled(&self) -> (b: bool)
        ensures
            b == self.on(),
    {
        self.enabled
    }

    /// Reads one snapshot of the platform buffer. A composition is shown
    /// as a preedit and never resets the buffer; settled text is
    /// committed, clears any drawn composition and resets the buffer.
    pub fn poll(&mut self, state: &ImeState) -> (u: ImeUpdate)
        ensures
            final(self).on() == old(self).on(),
            (final(self).shown(), update_view(u)) == poll_step(
                old(self).shown(),
                old(self).on(),
                state.text@,
                state.compose,
            ),
    {
        if !self.enabled {
            return empty_update();
        }
        match state.compose {
            Some((start, end)) => {
                let composing = slice_on_boundaries(state.text.as_str(), start, end);
                let owned = composing.to_owned();
                if owned == self.last_preedit {
                    return empty_update();
                }
                self.last_preedit = owned.clone();
                ImeUpdate { commit: None, preedit: Some(owned), reset_buffer: false }
            },
            None => {
                if !state.text.as_str().is_empty() {
                    let had_preedit = !self.last_preedit.as_str().is_empty();
                    self.last_preedit = String::new();
                    ImeUpdate {
                        commit: Some(state.text.clone()),
                        preedit: if had_preedit {
                            Some(String::new())
                        } else {
                            None
                        },
                        reset_buffer: true,
                    }
                } else {
                    if self.last_preedit.as_str().is_empty() {
                        return empty_update();
                    }
                    self.last_preedit = String::new();
                    ImeUpdate { commit: None, preedit: Some(String::new()), reset_buffer: false }
                }
            },
        }
    }
}

/// Polling the same composition, or the same empty buffer, twice in a
/// row: the second poll asks for nothing and changes nothing. (Settled
/// text would be committed again, which is why a commit asks for the
/// buffer to be reset.)
pub proof fn law_repeated_poll_is_quiet(
    shown: Seq<char>,
    enabled: bool,
    text: Seq<char>,
    compose: Option<(usize, usize)>,
)
    requires
        compose is Some || text.len() == 0,
    ensures
        ({
            let (shown1, _) = poll_step(shown, enabled, text, compose);
            poll_step(shown1, enabled, text, compose) == (shown1, quiet())
        }),
{
}

/// A poll never both shows a composition and resets the buffer, and it
/// only commits when no composition is in progress.
pub proof fn law_composition_never_resets(
    shown: Seq<char>,
    enabled: bool,
    text: Seq<char>,
    compose: Option<(usize, usize)>,
)
    ensures
        ({
            let (_, u) = poll_step(shown, enabled, text, compose);
            &&& compose is Some ==> u.0 is None && !u.2
            &&& u.0 is Some ==> u.2 && u.0 == Some(text)
        }),
{
}

/// After a commit, or after focus is lost, no composition is drawn.
pub proof fn law_commit_clears_composition(
    shown: Seq<char>,
    enabled: bool,
    text: Seq<char>,
    compose: Option<(usize, usize)>,
)
    ensures
        ({
            let (shown1, u) = poll_step(shown, enabled, text, compose);
            u.0 is Some ==> shown1.len() == 0 && (shown.len() > 0 ==> u.1 == Some(
                Seq::<char>::empty(),
            ))
        }),
        enable_step(shown, false).0.len() == 0,
        enable_step(shown, false).1.0 is None,
{
}

} // verus!
