//! Terminal control sequences: the library's own (mouse reporting, the
//! window title) and those `crossterm` commands write, queued into a byte
//! buffer.
use crate::draw::decimal;
use crate::terminal_state::CursorState;
use crossterm::QueueableCommand;
use vstd::prelude::*;

verus! {

/// `ESC [` followed by `body`.
pub open spec fn csi(body: Seq<u8>) -> Seq<u8> {
    seq![27u8, 91u8] + body
}

/// The text attributes this backend sets, each with its SGR code.
#[derive(Clone, Copy, Debug, PartialEq, Eq, Structural)]
pub enum SgrAttribute {
    Reset,
    Bold,
    Dim,
    Italic,
    Underlined,
    SlowBlink,
    Reverse,
    Hidden,
    CrossedOut,
}

pub open spec fn sgr_code(a: SgrAttribute) -> u8 {
    match a {
        SgrAttribute::Reset => 0,
        SgrAttribute::Bold => 1,
        SgrAttribute::Dim => 2,
        SgrAttribute::Italic => 3,
        SgrAttribute::Underlined => 4,
        SgrAttribute::SlowBlink => 5,
        SgrAttribute::Reverse => 7,
        SgrAttribute::Hidden => 8,
        SgrAttribute::CrossedOut => 9,
    }
}

/// The cursor shapes, each blinking or steady.
#[derive(Clone, Copy, Debug, PartialEq, Eq, Structural)]
pub enum CursorShape {
    BlinkingBlock,
    SteadyBlock,
    BlinkingUnderScore,
    SteadyUnderScore,
    BlinkingBar,
    SteadyBar,
}

pub open spec fn shape_code(s: CursorShape) -> u8 {
    match s {
        CursorShape::BlinkingBlock => 1,
        CursorShape::SteadyBlock => 2,
        CursorShape::BlinkingUnderScore => 3,
        CursorShape::SteadyUnderScore => 4,
        CursorShape::BlinkingBar => 5,
        CursorShape::SteadyBar => 6,
    }
}

pub open spec fn sgr_seq(a: SgrAttribute) -> Seq<u8> {
    csi(seq![(48 + sgr_code(a)) as u8, 109u8])
}

/// A 24-bit color selection: `38;2;r;g;b` (or `48;...` for the
/// background) when colors are on, nothing between `ESC [` and `m` when
/// they are off.
pub open spec fn rgb_seq(lead: u8, rgb: [u8; 3], enabled: bool) -> Seq<u8> {
    if enabled {
        csi(seq![lead, 56u8, 59u8, 50u8, 59u8] + decimal(rgb[0] as nat) + seq![59u8] + decimal(rgb[1] as nat) + seq![59u8]
            + decimal(rgb[2] as nat) + seq![109u8])
    } else {
        csi(seq![109u8])
    }
}

pub open spec fn move_to_seq(col: u16, row: u16) -> Seq<u8> {
    csi(decimal((row + 1) as nat) + seq![59u8] + decimal((col + 1) as nat) + seq![72u8])
}

pub open spec fn enter_alternate_seq() -> Seq<u8> {
    csi(seq![63u8, 49, 48, 52, 57, 104])
}

pub open spec fn leave_alternate_seq() -> Seq<u8> {
    csi(seq![63u8, 49, 48, 52, 57, 108])
}

pub open spec fn focus_seq(enable: bool) -> Seq<u8> {
    csi(seq![63u8, 49, 48, 48, 52, if enable { 104u8 } else { 108u8 }])
}

pub open spec fn paste_seq(enable: bool) -> Seq<u8> {
    csi(seq![63u8, 50, 48, 48, 52, if enable { 104u8 } else { 108u8 }])
}

pub open spec fn clear_all_seq() -> Seq<u8> {
    csi(seq![50u8, 74])
}

pub open spec fn show_seq(show: bool) -> Seq<u8> {
    csi(seq![63u8, 50, 53, if show { 104u8 } else { 108u8 }])
}

pub open spec fn reset_color_seq() -> Seq<u8> {
    csi(seq![48u8, 109])
}

pub open spec fn push_flags_seq(bits: u8) -> Seq<u8> {
    csi(seq![62u8] + decimal(bits as nat) + seq![117u8])
}

pub open spec fn pop_flags_seq() -> Seq<u8> {
    csi(seq![60u8, 49, 117])
}

pub open spec fn cursor_shape_seq(s: CursorShape) -> Seq<u8> {
    csi(seq![(48 + shape_code(s)) as u8, 32u8, 113u8])
}

/// Queues `EnterAlternateScreen`, which writes `ESC [?1049h`.
#[verifier::external_body]
fn queue_enter_alternate_screen(out: &mut Vec<u8>)
    ensures
        final(out)@ == old(out)@ + enter_alternate_seq(),
{
    let _ = out.queue(crossterm::terminal::EnterAlternateScreen);
}

/// Queues `LeaveAlternateScreen`, which writes `ESC [?1049l`.
#[verifier::external_body]
fn queue_leave_alternate_screen(out: &mut Vec<u8>)
    ensures
        final(out)@ == old(out)@ + leave_alternate_seq(),
{
    let _ = out.queue(crossterm::terminal::LeaveAlternateScreen);
}

/// Queues `EnableFocusChange`, which writes `ESC [?1004h`.
#[verifier::external_body]
fn queue_enable_focus_change(out: &mut Vec<u8>)
    ensures
        final(out)@ == old(out)@ + focus_seq(true),
{
    let _ = out.queue(crossterm::event::EnableFocusChange);
}

/// Queues `DisableFocusChange`, which writes `ESC [?1004l`.
#[verifier::external_body]
fn queue_disable_focus_change(out: &mut Vec<u8>)
    ensures
        final(out)@ == old(out)@ + focus_seq(false),
{
    let _ = out.queue(crossterm::event::DisableFocusChange);
}

/// Queues `EnableBracketedPaste`, which writes `ESC [?2004h`.
#[verifier::external_body]
fn queue_enable_bracketed_paste(out: &mut Vec<u8>)
    ensures
        final(out)@ == old(out)@ + paste_seq(true),
{
    let _ = out.queue(crossterm::event::EnableBracketedPaste);
}

/// Queues `DisableBracketedPaste`, which writes `ESC [?2004l`.
#[verifier::external_body]
fn queue_disable_bracketed_paste(out: &mut Vec<u8>)
    ensures
        final(out)@ == old(out)@ + paste_seq(false),
{
    let _ = out.queue(crossterm::event::DisableBracketedPaste);
}

/// Queues `Clear(ClearType::All)`, which writes `ESC [2J`.
#[verifier::external_body]
fn queue_clear_all(out: &mut Vec<u8>)
    ensures
        final(out)@ == old(out)@ + clear_all_seq(),
{
    let _ = out.queue(crossterm::terminal::Clear(crossterm::terminal::ClearType::All));
}

/// Queues `MoveTo(col, row)`, which writes `ESC [row+1;col+1H`; crossterm
/// adds the 1 in `u16`, so neither may be `u16::MAX`.
#[verifier::external_body]
fn queue_move_to(out: &mut Vec<u8>, col: u16, row: u16)
    requires
        col < u16::MAX,
        row < u16::MAX,
    ensures
        final(out)@ == old(out)@ + move_to_seq(col, row),
{
    let _ = out.queue(crossterm::cursor::MoveTo(col, row));
}

/// Queues `Show`, which writes `ESC [?25h`.
#[verifier::external_body]
fn queue_show_cursor(out: &mut Vec<u8>)
    ensures
        final(out)@ == old(out)@ + show_seq(true),
{
    let _ = out.queue(crossterm::cursor::Show);
}

/// Queues `Hide`, which writes `ESC [?25l`.
#[verifier::external_body]
fn queue_hide_cursor(out: &mut Vec<u8>)
    ensures
        final(out)@ == old(out)@ + show_seq(false),
{
    let _ = out.queue(crossterm::cursor::Hide);
}

/// Queues `Print(text)`, which writes the text's UTF-8 bytes.
#[verifier::external_body]
fn queue_print(out: &mut Vec<u8>, text: &str)
    ensures
        final(out)@ == old(out)@ + vstd::utf8::encode_utf8(text@),
{
    let _ = out.queue(crossterm::style::Print(text));
}

/// Queues `SetAttribute`, which writes `ESC [` then the attribute's SGR
/// code then `m`.
#[verifier::external_body]
fn queue_set_attribute(out: &mut Vec<u8>, attribute: SgrAttribute)
    ensures
        final(out)@ == old(out)@ + sgr_seq(attribute),
{
    let a = match attribute {
        SgrAttribute::Reset => crossterm::style::Attribute::Reset,
        SgrAttribute::Bold => crossterm::style::Attribute::Bold,
        SgrAttribute::Dim => crossterm::style::Attribute::Dim,
        SgrAttribute::Italic => crossterm::style::Attribute::Italic,
        SgrAttribute::Underlined => crossterm::style::Attribute::Underlined,
        SgrAttribute::SlowBlink => crossterm::style::Attribute::SlowBlink,
        SgrAttribute::Reverse => crossterm::style::Attribute::Reverse,
        SgrAttribute::Hidden => crossterm::style::Attribute::Hidden,
        SgrAttribute::CrossedOut => crossterm::style::Attribute::CrossedOut,
    };
    let _ = out.queue(crossterm::style::SetAttribute(a));
}

/// Queues `SetForegroundColor(Color::Rgb)`. Crossterm leaves the color out
/// when the `NO_COLOR` environment variable is set (read once per
/// process); which of the two it writes is not stated.
#[verifier::external_body]
fn queue_foreground_rgb(out: &mut Vec<u8>, rgb: [u8; 3])
    ensures
        final(out)@ == old(out)@ + rgb_seq(51, rgb, true) || final(out)@ == old(out)@ + rgb_seq(51, rgb, false),
{
    let _ = out.queue(crossterm::style::SetForegroundColor(crossterm::style::Color::Rgb { r: rgb[0], g: rgb[1], b: rgb[2] }));
}

/// Queues `SetBackgroundColor(Color::Rgb)`, with or without the color as
/// for the foreground.
#[verifier::external_body]
fn queue_background_rgb(out: &mut Vec<u8>, rgb: [u8; 3])
    ensures
        final(out)@ == old(out)@ + rgb_seq(52, rgb, true) || final(out)@ == old(out)@ + rgb_seq(52, rgb, false),
{
    let _ = out.queue(crossterm::style::SetBackgroundColor(crossterm::style::Color::Rgb { r: rgb[0], g: rgb[1], b: rgb[2] }));
}

/// Queues `ResetColor`, which writes `ESC [0m`.
#[verifier::external_body]
fn queue_reset_color(out: &mut Vec<u8>)
    ensures
        final(out)@ == old(out)@ + reset_color_seq(),
{
    let _ = out.queue(crossterm::style::ResetColor);
}

/// Queues `PushKeyboardEnhancementFlags` with flags of these bits (all
/// four defined low bits), which writes `ESC [>` the bits `u`.
#[verifier::external_body]
fn queue_push_keyboard_flags(out: &mut Vec<u8>, bits: u8)
    requires
        bits < 16,
    ensures
        final(out)@ == old(out)@ + push_flags_seq(bits),
{
    let flags = crossterm::event::KeyboardEnhancementFlags::from_bits_truncate(bits);
    let _ = out.queue(crossterm::event::PushKeyboardEnhancementFlags(flags));
}

/// Queues `PopKeyboardEnhancementFlags`, which writes `ESC [<1u`.
#[verifier::external_body]
fn queue_pop_keyboard_flags(out: &mut Vec<u8>)
    ensures
        final(out)@ == old(out)@ + pop_flags_seq(),
{
    let _ = out.queue(crossterm::event::PopKeyboardEnhancementFlags);
}

/// Queues `SetCursorStyle`, which writes `ESC [` the shape's code ` q`.
#[verifier::external_body]
fn queue_cursor_shape(out: &mut Vec<u8>, shape: CursorShape)
    ensures
        final(out)@ == old(out)@ + cursor_shape_seq(shape),
{
    let s = match shape {
        CursorShape::BlinkingBlock => crossterm::cursor::SetCursorStyle::BlinkingBlock,
        CursorShape::SteadyBlock => crossterm::cursor::SetCursorStyle::SteadyBlock,
        CursorShape::BlinkingUnderScore => crossterm::cursor::SetCursorStyle::BlinkingUnderScore,
        CursorShape::SteadyUnderScore => crossterm::cursor::SetCursorStyle::SteadyUnderScore,
        CursorShape::BlinkingBar => crossterm::cursor::SetCursorStyle::BlinkingBar,
        CursorShape::SteadyBar => crossterm::cursor::SetCursorStyle::SteadyBar,
    };
    let _ = out.queue(s);
}

pub(crate) fn push_bytes(out: &mut Vec<u8>, bytes: &[u8])
    ensures
        final(out)@ == old(out)@ + bytes@,
{
    let mut i: usize = 0;
    while i < bytes.len()
        invariant
            i <= bytes@.len(),
            out@ == old(out)@ + bytes@.take(i as int),
        decreases bytes@.len() - i,
    {
        out.push(bytes[i]);
        proof {
            assert(old(out)@ + bytes@.take(i + 1) =~= (old(out)@ + bytes@.take(i as int)).push(bytes@[i as int]));
        }
        i = i + 1;
    }
    proof {
        assert(bytes@.take(bytes@.len() as int) =~= bytes@);
    }
}

/// Mouse reporting on: button-event tracking (or any-event tracking with
/// movement) with SGR coordinates.
pub open spec fn mouse_enable_seq(enable_movement: bool) -> Seq<u8> {
    csi(seq![63u8, 49, 48, 48, if enable_movement { 51u8 } else { 50u8 }, 104]) + csi(seq![63u8, 49, 48, 48, 54, 104])
}

/// Mouse reporting off, every mode.
pub open spec fn mouse_disable_seq() -> Seq<u8> {
    csi(seq![63u8, 49, 48, 48, 48, 108]) + csi(seq![63u8, 49, 48, 48, 50, 108]) + csi(seq![63u8, 49, 48, 48, 51, 108])
        + csi(seq![63u8, 49, 48, 48, 54, 108]) + csi(seq![63u8, 49, 48, 49, 53, 108]) + csi(seq![63u8, 49, 48, 49, 54, 108])
}

pub fn mouse_enable_sequence(enable_movement: bool) -> (r: Vec<u8>)
    ensures
        r@ == mouse_enable_seq(enable_movement),
{
    let mode: u8 = if enable_movement { 51 } else { 50 };
    let r: Vec<u8> = vec![27u8, 91, 63, 49, 48, 48, mode, 104, 27, 91, 63, 49, 48, 48, 54, 104];
    proof {
        assert(r@ =~= mouse_enable_seq(enable_movement));
    }
    r
}

pub fn mouse_disable_sequence() -> (r: Vec<u8>)
    ensures
        r@ == mouse_disable_seq(),
{
    let r: Vec<u8> = vec![
        27u8, 91, 63, 49, 48, 48, 48, 108, 27, 91, 63, 49, 48, 48, 50, 108, 27, 91, 63, 49, 48, 48, 51, 108, 27, 91, 63, 49,
        48, 48, 54, 108, 27, 91, 63, 49, 48, 49, 53, 108, 27, 91, 63, 49, 48, 49, 54, 108,
    ];
    proof {
        assert(r@ =~= mouse_disable_seq());
    }
    r
}

/// `ESC ]2;` the title `ESC \\`: the window title.
pub open spec fn title_seq(title: Seq<char>) -> Seq<u8> {
    seq![27u8, 93, 50, 59] + vstd::utf8::encode_utf8(title) + seq![27u8, 92]
}

/// The cursor shape for a style code (block, bar, underscore) and
/// blinking; other codes set no shape.
pub open spec fn cursor_style_seq(style: u8, blinking: bool) -> Seq<u8> {
    if style == 0 {
        cursor_shape_seq(if blinking { CursorShape::BlinkingBlock } else { CursorShape::SteadyBlock })
    } else if style == 1 {
        cursor_shape_seq(if blinking { CursorShape::BlinkingBar } else { CursorShape::SteadyBar })
    } else if style == 2 {
        cursor_shape_seq(if blinking { CursorShape::BlinkingUnderScore } else { CursorShape::SteadyUnderScore })
    } else {
        Seq::empty()
    }
}

/// The 0-based row the terminal cursor goes to: the cursor's 1-based row
/// below the render offset, saturating at both ends of `u32`, then cut to
/// 16 bits.
pub open spec fn cursor_row(cursor: CursorState, render_offset: u32) -> u16 {
    let sum: int = if render_offset + cursor.y > u32::MAX { u32::MAX as int } else { render_offset + cursor.y };
    let row: int = if sum == 0 { 0 } else { sum - 1 };
    (row % 65536) as u16
}

/// The 0-based column the terminal cursor goes to.
pub open spec fn cursor_col(cursor: CursorState) -> u16 {
    let col: int = if cursor.x == 0 { 0 } else { cursor.x - 1 };
    (col % 65536) as u16
}

/// A visible cursor can be moved: its 16-bit position plus one fits.
pub open spec fn cursor_placeable(cursor: CursorState, render_offset: u32) -> bool {
    cursor.visible ==> cursor_row(cursor, render_offset) < u16::MAX && cursor_col(cursor) < u16::MAX
}

/// Shape, then either a move and `Show`, or `Hide`.
pub open spec fn cursor_seq(cursor: CursorState, render_offset: u32) -> Seq<u8> {
    cursor_style_seq(cursor.style, cursor.blinking) + if cursor.visible {
        move_to_seq(cursor_col(cursor), cursor_row(cursor, render_offset)) + show_seq(true)
    } else {
        show_seq(false)
    }
}

/// The keyboard enhancement flags pushed for the low four bits of `flags`.
pub open spec fn keyboard_flags_seq(flags: u8) -> Seq<u8> {
    push_flags_seq(flags & 15u8)
}

pub open spec fn opt_seq(on: bool, s: Seq<u8>) -> Seq<u8> {
    if on { s } else { Seq::empty() }
}

/// The text attributes of the eight low bits, in bit order.
pub open spec fn attributes_seq(attributes: u32) -> Seq<u8> {
    opt_seq(attributes & 1 != 0, sgr_seq(SgrAttribute::Bold)) + opt_seq(attributes & 2 != 0, sgr_seq(SgrAttribute::Dim))
        + opt_seq(attributes & 4 != 0, sgr_seq(SgrAttribute::Italic)) + opt_seq(
        attributes & 8 != 0,
        sgr_seq(SgrAttribute::Underlined),
    ) + opt_seq(attributes & 16 != 0, sgr_seq(SgrAttribute::SlowBlink)) + opt_seq(
        attributes & 32 != 0,
        sgr_seq(SgrAttribute::Reverse),
    ) + opt_seq(attributes & 64 != 0, sgr_seq(SgrAttribute::Hidden)) + opt_seq(
        attributes & 128 != 0,
        sgr_seq(SgrAttribute::CrossedOut),
    )
}

/// Reset, the two colors (each with or without its color, as the terminal
/// library decides), then the attributes.
pub open spec fn colors_seq(fg: [u8; 3], bg: [u8; 3], attributes: u32, fg_on: bool, bg_on: bool) -> Seq<u8> {
    sgr_seq(SgrAttribute::Reset) + rgb_seq(51, fg, fg_on) + rgb_seq(52, bg, bg_on) + attributes_seq(attributes)
}

pub open spec fn title_part(title: Option<&str>) -> Seq<u8> {
    match title {
        Some(t) => opt_seq(t@.len() > 0, title_seq(t@)),
        None => Seq::empty(),
    }
}

/// What turning the terminal's modes on writes.
pub open spec fn active_modes_seq(
    mouse_enabled: bool,
    mouse_movement: bool,
    kitty_keyboard_flags: u8,
    title: Option<&str>,
    clear_screen: bool,
    cursor: CursorState,
) -> Seq<u8> {
    focus_seq(true) + paste_seq(true) + opt_seq(mouse_enabled, mouse_enable_seq(mouse_movement)) + opt_seq(
        kitty_keyboard_flags != 0,
        keyboard_flags_seq(kitty_keyboard_flags),
    ) + title_part(title) + opt_seq(clear_screen, clear_all_seq() + move_to_seq(0, 0)) + cursor_seq(cursor, 0)
}

/// What turning the terminal's modes off writes.
pub open spec fn teardown_seq(leave_alternate_screen: bool, alternate_screen_enabled: bool, kitty_keyboard_flags: u8) -> Seq<u8> {
    mouse_disable_seq() + opt_seq(kitty_keyboard_flags != 0, pop_flags_seq()) + focus_seq(false) + paste_seq(false)
        + show_seq(true) + opt_seq(leave_alternate_screen && alternate_screen_enabled, leave_alternate_seq())
}

pub(crate) proof fn lemma_append_assoc(a: Seq<u8>, b: Seq<u8>, c: Seq<u8>)
    ensures
        a + (b + c) == a + b + c,
{
    assert(a + (b + c) =~= a + b + c);
}

/// Appending seven pieces one after another appends their concatenation.
proof fn lemma_append7(s: Seq<u8>, a: Seq<u8>, b: Seq<u8>, c: Seq<u8>, d: Seq<u8>, e: Seq<u8>, f: Seq<u8>, g: Seq<u8>)
    ensures
        s + (a + b + c + d + e + f + g) == s + a + b + c + d + e + f + g,
{
    assert(s + (a + b + c + d + e + f + g) =~= s + a + b + c + d + e + f + g);
}

/// The same for eight pieces.
pub(crate) proof fn lemma_append8(
    s: Seq<u8>,
    a: Seq<u8>,
    b: Seq<u8>,
    c: Seq<u8>,
    d: Seq<u8>,
    e: Seq<u8>,
    f: Seq<u8>,
    g: Seq<u8>,
    h: Seq<u8>,
)
    ensures
        s + (a + b + c + d + e + f + g + h) == s + a + b + c + d + e + f + g + h,
{
    assert(s + (a + b + c + d + e + f + g + h) =~= s + a + b + c + d + e + f + g + h);
}

/// Writes terminal control sequences into a byte buffer.
#[derive(Debug)]
pub struct CrosstermBackend;

impl Default for CrosstermBackend {
    fn default() -> (r: Self)
        ensures
            r == CrosstermBackend,
    {
        CrosstermBackend
    }
}

impl CrosstermBackend {
    pub fn append_setup(
        &self,
        out: &mut Vec<u8>,
        use_alternate_screen: bool,
        mouse_enabled: bool,
        mouse_movement: bool,
        kitty_keyboard_flags: u8,
        title: Option<&str>,
        clear_screen: bool,
        cursor: CursorState,
    )
        requires
            cursor_placeable(cursor, 0),
        ensures
            final(out)@ == old(out)@ + opt_seq(use_alternate_screen, enter_alternate_seq()) + active_modes_seq(
                mouse_enabled,
                mouse_movement,
                kitty_keyboard_flags,
                title,
                clear_screen,
                cursor,
            ),
    {
        if use_alternate_screen {
            queue_enter_alternate_screen(out);
        }
        let ghost mid = out@;
        self.append_active_modes(out, mouse_enabled, mouse_movement, kitty_keyboard_flags, title, clear_screen, cursor);
        proof {
            assert(mid == old(out)@ + opt_seq(use_alternate_screen, enter_alternate_seq()));
        }
    }

    pub fn append_active_modes(
        &self,
        out: &mut Vec<u8>,
        mouse_enabled: bool,
        mouse_movement: bool,
        kitty_keyboard_flags: u8,
        title: Option<&str>,
        clear_screen: bool,
        cursor: CursorState,
    )
        requires
            cursor_placeable(cursor, 0),
        ensures
            final(out)@ == old(out)@ + active_modes_seq(
                mouse_enabled,
                mouse_movement,
                kitty_keyboard_flags,
                title,
                clear_screen,
                cursor,
            ),
    {
        queue_enable_focus_change(out);
        queue_enable_bracketed_paste(out);
        let ghost s1 = out@;
        if mouse_enabled {
            let seq = mouse_enable_sequence(mouse_movement);
            push_bytes(out, seq.as_slice());
        }
        assert(out@ =~= s1 + opt_seq(mouse_enabled, mouse_enable_seq(mouse_movement)));
        let ghost s2 = out@;
        if kitty_keyboard_flags != 0 {
            self.append_keyboard_flags(out, kitty_keyboard_flags);
        }
        assert(out@ =~= s2 + opt_seq(kitty_keyboard_flags != 0, keyboard_flags_seq(kitty_keyboard_flags)));
        let ghost s3 = out@;
        if let Some(t) = title {
            if !t.is_empty() {
                self.append_title(out, t);
            }
        }
        assert(out@ =~= s3 + title_part(title));
        let ghost s4 = out@;
        if clear_screen {
            queue_clear_all(out);
            queue_move_to(out, 0, 0);
        }
        assert(out@ =~= s4 + opt_seq(clear_screen, clear_all_seq() + move_to_seq(0, 0)));
        let ghost s5 = out@;
        self.append_cursor(out, cursor, 0);
        proof {
            lemma_append7(
                old(out)@,
                focus_seq(true),
                paste_seq(true),
                opt_seq(mouse_enabled, mouse_enable_seq(mouse_movement)),
                opt_seq(kitty_keyboard_flags != 0, keyboard_flags_seq(kitty_keyboard_flags)),
                title_part(title),
                opt_seq(clear_screen, clear_all_seq() + move_to_seq(0, 0)),
                cursor_seq(cursor, 0),
            );
        }
    }

    pub fn append_teardown(
        &self,
        out: &mut Vec<u8>,
        leave_alternate_screen: bool,
        alternate_screen_enabled: bool,
        kitty_keyboard_flags: u8,
    )
        ensures
            final(out)@ == old(out)@ + teardown_seq(leave_alternate_screen, alternate_screen_enabled, kitty_keyboard_flags),
    {
        let seq = mouse_disable_sequence();
        push_bytes(out, seq.as_slice());
        let ghost s1 = out@;
        if kitty_keyboard_flags != 0 {
            queue_pop_keyboard_flags(out);
        }
        let ghost s2 = out@;
        queue_disable_focus_change(out);
        queue_disable_bracketed_paste(out);
        queue_show_cursor(out);
        let ghost s3 = out@;
        if leave_alternate_screen && alternate_screen_enabled {
            queue_leave_alternate_screen(out);
        }
        proof {
            assert(s2 == s1 + opt_seq(kitty_keyboard_flags != 0, pop_flags_seq()));
            assert(s3 == s2 + focus_seq(false) + paste_seq(false) + show_seq(true));
            assert(out@ =~= old(out)@ + teardown_seq(leave_alternate_screen, alternate_screen_enabled, kitty_keyboard_flags));
        }
    }

    pub fn append_clear(&self, out: &mut Vec<u8>)
        ensures
            final(out)@ == old(out)@ + clear_all_seq() + move_to_seq(0, 0),
    {
        queue_clear_all(out);
        queue_move_to(out, 0, 0);
    }

    pub fn append_title(&self, out: &mut Vec<u8>, title: &str)
        ensures
            final(out)@ == old(out)@ + title_seq(title@),
    {
        let lead: Vec<u8> = vec![27u8, 93, 50, 59];
        push_bytes(out, lead.as_slice());
        queue_print(out, title);
        let tail: Vec<u8> = vec![27u8, 92];
        push_bytes(out, tail.as_slice());
        proof {
            assert(out@ =~= old(out)@ + title_seq(title@));
        }
    }

    pub fn append_cursor(&self, out: &mut Vec<u8>, cursor: CursorState, render_offset: u32)
        requires
            cursor_placeable(cursor, render_offset),
        ensures
            final(out)@ == old(out)@ + cursor_seq(cursor, render_offset),
    {
        self.append_cursor_style(out, cursor.style, cursor.blinking);
        let ghost mid = out@;
        if cursor.visible {
            let row32: u32 = render_offset.saturating_add(cursor.y).saturating_sub(1);
            let col32: u32 = cursor.x.saturating_sub(1);
            let row: u16 = (row32 % 65536) as u16;
            let col: u16 = (col32 % 65536) as u16;
            queue_move_to(out, col, row);
            queue_show_cursor(out);
        } else {
            queue_hide_cursor(out);
        }
        proof {
            assert(out@ =~= old(out)@ + cursor_seq(cursor, render_offset));
        }
    }

    pub fn append_frame_prefix(&self, out: &mut Vec<u8>)
        ensures
            final(out)@ == old(out)@ + show_seq(false),
    {
        queue_hide_cursor(out);
    }

    pub fn append_colors(&self, out: &mut Vec<u8>, fg: [u8; 3], bg: [u8; 3], attributes: u32)
        ensures
            exists|fg_on: bool, bg_on: bool| final(out)@ == old(out)@ + colors_seq(fg, bg, attributes, fg_on, bg_on),
    {
        queue_set_attribute(out, SgrAttribute::Reset);
        let ghost s0 = out@;
        queue_foreground_rgb(out, fg);
        let ghost s1 = out@;
        queue_background_rgb(out, bg);
        let ghost s2 = out@;
        let ghost fg_on: bool = s1 == s0 + rgb_seq(51, fg, true);
        let ghost bg_on: bool = s2 == s1 + rgb_seq(52, bg, true);
        push_attribute_if(out, attributes & 1 != 0, SgrAttribute::Bold);
        push_attribute_if(out, attributes & 2 != 0, SgrAttribute::Dim);
        push_attribute_if(out, attributes & 4 != 0, SgrAttribute::Italic);
        push_attribute_if(out, attributes & 8 != 0, SgrAttribute::Underlined);
        push_attribute_if(out, attributes & 16 != 0, SgrAttribute::SlowBlink);
        push_attribute_if(out, attributes & 32 != 0, SgrAttribute::Reverse);
        push_attribute_if(out, attributes & 64 != 0, SgrAttribute::Hidden);
        push_attribute_if(out, attributes & 128 != 0, SgrAttribute::CrossedOut);
        proof {
            let x = sgr_seq(SgrAttribute::Reset) + rgb_seq(51, fg, fg_on) + rgb_seq(52, bg, bg_on);
            assert(s2 =~= old(out)@ + x);
            lemma_append8(
                s2,
                opt_seq(attributes & 1 != 0, sgr_seq(SgrAttribute::Bold)),
                opt_seq(attributes & 2 != 0, sgr_seq(SgrAttribute::Dim)),
                opt_seq(attributes & 4 != 0, sgr_seq(SgrAttribute::Italic)),
                opt_seq(attributes & 8 != 0, sgr_seq(SgrAttribute::Underlined)),
                opt_seq(attributes & 16 != 0, sgr_seq(SgrAttribute::SlowBlink)),
                opt_seq(attributes & 32 != 0, sgr_seq(SgrAttribute::Reverse)),
                opt_seq(attributes & 64 != 0, sgr_seq(SgrAttribute::Hidden)),
                opt_seq(attributes & 128 != 0, sgr_seq(SgrAttribute::CrossedOut)),
            );
            lemma_append_assoc(old(out)@, x, attributes_seq(attributes));
            assert(out@ == old(out)@ + colors_seq(fg, bg, attributes, fg_on, bg_on));
        }
    }

    pub fn append_reset(&self, out: &mut Vec<u8>)
        ensures
            final(out)@ == old(out)@ + sgr_seq(SgrAttribute::Reset) + reset_color_seq(),
    {
        queue_set_attribute(out, SgrAttribute::Reset);
        queue_reset_color(out);
    }

    fn append_keyboard_flags(&self, out: &mut Vec<u8>, flags: u8)
        ensures
            final(out)@ == old(out)@ + keyboard_flags_seq(flags),
    {
        let bits: u8 = flags & 15u8;
        assert(bits < 16) by (bit_vector)
            requires
                bits == flags & 15u8,
        ;
        queue_push_keyboard_flags(out, bits);
    }

    fn append_cursor_style(&self, out: &mut Vec<u8>, style: u8, blinking: bool)
        ensures
            final(out)@ == old(out)@ + cursor_style_seq(style, blinking),
    {
        if style == 0 {
            queue_cursor_shape(out, if blinking { CursorShape::BlinkingBlock } else { CursorShape::SteadyBlock });
        } else if style == 1 {
            queue_cursor_shape(out, if blinking { CursorShape::BlinkingBar } else { CursorShape::SteadyBar });
        } else if style == 2 {
            queue_cursor_shape(
                out,
                if blinking { CursorShape::BlinkingUnderScore } else { CursorShape::SteadyUnderScore },
            );
        } else {
            assert(out@ =~= old(out)@ + cursor_style_seq(style, blinking));
        }
    }
}

fn push_attribute_if(out: &mut Vec<u8>, on: bool, attribute: SgrAttribute)
    ensures
        final(out)@ == old(out)@ + opt_seq(on, sgr_seq(attribute)),
{
    if on {
        queue_set_attribute(out, attribute);
    } else {
        assert(out@ =~= old(out)@ + opt_seq(on, sgr_seq(attribute)));
    }
}

} // verus!
