//! What the library knows of the terminal: cursor, capabilities, input
//! modes, title, environment, clipboard targets and pending output.
use crate::text::decode_utf8_lossy;
use crate::text::utf8_lossy;
use crate::text_buffer::{bytes_to_vec, Rgba};
use std::collections::HashMap;
use vstd::prelude::*;

verus! {

/// The cursor: position (1-based), visibility, style, blinking and color
/// (channels as `f32` bit patterns).
#[derive(Clone, Copy, Debug, Default, PartialEq, Eq, Structural)]
pub struct CursorState {
    pub x: u32,
    pub y: u32,
    pub visible: bool,
    pub style: u8,
    pub blinking: bool,
    pub r: u32,
    pub g: u32,
    pub b: u32,
    pub a: u32,
}

/// A cursor style change: `u8::MAX` leaves style or blinking as it is, and
/// no color leaves the color.
#[derive(Clone, Copy, Debug, Default)]
pub struct CursorStyleOptions {
    pub style: u8,
    pub blinking: u8,
    pub color: Option<Rgba>,
    pub cursor: u8,
}

#[derive(Debug)]
pub struct TerminalCapabilities {
    pub kitty_keyboard: bool,
    pub kitty_graphics: bool,
    pub rgb: bool,
    pub unicode: u8,
    pub sgr_pixels: bool,
    pub color_scheme_updates: bool,
    pub explicit_width: bool,
    pub scaled_text: bool,
    pub sixel: bool,
    pub focus_tracking: bool,
    pub sync: bool,
    pub bracketed_paste: bool,
    pub hyperlinks: bool,
    pub osc52: bool,
    pub explicit_cursor_positioning: bool,
    pub term_name: Vec<u8>,
    pub term_version: Vec<u8>,
    pub term_from_xtversion: bool,
}

/// The capabilities as handed out, with the lengths of the two names.
#[derive(Debug)]
pub struct TerminalCapabilitiesOut {
    pub kitty_keyboard: bool,
    pub kitty_graphics: bool,
    pub rgb: bool,
    pub unicode: u8,
    pub sgr_pixels: bool,
    pub color_scheme_updates: bool,
    pub explicit_width: bool,
    pub scaled_text: bool,
    pub sixel: bool,
    pub focus_tracking: bool,
    pub sync: bool,
    pub bracketed_paste: bool,
    pub hyperlinks: bool,
    pub osc52: bool,
    pub explicit_cursor_positioning: bool,
    pub term_name: Vec<u8>,
    pub term_name_len: usize,
    pub term_version: Vec<u8>,
    pub term_version_len: usize,
    pub term_from_xtversion: bool,
}

/// The capabilities as mathematical values.
pub struct CapsView {
    pub kitty_keyboard: bool,
    pub kitty_graphics: bool,
    pub rgb: bool,
    pub unicode: u8,
    pub sgr_pixels: bool,
    pub color_scheme_updates: bool,
    pub explicit_width: bool,
    pub scaled_text: bool,
    pub sixel: bool,
    pub focus_tracking: bool,
    pub sync: bool,
    pub bracketed_paste: bool,
    pub hyperlinks: bool,
    pub osc52: bool,
    pub explicit_cursor_positioning: bool,
    pub term_name: Seq<u8>,
    pub term_version: Seq<u8>,
    pub term_from_xtversion: bool,
}

impl TerminalCapabilities {
    pub open spec fn view(&self) -> CapsView {
        CapsView {
            kitty_keyboard: self.kitty_keyboard,
            kitty_graphics: self.kitty_graphics,
            rgb: self.rgb,
            unicode: self.unicode,
            sgr_pixels: self.sgr_pixels,
            color_scheme_updates: self.color_scheme_updates,
            explicit_width: self.explicit_width,
            scaled_text: self.scaled_text,
            sixel: self.sixel,
            focus_tracking: self.focus_tracking,
            sync: self.sync,
            bracketed_paste: self.bracketed_paste,
            hyperlinks: self.hyperlinks,
            osc52: self.osc52,
            explicit_cursor_positioning: self.explicit_cursor_positioning,
            term_name: self.term_name@,
            term_version: self.term_version@,
            term_from_xtversion: self.term_from_xtversion,
        }
    }
}

/// The capabilities of a terminal nothing is known of yet.
pub open spec fn default_caps() -> CapsView {
    CapsView {
        kitty_keyboard: false,
        kitty_graphics: false,
        rgb: true,
        unicode: 1,
        sgr_pixels: false,
        color_scheme_updates: false,
        explicit_width: false,
        scaled_text: false,
        sixel: false,
        focus_tracking: false,
        sync: false,
        bracketed_paste: false,
        hyperlinks: false,
        osc52: true,
        explicit_cursor_positioning: true,
        term_name: seq![114u8, 117, 115, 116, 45, 116, 101, 114, 109, 105, 110, 97, 108],
        term_version: seq![48u8, 46, 49],
        term_from_xtversion: false,
    }
}

impl Default for TerminalCapabilities {
    fn default() -> (c: Self)
        ensures
            c.view() == default_caps(),
    {
        let name: Vec<u8> = vec![114u8, 117, 115, 116, 45, 116, 101, 114, 109, 105, 110, 97, 108];
        let version: Vec<u8> = vec![48u8, 46, 49];
        let c = TerminalCapabilities {
            kitty_keyboard: false,
            kitty_graphics: false,
            rgb: true,
            unicode: 1,
            sgr_pixels: false,
            color_scheme_updates: false,
            explicit_width: false,
            scaled_text: false,
            sixel: false,
            focus_tracking: false,
            sync: false,
            bracketed_paste: false,
            hyperlinks: false,
            osc52: true,
            explicit_cursor_positioning: true,
            term_name: name,
            term_version: version,
            term_from_xtversion: false,
        };
        proof {
            assert(c.term_name@ =~= seq![114u8, 117, 115, 116, 45, 116, 101, 114, 109, 105, 110, 97, 108]);
            assert(c.term_version@ =~= seq![48u8, 46, 49]);
        }
        c
    }
}

/// Everything a terminal state holds, as mathematical values.
pub struct TerminalView {
    pub cursor: CursorState,
    pub kitty_keyboard_flags: u8,
    pub mouse_enabled: bool,
    pub mouse_movement: bool,
    pub title: Seq<char>,
    /// The environment entries in the order they were set; `env_map` reads
    /// them as a map.
    pub env: Seq<(Seq<u8>, Seq<u8>)>,
    pub clipboard: Map<u8, Seq<u8>>,
    pub writes: Seq<u8>,
    pub alternate_screen: bool,
    pub suspended: bool,
}

/// The environment as a map: a later entry for a key wins.
pub open spec fn env_map(env: Seq<(Seq<u8>, Seq<u8>)>) -> Map<Seq<u8>, Seq<u8>>
    decreases env.len(),
{
    if env.len() == 0 {
        Map::empty()
    } else {
        env_map(env.drop_last()).insert(env.last().0, env.last().1)
    }
}

/// Whether `needle` occurs in `hay` as a contiguous run.
pub open spec fn contains_seq(hay: Seq<char>, needle: Seq<char>) -> bool {
    exists|i: int| 0 <= i && i + needle.len() <= hay.len() && #[trigger] hay.subrange(i, i + needle.len()) == needle
}

/// A terminal state as it starts: everything off or empty, default
/// capabilities.
pub open spec fn initial_terminal() -> TerminalView {
    TerminalView {
        cursor: CursorState { x: 0, y: 0, visible: false, style: 0, blinking: false, r: 0, g: 0, b: 0, a: 0 },
        kitty_keyboard_flags: 0,
        mouse_enabled: false,
        mouse_movement: false,
        title: Seq::empty(),
        env: Seq::empty(),
        clipboard: Map::empty(),
        writes: Seq::empty(),
        alternate_screen: false,
        suspended: false,
    }
}

pub struct TerminalState {
    cursor: CursorState,
    capabilities: TerminalCapabilities,
    kitty_keyboard_flags: u8,
    mouse_enabled: bool,
    mouse_movement: bool,
    title: Vec<char>,
    env: Vec<(Vec<u8>, Vec<u8>)>,
    clipboard: HashMap<u8, Vec<u8>>,
    writes: Vec<u8>,
    alternate_screen: bool,
    suspended: bool,
}

impl TerminalState {
    pub closed spec fn model(&self) -> TerminalView {
        TerminalView {
            cursor: self.cursor,
            kitty_keyboard_flags: self.kitty_keyboard_flags,
            mouse_enabled: self.mouse_enabled,
            mouse_movement: self.mouse_movement,
            title: self.title@,
            env: self.env@.map_values(|p: (Vec<u8>, Vec<u8>)| (p.0@, p.1@)),
            clipboard: self.clipboard@.map_values(|v: Vec<u8>| v@),
            writes: self.writes@,
            alternate_screen: self.alternate_screen,
            suspended: self.suspended,
        }
    }

    /// The capabilities.
    pub closed spec fn caps_view(&self) -> CapsView {
        self.capabilities.view()
    }

    pub fn new() -> (t: Self)
        ensures
            t.model() == initial_terminal(),
            t.caps_view() == default_caps(),
    {
        let t = TerminalState {
            cursor: CursorState { x: 0, y: 0, visible: false, style: 0, blinking: false, r: 0, g: 0, b: 0, a: 0 },
            capabilities: TerminalCapabilities::default(),
            kitty_keyboard_flags: 0,
            mouse_enabled: false,
            mouse_movement: false,
            title: Vec::new(),
            env: Vec::new(),
            clipboard: HashMap::new(),
            writes: Vec::new(),
            alternate_screen: false,
            suspended: false,
        };
        proof {
            assert(t.model().env =~= Seq::<(Seq<u8>, Seq<u8>)>::empty());
            assert(t.model().clipboard =~= Map::<u8, Seq<u8>>::empty());
        }
        t
    }

    /// Moves the cursor, each coordinate at least 1.
    pub fn set_cursor_position(&mut self, x: i32, y: i32, visible: bool)
        ensures
            final(self).model() == (TerminalView {
                cursor: CursorState {
                    x: if x < 1 { 1 } else { x as u32 },
                    y: if y < 1 { 1 } else { y as u32 },
                    visible,
                    ..old(self).model().cursor
                },
                ..old(self).model()
            }),
    {
        self.cursor.x = if x < 1 { 1 } else { x as u32 };
        self.cursor.y = if y < 1 { 1 } else { y as u32 };
        self.cursor.visible = visible;
    }

    /// Sets the cursor color (channels as `f32` bit patterns).
    pub fn set_cursor_color(&mut self, color: Rgba)
        ensures
            final(self).model() == (TerminalView {
                cursor: CursorState { r: color[0], g: color[1], b: color[2], a: color[3], ..old(self).model().cursor },
                ..old(self).model()
            }),
    {
        self.cursor.r = color[0];
        self.cursor.g = color[1];
        self.cursor.b = color[2];
        self.cursor.a = color[3];
    }

    /// Applies a cursor style change.
    pub fn set_cursor_style_options(&mut self, options: CursorStyleOptions)
        ensures
            ({
                let c = old(self).model().cursor;
                let c1 = CursorState {
                    style: if options.style != u8::MAX { options.style } else { c.style },
                    blinking: if options.blinking != u8::MAX { options.blinking != 0 } else { c.blinking },
                    ..c
                };
                let c2 = match options.color {
                    Some(color) => CursorState { r: color[0], g: color[1], b: color[2], a: color[3], ..c1 },
                    None => c1,
                };
                final(self).model() == (TerminalView { cursor: c2, ..old(self).model() })
            }),
    {
        if options.style != u8::MAX {
            self.cursor.style = options.style;
        }
        if options.blinking != u8::MAX {
            self.cursor.blinking = options.blinking != 0;
        }
        match options.color {
            Some(color) => self.set_cursor_color(color),
            None => {},
        }
    }

    pub fn cursor_state(&self) -> (c: CursorState)
        ensures
            c == self.model().cursor,
    {
        self.cursor
    }

    /// Sets the kitty keyboard flags; the capability is on for non-zero flags.
    pub fn set_kitty_keyboard_flags(&mut self, flags: u8)
        ensures
            final(self).caps_view() == (CapsView { kitty_keyboard: flags != 0, ..old(self).caps_view() }),
            final(self).model() == (TerminalView {
                kitty_keyboard_flags: flags,
                ..old(self).model()
            }),
    {
        let on: bool = flags != 0;
        self.capabilities.kitty_keyboard = on;
        self.kitty_keyboard_flags = flags;
    }

    pub fn kitty_keyboard_flags(&self) -> (f: u8)
        ensures
            f == self.model().kitty_keyboard_flags,
    {
        self.kitty_keyboard_flags
    }

    pub fn enable_kitty_keyboard(&mut self, flags: u8)
        ensures
            final(self).caps_view() == (CapsView { kitty_keyboard: flags != 0, ..old(self).caps_view() }),
            final(self).model() == (TerminalView {
                kitty_keyboard_flags: flags,
                ..old(self).model()
            }),
    {
        self.set_kitty_keyboard_flags(flags);
    }

    pub fn disable_kitty_keyboard(&mut self)
        ensures
            final(self).caps_view() == (CapsView { kitty_keyboard: false, ..old(self).caps_view() }),
            final(self).model() == (TerminalView {
                kitty_keyboard_flags: 0,
                ..old(self).model()
            }),
    {
        self.set_kitty_keyboard_flags(0);
    }

    pub fn enable_mouse(&mut self, enable_movement: bool)
        ensures
            final(self).model() == (TerminalView {
                mouse_enabled: true,
                mouse_movement: enable_movement,
                ..old(self).model()
            }),
    {
        self.mouse_enabled = true;
        self.mouse_movement = enable_movement;
    }

    pub fn disable_mouse(&mut self)
        ensures
            final(self).model() == (TerminalView { mouse_enabled: false, mouse_movement: false, ..old(self).model() }),
    {
        self.mouse_enabled = false;
        self.mouse_movement = false;
    }

    /// Sets the title to the bytes decoded as UTF-8 (lossily).
    pub fn set_terminal_title(&mut self, title: &[u8])
        ensures
            final(self).model() == (TerminalView { title: utf8_lossy(title@), ..old(self).model() }),
    {
        self.title = decode_utf8_lossy(title);
    }

    /// Sets an environment variable; always succeeds.
    pub fn set_terminal_env_var(&mut self, key: &[u8], value: &[u8]) -> (ok: bool)
        ensures
            ok,
            final(self).model() == (TerminalView { env: old(self).model().env.push((key@, value@)), ..old(self).model() }),
            env_map(final(self).model().env) == env_map(old(self).model().env).insert(key@, value@),
    {
        let ghost before = self.env@.map_values(|p: (Vec<u8>, Vec<u8>)| (p.0@, p.1@));
        self.env.push((bytes_to_vec(key), bytes_to_vec(value)));
        proof {
            let after = self.env@.map_values(|p: (Vec<u8>, Vec<u8>)| (p.0@, p.1@));
            assert(after =~= before.push((key@, value@)));
            assert(after.drop_last() =~= before);
        }
        true
    }

    /// Takes the terminal into use, on the alternate screen or not.
    pub fn setup_terminal(&mut self, use_alternate_screen: bool)
        ensures
            final(self).model() == (TerminalView {
                alternate_screen: use_alternate_screen,
                suspended: false,
                ..old(self).model()
            }),
    {
        self.alternate_screen = use_alternate_screen;
        self.suspended = false;
    }

    pub fn suspend(&mut self)
        ensures
            final(self).model() == (TerminalView { suspended: true, ..old(self).model() }),
    {
        self.suspended = true;
    }

    pub fn resume(&mut self)
        ensures
            final(self).model() == (TerminalView { suspended: false, ..old(self).model() }),
    {
        self.suspended = false;
    }

    /// Leaves suspension, mouse reporting and the kitty keyboard protocol.
    pub fn restore_terminal_modes(&mut self)
        ensures
            final(self).caps_view() == (CapsView { kitty_keyboard: false, ..old(self).caps_view() }),
            final(self).model() == (TerminalView {
                suspended: false,
                mouse_enabled: false,
                mouse_movement: false,
                kitty_keyboard_flags: 0,
                ..old(self).model()
            }),
    {
        self.suspended = false;
        self.mouse_enabled = false;
        self.mouse_movement = false;
        self.kitty_keyboard_flags = 0;
        self.capabilities.kitty_keyboard = false;
    }

    /// Drops the pending output.
    pub fn clear_terminal(&mut self)
        ensures
            final(self).model() == (TerminalView { writes: Seq::empty(), ..old(self).model() }),
    {
        self.writes.clear();
    }

    /// Appends to the pending output.
    pub fn write_out(&mut self, data: &[u8])
        ensures
            final(self).model() == (TerminalView { writes: old(self).model().writes + data@, ..old(self).model() }),
    {
        let mut i: usize = 0;
        let ghost base = self.writes@;
        while i < data.len()
            invariant
                i <= data@.len(),
                self.writes@ == base + data@.take(i as int),
                self.cursor == old(self).cursor,
                self.capabilities == old(self).capabilities,
                self.kitty_keyboard_flags == old(self).kitty_keyboard_flags,
                self.mouse_enabled == old(self).mouse_enabled,
                self.mouse_movement == old(self).mouse_movement,
                self.title == old(self).title,
                self.env == old(self).env,
                self.clipboard == old(self).clipboard,
                self.alternate_screen == old(self).alternate_screen,
                self.suspended == old(self).suspended,
                base == old(self).writes@,
            decreases data@.len() - i,
        {
            self.writes.push(data[i]);
            proof {
                assert(base + data@.take(i + 1) =~= (base + data@.take(i as int)).push(data@[i as int]));
            }
            i = i + 1;
        }
        proof {
            assert(data@.take(data@.len() as int) =~= data@);
        }
    }

    /// The pending output.
    pub fn pending_output(&self) -> (w: &[u8])
        ensures
            w@ == self.model().writes,
    {
        self.writes.as_slice()
    }

    /// Records a clipboard payload for a target; always succeeds.
    pub fn copy_to_clipboard_osc52(&mut self, target: u8, payload: &[u8]) -> (ok: bool)
        ensures
            ok,
            final(self).model() == (TerminalView {
                clipboard: old(self).model().clipboard.insert(target, payload@),
                ..old(self).model()
            }),
    {
        broadcast use vstd::std_specs::hash::group_hash_axioms;

        let v = bytes_to_vec(payload);
        self.clipboard.insert(target, v);
        proof {
            assert(self.model().clipboard =~= old(self).model().clipboard.insert(target, payload@));
        }
        true
    }

    /// Forgets a target's clipboard payload; always succeeds.
    pub fn clear_clipboard_osc52(&mut self, target: u8) -> (ok: bool)
        ensures
            ok,
            final(self).model() == (TerminalView {
                clipboard: old(self).model().clipboard.remove(target),
                ..old(self).model()
            }),
    {
        broadcast use vstd::std_specs::hash::group_hash_axioms;

        self.clipboard.remove(&target);
        proof {
            assert(self.model().clipboard =~= old(self).model().clipboard.remove(target));
        }
        true
    }

    /// Reads a capability reply: "kitty" turns on the kitty keyboard and
    /// graphics and names the terminal "kitty", "sixel" and "sync" turn on
    /// those capabilities.
    #[verifier::rlimit(60)]
    pub fn process_capability_response(&mut self, response: &[u8])
        ensures
            ({
                let text = utf8_lossy(response@);
                let c = old(self).caps_view();
                let kitty = contains_seq(text, seq!['k', 'i', 't', 't', 'y']);
                let c1 = if kitty {
                    CapsView { kitty_keyboard: true, kitty_graphics: true, term_name: seq![107u8, 105, 116, 116, 121], ..c }
                } else {
                    c
                };
                let c2 = if contains_seq(text, seq!['s', 'i', 'x', 'e', 'l']) { CapsView { sixel: true, ..c1 } } else { c1 };
                let c3 = if contains_seq(text, seq!['s', 'y', 'n', 'c']) { CapsView { sync: true, ..c2 } } else { c2 };
                &&& final(self).caps_view() == c3
                &&& final(self).model() == old(self).model()
            }),
    {
        let text = decode_utf8_lossy(response);
        let kitty: [char; 5] = ['k', 'i', 't', 't', 'y'];
        let sixel: [char; 5] = ['s', 'i', 'x', 'e', 'l'];
        let sync: [char; 4] = ['s', 'y', 'n', 'c'];
        proof {
            assert(kitty@ =~= seq!['k', 'i', 't', 't', 'y']);
            assert(sixel@ =~= seq!['s', 'i', 'x', 'e', 'l']);
            assert(sync@ =~= seq!['s', 'y', 'n', 'c']);
        }
        if contains_chars(text.as_slice(), &kitty) {
            self.capabilities.kitty_keyboard = true;
            self.capabilities.kitty_graphics = true;
            let name: Vec<u8> = vec![107u8, 105, 116, 116, 121];
            self.capabilities.term_name = name;
            proof {
                assert(self.capabilities.term_name@ =~= seq![107u8, 105, 116, 116, 121]);
            }
        }
        if contains_chars(text.as_slice(), &sixel) {
            self.capabilities.sixel = true;
        }
        if contains_chars(text.as_slice(), &sync) {
            self.capabilities.sync = true;
        }
    }

    pub fn query_pixel_resolution(&mut self)
        ensures
            final(self).caps_view() == (CapsView { sgr_pixels: true, ..old(self).caps_view() }),
            final(self).model() == old(self).model(),
    {
        self.capabilities.sgr_pixels = true;
    }

    pub fn set_hyperlinks_capability(&mut self, enabled: bool)
        ensures
            final(self).caps_view() == (CapsView { hyperlinks: enabled, ..old(self).caps_view() }),
            final(self).model() == old(self).model(),
    {
        self.capabilities.hyperlinks = enabled;
    }

    /// The capabilities, with the names copied out.
    pub fn capabilities_out(&self) -> (c: TerminalCapabilitiesOut)
        ensures
            c.kitty_keyboard == self.caps_view().kitty_keyboard,
            c.kitty_graphics == self.caps_view().kitty_graphics,
            c.rgb == self.caps_view().rgb,
            c.unicode == self.caps_view().unicode,
            c.sgr_pixels == self.caps_view().sgr_pixels,
            c.color_scheme_updates == self.caps_view().color_scheme_updates,
            c.explicit_width == self.caps_view().explicit_width,
            c.scaled_text == self.caps_view().scaled_text,
            c.sixel == self.caps_view().sixel,
            c.focus_tracking == self.caps_view().focus_tracking,
            c.sync == self.caps_view().sync,
            c.bracketed_paste == self.caps_view().bracketed_paste,
            c.hyperlinks == self.caps_view().hyperlinks,
            c.osc52 == self.caps_view().osc52,
            c.explicit_cursor_positioning == self.caps_view().explicit_cursor_positioning,
            c.term_name@ == self.caps_view().term_name,
            c.term_name_len == self.caps_view().term_name.len(),
            c.term_version@ == self.caps_view().term_version,
            c.term_version_len == self.caps_view().term_version.len(),
            c.term_from_xtversion == self.caps_view().term_from_xtversion,
    {
        let caps = &self.capabilities;
        TerminalCapabilitiesOut {
            kitty_keyboard: caps.kitty_keyboard,
            kitty_graphics: caps.kitty_graphics,
            rgb: caps.rgb,
            unicode: caps.unicode,
            sgr_pixels: caps.sgr_pixels,
            color_scheme_updates: caps.color_scheme_updates,
            explicit_width: caps.explicit_width,
            scaled_text: caps.scaled_text,
            sixel: caps.sixel,
            focus_tracking: caps.focus_tracking,
            sync: caps.sync,
            bracketed_paste: caps.bracketed_paste,
            hyperlinks: caps.hyperlinks,
            osc52: caps.osc52,
            explicit_cursor_positioning: caps.explicit_cursor_positioning,
            term_name: bytes_to_vec(caps.term_name.as_slice()),
            term_name_len: caps.term_name.len(),
            term_version: bytes_to_vec(caps.term_version.as_slice()),
            term_version_len: caps.term_version.len(),
            term_from_xtversion: caps.term_from_xtversion,
        }
    }
}

impl Default for TerminalState {
    fn default() -> (t: Self)
        ensures
            t.model() == initial_terminal(),
            t.caps_view() == default_caps(),
    {
        TerminalState::new()
    }
}

/// Whether `needle` occurs in `hay`.
pub fn contains_chars(hay: &[char], needle: &[char]) -> (r: bool)
    ensures
        r == contains_seq(hay@, needle@),
{
    if needle.len() > hay.len() {
        return false;
    }
    let mut i: usize = 0;
    while i <= hay.len() - needle.len()
        invariant
            needle@.len() <= hay@.len(),
            i <= hay@.len() - needle@.len() + 1,
            forall|k: int| 0 <= k < i ==> #[trigger] hay@.subrange(k, k + needle@.len()) != needle@,
        decreases hay@.len() - needle@.len() + 1 - i,
    {
        let mut j: usize = 0;
        let mut same = true;
        while j < needle.len()
            invariant
                j <= needle@.len(),
                i + needle.len() <= hay.len(),
                same == forall|m: int| 0 <= m < j ==> hay@[i + m] == needle@[m],
            decreases needle@.len() - j,
        {
            if hay[i + j] != needle[j] {
                same = false;
            }
            j = j + 1;
        }
        if same {
            proof {
                assert(hay@.subrange(i as int, i + needle@.len()) =~= needle@);
            }
            return true;
        }
        proof {
            let k = choose|m: int| 0 <= m < needle@.len() && hay@[i + m] != needle@[m];
            assert(hay@.subrange(i as int, i + needle@.len())[k] != needle@[k]);
        }
        i = i + 1;
    }
    false
}

} // verus!
