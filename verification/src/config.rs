//! Theme and monitor geometry: the quote and monitor settings of the
//! config file, the CSS custom-properties stylesheet, and per-monitor window
//! geometry.
use vstd::prelude::*;
use crate::css::{declaration_views, declarations_text, declared_names, render_declarations};
use crate::cyberhtml::default_declarations;
use crate::text::{decimal, decimal_string, trim, trim_end, trim_start, trim_string};

verus! {

// ---------------------------------------------------------------------------
// Quote and monitor settings
// ---------------------------------------------------------------------------

/// Quote-pipeline config.
#[derive(Debug, Clone)]
pub struct QuotesConfig {
    pub source: String,
    pub cycle_interval_minutes: u32,
    /// "random", "sequential", or "last" (stick to the last quote shown).
    pub picker: String,
}

impl QuotesConfig {
    /// The settings used when the file gives none.
    pub fn defaults() -> (c: Self)
        ensures
            c.source@ == "quotes.json"@,
            c.cycle_interval_minutes == 15,
            c.picker@ == "random"@,
    {
        QuotesConfig {
            source: Self::default_source(),
            cycle_interval_minutes: Self::default_cycle_interval_minutes(),
            picker: Self::default_picker(),
        }
    }

    pub fn default_source() -> (s: String)
        ensures
            s@ == "quotes.json"@,
    {
        String::from_str("quotes.json")
    }

    pub fn default_cycle_interval_minutes() -> (m: u32)
        ensures
            m == 15,
    {
        15
    }

    pub fn default_picker() -> (s: String)
        ensures
            s@ == "random"@,
    {
        String::from_str("random")
    }
}

impl Default for QuotesConfig {
    fn default() -> (c: Self)
        ensures
            c.source@ == "quotes.json"@,
            c.cycle_interval_minutes == 15,
            c.picker@ == "random"@,
    {
        Self::defaults()
    }
}

/// Monitor-policy config.
#[derive(Debug, Clone)]
pub struct MonitorsConfig {
    pub behavior: String,
    pub primary_only: bool,
}

impl MonitorsConfig {
    /// The settings used when the file gives none.
    pub fn defaults() -> (c: Self)
        ensures
            c.behavior@ == "one_per_monitor"@,
            !c.primary_only,
    {
        MonitorsConfig {
            behavior: Self::default_behavior(),
            primary_only: Self::default_primary_only(),
        }
    }

    pub fn default_behavior() -> (s: String)
        ensures
            s@ == "one_per_monitor"@,
    {
        String::from_str("one_per_monitor")
    }

    pub fn default_primary_only() -> (b: bool)
        ensures
            !b,
    {
        false
    }
}

impl Default for MonitorsConfig {
    fn default() -> (c: Self)
        ensures
            c.behavior@ == "one_per_monitor"@,
            !c.primary_only,
    {
        Self::defaults()
    }
}

// ---------------------------------------------------------------------------
// Stylesheet generation
// ---------------------------------------------------------------------------

/// What the stylesheet is built from: the theme's colors and font as the
/// config gives them, its numeric settings already written out as CSS
/// numbers (font size in px, glitch intensity in px, glitch duration in
/// seconds, scanline opacity clamped to [0, 1], scanline thickness in rem
/// clamped to [0.02, 0.5]), and its integer settings as they are.
#[derive(Debug, Clone)]
pub struct StylesheetInputs {
    pub background_color: String,
    pub foreground_color: String,
    pub accent_cyan: String,
    pub accent_magenta: String,
    pub accent_orange: String,
    pub font: String,
    pub font_size: String,
    pub glitch_intensity: String,
    pub glitch_duration: String,
    pub glitch_interval_ms: u32,
    pub scanline_opacity: String,
    pub scanline_lines: u32,
    pub scanline_size_rem: String,
    pub scanline_steps: u32,
}

/// The number of scanlines used: the configured count, within [1, 2000].
pub open spec fn scanline_lines_used(lines: u32) -> u32 {
    if lines < 1 {
        1
    } else if lines > 2000 {
        2000
    } else {
        lines
    }
}

/// The number of animation steps used: the configured count, at least 2.
pub open spec fn scanline_steps_used(steps: u32) -> u32 {
    if steps < 2 {
        2
    } else {
        steps
    }
}

/// `s` with every `from` replaced by `to`.
pub open spec fn replace_char(s: Seq<char>, from: char, to: char) -> Seq<char> {
    s.map_values(|c: char| if c == from {
        to
    } else {
        c
    })
}

/// The `font-family` value for a configured font: double-quoted, with
/// double quotes inside turned into single quotes.
pub open spec fn font_family_value(font: Seq<char>) -> Seq<char> {
    seq!['"'] + replace_char(font, '"', '\'') + seq!['"']
}

/// The gap between scanlines: a screen height divided by the line count,
/// less the line thickness.
pub open spec fn scanline_gap_value(t: StylesheetInputs) -> Seq<char> {
    "calc((100vh / "@ + decimal(scanline_lines_used(t.scanline_lines) as nat) + ") - "@
        + t.scanline_size_rem@ + "rem)"@
}

/// The custom properties of the stylesheet for `t`, as `(name, value)` pairs.
pub open spec fn stylesheet_declarations(t: StylesheetInputs) -> Seq<(Seq<char>, Seq<char>)> {
    seq![
        ("--bg"@, trim(t.background_color@)),
        ("--fg"@, trim(t.foreground_color@)),
        ("--accent-cyan"@, trim(t.accent_cyan@)),
        ("--accent-magenta"@, trim(t.accent_magenta@)),
        ("--accent-orange"@, trim(t.accent_orange@)),
        ("--glow-cyan-1"@, "0 0 6px var(--accent-cyan)"@),
        ("--glow-cyan-2"@, "0 0 18px var(--accent-cyan)"@),
        ("--glow-cyan-3"@, "0 0 40px var(--accent-cyan)"@),
        ("--glow-magenta-1"@, "0 0 6px var(--accent-magenta)"@),
        ("--glow-magenta-2"@, "0 0 18px var(--accent-magenta)"@),
        ("--glow-magenta-3"@, "0 0 40px var(--accent-magenta)"@),
        ("--font-family"@, font_family_value(t.font@)),
        ("--font-size"@, t.font_size@ + "px"@),
        ("--letter-spacing"@, "0.02em"@),
        ("--line-height"@, "1.5"@),
        ("--max-width"@, "760px"@),
        ("--typewriter-ms"@, "80"@),
        ("--typewriter-ease"@, "cubic-bezier(.22,.61,.36,1)"@),
        ("--typewriter-slide"@, "38px"@),
        ("--typewriter-opacity-start"@, "0"@),
        ("--typewriter-opacity-end"@, "1"@),
        ("--cursor-char"@, "'▍'"@),
        ("--cursor-blink"@, "0.9s"@),
        ("--cursor-color"@, "#ffffff"@),
        ("--glitch-intensity"@, t.glitch_intensity@ + "px"@),
        ("--glitch-ms"@, decimal(t.glitch_interval_ms as nat) + "ms"@),
        ("--glitch-duration"@, t.glitch_duration@ + "s"@),
        ("--glitch-color-cyan"@, "137px 0 0 var(--accent-cyan)"@),
        ("--glitch-color-magenta"@, "-137px 0 0 var(--accent-magenta)"@),
        ("--glitch-jitter"@, "1.2px"@),
        ("--scanline-opacity"@, t.scanline_opacity@),
        ("--scanline-color"@, "#000"@),
        ("--scanline-size"@, t.scanline_size_rem@ + "rem"@),
        ("--scanline-gap"@, scanline_gap_value(t)),
        ("--scanline-speed"@, "90s"@),
        ("--scanline-steps"@, decimal(scanline_steps_used(t.scanline_steps) as nat)),
        ("--crt-perspective"@, "600px"@),
        ("--crt-radius"@, "40px"@),
        ("--crt-vignette-stops"@, "transparent 0%, transparent 70%, var(--vignette-edge) 100%"@),
        ("--crt-vignette-blur"@, "12px"@),
        ("--vignette-edge"@, "#02030a"@),
        ("--center-padding"@, "36px"@),
        ("--max-quote-chars"@, "900"@),
    ]
}

/// A CSS color as configured, without surrounding whitespace.
fn css_color(raw: &str) -> (r: String)
    ensures
        r@ == trim(raw@),
{
    trim_string(raw)
}

fn replace_double_quotes(raw: &str) -> (r: String)
    ensures
        r@ == replace_char(raw@, '"', '\''),
{
    let v = crate::text::chars_of(raw);
    let n: usize = v.len();
    let mut r = String::new();
    let mut i: usize = 0;
    while i < n
        invariant
            i <= n == v@.len(),
            v@ == raw@,
            r@ == replace_char(v@.take(i as int), '"', '\''),
        decreases n - i,
    {
        let c = v[i];
        let d = if c == '"' {
            '\''
        } else {
            c
        };
        crate::text::push_char(&mut r, d);
        assert(replace_char(v@.take(i + 1), '"', '\'') == replace_char(v@.take(i as int), '"', '\'').push(d));
        i = i + 1;
    }
    assert(v@.take(n as int) == v@);
    r
}

/// The `font-family` value for a configured font.
fn css_font_family(raw: &str) -> (r: String)
    ensures
        r@ == font_family_value(raw@),
{
    let mut r = String::new();
    crate::text::push_char(&mut r, '"');
    let inner = replace_double_quotes(raw);
    r.append(inner.as_str());
    crate::text::push_char(&mut r, '"');
    r
}

fn with_suffix(number: &str, unit: &str) -> (r: String)
    ensures
        r@ == number@ + unit@,
{
    let mut r = String::from_str(number);
    r.append(unit);
    r
}

fn push_pair(ds: &mut Vec<(String, String)>, name: &str, value: String)
    ensures
        declaration_views(final(ds)@) == declaration_views(old(ds)@).push((name@, value@)),
{
    let ghost before = ds@;
    let ghost v = value@;
    ds.push((String::from_str(name), value));
    assert(declaration_views(ds@) == declaration_views(before).push((name@, v)));
}

/// Build a CSS string defining custom properties on `:root`: the
/// semicolon-terminated `--name:value;` declarations of every custom
/// property that the page template consumes, with values from `t` where
/// the config gives them and the cyberpunk defaults for the rest.
pub fn build_stylesheet(t: &StylesheetInputs) -> (r: String)
    ensures
        r@ == declarations_text(stylesheet_declarations(*t)),
{
    let lines: u32 = if t.scanline_lines < 1 {
        1
    } else if t.scanline_lines > 2000 {
        2000
    } else {
        t.scanline_lines
    };
    let mut scanline_gap = String::from_str("calc((100vh / ");
    crate::text::push_decimal(&mut scanline_gap, lines as u64);
    scanline_gap.append(") - ");
    scanline_gap.append(t.scanline_size_rem.as_str());
    scanline_gap.append("rem)");
    let mut glitch_ms = decimal_string(t.glitch_interval_ms as u64);
    glitch_ms.append("ms");
    assert(lines == scanline_lines_used(t.scanline_lines));
    assert(scanline_gap@ == scanline_gap_value(*t));
    assert(glitch_ms@ == decimal(t.glitch_interval_ms as nat) + "ms"@);
    let mut ds: Vec<(String, String)> = Vec::new();
    assert(declaration_views(ds@) == Seq::<(Seq<char>, Seq<char>)>::empty());
    push_pair(&mut ds, "--bg", css_color(t.background_color.as_str()));
    push_pair(&mut ds, "--fg", css_color(t.foreground_color.as_str()));
    push_pair(&mut ds, "--accent-cyan", css_color(t.accent_cyan.as_str()));
    push_pair(&mut ds, "--accent-magenta", css_color(t.accent_magenta.as_str()));
    push_pair(&mut ds, "--accent-orange", css_color(t.accent_orange.as_str()));
    push_pair(&mut ds, "--glow-cyan-1", String::from_str("0 0 6px var(--accent-cyan)"));
    push_pair(&mut ds, "--glow-cyan-2", String::from_str("0 0 18px var(--accent-cyan)"));
    push_pair(&mut ds, "--glow-cyan-3", String::from_str("0 0 40px var(--accent-cyan)"));
    push_pair(&mut ds, "--glow-magenta-1", String::from_str("0 0 6px var(--accent-magenta)"));
    push_pair(&mut ds, "--glow-magenta-2", String::from_str("0 0 18px var(--accent-magenta)"));
    push_pair(&mut ds, "--glow-magenta-3", String::from_str("0 0 40px var(--accent-magenta)"));
    push_pair(&mut ds, "--font-family", css_font_family(t.font.as_str()));
    push_pair(&mut ds, "--font-size", with_suffix(t.font_size.as_str(), "px"));
    push_pair(&mut ds, "--letter-spacing", String::from_str("0.02em"));
    push_pair(&mut ds, "--line-height", String::from_str("1.5"));
    push_pair(&mut ds, "--max-width", String::from_str("760px"));
    push_pair(&mut ds, "--typewriter-ms", String::from_str("80"));
    push_pair(&mut ds, "--typewriter-ease", String::from_str("cubic-bezier(.22,.61,.36,1)"));
    push_pair(&mut ds, "--typewriter-slide", String::from_str("38px"));
    push_pair(&mut ds, "--typewriter-opacity-start", String::from_str("0"));
    push_pair(&mut ds, "--typewriter-opacity-end", String::from_str("1"));
    push_pair(&mut ds, "--cursor-char", String::from_str("'▍'"));
    push_pair(&mut ds, "--cursor-blink", String::from_str("0.9s"));
    push_pair(&mut ds, "--cursor-color", String::from_str("#ffffff"));
    push_pair(&mut ds, "--glitch-intensity", with_suffix(t.glitch_intensity.as_str(), "px"));
    push_pair(&mut ds, "--glitch-ms", glitch_ms);
    push_pair(&mut ds, "--glitch-duration", with_suffix(t.glitch_duration.as_str(), "s"));
    push_pair(&mut ds, "--glitch-color-cyan", String::from_str("137px 0 0 var(--accent-cyan)"));
    push_pair(&mut ds, "--glitch-color-magenta", String::from_str("-137px 0 0 var(--accent-magenta)"));
    push_pair(&mut ds, "--glitch-jitter", String::from_str("1.2px"));
    push_pair(&mut ds, "--scanline-opacity", String::from_str(t.scanline_opacity.as_str()));
    push_pair(&mut ds, "--scanline-color", String::from_str("#000"));
    push_pair(&mut ds, "--scanline-size", with_suffix(t.scanline_size_rem.as_str(), "rem"));
    push_pair(&mut ds, "--scanline-gap", scanline_gap);
    push_pair(&mut ds, "--scanline-speed", String::from_str("90s"));
    push_pair(&mut ds, "--scanline-steps", decimal_string(clamp_scanline_steps(t.scanline_steps) as u64));
    push_pair(&mut ds, "--crt-perspective", String::from_str("600px"));
    push_pair(&mut ds, "--crt-radius", String::from_str("40px"));
    push_pair(&mut ds, "--crt-vignette-stops", String::from_str("transparent 0%, transparent 70%, var(--vignette-edge) 100%"));
    push_pair(&mut ds, "--crt-vignette-blur", String::from_str("12px"));
    push_pair(&mut ds, "--vignette-edge", String::from_str("#02030a"));
    push_pair(&mut ds, "--center-padding", String::from_str("36px"));
    push_pair(&mut ds, "--max-quote-chars", String::from_str("900"));
    assert(declaration_views(ds@) == stylesheet_declarations(*t));
    render_declarations(&ds)
}

fn clamp_scanline_steps(steps: u32) -> (r: u32)
    ensures
        r == scanline_steps_used(steps),
{
    if steps < 2 {
        2
    } else {
        steps
    }
}

/// Every custom property that the page's default theme declares is
/// declared by the stylesheet too, under the same name and in the same
/// order, whatever the config holds.
pub proof fn lemma_stylesheet_declares_theme_properties(t: StylesheetInputs)
    ensures
        declared_names(stylesheet_declarations(t)) == declared_names(default_declarations()),
{
    assert(declared_names(stylesheet_declarations(t)) =~= declared_names(default_declarations()));
}

// ---------------------------------------------------------------------------
// Monitor geometry
// ---------------------------------------------------------------------------

/// A monitor descriptor that the host fills in from the monitor's geometry
/// (and, where the platform exposes it, its rotation).
#[derive(Debug, Clone, Copy, PartialEq, Eq, Structural)]
pub struct ConfigMonitorInfo {
    /// Width in pixels (logical pixels as the display reports them).
    pub width: i32,
    /// Height in pixels.
    pub height: i32,
    /// X offset from the virtual screen origin.
    pub x: i32,
    /// Y offset from the virtual screen origin.
    pub y: i32,
    /// Rotation/orientation.  Normal when unknown.
    pub rotation: Orientation,
}

/// Monitor orientation / rotation.
#[derive(Debug, Clone, Copy, PartialEq, Eq, Structural)]
pub enum Orientation {
    Normal,
    R90,
    R180,
    R270,
}

/// Portrait orientations: a quarter turn either way.
pub open spec fn portrait(o: Orientation) -> bool {
    o == Orientation::R90 || o == Orientation::R270
}

/// The content rotation that keeps text upright on a monitor turned by `o`:
/// the opposite turn.
pub open spec fn legible_rotation(o: Orientation) -> Orientation {
    match o {
        Orientation::Normal => Orientation::Normal,
        Orientation::R90 => Orientation::R270,
        Orientation::R180 => Orientation::R180,
        Orientation::R270 => Orientation::R90,
    }
}

/// The clockwise turn of an orientation, in degrees.
pub open spec fn turn_degrees(o: Orientation) -> int {
    match o {
        Orientation::Normal => 0,
        Orientation::R90 => 90,
        Orientation::R180 => 180,
        Orientation::R270 => 270,
    }
}

/// Turning content by the legibility rotation undoes the monitor's own
/// turn: the two together make a whole number of full turns, so the text
/// reads upright (an upright monitor's content is not turned at all).
pub proof fn lemma_legible_rotation_undoes_turn(o: Orientation)
    ensures
        (turn_degrees(o) + turn_degrees(legible_rotation(o))) % 360 == 0,
        turn_degrees(o) == 0 ==> legible_rotation(o) == o,
{
}

impl Orientation {
    /// Returns true when the orientation is portrait-primary (width < height
    /// after accounting for rotation).
    pub fn is_portrait(self) -> (b: bool)
        ensures
            b == portrait(self),
    {
        match self {
            Orientation::Normal | Orientation::R180 => false,
            Orientation::R90 | Orientation::R270 => true,
        }
    }

    /// Return the effective content rotation that keeps text legible: a
    /// monitor physically rotated 90 degrees clockwise shows content rotated
    /// 90 degrees counter-clockwise, and so on.
    pub fn content_rotate_for_legibility(self) -> (r: Orientation)
        ensures
            r == legible_rotation(self),
            (turn_degrees(self) + turn_degrees(r)) % 360 == 0,
    {
        match self {
            Orientation::Normal => Orientation::Normal,
            Orientation::R90 => Orientation::R270,
            Orientation::R180 => Orientation::R180,
            Orientation::R270 => Orientation::R90,
        }
    }
}

/// The geometry a window should be created with for a single monitor.
#[derive(Debug, Clone, Copy)]
pub struct WindowGeometry {
    /// Width of the window.
    pub width: i32,
    /// Height of the window.
    pub height: i32,
    /// X position of the window.
    pub x: i32,
    /// Y position of the window.
    pub y: i32,
    /// When true, the web view content should be rotated so that text
    /// remains legible on a portrait monitor.  The window itself is still
    /// created at the monitor's physical width/height.
    pub needs_rotation: bool,
    /// Effective rotation applied to content (Normal when no rotation needed).
    pub content_rotation: Orientation,
}

/// Whether content on monitor `m` must turn to stay legible: the monitor is
/// turned a quarter (R90 or R270), or no rotation is known (Normal) and it
/// is taller than it is wide.
pub open spec fn needs_rotation_for(m: ConfigMonitorInfo) -> bool {
    portrait(m.rotation) || (m.rotation == Orientation::Normal && m.height > m.width)
}

/// The monitor's rotation as far as content is concerned: its own, or, for
/// a Normal monitor taller than it is wide, a quarter turn clockwise (R90).
pub open spec fn effective_rotation(m: ConfigMonitorInfo) -> Orientation {
    if m.rotation == Orientation::Normal && m.height > m.width {
        Orientation::R90
    } else {
        m.rotation
    }
}

/// The window for monitor `m`: the monitor's own rectangle, with content
/// rotation exactly when it needs one.
pub open spec fn window_for(m: ConfigMonitorInfo) -> WindowGeometry {
    WindowGeometry {
        width: m.width,
        height: m.height,
        x: m.x,
        y: m.y,
        needs_rotation: needs_rotation_for(m),
        content_rotation: if needs_rotation_for(m) {
            legible_rotation(effective_rotation(m))
        } else {
            Orientation::Normal
        },
    }
}

/// Given a monitor descriptor, compute the window geometry and content
/// rotation flag.  A monitor whose rotation is unknown (Normal) but which is
/// taller than it is wide is taken as turned a quarter clockwise.
pub fn monitor_geometry(monitor: ConfigMonitorInfo) -> (g: WindowGeometry)
    ensures
        g == window_for(monitor),
{
    let width: i32 = monitor.width;
    let height: i32 = monitor.height;
    let x: i32 = monitor.x;
    let y: i32 = monitor.y;
    let rotation = if monitor.rotation == Orientation::Normal && height > width {
        Orientation::R90
    } else {
        monitor.rotation
    };
    let needs_rotation = rotation.is_portrait();
    let content_rotation = if needs_rotation {
        rotation.content_rotate_for_legibility()
    } else {
        Orientation::Normal
    };
    WindowGeometry { width, height, x, y, needs_rotation, content_rotation }
}

/// Compute window geometries for a slice of monitors: one window per
/// monitor, in the same order.
pub fn monitor_layout(monitors: &[ConfigMonitorInfo]) -> (r: Vec<WindowGeometry>)
    ensures
        r@.len() == monitors@.len(),
        forall|i: int| 0 <= i < monitors@.len() ==> #[trigger] r@[i] == window_for(monitors@[i]),
{
    let mut r: Vec<WindowGeometry> = Vec::new();
    let n: usize = monitors.len();
    let mut i: usize = 0;
    while i < n
        invariant
            i <= n == monitors@.len(),
            r@.len() == i,
            forall|k: int| 0 <= k < i ==> #[trigger] r@[k] == window_for(monitors@[k]),
        decreases n - i,
    {
        r.push(monitor_geometry(monitors[i]));
        i = i + 1;
    }
    r
}

/// Whether a monitor's rectangle holds the virtual screen origin (0,0): on
/// X11 the primary output is the one that owns it.
pub fn is_primary_geometry(x: i32, y: i32, width: i32, height: i32) -> (b: bool)
    requires
        i32::MIN <= x + width <= i32::MAX,
        i32::MIN <= y + height <= i32::MAX,
    ensures
        b == (x <= 0 && 0 < x + width && y <= 0 && 0 < y + height),
{
    x <= 0 && 0 < x + width && y <= 0 && 0 < y + height
}

/// Turning content for legibility twice gives back the monitor's own
/// rotation, and keeps portrait and landscape apart.
pub proof fn lemma_legible_rotation_involution(o: Orientation)
    ensures
        legible_rotation(legible_rotation(o)) == o,
        portrait(legible_rotation(o)) == portrait(o),
{
}

/// A window's content is rotated exactly when its monitor is portrait (by
/// rotation, or by shape when no rotation is known), the rotation is then
/// itself a portrait one, and the window keeps the monitor's rectangle.
pub proof fn lemma_window_rotation_consistent(m: ConfigMonitorInfo)
    ensures
        window_for(m).needs_rotation == (window_for(m).content_rotation != Orientation::Normal),
        window_for(m).needs_rotation == portrait(window_for(m).content_rotation),
        m.rotation == Orientation::Normal && m.height > m.width ==> window_for(m).needs_rotation,
        window_for(m).width == m.width && window_for(m).height == m.height,
        window_for(m).x == m.x && window_for(m).y == m.y,
{
}

/// No character of `s` is `c`.
pub open spec fn lacks(s: Seq<char>, c: char) -> bool {
    forall|k: int| 0 <= k < s.len() ==> #[trigger] s[k] != c
}

proof fn lemma_lacks_concat(a: Seq<char>, b: Seq<char>, c: char)
    requires
        lacks(a, c),
        lacks(b, c),
    ensures
        lacks(a + b, c),
{
    assert forall|k: int| 0 <= k < (a + b).len() implies #[trigger] (a + b)[k] != c by {
        if k < a.len() {
            assert((a + b)[k] == a[k]);
        } else {
            assert((a + b)[k] == b[k - a.len()]);
        }
    }
}

proof fn lemma_lacks_trim(s: Seq<char>, c: char)
    requires
        lacks(s, c),
    ensures
        lacks(trim_start(s), c),
        lacks(trim_end(s), c),
        lacks(trim(s), c),
    decreases s.len(),
{
    if s.len() > 0 {
        assert(lacks(s.drop_first(), c)) by {
            assert forall|k: int| 0 <= k < s.drop_first().len() implies #[trigger] s.drop_first()[k] != c by {
                assert(s.drop_first()[k] == s[k + 1]);
            }
        }
        assert(lacks(s.drop_last(), c)) by {
            assert forall|k: int| 0 <= k < s.drop_last().len() implies #[trigger] s.drop_last()[k] != c by {
                assert(s.drop_last()[k] == s[k]);
            }
        }
        lemma_lacks_trim(s.drop_first(), c);
        lemma_lacks_trim(s.drop_last(), c);
        lemma_lacks_trim_end(trim_start(s), c);
    }
}

proof fn lemma_lacks_trim_end(s: Seq<char>, c: char)
    requires
        lacks(s, c),
    ensures
        lacks(trim_end(s), c),
    decreases s.len(),
{
    if s.len() > 0 {
        assert(lacks(s.drop_last(), c)) by {
            assert forall|k: int| 0 <= k < s.drop_last().len() implies #[trigger] s.drop_last()[k] != c by {
                assert(s.drop_last()[k] == s[k]);
            }
        }
        lemma_lacks_trim_end(s.drop_last(), c);
    }
}

pub(crate) proof fn lemma_lacks_decimal(n: nat, c: char)
    requires
        !('0' <= c <= '9'),
    ensures
        lacks(decimal(n), c),
    decreases n,
{
    if n >= 10 {
        lemma_lacks_decimal(n / 10, c);
        lemma_lacks_concat(decimal(n / 10), seq![crate::text::digit_char(n % 10)], c);
        assert(decimal(n / 10).push(crate::text::digit_char(n % 10)) == decimal(n / 10) + seq![crate::text::digit_char(n % 10)]);
    }
}

/// For `c` one of `;`, `{` and `}`: with no `c` in the configured texts, no
/// name or value of the stylesheet holds a `c`.  For `;` this means the
/// stylesheet splits back into exactly its 43 declarations, whose names are
/// the theme's.
pub proof fn lemma_stylesheet_declarations_lack(t: StylesheetInputs, c: char)
    requires
        c == ';' || c == '{' || c == '}',
        lacks(t.background_color@, c),
        lacks(t.foreground_color@, c),
        lacks(t.accent_cyan@, c),
        lacks(t.accent_magenta@, c),
        lacks(t.accent_orange@, c),
        lacks(t.font@, c),
        lacks(t.font_size@, c),
        lacks(t.glitch_intensity@, c),
        lacks(t.glitch_duration@, c),
        lacks(t.scanline_opacity@, c),
        lacks(t.scanline_size_rem@, c),
    ensures
        stylesheet_declarations(t).len() == 43,
        forall|i: int| 0 <= i < 43 ==> lacks(#[trigger] stylesheet_declarations(t)[i].1, c),
        forall|i: int| 0 <= i < 43 ==> lacks(#[trigger] stylesheet_declarations(t)[i].0, c),
{
    reveal_strlit("--bg");
    reveal_strlit("--fg");
    reveal_strlit("--accent-cyan");
    reveal_strlit("--accent-magenta");
    reveal_strlit("--accent-orange");
    reveal_strlit("--glow-cyan-1");
    reveal_strlit("0 0 6px var(--accent-cyan)");
    reveal_strlit("--glow-cyan-2");
    reveal_strlit("0 0 18px var(--accent-cyan)");
    reveal_strlit("--glow-cyan-3");
    reveal_strlit("0 0 40px var(--accent-cyan)");
    reveal_strlit("--glow-magenta-1");
    reveal_strlit("0 0 6px var(--accent-magenta)");
    reveal_strlit("--glow-magenta-2");
    reveal_strlit("0 0 18px var(--accent-magenta)");
    reveal_strlit("--glow-magenta-3");
    reveal_strlit("0 0 40px var(--accent-magenta)");
    reveal_strlit("--font-family");
    reveal_strlit("--font-size");
    reveal_strlit("px");
    reveal_strlit("--letter-spacing");
    reveal_strlit("0.02em");
    reveal_strlit("--line-height");
    reveal_strlit("1.5");
    reveal_strlit("--max-width");
    reveal_strlit("760px");
    reveal_strlit("--typewriter-ms");
    reveal_strlit("80");
    reveal_strlit("--typewriter-ease");
    reveal_strlit("cubic-bezier(.22,.61,.36,1)");
    reveal_strlit("--typewriter-slide");
    reveal_strlit("38px");
    reveal_strlit("--typewriter-opacity-start");
    reveal_strlit("0");
    reveal_strlit("--typewriter-opacity-end");
    reveal_strlit("1");
    reveal_strlit("--cursor-char");
    reveal_strlit("'▍'");
    reveal_strlit("--cursor-blink");
    reveal_strlit("0.9s");
    reveal_strlit("--cursor-color");
    reveal_strlit("#ffffff");
    reveal_strlit("--glitch-intensity");
    reveal_strlit("--glitch-ms");
    reveal_strlit("ms");
    reveal_strlit("--glitch-duration");
    reveal_strlit("s");
    reveal_strlit("--glitch-color-cyan");
    reveal_strlit("137px 0 0 var(--accent-cyan)");
    reveal_strlit("--glitch-color-magenta");
    reveal_strlit("-137px 0 0 var(--accent-magenta)");
    reveal_strlit("--glitch-jitter");
    reveal_strlit("1.2px");
    reveal_strlit("--scanline-opacity");
    reveal_strlit("--scanline-color");
    reveal_strlit("#000");
    reveal_strlit("--scanline-size");
    reveal_strlit("rem");
    reveal_strlit("--scanline-gap");
    reveal_strlit("--scanline-speed");
    reveal_strlit("90s");
    reveal_strlit("--scanline-steps");
    reveal_strlit("--crt-perspective");
    reveal_strlit("600px");
    reveal_strlit("--crt-radius");
    reveal_strlit("40px");
    reveal_strlit("--crt-vignette-stops");
    reveal_strlit("transparent 0%, transparent 70%, var(--vignette-edge) 100%");
    reveal_strlit("--crt-vignette-blur");
    reveal_strlit("12px");
    reveal_strlit("--vignette-edge");
    reveal_strlit("#02030a");
    reveal_strlit("--center-padding");
    reveal_strlit("36px");
    reveal_strlit("--max-quote-chars");
    reveal_strlit("900");
    reveal_strlit("calc((100vh / ");
    reveal_strlit(") - ");
    reveal_strlit("rem)");
    lemma_lacks_trim(t.background_color@, c);
    lemma_lacks_trim(t.foreground_color@, c);
    lemma_lacks_trim(t.accent_cyan@, c);
    lemma_lacks_trim(t.accent_magenta@, c);
    lemma_lacks_trim(t.accent_orange@, c);
    let q = seq!['"'];
    let f = replace_char(t.font@, '"', '\'');
    assert(lacks(f, c)) by {
        assert forall|k: int| 0 <= k < f.len() implies #[trigger] f[k] != c by {
            assert(t.font@[k] != c);
        }
    }
    lemma_lacks_concat(q, f, c);
    lemma_lacks_concat(q + f, q, c);
    lemma_lacks_concat(t.font_size@, "px"@, c);
    lemma_lacks_concat(t.glitch_intensity@, "px"@, c);
    lemma_lacks_decimal(t.glitch_interval_ms as nat, c);
    lemma_lacks_concat(decimal(t.glitch_interval_ms as nat), "ms"@, c);
    lemma_lacks_concat(t.glitch_duration@, "s"@, c);
    lemma_lacks_concat(t.scanline_size_rem@, "rem"@, c);
    let lines = decimal(scanline_lines_used(t.scanline_lines) as nat);
    lemma_lacks_decimal(scanline_lines_used(t.scanline_lines) as nat, c);
    lemma_lacks_concat("calc((100vh / "@, lines, c);
    lemma_lacks_concat("calc((100vh / "@ + lines, ") - "@, c);
    lemma_lacks_concat("calc((100vh / "@ + lines + ") - "@, t.scanline_size_rem@, c);
    lemma_lacks_concat("calc((100vh / "@ + lines + ") - "@ + t.scanline_size_rem@, "rem)"@, c);
    lemma_lacks_decimal(scanline_steps_used(t.scanline_steps) as nat, c);
}

proof fn lemma_declarations_text_lacks(ds: Seq<(Seq<char>, Seq<char>)>, c: char)
    requires
        c != ':' && c != ';',
        forall|i: int| 0 <= i < ds.len() ==> lacks(#[trigger] ds[i].0, c) && lacks(ds[i].1, c),
    ensures
        lacks(declarations_text(ds), c),
    decreases ds.len(),
{
    if ds.len() > 0 {
        let d = ds.drop_last();
        assert forall|i: int| 0 <= i < d.len() implies lacks(#[trigger] d[i].0, c) && lacks(d[i].1, c) by {
            assert(d[i] == ds[i]);
        }
        lemma_declarations_text_lacks(d, c);
        let x = ds.last();
        assert(lacks(x.0, c) && lacks(x.1, c)) by {
            assert(x == ds[ds.len() - 1]);
        }
        lemma_lacks_concat(x.0, seq![':'], c);
        lemma_lacks_concat(x.0 + seq![':'], x.1, c);
        lemma_lacks_concat(x.0 + seq![':'] + x.1, seq![';'], c);
        lemma_lacks_concat(declarations_text(d), crate::css::declaration_text(x), c);
    }
}

/// A character of a number as Rust writes a float with `{}`: a digit, a
/// sign, a point, or a letter of `inf` or `NaN`.
pub open spec fn is_number_char(c: char) -> bool {
    ('0' <= c && c <= '9') || c == '.' || c == '-' || c == 'i' || c == 'n' || c == 'f' || c == 'N' || c == 'a'
}

/// Text written from a number: only number characters.
pub open spec fn number_text(s: Seq<char>) -> bool {
    forall|k: int| 0 <= k < s.len() ==> is_number_char(#[trigger] s[k])
}

/// The numeric texts of `t` are numbers as Rust writes them.
pub open spec fn numbers_well_formed(t: StylesheetInputs) -> bool {
    &&& number_text(t.font_size@)
    &&& number_text(t.glitch_intensity@)
    &&& number_text(t.glitch_duration@)
    &&& number_text(t.scanline_opacity@)
    &&& number_text(t.scanline_size_rem@)
}

proof fn lemma_number_text_lacks(s: Seq<char>, c: char)
    requires
        number_text(s),
        c == ';' || c == '{' || c == '}',
    ensures
        lacks(s, c),
{
}

/// With numbers in the numeric texts and no `;`, `{` or `}` in the colours
/// and the font, the stylesheet is plain declarations: it holds no `{` or
/// `}` (no `:root { .. }` wrapper, which the page supplies), no name or
/// value holds a `;` (it splits back into exactly its 43 declarations), and
/// it ends with the `;` of its last declaration.
pub proof fn lemma_stylesheet_is_plain_declarations(t: StylesheetInputs)
    requires
        numbers_well_formed(t),
        forall|c: char|
            c == ';' || c == '{' || c == '}' ==> {
                &&& lacks(t.background_color@, c)
                &&& lacks(t.foreground_color@, c)
                &&& lacks(t.accent_cyan@, c)
                &&& lacks(t.accent_magenta@, c)
                &&& lacks(t.accent_orange@, c)
                &&& lacks(t.font@, c)
            },
    ensures
        lacks(declarations_text(stylesheet_declarations(t)), '{'),
        lacks(declarations_text(stylesheet_declarations(t)), '}'),
        declarations_text(stylesheet_declarations(t)).len() > 0,
        declarations_text(stylesheet_declarations(t)).last() == ';',
        stylesheet_declarations(t).len() == 43,
        forall|i: int|
            0 <= i < 43 ==> lacks(#[trigger] stylesheet_declarations(t)[i].0, ';') && lacks(
                stylesheet_declarations(t)[i].1,
                ';',
            ),
{
    let ds = stylesheet_declarations(t);
    assert forall|c: char| c == ';' || c == '{' || c == '}' implies {
        &&& lacks(t.font_size@, c)
        &&& lacks(t.glitch_intensity@, c)
        &&& lacks(t.glitch_duration@, c)
        &&& lacks(t.scanline_opacity@, c)
        &&& lacks(t.scanline_size_rem@, c)
    } by {
        lemma_number_text_lacks(t.font_size@, c);
        lemma_number_text_lacks(t.glitch_intensity@, c);
        lemma_number_text_lacks(t.glitch_duration@, c);
        lemma_number_text_lacks(t.scanline_opacity@, c);
        lemma_number_text_lacks(t.scanline_size_rem@, c);
    }
    lemma_stylesheet_declarations_lack(t, '{');
    lemma_stylesheet_declarations_lack(t, '}');
    lemma_stylesheet_declarations_lack(t, ';');
    lemma_declarations_text_lacks(ds, '{');
    lemma_declarations_text_lacks(ds, '}');
    assert forall|i: int| 0 <= i < 43 implies lacks(#[trigger] ds[i].0, ';') && lacks(ds[i].1, ';') by {}
}

/// Each configured setting reaches the stylesheet under its own property:
/// the colours (trimmed), the font, and the sizes and times with their
/// units, each from its own field of `t` and from no other.
pub proof fn lemma_stylesheet_follows_config(t: StylesheetInputs)
    ensures
        stylesheet_declarations(t).len() == 43,
        stylesheet_declarations(t)[0] == ("--bg"@, trim(t.background_color@)),
        stylesheet_declarations(t)[1] == ("--fg"@, trim(t.foreground_color@)),
        stylesheet_declarations(t)[2] == ("--accent-cyan"@, trim(t.accent_cyan@)),
        stylesheet_declarations(t)[3] == ("--accent-magenta"@, trim(t.accent_magenta@)),
        stylesheet_declarations(t)[4] == ("--accent-orange"@, trim(t.accent_orange@)),
        stylesheet_declarations(t)[11] == ("--font-family"@, seq!['"'] + replace_char(t.font@, '"', '\'') + seq!['"']),
        stylesheet_declarations(t)[12] == ("--font-size"@, t.font_size@ + "px"@),
        stylesheet_declarations(t)[24] == ("--glitch-intensity"@, t.glitch_intensity@ + "px"@),
        stylesheet_declarations(t)[25] == ("--glitch-ms"@, decimal(t.glitch_interval_ms as nat) + "ms"@),
        stylesheet_declarations(t)[26] == ("--glitch-duration"@, t.glitch_duration@ + "s"@),
        stylesheet_declarations(t)[30] == ("--scanline-opacity"@, t.scanline_opacity@),
        stylesheet_declarations(t)[32] == ("--scanline-size"@, t.scanline_size_rem@ + "rem"@),
{
}

/// The scanline mesh: the line thickness `s` in `--scanline-size` is the
/// one subtracted in `--scanline-gap`, whose line count is the configured
/// count held within [1, 2000], so line plus gap is one screen height
/// divided by that count; the animation takes at least 2 steps.
pub proof fn lemma_scanline_mesh(t: StylesheetInputs)
    ensures
        stylesheet_declarations(t)[32].0 == "--scanline-size"@,
        stylesheet_declarations(t)[32].1 == t.scanline_size_rem@ + "rem"@,
        stylesheet_declarations(t)[33].0 == "--scanline-gap"@,
        stylesheet_declarations(t)[33].1 == "calc((100vh / "@ + decimal(scanline_lines_used(t.scanline_lines) as nat)
            + ") - "@ + t.scanline_size_rem@ + "rem)"@,
        1 <= scanline_lines_used(t.scanline_lines) <= 2000,
        t.scanline_lines >= 1 && t.scanline_lines <= 2000 ==> scanline_lines_used(t.scanline_lines) == t.scanline_lines,
        stylesheet_declarations(t)[35].0 == "--scanline-steps"@,
        stylesheet_declarations(t)[35].1 == decimal(scanline_steps_used(t.scanline_steps) as nat),
        scanline_steps_used(t.scanline_steps) >= 2,
        t.scanline_steps >= 2 ==> scanline_steps_used(t.scanline_steps) == t.scanline_steps,
{
}


// ---------------------------------------------------------------------------
// Where the configuration is read from
// ---------------------------------------------------------------------------

/// The per-user configuration file, below the home directory.
pub const USER_CONFIG_SUFFIX: &'static str = "/.config/bspwm-cyberquote/config.toml";

/// The configuration file of the working directory (the repository's own).
pub const LOCAL_CONFIG_PATH: &'static str = "config.toml";

/// The configuration files to try, in order: the per-user file below
/// `home`, then `config.toml` in the working directory.
pub fn config_candidates(home: &str) -> (v: Vec<String>)
    ensures
        v@.len() == 2,
        v@[0]@ == home@ + USER_CONFIG_SUFFIX@,
        v@[1]@ == LOCAL_CONFIG_PATH@,
{
    let mut user = String::from_str(home);
    user.append(USER_CONFIG_SUFFIX);
    let mut v: Vec<String> = Vec::new();
    v.push(user);
    v.push(String::from_str(LOCAL_CONFIG_PATH));
    v
}

/// What to do after trying the configuration candidate at some index.
#[derive(Debug, Clone, Copy, PartialEq, Eq, Structural)]
pub enum ConfigStep {
    /// Use the configuration loaded from the candidate at this index.
    Use(usize),
    /// Try the candidate at this index next.
    TryNext(usize),
    /// Give up, reporting the error of the candidate at this index.
    Fail(usize),
}

/// The step after trying candidate `index` of `candidates`.
pub open spec fn next_config_step(index: int, candidates: int, loaded: bool) -> ConfigStep {
    if loaded {
        ConfigStep::Use(index as usize)
    } else if index + 1 < candidates {
        ConfigStep::TryNext((index + 1) as usize)
    } else {
        ConfigStep::Fail(index as usize)
    }
}

/// After trying candidate `index` of `candidates`: use it if it loaded,
/// else try the next one, else fail with its error.
pub fn config_step(index: usize, candidates: usize, loaded: bool) -> (s: ConfigStep)
    requires
        index < candidates,
    ensures
        s == next_config_step(index as int, candidates as int, loaded),
        loaded ==> s == ConfigStep::Use(index),
        !loaded && index + 1 < candidates ==> s == ConfigStep::TryNext((index + 1) as usize),
        !loaded && index + 1 == candidates ==> s == ConfigStep::Fail(index),
{
    if loaded {
        ConfigStep::Use(index)
    } else if index + 1 < candidates {
        ConfigStep::TryNext(index + 1)
    } else {
        ConfigStep::Fail(index)
    }
}

/// Where the search ends when it starts at candidate `i`, candidate `k`
/// loading exactly when `loaded[k]`.
pub open spec fn config_search(loaded: Seq<bool>, i: int) -> ConfigStep
    decreases loaded.len() - i,
{
    if i < 0 || i >= loaded.len() {
        ConfigStep::Fail(0)
    } else {
        match next_config_step(i, loaded.len() as int, loaded[i]) {
            ConfigStep::TryNext(n) => if i + 1 < loaded.len() {
                config_search(loaded, i + 1)
            } else {
                ConfigStep::Fail(i as usize)
            },
            s => s,
        }
    }
}

/// Stepping through the candidates from the first uses the first one that
/// loads; when none loads, it fails with the error of the last one.
pub proof fn lemma_config_search(loaded: Seq<bool>, i: int)
    requires
        0 <= i < loaded.len(),
        loaded.len() <= usize::MAX,
    ensures
        (exists|k: int| i <= k < loaded.len() && loaded[k]) ==> ({
            let k = choose|k: int| i <= k < loaded.len() && loaded[k] && forall|m: int| i <= m < k ==> !loaded[m];
            &&& i <= k < loaded.len() && loaded[k] && forall|m: int| i <= m < k ==> !loaded[m]
            &&& config_search(loaded, i) == ConfigStep::Use(k as usize)
        }),
        (forall|k: int| i <= k < loaded.len() ==> !loaded[k]) ==> config_search(loaded, i) == ConfigStep::Fail(
            (loaded.len() - 1) as usize,
        ),
    decreases loaded.len() - i,
{
    if i + 1 < loaded.len() {
        lemma_config_search(loaded, i + 1);
    }
    if exists|k: int| i <= k < loaded.len() && loaded[k] {
        let k0 = choose|k: int| i <= k < loaded.len() && loaded[k];
        lemma_first_loaded(loaded, i, k0);
        let k = choose|k: int| i <= k < loaded.len() && loaded[k] && forall|m: int| i <= m < k ==> !loaded[m];
        if !loaded[i] {
            assert(k > i);
            assert(loaded[k] && forall|m: int| i + 1 <= m < k ==> !loaded[m]);
            let k1 = choose|k: int| i + 1 <= k < loaded.len() && loaded[k] && forall|m: int| i + 1 <= m < k ==> !loaded[m];
            if k1 < k {
                assert(!loaded[k1]);
            } else if k < k1 {
                assert(!loaded[k]);
            }
        } else if k > i {
            assert(!loaded[i]);
        }
    }
}

proof fn lemma_first_loaded(loaded: Seq<bool>, i: int, k: int)
    requires
        i <= k < loaded.len(),
        loaded[k],
    ensures
        exists|f: int| i <= f < loaded.len() && loaded[f] && forall|m: int| i <= m < f ==> !loaded[m],
    decreases k - i,
{
    if exists|m: int| i <= m < k && loaded[m] {
        let m = choose|m: int| i <= m < k && loaded[m];
        lemma_first_loaded(loaded, i, m);
    } else {
        assert(forall|m: int| i <= m < k ==> !loaded[m]);
    }
}

/// The indices of the monitors in `ms` whose rectangle holds the virtual
/// screen origin, in order.
pub open spec fn primary_indices(ms: Seq<ConfigMonitorInfo>) -> Seq<usize>
    decreases ms.len(),
{
    if ms.len() == 0 {
        Seq::empty()
    } else {
        let m = ms.last();
        let r = primary_indices(ms.drop_last());
        if m.x <= 0 && 0 < m.x + m.width && m.y <= 0 && 0 < m.y + m.height {
            r.push((ms.len() - 1) as usize)
        } else {
            r
        }
    }
}

/// The indices of the monitors that own the virtual screen origin (the
/// primary output on X11), in order.
pub fn primary_monitors(ms: &Vec<ConfigMonitorInfo>) -> (r: Vec<usize>)
    requires
        forall|k: int|
            0 <= k < ms@.len() ==> i32::MIN <= (#[trigger] ms@[k]).x + ms@[k].width <= i32::MAX && i32::MIN
                <= ms@[k].y + ms@[k].height <= i32::MAX,
    ensures
        r@ == primary_indices(ms@),
{
    let mut r: Vec<usize> = Vec::new();
    let mut i: usize = 0;
    while i < ms.len()
        invariant
            i <= ms@.len(),
            r@ == primary_indices(ms@.take(i as int)),
            forall|k: int|
                0 <= k < ms@.len() ==> i32::MIN <= (#[trigger] ms@[k]).x + ms@[k].width <= i32::MAX && i32::MIN
                    <= ms@[k].y + ms@[k].height <= i32::MAX,
        decreases ms@.len() - i,
    {
        let m = &ms[i];
        assert(ms@.take(i as int + 1).drop_last() == ms@.take(i as int));
        assert(ms@.take(i as int + 1).last() == ms@[i as int]);
        if is_primary_geometry(m.x, m.y, m.width, m.height) {
            r.push(i);
        }
        i = i + 1;
    }
    assert(ms@.take(ms@.len() as int) == ms@);
    r
}

} // verus!
