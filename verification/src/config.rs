//! The viewer's configuration (the `config.toml` file's tables) and its
//! defaults.

use crate::color::{resolve_color, resolve_color_spec, resolve_input_ok, Color};
use crate::display::ViewMode;
use crate::foreign::{str_to_lowercase, str_trim, trim_spec, unicode_lowercase};
use crate::theme::{is_light_mode, parse_view_mode, view_mode_spec};
use crate::text::{lower_seq, str_equals, to_owned_string};
use std::collections::HashMap;
use vstd::prelude::*;

verus! {

/// A theme token's color for a dark and, optionally, a light background.
#[derive(Debug, Clone)]
pub struct DarkLight {
    pub dark: String,
    pub light: Option<String>,
}

/// The theme's tokens; an unset one keeps the built-in color.
#[derive(Debug, Clone)]
pub struct ThemeTokens {
    pub text: Option<DarkLight>,
    pub text_muted: Option<DarkLight>,
    pub primary: Option<DarkLight>,
    pub secondary: Option<DarkLight>,
    pub accent: Option<DarkLight>,
    pub error: Option<DarkLight>,
    pub warning: Option<DarkLight>,
    pub success: Option<DarkLight>,
    pub info: Option<DarkLight>,
    pub background: Option<DarkLight>,
    pub background_panel: Option<DarkLight>,
    pub background_element: Option<DarkLight>,
    pub border: Option<DarkLight>,
    pub border_active: Option<DarkLight>,
    pub border_subtle: Option<DarkLight>,
    pub diff_added: Option<DarkLight>,
    pub diff_removed: Option<DarkLight>,
    pub diff_context: Option<DarkLight>,
    pub diff_line_number: Option<DarkLight>,
    pub diff_ext_marker: Option<DarkLight>,
}

/// Whether no token is set.
pub open spec fn tokens_unset(t: ThemeTokens) -> bool {
    &&& t.text is None && t.text_muted is None && t.primary is None && t.secondary is None
    &&& t.accent is None && t.error is None && t.warning is None && t.success is None
    &&& t.info is None && t.background is None && t.background_panel is None
    &&& t.background_element is None && t.border is None && t.border_active is None
    &&& t.border_subtle is None && t.diff_added is None && t.diff_removed is None
    &&& t.diff_context is None && t.diff_line_number is None && t.diff_ext_marker is None
}

impl Default for ThemeTokens {
    /// No token set.
    fn default() -> (t: Self)
        ensures
            tokens_unset(t),
    {
        ThemeTokens {
            text: None,
            text_muted: None,
            primary: None,
            secondary: None,
            accent: None,
            error: None,
            warning: None,
            success: None,
            info: None,
            background: None,
            background_panel: None,
            background_element: None,
            border: None,
            border_active: None,
            border_subtle: None,
            diff_added: None,
            diff_removed: None,
            diff_context: None,
            diff_line_number: None,
            diff_ext_marker: None,
        }
    }
}

/// The theme: its mode (`dark` or `light`), named colors, and tokens.
#[derive(Debug, Clone)]
pub struct ThemeConfig {
    pub mode: Option<String>,
    pub defs: HashMap<String, String>,
    pub theme: ThemeTokens,
}

impl Default for ThemeConfig {
    /// No mode, no named color, no token.
    fn default() -> (c: Self)
        ensures
            c.mode is None,
            c.defs@ == Map::<String, String>::empty(),
            tokens_unset(c.theme),
    {
        ThemeConfig { mode: None, defs: HashMap::new(), theme: ThemeTokens::default() }
    }
}

impl ThemeConfig {
    /// Whether the theme asks for light mode (`light`, in any ASCII case).
    pub fn is_light_mode(&self) -> (b: bool)
        ensures
            b == (match self.mode {
                Some(m) => lower_seq(m@) == lower_seq("light"@),
                None => false,
            }),
    {
        match &self.mode {
            Some(m) => is_light_mode(Some(m.as_str())),
            None => is_light_mode(None),
        }
    }
}

/// The `[ui]` table.
#[derive(Debug)]
pub struct UiConfig {
    pub zen: bool,
    pub auto_center: bool,
    pub view_mode: Option<String>,
    pub line_wrap: bool,
    pub scrollbar: bool,
    pub strikethrough_deletions: bool,
    pub primary_marker: String,
    pub primary_marker_right: Option<String>,
    pub extent_marker: String,
    pub extent_marker_right: Option<String>,
    pub theme: ThemeConfig,
}

impl Default for UiConfig {
    /// Auto-centering on, markers `▶` and `▌`, everything else off or
    /// unset.
    fn default() -> (c: Self)
        ensures
            !c.zen && c.auto_center && c.view_mode is None,
            !c.line_wrap && !c.scrollbar && !c.strikethrough_deletions,
            c.primary_marker@ == "▶"@,
            c.primary_marker_right is None,
            c.extent_marker@ == "▌"@,
            c.extent_marker_right is None,
            c.theme.mode is None,
            tokens_unset(c.theme.theme),
    {
        UiConfig {
            zen: false,
            auto_center: true,
            view_mode: None,
            line_wrap: false,
            scrollbar: false,
            strikethrough_deletions: false,
            primary_marker: to_owned_string("▶"),
            primary_marker_right: None,
            extent_marker: to_owned_string("▌"),
            extent_marker_right: None,
            theme: ThemeConfig::default(),
        }
    }
}

/// The `[playback]` table.
#[derive(Debug)]
pub struct PlaybackConfig {
    /// Delay between autoplay steps, in milliseconds.
    pub speed: u64,
    pub autoplay: bool,
    pub animation: bool,
    /// Length of a fade, in milliseconds.
    pub animation_duration: u64,
    pub auto_step_on_enter: bool,
    pub auto_step_blank_files: bool,
}

impl Default for PlaybackConfig {
    /// 200 ms steps, 150 ms fades, no autoplay or animation, blank files
    /// stepped into.
    fn default() -> (c: Self)
        ensures
            c.speed == 200 && c.animation_duration == 150,
            !c.autoplay && !c.animation && !c.auto_step_on_enter && c.auto_step_blank_files,
    {
        PlaybackConfig {
            speed: 200,
            autoplay: false,
            animation: false,
            animation_duration: 150,
            auto_step_on_enter: false,
            auto_step_blank_files: true,
        }
    }
}

/// The `[files]` table.
#[derive(Debug)]
pub struct FilesConfig {
    pub panel_visible: bool,
}

impl Default for FilesConfig {
    /// The file panel shown.
    fn default() -> (c: Self)
        ensures
            c.panel_visible,
    {
        FilesConfig { panel_visible: true }
    }
}

/// The whole configuration.
#[derive(Debug)]
pub struct Config {
    pub ui: UiConfig,
    pub playback: PlaybackConfig,
    pub files: FilesConfig,
}

impl Default for Config {
    /// Every table at its defaults.
    fn default() -> (c: Self)
        ensures
            c.ui.auto_center && c.ui.view_mode is None,
            c.playback.speed == 200,
            c.files.panel_visible,
    {
        Config { ui: UiConfig::default(), playback: PlaybackConfig::default(), files: FilesConfig::default() }
    }
}

impl Config {
    /// The configured view mode, if it names one (see `view_mode_spec`).
    pub fn parse_view_mode(&self) -> (r: Option<ViewMode>)
        ensures
            r == (match self.ui.view_mode {
                Some(m) => view_mode_spec(m@),
                None => None,
            }),
    {
        match &self.ui.view_mode {
            Some(m) => parse_view_mode(Some(m.as_str())),
            None => parse_view_mode(None),
        }
    }
}

/// Whether the light value of a token is used: in light mode, when it is
/// set.
pub open spec fn light_value_used(token: DarkLight, light_mode: bool) -> bool {
    light_mode && token.light is Some
}

/// Whether the dark value of a token is resolved: outside light mode, or
/// when the light value is unset or names no color.
pub open spec fn dark_value_used(token: DarkLight, light_mode: bool, defs: Map<String, String>) -> bool {
    !light_mode || token.light is None || resolve_color_spec(token.light->0@, defs) is None
}

/// The color of a theme token: in light mode its light value when that
/// names a color, else its dark value; the fallback when the token is unset
/// or names no color.
pub open spec fn token_color_spec(token: Option<DarkLight>, fallback: Color, light_mode: bool, defs: Map<String, String>) -> Color {
    match token {
        None => fallback,
        Some(dl) => {
            let from_light = if light_value_used(dl, light_mode) {
                resolve_color_spec(dl.light->0@, defs)
            } else {
                None
            };
            let chosen = match from_light {
                Some(c) => Some(c),
                None => resolve_color_spec(dl.dark@, defs),
            };
            match chosen {
                Some(c) => c,
                None => fallback,
            }
        },
    }
}

/// The color of a theme token (see `token_color_spec`).
pub fn resolve_token(token: &Option<DarkLight>, fallback: Color, light_mode: bool, defs: &HashMap<String, String>) -> (r: Color)
    requires
        *token matches Some(dl) ==> (light_value_used(dl, light_mode) ==> resolve_input_ok(dl.light->0@, defs@)) && (
        dark_value_used(dl, light_mode, defs@) ==> resolve_input_ok(dl.dark@, defs@)),
    ensures
        r == token_color_spec(*token, fallback, light_mode, defs@),
{
    match token {
        None => fallback,
        Some(dl) => {
            let from_light = if light_mode {
                match &dl.light {
                    Some(l) => resolve_color(l.as_str(), defs),
                    None => None,
                }
            } else {
                None
            };
            let chosen = match from_light {
                Some(c) => Some(c),
                None => resolve_color(dl.dark.as_str(), defs),
            };
            match chosen {
                Some(c) => c,
                None => fallback,
            }
        },
    }
}

/// The value a background token uses: in light mode its light value when
/// set, else its dark value.
pub open spec fn background_value(dl: DarkLight, light_mode: bool) -> Seq<char> {
    if light_value_used(dl, light_mode) {
        dl.light->0@
    } else {
        dl.dark@
    }
}

/// Whether a background value asks for no background: `transparent` or
/// `none`, trimmed, in any case.
pub open spec fn is_no_background(v: Seq<char>) -> bool {
    let l = unicode_lowercase(trim_spec(v));
    l == "transparent"@ || l == "none"@
}

/// The color of a background token: none when it is unset, asks for no
/// background, or names no color.
pub open spec fn background_color_spec(token: Option<DarkLight>, light_mode: bool, defs: Map<String, String>) -> Option<Color> {
    match token {
        None => None,
        Some(dl) => {
            let v = background_value(dl, light_mode);
            if is_no_background(v) {
                None
            } else {
                resolve_color_spec(v, defs)
            }
        },
    }
}

/// The color of a background token (see `background_color_spec`).
pub fn resolve_background(token: &Option<DarkLight>, light_mode: bool, defs: &HashMap<String, String>) -> (r: Option<Color>)
    requires
        *token matches Some(dl) ==> (!is_no_background(background_value(dl, light_mode)) ==> resolve_input_ok(
            background_value(dl, light_mode),
            defs@,
        )),
    ensures
        r == background_color_spec(*token, light_mode, defs@),
{
    match token {
        None => None,
        Some(dl) => {
            let v: &str = if light_mode {
                match &dl.light {
                    Some(l) => l.as_str(),
                    None => dl.dark.as_str(),
                }
            } else {
                dl.dark.as_str()
            };
            let lowered = str_to_lowercase(str_trim(v));
            if str_equals(lowered.as_str(), "transparent") || str_equals(lowered.as_str(), "none") {
                None
            } else {
                resolve_color(v, defs)
            }
        },
    }
}


/// A relative path joined under a directory: the path alone under an
/// empty directory; else with one `/` between them.
pub open spec fn join_path_spec(dir: Seq<char>, rel: Seq<char>) -> Seq<char> {
    if dir.len() == 0 {
        rel
    } else if dir.last() == '/' {
        dir + rel
    } else {
        dir + "/"@ + rel
    }
}

/// A relative path joined under a directory (see `join_path_spec`).
pub fn join_path(dir: &str, rel: &str) -> (r: String)
    ensures
        r@ == join_path_spec(dir@, rel@),
{
    let n = dir.unicode_len();
    let mut r = crate::text::to_owned_string(dir);
    if n > 0 && dir.get_char(n - 1) != '/' {
        crate::foreign::push_str(&mut r, "/");
    }
    crate::foreign::push_str(&mut r, rel);
    r
}

/// The places a configuration file may be, in order: under
/// `$XDG_CONFIG_HOME` (when set), under `~/.config` (when the home is
/// known), and under the platform's configuration directory (when known
/// and not already listed); each as `oyo/config.toml` there.
pub open spec fn config_candidates_spec(xdg: Option<Seq<char>>, home: Option<Seq<char>>, config_dir: Option<Seq<char>>) -> Seq<Seq<char>> {
    let s0: Seq<Seq<char>> = match xdg {
        Some(x) => seq![join_path_spec(x, "oyo/config.toml"@)],
        None => Seq::empty(),
    };
    let s1 = match home {
        Some(h) => s0.push(join_path_spec(h, ".config/oyo/config.toml"@)),
        None => s0,
    };
    match config_dir {
        Some(c) => if s1.contains(join_path_spec(c, "oyo/config.toml"@)) { s1 } else { s1.push(join_path_spec(c, "oyo/config.toml"@)) },
        None => s1,
    }
}

/// An optional text as plain values.
pub open spec fn opt_text(s: Option<&str>) -> Option<Seq<char>> {
    match s {
        Some(t) => Some(t@),
        None => None,
    }
}

/// The places a configuration file may be (see `config_candidates_spec`).
pub fn config_candidates(xdg: Option<&str>, home: Option<&str>, config_dir: Option<&str>) -> (r: Vec<String>)
    ensures
        r@.map_values(|p: String| p@) == config_candidates_spec(opt_text(xdg), opt_text(home), opt_text(config_dir)),
{
    let mut r: Vec<String> = Vec::new();
    if let Some(x) = xdg {
        r.push(join_path(x, "oyo/config.toml"));
    }
    if let Some(h) = home {
        r.push(join_path(h, ".config/oyo/config.toml"));
    }
    let ghost s1 = r@.map_values(|p: String| p@);
    assert(s1 =~= match opt_text(home) {
        Some(h) => (match opt_text(xdg) {
            Some(x) => seq![join_path_spec(x, "oyo/config.toml"@)],
            None => Seq::<Seq<char>>::empty(),
        }).push(join_path_spec(h, ".config/oyo/config.toml"@)),
        None => match opt_text(xdg) {
            Some(x) => seq![join_path_spec(x, "oyo/config.toml"@)],
            None => Seq::<Seq<char>>::empty(),
        },
    });
    if let Some(c) = config_dir {
        let p = join_path(c, "oyo/config.toml");
        let mut found = false;
        let mut k: usize = 0;
        while k < r.len()
            invariant
                k <= r@.len(),
                s1 == r@.map_values(|q: String| q@),
                found == (exists|j: int| 0 <= j < k && s1[j] == p@),
            decreases r@.len() - k,
        {
            let same = crate::text::str_equals(r[k].as_str(), p.as_str());
            assert(s1[k as int] == r@[k as int]@);
            if same {
                found = true;
            }
            proof {
                if !same && !found {
                    assert forall|j: int| 0 <= j < k + 1 implies s1[j] != p@ by {
                        if j < k {
                        }
                    }
                }
            }
            k = k + 1;
        }
        if !found {
            r.push(p);
            assert(r@.map_values(|q: String| q@) =~= s1.push(p@));
        } else {
            proof {
                let j = choose|j: int| 0 <= j < r@.len() && s1[j] == p@;
                assert(s1[j] == p@);
                assert(s1.contains(p@));
            }
        }
    }
    r
}

} // verus!
