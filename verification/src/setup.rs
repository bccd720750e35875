//! Configuration data and its normalization.
//!
//! Reading the configuration file and the environment happens outside the
//! library; this module holds the plain settings types, their defaults, and
//! `Config::parse`, which normalizes empty optional strings to `None`.

use vstd::prelude::*;

verus! {

use vstd::string::StringExecFns;

/// The resolved environment paths the application runs with.
#[derive(Debug)]
pub struct EnvVars {
    pub cache: String,
    pub anime_json: String,
    pub config: String,
}

/// Settings handed to the external picker program.
#[derive(Debug)]
pub struct DmenuSettings {
    pub font: Option<String>,
    pub bottom: bool,
    pub case_insensitive: bool,
    pub height: u32,
    pub lines: u32,
    pub monitor: u8,
    pub norm_bg: Option<String>,
    pub norm_fg: Option<String>,
    pub sel_bg: Option<String>,
    pub sel_fg: Option<String>,
}

/// The application configuration: the library roots and the picker
/// settings.
#[derive(Debug)]
pub struct Config {
    pub anime_dir: Vec<String>,
    pub dmenu_settings: DmenuSettings,
}

pub fn default_height() -> (r: u32)
    ensures
        r == 24u32,
{
    24
}

pub fn default_lines() -> (r: u32)
    ensures
        r == 15u32,
{
    15
}

pub fn default_case_insensitive() -> (r: bool)
    ensures
        r,
{
    true
}

/// The default library root: `Videos` under the given home directory.
pub fn default_anime_dir(home: &str) -> (r: Vec<String>)
    ensures
        r@.len() == 1,
        r@[0]@ == home@ + "/Videos"@,
{
    let mut dir = home.to_owned();
    dir.append("/Videos");
    let mut v: Vec<String> = Vec::new();
    v.push(dir);
    v
}

impl Default for DmenuSettings {
    /// The documented defaults: 15 lines, height 24, case-insensitive
    /// matching, no colors or font overrides.
    fn default() -> (r: Self)
        ensures
            r.font is None,
            !r.bottom,
            r.case_insensitive,
            r.height == 24u32,
            r.lines == 15u32,
            r.monitor == 0u8,
            r.norm_bg is None,
            r.norm_fg is None,
            r.sel_bg is None,
            r.sel_fg is None,
    {
        DmenuSettings {
            font: None,
            bottom: false,
            case_insensitive: true,
            height: 24,
            lines: 15,
            monitor: 0,
            norm_bg: None,
            norm_fg: None,
            sel_bg: None,
            sel_fg: None,
        }
    }
}

/// An optional setting after normalization: an empty string means "unset".
pub open spec fn normalized(before: Option<String>, after: Option<String>) -> bool {
    match before {
        Some(v) => if v@.len() == 0 {
            after is None
        } else {
            after == Some(v)
        },
        None => after is None,
    }
}

fn normalize_field(field: &mut Option<String>)
    ensures
        normalized(*old(field), *final(field)),
{
    let clear = match field {
        Some(v) => v.as_str().is_empty(),
        None => false,
    };
    if clear {
        *field = None;
    }
}

impl Config {
    /// Normalizes the picker settings: every optional string that was set
    /// to the empty string becomes unset; everything else is untouched.
    pub fn parse(&mut self)
        ensures
            normalized(old(self).dmenu_settings.font, final(self).dmenu_settings.font),
            normalized(old(self).dmenu_settings.sel_fg, final(self).dmenu_settings.sel_fg),
            normalized(old(self).dmenu_settings.sel_bg, final(self).dmenu_settings.sel_bg),
            normalized(old(self).dmenu_settings.norm_fg, final(self).dmenu_settings.norm_fg),
            normalized(old(self).dmenu_settings.norm_bg, final(self).dmenu_settings.norm_bg),
            final(self).dmenu_settings.bottom == old(self).dmenu_settings.bottom,
            final(self).dmenu_settings.case_insensitive == old(
                self,
            ).dmenu_settings.case_insensitive,
            final(self).dmenu_settings.height == old(self).dmenu_settings.height,
            final(self).dmenu_settings.lines == old(self).dmenu_settings.lines,
            final(self).dmenu_settings.monitor == old(self).dmenu_settings.monitor,
            final(self).anime_dir == old(self).anime_dir,
    {
        normalize_field(&mut self.dmenu_settings.font);
        normalize_field(&mut self.dmenu_settings.sel_fg);
        normalize_field(&mut self.dmenu_settings.sel_bg);
        normalize_field(&mut self.dmenu_settings.norm_fg);
        normalize_field(&mut self.dmenu_settings.norm_bg);
    }
}

} // verus!
