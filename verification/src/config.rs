//! Configuration of the shell: defaults, the colour palettes of the theme, and
//! where the configuration and cache live.
use vstd::prelude::*;

verus! {

/// `directories::ProjectDirs`: the directories of the project on this system.
#[verifier::external_type_specification]
#[verifier::external_body]
pub struct ExProjectDirs(directories::ProjectDirs);

/// `std::path::PathBuf`: a path on this system.
#[verifier::external_type_specification]
#[verifier::external_body]
pub struct ExPathBuf(std::path::PathBuf);

/// Why a directory of the shell cannot be found.
#[derive(Clone, Debug, PartialEq, Eq)]
pub enum ConfigError {
    NotFound(String),
}

/// Settings of the clock widget.
#[derive(Clone, Debug, PartialEq, Eq)]
pub struct ClockConfig {
    /// The `strftime`-like format of the time.
    pub format: String,
}

/// Settings of the wallpaper.
#[derive(Clone, Debug, PartialEq, Eq)]
pub struct WallpaperConfig {
    pub path: Option<String>,
    /// Background colour as `0xAARRGGBB`.
    pub bg: u32,
}

/// Light or dark appearance.
#[derive(Clone, Copy, Debug, PartialEq, Eq, Structural)]
pub enum ThemeMode {
    Dark,
    Light,
    System,
}

/// A Base16 palette: sixteen colours as `0xRRGGBB`.
#[derive(Clone, Copy, Debug, PartialEq, Eq, Structural)]
pub struct Base16Config {
    pub base00: u32,
    pub base01: u32,
    pub base02: u32,
    pub base03: u32,
    pub base04: u32,
    pub base05: u32,
    pub base06: u32,
    pub base07: u32,
    pub base08: u32,
    pub base09: u32,
    pub base0a: u32,
    pub base0b: u32,
    pub base0c: u32,
    pub base0d: u32,
    pub base0e: u32,
    pub base0f: u32,
}

/// The theme: its mode and a palette for each appearance.
#[derive(Clone, Copy, Debug, PartialEq, Eq, Structural)]
pub struct ThemeConfig {
    pub mode: ThemeMode,
    pub dark: Base16Config,
    pub light: Base16Config,
}

pub open spec fn dark_palette() -> Base16Config {
    Base16Config {
        base00: 0x0a0c10,
        base01: 0x272b33,
        base02: 0x7a828e,
        base03: 0x9ea7b3,
        base04: 0xbdc4cc,
        base05: 0xf0f3f6,
        base06: 0xffffff,
        base07: 0xffffff,
        base08: 0xffb757,
        base09: 0x91cbff,
        base0a: 0xe09b13,
        base0b: 0xaddcff,
        base0c: 0x72f088,
        base0d: 0xdbb7ff,
        base0e: 0xff9492,
        base0f: 0xffb1af,
    }
}

pub open spec fn light_palette() -> Base16Config {
    Base16Config {
        base00: 0xffffff,
        base01: 0xe7ecf0,
        base02: 0xacb6c0,
        base03: 0x88929d,
        base04: 0x66707b,
        base05: 0x343b43,
        base06: 0x20252c,
        base07: 0x0e1116,
        base08: 0x702c00,
        base09: 0x023b95,
        base0a: 0x956400,
        base0b: 0x032563,
        base0c: 0x024c1a,
        base0d: 0x622cbc,
        base0e: 0xa0111f,
        base0f: 0x6e011a,
    }
}

impl Base16Config {
    /// The default dark palette.
    pub fn default_dark() -> (r: Base16Config)
        ensures
            r == dark_palette(),
    {
        Base16Config {
            base00: 0x0a0c10,
            base01: 0x272b33,
            base02: 0x7a828e,
            base03: 0x9ea7b3,
            base04: 0xbdc4cc,
            base05: 0xf0f3f6,
            base06: 0xffffff,
            base07: 0xffffff,
            base08: 0xffb757,
            base09: 0x91cbff,
            base0a: 0xe09b13,
            base0b: 0xaddcff,
            base0c: 0x72f088,
            base0d: 0xdbb7ff,
            base0e: 0xff9492,
            base0f: 0xffb1af,
        }
    }

    /// The default light palette.
    pub fn default_light() -> (r: Base16Config)
        ensures
            r == light_palette(),
    {
        Base16Config {
            base00: 0xffffff,
            base01: 0xe7ecf0,
            base02: 0xacb6c0,
            base03: 0x88929d,
            base04: 0x66707b,
            base05: 0x343b43,
            base06: 0x20252c,
            base07: 0x0e1116,
            base08: 0x702c00,
            base09: 0x023b95,
            base0a: 0x956400,
            base0b: 0x032563,
            base0c: 0x024c1a,
            base0d: 0x622cbc,
            base0e: 0xa0111f,
            base0f: 0x6e011a,
        }
    }
}

impl Default for ThemeMode {
    fn default() -> (r: ThemeMode)
        ensures
            r == ThemeMode::Dark,
    {
        ThemeMode::Dark
    }
}

impl Default for ThemeConfig {
    fn default() -> (r: ThemeConfig)
        ensures
            r == (ThemeConfig { mode: ThemeMode::Dark, dark: dark_palette(), light: light_palette() }),
    {
        ThemeConfig { mode: ThemeMode::Dark, dark: Base16Config::default_dark(), light: Base16Config::default_light() }
    }
}

impl ThemeConfig {
    /// The palette of the configured appearance. Following the system
    /// appearance is not supported.
    pub fn palette(&self) -> (r: &Base16Config)
        requires
            self.mode != ThemeMode::System,
        ensures
            *r == if self.mode == ThemeMode::Dark {
                self.dark
            } else {
                self.light
            },
    {
        match self.mode {
            ThemeMode::Dark => &self.dark,
            _ => &self.light,
        }
    }
}

impl Default for ClockConfig {
    fn default() -> (r: ClockConfig)
        ensures
            r.format@ == "%H:%M"@,
    {
        ClockConfig { format: "%H:%M".to_owned() }
    }
}

impl Default for WallpaperConfig {
    fn default() -> (r: WallpaperConfig)
        ensures
            r.path is None,
            r.bg == 0,
    {
        WallpaperConfig { path: None, bg: 0x0000_0000 }
    }
}

/// `directories::ProjectDirs::from(qualifier, organization, application)`: the
/// directories of an application, or `None` where the system has no home
/// directory. Nothing is stated of the result: it depends on the environment.
#[verifier::external_body]
fn project_dirs(qualifier: &str, organization: &str, application: &str) -> (r: Option<directories::ProjectDirs>) {
    directories::ProjectDirs::from(qualifier, organization, application)
}

/// `directories::ProjectDirs::config_dir`, copied into a `PathBuf`. The path is
/// opaque here.
#[verifier::external_body]
fn config_path(dirs: &directories::ProjectDirs) -> (r: std::path::PathBuf) {
    dirs.config_dir().to_path_buf()
}

/// `directories::ProjectDirs::cache_dir`, copied into a `PathBuf`. The path is
/// opaque here.
#[verifier::external_body]
fn cache_path(dirs: &directories::ProjectDirs) -> (r: std::path::PathBuf) {
    dirs.cache_dir().to_path_buf()
}

/// The directories of the shell on this system, following the XDG base
/// directory specification: those of the application `ghost-shell` of
/// organization `thatwhichis`, qualifier `dev`. Whether
/// they exist depends on the environment.
pub fn project_dir() -> (r: Option<directories::ProjectDirs>) {
    let qualifier = "dev";
    let organization = "thatwhichis";
    let application = "ghost-shell";
    project_dirs(qualifier, organization, application)
}

/// The configuration directory among the given project directories.
pub fn config_dir_of(dirs: &Option<directories::ProjectDirs>) -> (r: Result<std::path::PathBuf, ConfigError>)
    ensures
        r is Ok <==> dirs is Some,
        r matches Err(ConfigError::NotFound(m)) ==> m@ == "app config dir doesn't exist"@,
{
    match dirs {
        Some(d) => Ok(config_path(d)),
        None => Err(ConfigError::NotFound("app config dir doesn't exist".to_owned())),
    }
}

/// The cache directory among the given project directories.
pub fn cache_dir_of(dirs: &Option<directories::ProjectDirs>) -> (r: Result<std::path::PathBuf, ConfigError>)
    ensures
        r is Ok <==> dirs is Some,
        r matches Err(ConfigError::NotFound(m)) ==> m@ == "app cache dir doesn't exist"@,
{
    match dirs {
        Some(d) => Ok(cache_path(d)),
        None => Err(ConfigError::NotFound("app cache dir doesn't exist".to_owned())),
    }
}

/// The configuration directory of the shell.
pub fn config_dir() -> (r: Result<std::path::PathBuf, ConfigError>)
    ensures
        r matches Err(ConfigError::NotFound(m)) ==> m@ == "app config dir doesn't exist"@,
{
    config_dir_of(&project_dir())
}

/// The cache directory of the shell.
pub fn cache_dir() -> (r: Result<std::path::PathBuf, ConfigError>)
    ensures
        r matches Err(ConfigError::NotFound(m)) ==> m@ == "app cache dir doesn't exist"@,
{
    cache_dir_of(&project_dir())
}

} // verus!
