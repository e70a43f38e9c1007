//! Engine configuration: defaults, command-line overrides and validation.
use vstd::prelude::*;
use crate::error::{ConfigError, DistRenderError};
use crate::text::{parse_u32, parse_u32_spec, str_equals, string_from};

verus! {

/// Everything the engine needs to start.
#[derive(Debug, Clone)]
pub struct Config {
    pub window: WindowConfig,
    pub graphics: GraphicsConfig,
    pub logging: LoggingConfig,
}

/// The main window.
#[derive(Debug, Clone)]
pub struct WindowConfig {
    pub width: u32,
    pub height: u32,
    pub title: String,
    pub resizable: bool,
}

/// Rendering options.
#[derive(Debug, Clone)]
pub struct GraphicsConfig {
    pub backend: GraphicsBackend,
    pub vsync: bool,
    pub msaa_samples: u32,
}

/// The graphics API the renderer runs on.
#[derive(Debug, Clone, Copy, PartialEq, Eq, Structural)]
pub enum GraphicsBackend {
    Vulkan,
    Dx12,
    Wgpu,
}

/// Logging options.
#[derive(Debug, Clone)]
pub struct LoggingConfig {
    pub level: LogLevel,
    pub file_output: bool,
    pub log_file: String,
}

/// Verbosity of the log.
#[derive(Debug, Clone, Copy, PartialEq, Eq, Structural)]
pub enum LogLevel {
    Trace,
    Debug,
    Info,
    Warn,
    Error,
}

pub fn default_width() -> (r: u32)
    ensures
        r == 800,
{
    800
}

pub fn default_height() -> (r: u32)
    ensures
        r == 600,
{
    600
}

pub fn default_title() -> (r: String)
    ensures
        r@ == "DistRender"@,
{
    string_from("DistRender")
}

pub fn default_resizable() -> (r: bool)
    ensures
        r,
{
    true
}

pub fn default_backend() -> (r: GraphicsBackend)
    ensures
        r == GraphicsBackend::Vulkan,
{
    GraphicsBackend::Vulkan
}

pub fn default_vsync() -> (r: bool)
    ensures
        r,
{
    true
}

pub fn default_msaa() -> (r: u32)
    ensures
        r == 1,
{
    1
}

pub fn default_log_level() -> (r: LogLevel)
    ensures
        r == LogLevel::Info,
{
    LogLevel::Info
}

pub fn default_file_output() -> (r: bool)
    ensures
        !r,
{
    false
}

pub fn default_log_file() -> (r: String)
    ensures
        r@ == "distrender.log"@,
{
    string_from("distrender.log")
}

pub open spec fn is_default_window(w: WindowConfig) -> bool {
    &&& w.width == 800
    &&& w.height == 600
    &&& w.title@ == "DistRender"@
    &&& w.resizable
}

pub open spec fn is_default_graphics(g: GraphicsConfig) -> bool {
    &&& g.backend == GraphicsBackend::Vulkan
    &&& g.vsync
    &&& g.msaa_samples == 1
}

pub open spec fn is_default_logging(l: LoggingConfig) -> bool {
    &&& l.level == LogLevel::Info
    &&& !l.file_output
    &&& l.log_file@ == "distrender.log"@
}

pub open spec fn is_default_config(c: Config) -> bool {
    &&& is_default_window(c.window)
    &&& is_default_graphics(c.graphics)
    &&& is_default_logging(c.logging)
}

impl Default for WindowConfig {
    fn default() -> (r: Self)
        ensures
            is_default_window(r),
    {
        WindowConfig {
            width: default_width(),
            height: default_height(),
            title: default_title(),
            resizable: default_resizable(),
        }
    }
}

impl Default for GraphicsConfig {
    fn default() -> (r: Self)
        ensures
            is_default_graphics(r),
    {
        GraphicsConfig {
            backend: default_backend(),
            vsync: default_vsync(),
            msaa_samples: default_msaa(),
        }
    }
}

impl Default for LoggingConfig {
    fn default() -> (r: Self)
        ensures
            is_default_logging(r),
    {
        LoggingConfig {
            level: default_log_level(),
            file_output: default_file_output(),
            log_file: default_log_file(),
        }
    }
}

impl Default for Config {
    fn default() -> (r: Self)
        ensures
            is_default_config(r),
    {
        Config {
            window: WindowConfig::default(),
            graphics: GraphicsConfig::default(),
            logging: LoggingConfig::default(),
        }
    }
}

// ---------------------------------------------------------------------------
// Command-line overrides
// ---------------------------------------------------------------------------

/// Some argument is exactly `flag`.
pub open spec fn has_arg(args: Seq<String>, flag: Seq<char>) -> bool {
    exists|i: int| 0 <= i < args.len() && args[i]@ == flag
}

/// `i` is the first argument that is exactly `flag`.
pub open spec fn is_first_position(args: Seq<String>, flag: Seq<char>, i: int) -> bool {
    &&& 0 <= i < args.len()
    &&& args[i]@ == flag
    &&& forall|j: int| 0 <= j < i ==> args[j]@ != flag
}

/// The first argument that is exactly `flag`, if any.
pub open spec fn first_position(args: Seq<String>, flag: Seq<char>) -> Option<int> {
    if has_arg(args, flag) {
        Some(choose|i: int| is_first_position(args, flag, i))
    } else {
        None
    }
}

/// The number that follows the first `flag`, when there is a next argument and
/// it parses as a `u32`.
pub open spec fn flag_value(args: Seq<String>, flag: Seq<char>) -> Option<u32> {
    match first_position(args, flag) {
        Some(i) => if i + 1 < args.len() {
            parse_u32_spec(args[i + 1]@)
        } else {
            None
        },
        None => None,
    }
}

/// `--wgpu` wins over `--dx12`; without either the backend stays.
pub open spec fn backend_after_args(backend: GraphicsBackend, args: Seq<String>) -> GraphicsBackend {
    if has_arg(args, "--wgpu"@) {
        GraphicsBackend::Wgpu
    } else if has_arg(args, "--dx12"@) {
        GraphicsBackend::Dx12
    } else {
        backend
    }
}

pub open spec fn override_u32(value: Option<u32>, current: u32) -> u32 {
    match value {
        Some(v) => v,
        None => current,
    }
}

/// The configuration after the command line `args` has been applied to `c`.
pub open spec fn config_after_args(c: Config, args: Seq<String>) -> Config {
    Config {
        window: WindowConfig {
            width: override_u32(flag_value(args, "--width"@), c.window.width),
            height: override_u32(flag_value(args, "--height"@), c.window.height),
            ..c.window
        },
        graphics: GraphicsConfig {
            backend: backend_after_args(c.graphics.backend, args),
            ..c.graphics
        },
        ..c
    }
}

proof fn lemma_first_position(args: Seq<String>, flag: Seq<char>, i: int)
    requires
        is_first_position(args, flag, i),
    ensures
        first_position(args, flag) == Some(i),
{
    assert(has_arg(args, flag));
    let k = choose|k: int| is_first_position(args, flag, k);
    assert(is_first_position(args, flag, k));
    if k < i {
        assert(args[k]@ != flag);
    }
    if i < k {
        assert(args[i]@ != flag);
    }
}

/// Index of the first argument equal to `flag`.
fn find_arg(args: &[String], flag: &str) -> (r: Option<usize>)
    ensures
        match r {
            Some(i) => is_first_position(args@, flag@, i as int) && first_position(args@, flag@)
                == Some(i as int),
            None => !has_arg(args@, flag@) && first_position(args@, flag@) is None,
        },
{
    let mut i: usize = 0;
    while i < args.len()
        invariant
            i <= args@.len(),
            forall|j: int| 0 <= j < i ==> args@[j]@ != flag@,
        decreases args@.len() - i,
    {
        if str_equals(args[i].as_str(), flag) {
            proof {
                lemma_first_position(args@, flag@, i as int);
            }
            return Some(i);
        }
        i = i + 1;
    }
    None
}

/// The `u32` that follows the first `flag`, as [`flag_value`] says.
fn find_flag_value(args: &[String], flag: &str) -> (r: Option<u32>)
    ensures
        r == flag_value(args@, flag@),
{
    match find_arg(args, flag) {
        Some(idx) => {
            let n = args.len();
            if idx < n - 1 {
                parse_u32(args[idx + 1].as_str())
            } else {
                None
            }
        },
        None => None,
    }
}

/// `validate` succeeds exactly on these.
pub open spec fn msaa_supported(samples: u32) -> bool {
    samples == 1 || samples == 2 || samples == 4 || samples == 8 || samples == 16
}

pub open spec fn config_is_valid(c: Config) -> bool {
    &&& c.window.width > 0
    &&& c.window.height > 0
    &&& msaa_supported(c.graphics.msaa_samples)
}

/// `r` is the configuration error "invalid value" for `field`, because of `reason`.
pub open spec fn is_invalid_value(
    r: Result<(), DistRenderError>,
    field: Seq<char>,
    reason: Seq<char>,
) -> bool {
    match r {
        Err(DistRenderError::Config(ConfigError::InvalidValue { field: f, reason: why })) => f@
            == field && why@ == reason,
        _ => false,
    }
}

pub open spec fn backend_name(b: GraphicsBackend) -> Seq<char> {
    match b {
        GraphicsBackend::Vulkan => "Vulkan"@,
        GraphicsBackend::Dx12 => "DirectX 12"@,
        GraphicsBackend::Wgpu => "wgpu"@,
    }
}

impl Config {
    /// The configuration that was loaded, or the default one when loading failed.
    pub fn from_file_or_default(loaded: Result<Config, DistRenderError>) -> (r: Config)
        ensures
            match loaded {
                Ok(c) => r == c,
                Err(_) => is_default_config(r),
            },
    {
        match loaded {
            Ok(c) => c,
            Err(_) => Config::default(),
        }
    }

    /// Applies the command line: `--dx12` and `--wgpu` choose the backend
    /// (`--wgpu` wins), `--width N` and `--height N` set the window size when
    /// `N` parses as a `u32`. Other arguments are ignored.
    pub fn apply_args(&mut self, args: &[String])
        ensures
            *final(self) == config_after_args(*old(self), args@),
    {
        if find_arg(args, "--dx12").is_some() {
            self.graphics.backend = GraphicsBackend::Dx12;
        }
        if find_arg(args, "--wgpu").is_some() {
            self.graphics.backend = GraphicsBackend::Wgpu;
        }
        if let Some(width) = find_flag_value(args, "--width") {
            self.window.width = width;
        }
        if let Some(height) = find_flag_value(args, "--height") {
            self.window.height = height;
        }
    }

    /// Checks the window size and the MSAA sample count.
    pub fn validate(&self) -> (r: Result<(), DistRenderError>)
        ensures
            r is Ok <==> config_is_valid(*self),
            self.window.width == 0 || self.window.height == 0 ==> is_invalid_value(
                r,
                "window.width/height"@,
                "Window dimensions must be greater than 0"@,
            ),
            self.window.width > 0 && self.window.height > 0 && !msaa_supported(
                self.graphics.msaa_samples,
            ) ==> is_invalid_value(
                r,
                "graphics.msaa_samples"@,
                "MSAA samples must be 1, 2, 4, 8, or 16"@,
            ),
    {
        if self.window.width == 0 || self.window.height == 0 {
            return Err(
                DistRenderError::Config(
                    ConfigError::InvalidValue {
                        field: string_from("window.width/height"),
                        reason: string_from("Window dimensions must be greater than 0"),
                    },
                ),
            );
        }
        let m = self.graphics.msaa_samples;
        if !(m == 1 || m == 2 || m == 4 || m == 8 || m == 16) {
            return Err(
                DistRenderError::Config(
                    ConfigError::InvalidValue {
                        field: string_from("graphics.msaa_samples"),
                        reason: string_from("MSAA samples must be 1, 2, 4, 8, or 16"),
                    },
                ),
            );
        }
        Ok(())
    }
}

/// Applying the same command line a second time changes nothing.
pub proof fn lemma_apply_args_idempotent(c: Config, args: Seq<String>)
    ensures
        config_after_args(config_after_args(c, args), args) == config_after_args(c, args),
{
}

/// A command line without `--dx12`, `--wgpu`, `--width` or `--height` leaves
/// the configuration as it is.
pub proof fn lemma_other_args_change_nothing(c: Config, args: Seq<String>)
    requires
        !has_arg(args, "--dx12"@),
        !has_arg(args, "--wgpu"@),
        !has_arg(args, "--width"@),
        !has_arg(args, "--height"@),
    ensures
        config_after_args(c, args) == c,
{
}

impl GraphicsBackend {
    pub fn is_dx12(&self) -> (r: bool)
        ensures
            r <==> *self == GraphicsBackend::Dx12,
    {
        matches!(self, GraphicsBackend::Dx12)
    }

    pub fn is_vulkan(&self) -> (r: bool)
        ensures
            r <==> *self == GraphicsBackend::Vulkan,
    {
        matches!(self, GraphicsBackend::Vulkan)
    }

    pub fn is_wgpu(&self) -> (r: bool)
        ensures
            r <==> *self == GraphicsBackend::Wgpu,
    {
        matches!(self, GraphicsBackend::Wgpu)
    }

    /// Display name of the backend.
    pub fn name(&self) -> (r: &'static str)
        ensures
            r@ == backend_name(*self),
    {
        match self {
            GraphicsBackend::Vulkan => "Vulkan",
            GraphicsBackend::Dx12 => "DirectX 12",
            GraphicsBackend::Wgpu => "wgpu",
        }
    }
}

} // verus!
