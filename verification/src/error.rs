//! Error types of the engine and the messages they render to.
use vstd::prelude::*;
use vstd::std_specs::convert::FromSpecImpl;
use crate::text::{string_append, string_from};

verus! {

/// `std::io::Error` is carried through unchanged inside [`DistRenderError::Io`].
#[verifier::external_type_specification]
#[verifier::external_body]
pub struct ExIoError(std::io::Error);

/// Every error the engine reports.
#[derive(Debug)]
pub enum DistRenderError {
    Config(ConfigError),
    Graphics(GraphicsError),
    MeshLoading(MeshLoadError),
    Io(std::io::Error),
    Log(String),
    Initialization(String),
    Runtime(String),
}

/// Errors while reading or checking the configuration.
#[derive(Debug, Clone)]
pub enum ConfigError {
    FileNotFound(String),
    ParseError(String),
    MissingField(String),
    InvalidValue { field: String, reason: String },
}

/// Errors raised by a graphics backend.
#[derive(Debug, Clone)]
pub enum GraphicsError {
    DeviceCreation(String),
    SwapchainError(String),
    ShaderCompilation(String),
    ResourceCreation(String),
    CommandExecution(String),
}

/// Errors while loading a mesh.
///
/// The missing file is named by its path, written as text.
#[derive(Debug, Clone)]
pub enum MeshLoadError {
    FileNotFound(String),
    UnsupportedFormat(String),
    ParseError(String),
    ValidationError(String),
    InvalidGeometry(String),
    ExternalLibraryError(String),
}

/// The message of a configuration error.
pub open spec fn config_error_text(e: ConfigError) -> Seq<char> {
    match e {
        ConfigError::FileNotFound(path) => "Config file not found: "@ + path@,
        ConfigError::ParseError(msg) => "Failed to parse config: "@ + msg@,
        ConfigError::MissingField(field) => "Missing required field: "@ + field@,
        ConfigError::InvalidValue { field, reason } => "Invalid value for '"@ + field@ + "': "@
            + reason@,
    }
}

/// The message of a graphics error.
pub open spec fn graphics_error_text(e: GraphicsError) -> Seq<char> {
    match e {
        GraphicsError::DeviceCreation(msg) => "Device creation failed: "@ + msg@,
        GraphicsError::SwapchainError(msg) => "Swapchain error: "@ + msg@,
        GraphicsError::ShaderCompilation(msg) => "Shader compilation failed: "@ + msg@,
        GraphicsError::ResourceCreation(msg) => "Resource creation failed: "@ + msg@,
        GraphicsError::CommandExecution(msg) => "Command execution failed: "@ + msg@,
    }
}

/// The message of a mesh loading error.
pub open spec fn mesh_load_error_text(e: MeshLoadError) -> Seq<char> {
    match e {
        MeshLoadError::FileNotFound(path) => "Mesh file not found: "@ + path@,
        MeshLoadError::UnsupportedFormat(msg) => "Unsupported mesh format: "@ + msg@,
        MeshLoadError::ParseError(msg) => "Failed to parse mesh: "@ + msg@,
        MeshLoadError::ValidationError(msg) => "Mesh validation failed: "@ + msg@,
        MeshLoadError::InvalidGeometry(msg) => "Invalid geometry data: "@ + msg@,
        MeshLoadError::ExternalLibraryError(msg) => "External library error: "@ + msg@,
    }
}

/// The message of an engine error, for every variant but `Io`, whose text
/// comes from the operating system.
pub open spec fn dist_error_text(e: DistRenderError) -> Seq<char> {
    match e {
        DistRenderError::Config(inner) => "Configuration error: "@ + config_error_text(inner),
        DistRenderError::Graphics(inner) => "Graphics error: "@ + graphics_error_text(inner),
        DistRenderError::MeshLoading(inner) => "Mesh loading error: "@ + mesh_load_error_text(inner),
        DistRenderError::Io(_) => "IO error: "@,
        DistRenderError::Log(msg) => "Log error: "@ + msg@,
        DistRenderError::Initialization(msg) => "Initialization error: "@ + msg@,
        DistRenderError::Runtime(msg) => "Runtime error: "@ + msg@,
    }
}

/// `prefix` followed by `body`, as a new `String`.
fn prefixed(prefix: &str, body: &str) -> (r: String)
    ensures
        r@ == prefix@ + body@,
{
    let mut s = string_from(prefix);
    string_append(&mut s, body);
    s
}

impl ConfigError {
    /// The human-readable message of the error.
    pub fn message(&self) -> (r: String)
        ensures
            r@ == config_error_text(*self),
    {
        match self {
            ConfigError::FileNotFound(path) => prefixed("Config file not found: ", path.as_str()),
            ConfigError::ParseError(msg) => prefixed("Failed to parse config: ", msg.as_str()),
            ConfigError::MissingField(field) => prefixed("Missing required field: ", field.as_str()),
            ConfigError::InvalidValue { field, reason } => {
                let mut s = prefixed("Invalid value for '", field.as_str());
                string_append(&mut s, "': ");
                string_append(&mut s, reason.as_str());
                s
            },
        }
    }
}

impl GraphicsError {
    /// The human-readable message of the error.
    pub fn message(&self) -> (r: String)
        ensures
            r@ == graphics_error_text(*self),
    {
        match self {
            GraphicsError::DeviceCreation(msg) => prefixed("Device creation failed: ", msg.as_str()),
            GraphicsError::SwapchainError(msg) => prefixed("Swapchain error: ", msg.as_str()),
            GraphicsError::ShaderCompilation(msg) => prefixed(
                "Shader compilation failed: ",
                msg.as_str(),
            ),
            GraphicsError::ResourceCreation(msg) => prefixed(
                "Resource creation failed: ",
                msg.as_str(),
            ),
            GraphicsError::CommandExecution(msg) => prefixed(
                "Command execution failed: ",
                msg.as_str(),
            ),
        }
    }
}

impl MeshLoadError {
    /// The human-readable message of the error.
    pub fn message(&self) -> (r: String)
        ensures
            r@ == mesh_load_error_text(*self),
    {
        match self {
            MeshLoadError::FileNotFound(path) => prefixed("Mesh file not found: ", path.as_str()),
            MeshLoadError::UnsupportedFormat(msg) => prefixed(
                "Unsupported mesh format: ",
                msg.as_str(),
            ),
            MeshLoadError::ParseError(msg) => prefixed("Failed to parse mesh: ", msg.as_str()),
            MeshLoadError::ValidationError(msg) => prefixed(
                "Mesh validation failed: ",
                msg.as_str(),
            ),
            MeshLoadError::InvalidGeometry(msg) => prefixed("Invalid geometry data: ", msg.as_str()),
            MeshLoadError::ExternalLibraryError(msg) => prefixed(
                "External library error: ",
                msg.as_str(),
            ),
        }
    }
}

impl DistRenderError {
    /// The human-readable message of the error. For `Io` the text after the
    /// prefix is the operating system's description of the error.
    pub fn message(&self) -> (r: String)
        ensures
            !(*self is Io) ==> r@ == dist_error_text(*self),
            *self is Io ==> exists|t: Seq<char>| r@ == dist_error_text(*self) + t,
    {
        match self {
            DistRenderError::Config(e) => {
                let inner = e.message();
                prefixed("Configuration error: ", inner.as_str())
            },
            DistRenderError::Graphics(e) => {
                let inner = e.message();
                prefixed("Graphics error: ", inner.as_str())
            },
            DistRenderError::MeshLoading(e) => {
                let inner = e.message();
                prefixed("Mesh loading error: ", inner.as_str())
            },
            DistRenderError::Io(e) => {
                let inner = e.to_string();
                let r = prefixed("IO error: ", inner.as_str());
                assert(r@ == dist_error_text(*self) + inner@);
                r
            },
            DistRenderError::Log(msg) => prefixed("Log error: ", msg.as_str()),
            DistRenderError::Initialization(msg) => prefixed("Initialization error: ", msg.as_str()),
            DistRenderError::Runtime(msg) => prefixed("Runtime error: ", msg.as_str()),
        }
    }
}

impl From<std::io::Error> for DistRenderError {
    fn from(err: std::io::Error) -> (r: Self) {
        DistRenderError::Io(err)
    }
}

impl FromSpecImpl<std::io::Error> for DistRenderError {
    open spec fn obeys_from_spec() -> bool {
        true
    }

    open spec fn from_spec(v: std::io::Error) -> Self {
        DistRenderError::Io(v)
    }
}

impl From<ConfigError> for DistRenderError {
    fn from(err: ConfigError) -> (r: Self) {
        DistRenderError::Config(err)
    }
}

impl FromSpecImpl<ConfigError> for DistRenderError {
    open spec fn obeys_from_spec() -> bool {
        true
    }

    open spec fn from_spec(v: ConfigError) -> Self {
        DistRenderError::Config(v)
    }
}

impl From<GraphicsError> for DistRenderError {
    fn from(err: GraphicsError) -> (r: Self) {
        DistRenderError::Graphics(err)
    }
}

impl FromSpecImpl<GraphicsError> for DistRenderError {
    open spec fn obeys_from_spec() -> bool {
        true
    }

    open spec fn from_spec(v: GraphicsError) -> Self {
        DistRenderError::Graphics(v)
    }
}

impl From<MeshLoadError> for DistRenderError {
    fn from(err: MeshLoadError) -> (r: Self) {
        DistRenderError::MeshLoading(err)
    }
}

impl FromSpecImpl<MeshLoadError> for DistRenderError {
    open spec fn obeys_from_spec() -> bool {
        true
    }

    open spec fn from_spec(v: MeshLoadError) -> Self {
        DistRenderError::MeshLoading(v)
    }
}

} // verus!
