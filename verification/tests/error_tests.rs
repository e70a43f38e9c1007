use dist_render::error::{ConfigError, DistRenderError, GraphicsError, MeshLoadError};

#[test]
fn config_error_messages() {
    assert_eq!(
        ConfigError::FileNotFound("a.toml".to_string()).message(),
        "Config file not found: a.toml"
    );
    assert_eq!(
        ConfigError::InvalidValue { field: "f".to_string(), reason: "r".to_string() }.message(),
        "Invalid value for 'f': r"
    );
}

#[test]
fn nested_error_messages() {
    let e = DistRenderError::from(ConfigError::ParseError("bad".to_string()));
    assert_eq!(e.message(), "Configuration error: Failed to parse config: bad");
    let e = DistRenderError::from(MeshLoadError::UnsupportedFormat("x".to_string()));
    assert_eq!(e.message(), "Mesh loading error: Unsupported mesh format: x");
    let e = DistRenderError::from(GraphicsError::SwapchainError("lost".to_string()));
    assert_eq!(e.message(), "Graphics error: Swapchain error: lost");
    assert_eq!(DistRenderError::Runtime("stop".to_string()).message(), "Runtime error: stop");
}

#[test]
fn io_error_message_has_prefix() {
    let io = std::io::Error::new(std::io::ErrorKind::Other, "disk");
    let e = DistRenderError::from(io);
    assert!(matches!(e, DistRenderError::Io(_)));
    assert!(e.message().starts_with("IO error: "));
}
