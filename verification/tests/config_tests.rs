use dist_render::config::{Config, GraphicsBackend, LogLevel};
use dist_render::error::{ConfigError, DistRenderError};
use dist_render::runtime::{init_renderer_backend, renderer_backend, RendererBackendKind};

#[test]
fn test_default_config() {
    let config = Config::default();
    assert_eq!(config.window.width, 800);
    assert_eq!(config.window.height, 600);
    assert_eq!(config.graphics.backend, GraphicsBackend::Vulkan);
}

#[test]
fn test_config_validation() {
    let mut config = Config::default();
    assert!(config.validate().is_ok());

    config.window.width = 0;
    assert!(config.validate().is_err());
}

fn args(list: &[&str]) -> Vec<String> {
    list.iter().map(|s| s.to_string()).collect()
}

#[test]
fn default_config_other_fields() {
    let config = Config::default();
    assert_eq!(config.window.title, "DistRender");
    assert!(config.window.resizable);
    assert!(config.graphics.vsync);
    assert_eq!(config.graphics.msaa_samples, 1);
    assert_eq!(config.logging.level, LogLevel::Info);
    assert!(!config.logging.file_output);
    assert_eq!(config.logging.log_file, "distrender.log");
}

#[test]
fn apply_args_sets_backend_and_size() {
    let mut config = Config::default();
    config.apply_args(&args(&["renderer", "--dx12", "--width", "1280", "--height", "720"]));
    assert_eq!(config.graphics.backend, GraphicsBackend::Dx12);
    assert_eq!(config.window.width, 1280);
    assert_eq!(config.window.height, 720);
}

#[test]
fn apply_args_wgpu_wins_over_dx12() {
    let mut config = Config::default();
    config.apply_args(&args(&["--wgpu", "--dx12"]));
    assert_eq!(config.graphics.backend, GraphicsBackend::Wgpu);
}

#[test]
fn apply_args_ignores_bad_numbers() {
    let mut config = Config::default();
    config.apply_args(&args(&["--width", "wide", "--height"]));
    assert_eq!(config.window.width, 800);
    assert_eq!(config.window.height, 600);
    config.apply_args(&args(&["--width", "+42"]));
    assert_eq!(config.window.width, 42);
    config.apply_args(&args(&["--width", "4294967296"]));
    assert_eq!(config.window.width, 42);
}

#[test]
fn apply_args_uses_first_flag_only() {
    let mut config = Config::default();
    config.apply_args(&args(&["--width", "x", "--width", "100"]));
    assert_eq!(config.window.width, 800);
}

#[test]
fn apply_args_twice_is_the_same_as_once() {
    let list = args(&["--wgpu", "--width", "1024", "--height", "768"]);
    let mut once = Config::default();
    once.apply_args(&list);
    let mut twice = once.clone();
    twice.apply_args(&list);
    assert_eq!(once.window.width, twice.window.width);
    assert_eq!(once.window.height, twice.window.height);
    assert_eq!(once.graphics.backend, twice.graphics.backend);
}

#[test]
fn validate_rejects_zero_height_with_message() {
    let mut config = Config::default();
    config.window.height = 0;
    match config.validate() {
        Err(DistRenderError::Config(ConfigError::InvalidValue { field, reason })) => {
            assert_eq!(field, "window.width/height");
            assert_eq!(reason, "Window dimensions must be greater than 0");
        }
        _ => panic!("expected an invalid window size"),
    }
}

#[test]
fn validate_checks_msaa() {
    let mut config = Config::default();
    for samples in [1u32, 2, 4, 8, 16] {
        config.graphics.msaa_samples = samples;
        assert!(config.validate().is_ok());
    }
    config.graphics.msaa_samples = 3;
    match config.validate() {
        Err(DistRenderError::Config(ConfigError::InvalidValue { field, reason })) => {
            assert_eq!(field, "graphics.msaa_samples");
            assert_eq!(reason, "MSAA samples must be 1, 2, 4, 8, or 16");
        }
        _ => panic!("expected an invalid sample count"),
    }
}

#[test]
fn from_file_or_default_falls_back() {
    let failed: Result<Config, DistRenderError> =
        Err(DistRenderError::Config(ConfigError::FileNotFound("missing.toml".to_string())));
    let config = Config::from_file_or_default(failed);
    assert_eq!(config.window.width, 800);

    let mut custom = Config::default();
    custom.window.width = 1920;
    let config = Config::from_file_or_default(Ok(custom));
    assert_eq!(config.window.width, 1920);
}

#[test]
fn backend_names() {
    assert_eq!(GraphicsBackend::Vulkan.name(), "Vulkan");
    assert_eq!(GraphicsBackend::Dx12.name(), "DirectX 12");
    assert_eq!(GraphicsBackend::Wgpu.name(), "wgpu");
    assert!(GraphicsBackend::Dx12.is_dx12());
    assert!(GraphicsBackend::Vulkan.is_vulkan());
    assert!(GraphicsBackend::Wgpu.is_wgpu());
    assert!(!GraphicsBackend::Wgpu.is_vulkan());
}

#[test]
fn renderer_backend_is_recorded_once() {
    let mut slot = None;
    assert_eq!(renderer_backend(&slot), None);
    init_renderer_backend(&mut slot, GraphicsBackend::Dx12);
    assert_eq!(renderer_backend(&slot), Some(RendererBackendKind::Dx12));
    init_renderer_backend(&mut slot, GraphicsBackend::Wgpu);
    assert_eq!(renderer_backend(&slot), Some(RendererBackendKind::Dx12));
}

#[test]
fn unrelated_args_leave_config_alone() {
    let mut config = Config::default();
    config.apply_args(&args(&["renderer", "--fullscreen", "--scene", "a.ron", "--mesh-scale", "2"]));
    assert_eq!(config.window.width, 800);
    assert_eq!(config.window.height, 600);
    assert_eq!(config.graphics.backend, GraphicsBackend::Vulkan);
}
