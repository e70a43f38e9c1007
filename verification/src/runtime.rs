//! Which renderer backend the process runs on, recorded once.
use vstd::prelude::*;
use crate::config::GraphicsBackend;

verus! {

/// The renderer backend the process was started with.
#[derive(Debug, Clone, Copy, PartialEq, Eq, Structural)]
pub enum RendererBackendKind {
    Vulkan,
    Dx12,
    Wgpu,
}

pub open spec fn backend_kind(backend: GraphicsBackend) -> RendererBackendKind {
    match backend {
        GraphicsBackend::Vulkan => RendererBackendKind::Vulkan,
        GraphicsBackend::Dx12 => RendererBackendKind::Dx12,
        GraphicsBackend::Wgpu => RendererBackendKind::Wgpu,
    }
}

/// The slot after an attempt to record `backend`: a recorded backend stays.
pub open spec fn slot_after_init(
    slot: Option<RendererBackendKind>,
    backend: GraphicsBackend,
) -> Option<RendererBackendKind> {
    match slot {
        Some(kind) => Some(kind),
        None => Some(backend_kind(backend)),
    }
}

/// Records `backend` in `slot` unless a backend was recorded before.
pub fn init_renderer_backend(slot: &mut Option<RendererBackendKind>, backend: GraphicsBackend)
    ensures
        *final(slot) == slot_after_init(*old(slot), backend),
{
    let kind = match backend {
        GraphicsBackend::Vulkan => RendererBackendKind::Vulkan,
        GraphicsBackend::Dx12 => RendererBackendKind::Dx12,
        GraphicsBackend::Wgpu => RendererBackendKind::Wgpu,
    };
    if slot.is_none() {
        *slot = Some(kind);
    }
}

/// The recorded backend, if any.
pub fn renderer_backend(slot: &Option<RendererBackendKind>) -> (r: Option<RendererBackendKind>)
    ensures
        r == *slot,
{
    *slot
}

/// The first backend recorded is the one that stays: recording again changes nothing.
pub proof fn lemma_backend_recorded_once(
    slot: Option<RendererBackendKind>,
    first: GraphicsBackend,
    second: GraphicsBackend,
)
    ensures
        slot is None ==> slot_after_init(slot, first) == Some(backend_kind(first)),
        slot_after_init(slot_after_init(slot, first), second) == slot_after_init(slot, first),
{
}

/// Recording on an empty slot keeps the backend of the same name: Vulkan as
/// Vulkan, Dx12 as Dx12, wgpu as wgpu.
pub proof fn lemma_backend_recorded_by_name()
    ensures
        slot_after_init(None, GraphicsBackend::Vulkan) == Some(RendererBackendKind::Vulkan),
        slot_after_init(None, GraphicsBackend::Dx12) == Some(RendererBackendKind::Dx12),
        slot_after_init(None, GraphicsBackend::Wgpu) == Some(RendererBackendKind::Wgpu),
{
}

} // verus!
