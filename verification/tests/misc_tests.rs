use dist_render::gpu_memory::get_memory_type_index;
use dist_render::light::LightType;

#[test]
fn memory_type_selection() {
    let flags = [0b001, 0b110, 0b111, 0b010];
    assert_eq!(get_memory_type_index(&flags, 0b1111, 0b010), Some(1));
    assert_eq!(get_memory_type_index(&flags, 0b1101, 0b010), Some(2));
    assert_eq!(get_memory_type_index(&flags, 0b0001, 0b010), None);
    assert_eq!(get_memory_type_index(&[], 0xFFFF_FFFF, 0), None);
}

#[test]
fn light_types_compare() {
    assert_ne!(LightType::Point, LightType::Spot);
    assert_eq!(LightType::Directional, LightType::Directional);
}
