use dist_render::text::{
    parse_u32, sanitize_ascii_label, str_eq_ignore_ascii_case, str_equals, u64_to_decimal,
};

#[test]
fn sanitize_keeps_letters_and_single_spaces() {
    assert_eq!(sanitize_ascii_label("  Hello,  World!  "), "Hello World");
    assert_eq!(sanitize_ascii_label("a.b(c)[d]_e-f"), "a b c d e f");
    assert_eq!(sanitize_ascii_label(" trailing- "), "trailing");
    assert_eq!(sanitize_ascii_label("日本"), "");
}

#[test]
fn sanitize_twice_is_sanitize_once() {
    for s in ["  x__y  ", "A-(B)-C", "", "--", "ok"] {
        let once = sanitize_ascii_label(s);
        assert_eq!(sanitize_ascii_label(&once), once);
    }
}

#[test]
fn numbers_and_comparisons() {
    assert_eq!(u64_to_decimal(0), "0");
    assert_eq!(u64_to_decimal(18446744073709551615), "18446744073709551615");
    assert_eq!(parse_u32("4294967295"), Some(4294967295));
    assert_eq!(parse_u32("4294967296"), None);
    assert_eq!(parse_u32("+7"), Some(7));
    assert_eq!(parse_u32("+"), None);
    assert_eq!(parse_u32("-0"), None);
    assert_eq!(parse_u32(""), None);
    assert!(str_eq_ignore_ascii_case("Scene", "sCENE"));
    assert!(!str_eq_ignore_ascii_case("Scene", "Scenes"));
    assert!(str_equals("abc", "abc"));
    assert!(!str_equals("abc", "abd"));
}

#[test]
fn cached_mesh_names_are_hex() {
    assert_eq!(dist_render::runtime_scene::cached_mesh_name(0x1a), "      1a");
    assert_eq!(dist_render::runtime_scene::cached_mesh_name(0xdeadbeef), "deadbeef");
    assert_eq!(
        dist_render::runtime_scene::cached_mesh_path(0x0123_4567_89ab_cdef),
        "/cache/123456789abcdef.mesh"
    );
    assert_eq!(format!("{:8.8x}", 0x1au64), "      1a");
}

#[test]
fn sanitize_keeps_the_letters_and_digits_in_order() {
    let input = "--My  Cube_(v2)!!";
    let out = sanitize_ascii_label(input);
    assert_eq!(out, "My Cube v2");
    let alnum = |s: &str| s.chars().filter(|c| c.is_ascii_alphanumeric()).collect::<String>();
    assert_eq!(alnum(&out), alnum(input));
    assert!(out.chars().count() <= input.chars().count());
    assert_eq!(sanitize_ascii_label(&out), out);
}
