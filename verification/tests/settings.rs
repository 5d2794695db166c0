use rocknpu::settings::{
    env_enabled, env_enabled_default, hilo_mode, hilo_needed, mtile_qo_group_size, mtile_scope,
    mtile_shape_enabled, w4_scope, w4a4_group_size, w4a4_shape_enabled, HiloMode, MtileScope,
    RouteEnv, RouteSettings, W4Scope,
};
use rocknpu::text::{decimal, hex_pattern, hexadecimal, parse_usize, same_text};

#[test]
fn switches_are_on_unless_empty_or_zero() {
    assert!(env_enabled(Some("1")));
    assert!(env_enabled(Some("yes")));
    assert!(!env_enabled(Some("0")));
    assert!(!env_enabled(Some("")));
    assert!(!env_enabled(None));
    assert!(env_enabled_default(None, true));
    assert!(!env_enabled_default(Some("0"), true));
}

#[test]
fn tile_scopes_name_shapes() {
    assert_eq!(mtile_scope(None), MtileScope::All);
    assert_eq!(mtile_scope(Some("")), MtileScope::All);
    assert_eq!(mtile_scope(Some("all")), MtileScope::All);
    assert_eq!(mtile_scope(Some("none")), MtileScope::Nothing);
    assert_eq!(mtile_scope(Some("KV")), MtileScope::Nothing);
    let on = Some("1");
    assert!(mtile_shape_enabled(on, Some("kv"), 2048, 256));
    assert!(!mtile_shape_enabled(on, Some("kv"), 2048, 2048));
    assert!(mtile_shape_enabled(on, Some("qo"), 2048, 2048));
    assert!(mtile_shape_enabled(on, Some("ffn"), 5632, 2048));
    assert!(mtile_shape_enabled(on, Some("ffn"), 2048, 5632));
    assert!(mtile_shape_enabled(on, Some("attn"), 2048, 256));
    assert!(mtile_shape_enabled(on, Some("safe"), 2048, 5632));
    assert!(!mtile_shape_enabled(on, Some("safe"), 2048, 2048));
    assert!(!mtile_shape_enabled(None, Some("all"), 2048, 2048));
}

#[test]
fn four_bit_scopes_name_shapes() {
    assert_eq!(w4_scope(None), W4Scope::Nothing);
    assert!(!w4a4_shape_enabled(None, 2048, 2048));
    assert!(w4a4_shape_enabled(Some("all"), 1, 1));
    assert!(w4a4_shape_enabled(Some("ffn"), 2048, 5632));
    assert!(!w4a4_shape_enabled(Some("ffn"), 5632, 2048));
    assert!(w4a4_shape_enabled(Some("attn"), 2048, 256));
    assert!(w4a4_shape_enabled(Some("proj2048"), 2048, 2048));
    assert!(w4a4_shape_enabled(Some("kv"), 2048, 256));
    assert!(!w4a4_shape_enabled(Some("other"), 2048, 256));
}

#[test]
fn group_sizes_divide_the_row() {
    assert_eq!(mtile_qo_group_size(Some("512"), 2048, 2048), Some(512));
    assert_eq!(mtile_qo_group_size(Some("2048"), 2048, 2048), Some(2048));
    assert_eq!(mtile_qo_group_size(Some("1536"), 2048, 2048), None);
    assert_eq!(mtile_qo_group_size(Some("256"), 2048, 2048), None);
    assert_eq!(mtile_qo_group_size(Some("512"), 2048, 256), None);
    assert_eq!(mtile_qo_group_size(None, 2048, 2048), None);
    assert_eq!(w4a4_group_size(Some("32"), 2048), Some(32));
    assert_eq!(w4a4_group_size(Some("0"), 2048), None);
    assert_eq!(w4a4_group_size(Some("48"), 2048), None);
    assert_eq!(w4a4_group_size(Some("96"), 2048), None);
    assert_eq!(w4a4_group_size(Some("x"), 2048), None);
}

#[test]
fn two_part_encoding_is_for_batches() {
    assert_eq!(hilo_mode(Some("1")), HiloMode::All);
    assert_eq!(hilo_mode(Some("all")), HiloMode::All);
    assert_eq!(hilo_mode(Some("down")), HiloMode::WideK);
    assert_eq!(hilo_mode(Some("0")), HiloMode::Off);
    assert!(hilo_needed(HiloMode::All, 4, 2048, 8192, false));
    assert!(!hilo_needed(HiloMode::All, 4, 2048, 8192, true));
    assert!(!hilo_needed(HiloMode::All, 1, 2048, 2048, false));
    assert!(!hilo_needed(HiloMode::All, 4, 2048, 8191, false));
    assert!(!hilo_needed(HiloMode::WideK, 4, 2048, 8192, false));
    assert!(hilo_needed(HiloMode::WideK, 4, 5632, 22528, false));
    assert!(!hilo_needed(HiloMode::WideK, 4, 256, 1024, false));
    assert!(!hilo_needed(HiloMode::WideK, 2, 768, 1536, false));
    assert!(!hilo_needed(HiloMode::WideK, 2, 4096, 8192, false));
    assert!(hilo_needed(HiloMode::WideK, 2, 4352, 8704, false));
    assert!(!hilo_needed(HiloMode::Off, 4, 5632, 22528, false));
}

#[test]
fn nothing_set_means_everything_off() {
    let env = RouteEnv {
        native_mtile: None,
        native_mtile_down: None,
        mtile_persist: None,
        mtile_mc: None,
        w8_mtile: None,
        w8_mtile_scope: None,
        mtile_qo_group: None,
        w4a4_scope: None,
        w4a4_group: None,
        w4a4_hadamard: None,
        prefill_cache: None,
        prefill_hilo: None,
    };
    let s = RouteSettings::read(&env);
    assert!(!s.native_mtile_routes_enabled());
    assert!(!s.tile_shape_enabled(2048, 2048));
    assert_eq!(s.prefill_hilo, HiloMode::Off);
    let on = RouteEnv {
        native_mtile: Some("1".to_string()),
        mtile_persist: Some("1".to_string()),
        mtile_mc: Some("1".to_string()),
        w8_mtile: Some("1".to_string()),
        mtile_qo_group: Some("1024".to_string()),
        ..env
    };
    let s = RouteSettings::read(&on);
    assert!(s.native_mtile_routes_enabled());
    assert!(s.tile_shape_enabled(2048, 2048));
    assert_eq!(s.mtile_qo_group, Some(1024));
}

#[test]
fn numbers_survive_their_text() {
    for n in [0usize, 7, 10, 4096, usize::MAX] {
        assert_eq!(decimal(n), n.to_string());
        assert_eq!(parse_usize(&decimal(n)), Some(n));
    }
    assert_eq!(parse_usize("+12"), Some(12));
    assert_eq!(parse_usize(""), None);
    assert_eq!(parse_usize("1x"), None);
    assert_eq!(parse_usize("18446744073709551616"), None);
    assert!(same_text("kv", "kv"));
    assert!(!same_text("kv", "k"));
    assert_eq!(hexadecimal(0xdead_beef), "deadbeef");
    assert_eq!(hexadecimal(0), "0");
    assert_eq!(hex_pattern(0x0a3f), "0a3f");
}
