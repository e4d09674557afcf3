use herdr::api::schema::plugin_path::{
    has_windows_reserved_stem_for_path_component, plugin_managed_path_component,
    readable_plugin_path_slug, short_plugin_id_hash_for_path_component,
};

#[test]
fn plugin_managed_path_component_is_windows_safe_and_collision_free() {
    let dotdot = plugin_managed_path_component("..");
    assert_ne!(dotdot, ".");
    assert_ne!(dotdot, "..");
    assert!(dotdot.starts_with("plugin-"));
    assert_ne!(
        plugin_managed_path_component("a:b"),
        plugin_managed_path_component("a_b")
    );
    assert_ne!(plugin_managed_path_component("con"), "con");
    assert!(!plugin_managed_path_component("example.").ends_with('.'));
    assert!(plugin_managed_path_component("con.example").starts_with("con-example-"));
    assert!(plugin_managed_path_component("aux.plugin").starts_with("aux-plugin-"));
    assert!(plugin_managed_path_component("nul.x").starts_with("nul-x-"));
    assert!(plugin_managed_path_component("com1.tool").starts_with("com1-tool-"));
}

#[test]
fn plugin_managed_path_component_keeps_readable_slug() {
    let component = plugin_managed_path_component("example.worktree-bootstrap");
    assert!(component.starts_with("example.worktree-bootstrap-"));
    assert!(component.len() <= "example.worktree-bootstrap-".len() + 12);
}

#[test]
fn plugin_managed_path_component_hash_distinguishes_same_slug_shape() {
    assert_ne!(
        plugin_managed_path_component("example:a"),
        plugin_managed_path_component("example/a")
    );
}

#[test]
fn short_hash_is_the_sha256_prefix_in_lower_hex() {
    // SHA-256("abc") = ba7816bf8f01cfea414140de5dae2223b00361a396177a9cb410ff61f20015ad
    assert_eq!(short_plugin_id_hash_for_path_component("abc"), "ba7816bf8f01");
    // SHA-256("") = e3b0c44298fc1c149afbf4c8996fb92427ae41e4649b934ca495991b7852b855
    assert_eq!(short_plugin_id_hash_for_path_component(""), "e3b0c44298fc");
}

#[test]
fn component_is_slug_dash_hash() {
    assert_eq!(plugin_managed_path_component("abc"), "abc-ba7816bf8f01");
    assert_eq!(plugin_managed_path_component(""), "plugin-e3b0c44298fc");
}

#[test]
fn slug_replaces_collapses_and_trims() {
    assert_eq!(readable_plugin_path_slug("a:b"), "a-b");
    assert_eq!(readable_plugin_path_slug("a_b"), "a_b");
    assert_eq!(readable_plugin_path_slug("owner/repo name!!"), "owner-repo-name");
    assert_eq!(readable_plugin_path_slug("--a---b--"), "a-b");
    assert_eq!(readable_plugin_path_slug("._-x-_."), "x");
    assert_eq!(readable_plugin_path_slug("..."), "plugin");
    assert_eq!(readable_plugin_path_slug(""), "plugin");
    assert_eq!(readable_plugin_path_slug("héllo"), "h-llo");
    assert_eq!(readable_plugin_path_slug("example."), "example");
}

#[test]
fn slug_keeps_at_most_eighty_characters() {
    let long = "a".repeat(100);
    assert_eq!(readable_plugin_path_slug(&long), "a".repeat(80));
    let cut = format!("{}.b", "a".repeat(79));
    // The cut may leave a trailing dot in the slug; the component still ends in the hash.
    assert_eq!(readable_plugin_path_slug(&cut), format!("{}.", "a".repeat(79)));
    assert!(!plugin_managed_path_component(&cut).ends_with('.'));
}

#[test]
fn slug_with_reserved_stem_loses_its_dots() {
    assert_eq!(readable_plugin_path_slug("con"), "con");
    assert_eq!(readable_plugin_path_slug("CON.txt"), "CON-txt");
    assert_eq!(readable_plugin_path_slug("lpt9.a.b"), "lpt9-a-b");
    assert_eq!(readable_plugin_path_slug("com0.tool"), "com0.tool");
    assert_eq!(readable_plugin_path_slug("console.app"), "console.app");
}

#[test]
fn reserved_stems_are_case_insensitive_device_names() {
    assert!(has_windows_reserved_stem_for_path_component("con"));
    assert!(has_windows_reserved_stem_for_path_component("Prn.log"));
    assert!(has_windows_reserved_stem_for_path_component("aux"));
    assert!(has_windows_reserved_stem_for_path_component("NUL.x.y"));
    assert!(has_windows_reserved_stem_for_path_component("com1"));
    assert!(has_windows_reserved_stem_for_path_component("LPT5.tool"));
    assert!(!has_windows_reserved_stem_for_path_component("com0"));
    assert!(!has_windows_reserved_stem_for_path_component("com10"));
    assert!(!has_windows_reserved_stem_for_path_component("console"));
    assert!(!has_windows_reserved_stem_for_path_component(".con"));
    assert!(!has_windows_reserved_stem_for_path_component(""));
}

#[test]
fn component_stem_is_never_reserved() {
    for id in ["con", "aux.plugin", "nul", "com1.tool", "lpt1", "PRN.x.y"] {
        let component = plugin_managed_path_component(id);
        assert!(!has_windows_reserved_stem_for_path_component(&component), "{component}");
        assert!(component
            .chars()
            .all(|c| c.is_ascii_alphanumeric() || matches!(c, '-' | '_' | '.')));
    }
}
