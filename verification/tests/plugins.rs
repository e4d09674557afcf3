use herdr::api::schema::popup_dimension::PopupDimensionError;
use herdr::api::schema::{
    PluginActionContext, PluginActionInfo, PluginSourceInfo, PluginSourceKind, PopupBorderStyle,
    PopupBreakpointSpec, PopupDimension, PopupPosition, PopupSpec,
};

#[test]
fn popup_spec_merge_per_call_overrides_manifest_field_by_field() {
    let manifest = PopupSpec {
        width: Some(PopupDimension::Percent(50)),
        height: Some(PopupDimension::Percent(50)),
        position: Some(PopupPosition::RelativeCenter),
        border: Some(true),
        border_style: Some(PopupBorderStyle::Single),
        border_color: Some("blue".to_string()),
        padding: Some(1),
        bg: Some("black".to_string()),
        title: Some("Manifest".to_string()),
        breakpoints: Vec::new(),
    };
    // Per-call sets only some fields; the rest fall back to the manifest.
    let per_call = PopupSpec {
        width: Some(PopupDimension::Cells(90)),
        border: Some(false),
        title: Some("Call".to_string()),
        ..Default::default()
    };
    let merged = manifest.merge(&per_call);
    // Overridden by per-call.
    assert_eq!(merged.width, Some(PopupDimension::Cells(90)));
    assert_eq!(merged.border, Some(false));
    assert_eq!(merged.title.as_deref(), Some("Call"));
    // Inherited from manifest.
    assert_eq!(merged.height, Some(PopupDimension::Percent(50)));
    assert_eq!(merged.position, Some(PopupPosition::RelativeCenter));
    assert_eq!(merged.border_style, Some(PopupBorderStyle::Single));
    assert_eq!(merged.border_color.as_deref(), Some("blue"));
    assert_eq!(merged.padding, Some(1));
    assert_eq!(merged.bg.as_deref(), Some("black"));
}

#[test]
fn popup_dimension_parses_percent_absolute_and_serializes_to_string() {
    let pct = PopupDimension::parse_text("80%").unwrap();
    assert_eq!(pct, PopupDimension::Percent(80));
    let cells_str = PopupDimension::parse_text("60").unwrap();
    assert_eq!(cells_str, PopupDimension::Cells(60));
    let cells_int = PopupDimension::from_integer(60).unwrap();
    assert_eq!(cells_int, PopupDimension::Cells(60));

    // Percent clamps to 100, resolves against the axis.
    let over = PopupDimension::parse_text("150%").unwrap();
    assert_eq!(over, PopupDimension::Percent(100));

    // Always written as text for stable round-tripping.
    assert_eq!(PopupDimension::Percent(80).to_text(), "80%");
    assert_eq!(PopupDimension::Cells(60).to_text(), "60");
}

#[test]
fn popup_dimension_text_accepts_spaces_and_plus() {
    assert_eq!(PopupDimension::parse_text("  42 % "), Ok(PopupDimension::Percent(42)));
    assert_eq!(PopupDimension::parse_text("+7"), Ok(PopupDimension::Cells(7)));
    assert_eq!(PopupDimension::parse_text("007"), Ok(PopupDimension::Cells(7)));
    assert_eq!(PopupDimension::parse_text("\u{3000}65535\t"), Ok(PopupDimension::Cells(65535)));
}

#[test]
fn popup_dimension_errors() {
    assert_eq!(PopupDimension::from_integer(-1), Err(PopupDimensionError::Negative));
    assert_eq!(PopupDimension::from_integer(70000), Ok(PopupDimension::Cells(u16::MAX)));
    assert_eq!(PopupDimension::parse_text("65536"), Err(PopupDimensionError::InvalidCells));
    assert_eq!(PopupDimension::parse_text(""), Err(PopupDimensionError::InvalidCells));
    assert_eq!(PopupDimension::parse_text("+"), Err(PopupDimensionError::InvalidCells));
    assert_eq!(PopupDimension::parse_text("-3"), Err(PopupDimensionError::InvalidCells));
    assert_eq!(PopupDimension::parse_text("4x"), Err(PopupDimensionError::InvalidCells));
    assert_eq!(PopupDimension::parse_text("%"), Err(PopupDimensionError::InvalidPercent));
    assert_eq!(PopupDimension::parse_text("abc%"), Err(PopupDimensionError::InvalidPercent));
    assert_eq!(PopupDimension::parse_text("70000%"), Err(PopupDimensionError::InvalidPercent));
    assert_eq!(
        PopupDimensionError::Negative.message(),
        "popup dimension cannot be negative"
    );
    assert_eq!(
        PopupDimensionError::InvalidPercent.message(),
        "invalid popup percent dimension"
    );
    assert_eq!(PopupDimensionError::InvalidCells.message(), "invalid popup cell dimension");
}

#[test]
fn popup_dimension_text_round_trips() {
    for d in [
        PopupDimension::Percent(1),
        PopupDimension::Percent(100),
        PopupDimension::Percent(9),
        PopupDimension::Cells(0),
        PopupDimension::Cells(10),
        PopupDimension::Cells(u16::MAX),
    ] {
        assert_eq!(PopupDimension::parse_text(&d.to_text()), Ok(d));
    }
    assert_eq!(
        PopupDimension::parse_text(&PopupDimension::Percent(300).to_text()),
        Ok(PopupDimension::Percent(100))
    );
    assert_eq!(PopupDimension::parse_text("0%"), Ok(PopupDimension::Percent(1)));
}

#[test]
fn merge_laws_hold_on_examples() {
    let a = PopupSpec {
        width: Some(PopupDimension::Cells(10)),
        bg: Some("red".to_string()),
        breakpoints: vec![PopupBreakpointSpec {
            max_cols: Some(3),
            ..Default::default()
        }],
        ..Default::default()
    };
    let b = PopupSpec {
        height: Some(PopupDimension::Percent(20)),
        bg: Some("blue".to_string()),
        ..Default::default()
    };
    let c = PopupSpec {
        width: Some(PopupDimension::Cells(30)),
        breakpoints: vec![PopupBreakpointSpec::default()],
        ..Default::default()
    };
    assert_eq!(a.merge(&PopupSpec::default()), a);
    assert_eq!(PopupSpec::default().merge(&a), a);
    assert_eq!(a.merge(&a), a);
    assert_eq!(a.merge(&b).merge(&c), a.merge(&b.merge(&c)));
    let merged = a.merge(&b);
    assert_eq!(merged.bg.as_deref(), Some("blue"));
    assert_eq!(merged.breakpoints, a.breakpoints);
    assert_eq!(a.merge(&c).breakpoints, c.breakpoints);
}

#[test]
fn qualified_id_joins_with_a_dot() {
    let info = PluginActionInfo {
        plugin_id: "example.tools".to_string(),
        action_id: "open".to_string(),
        title: "Open".to_string(),
        description: None,
        contexts: vec![PluginActionContext::Global],
        command: vec!["true".to_string()],
        platforms: None,
    };
    assert_eq!(info.qualified_id(), "example.tools.open");
}

#[test]
fn default_source_is_local_and_empty() {
    let source = PluginSourceInfo::default();
    assert_eq!(source.kind, PluginSourceKind::Local);
    assert!(source.owner.is_none());
    assert!(source.repo.is_none());
    assert!(source.subdir.is_none());
    assert!(source.requested_ref.is_none());
    assert!(source.resolved_commit.is_none());
    assert!(source.managed_path.is_none());
    assert!(source.installed_unix_ms.is_none());
}
