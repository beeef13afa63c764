use building_procgen::options::{Options, TrafficSignalStyle, NIGHT_COLORS, OVERRIDE_COLORS};

#[test]
fn default_options() {
    let opts = Options::default();
    assert!(opts.traffic_signal_style == TrafficSignalStyle::GroupArrows);
    assert_eq!(opts.color_scheme, None);
    assert!(!opts.dev);
    assert_eq!(opts.cs_name(), "default");
}

#[test]
fn color_scheme_names() {
    let mut opts = Options::default();
    opts.color_scheme = Some("../data/system/override_colors.json".to_string());
    assert!(opts.has_known_color_scheme());
    assert_eq!(opts.cs_name(), "overridden");
    opts.color_scheme = Some("../data/system/night_colors.json".to_string());
    assert!(opts.has_known_color_scheme());
    assert_eq!(opts.cs_name(), "night mode");
    opts.color_scheme = Some("elsewhere.json".to_string());
    assert!(!opts.has_known_color_scheme());
    assert_eq!(OVERRIDE_COLORS, "../data/system/override_colors.json");
    assert_eq!(NIGHT_COLORS, "../data/system/night_colors.json");
}

#[test]
fn traffic_signal_styles_describe_themselves() {
    assert_eq!(
        TrafficSignalStyle::GroupArrows.describe(),
        "arrows showing the protected and permitted movements"
    );
    assert_eq!(
        TrafficSignalStyle::Sidewalks.describe(),
        "arrows showing the protected and permitted movements, with sidewalks"
    );
    assert_eq!(TrafficSignalStyle::Icons.describe(), "icons for movements (like the editor UI)");
    assert_eq!(
        TrafficSignalStyle::IndividualTurnArrows.describe(),
        "arrows showing individual turns (to debug)"
    );
}
