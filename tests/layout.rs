use rebar_section::ast::{RebarEntry, RebarPattern, View};
use rebar_section::layout::{layer_plan, shows_longitudinal, shows_section, BarLayer};

fn entry(pattern: RebarPattern, size: &str) -> RebarEntry {
    RebarEntry { pattern, count: 2, size: size.to_string() }
}

#[test]
fn no_span_means_no_longitudinal_drawing() {
    for view in [None, Some(View::Section), Some(View::Longitudinal), Some(View::Both)] {
        assert!(!shows_longitudinal(view, false));
    }
    assert!(shows_longitudinal(None, true));
    assert!(shows_longitudinal(Some(View::Both), true));
    assert!(shows_longitudinal(Some(View::Longitudinal), true));
    assert!(!shows_longitudinal(Some(View::Section), true));
}

#[test]
fn section_drawing_unless_only_longitudinal() {
    assert!(shows_section(None));
    assert!(shows_section(Some(View::Section)));
    assert!(shows_section(Some(View::Both)));
    assert!(!shows_section(Some(View::Longitudinal)));
}

#[test]
fn top_layers_follow_declaration_and_bottom_layers_reverse_it() {
    let rebar = vec![
        entry(RebarPattern::Bottom, "#8"),
        entry(RebarPattern::Top, "#4"),
        entry(RebarPattern::Perimeter, "#6"),
        entry(RebarPattern::Top, "#5"),
        entry(RebarPattern::Bottom, "#6"),
        entry(RebarPattern::Sides, "#3"),
        entry(RebarPattern::Top, "#3"),
    ];
    let plan = layer_plan(&rebar);
    assert_eq!(
        plan,
        vec![
            BarLayer { entry: 1, layer: 0, top: true },
            BarLayer { entry: 3, layer: 1, top: true },
            BarLayer { entry: 6, layer: 2, top: true },
            BarLayer { entry: 4, layer: 0, top: false },
            BarLayer { entry: 0, layer: 1, top: false },
        ]
    );
}

#[test]
fn layer_plan_of_no_rebar_is_empty() {
    assert!(layer_plan(&Vec::new()).is_empty());
    let sides = vec![entry(RebarPattern::Sides, "#3")];
    assert!(layer_plan(&sides).is_empty());
}
