use rebar_section::ast::{RebarPattern, SectionType, Shape, Spacing, View};
use rebar_section::layout::layer_plan;
use rebar_section::parser::parse;
use rebar_section::sizes::{classify_size, SizeForm};

#[test]
fn parses_an_indented_beam() {
    let input = "beam \"V-101\":\n  30 x 60\n  cover 4\n  top 2 1/2\"\n";
    let sections = parse(input).unwrap();
    assert_eq!(sections.len(), 1);
    let s = &sections[0];
    assert_eq!(s.kind, SectionType::Beam);
    assert_eq!(s.id, "V-101");
    match &s.properties.shape {
        Some(Shape::Rect { width, height }) => {
            assert_eq!(width, "30");
            assert_eq!(height, "60");
        }
        _ => panic!("expected a rectangle"),
    }
    assert_eq!(s.properties.cover.as_deref(), Some("4"));
    assert_eq!(s.properties.rebar.len(), 1);
    assert_eq!(s.properties.rebar[0].pattern, RebarPattern::Top);
    assert_eq!(s.properties.rebar[0].count, 2);
    assert_eq!(s.properties.rebar[0].size, "1/2\"");
    assert!(s.properties.ties.is_none());
    assert!(s.properties.span.is_none());
}

#[test]
fn beam_bars_sit_inside_cover_and_stirrup() {
    // Two #4-sized bars at the top of a 30 x 60 beam, cover 4, default
    // stirrup of 0.95 cm: radius 0.635 at y = 24.415 and x = -9.415, 9.415.
    let sections = parse("beam \"V-101\":\n  30 x 60\n  cover 4\n  top 2 1/2\"\n").unwrap();
    let props = &sections[0].properties;
    let plan = layer_plan(&props.rebar);
    assert_eq!(plan.len(), 1);
    assert_eq!(plan[0].layer, 0);
    assert!(plan[0].top);
    let d = match classify_size(&props.rebar[0].size) {
        SizeForm::Fraction(a, b) => a.parse::<f64>().unwrap() / b.parse::<f64>().unwrap() * 2.54,
        other => panic!("unexpected form {:?}", other),
    };
    let cover: f64 = props.cover.as_deref().unwrap().parse().unwrap();
    let base_inset = cover + 0.95;
    let y = 60.0 / 2.0 - (base_inset + d / 2.0);
    let x = 30.0 / 2.0 - (base_inset + d / 2.0);
    assert!((d / 2.0 - 0.635).abs() < 1e-9);
    assert!((y - 24.415).abs() < 1e-9);
    assert!((x - 9.415).abs() < 1e-9);
}

#[test]
fn parses_every_statement() {
    let input = "column \"C-1\":\n  40.5 x 40\n  cover 3.5\n  fc 280\n  span 450\n  view both\n  \
                 scale 2\n  scale_long 0.5\n  bot 3 #8\n  perim 12 #6\n  ties #3 1@5 5@10 rto@20\n";
    let sections = parse(input).unwrap();
    let p = &sections[0].properties;
    assert_eq!(sections[0].kind, SectionType::Column);
    assert_eq!(p.concrete.as_deref(), Some("280"));
    assert_eq!(p.span.as_deref(), Some("450"));
    assert_eq!(p.view, Some(View::Both));
    assert_eq!(p.scale_section.as_deref(), Some("2"));
    assert_eq!(p.scale_long.as_deref(), Some("0.5"));
    assert_eq!(p.cover.as_deref(), Some("3.5"));
    assert_eq!(p.rebar.len(), 2);
    assert_eq!(p.rebar[1].pattern, RebarPattern::Perimeter);
    assert_eq!(p.rebar[1].count, 12);
    let ties = p.ties.as_ref().unwrap();
    assert_eq!(ties.size, "#3");
    assert_eq!(ties.dist.len(), 3);
    match (&ties.dist[0], &ties.dist[1], &ties.dist[2]) {
        (
            Spacing::Fixed { count: 1, dist: a },
            Spacing::Fixed { count: 5, dist: b },
            Spacing::Rest { dist: c },
        ) => {
            assert_eq!(a, "5");
            assert_eq!(b, "10");
            assert_eq!(c, "20");
        }
        _ => panic!("unexpected spacing program"),
    }
}

#[test]
fn parses_several_sections_in_order() {
    let input = "beam \"A\":\n  20 x 40\nwall \"B\":\n  cover 2\n";
    let sections = parse(input).unwrap();
    assert_eq!(sections.len(), 2);
    assert_eq!(sections[0].id, "A");
    assert_eq!(sections[1].kind, SectionType::Wall);
    assert_eq!(sections[1].id, "B");
    assert!(sections[1].properties.shape.is_none());
    assert!(parse("").unwrap().is_empty());
}

#[test]
fn rejects_malformed_text() {
    assert!(parse("slab \"S\":\n  20 x 40\n").is_err());
    assert!(parse("beam \"A\":\n  cover four\n").is_err());
    assert!(parse("beam \"A\":\n  top 2 1/2\n").is_err());
    assert!(parse("beam \"A\":\n  ties #3\n").is_err());
    assert!(parse("beam \"A\":\n  top 99999999999 #4\n").is_err());
    assert!(parse("beam \"A\":\n  view sideways\n").is_err());
    assert!(parse("30 x 60\n").is_err());
}
