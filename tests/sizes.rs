use rebar_section::sizes::{classify_size, get_color_for_size, str_eq, SizeForm};

fn diameter(size: &str) -> f64 {
    match classify_size(size) {
        SizeForm::Eighths(n) => n.parse::<f64>().map(|n| n * 0.3175).unwrap_or(1.27),
        SizeForm::Fraction(a, b) => match (a.parse::<f64>(), b.parse::<f64>()) {
            (Ok(a), Ok(b)) => (a / b) * 2.54,
            _ => 1.27,
        },
        SizeForm::Inches(n) => n.parse::<f64>().map(|n| n * 2.54).unwrap_or(1.27),
        SizeForm::Unknown => 1.27,
    }
}

#[test]
fn sizes_classify_by_form() {
    assert_eq!(classify_size("#4"), SizeForm::Eighths("4".to_string()));
    assert_eq!(classify_size("1/2\""), SizeForm::Fraction("1".to_string(), "2".to_string()));
    assert_eq!(classify_size("3/4\""), SizeForm::Fraction("3".to_string(), "4".to_string()));
    assert_eq!(classify_size("1\""), SizeForm::Inches("1".to_string()));
    assert_eq!(classify_size("1\"\""), SizeForm::Inches("1".to_string()));
    assert_eq!(classify_size("garbage"), SizeForm::Unknown);
    assert_eq!(classify_size(""), SizeForm::Unknown);
    assert_eq!(classify_size("1/2/3\""), SizeForm::Unknown);
    assert_eq!(classify_size("#"), SizeForm::Eighths(String::new()));
}

#[test]
fn sizes_resolve_to_diameters() {
    assert!((diameter("#4") - 1.27).abs() < 1e-12);
    assert!((diameter("1/2\"") - 1.27).abs() < 1e-12);
    assert!((diameter("3/4\"") - 1.905).abs() < 1e-12);
    assert!((diameter("#3") - 0.9525).abs() < 1e-12);
    assert!((diameter("1\"") - 2.54).abs() < 1e-12);
    assert_eq!(diameter("garbage"), 1.27);
    assert_eq!(diameter("#x"), 1.27);
}

#[test]
fn colors_follow_the_designator() {
    assert_eq!(get_color_for_size("#6"), "#000080");
    assert_eq!(get_color_for_size("3/4\""), "#000080");
    assert_eq!(get_color_for_size("#3"), "#CC7000");
    assert_eq!(get_color_for_size("3/8\""), "#CC7000");
    assert_eq!(get_color_for_size("#4"), "#CC0000");
    assert_eq!(get_color_for_size("1/2\""), "#CC0000");
    assert_eq!(get_color_for_size("#5"), "#800080");
    assert_eq!(get_color_for_size("5/8\""), "#800080");
    assert_eq!(get_color_for_size("#8"), "#006400");
    assert_eq!(get_color_for_size("1\""), "#006400");
    assert_eq!(get_color_for_size("#7"), "black");
    assert_eq!(get_color_for_size("unknown"), "black");
    assert_eq!(get_color_for_size(""), "black");
}

#[test]
fn str_eq_compares_characters() {
    assert!(str_eq("ab", "ab"));
    assert!(!str_eq("ab", "abc"));
    assert!(!str_eq("ab", "aB"));
    assert!(str_eq("", ""));
}
