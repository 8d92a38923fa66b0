use nova::toolchain::diagnostics::{DiagnosticSeverity, DiagnosticsEngine};
use nova::toolchain::formatter::{format_source, format_source_default, FormatOptions, Formatter};
use nova::toolchain::hover::HoverProvider;
use nova::toolchain::manifest::{create_default_manifest, DependencyResolver, Manifest};

#[test]
fn test_parse_minimal_manifest() {
    let content = r#"
[package]
name = "test_project"
version = "0.1.0"
"#;
    let manifest = Manifest::parse(content).unwrap();
    assert_eq!(manifest.name, "test_project");
    assert_eq!(manifest.version, "0.1.0");
}

#[test]
fn test_parse_manifest_with_deps() {
    let content = r#"
[package]
name = "my_project"
version = "1.0.0"
authors = ["Alice", "Bob"]
description = "Test project"

[dependencies]
cosmos.stats = "0.1.0"
nova.fs = "latest"
"#;
    let manifest = Manifest::parse(content).unwrap();
    assert_eq!(manifest.name, "my_project");
    assert_eq!(manifest.dependencies.len(), 2);
    assert_eq!(manifest.dependencies.get("cosmos.stats"), Some(&"0.1.0".to_string()));
}

#[test]
fn manifest_details() {
    let content = "# comment\n[package]\nauthors = [\"Alice\", \"\", \"Bob\" ]\ndescription = \"d\"\nother = 1\n[dependencies]\na = \"1\"\na = \"2\"\nno_equals_here\n";
    let manifest = Manifest::parse(content).unwrap();
    assert_eq!(manifest.authors, vec!["Alice".to_string(), "Bob".to_string()]);
    assert_eq!(manifest.description, "d");
    assert_eq!(manifest.version, "0.1.0");
    assert_eq!(manifest.dependencies.len(), 1);
    assert_eq!(manifest.dependencies.get("a"), Some(&"2".to_string()));
    let mut resolver = DependencyResolver::new(manifest);
    resolver.resolve_all().unwrap();
    resolver.resolve_all().unwrap();
    let resolved = resolver.get_resolved();
    assert_eq!(resolved.len(), 1);
    assert_eq!(resolved[0].version, "2");
}

#[test]
fn default_manifest_round_trips() {
    let text = create_default_manifest("demo");
    let m = Manifest::parse(&text).unwrap();
    assert_eq!(m.name, "demo");
    assert_eq!(m.version, "0.1.0");
    assert_eq!(m.description, "A NOVA project");
    assert!(m.authors.is_empty());
    assert_eq!(m.dependencies.len(), 0);
}

#[test]
fn test_arrow_normalization() {
    let mut formatter = Formatter::new(FormatOptions::default());
    let input = "mission main() -> Void { }";
    let result = formatter.format(input).unwrap();
    assert!(result.contains("→"));
}

#[test]
fn test_indentation() {
    let mut formatter = Formatter::new(FormatOptions::default());
    let input = "mission main() -> Void {\ntransmit(\"hi\")\n}";
    let result = formatter.format(input).unwrap();
    assert!(result.contains("    transmit"));
}

#[test]
fn test_format_simple_mission() {
    let input = r#"mission main()->Void{transmit("Hello")}"#;
    let result = format_source_default(input);
    assert!(result.is_ok());
}

#[test]
fn formatting_examples() {
    let out = format_source_default("\n\n  a   b  \n").unwrap();
    assert_eq!(out, "a b");
    // a line ending in `{` opens two levels; a lone `}` is indented before it closes one
    let out = format_source_default("f {\nx\n}\ny").unwrap();
    assert_eq!(out, "f {\n        x\n        }\n    y");
    let tabs = FormatOptions { tab_width: 4, use_tabs: true, max_width: 100 };
    let out = format_source("a {\nb\n", tabs).unwrap();
    assert_eq!(out, "a {\n\t\tb");
    let mut f = Formatter::new(FormatOptions::default());
    f.format("a {").unwrap();
    assert_eq!(f.to_text(), "Formatter(indent=2, tab_width=4)");
}

#[test]
fn test_add_diagnostic() {
    let mut engine = DiagnosticsEngine::new();
    engine.add_unit_mismatch(10, 5, "Float[kg]", "Float[m]");
    assert_eq!(engine.get_all().len(), 1);
    assert!(engine.has_errors());
}

#[test]
fn test_clear_diagnostics() {
    let mut engine = DiagnosticsEngine::new();
    engine.add_warning(1, 0, "test".to_string());
    assert!(!engine.get_all().is_empty());
    engine.clear();
    assert!(engine.get_all().is_empty());
}

#[test]
fn diagnostics_count_errors_only() {
    let mut engine = DiagnosticsEngine::new();
    engine.add_warning(1, 0, "w".to_string());
    assert!(!engine.has_errors());
    engine.add_type_error(2, 3, "t".to_string());
    engine.add_unit_mismatch(4, 5, "Float[kg]", "Float[m]");
    assert_eq!(engine.error_count(), 2);
    let all = engine.get_all();
    assert_eq!(all[2].message, "cannot use Float[m] where Float[kg] is expected - dimension mismatch");
    assert_eq!(all[2].code, Some("UNIT_MISMATCH".to_string()));
    assert_eq!(all[1].severity, DiagnosticSeverity::Error);
    assert_eq!(all[0].code, None);
}

#[test]
fn test_create_unit_hover() {
    let provider = HoverProvider::new();
    let hover = provider.create_unit_hover("velocity", "Float", "m/s");
    assert_eq!(hover.symbol, "velocity");
    assert_eq!(hover.type_info, Some("Float".to_string()));
    assert_eq!(hover.unit_info, Some("m/s".to_string()));
}

#[test]
fn test_create_tensor_hover() {
    let provider = HoverProvider::new();
    let hover = provider.create_tensor_hover("matrix", "Float", &[3, 4]);
    assert!(hover.type_info.unwrap().contains("3×4"));
}

#[test]
fn hover_details() {
    let provider = HoverProvider::new();
    assert!(provider.get_hover(1, 1, "x").is_none());
    let h = provider.create_mission_hover("main", "() → Void", "entry point");
    assert_eq!(h.documentation, Some("entry point".to_string()));
    assert_eq!(provider.create_tensor_hover("m", "Int", &[2, 3, 4]).type_info, Some("Tensor[Int, 2×3×4]".to_string()));
}

#[test]
fn formatting_leaves_no_ascii_arrow() {
    for src in ["a->b", "-->", "x -\n> y", "f()->->g", "  ->  "] {
        let out = format_source_default(src).unwrap();
        assert!(!out.contains("->"), "{:?}", out);
    }
    assert_eq!(format_source_default("-->").unwrap(), "-→");
}

#[test]
fn resolving_twice_keeps_names_unique() {
    let text = "[package]\nname = \"p\"\n\n[dependencies]\na = \"1\"\nb = \"2\"\n";
    let manifest = Manifest::parse(text).unwrap();
    let mut resolver = DependencyResolver::new(manifest);
    resolver.resolve_all().unwrap();
    resolver.resolve_all().unwrap();
    let names: Vec<String> = resolver.get_resolved().iter().map(|d| d.name.clone()).collect();
    assert_eq!(names, vec!["a".to_string(), "b".to_string()]);
}
