use pilotty::classify::{
    cursor_in_range, extract_bracketed_tokens, extract_underscore_runs, is_button_pattern,
    is_checkbox_pattern, is_input_pattern, is_unicode_checkbox, token_col_offset,
    extract_elements_from_cluster, classify, detect, ClassifyContext,
};
use pilotty::elements::ElementKind;
use pilotty::grid::{ScreenCell, ScreenGrid};
use pilotty::segment::{segment, segment_row, Cluster};
use pilotty::style::{CellStyle, Color};

fn cluster(text: &str) -> Cluster {
    Cluster::new(0, 0, text.to_string(), CellStyle::default())
}

#[test]
fn screen_cell_creation() {
    let cell = ScreenCell::new('A', CellStyle::default());
    assert_eq!(cell.ch, 'A');
}

#[test]
fn cluster_creation() {
    let cluster = Cluster::new(5, 10, "Hello".to_string(), CellStyle::default());
    assert_eq!(cluster.row, 5);
    assert_eq!(cluster.col, 10);
    assert_eq!(cluster.width, 5);
    assert_eq!(cluster.text, "Hello");
    assert!(!cluster.is_whitespace_only());
}

#[test]
fn segment_splits_by_style() {
    let mut grid = ScreenGrid::from_text(&["AABBBCC"], 7);
    let bold = CellStyle::new().with_bold(true);
    let inverse = CellStyle::new().with_inverse(true);

    grid.style_range(0, 2, 5, bold);
    grid.style_range(0, 5, 7, inverse);

    let clusters = segment_row(&grid, 0);

    assert_eq!(clusters.len(), 3);
    assert_eq!(clusters[0].text, "AA");
    assert_eq!(clusters[0].col, 0);
    assert_eq!(clusters[1].text, "BBB");
    assert!(clusters[1].style.bold);
    assert_eq!(clusters[2].text, "CC");
    assert!(clusters[2].style.inverse);
}

#[test]
fn segment_filters_whitespace() {
    let mut grid = ScreenGrid::from_text(&["[OK]     [Cancel]"], 20);
    let inverse = CellStyle::new().with_inverse(true);

    grid.style_range(0, 0, 4, inverse);
    grid.style_range(0, 9, 17, inverse);

    let clusters = segment(&grid);

    assert!(clusters.iter().all(|c| !c.is_whitespace_only()));
    let texts: Vec<&str> = clusters.iter().map(|c| c.text.as_str()).collect();
    assert!(texts.contains(&"[OK]"));
    assert!(texts.contains(&"[Cancel]"));
}

#[test]
fn cluster_width_cjk() {
    let cluster = Cluster::new(0, 0, "你好".to_string(), CellStyle::default());
    assert_eq!(cluster.width, 4);
}

#[test]
fn cluster_width_ascii() {
    let cluster = Cluster::new(0, 0, "Hello".to_string(), CellStyle::default());
    assert_eq!(cluster.width, 5);
}

#[test]
fn cluster_width_mixed() {
    let cluster = Cluster::new(0, 0, "Hi你好".to_string(), CellStyle::default());
    assert_eq!(cluster.width, 6);
}

#[test]
fn cell_style_default() {
    let style = CellStyle::default();
    assert!(!style.bold);
    assert!(!style.inverse);
    assert_eq!(style.fg_color, Color::Default);
}

#[test]
fn is_inverse_helper() {
    assert!(!CellStyle::new().is_inverse());
    assert!(CellStyle::new().with_inverse(true).is_inverse());
}

#[test]
fn tokenizer_extracts_from_text() {
    let tokens = extract_bracketed_tokens("Save [OK] [Cancel]");
    assert_eq!(tokens.len(), 2);
    assert_eq!(tokens[0].text, "[OK]");
    assert_eq!(tokens[1].text, "[Cancel]");
}

#[test]
fn cursor_in_range_handles_overflow() {
    let ctx = ClassifyContext::new().with_cursor(0, u16::MAX);
    assert!(!cursor_in_range(&ctx, 0, u16::MAX - 10, 100));

    let ctx = ClassifyContext::new().with_cursor(0, u16::MAX - 5);
    assert!(cursor_in_range(&ctx, 0, u16::MAX - 10, 10));
}

#[test]
fn button_patterns_recognized() {
    assert!(is_button_pattern("[OK]"));
    assert!(is_button_pattern("<Cancel>"));
    assert!(is_button_pattern("(Submit)"));
    assert!(!is_button_pattern("[x]"));
    assert!(!is_button_pattern("Hello"));
    assert!(!is_button_pattern("[Yes] [No]"));
}

#[test]
fn checkbox_patterns_recognized() {
    assert_eq!(is_checkbox_pattern("[x]"), Some(true));
    assert_eq!(is_checkbox_pattern("[X]"), Some(true));
    assert_eq!(is_checkbox_pattern("[ ]"), Some(false));
    assert_eq!(is_checkbox_pattern("[.]"), Some(false));
    assert_eq!(is_checkbox_pattern("(x)"), Some(true));
    assert_eq!(is_checkbox_pattern("( )"), Some(false));
    assert_eq!(is_checkbox_pattern("☑"), Some(true));
    assert_eq!(is_checkbox_pattern("☐"), Some(false));
    assert_eq!(is_checkbox_pattern("[OK]"), None);
}

#[test]
fn input_patterns_recognized() {
    assert!(is_input_pattern("_____"));
    assert!(is_input_pattern("[    ]"));
    assert!(is_input_pattern("Name: ___"));
    assert!(!is_input_pattern("__"));
    assert!(!is_input_pattern("Hello"));
}

#[test]
fn unicode_checkbox_glyphs() {
    assert!(is_unicode_checkbox("☑"));
    assert!(is_unicode_checkbox("☐"));
    assert!(is_unicode_checkbox("✓"));
    assert!(!is_unicode_checkbox("x"));
    assert!(!is_unicode_checkbox("☑☑"));
}

#[test]
fn underscore_runs_extracted() {
    let tokens = extract_underscore_runs("Name: ____ Age: ___");
    assert_eq!(tokens.len(), 2);
    assert_eq!(tokens[0].text, "____");
    assert_eq!(tokens[0].byte_offset, 6);
    assert_eq!(tokens[1].text, "___");
}

#[test]
fn token_col_offset_ascii() {
    assert_eq!(token_col_offset("Save [OK]", 5), 5);
    assert_eq!(token_col_offset("abc", 0), 0);
}

#[test]
fn token_col_offset_cjk_counts_display_columns() {
    // Two wide characters before the token: 4 display columns, 6 bytes.
    let text = "确认[OK]";
    assert_eq!(token_col_offset(text, 6), 4);
}

#[test]
fn dedup_extracts_button_from_text() {
    let ctx = ClassifyContext::new();
    let elements =
        extract_elements_from_cluster(&Cluster::new(0, 0, "Save [OK] Cancel".to_string(), CellStyle::default()), &ctx);

    assert_eq!(elements.len(), 1);
    assert_eq!(elements[0].text, "[OK]");
    assert_eq!(elements[0].col, 5);
}

#[test]
fn token_col_with_cjk_prefix_bracketed() {
    let ctx = ClassifyContext::new();
    let cluster = Cluster::new(0, 0, "确认[OK]".to_string(), CellStyle::default());
    let elements = extract_elements_from_cluster(&cluster, &ctx);
    assert_eq!(elements.len(), 1);
    assert_eq!(elements[0].text, "[OK]");
    assert_eq!(elements[0].col, 4);
}

#[test]
fn classify_returns_sorted_elements() {
    let ctx = ClassifyContext::new();
    let clusters = vec![cluster("[OK]"), cluster("[Cancel]"), cluster("[ ]")];
    let elements = classify(clusters, &ctx);

    assert_eq!(elements.len(), 3);
    assert_eq!(elements[0].kind, ElementKind::Button);
    assert_eq!(elements[1].kind, ElementKind::Button);
    assert_eq!(elements[2].kind, ElementKind::Toggle);
}

#[test]
fn detect_full_pipeline() {
    let mut grid = ScreenGrid::from_text(&["[OK] [Cancel] [ ]"], 20);
    let inverse = CellStyle::new().with_inverse(true);
    let bold = CellStyle::new().with_bold(true);

    grid.style_range(0, 0, 4, inverse);
    grid.style_range(0, 5, 13, bold);

    let elements = detect(&grid, &ClassifyContext::new());
    let kinds: Vec<ElementKind> = elements.iter().map(|e| e.kind).collect();

    assert!(kinds.contains(&ElementKind::Button));
    assert!(kinds.contains(&ElementKind::Toggle));
}

#[test]
fn inverse_cluster_yields_focused_button() {
    let ctx = ClassifyContext::new();
    let c = Cluster::new(0, 0, "File".to_string(), CellStyle::new().with_inverse(true));
    let elements = extract_elements_from_cluster(&c, &ctx);
    assert_eq!(elements.len(), 1);
    assert_eq!(elements[0].kind, ElementKind::Button);
    assert!(elements[0].focused);
    assert_eq!(elements[0].confidence, 100);
}

#[test]
fn checkbox_cluster_yields_toggle_with_state() {
    let ctx = ClassifyContext::new();
    let checked = extract_elements_from_cluster(&cluster("[x]"), &ctx);
    assert_eq!(checked[0].kind, ElementKind::Toggle);
    assert_eq!(checked[0].checked, Some(true));

    let unchecked = extract_elements_from_cluster(&cluster("[ ]"), &ctx);
    assert_eq!(unchecked[0].kind, ElementKind::Toggle);
    assert_eq!(unchecked[0].checked, Some(false));
}

#[test]
fn plain_text_is_not_interactive() {
    let ctx = ClassifyContext::new();
    assert!(extract_elements_from_cluster(&cluster("Hello World"), &ctx).is_empty());
}

#[test]
fn bracket_button_confidence_is_eighty() {
    let ctx = ClassifyContext::new();
    let elements = extract_elements_from_cluster(&cluster("[OK]"), &ctx);
    assert_eq!(elements.len(), 1);
    assert_eq!(elements[0].kind, ElementKind::Button);
    assert_eq!(elements[0].confidence, 80);
}

#[test]
fn underscore_input_confidence_is_sixty() {
    let ctx = ClassifyContext::new();
    let elements = extract_elements_from_cluster(&cluster("_____"), &ctx);
    assert_eq!(elements.len(), 1);
    assert_eq!(elements[0].kind, ElementKind::Input);
    assert_eq!(elements[0].confidence, 60);
}

#[test]
fn cursor_makes_focused_input() {
    let ctx = ClassifyContext::new().with_cursor(0, 5);
    let elements =
        extract_elements_from_cluster(&Cluster::new(0, 0, "some text".to_string(), CellStyle::default()), &ctx);
    assert_eq!(elements.len(), 1);
    assert_eq!(elements[0].kind, ElementKind::Input);
    assert!(elements[0].focused);
}

#[test]
fn oversized_text_yields_no_tokens() {
    let huge = "[".repeat(4097);
    assert!(extract_bracketed_tokens(&huge).is_empty());
    let huge_underscores = "_".repeat(4097);
    assert!(extract_underscore_runs(&huge_underscores).is_empty());
}

#[test]
fn ui_pattern_screen_detects_buttons_and_toggles() {
    let grid = ScreenGrid::from_text(&["[ OK ]  [ Cancel ]", "[x] Option A", "[ ] Option B"], 20);
    let elements = detect(&grid, &ClassifyContext::new());

    let buttons: Vec<_> = elements.iter().filter(|e| e.kind == ElementKind::Button).collect();
    let toggles: Vec<_> = elements.iter().filter(|e| e.kind == ElementKind::Toggle).collect();
    assert!(buttons.len() >= 2, "expected two buttons, got {:?}", buttons.len());
    assert!(toggles.len() >= 2, "expected two toggles, got {:?}", toggles.len());
    assert!(toggles.iter().any(|t| t.checked == Some(true)));
    assert!(toggles.iter().any(|t| t.checked == Some(false)));
    for e in &elements {
        assert!(!e.text.is_empty());
        assert!(e.row < 3);
        assert!(e.col < 20);
    }
}
