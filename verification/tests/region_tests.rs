use pilotty::region::{
    deduplicate_regions, detect_boxes, detect_highlighted_regions, detect_patterns,
    detect_underlined_shortcuts, is_box_drawing_char, is_box_drawing_text,
    regions_overlap_significantly, Cell, CellAttrs, Color, Screen,
};
use pilotty::snapshot::{Rect, RefId, Region, RegionType};

#[test]
fn test_detect_simple_box() {
    let screen = Screen::from_text("┌───────┐\n│ Hello │\n└───────┘");

    let mut counter = 0;
    let regions = detect_boxes(&screen, &mut counter);

    assert_eq!(regions.len(), 1, "Should detect one box");

    let region = &regions[0];
    assert_eq!(region.bounds.x, 0);
    assert_eq!(region.bounds.y, 0);
    assert_eq!(region.bounds.width, 9);
    assert_eq!(region.bounds.height, 3);
    assert_eq!(region.text, "Hello");
    assert_eq!(region.ref_id.as_str(), "@e1");
}

#[test]
fn test_detect_dialog_box() {
    let screen = Screen::from_text(
        "  ╔════════════════╗\n│ ║  Save changes? ║\n│ ╚════════════════╝\n│                   ",
    );

    let mut counter = 0;
    let regions = detect_boxes(&screen, &mut counter);

    assert_eq!(regions.len(), 1, "Should detect dialog box");

    let region = &regions[0];
    assert_eq!(region.bounds.x, 2);
    assert_eq!(region.bounds.y, 0);
    assert!(region.text.contains("Save changes?"));
}

#[test]
fn test_detect_nested_boxes() {
    let screen = Screen::from_text(
        "┌─────────────┐\n│ ┌─────────┐ │\n│ │  Inner  │ │\n│ └─────────┘ │\n└─────────────┘",
    );

    let mut counter = 0;
    let regions = detect_boxes(&screen, &mut counter);

    assert_eq!(regions.len(), 2, "Should detect two boxes");

    let outer = regions.iter().find(|r| r.bounds.x == 0).unwrap();
    assert_eq!(outer.bounds.width, 15);

    let inner = regions.iter().find(|r| r.bounds.x == 2).unwrap();
    assert!(inner.text.contains("Inner"));
}

#[test]
fn test_regions_overlap_near_u16_max() {
    let a = Rect { x: u16::MAX - 1, y: 0, width: 2, height: 2 };
    let b = Rect { x: u16::MAX - 1, y: 0, width: 2, height: 2 };

    assert!(regions_overlap_significantly(&a, &b));
}

#[test]
fn test_detect_plus_corner_box() {
    let screen = Screen::from_text("+-------+\n| ASCII |\n+-------+");

    let mut counter = 0;
    let regions = detect_boxes(&screen, &mut counter);

    assert_eq!(regions.len(), 1, "Should detect ASCII box");
    assert!(regions[0].text.contains("ASCII"));
}

#[test]
fn test_no_box_incomplete() {
    let screen = Screen::from_text("┌───────\n│ Broken\n└───────");

    let mut counter = 0;
    let regions = detect_boxes(&screen, &mut counter);

    assert_eq!(regions.len(), 0, "Should not detect incomplete box");
}

#[test]
fn test_multiline_content() {
    let screen = Screen::from_text(
        "┌──────────────┐\n│ Line 1       │\n│ Line 2       │\n│ Line 3       │\n└──────────────┘",
    );

    let mut counter = 0;
    let regions = detect_boxes(&screen, &mut counter);

    assert_eq!(regions.len(), 1);
    let text = &regions[0].text;
    assert!(text.contains("Line 1"), "Text: {}", text);
    assert!(text.contains("Line 2"), "Text: {}", text);
    assert!(text.contains("Line 3"), "Text: {}", text);
}

fn make_highlighted_cell(c: char, inverse: bool) -> Cell {
    Cell::with_attrs(c, CellAttrs { inverse, ..Default::default() })
}

fn make_bg_cell(c: char, bg: Color) -> Cell {
    Cell::with_attrs(c, CellAttrs { bg, ..Default::default() })
}

#[test]
fn test_detect_inverse_menu_item() {
    let mut row: Vec<Cell> = vec![];

    for c in "File  ".chars() {
        row.push(Cell::new(c));
    }

    for c in "Edit".chars() {
        row.push(make_highlighted_cell(c, true));
    }

    for c in "  View".chars() {
        row.push(Cell::new(c));
    }

    let screen = Screen::from_cells(vec![row]);

    let mut counter = 0;
    let regions = detect_highlighted_regions(&screen, &mut counter);

    assert_eq!(regions.len(), 1, "Should detect one highlighted region");

    let region = &regions[0];
    assert_eq!(region.text, "Edit");
    assert_eq!(region.bounds.x, 6);
    assert_eq!(region.bounds.width, 4);
    assert!(region.focused, "Inverse region should be marked as focused");
    assert_eq!(region.region_type, RegionType::MenuItem);
}

#[test]
fn test_detect_colored_background_button() {
    let mut row: Vec<Cell> = vec![];

    row.push(Cell::new(' '));
    row.push(Cell::new(' '));

    for c in "[ OK ]".chars() {
        row.push(make_bg_cell(c, Color::Blue));
    }

    row.push(Cell::new(' '));

    let screen = Screen::from_cells(vec![row]);

    let mut counter = 0;
    let regions = detect_highlighted_regions(&screen, &mut counter);

    assert_eq!(regions.len(), 1, "Should detect button");

    let region = &regions[0];
    assert_eq!(region.text, "[ OK ]");
    assert_eq!(region.bounds.x, 2);
}

#[test]
fn test_detect_multiple_highlights() {
    let mut row: Vec<Cell> = vec![];

    for c in "File".chars() {
        row.push(make_bg_cell(c, Color::Blue));
    }

    row.push(Cell::new(' '));

    for c in "Edit".chars() {
        row.push(make_highlighted_cell(c, true));
    }

    row.push(Cell::new(' '));

    for c in "View".chars() {
        row.push(make_bg_cell(c, Color::Blue));
    }

    let screen = Screen::from_cells(vec![row]);

    let mut counter = 0;
    let regions = detect_highlighted_regions(&screen, &mut counter);

    assert_eq!(regions.len(), 3, "Should detect three highlighted regions");

    let edit_region = regions.iter().find(|r| r.text == "Edit").unwrap();
    assert!(edit_region.focused);
    assert_eq!(edit_region.region_type, RegionType::MenuItem);
}

#[test]
fn test_multirow_highlight() {
    let cells = vec![
        vec![
            Cell::new(' '),
            Cell::new(' '),
            make_highlighted_cell('I', true),
            make_highlighted_cell('t', true),
            make_highlighted_cell('e', true),
            make_highlighted_cell('m', true),
            make_highlighted_cell(' ', true),
            make_highlighted_cell('1', true),
            Cell::new(' '),
            Cell::new(' '),
        ],
        vec![
            Cell::new(' '),
            Cell::new(' '),
            make_highlighted_cell('D', true),
            make_highlighted_cell('e', true),
            make_highlighted_cell('s', true),
            make_highlighted_cell('c', true),
            make_highlighted_cell('r', true),
            make_highlighted_cell('p', true),
            Cell::new(' '),
            Cell::new(' '),
        ],
    ];

    let screen = Screen::from_cells(cells);

    let mut counter = 0;
    let regions = detect_highlighted_regions(&screen, &mut counter);

    assert_eq!(regions.len(), 1, "Should detect one multi-row region");

    let region = &regions[0];
    assert_eq!(region.bounds.height, 2, "Should span 2 rows");
    assert!(region.text.contains("Item 1"));
}

#[test]
fn test_no_highlight_default_attrs() {
    let screen = Screen::from_text("Just plain text");

    let mut counter = 0;
    let regions = detect_highlighted_regions(&screen, &mut counter);

    assert_eq!(regions.len(), 0, "Should not detect any highlights");
}

#[test]
fn test_detect_square_bracket_button() {
    let screen = Screen::from_text("  [ OK ]  [ Cancel ]  ");

    let mut counter = 0;
    let regions = detect_patterns(&screen, &mut counter);

    let buttons: Vec<_> = regions
        .iter()
        .filter(|r| r.region_type == RegionType::Button)
        .collect();

    assert_eq!(buttons.len(), 2, "Should detect two buttons");

    let ok_btn = buttons.iter().find(|r| r.text.contains("OK")).unwrap();
    assert_eq!(ok_btn.text, "[ OK ]");
    assert_eq!(ok_btn.bounds.x, 2);
    assert_eq!(ok_btn.bounds.width, 6);

    let cancel_btn = buttons.iter().find(|r| r.text.contains("Cancel")).unwrap();
    assert_eq!(cancel_btn.text, "[ Cancel ]");
}

#[test]
fn test_detect_angle_bracket_button() {
    let screen = Screen::from_text("< Yes >  < No >");

    let mut counter = 0;
    let regions = detect_patterns(&screen, &mut counter);

    let buttons: Vec<_> = regions
        .iter()
        .filter(|r| r.region_type == RegionType::Button)
        .collect();

    assert_eq!(buttons.len(), 2, "Should detect two angle bracket buttons");

    assert!(buttons.iter().any(|r| r.text == "< Yes >"));
    assert!(buttons.iter().any(|r| r.text == "< No >"));
}

#[test]
fn test_detect_checkboxes() {
    let screen = Screen::from_text("[x] Option A  [ ] Option B  [*] Option C  [X] Option D");

    let mut counter = 0;
    let regions = detect_patterns(&screen, &mut counter);

    let checkboxes: Vec<_> = regions
        .iter()
        .filter(|r| r.region_type == RegionType::Checkbox)
        .collect();

    assert_eq!(checkboxes.len(), 4, "Should detect four checkboxes");

    assert!(checkboxes.iter().any(|r| r.text == "[x]"));
    assert!(checkboxes.iter().any(|r| r.text == "[ ]"));
    assert!(checkboxes.iter().any(|r| r.text == "[*]"));
    assert!(checkboxes.iter().any(|r| r.text == "[X]"));

    let first = checkboxes.iter().find(|r| r.text == "[x]").unwrap();
    assert_eq!(first.bounds.x, 0);
    assert_eq!(first.bounds.width, 3);
    assert_eq!(first.bounds.height, 1);
}

#[test]
fn test_detect_radio_buttons() {
    let screen = Screen::from_text("(*) Selected  ( ) Unselected  (o) Alt selected");

    let mut counter = 0;
    let regions = detect_patterns(&screen, &mut counter);

    let radios: Vec<_> = regions
        .iter()
        .filter(|r| r.region_type == RegionType::RadioButton)
        .collect();

    assert_eq!(radios.len(), 3, "Should detect three radio buttons");

    assert!(radios.iter().any(|r| r.text == "(*)"));
    assert!(radios.iter().any(|r| r.text == "( )"));
    assert!(radios.iter().any(|r| r.text == "(o)"));
}

#[test]
fn test_detect_menu_shortcuts() {
    let screen = Screen::from_text("(F)ile  (E)dit  (V)iew  (H)elp");

    let mut counter = 0;
    let regions = detect_patterns(&screen, &mut counter);

    let shortcuts: Vec<_> = regions
        .iter()
        .filter(|r| r.region_type == RegionType::MenuItem)
        .collect();

    assert_eq!(shortcuts.len(), 4, "Should detect four menu shortcuts");

    assert!(shortcuts.iter().any(|r| r.text == "(F)ile"));
    assert!(shortcuts.iter().any(|r| r.text == "(E)dit"));
    assert!(shortcuts.iter().any(|r| r.text == "(V)iew"));
    assert!(shortcuts.iter().any(|r| r.text == "(H)elp"));

    let file = shortcuts.iter().find(|r| r.text == "(F)ile").unwrap();
    assert_eq!(file.bounds.width, 6);
}

#[test]
fn test_detect_underlined_shortcuts() {
    fn make_underlined_cell(c: char) -> Cell {
        Cell::with_attrs(c, CellAttrs { underline: true, ..Default::default() })
    }

    let mut row: Vec<Cell> = vec![];

    row.push(make_underlined_cell('F'));
    for c in "ile".chars() {
        row.push(Cell::new(c));
    }

    row.push(Cell::new(' '));
    row.push(Cell::new(' '));

    row.push(make_underlined_cell('E'));
    for c in "dit".chars() {
        row.push(Cell::new(c));
    }

    let screen = Screen::from_cells(vec![row]);

    let mut counter = 0;
    let regions = detect_underlined_shortcuts(&screen, &mut counter);

    assert_eq!(regions.len(), 2, "Should detect two underlined shortcuts");

    assert!(regions.iter().any(|r| r.text == "File"));
    assert!(regions.iter().any(|r| r.text == "Edit"));
}

#[test]
fn test_button_not_checkbox() {
    let screen = Screen::from_text("[ OK ]");

    let mut counter = 0;
    let regions = detect_patterns(&screen, &mut counter);

    let buttons: Vec<_> = regions
        .iter()
        .filter(|r| r.region_type == RegionType::Button)
        .collect();
    let checkboxes: Vec<_> = regions
        .iter()
        .filter(|r| r.region_type == RegionType::Checkbox)
        .collect();

    assert_eq!(buttons.len(), 1, "Should detect as button");
    assert_eq!(checkboxes.len(), 0, "Should not detect as checkbox");
}

#[test]
fn test_checkbox_not_button() {
    let screen = Screen::from_text("[x]");

    let mut counter = 0;
    let regions = detect_patterns(&screen, &mut counter);

    let checkboxes: Vec<_> = regions
        .iter()
        .filter(|r| r.region_type == RegionType::Checkbox)
        .collect();

    assert_eq!(checkboxes.len(), 1, "Should detect as checkbox");
    assert_eq!(checkboxes[0].text, "[x]");
}

#[test]
fn test_mixed_patterns_multiline() {
    let screen = Screen::from_text(
        "(F)ile  (E)dit  (V)iew\n[x] Option 1\n[ ] Option 2\n(*) Choice A\n( ) Choice B\n[ OK ]  [ Cancel ]",
    );

    let mut counter = 0;
    let regions = detect_patterns(&screen, &mut counter);

    let buttons: Vec<_> = regions
        .iter()
        .filter(|r| r.region_type == RegionType::Button)
        .collect();
    let checkboxes: Vec<_> = regions
        .iter()
        .filter(|r| r.region_type == RegionType::Checkbox)
        .collect();
    let radios: Vec<_> = regions
        .iter()
        .filter(|r| r.region_type == RegionType::RadioButton)
        .collect();
    let menus: Vec<_> = regions
        .iter()
        .filter(|r| r.region_type == RegionType::MenuItem)
        .collect();

    assert_eq!(menus.len(), 3, "Should detect 3 menu shortcuts");
    assert_eq!(checkboxes.len(), 2, "Should detect 2 checkboxes");
    assert_eq!(radios.len(), 2, "Should detect 2 radio buttons");
    assert_eq!(buttons.len(), 2, "Should detect 2 buttons");
}

#[test]
fn test_ref_ids_increment() {
    let screen = Screen::from_text("[x] [ ] (*)");

    let mut counter = 5;
    let regions = detect_patterns(&screen, &mut counter);

    assert_eq!(regions.len(), 3);
    assert_eq!(regions[0].ref_id.as_str(), "@e6");
    assert_eq!(regions[1].ref_id.as_str(), "@e7");
    assert_eq!(regions[2].ref_id.as_str(), "@e8");
    assert_eq!(counter, 8);
}

#[test]
fn test_button_requires_space_padding() {
    let screen = Screen::from_text("[OK]  [Cancel]");

    let mut counter = 0;
    let regions = detect_patterns(&screen, &mut counter);

    let buttons: Vec<_> = regions
        .iter()
        .filter(|r| r.region_type == RegionType::Button)
        .collect();

    assert_eq!(
        buttons.len(),
        0,
        "Buttons without space padding should not be detected"
    );
}

#[test]
fn test_detect_patterns_correct_row() {
    let screen = Screen::from_text("Line 0\nLine 1 [ OK ]\nLine 2");

    let mut counter = 0;
    let regions = detect_patterns(&screen, &mut counter);

    assert_eq!(regions.len(), 1);
    assert_eq!(regions[0].bounds.y, 1, "Button should be on row 1");
}

#[test]
fn test_deduplicate_removes_overlapping_unknown() {
    let regions = vec![
        Region {
            ref_id: RefId::new("@e1"),
            bounds: Rect { x: 10, y: 5, width: 7, height: 1 },
            region_type: RegionType::Unknown,
            text: "< Yes >".to_string(),
            focused: false,
        },
        Region {
            ref_id: RefId::new("@e2"),
            bounds: Rect { x: 10, y: 5, width: 7, height: 1 },
            region_type: RegionType::Button,
            text: "< Yes >".to_string(),
            focused: false,
        },
    ];

    let deduped = deduplicate_regions(regions);

    assert_eq!(deduped.len(), 1, "Should keep only one region");
    assert_eq!(
        deduped[0].region_type,
        RegionType::Button,
        "Should keep the Button (more specific)"
    );
}

#[test]
fn test_deduplicate_keeps_non_overlapping() {
    let regions = vec![
        Region {
            ref_id: RefId::new("@e1"),
            bounds: Rect { x: 10, y: 5, width: 7, height: 1 },
            region_type: RegionType::Button,
            text: "< Yes >".to_string(),
            focused: false,
        },
        Region {
            ref_id: RefId::new("@e2"),
            bounds: Rect { x: 30, y: 5, width: 6, height: 1 },
            region_type: RegionType::Button,
            text: "< No >".to_string(),
            focused: false,
        },
    ];

    let deduped = deduplicate_regions(regions);

    assert_eq!(deduped.len(), 2, "Should keep both non-overlapping regions");
}

#[test]
fn test_deduplicate_prefers_smaller_when_same_type() {
    let regions = vec![
        Region {
            ref_id: RefId::new("@e1"),
            bounds: Rect { x: 5, y: 5, width: 20, height: 5 },
            region_type: RegionType::Unknown,
            text: "Large box".to_string(),
            focused: false,
        },
        Region {
            ref_id: RefId::new("@e2"),
            bounds: Rect { x: 10, y: 7, width: 7, height: 1 },
            region_type: RegionType::Unknown,
            text: "< OK >".to_string(),
            focused: false,
        },
    ];

    let deduped = deduplicate_regions(regions);

    assert_eq!(deduped.len(), 1, "Should deduplicate overlapping same-type");
    assert_eq!(deduped[0].text, "< OK >", "Should keep the smaller region");
}

#[test]
fn test_is_box_drawing_char_unicode() {
    assert!(is_box_drawing_char('┌'));
    assert!(is_box_drawing_char('┐'));
    assert!(is_box_drawing_char('└'));
    assert!(is_box_drawing_char('┘'));
    assert!(is_box_drawing_char('─'));
    assert!(is_box_drawing_char('│'));
    assert!(is_box_drawing_char('╔'));
    assert!(is_box_drawing_char('═'));
}

#[test]
fn test_is_box_drawing_char_vt100() {
    assert!(is_box_drawing_char('l'));
    assert!(is_box_drawing_char('k'));
    assert!(is_box_drawing_char('m'));
    assert!(is_box_drawing_char('j'));
    assert!(is_box_drawing_char('q'));
    assert!(is_box_drawing_char('x'));
    assert!(is_box_drawing_char('t'));
    assert!(is_box_drawing_char('u'));
    assert!(is_box_drawing_char('n'));
}

#[test]
fn test_is_box_drawing_char_ascii_fallback() {
    assert!(is_box_drawing_char('+'));
    assert!(is_box_drawing_char('-'));
    assert!(is_box_drawing_char('|'));
}

#[test]
fn test_is_box_drawing_char_regular() {
    assert!(!is_box_drawing_char('a'));
    assert!(!is_box_drawing_char('Z'));
    assert!(!is_box_drawing_char('0'));
    assert!(!is_box_drawing_char(' '));
    assert!(!is_box_drawing_char('!'));
    assert!(!is_box_drawing_char('<'));
    assert!(!is_box_drawing_char('>'));
}

#[test]
fn test_is_box_drawing_text_vt100_corners() {
    assert!(is_box_drawing_text("mqj"));
    assert!(is_box_drawing_text("lqk"));
    assert!(is_box_drawing_text("tqu"));
}

#[test]
fn test_is_box_drawing_text_unicode() {
    assert!(is_box_drawing_text("┌──┐"));
    assert!(is_box_drawing_text("└──┘"));
    assert!(is_box_drawing_text("│  │"));
}

#[test]
fn test_is_box_drawing_text_mixed() {
    assert!(is_box_drawing_text("lqqqk"));
    assert!(!is_box_drawing_text("Hello"));
    assert!(!is_box_drawing_text("< Yes >"));
    assert!(!is_box_drawing_text("[ OK ]"));
}

#[test]
fn test_is_box_drawing_text_edge_cases() {
    assert!(!is_box_drawing_text(""));
    assert!(!is_box_drawing_text("   "));
    assert!(!is_box_drawing_text("lA"));
}

#[test]
fn test_highlight_skips_box_drawing_text() {
    let mut row: Vec<Cell> = vec![];

    for c in "mqj".chars() {
        row.push(make_highlighted_cell(c, true));
    }

    let screen = Screen::from_cells(vec![row]);

    let mut counter = 0;
    let regions = detect_highlighted_regions(&screen, &mut counter);

    assert_eq!(
        regions.len(),
        0,
        "Should skip highlighted box-drawing characters"
    );
}

#[test]
fn test_highlight_keeps_real_content() {
    let mut row: Vec<Cell> = vec![];

    for c in "Edit".chars() {
        row.push(make_highlighted_cell(c, true));
    }

    let screen = Screen::from_cells(vec![row]);

    let mut counter = 0;
    let regions = detect_highlighted_regions(&screen, &mut counter);

    assert_eq!(regions.len(), 1, "Should detect real highlighted content");
    assert_eq!(regions[0].text, "Edit");
}
