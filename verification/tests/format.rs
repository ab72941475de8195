//! Tests of the clang-format adapter: parsing the replacements XML,
//! resolving offsets, and filtering advice to changed ranges.

use cpp_linter::clang_tools::clang_format::{
    parse_replacements_xml, process_format_replacements, tally_format_advice, FormatAdvice,
    Replacement,
};
use cpp_linter::common_fs::FileObj;

#[test]
fn parse_xml() {
    let xml_raw = r#"<?xml version='1.0'?>
<replacements xml:space='preserve' incomplete_format='false'>
<replacement offset='113' length='5'>&#10;      </replacement>
<replacement offset='147' length='0'> </replacement>
<replacement offset='161' length='0'></replacement>
<replacement offset='165' length='19'>&#10;&#10;</replacement>
</replacements>"#;
    // since whitespace is part of the elements' body, remove the LFs first
    let xml = xml_raw.lines().collect::<Vec<&str>>().join("");

    let expected = FormatAdvice {
        replacements: vec![
            Replacement {
                offset: 113,
                length: 5,
                value: Some(String::from("\n      ")),
                line: None,
                cols: None,
            },
            Replacement {
                offset: 147,
                length: 0,
                value: Some(String::from(" ")),
                line: None,
                cols: None,
            },
            Replacement {
                offset: 161,
                length: 0,
                value: None,
                line: None,
                cols: None,
            },
            Replacement {
                offset: 165,
                length: 19,
                value: Some(String::from("\n\n")),
                line: None,
                cols: None,
            },
        ],
    };
    let document = parse_replacements_xml(&xml).unwrap();
    assert_eq!(expected, document);
}

#[test]
fn parse_xml_empty_document() {
    let xml = "<?xml version='1.0'?><replacements xml:space='preserve'></replacements>";
    let document = parse_replacements_xml(xml).unwrap();
    assert!(document.replacements.is_empty());
}

#[test]
fn parse_xml_entities() {
    let xml = "<replacements><replacement offset='0' length='3'>&lt;&amp;&gt;</replacement></replacements>";
    let document = parse_replacements_xml(xml).unwrap();
    assert_eq!(document.replacements.len(), 1);
    assert_eq!(document.replacements[0].value, Some(String::from("<&>")));
}

#[test]
fn parse_xml_malformed() {
    assert!(parse_replacements_xml("not xml at all").is_none());
    assert!(parse_replacements_xml("<replacements><replacement offset='x' length='0'></replacement></replacements>").is_none());
    assert!(parse_replacements_xml("<replacements><replacement offset='1' length='2'>zzz").is_none());
}

fn plain(offset: usize) -> Replacement {
    Replacement {
        offset,
        length: 0,
        value: None,
        line: None,
        cols: None,
    }
}

#[test]
fn ranges_disabled_keeps_everything() {
    // six lines of five bytes each: "ln_1\n" ...
    let content = b"ln_1\nln_2\nln_3\nln_4\nln_5\nln_6\n";
    let advice = FormatAdvice {
        replacements: vec![plain(0), plain(7), plain(26)],
    };
    let ranges: Vec<(u64, u64)> = Vec::new();
    let out = process_format_replacements(advice, content, &ranges);
    assert_eq!(out.replacements.len(), 3);
    assert_eq!(out.replacements[0].line, Some(1));
    assert_eq!(out.replacements[1].line, Some(2));
    assert_eq!(out.replacements[2].line, Some(6));
    // the items themselves come back unchanged but for line/cols
    assert_eq!(out.replacements[1].offset, 7);
    assert_eq!(out.replacements[1].length, 0);
    assert_eq!(out.replacements[1].value, None);
}

#[test]
fn ranges_filter_retains_iff_line_in_range() {
    let content = b"ln_1\nln_2\nln_3\nln_4\nln_5\nln_6\n";
    let advice = FormatAdvice {
        replacements: vec![plain(0), plain(7), plain(26)],
    };
    let ranges: Vec<(u64, u64)> = vec![(2, 3)];
    let out = process_format_replacements(advice, content, &ranges);
    assert_eq!(out.replacements.len(), 1);
    assert_eq!(out.replacements[0].offset, 7);
    assert_eq!(out.replacements[0].line, Some(2));
}

#[test]
fn out_of_bounds_offset_is_dropped() {
    let content = b"short\n";
    let advice = FormatAdvice {
        replacements: vec![plain(2), plain(100)],
    };
    let ranges: Vec<(u64, u64)> = Vec::new();
    let out = process_format_replacements(advice, content, &ranges);
    assert_eq!(out.replacements.len(), 1);
    assert_eq!(out.replacements[0].offset, 2);
}

#[test]
fn scenario_line_42_retained_line_100_dropped() {
    // A diff touches only line 42: hunk `@@ -40,3 +40,3 @@`, one added line
    // at new line 42. The tool reports one replacement resolving to line 42
    // (retained) and one resolving to line 100 (dropped).
    let mut text = String::new();
    for _ in 0..119 {
        text.push_str("line\n");
    }
    text.push_str("end");
    let content = text.as_bytes();
    let line42_offset = 41 * 5 + 2;
    let line100_offset = 99 * 5 + 2;
    let advice = FormatAdvice {
        replacements: vec![plain(line42_offset), plain(line100_offset)],
    };
    let ranges: Vec<(u64, u64)> = vec![(40, 42)];
    let out = process_format_replacements(advice, content, &ranges);
    assert_eq!(out.replacements.len(), 1);
    assert_eq!(out.replacements[0].offset, line42_offset);
    assert_eq!(out.replacements[0].line, Some(42));
}

#[test]
fn tally_counts_files_with_nonempty_advice() {
    let with_advice = FileObj {
        name: String::from("a.cpp"),
        added_lines: vec![1],
        diff_chunks: vec![(1, 1)],
        format_advice: Some(FormatAdvice {
            replacements: vec![plain(0)],
        }),
    };
    let empty_advice = FileObj {
        name: String::from("b.cpp"),
        added_lines: vec![],
        diff_chunks: vec![],
        format_advice: Some(FormatAdvice {
            replacements: vec![],
        }),
    };
    let no_advice = FileObj {
        name: String::from("c.cpp"),
        added_lines: vec![],
        diff_chunks: vec![],
        format_advice: None,
    };
    let files = vec![with_advice, empty_advice, no_advice];
    assert_eq!(tally_format_advice(&files), 1);
}

#[test]
fn parse_xml_double_quoted_attributes() {
    let xml = "<replacements><replacement offset=\"4\" length=\"2\">ab</replacement></replacements>";
    let document = parse_replacements_xml(xml).unwrap();
    assert_eq!(document.replacements.len(), 1);
    assert_eq!(document.replacements[0].offset, 4);
    assert_eq!(document.replacements[0].length, 2);
    assert_eq!(document.replacements[0].value, Some(String::from("ab")));
}
