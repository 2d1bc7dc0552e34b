fn code_only(source: &str) -> String {

    let stripped: String = source
        .split("\"\"\"")
        .step_by(2)
        .collect::<Vec<_>>()
        .join("\n");

    stripped
        .lines()
        .map(|line| line.split("//").next().unwrap_or(line))
        .collect::<Vec<_>>()
        .join("\n")
}

const FRAME_ORDER: [&str; 7] = [
    "width",
    "height",
    "minWidth",
    "maxWidth",
    "minHeight",
    "maxHeight",
    "alignment",
];

fn frame_calls(code: &str) -> Vec<(usize, Vec<&str>)> {
    let bytes = code.as_bytes();
    let mut calls = Vec::new();
    let mut search = 0;

    while let Some(found) = code[search..].find(".frame(") {
        let open = search + found + ".frame(".len();
        search = open;

        let mut depth = 1usize;
        let mut labels = Vec::new();
        let mut i = open;
        while i < bytes.len() && depth > 0 {
            match bytes[i] {
                b'(' | b'[' => depth += 1,
                b')' | b']' => depth -= 1,
                b':' if depth == 1 => {

                    let start = code[..i]
                        .rfind(|c: char| !(c.is_ascii_alphanumeric() || c == '_'))
                        .map_or(0, |b| b + 1);
                    let word = &code[start..i];
                    if let Some(label) = FRAME_ORDER.iter().find(|l| **l == word) {
                        labels.push(*label);
                    }
                }
                _ => {}
            }
            i += 1;
        }

        let line = code[..open].lines().count();
        calls.push((line, labels));
    }
    calls
}

fn is_ordered(labels: &[&str]) -> bool {
    let mut expected = FRAME_ORDER.iter();
    labels
        .iter()
        .all(|label| expected.any(|candidate| candidate == label))
}

#[test]
fn the_scanner_rejects_what_the_compiler_rejected() {
    let bad = ".frame(maxWidth: .infinity, height: Metrics.statusBarHeight, alignment: .center)";
    let (_, labels) = frame_calls(bad).remove(0);
    assert_eq!(labels, ["maxWidth", "height", "alignment"]);
    assert!(!is_ordered(&labels), "this is the error that shipped");

    for good in [
        ".frame(height: Metrics.tabHeight, maxWidth: .infinity, alignment: .leading)",
        ".frame(width: 12, height: 1)",
        ".frame(maxWidth: .infinity, maxHeight: .infinity, alignment: .topLeading)",

        ".frame(width: max(a, b), height: wide ? 10 : 20)",
    ] {
        let (_, labels) = frame_calls(good).remove(0);
        assert!(is_ordered(&labels), "{good} is legal Swift: {labels:?}");
    }

    assert_eq!(frame_calls(".frame(width: 1)\n.frame(height: 2)").len(), 2);
}

#[test]
fn strings_and_comments_are_not_source() {
    let sample = code_only("let s = #\"\"\"\n@State private var count = 0\n\"\"\"#\nlet x = 1");
    assert!(!sample.contains("@State"), "raw string leaked: {sample:?}");
    assert!(sample.contains("let x = 1"), "code after a string was lost");

    let doc = code_only("/// `didSet` rather than `@Observed`.\nlet y = 2");
    assert!(!doc.contains("@Observed"), "comment leaked: {doc:?}");
    assert!(doc.contains("let y = 2"));
}

fn axis_writes(code: &str) -> Vec<(usize, &'static str)> {
    let mut found = Vec::new();
    for (index, line) in code.lines().enumerate() {
        for axis in ["sizingX", "sizingY"] {

            if let Some(at) = line.find(&format!("{axis} =")) {
                if !line[at..].starts_with(&format!("{axis} ==")) {
                    found.push((index + 1, axis));
                }
            }
        }
    }
    found
}

#[test]
fn the_axis_scanner_reads_assignments_only() {
    assert_eq!(axis_writes("node.sizingX = SF_SIZING_FILL"), [(1, "sizingX")]);
    assert_eq!(axis_writes("guard child.sizingX == SF_SIZING_FILL"), []);
    assert_eq!(axis_writes("node.sizingY = child.sizingY.inherited"), [(1, "sizingY")]);
    assert_eq!(axis_writes("node.sizing = SF_SIZING_HUG"), []);
}
