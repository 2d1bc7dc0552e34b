
const OVERSCAN: f32 = 180.0;
const FIRST_FRAME_ROWS: i32 = 40;

#[derive(Debug, PartialEq)]
struct ListWindow {
    first: i32,
    count: i32,
    leading_pad: f32,
    trailing_pad: f32,
}

impl ListWindow {
    fn new(heights: &[f32], offset: f32, viewport_length: f32) -> Self {
        let row_count = heights.len() as i32;
        let h = |i: i32| heights[i as usize].max(0.0);

        if row_count <= 0 {
            return ListWindow {
                first: 0,
                count: 0,
                leading_pad: 0.0,
                trailing_pad: 0.0,
            };
        }

        if viewport_length <= 0.0 {
            let count = row_count.min(FIRST_FRAME_ROWS);
            let trailing: f32 = (count..row_count).map(h).sum();
            return ListWindow {
                first: 0,
                count,
                leading_pad: 0.0,
                trailing_pad: trailing,
            };
        }

        let content: f32 = (0..row_count).map(h).sum();
        let max_offset = (content - viewport_length).max(0.0);
        let visible_top = offset.max(0.0).min(max_offset);
        let top = (visible_top - OVERSCAN).max(0.0);
        let bottom = content.min(visible_top + viewport_length + OVERSCAN);

        let mut first_index = 0;
        let mut leading = 0.0f32;
        let mut cursor = 0.0f32;
        let mut index = 0;

        while index < row_count {
            let height = h(index);
            if cursor + height > top {
                break;
            }
            cursor += height;
            leading = cursor;
            index += 1;
            first_index = index;
        }

        let mut built = 0;
        while index < row_count && cursor < bottom {
            cursor += h(index);
            index += 1;
            built += 1;
        }

        let trailing: f32 = (index..row_count).map(h).sum();

        ListWindow {
            first: first_index,
            count: built,
            leading_pad: leading,
            trailing_pad: trailing,
        }
    }

    fn last(&self) -> i32 {
        self.first + self.count
    }
}

fn heights(row_count: usize, pattern: &[f32]) -> Vec<f32> {
    (0..row_count).map(|i| pattern[i % pattern.len()]).collect()
}

fn total(heights: &[f32]) -> f32 {
    heights.iter().sum()
}

fn row_top(heights: &[f32], i: i32) -> f32 {
    heights[..i as usize].iter().sum()
}

fn covers_viewport(w: &ListWindow, hs: &[f32], offset: f32, viewport: f32) {
    let content = total(hs);
    let max_offset = (content - viewport).max(0.0);
    let top = offset.clamp(0.0, max_offset);
    let bottom = (top + viewport).min(content);

    for i in 0..hs.len() as i32 {
        let row_top = row_top(hs, i);
        let row_bottom = row_top + hs[i as usize];

        let visible = row_bottom > top + 0.01 && row_top < bottom - 0.01;
        if visible {
            assert!(
                i >= w.first && i < w.last(),
                "row {i} (spanning {row_top}..{row_bottom}) is on screen but the \
                 window is {}..{}: offset {offset}, viewport {viewport}",
                w.first,
                w.last()
            );
        }
    }
}

#[test]
fn the_window_always_covers_what_is_on_screen() {
    for pattern in [
        &[44.0f32][..],
        &[44.0, 44.0, 120.0][..],
        &[20.0, 200.0][..],
        &[1.0, 300.0, 55.5, 88.0][..],
    ] {
        for &row_count in &[1usize, 2, 7, 40, 41, 500, 3000] {
            let hs = heights(row_count, pattern);
            let content = total(&hs);
            for &viewport in &[100.0f32, 400.0, 852.0] {
                let mut offsets: Vec<f32> = (0..30).map(|i| content * (i as f32 / 29.0)).collect();
                offsets.extend_from_slice(&[
                    -viewport,
                    -1.0,
                    0.0,
                    content,
                    content + viewport,
                    content * 2.0,
                ]);
                for offset in offsets {
                    let w = ListWindow::new(&hs, offset, viewport);
                    assert!(w.first >= 0 && w.count >= 0, "{w:?} at offset {offset}");
                    assert!(
                        w.last() <= row_count as i32,
                        "{w:?} runs past {row_count} rows at offset {offset}"
                    );
                    covers_viewport(&w, &hs, offset, viewport);
                }
            }
        }
    }
}

#[test]
fn the_pads_and_the_built_rows_add_up_to_the_whole_list() {
    for pattern in [&[44.0f32][..], &[20.0, 200.0][..], &[1.0, 300.0, 55.5][..]] {
        for &row_count in &[1usize, 9, 60, 3000] {
            let hs = heights(row_count, pattern);
            let content = total(&hs);
            for step in 0..40 {
                let offset = content * (step as f32 / 39.0);
                let w = ListWindow::new(&hs, offset, 800.0);
                let built: f32 = (w.first..w.last()).map(|i| hs[i as usize]).sum();
                let sum = w.leading_pad + built + w.trailing_pad;
                assert!(
                    (sum - content).abs() < 0.5,
                    "{w:?} accounts for {sum} of {content} points"
                );
                assert!(
                    (w.leading_pad - row_top(&hs, w.first)).abs() < 0.5,
                    "the leading pad {} does not reach row {}, which starts at {}",
                    w.leading_pad,
                    w.first,
                    row_top(&hs, w.first)
                );
            }
        }
    }
}

#[test]
fn the_first_frame_builds_rows_before_anything_is_measured() {
    let hs = heights(1000, &[44.0]);
    let w = ListWindow::new(&hs, 0.0, 0.0);
    assert_eq!(w.first, 0);
    assert_eq!(w.count, FIRST_FRAME_ROWS);
    assert!((w.trailing_pad - (1000 - FIRST_FRAME_ROWS) as f32 * 44.0).abs() < 0.01);
}

#[test]
fn nothing_degenerate_traps() {
    for hs in [vec![], vec![0.0f32; 10], vec![44.0], vec![0.0, 44.0, 0.0]] {
        for &offset in &[-500.0f32, 0.0, 500.0] {
            let w = ListWindow::new(&hs, offset, 800.0);
            assert!(w.first >= 0 && w.count >= 0, "{w:?} for {hs:?}");
            assert!(w.last() <= hs.len() as i32, "{w:?} for {hs:?}");
            assert!(w.leading_pad >= 0.0 && w.trailing_pad >= 0.0, "{w:?}");
        }
    }
}

#[test]
fn a_long_list_builds_a_screenful() {
    let hs = heights(3000, &[44.0]);
    let w = ListWindow::new(&hs, 5_000.0, 852.0);
    assert!(
        w.count < 40,
        "built {} rows to fill an 852pt viewport of 44pt rows",
        w.count
    );
}

#[test]
fn a_list_of_mixed_heights_still_lands() {
    let hs = heights(400, &[18.0, 240.0, 44.0, 96.0]);
    let content = total(&hs);
    for step in 0..60 {
        let offset = content * (step as f32 / 59.0);
        let w = ListWindow::new(&hs, offset, 852.0);
        covers_viewport(&w, &hs, offset, 852.0);
        let built: f32 = (w.first..w.last()).map(|i| hs[i as usize]).sum();
        assert!(
            (w.leading_pad + built + w.trailing_pad - content).abs() < 0.5,
            "{w:?} does not account for the whole list at offset {offset}"
        );
    }
}
