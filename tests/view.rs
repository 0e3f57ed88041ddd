use plotview::canvas::{blank, lines_of, overlay, text_of};
use plotview::coord::{coord_from_bits, coord_to_bits, Range, NEG_INFINITY, POS_INFINITY};
use plotview::view::{left_gutter_width, Extent, View, ViewError};
use svg::node::element::Group;
use svg::Node;

fn key(v: f64) -> i64 {
    coord_from_bits(v.to_bits())
}

fn extent(x0: f64, x1: f64, y0: f64, y1: f64) -> Extent {
    Extent {
        x: Range::new(key(x0), key(x1)),
        y: Range::new(key(y0), key(y1)),
    }
}

fn grid(text: &str) -> Vec<Vec<char>> {
    lines_of(text)
}

fn canvas_lines(text: &str) -> Vec<String> {
    text.split('\n').map(|l| l.to_string()).collect()
}

#[test]
fn keys_order_like_doubles() {
    let values = [f64::NEG_INFINITY, -1.0e300, -2.5, -0.0, 0.0, 1.0e-300, 3.0, f64::INFINITY];
    for w in values.windows(2) {
        assert!(key(w[0]) < key(w[1]), "{} {}", w[0], w[1]);
    }
    assert_eq!(key(f64::INFINITY), POS_INFINITY);
    assert_eq!(key(f64::NEG_INFINITY), NEG_INFINITY);
    assert_eq!(key(0.0), 0);
    assert_eq!(key(-0.0), -1);
}

#[test]
fn keys_round_trip() {
    for v in [0.0, -0.0, 1.5, -1.5, 1.0e10, -7.25e-8, f64::INFINITY, f64::NEG_INFINITY] {
        let back = f64::from_bits(coord_to_bits(key(v)));
        assert_eq!(back.to_bits(), v.to_bits());
    }
}

#[test]
fn default_range_spans_all_series() {
    let a = extent(-1.0, 2.0, 5.0, 6.0);
    let b = extent(0.5, 4.0, -3.0, 5.5);
    let c = extent(-0.5, 1.0, 0.0, 10.0);
    let v = View::new().add(a).add(b).add(c);
    assert_eq!(v.resolved_x_range(), Range::new(key(-1.0), key(4.0)));
    assert_eq!(v.resolved_y_range(), Range::new(key(-3.0), key(10.0)));
}

#[test]
fn single_series_range_is_its_extent() {
    let v = View::new().add(extent(2.0, 3.0, -1.0, 1.0));
    assert_eq!(v.resolved_x_range(), Range::new(key(2.0), key(3.0)));
    assert_eq!(v.resolved_y_range(), Range::new(key(-1.0), key(1.0)));
}

#[test]
fn set_range_overrides_data() {
    let v = View::new()
        .add(extent(0.0, 1.0, 0.0, 1.0))
        .add(extent(0.25, 0.75, 0.1, 0.9))
        .x_range(key(-10.0), key(10.0))
        .y_range(key(-10.0), key(10.0));
    assert_eq!(v.resolved_x_range(), Range::new(key(-10.0), key(10.0)));
    assert_eq!(v.resolved_y_range(), Range::new(key(-10.0), key(10.0)));
    assert_eq!(
        v.axis_ranges(),
        Ok((Range::new(key(-10.0), key(10.0)), Range::new(key(-10.0), key(10.0))))
    );
}

#[test]
fn set_range_on_one_axis_only() {
    let v = View::new().add(extent(0.0, 1.0, 2.0, 3.0)).y_range(key(-10.0), key(10.0));
    assert_eq!(v.resolved_x_range(), Range::new(key(0.0), key(1.0)));
    assert_eq!(v.resolved_y_range(), Range::new(key(-10.0), key(10.0)));
}

#[test]
fn empty_view_fails_fast() {
    let v = View::new();
    assert_eq!(v.axis_ranges(), Err(ViewError::NoData));
    let r = v.resolved_x_range();
    assert_eq!(r, Range::empty());
    assert!(r.is_inverted());
    let only_x = View::new().x_range(key(0.0), key(1.0));
    assert_eq!(only_x.axis_ranges(), Err(ViewError::NoData));
    let both = View::new().x_range(key(0.0), key(1.0)).y_range(key(2.0), key(3.0));
    assert_eq!(
        both.axis_ranges(),
        Ok((Range::new(key(0.0), key(1.0)), Range::new(key(2.0), key(3.0))))
    );
}

#[test]
fn empty_view_text_is_labels_on_blank_canvas() {
    let v = View::new();
    let faces: Vec<String> = vec![];
    let s = v.to_text(10, 5, &faces, &"1\n\n\n\n0".to_string(), 1, &"0 1".to_string(), 0);
    let lines = canvas_lines(&s);
    assert_eq!(lines.len(), 8);
    for l in &lines {
        assert_eq!(l.chars().count(), 10 + 2 + 2);
    }
    assert_eq!(lines[0], format!("1{}", " ".repeat(13)));
    assert_eq!(lines[4], format!("0{}", " ".repeat(13)));
    assert_eq!(lines[5], format!("  0 1{}", " ".repeat(9)));
}

#[test]
fn text_exact_small_view() {
    let v = View::new();
    let faces: Vec<String> = vec![];
    let s = v.to_text(3, 2, &faces, &"1\n0".to_string(), 1, &"0 1".to_string(), 0);
    assert_eq!(s, "1      \n0      \n  0 1  \n       \n       ");
}

#[test]
fn text_canvas_size_for_several_layouts() {
    for (fw, fh, longest, offset) in [(1u32, 1u32, 0u32, 0i32), (10, 4, 3, -1), (7, 3, 1, -9), (20, 10, 5, 2)] {
        let face: String = vec![" ".repeat(fw as usize); fh as usize].join("\n");
        let v = View::new().add(extent(0.0, 1.0, 0.0, 1.0));
        let s = v.to_text(fw, fh, &vec![face], &"9".to_string(), longest, &"x".to_string(), offset);
        let gutter = std::cmp::max(longest as i64 + 1, -(offset as i64)) as usize;
        let lines = canvas_lines(&s);
        assert_eq!(lines.len(), fh as usize + 3);
        for l in &lines {
            assert_eq!(l.chars().count(), fw as usize + 2 + gutter);
        }
    }
}

#[test]
fn gutter_width_values() {
    assert_eq!(left_gutter_width(3, 0), 4);
    assert_eq!(left_gutter_width(3, -2), 4);
    assert_eq!(left_gutter_width(3, -7), 7);
    assert_eq!(left_gutter_width(0, 5), 1);
    assert_eq!(left_gutter_width(u32::MAX, i32::MIN), u32::MAX as u64 + 1);
    assert_eq!(left_gutter_width(0, i32::MIN), 2147483648);
}

#[test]
fn later_series_lie_on_top_where_not_blank() {
    let marker = "    \n  o \n    ".to_string();
    let line = "----\n----\n----".to_string();
    let a = extent(0.0, 1.0, 0.0, 1.0);
    let b = extent(0.0, 1.0, 0.0, 1.0);
    let v = View::new().add(a).add(b);
    let s = v.to_text(4, 3, &vec![line.clone(), marker.clone()], &"".to_string(), 0, &"".to_string(), 0);
    let lines = canvas_lines(&s);
    assert_eq!(lines[0], "  ---- ");
    assert_eq!(lines[1], "  --o- ");
    assert_eq!(lines[2], "  ---- ");
    let s2 = v.to_text(4, 3, &vec![marker, line], &"".to_string(), 0, &"".to_string(), 0);
    let lines2 = canvas_lines(&s2);
    assert_eq!(lines2[1], "  ---- ");
}

#[test]
fn series_order_changes_only_clashing_cells() {
    let a = extent(0.0, 2.0, 0.0, 1.0);
    let b = extent(-1.0, 1.0, 0.5, 3.0);
    let ab = View::new().add(a).add(b);
    let ba = View::new().add(b).add(a);
    assert_eq!(ab.axis_ranges(), ba.axis_ranges());
    let fa = "a  \n a \n  a".to_string();
    let fb = "b  \n   \n b ".to_string();
    let y = "1\n\n0".to_string();
    let x = "0  1".to_string();
    let t_ab = ab.to_text(3, 3, &vec![fa.clone(), fb.clone()], &y, 1, &x, 0);
    let t_ba = ba.to_text(3, 3, &vec![fb, fa], &y, 1, &x, 0);
    let diff: Vec<(usize, char, char)> = t_ab
        .chars()
        .zip(t_ba.chars())
        .enumerate()
        .filter(|(_, (p, q))| p != q)
        .map(|(i, (p, q))| (i, p, q))
        .collect();
    assert_eq!(diff.len(), 1);
    assert_eq!((diff[0].1, diff[0].2), ('b', 'a'));
}

#[test]
fn negative_start_offset_beyond_gutter_is_clipped() {
    let v = View::new().add(extent(0.0, 1.0, 0.0, 1.0));
    let face = "   \n   ".to_string();
    let x = "-1000000 0 1000000".to_string();
    let s = v.to_text(3, 2, &vec![face], &"5\n0".to_string(), 1, &x, -50);
    let lines = canvas_lines(&s);
    assert_eq!(lines.len(), 5);
    for l in &lines {
        assert_eq!(l.chars().count(), 3 + 2 + 50);
    }
    assert!(lines[2].starts_with(&" ".repeat(50)));
    assert!(lines[2][50..].starts_with("-1000"));
}

#[test]
fn overlay_clips_outside_cells() {
    let base = blank(3, 2);
    let block = grid("abcd\nefgh\nijkl");
    let out = overlay(&base, &block, -1, -1);
    assert_eq!(text_of(&out), "fgh\njkl");
    let out = overlay(&base, &block, 2, 1);
    assert_eq!(text_of(&out), "   \n  a");
    let out = overlay(&base, &block, 5, 0);
    assert_eq!(text_of(&out), "   \n   ");
    let out = overlay(&base, &block, i64::MIN, i64::MAX);
    assert_eq!(text_of(&out), "   \n   ");
}

#[test]
fn overlay_blank_cells_are_transparent() {
    let base = grid("xxx\nxxx");
    let block = grid(" y \ny  ");
    let out = overlay(&base, &block, 0, 0);
    assert_eq!(text_of(&out), "xyx\nyxx");
}

#[test]
fn lines_round_trip() {
    for t in ["", "a", "ab\ncd", "\n", "x\n\ny\n"] {
        assert_eq!(text_of(&lines_of(t)), t);
    }
    assert_eq!(lines_of("ab\n\nc").len(), 3);
    assert_eq!(lines_of("").len(), 1);
}

#[test]
fn svg_stacks_series_then_axes() {
    let v = View::new().add(extent(0.0, 1.0, 0.0, 1.0)).add(extent(0.0, 1.0, 0.0, 1.0));
    let mut first = Group::new();
    first.assign("id", "first");
    let mut second = Group::new();
    second.assign("id", "second");
    let mut xa = Group::new();
    xa.assign("id", "xaxis");
    let mut ya = Group::new();
    ya.assign("id", "yaxis");
    let g = v.to_svg(vec![first, second], xa, ya);
    let text = g.to_string();
    let pos = |name: &str| text.find(name).unwrap();
    assert!(pos("first") < pos("second"));
    assert!(pos("second") < pos("xaxis"));
    assert!(pos("xaxis") < pos("yaxis"));
    assert_eq!(text.matches("<g").count(), 5);
}

#[test]
fn svg_of_view_without_series_holds_axes() {
    let v = View::new().x_range(key(0.0), key(1.0)).y_range(key(0.0), key(1.0));
    let g = v.to_svg(vec![], Group::new(), Group::new());
    assert_eq!(g.to_string(), "<g>\n<g/>\n<g/>\n</g>");
}

#[test]
fn nan_ends_are_passed_over() {
    let alone = View::new().add(extent(0.0, f64::NAN, f64::NAN, 1.0));
    assert_eq!(alone.resolved_x_range(), Range::new(key(0.0), NEG_INFINITY));
    assert_eq!(alone.resolved_y_range(), Range::new(POS_INFINITY, key(1.0)));
    let v = View::new()
        .add(extent(0.0, f64::NAN, f64::NAN, 1.0))
        .add(extent(-1.0, 2.0, -3.0, 4.0))
        .add(extent(-f64::NAN, 9.0, 0.5, -f64::NAN));
    assert_eq!(v.resolved_x_range(), Range::new(key(-1.0), key(9.0)));
    assert_eq!(v.resolved_y_range(), Range::new(key(-3.0), key(4.0)));
    let r = v.resolved_x_range();
    assert!(!value_of(r.lower).is_nan() && !value_of(r.upper).is_nan());
}

#[test]
fn nan_ends_match_float_min_max() {
    let data = [(0.5, f64::NAN), (f64::NAN, 3.0), (-2.0, 1.0), (-f64::NAN, -f64::NAN)];
    let mut lo = f64::INFINITY;
    let mut hi = f64::NEG_INFINITY;
    let mut v = View::new();
    for (a, b) in data {
        lo = lo.min(a);
        hi = hi.max(b);
        v = v.add(extent(a, b, a, b));
    }
    let r = v.resolved_x_range();
    assert_eq!(value_of(r.lower), lo);
    assert_eq!(value_of(r.upper), hi);
}

fn value_of(k: i64) -> f64 {
    f64::from_bits(coord_to_bits(k))
}
