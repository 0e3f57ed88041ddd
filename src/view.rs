//! A single chart view: the series it shows, the ranges that frame them, and
//! the composition of the text and vector renderings.
//!
//! Drawing a series or an axis is not done here: the caller draws each one
//! against the resolved ranges and hands the pieces in. The view decides the
//! ranges, the order in which pieces are stacked, and in text mode where each
//! piece lies on one shared canvas.

use vstd::prelude::*;

use crate::canvas::{
    block_cell,
    lemma_overlay_stacking,
    BLANK,
    is_rectangle,
    lemma_overlay_all_keeps_shape,
    lemma_overlay_keeps_shape,
    blank,
    blank_spec,
    join_lines,
    lines_of,
    overlay,
    overlay_all,
    overlay_spec,
    rows,
    split_lines,
    text_of,
};
use crate::coord::{
    lemma_span_ends_are_numbers,
    lemma_span_is_exact,
    is_ordered,
    lemma_span_same_members,
    max_int,
    span,
    span_of,
    Range,
    NEG_INFINITY,
    POS_INFINITY,
};
use svg::node::element::Group;
use vstd::view::View as _;

verus! {

/// A series as the view sees it: the extent of its data along x and along y.
#[derive(Clone, Copy, Debug, PartialEq, Eq, Structural)]
pub struct Extent {
    pub x: Range,
    pub y: Range,
}

/// Why a view cannot be framed.
#[derive(Clone, Copy, Debug, PartialEq, Eq, Structural)]
pub enum ViewError {
    /// An axis has neither a range of its own nor any series to take one from.
    NoData,
}

/// A view: the series in the order they were added, later ones drawn on top,
/// and the ranges set for the axes, if any.
pub struct View {
    pub representations: Vec<Extent>,
    pub x_range: Option<Range>,
    pub y_range: Option<Range>,
}

/// The extents of `reps` along x (`dim == 0`) or y (any other `dim`).
pub open spec fn extents(reps: Seq<Extent>, dim: int) -> Seq<Range> {
    Seq::new(reps.len(), |i: int| if dim == 0 { reps[i].x } else { reps[i].y })
}


/// Width of the text canvas's left gutter: room for the widest y label and
/// the space after it, and for an x label block that starts `-start_offset`
/// columns left of the face.
pub open spec fn gutter_spec(longest_label_width: int, start_offset: int) -> int {
    max_int(longest_label_width + 1, -start_offset)
}

/// Columns of the text canvas: the gutter, the face, and one column on each
/// side of the face.
pub open spec fn canvas_width(face_width: int, gutter: int) -> int {
    face_width + 1 + gutter + 1
}

/// Rows of the text canvas: the face and three rows below it, the first of
/// which holds the x labels.
pub open spec fn canvas_height(face_height: int) -> int {
    face_height + 3
}

/// The text canvas of a view: blanks, then each face in turn one column
/// right of the gutter, then the y labels right-aligned in the gutter, then
/// the x labels on the row below the face, from the gutter's right edge.
pub open spec fn compose_spec(
    face_width: int,
    face_height: int,
    faces: Seq<Seq<Seq<char>>>,
    y_block: Seq<Seq<char>>,
    longest_label_width: int,
    x_block: Seq<Seq<char>>,
    start_offset: int,
) -> Seq<Seq<char>> {
    let g = gutter_spec(longest_label_width, start_offset);
    let base = blank_spec(canvas_width(face_width, g) as nat, canvas_height(face_height) as nat);
    let with_faces = overlay_all(base, faces, g + 1, 0);
    let with_y = overlay_spec(with_faces, y_block, g - 1 - longest_label_width, 0);
    overlay_spec(with_y, x_block, g, face_height)
}

/// The grids held by a vector of grids.
pub open spec fn grids(fs: Seq<Vec<Vec<char>>>) -> Seq<Seq<Seq<char>>> {
    Seq::new(fs.len(), |i: int| rows(fs[i]@))
}

/// The lines of each of a vector of texts.
pub open spec fn texts_lines(fs: Seq<String>) -> Seq<Seq<Seq<char>>> {
    Seq::new(fs.len(), |i: int| split_lines(fs[i]@))
}

/// Width of the left gutter of the text canvas.
pub fn left_gutter_width(longest_label_width: u32, start_offset: i32) -> (g: u64)
    ensures
        g == gutter_spec(longest_label_width as int, start_offset as int),
{
    let need_labels = longest_label_width as u64 + 1;
    let need_offset = 0i64 - start_offset as i64;
    if need_offset > need_labels as i64 {
        need_offset as u64
    } else {
        need_labels
    }
}

/// Whether a text canvas for these sizes can be indexed on this machine.
pub fn canvas_size_fits(
    face_width: u32,
    face_height: u32,
    longest_label_width: u32,
    start_offset: i32,
) -> (b: bool)
    ensures
        b == (canvas_width(
            face_width as int,
            gutter_spec(longest_label_width as int, start_offset as int),
        ) <= usize::MAX && canvas_height(face_height as int) <= usize::MAX),
{
    let g = left_gutter_width(longest_label_width, start_offset);
    let width = face_width as u128 + 1 + g as u128 + 1;
    let height = face_height as u128 + 3;
    width <= usize::MAX as u128 && height <= usize::MAX as u128
}

/// Lays the faces and the axis label blocks onto one text canvas.
pub fn compose(
    face_width: u32,
    face_height: u32,
    faces: &Vec<Vec<Vec<char>>>,
    y_block: &Vec<Vec<char>>,
    longest_label_width: u32,
    x_block: &Vec<Vec<char>>,
    start_offset: i32,
) -> (canvas: Vec<Vec<char>>)
    requires
        canvas_width(
            face_width as int,
            gutter_spec(longest_label_width as int, start_offset as int),
        ) <= usize::MAX,
        canvas_height(face_height as int) <= usize::MAX,
    ensures
        rows(canvas@) == compose_spec(
            face_width as int,
            face_height as int,
            grids(faces@),
            rows(y_block@),
            longest_label_width as int,
            rows(x_block@),
            start_offset as int,
        ),
{
    let g = left_gutter_width(longest_label_width, start_offset);
    let width = (face_width as u64 + 1 + g + 1) as usize;
    let height = (face_height as u64 + 3) as usize;
    let ghost base = blank_spec(width as nat, height as nat);
    let mut canvas = blank(width, height);
    let face_x = (g + 1) as i64;
    let mut i: usize = 0;
    while i < faces.len()
        invariant
            i <= faces.len(),
            face_x == g + 1,
            rows(canvas@) == overlay_all(base, grids(faces@).take(i as int), face_x as int, 0),
        decreases faces.len() - i,
    {
        proof {
            let next = grids(faces@).take(i as int + 1);
            assert(next.drop_last() == grids(faces@).take(i as int));
            assert(next.last() == rows(faces@[i as int]@));
        }
        canvas = overlay(&canvas, &faces[i], face_x, 0);
        i = i + 1;
    }
    proof {
        assert(grids(faces@).take(i as int) == grids(faces@));
    }
    let canvas = overlay(&canvas, y_block, g as i64 - 1 - longest_label_width as i64, 0);
    overlay(&canvas, x_block, g as i64, face_height as i64)
}


/// Whether every end of every extent is the key of a number or an infinity,
/// not of a NaN.
pub open spec fn extents_are_ordered(reps: Seq<Extent>) -> bool {
    forall|i: int|
        0 <= i < reps.len() ==> NEG_INFINITY <= (#[trigger] reps[i]).x.lower <= POS_INFINITY
            && NEG_INFINITY <= reps[i].x.upper <= POS_INFINITY && NEG_INFINITY <= reps[i].y.lower
            <= POS_INFINITY && NEG_INFINITY <= reps[i].y.upper <= POS_INFINITY
}

/// With no range set for an axis, the view's range along it runs exactly
/// from the least lower end of the series' extents to the greatest upper
/// end.
pub proof fn lemma_resolved_range_spans_data(v: View)
    requires
        v.representations.len() > 0,
        extents_are_ordered(v.representations@),
    ensures
        v.x_range is None ==> {
            &&& forall|i: int|
                0 <= i < v.representations.len() ==> v.resolved_x_spec().lower
                    <= (#[trigger] v.representations@[i]).x.lower && v.representations@[i].x.upper
                    <= v.resolved_x_spec().upper
            &&& exists|i: int|
                0 <= i < v.representations.len() && v.resolved_x_spec().lower
                    == (#[trigger] v.representations@[i]).x.lower
            &&& exists|i: int|
                0 <= i < v.representations.len() && v.resolved_x_spec().upper
                    == (#[trigger] v.representations@[i]).x.upper
        },
        v.y_range is None ==> {
            &&& forall|i: int|
                0 <= i < v.representations.len() ==> v.resolved_y_spec().lower
                    <= (#[trigger] v.representations@[i]).y.lower && v.representations@[i].y.upper
                    <= v.resolved_y_spec().upper
            &&& exists|i: int|
                0 <= i < v.representations.len() && v.resolved_y_spec().lower
                    == (#[trigger] v.representations@[i]).y.lower
            &&& exists|i: int|
                0 <= i < v.representations.len() && v.resolved_y_spec().upper
                    == (#[trigger] v.representations@[i]).y.upper
        },
{
    let reps = v.representations@;
    let xs = extents(reps, 0);
    let ys = extents(reps, 1);
    assert forall|i: int| 0 <= i < xs.len() implies NEG_INFINITY <= (#[trigger] xs[i]).lower
        <= POS_INFINITY && NEG_INFINITY <= xs[i].upper <= POS_INFINITY by {
        assert(xs[i] == reps[i].x);
    }
    assert forall|i: int| 0 <= i < ys.len() implies NEG_INFINITY <= (#[trigger] ys[i]).lower
        <= POS_INFINITY && NEG_INFINITY <= ys[i].upper <= POS_INFINITY by {
        assert(ys[i] == reps[i].y);
    }
    lemma_span_is_exact(xs);
    lemma_span_is_exact(ys);
    if v.x_range is None {
        assert forall|i: int| 0 <= i < reps.len() implies v.resolved_x_spec().lower
            <= (#[trigger] reps[i]).x.lower && reps[i].x.upper <= v.resolved_x_spec().upper by {
            assert(xs[i] == reps[i].x);
        }
        let i = choose|i: int| 0 <= i < xs.len() && span(xs).lower == xs[i].lower;
        assert(reps[i].x == xs[i]);
        let j = choose|j: int| 0 <= j < xs.len() && span(xs).upper == xs[j].upper;
        assert(reps[j].x == xs[j]);
    }
    if v.y_range is None {
        assert forall|i: int| 0 <= i < reps.len() implies v.resolved_y_spec().lower
            <= (#[trigger] reps[i]).y.lower && reps[i].y.upper <= v.resolved_y_spec().upper by {
            assert(ys[i] == reps[i].y);
        }
        let i = choose|i: int| 0 <= i < ys.len() && span(ys).lower == ys[i].lower;
        assert(reps[i].y == ys[i]);
        let j = choose|j: int| 0 <= j < ys.len() && span(ys).upper == ys[j].upper;
        assert(reps[j].y == ys[j]);
    }
}

/// A range set on an axis is the axis's range, whatever the data: it is
/// taken as it is.
pub proof fn lemma_set_range_wins(v: View, r: Range)
    ensures
        v.x_range == Some(r) ==> v.resolved_x_spec() == r,
        v.y_range == Some(r) ==> v.resolved_y_spec() == r,
{
}

/// The axis ranges do not depend on the order in which the series were
/// added: two views with the same series, in any order, and the same set
/// ranges are framed alike.
pub proof fn lemma_ranges_ignore_series_order(a: View, b: View)
    requires
        a.representations@.to_multiset() == b.representations@.to_multiset(),
        a.x_range == b.x_range,
        a.y_range == b.y_range,
    ensures
        a.resolved_x_spec() == b.resolved_x_spec(),
        a.resolved_y_spec() == b.resolved_y_spec(),
        a.has_data() == b.has_data(),
{
    broadcast use vstd::seq_lib::group_to_multiset_ensures;

    let ra = a.representations@;
    let rb = b.representations@;
    assert forall|e: Extent| ra.contains(e) <==> rb.contains(e) by {
        vstd::seq_lib::to_multiset_contains(ra, e);
        vstd::seq_lib::to_multiset_contains(rb, e);
    }
    assert(ra.len() == rb.len()) by {
        assert(ra.len() == ra.to_multiset().len());
        assert(rb.len() == rb.to_multiset().len());
    }
    assert forall|d: int, r: Range|
        0 <= d < 2 implies (extents(ra, d).contains(r) <==> extents(rb, d).contains(r)) by {
        if extents(ra, d).contains(r) {
            let i = choose|i: int| 0 <= i < extents(ra, d).len() && extents(ra, d)[i] == r;
            assert(ra.contains(ra[i]));
            let j = choose|j: int| 0 <= j < rb.len() && rb[j] == ra[i];
            assert(extents(rb, d)[j] == r);
        }
        if extents(rb, d).contains(r) {
            let i = choose|i: int| 0 <= i < extents(rb, d).len() && extents(rb, d)[i] == r;
            assert(rb.contains(rb[i]));
            let j = choose|j: int| 0 <= j < ra.len() && ra[j] == rb[i];
            assert(extents(ra, d)[j] == r);
        }
    }
    lemma_span_same_members(extents(ra, 0), extents(rb, 0));
    lemma_span_same_members(extents(ra, 1), extents(rb, 1));
}

/// The ranges a view takes from its data never end in a NaN, whatever the
/// series report: NaN ends are passed over.
pub proof fn lemma_default_ranges_never_nan(v: View)
    ensures
        is_ordered(v.default_x_spec().lower as int),
        is_ordered(v.default_x_spec().upper as int),
        is_ordered(v.default_y_spec().lower as int),
        is_ordered(v.default_y_spec().upper as int),
{
    lemma_span_ends_are_numbers(extents(v.representations@, 0));
    lemma_span_ends_are_numbers(extents(v.representations@, 1));
}

/// The two faces' layer of the text canvas, before the labels.
pub open spec fn two_faces_layer(
    face_width: nat,
    face_height: nat,
    a: Seq<Seq<char>>,
    b: Seq<Seq<char>>,
    longest_label_width: nat,
    start_offset: int,
) -> Seq<Seq<char>> {
    let g = gutter_spec(longest_label_width as int, start_offset);
    let base = blank_spec(
        canvas_width(face_width as int, g) as nat,
        canvas_height(face_height as int) as nat,
    );
    overlay_all(base, seq![a, b], g + 1, 0)
}

proof fn lemma_two_faces_layer_cell(
    face_width: nat,
    face_height: nat,
    a: Seq<Seq<char>>,
    b: Seq<Seq<char>>,
    longest_label_width: nat,
    start_offset: int,
    r: int,
    c: int,
)
    requires
        0 <= r < canvas_height(face_height as int),
        0 <= c < canvas_width(
            face_width as int,
            gutter_spec(longest_label_width as int, start_offset),
        ),
    ensures
        ({
            let g = gutter_spec(longest_label_width as int, start_offset);
            let layer = two_faces_layer(
                face_width,
                face_height,
                a,
                b,
                longest_label_width,
                start_offset,
            );
            &&& layer.len() == canvas_height(face_height as int)
            &&& is_rectangle(layer, canvas_width(face_width as int, g) as nat)
            &&& layer[r][c] == match block_cell(b, r, c - g - 1) {
                Some(ch) => ch,
                None => match block_cell(a, r, c - g - 1) {
                    Some(ch) => ch,
                    None => BLANK,
                },
            }
        }),
{
    let g = gutter_spec(longest_label_width as int, start_offset);
    let width = canvas_width(face_width as int, g) as nat;
    let base = blank_spec(width, canvas_height(face_height as int) as nat);
    let faces = seq![a, b];
    assert(faces.drop_last() == seq![a]);
    assert(seq![a].drop_last() == Seq::<Seq<Seq<char>>>::empty());
    assert(is_rectangle(base, width));
    lemma_overlay_all_keeps_shape(base, faces, g + 1, 0, width);
    assert(seq![a].last() == a);
    assert(faces.last() == b);
    assert(overlay_all(base, Seq::<Seq<Seq<char>>>::empty(), g + 1, 0) == base);
    assert(overlay_all(base, seq![a], g + 1, 0) == overlay_spec(base, a, g + 1, 0));
    assert(overlay_all(base, faces, g + 1, 0) == overlay_spec(
        overlay_spec(base, a, g + 1, 0),
        b,
        g + 1,
        0,
    ));
    assert(base[r][c] == BLANK);
    lemma_overlay_stacking(base, a, g + 1, 0, b, g + 1, 0, r, c);
}

/// On the face area of the text canvas of a view with two series, where no
/// y label lies, a cell shows the later series' character where its face is
/// not blank, else the earlier one's where that is not blank, else a blank.
pub proof fn lemma_text_two_faces_stack(
    face_width: nat,
    face_height: nat,
    a: Seq<Seq<char>>,
    b: Seq<Seq<char>>,
    y_block: Seq<Seq<char>>,
    longest_label_width: nat,
    x_block: Seq<Seq<char>>,
    start_offset: int,
    r: int,
    c: int,
)
    requires
        0 <= r < face_height,
        gutter_spec(longest_label_width as int, start_offset) + 1 <= c < gutter_spec(
            longest_label_width as int,
            start_offset,
        ) + 1 + face_width,
        block_cell(
            y_block,
            r,
            c - (gutter_spec(longest_label_width as int, start_offset) - 1 - longest_label_width),
        ) is None,
    ensures
        ({
            let g = gutter_spec(longest_label_width as int, start_offset);
            compose_spec(
                face_width as int,
                face_height as int,
                seq![a, b],
                y_block,
                longest_label_width as int,
                x_block,
                start_offset,
            )[r][c] == match block_cell(b, r, c - g - 1) {
                Some(ch) => ch,
                None => match block_cell(a, r, c - g - 1) {
                    Some(ch) => ch,
                    None => BLANK,
                },
            }
        }),
{
    lemma_two_faces_layer_cell(
        face_width,
        face_height,
        a,
        b,
        longest_label_width,
        start_offset,
        r,
        c,
    );
}

/// Swapping the two series of a view changes its text canvas only on cells
/// where both faces are not blank.
pub proof fn lemma_text_swap_changes_only_clashes(
    face_width: nat,
    face_height: nat,
    a: Seq<Seq<char>>,
    b: Seq<Seq<char>>,
    y_block: Seq<Seq<char>>,
    longest_label_width: nat,
    x_block: Seq<Seq<char>>,
    start_offset: int,
    r: int,
    c: int,
)
    requires
        0 <= r < canvas_height(face_height as int),
        0 <= c < canvas_width(
            face_width as int,
            gutter_spec(longest_label_width as int, start_offset),
        ),
        block_cell(a, r, c - gutter_spec(longest_label_width as int, start_offset) - 1) is None
            || block_cell(b, r, c - gutter_spec(longest_label_width as int, start_offset) - 1) is None,
    ensures
        compose_spec(
            face_width as int,
            face_height as int,
            seq![a, b],
            y_block,
            longest_label_width as int,
            x_block,
            start_offset,
        )[r][c] == compose_spec(
            face_width as int,
            face_height as int,
            seq![b, a],
            y_block,
            longest_label_width as int,
            x_block,
            start_offset,
        )[r][c],
{
    lemma_two_faces_layer_cell(
        face_width,
        face_height,
        a,
        b,
        longest_label_width,
        start_offset,
        r,
        c,
    );
    lemma_two_faces_layer_cell(
        face_width,
        face_height,
        b,
        a,
        longest_label_width,
        start_offset,
        r,
        c,
    );
    let g = gutter_spec(longest_label_width as int, start_offset);
    let ab = two_faces_layer(face_width, face_height, a, b, longest_label_width, start_offset);
    let ba = two_faces_layer(face_width, face_height, b, a, longest_label_width, start_offset);
    assert(ab[r][c] == ba[r][c]);
    lemma_overlay_keeps_shape(ab, y_block, g - 1 - longest_label_width, 0);
    lemma_overlay_keeps_shape(ba, y_block, g - 1 - longest_label_width, 0);
}

/// The text canvas is `canvas_height` rows of `canvas_width` columns, for
/// any face size, label width and offset, and whatever the faces and label
/// blocks hold: cells of a block that would fall outside are dropped.
pub proof fn lemma_text_canvas_size(
    face_width: nat,
    face_height: nat,
    faces: Seq<Seq<Seq<char>>>,
    y_block: Seq<Seq<char>>,
    longest_label_width: nat,
    x_block: Seq<Seq<char>>,
    start_offset: int,
)
    ensures
        ({
            let canvas = compose_spec(
                face_width as int,
                face_height as int,
                faces,
                y_block,
                longest_label_width as int,
                x_block,
                start_offset,
            );
            let width = canvas_width(
                face_width as int,
                gutter_spec(longest_label_width as int, start_offset),
            );
            &&& canvas.len() == canvas_height(face_height as int)
            &&& forall|r: int|
                0 <= r < canvas.len() ==> (#[trigger] canvas[r]).len() == width
        }),
{
    let g = gutter_spec(longest_label_width as int, start_offset);
    let width = canvas_width(face_width as int, g) as nat;
    let base = blank_spec(width, canvas_height(face_height as int) as nat);
    assert(is_rectangle(base, width));
    lemma_overlay_all_keeps_shape(base, faces, g + 1, 0, width);
    let with_faces = overlay_all(base, faces, g + 1, 0);
    lemma_overlay_keeps_shape(with_faces, y_block, g - 1 - longest_label_width, 0);
    let with_y = overlay_spec(with_faces, y_block, g - 1 - longest_label_width, 0);
    lemma_overlay_keeps_shape(with_y, x_block, g, face_height as int);
}

/// The gutter is wide enough for both label blocks: the y labels start at
/// column zero or right of it, and x labels that begin `-start_offset`
/// columns left of the face still begin on the canvas.
pub proof fn lemma_gutter_holds_labels(longest_label_width: nat, start_offset: int)
    ensures
        gutter_spec(longest_label_width as int, start_offset) - 1 - longest_label_width >= 0,
        gutter_spec(longest_label_width as int, start_offset) + start_offset >= 0,
{
}

#[verifier::external_type_specification]
#[verifier::external_body]
pub struct ExGroup(Group);

/// The markup of each child of an SVG group, in document order.
pub uninterp spec fn svg_children(g: Group) -> Seq<Seq<char>>;

/// The markup of an SVG group.
pub uninterp spec fn svg_markup(g: Group) -> Seq<char>;

/// Relies on svg's `Group::new`: a `g` element with no children.
#[verifier::external_body]
fn new_group() -> (g: Group)
    ensures
        svg_children(g) == Seq::<Seq<char>>::empty(),
{
    Group::new()
}

/// Relies on svg's `Node::append` for `Group`: the node is pushed, as it is,
/// at the end of the group's children.
#[verifier::external_body]
fn append_group(g: &mut Group, child: Group)
    ensures
        svg_children(*final(g)) == svg_children(*old(g)).push(svg_markup(child)),
{
    svg::node::Node::append(g, child)
}

/// The markup of each of a sequence of groups.
pub open spec fn markups(gs: Seq<Group>) -> Seq<Seq<char>> {
    Seq::new(gs.len(), |i: int| svg_markup(gs[i]))
}

impl View {
    /// The range that frames the data along x when none is set.
    pub open spec fn default_x_spec(&self) -> Range {
        span(extents(self.representations@, 0))
    }

    /// The range that frames the data along y when none is set.
    pub open spec fn default_y_spec(&self) -> Range {
        span(extents(self.representations@, 1))
    }

    /// The range of the x axis: the one set, else the default.
    pub open spec fn resolved_x_spec(&self) -> Range {
        match self.x_range {
            Some(r) => r,
            None => self.default_x_spec(),
        }
    }

    /// The range of the y axis: the one set, else the default.
    pub open spec fn resolved_y_spec(&self) -> Range {
        match self.y_range {
            Some(r) => r,
            None => self.default_y_spec(),
        }
    }

    /// Whether both axes can be framed: each has a range set or some series.
    pub open spec fn has_data(&self) -> bool {
        (self.x_range is Some || self.representations.len() > 0) && (self.y_range is Some
            || self.representations.len() > 0)
    }

    /// An empty view.
    pub fn new() -> (v: View)
        ensures
            v.representations@ == Seq::<Extent>::empty(),
            v.x_range is None,
            v.y_range is None,
    {
        View { representations: Vec::new(), x_range: None, y_range: None }
    }

    /// The view with one more series, drawn above those already there.
    pub fn add(self, repr: Extent) -> (v: View)
        ensures
            v.representations@ == self.representations@.push(repr),
            v.x_range == self.x_range,
            v.y_range == self.y_range,
    {
        let mut v = self;
        v.representations.push(repr);
        v
    }

    /// The view with its x range set to run from `min` to `max`.
    pub fn x_range(self, min: i64, max: i64) -> (v: View)
        ensures
            v.representations@ == self.representations@,
            v.x_range == Some(Range { lower: min, upper: max }),
            v.y_range == self.y_range,
    {
        let mut v = self;
        v.x_range = Some(Range::new(min, max));
        v
    }

    /// The view with its y range set to run from `min` to `max`.
    pub fn y_range(self, min: i64, max: i64) -> (v: View)
        ensures
            v.representations@ == self.representations@,
            v.x_range == self.x_range,
            v.y_range == Some(Range { lower: min, upper: max }),
    {
        let mut v = self;
        v.y_range = Some(Range::new(min, max));
        v
    }

    /// The extents of the series along x (`dim == 0`) or y.
    fn extents_along(&self, dim: usize) -> (r: Vec<Range>)
        ensures
            r@ == extents(self.representations@, dim as int),
    {
        let mut r: Vec<Range> = Vec::new();
        let mut i: usize = 0;
        while i < self.representations.len()
            invariant
                i <= self.representations.len(),
                r@ == extents(self.representations@, dim as int).take(i as int),
            decreases self.representations.len() - i,
        {
            let e = self.representations[i];
            if dim == 0 {
                r.push(e.x);
            } else {
                r.push(e.y);
            }
            proof {
                assert(extents(self.representations@, dim as int).take(i as int + 1)
                    == extents(self.representations@, dim as int).take(i as int).push(r@.last()));
            }
            i = i + 1;
        }
        proof {
            assert(extents(self.representations@, dim as int).take(i as int) == extents(
                self.representations@,
                dim as int,
            ));
        }
        r
    }

    fn default_x_range(&self) -> (r: Range)
        ensures
            r == self.default_x_spec(),
    {
        span_of(&self.extents_along(0))
    }

    fn default_y_range(&self) -> (r: Range)
        ensures
            r == self.default_y_spec(),
    {
        span_of(&self.extents_along(1))
    }

    /// The range of the x axis: the one set, else the span of the series'
    /// extents along x.
    pub fn resolved_x_range(&self) -> (r: Range)
        ensures
            r == self.resolved_x_spec(),
    {
        match self.x_range {
            Some(r) => r,
            None => self.default_x_range(),
        }
    }

    /// The range of the y axis: the one set, else the span of the series'
    /// extents along y.
    pub fn resolved_y_range(&self) -> (r: Range)
        ensures
            r == self.resolved_y_spec(),
    {
        match self.y_range {
            Some(r) => r,
            None => self.default_y_range(),
        }
    }

    /// The ranges of both axes, which every rendering is drawn against. A
    /// view with no series fails unless both ranges are set: the span of no
    /// data would run from positive to negative infinity.
    pub fn axis_ranges(&self) -> (r: Result<(Range, Range), ViewError>)
        ensures
            self.has_data() ==> r == Ok::<(Range, Range), ViewError>(
                (self.resolved_x_spec(), self.resolved_y_spec()),
            ),
            !self.has_data() ==> r == Err::<(Range, Range), ViewError>(ViewError::NoData),
    {
        let empty = self.representations.len() == 0;
        if empty && (self.x_range.is_none() || self.y_range.is_none()) {
            Err(ViewError::NoData)
        } else {
            Ok((self.resolved_x_range(), self.resolved_y_range()))
        }
    }

    /// The text rendering of the view, `face_height + 3` lines of
    /// `face_width + 2` columns and the gutter. `faces` holds the text face
    /// that each series drew, in the order of the series; `y_axis_block`
    /// the y labels, the widest `longest_y_label_width` columns wide; and
    /// `x_axis_block` the x labels, whose first column lies `start_offset`
    /// columns from the face's left edge. Faces lie on top of those before
    /// them wherever they are not blank, the labels on top of all faces.
    pub fn to_text(
        &self,
        face_width: u32,
        face_height: u32,
        faces: &Vec<String>,
        y_axis_block: &String,
        longest_y_label_width: u32,
        x_axis_block: &String,
        start_offset: i32,
    ) -> (s: String)
        requires
            faces.len() == self.representations.len(),
            canvas_width(
                face_width as int,
                gutter_spec(longest_y_label_width as int, start_offset as int),
            ) <= usize::MAX,
            canvas_height(face_height as int) <= usize::MAX,
        ensures
            s@ == join_lines(
                compose_spec(
                    face_width as int,
                    face_height as int,
                    texts_lines(faces@),
                    split_lines(y_axis_block@),
                    longest_y_label_width as int,
                    split_lines(x_axis_block@),
                    start_offset as int,
                ),
            ),
    {
        let mut grids_of_faces: Vec<Vec<Vec<char>>> = Vec::new();
        let mut i: usize = 0;
        while i < faces.len()
            invariant
                i <= faces.len(),
                grids(grids_of_faces@) == texts_lines(faces@).take(i as int),
            decreases faces.len() - i,
        {
            let face = lines_of(faces[i].as_str());
            let ghost prev = grids_of_faces@;
            grids_of_faces.push(face);
            proof {
                assert(grids(grids_of_faces@) == grids(prev).push(rows(face@)));
                assert(texts_lines(faces@).take(i as int + 1) == texts_lines(faces@).take(
                    i as int,
                ).push(split_lines(faces@[i as int]@)));
            }
            i = i + 1;
        }
        proof {
            assert(texts_lines(faces@).take(i as int) == texts_lines(faces@));
        }
        let y_block = lines_of(y_axis_block.as_str());
        let x_block = lines_of(x_axis_block.as_str());
        let canvas = compose(
            face_width,
            face_height,
            &grids_of_faces,
            &y_block,
            longest_y_label_width,
            &x_block,
            start_offset,
        );
        text_of(&canvas)
    }

    /// The vector rendering of the view: a group holding the drawing of each
    /// series in the order of the series, then the x axis, then the y axis,
    /// so that the axes lie on top of the data.
    pub fn to_svg(&self, repr_groups: Vec<Group>, x_axis_group: Group, y_axis_group: Group) -> (g:
        Group)
        requires
            repr_groups.len() == self.representations.len(),
        ensures
            svg_children(g) == markups(repr_groups@).push(svg_markup(x_axis_group)).push(
                svg_markup(y_axis_group),
            ),
    {
        let ghost all = repr_groups@;
        let mut view_group = new_group();
        for child in it: repr_groups
            invariant
                it.seq() == all,
                svg_children(view_group) == markups(all.take(it.index() as int)),
        {
            proof {
                assert(all.take(it.index() as int + 1) == all.take(it.index() as int).push(child));
                assert(markups(all.take(it.index() as int + 1)) == markups(
                    all.take(it.index() as int),
                ).push(svg_markup(child)));
            }
            append_group(&mut view_group, child);
        }
        proof {
            assert(all.take(all.len() as int) == all);
        }
        append_group(&mut view_group, x_axis_group);
        append_group(&mut view_group, y_axis_group);
        view_group
    }
}

} // verus!
