//! Drawing decisions for a single shape: the order of its fills and strokes,
//! how each fill and stroke is drawn for each kind of shape, how images are
//! clipped into their container, and which figure ends an open stroke.

use vstd::prelude::*;

verus! {

/// The geometry of a shape, as far as the drawing decisions read it.
#[derive(Clone, Copy, Debug, PartialEq, Eq, Structural)]
pub enum ShapeKind {
    /// A rectangle; `rounded` when it has corner radii.
    Rect { rounded: bool },
    Circle,
    Path,
    /// A boolean operation of shapes, drawn through its resulting path.
    Bool,
    /// Raw SVG content.
    SVGRaw,
}

/// The source of a fill, or of the fill of a stroke.
#[derive(Clone, Copy, Debug, PartialEq, Eq, Structural)]
pub enum FillSource {
    /// An image fill; `loaded` when the image store holds the image.
    Image { loaded: bool },
    /// A color or gradient fill.
    Paint,
}

/// Where a stroke is drawn relative to the outline of its shape.
#[derive(Clone, Copy, Debug, PartialEq, Eq, Structural)]
pub enum StrokeKind {
    InnerStroke,
    OuterStroke,
    CenterStroke,
}

/// The figure at the end of an open stroke.
#[derive(Clone, Copy, Debug, PartialEq, Eq, Structural)]
pub enum StrokeCap {
    NoCap,
    Line,
    Triangle,
    Rectangle,
    Circle,
    Diamond,
    Round,
    Square,
}

/// One fill or stroke of a shape, by its index in the shape's list.
#[derive(Clone, Copy, Debug, PartialEq, Eq, Structural)]
pub enum PaintLayer {
    Fill(usize),
    Stroke(usize),
}

/// How an image is clipped to its container.
#[derive(Clone, Copy, Debug, PartialEq, Eq, Structural)]
pub enum ContainerClip {
    /// Clip to the container rectangle.
    Rect,
    /// Clip to the oval inscribed in the container.
    Oval,
    /// Clip to the shape's path, transformed by the path transform.
    Path,
}

/// How one fill of a shape is drawn.
#[derive(Clone, Copy, Debug, PartialEq, Eq, Structural)]
pub enum FillDraw {
    /// Nothing is drawn: the image of the fill is not loaded.
    Skip,
    /// The image covers the container, clipped as given.
    ImageInContainer { clip: ContainerClip },
    Rect,
    RoundRect,
    Oval,
    /// The transformed path, with the even-odd fill rule when asked for.
    Path { even_odd: bool },
}

/// How a stroke outlines a rectangle.
#[derive(Clone, Copy, Debug, PartialEq, Eq, Structural)]
pub enum RectOutline {
    /// A rounded rectangle, with the corner radii grown by the stroke.
    RoundRect,
    Rect,
}

/// The outline that a stroke draws.
#[derive(Clone, Copy, Debug, PartialEq, Eq, Structural)]
pub enum StrokeOutline {
    Rect(RectOutline),
    Oval,
    /// The transformed path of the shape.
    Path,
}

/// How a stroke whose fill is an image is drawn.
#[derive(Clone, Copy, Debug, PartialEq, Eq, Structural)]
pub struct ImageStrokeDraw {
    /// The outline drawn as the area of the image to show.
    pub outline: StrokeOutline,
    /// Clip to the path before drawing it (an inner stroke on a path).
    pub clip_to_path: bool,
    /// Draw the caps of the path's open ends.
    pub draw_caps: bool,
    /// Clear the inside of the path afterwards (an outer stroke on a path).
    pub clear_inside_path: bool,
}

/// How one stroke of a shape is drawn.
#[derive(Clone, Copy, Debug, PartialEq, Eq, Structural)]
pub enum StrokeDraw {
    /// Nothing is drawn: the image of the stroke is not loaded.
    Skip,
    ImageInContainer(ImageStrokeDraw),
    Outline(StrokeOutline),
}

/// The figure drawn at one end of an open path.
#[derive(Clone, Copy, Debug, PartialEq, Eq, Structural)]
pub enum CapFigure {
    Nothing,
    /// An open arrow head.
    Arrow,
    Triangle,
    /// A square turned by `rotation` degrees from the stroke's direction.
    Square { rotation: u32 },
    Circle,
}

/// A cap: its figure, whether it is stroked (rather than filled) and its
/// size as the fraction `size_numerator / size_denominator` of the stroke
/// width (the side of the figure; the radius for a circle).
#[derive(Clone, Copy, Debug, PartialEq, Eq, Structural)]
pub struct CapDrawing {
    pub figure: CapFigure,
    pub stroked: bool,
    pub size_numerator: u32,
    pub size_denominator: u32,
}

/// Where the caps of an open path are drawn: at a point, pointing towards
/// another, both given by their index in the path's points.
#[derive(Clone, Copy, Debug, PartialEq, Eq, Structural)]
pub struct CapAnchors {
    pub start: usize,
    pub start_direction: usize,
    pub end: usize,
    pub end_direction: usize,
}

/// What drawing a single shape does.
#[derive(Clone, Copy, Debug, PartialEq, Eq, Structural)]
pub enum ElementDraw {
    /// Render the SVG document parsed earlier for the shape.
    CachedSvg,
    /// Parse the shape's SVG content, render it and keep it for next time.
    ParseSvg,
    /// Draw the fills and strokes of the shape.
    FillsAndStrokes,
}

/// The painting order of a shape with `fill_count` fills and `stroke_count`
/// strokes: all fills, last one first, then all strokes, last one first.
pub open spec fn paint_order(fill_count: nat, stroke_count: nat) -> Seq<PaintLayer> {
    Seq::new(
        fill_count + stroke_count,
        |i: int|
            if i < fill_count {
                PaintLayer::Fill((fill_count - 1 - i) as usize)
            } else {
                PaintLayer::Stroke((fill_count + stroke_count - 1 - i) as usize)
            },
    )
}

pub open spec fn container_clip(kind: ShapeKind) -> ContainerClip {
    match kind {
        ShapeKind::Circle => ContainerClip::Oval,
        ShapeKind::Path => ContainerClip::Path,
        _ => ContainerClip::Rect,
    }
}

pub open spec fn is_even_odd(fill_rule: Option<&str>) -> bool {
    fill_rule matches Some(rule) && rule@ == "evenodd"@
}

pub open spec fn fill_draw(fill: FillSource, kind: ShapeKind, even_odd: bool) -> FillDraw {
    match fill {
        FillSource::Image { loaded } => if loaded {
            FillDraw::ImageInContainer { clip: container_clip(kind) }
        } else {
            FillDraw::Skip
        },
        FillSource::Paint => match kind {
            ShapeKind::Rect { rounded } => if rounded {
                FillDraw::RoundRect
            } else {
                FillDraw::Rect
            },
            ShapeKind::Circle => FillDraw::Oval,
            _ => FillDraw::Path { even_odd },
        },
    }
}

pub open spec fn rect_outline(rounded: bool) -> RectOutline {
    if rounded {
        RectOutline::RoundRect
    } else {
        RectOutline::Rect
    }
}

pub open spec fn stroke_outline(kind: ShapeKind) -> StrokeOutline {
    match kind {
        ShapeKind::Rect { rounded } => StrokeOutline::Rect(rect_outline(rounded)),
        ShapeKind::Circle => StrokeOutline::Oval,
        _ => StrokeOutline::Path,
    }
}

pub open spec fn is_path_like(kind: ShapeKind) -> bool {
    kind is Path || kind is Bool
}

pub open spec fn image_stroke_draw(kind: ShapeKind, path_stroke_kind: StrokeKind) -> ImageStrokeDraw {
    ImageStrokeDraw {
        outline: stroke_outline(kind),
        clip_to_path: is_path_like(kind) && path_stroke_kind is InnerStroke,
        draw_caps: is_path_like(kind),
        clear_inside_path: kind is Path && path_stroke_kind is OuterStroke,
    }
}

pub open spec fn cap_drawing(cap: StrokeCap) -> CapDrawing {
    match cap {
        StrokeCap::NoCap => CapDrawing {
            figure: CapFigure::Nothing,
            stroked: false,
            size_numerator: 0,
            size_denominator: 1,
        },
        StrokeCap::Line => CapDrawing {
            figure: CapFigure::Arrow,
            stroked: true,
            size_numerator: 4,
            size_denominator: 1,
        },
        StrokeCap::Triangle => CapDrawing {
            figure: CapFigure::Triangle,
            stroked: false,
            size_numerator: 4,
            size_denominator: 1,
        },
        StrokeCap::Rectangle => CapDrawing {
            figure: CapFigure::Square { rotation: 0 },
            stroked: false,
            size_numerator: 4,
            size_denominator: 1,
        },
        StrokeCap::Circle => CapDrawing {
            figure: CapFigure::Circle,
            stroked: false,
            size_numerator: 2,
            size_denominator: 1,
        },
        StrokeCap::Diamond => CapDrawing {
            figure: CapFigure::Square { rotation: 45 },
            stroked: false,
            size_numerator: 4,
            size_denominator: 1,
        },
        StrokeCap::Round => CapDrawing {
            figure: CapFigure::Circle,
            stroked: false,
            size_numerator: 1,
            size_denominator: 2,
        },
        StrokeCap::Square => CapDrawing {
            figure: CapFigure::Square { rotation: 0 },
            stroked: false,
            size_numerator: 1,
            size_denominator: 1,
        },
    }
}

/// The order in which the fills and strokes of a shape are painted.
pub fn render_fills_for_kind(fill_count: usize, stroke_count: usize) -> (layers: Vec<PaintLayer>)
    requires
        fill_count + stroke_count <= usize::MAX,
    ensures
        layers@ == paint_order(fill_count as nat, stroke_count as nat),
{
    let mut layers: Vec<PaintLayer> = Vec::new();
    let mut i: usize = fill_count;
    while i > 0
        invariant
            i <= fill_count,
            layers@ == paint_order(fill_count as nat, stroke_count as nat).take(
                (fill_count - i) as int,
            ),
        decreases i,
    {
        i = i - 1;
        layers.push(PaintLayer::Fill(i));
        assert(layers@ =~= paint_order(fill_count as nat, stroke_count as nat).take(
            (fill_count - i) as int,
        ));
    }
    let mut j: usize = stroke_count;
    while j > 0
        invariant
            j <= stroke_count,
            fill_count + stroke_count <= usize::MAX,
            layers@ == paint_order(fill_count as nat, stroke_count as nat).take(
                (fill_count + stroke_count - j) as int,
            ),
        decreases j,
    {
        j = j - 1;
        layers.push(PaintLayer::Stroke(j));
        assert(layers@ =~= paint_order(fill_count as nat, stroke_count as nat).take(
            (fill_count + stroke_count - j) as int,
        ));
    }
    assert(layers@ =~= paint_order(fill_count as nat, stroke_count as nat));
    layers
}

/// Whether an SVG `fill-rule` attribute asks for the even-odd rule.
pub fn fill_rule_is_even_odd(fill_rule: Option<&str>) -> (even_odd: bool)
    ensures
        even_odd == is_even_odd(fill_rule),
{
    match fill_rule {
        Some(rule) => {
            let given = rule.to_owned();
            let even_odd = "evenodd".to_owned();
            given == even_odd
        },
        None => false,
    }
}

/// How an image fill is clipped to its container, for each kind of shape.
/// The caller transforms the path by its path transform, which a path must
/// have; booleans are not supported.
pub fn draw_image_fill_in_container(kind: ShapeKind, has_path_transform: bool) -> (clip:
    ContainerClip)
    requires
        !(kind is Bool),
        kind is Path ==> has_path_transform,
    ensures
        clip == container_clip(kind),
{
    match kind {
        ShapeKind::Circle => ContainerClip::Oval,
        ShapeKind::Path => ContainerClip::Path,
        _ => ContainerClip::Rect,
    }
}

/// How one fill is drawn on a shape of the given kind. `fill_rule` is the
/// shape's SVG `fill-rule` attribute; paths and booleans are drawn through
/// their transformed path, which they must then have.
pub fn render_fill(
    fill: FillSource,
    kind: ShapeKind,
    has_path_transform: bool,
    fill_rule: Option<&str>,
) -> (draw: FillDraw)
    requires
        fill is Paint ==> !(kind is SVGRaw),
        fill is Paint && is_path_like(kind) ==> has_path_transform,
        fill == (FillSource::Image { loaded: true }) ==> !(kind is Bool) && (kind is Path
            ==> has_path_transform),
    ensures
        draw == fill_draw(fill, kind, is_even_odd(fill_rule)),
{
    match fill {
        FillSource::Image { loaded } => {
            if loaded {
                FillDraw::ImageInContainer {
                    clip: draw_image_fill_in_container(kind, has_path_transform),
                }
            } else {
                FillDraw::Skip
            }
        },
        FillSource::Paint => match kind {
            ShapeKind::Rect { rounded } => {
                if rounded {
                    FillDraw::RoundRect
                } else {
                    FillDraw::Rect
                }
            },
            ShapeKind::Circle => FillDraw::Oval,
            _ => FillDraw::Path { even_odd: fill_rule_is_even_odd(fill_rule) },
        },
    }
}

/// How a stroke whose fill is an image is drawn on a shape of the given
/// kind. `path_stroke_kind` is the kind the stroke renders with on the
/// path of a path or boolean shape. Paths and booleans need their path
/// transform; raw SVG is not supported.
pub fn draw_image_stroke_in_container(
    kind: ShapeKind,
    path_stroke_kind: StrokeKind,
    has_path_transform: bool,
) -> (draw: ImageStrokeDraw)
    requires
        !(kind is SVGRaw),
        is_path_like(kind) ==> has_path_transform,
    ensures
        draw == image_stroke_draw(kind, path_stroke_kind),
{
    let outline = match kind {
        ShapeKind::Rect { rounded } => StrokeOutline::Rect(RectShape::draw_stroke_on_rect(rounded)),
        ShapeKind::Circle => StrokeOutline::Oval,
        _ => StrokeOutline::Path,
    };
    let path_like = match kind {
        ShapeKind::Path | ShapeKind::Bool => true,
        _ => false,
    };
    let inner = match path_stroke_kind {
        StrokeKind::InnerStroke => true,
        _ => false,
    };
    let outer = match path_stroke_kind {
        StrokeKind::OuterStroke => true,
        _ => false,
    };
    let plain_path = match kind {
        ShapeKind::Path => true,
        _ => false,
    };
    ImageStrokeDraw {
        outline,
        clip_to_path: path_like && inner,
        draw_caps: path_like,
        clear_inside_path: plain_path && outer,
    }
}

/// How one stroke is drawn on a shape of the given kind. Raw SVG shapes
/// cannot be stroked (but for an image stroke whose image is not loaded,
/// which draws nothing); an image stroke on a path or boolean needs the
/// path transform.
pub fn render_stroke(
    fill: FillSource,
    kind: ShapeKind,
    path_stroke_kind: StrokeKind,
    has_path_transform: bool,
) -> (draw: StrokeDraw)
    requires
        kind is SVGRaw ==> fill == (FillSource::Image { loaded: false }),
        fill == (FillSource::Image { loaded: true }) && is_path_like(kind) ==> has_path_transform,
    ensures
        draw == match fill {
            FillSource::Image { loaded } => if loaded {
                StrokeDraw::ImageInContainer(image_stroke_draw(kind, path_stroke_kind))
            } else {
                StrokeDraw::Skip
            },
            FillSource::Paint => StrokeDraw::Outline(stroke_outline(kind)),
        },
{
    match fill {
        FillSource::Image { loaded } => {
            if loaded {
                StrokeDraw::ImageInContainer(
                    draw_image_stroke_in_container(kind, path_stroke_kind, has_path_transform),
                )
            } else {
                StrokeDraw::Skip
            }
        },
        FillSource::Paint => match kind {
            ShapeKind::Rect { rounded } => StrokeDraw::Outline(
                StrokeOutline::Rect(RectShape::draw_stroke_on_rect(rounded)),
            ),
            ShapeKind::Circle => StrokeDraw::Outline(StrokeOutline::Oval),
            _ => StrokeDraw::Outline(StrokeOutline::Path),
        },
    }
}

/// The figure, style and size of the cap at one end of an open stroke.
pub fn handle_stroke_cap(cap: StrokeCap) -> (drawing: CapDrawing)
    ensures
        drawing == cap_drawing(cap),
{
    match cap {
        StrokeCap::NoCap => CapDrawing {
            figure: CapFigure::Nothing,
            stroked: false,
            size_numerator: 0,
            size_denominator: 1,
        },
        StrokeCap::Line => CapDrawing {
            figure: CapFigure::Arrow,
            stroked: true,
            size_numerator: 4,
            size_denominator: 1,
        },
        StrokeCap::Triangle => CapDrawing {
            figure: CapFigure::Triangle,
            stroked: false,
            size_numerator: 4,
            size_denominator: 1,
        },
        StrokeCap::Rectangle => CapDrawing {
            figure: CapFigure::Square { rotation: 0 },
            stroked: false,
            size_numerator: 4,
            size_denominator: 1,
        },
        StrokeCap::Circle => CapDrawing {
            figure: CapFigure::Circle,
            stroked: false,
            size_numerator: 2,
            size_denominator: 1,
        },
        StrokeCap::Diamond => CapDrawing {
            figure: CapFigure::Square { rotation: 45 },
            stroked: false,
            size_numerator: 4,
            size_denominator: 1,
        },
        StrokeCap::Round => CapDrawing {
            figure: CapFigure::Circle,
            stroked: false,
            size_numerator: 1,
            size_denominator: 2,
        },
        StrokeCap::Square => CapDrawing {
            figure: CapFigure::Square { rotation: 0 },
            stroked: false,
            size_numerator: 1,
            size_denominator: 1,
        },
    }
}

/// Where the caps of a path with `points_count` points are drawn, of which
/// `copied` were read back: only an open path with at least two points has
/// caps, at its first point (towards the second) and at its last point
/// (towards the one before it).
pub fn handle_stroke_caps(points_count: usize, copied: usize, is_open: bool) -> (anchors: Option<
    CapAnchors,
>)
    requires
        copied >= 2 && is_open ==> points_count >= 2,
    ensures
        anchors is Some <==> copied >= 2 && is_open,
        anchors matches Some(a) ==> a == (CapAnchors {
            start: 0,
            start_direction: 1,
            end: (points_count - 1) as usize,
            end_direction: (points_count - 2) as usize,
        }),
{
    if copied >= 2 && is_open {
        Some(
            CapAnchors {
                start: 0,
                start_direction: 1,
                end: points_count - 1,
                end_direction: points_count - 2,
            },
        )
    } else {
        None
    }
}

/// The color (alpha, red, green, blue) of a shape's outline on the debug
/// surface: yellow when it intersects the viewbox, cyan otherwise.
pub fn debug_element_color(intersected: bool) -> (argb: (u8, u8, u8, u8))
    ensures
        argb == (if intersected {
            (255u8, 255u8, 255u8, 0u8)
        } else {
            (255u8, 0u8, 255u8, 255u8)
        }),
{
    if intersected {
        (255, 255, 255, 0)
    } else {
        (255, 0, 255, 255)
    }
}

/// A circle shape; its strokes outline an oval.
#[derive(Debug, Clone, Copy, PartialEq, Eq)]
pub struct CircleShape {}

/// A rectangle shape; its strokes outline a (rounded) rectangle.
#[derive(Debug, Clone, Copy, PartialEq, Eq)]
pub struct RectShape {}

impl RectShape {
    /// The outline a stroke draws on a rectangle: rounded when the rectangle
    /// has corner radii.
    pub fn draw_stroke_on_rect(rounded: bool) -> (outline: RectOutline)
        ensures
            outline == rect_outline(rounded),
    {
        if rounded {
            RectOutline::RoundRect
        } else {
            RectOutline::Rect
        }
    }
}

/// Painting order: the fills come first, the last fill first, so that the
/// first fill ends up on top of the other fills; then the strokes, the last
/// stroke first, so that the first stroke ends up on top; every fill and
/// every stroke is painted exactly once.
pub proof fn lemma_paint_order(fill_count: nat, stroke_count: nat)
    ensures
        paint_order(fill_count, stroke_count).len() == fill_count + stroke_count,
        forall|i: int|
            0 <= i < fill_count ==> #[trigger] paint_order(fill_count, stroke_count)[i]
                == PaintLayer::Fill((fill_count - 1 - i) as usize),
        forall|i: int|
            fill_count <= i < fill_count + stroke_count ==> #[trigger] paint_order(
                fill_count,
                stroke_count,
            )[i] == PaintLayer::Stroke((fill_count + stroke_count - 1 - i) as usize),
        fill_count > 0 ==> paint_order(fill_count, stroke_count)[fill_count - 1]
            == PaintLayer::Fill(0),
        stroke_count > 0 ==> paint_order(fill_count, stroke_count).last() == PaintLayer::Stroke(0),
{
}

/// The fills do not depend on the strokes: the fill part of the painting
/// order is the same whatever the number of strokes.
pub proof fn lemma_fill_order_ignores_strokes(fill_count: nat, strokes_a: nat, strokes_b: nat)
    ensures
        paint_order(fill_count, strokes_a).take(fill_count as int) == paint_order(
            fill_count,
            strokes_b,
        ).take(fill_count as int),
{
    assert(paint_order(fill_count, strokes_a).take(fill_count as int) =~= paint_order(
        fill_count,
        strokes_b,
    ).take(fill_count as int));
}

/// How each fill is drawn. An image fill whose image is not loaded draws
/// nothing, whatever the shape. A loaded image covers its container clipped
/// to the container rectangle for rectangles (rounded or not) and raw SVG,
/// to the oval for circles and to the path for paths. A color or gradient
/// fills a rectangle, a rounded rectangle, an oval, or the path of a path or
/// boolean shape; paths and booleans use the even-odd rule exactly when the
/// `fill-rule` attribute is "evenodd", and read it in the same way.
pub proof fn lemma_fill_draw(rounded: bool, fill_rule: Option<&str>)
    ensures
        forall|kind: ShapeKind, even_odd: bool|
            fill_draw(FillSource::Image { loaded: false }, kind, even_odd) == FillDraw::Skip,
        container_clip(ShapeKind::Rect { rounded }) == ContainerClip::Rect,
        container_clip(ShapeKind::Circle) == ContainerClip::Oval,
        container_clip(ShapeKind::Path) == ContainerClip::Path,
        container_clip(ShapeKind::SVGRaw) == ContainerClip::Rect,
        forall|kind: ShapeKind, even_odd: bool|
            fill_draw(FillSource::Image { loaded: true }, kind, even_odd) == (
            FillDraw::ImageInContainer { clip: container_clip(kind) }),
        fill_draw(FillSource::Paint, ShapeKind::Rect { rounded }, is_even_odd(fill_rule)) == (if rounded {
            FillDraw::RoundRect
        } else {
            FillDraw::Rect
        }),
        fill_draw(FillSource::Paint, ShapeKind::Circle, is_even_odd(fill_rule)) == FillDraw::Oval,
        fill_draw(FillSource::Paint, ShapeKind::Path, is_even_odd(fill_rule)) == (FillDraw::Path {
            even_odd: fill_rule matches Some(rule) && rule@ == "evenodd"@,
        }),
        fill_draw(FillSource::Paint, ShapeKind::Bool, is_even_odd(fill_rule)) == (FillDraw::Path {
            even_odd: fill_rule matches Some(rule) && rule@ == "evenodd"@,
        }),
        forall|even_odd: bool|
            fill_draw(FillSource::Paint, ShapeKind::Path, even_odd) == fill_draw(
                FillSource::Paint,
                ShapeKind::Bool,
                even_odd,
            ),
{
}

/// How each stroke outlines its shape: a rectangle with corner radii by a
/// rounded rectangle, one without by a rectangle, a circle by an oval,
/// paths and booleans by their path. A stroke whose fill is an image draws
/// the same outline; on a path or a boolean it clips to the path exactly
/// when it is an inner stroke and draws the caps of the path's open ends;
/// it clears the inside of the path exactly for an outer stroke on a path
/// (not a boolean); on a rectangle or circle it neither clips, draws caps
/// nor clears.
pub proof fn lemma_stroke_draw(kind: ShapeKind, path_stroke_kind: StrokeKind)
    ensures
        stroke_outline(ShapeKind::Rect { rounded: true }) == StrokeOutline::Rect(
            RectOutline::RoundRect,
        ),
        stroke_outline(ShapeKind::Rect { rounded: false }) == StrokeOutline::Rect(RectOutline::Rect),
        stroke_outline(ShapeKind::Circle) == StrokeOutline::Oval,
        stroke_outline(ShapeKind::Path) == StrokeOutline::Path,
        stroke_outline(ShapeKind::Bool) == StrokeOutline::Path,
        image_stroke_draw(kind, path_stroke_kind).outline == stroke_outline(kind),
        image_stroke_draw(kind, path_stroke_kind).clip_to_path == ((kind is Path || kind is Bool)
            && path_stroke_kind == StrokeKind::InnerStroke),
        image_stroke_draw(kind, path_stroke_kind).draw_caps == (kind is Path || kind is Bool),
        image_stroke_draw(kind, path_stroke_kind).clear_inside_path == (kind is Path
            && path_stroke_kind == StrokeKind::OuterStroke),
        !(image_stroke_draw(kind, path_stroke_kind).clip_to_path && image_stroke_draw(
            kind,
            path_stroke_kind,
        ).clear_inside_path),
        image_stroke_draw(ShapeKind::Path, path_stroke_kind).clip_to_path == image_stroke_draw(
            ShapeKind::Bool,
            path_stroke_kind,
        ).clip_to_path,
        rect_outline(true) == RectOutline::RoundRect,
        rect_outline(false) == RectOutline::Rect,
{
}

/// The caps at the open ends of a stroke: none draws nothing; a line is an
/// open arrow, the only stroked cap; a triangle, a rectangle and a diamond
/// are four times the stroke width, the diamond being the rectangle turned
/// by 45 degrees; a circle has twice the stroke width as radius and a round
/// cap half of it, a quarter of the circle's; a square is as wide as the
/// stroke, a quarter of the rectangle.
pub proof fn lemma_cap_drawing(cap: StrokeCap)
    ensures
        cap_drawing(StrokeCap::NoCap).figure == CapFigure::Nothing,
        cap_drawing(cap).stroked <==> cap == StrokeCap::Line,
        cap_drawing(cap).size_denominator > 0,
        cap_drawing(StrokeCap::Line).figure == CapFigure::Arrow,
        cap_drawing(StrokeCap::Line).size_numerator == 4 * cap_drawing(
            StrokeCap::Line,
        ).size_denominator,
        cap_drawing(StrokeCap::Triangle) == (CapDrawing {
            figure: CapFigure::Triangle,
            stroked: false,
            size_numerator: 4,
            size_denominator: 1,
        }),
        cap_drawing(StrokeCap::Rectangle) == (CapDrawing {
            figure: CapFigure::Square { rotation: 0 },
            stroked: false,
            size_numerator: 4,
            size_denominator: 1,
        }),
        cap_drawing(StrokeCap::Diamond) == (CapDrawing {
            figure: CapFigure::Square { rotation: 45 },
            ..cap_drawing(StrokeCap::Rectangle)
        }),
        cap_drawing(StrokeCap::Circle) == (CapDrawing {
            figure: CapFigure::Circle,
            stroked: false,
            size_numerator: 2,
            size_denominator: 1,
        }),
        cap_drawing(StrokeCap::Round) == (CapDrawing {
            figure: CapFigure::Circle,
            stroked: false,
            size_numerator: 1,
            size_denominator: 2,
        }),
        cap_drawing(StrokeCap::Square) == (CapDrawing {
            figure: CapFigure::Square { rotation: 0 },
            stroked: false,
            size_numerator: 1,
            size_denominator: 1,
        }),
{
}

/// The even-odd rule is asked for exactly by the attribute value "evenodd".
pub proof fn lemma_even_odd_rule(fill_rule: Option<&str>)
    ensures
        is_even_odd(fill_rule) <==> (fill_rule is Some && fill_rule.unwrap()@ == "evenodd"@),
        is_even_odd(None) == false,
{
}

} // verus!
