use render_wasm::paint::{
    debug_element_color, draw_image_fill_in_container, draw_image_stroke_in_container,
    fill_rule_is_even_odd, handle_stroke_cap, handle_stroke_caps, render_fill,
    render_fills_for_kind, render_stroke, CapAnchors, CapDrawing,
    CapFigure, CircleShape, ContainerClip, FillDraw, FillSource, ImageStrokeDraw,
    PaintLayer, RectOutline, RectShape, ShapeKind, StrokeCap, StrokeDraw, StrokeKind,
    StrokeOutline,
};

#[test]
fn fills_then_strokes_last_first() {
    assert_eq!(
        render_fills_for_kind(2, 3),
        vec![
            PaintLayer::Fill(1),
            PaintLayer::Fill(0),
            PaintLayer::Stroke(2),
            PaintLayer::Stroke(1),
            PaintLayer::Stroke(0),
        ]
    );
    assert_eq!(render_fills_for_kind(0, 0), vec![]);
    assert_eq!(render_fills_for_kind(0, 1), vec![PaintLayer::Stroke(0)]);
}

#[test]
fn fill_of_each_kind() {
    let rect = ShapeKind::Rect { rounded: false };
    let rounded = ShapeKind::Rect { rounded: true };
    assert_eq!(render_fill(FillSource::Paint, rect, false, None), FillDraw::Rect);
    assert_eq!(render_fill(FillSource::Paint, rounded, false, None), FillDraw::RoundRect);
    assert_eq!(render_fill(FillSource::Paint, ShapeKind::Circle, false, None), FillDraw::Oval);
    assert_eq!(
        render_fill(FillSource::Paint, ShapeKind::Path, true, None),
        FillDraw::Path { even_odd: false }
    );
    assert_eq!(
        render_fill(FillSource::Paint, ShapeKind::Bool, true, Some("evenodd")),
        FillDraw::Path { even_odd: true }
    );
    assert_eq!(
        render_fill(FillSource::Paint, ShapeKind::Path, true, Some("nonzero")),
        FillDraw::Path { even_odd: false }
    );
}

#[test]
fn image_fills() {
    assert_eq!(
        render_fill(FillSource::Image { loaded: false }, ShapeKind::Circle, false, None),
        FillDraw::Skip
    );
    assert_eq!(
        render_fill(FillSource::Image { loaded: true }, ShapeKind::Circle, false, None),
        FillDraw::ImageInContainer { clip: ContainerClip::Oval }
    );
    assert_eq!(
        render_fill(FillSource::Image { loaded: true }, ShapeKind::SVGRaw, false, None),
        FillDraw::ImageInContainer { clip: ContainerClip::Rect }
    );
    assert_eq!(
        render_fill(FillSource::Image { loaded: true }, ShapeKind::Path, true, None),
        FillDraw::ImageInContainer { clip: ContainerClip::Path }
    );
    assert_eq!(
        draw_image_fill_in_container(ShapeKind::Rect { rounded: true }, false),
        ContainerClip::Rect
    );
}

#[test]
fn even_odd_rule() {
    assert!(fill_rule_is_even_odd(Some("evenodd")));
    assert!(!fill_rule_is_even_odd(Some("nonzero")));
    assert!(!fill_rule_is_even_odd(Some("EvenOdd")));
    assert!(!fill_rule_is_even_odd(Some("")));
    assert!(!fill_rule_is_even_odd(None));
}

#[test]
fn strokes_of_each_kind() {
    assert_eq!(
        render_stroke(FillSource::Paint, ShapeKind::Rect { rounded: true }, StrokeKind::CenterStroke, false),
        StrokeDraw::Outline(StrokeOutline::Rect(RectOutline::RoundRect))
    );
    assert_eq!(
        render_stroke(FillSource::Paint, ShapeKind::Circle, StrokeKind::CenterStroke, false),
        StrokeDraw::Outline(StrokeOutline::Oval)
    );
    assert_eq!(
        render_stroke(FillSource::Paint, ShapeKind::Bool, StrokeKind::InnerStroke, false),
        StrokeDraw::Outline(StrokeOutline::Path)
    );
    assert_eq!(
        render_stroke(FillSource::Image { loaded: false }, ShapeKind::Path, StrokeKind::InnerStroke, true),
        StrokeDraw::Skip
    );
    assert_eq!(
        render_stroke(FillSource::Image { loaded: false }, ShapeKind::SVGRaw, StrokeKind::CenterStroke, false),
        StrokeDraw::Skip
    );
}

#[test]
fn image_strokes_on_paths() {
    assert_eq!(
        draw_image_stroke_in_container(ShapeKind::Path, StrokeKind::InnerStroke, true),
        ImageStrokeDraw {
            outline: StrokeOutline::Path,
            clip_to_path: true,
            draw_caps: true,
            clear_inside_path: false,
        }
    );
    assert_eq!(
        draw_image_stroke_in_container(ShapeKind::Path, StrokeKind::OuterStroke, true),
        ImageStrokeDraw {
            outline: StrokeOutline::Path,
            clip_to_path: false,
            draw_caps: true,
            clear_inside_path: true,
        }
    );
    assert_eq!(
        draw_image_stroke_in_container(ShapeKind::Bool, StrokeKind::OuterStroke, true),
        ImageStrokeDraw {
            outline: StrokeOutline::Path,
            clip_to_path: false,
            draw_caps: true,
            clear_inside_path: false,
        }
    );
    assert_eq!(
        render_stroke(FillSource::Image { loaded: true }, ShapeKind::Rect { rounded: false }, StrokeKind::InnerStroke, false),
        StrokeDraw::ImageInContainer(ImageStrokeDraw {
            outline: StrokeOutline::Rect(RectOutline::Rect),
            clip_to_path: false,
            draw_caps: false,
            clear_inside_path: false,
        })
    );
}

fn cap(figure: CapFigure, stroked: bool, n: u32, d: u32) -> CapDrawing {
    CapDrawing { figure, stroked, size_numerator: n, size_denominator: d }
}

#[test]
fn cap_figures() {
    assert_eq!(handle_stroke_cap(StrokeCap::NoCap).figure, CapFigure::Nothing);
    assert_eq!(handle_stroke_cap(StrokeCap::Line), cap(CapFigure::Arrow, true, 4, 1));
    assert_eq!(handle_stroke_cap(StrokeCap::Triangle), cap(CapFigure::Triangle, false, 4, 1));
    assert_eq!(
        handle_stroke_cap(StrokeCap::Rectangle),
        cap(CapFigure::Square { rotation: 0 }, false, 4, 1)
    );
    assert_eq!(handle_stroke_cap(StrokeCap::Circle), cap(CapFigure::Circle, false, 2, 1));
    assert_eq!(
        handle_stroke_cap(StrokeCap::Diamond),
        cap(CapFigure::Square { rotation: 45 }, false, 4, 1)
    );
    assert_eq!(handle_stroke_cap(StrokeCap::Round), cap(CapFigure::Circle, false, 1, 2));
    assert_eq!(
        handle_stroke_cap(StrokeCap::Square),
        cap(CapFigure::Square { rotation: 0 }, false, 1, 1)
    );
}

#[test]
fn cap_anchors_of_open_paths_only() {
    assert_eq!(
        handle_stroke_caps(5, 5, true),
        Some(CapAnchors { start: 0, start_direction: 1, end: 4, end_direction: 3 })
    );
    assert_eq!(
        handle_stroke_caps(2, 2, true),
        Some(CapAnchors { start: 0, start_direction: 1, end: 1, end_direction: 0 })
    );
    assert_eq!(handle_stroke_caps(5, 5, false), None);
    assert_eq!(handle_stroke_caps(1, 1, true), None);
    assert_eq!(handle_stroke_caps(0, 0, true), None);
}

#[test]
fn debug_colors() {
    assert_eq!(debug_element_color(true), (255, 255, 255, 0));
    assert_eq!(debug_element_color(false), (255, 0, 255, 255));
}

#[test]
fn rect_and_circle_shapes() {
    assert_eq!(RectShape::draw_stroke_on_rect(true), RectOutline::RoundRect);
    assert_eq!(RectShape::draw_stroke_on_rect(false), RectOutline::Rect);
    assert_eq!(RectShape {}, RectShape {});
    assert_eq!(CircleShape {}.clone(), CircleShape {});
}
