use dome::arena::Arena;
use dome::geometry::{Region, Vec2};
use dome::nodes::{
    BoxEntity, CanvasEntity, Entity, ParagraphEntity, ParagraphStyles, RectEntity,
    RoundedRectRadii, ScrollEntity, StackDirection, StackEntity, SwitchEntity, TextAlign,
    TextStyles, UiNode,
};
use dome::paint::{Brush, CallbackId, Color};
use dome::regions::RegionCalc;
use dome::styles::{SizeConstraints, Styles, VAlign};
use dome::text::SimpleText;

fn leaf(min_w: Option<i64>, min_h: Option<i64>, max_w: Option<i64>, max_h: Option<i64>) -> UiNode {
    let mut styles = Styles::default();
    styles.size.min_size = SizeConstraints { width: min_w, height: min_h };
    styles.size.max_size = SizeConstraints { width: max_w, height: max_h };
    UiNode::new(Entity::Canvas(CanvasEntity { draw: CallbackId(0) }), styles)
}

fn stack(direction: StackDirection, inner: Vec<dome::arena::ViewId>) -> UiNode {
    UiNode::new(
        Entity::Stack(StackEntity { direction, inner, padding: 0 }),
        Styles::default(),
    )
}

fn region(x0: i64, y0: i64, x1: i64, y1: i64) -> Region {
    Region { x0, y0, x1, y1 }
}

#[test]
fn x_stack_even_split_without_maxima() {
    // Three children of minimum widths {100, 50, 50} and no maximum, given
    // 300 available width: none is pinned (all minima are at most the
    // average of 100) and none has a finite maximum, so each child receives
    // exactly 100.
    let mut arena = Arena::default();
    let a = arena.push_view(leaf(Some(100), None, None, None));
    let b = arena.push_view(leaf(Some(50), None, None, None));
    let c = arena.push_view(leaf(Some(50), None, None, None));
    let root = arena.push_view(stack(StackDirection::X, vec![a, b, c]));
    let mut calc = RegionCalc::new(SimpleText::new());
    let r = calc.compute_regions(&mut arena, root, region(0, 0, 300, 100));
    assert!(r.is_some());
    assert_eq!(arena.get_relative_region(a), Some(region(0, 0, 100, 100)));
    assert_eq!(arena.get_relative_region(b), Some(region(100, 0, 200, 100)));
    assert_eq!(arena.get_relative_region(c), Some(region(200, 0, 300, 100)));
    assert_eq!(arena.get_relative_region(root), Some(region(0, 0, 300, 100)));
}

#[test]
fn x_stack_minima_exhaust_available_width() {
    // Two children with minima {10, 10} and maxima {20, unbounded}, given
    // 15 available width: the minima sum to 20, which already reaches the
    // available 15, so every child is forced to exactly its minimum and
    // the stack overflows by 5.
    let mut arena = Arena::default();
    let a = arena.push_view(leaf(Some(10), None, Some(20), None));
    let b = arena.push_view(leaf(Some(10), None, None, None));
    let root = arena.push_view(stack(StackDirection::X, vec![a, b]));
    let mut calc = RegionCalc::new(SimpleText::new());
    calc.compute_regions(&mut arena, root, region(0, 0, 15, 10));
    assert_eq!(arena.get_relative_region(a), Some(region(0, 0, 10, 10)));
    assert_eq!(arena.get_relative_region(b), Some(region(10, 0, 20, 10)));
}

#[test]
fn x_stack_overflow_keeps_minima() {
    // Three children with minima {40, 40, 40} and 100 available: every
    // child gets exactly 40, total 120, overflowing the available extent
    // rather than shrinking any child below its minimum.
    let mut arena = Arena::default();
    let a = arena.push_view(leaf(Some(40), None, None, None));
    let b = arena.push_view(leaf(Some(40), None, None, None));
    let c = arena.push_view(leaf(Some(40), None, None, None));
    let root = arena.push_view(stack(StackDirection::X, vec![a, b, c]));
    let mut calc = RegionCalc::new(SimpleText::new());
    calc.compute_regions(&mut arena, root, region(0, 0, 100, 50));
    assert_eq!(arena.get_relative_region(a), Some(region(0, 0, 40, 50)));
    assert_eq!(arena.get_relative_region(b), Some(region(40, 0, 80, 50)));
    assert_eq!(arena.get_relative_region(c), Some(region(80, 0, 120, 50)));
}

#[test]
fn x_stack_finite_maxima_capped() {
    // Children whose finite maxima fit in the available extent each get
    // exactly their maximum; the leftover space is not distributed.
    let mut arena = Arena::default();
    let a = arena.push_view(leaf(None, None, Some(30), None));
    let b = arena.push_view(leaf(None, None, Some(50), None));
    let root = arena.push_view(stack(StackDirection::X, vec![a, b]));
    let mut calc = RegionCalc::new(SimpleText::new());
    calc.compute_regions(&mut arena, root, region(0, 0, 200, 40));
    assert_eq!(arena.get_relative_region(a), Some(region(0, 0, 30, 40)));
    assert_eq!(arena.get_relative_region(b), Some(region(30, 0, 80, 40)));
}

#[test]
fn x_stack_general_case_pins_min_then_max() {
    // Minima {60, 0}, maxima {unbounded, 50}, available 100: the average
    // starts at 50, the first child's minimum 60 exceeds it and pins to
    // 60; the remaining 40 go to the second child (its maximum 50 is not
    // below the new average 40).
    let mut arena = Arena::default();
    let a = arena.push_view(leaf(Some(60), None, None, None));
    let b = arena.push_view(leaf(None, None, Some(50), None));
    let root = arena.push_view(stack(StackDirection::X, vec![a, b]));
    let mut calc = RegionCalc::new(SimpleText::new());
    calc.compute_regions(&mut arena, root, region(0, 0, 100, 10));
    assert_eq!(arena.get_relative_region(a), Some(region(0, 0, 60, 10)));
    assert_eq!(arena.get_relative_region(b), Some(region(60, 0, 100, 10)));
}

#[test]
fn x_stack_max_phase_pins_small_maximum() {
    // Minima {0, 0}, maxima {5, unbounded}, available 100: the average is
    // 50, the first child's maximum 5 is below it and pins to 5; the
    // second child takes the remaining 95.
    let mut arena = Arena::default();
    let a = arena.push_view(leaf(None, None, Some(5), None));
    let b = arena.push_view(leaf(None, None, None, None));
    let root = arena.push_view(stack(StackDirection::X, vec![a, b]));
    let mut calc = RegionCalc::new(SimpleText::new());
    calc.compute_regions(&mut arena, root, region(0, 0, 100, 10));
    assert_eq!(arena.get_relative_region(a), Some(region(0, 0, 5, 10)));
    assert_eq!(arena.get_relative_region(b), Some(region(5, 0, 100, 10)));
}

#[test]
fn y_stack_divides_height() {
    let mut arena = Arena::default();
    let a = arena.push_view(leaf(None, Some(10), None, None));
    let b = arena.push_view(leaf(None, Some(10), None, None));
    let root = arena.push_view(stack(StackDirection::Y, vec![a, b]));
    let mut calc = RegionCalc::new(SimpleText::new());
    calc.compute_regions(&mut arena, root, region(0, 0, 50, 100));
    assert_eq!(arena.get_relative_region(a), Some(region(0, 0, 50, 50)));
    assert_eq!(arena.get_relative_region(b), Some(region(0, 50, 50, 100)));
}

#[test]
fn z_stack_overlays_children() {
    let mut arena = Arena::default();
    let a = arena.push_view(leaf(None, None, None, None));
    let b = arena.push_view(leaf(None, None, None, None));
    let root = arena.push_view(stack(StackDirection::Z, vec![a, b]));
    let mut calc = RegionCalc::new(SimpleText::new());
    calc.compute_regions(&mut arena, root, region(0, 0, 80, 60));
    assert_eq!(arena.get_relative_region(a), Some(region(0, 0, 80, 60)));
    assert_eq!(arena.get_relative_region(b), Some(region(0, 0, 80, 60)));
}

#[test]
fn layout_is_idempotent() {
    // Running the two passes twice on an unchanged tree and unchanged
    // bounds yields identical regions.
    let mut arena = Arena::default();
    let a = arena.push_view(leaf(Some(100), Some(10), None, None));
    let b = arena.push_view(leaf(Some(50), None, Some(60), None));
    let inner = arena.push_view(stack(StackDirection::X, vec![a, b]));
    let root = arena.push_view(UiNode::new(
        Entity::Box(BoxEntity { inner }),
        Styles::default(),
    ));
    let mut calc = RegionCalc::new(SimpleText::new());
    calc.compute_regions(&mut arena, root, region(0, 0, 300, 100));
    let first = vec![
        arena.get_relative_region(a),
        arena.get_relative_region(b),
        arena.get_relative_region(inner),
        arena.get_relative_region(root),
    ];
    calc.compute_regions(&mut arena, root, region(0, 0, 300, 100));
    let second = vec![
        arena.get_relative_region(a),
        arena.get_relative_region(b),
        arena.get_relative_region(inner),
        arena.get_relative_region(root),
    ];
    assert_eq!(first, second);
}

#[test]
fn switch_resolves_only_the_active_child() {
    // With mode 1 only child index 1 receives a region; child index 0's
    // cached region keeps its prior value.
    let mut arena = Arena::default();
    let a = arena.push_view(leaf(None, None, None, None));
    let b = arena.push_view(leaf(None, None, None, None));
    let root = arena.push_view(UiNode::new(
        Entity::Switch(SwitchEntity { mode: 1, inner: vec![a, b] }),
        Styles::default(),
    ));
    let mut calc = RegionCalc::new(SimpleText::new());
    calc.compute_regions(&mut arena, root, region(0, 0, 90, 40));
    assert_eq!(arena.get_relative_region(a), Some(region(0, 0, 0, 0)));
    assert_eq!(arena.get_relative_region(b), Some(region(0, 0, 90, 40)));
}

#[test]
fn box_padding_insets_child() {
    let mut arena = Arena::default();
    let child = arena.push_view(leaf(None, None, None, None));
    let mut styles = Styles::default();
    styles.padding.left = 10;
    styles.padding.right = 20;
    styles.padding.top = 5;
    styles.padding.bottom = 5;
    let root = arena.push_view(UiNode::new(Entity::Box(BoxEntity { inner: child }), styles));
    let mut calc = RegionCalc::new(SimpleText::new());
    calc.compute_regions(&mut arena, root, region(0, 0, 100, 50));
    assert_eq!(arena.get_relative_region(root), Some(region(0, 0, 100, 50)));
    assert_eq!(arena.get_relative_region(child), Some(region(10, 5, 80, 45)));
}

#[test]
fn border_width_insets_child() {
    let mut arena = Arena::default();
    let child = arena.push_view(leaf(None, None, None, None));
    let mut styles = Styles::default();
    styles.borders.width = 3;
    let root = arena.push_view(UiNode::new(Entity::Box(BoxEntity { inner: child }), styles));
    let mut calc = RegionCalc::new(SimpleText::new());
    calc.compute_regions(&mut arena, root, region(0, 0, 100, 50));
    assert_eq!(arena.get_relative_region(child), Some(region(3, 3, 97, 47)));
}

#[test]
fn scroll_offset_shifts_child_origin() {
    let mut arena = Arena::default();
    let child = arena.push_view(leaf(None, None, None, None));
    let root = arena.push_view(UiNode::new(
        Entity::Scroll(ScrollEntity {
            inner: child,
            offset: Vec2 { x: 5, y: 7 },
            v_enabled: true,
            h_enabled: true,
            enable_inner_min_size: false,
        }),
        Styles::default(),
    ));
    let mut calc = RegionCalc::new(SimpleText::new());
    calc.compute_regions(&mut arena, root, region(0, 0, 100, 100));
    // the child is offered the content region shifted against the offset
    assert_eq!(arena.get_relative_region(child), Some(region(-5, -7, 100, 100)));
}

#[test]
fn scroll_without_inner_min_does_not_inflate() {
    // A scrollable node's minimum collapses to its style minimum even when
    // the content wants more.
    let mut arena = Arena::default();
    let mut child_styles = Styles::default();
    child_styles.size.zip = true;
    child_styles.size.min_size = SizeConstraints { width: Some(500), height: Some(500) };
    let child = arena.push_view(UiNode::new(
        Entity::Canvas(CanvasEntity { draw: CallbackId(0) }),
        child_styles,
    ));
    let mut styles = Styles::default();
    styles.size.zip = true;
    let root = arena.push_view(UiNode::new(
        Entity::Scroll(ScrollEntity {
            inner: child,
            offset: Vec2 { x: 0, y: 0 },
            v_enabled: true,
            h_enabled: true,
            enable_inner_min_size: false,
        }),
        styles,
    ));
    let mut calc = RegionCalc::new(SimpleText::new());
    calc.compute_regions(&mut arena, root, region(0, 0, 100, 100));
    // the scroll node itself stays at the offered size...
    assert_eq!(arena.get_relative_region(root), Some(region(0, 0, 100, 100)));
    // ...while the child overflows to its own minimum inside it
    assert_eq!(arena.get_relative_region(child), Some(region(0, 0, 500, 500)));
}

#[test]
fn zip_clamps_up_to_minimum() {
    let mut arena = Arena::default();
    let mut styles = Styles::default();
    styles.size.zip = true;
    styles.size.min_size = SizeConstraints { width: Some(200), height: Some(80) };
    let root = arena.push_view(UiNode::new(
        Entity::Canvas(CanvasEntity { draw: CallbackId(0) }),
        styles,
    ));
    let mut calc = RegionCalc::new(SimpleText::new());
    calc.compute_regions(&mut arena, root, region(0, 0, 50, 50));
    assert_eq!(arena.get_relative_region(root), Some(region(0, 0, 200, 80)));
}

#[test]
fn max_constraint_clamps_down() {
    let mut arena = Arena::default();
    let mut styles = Styles::default();
    styles.size.max_size = SizeConstraints { width: Some(40), height: None };
    let root = arena.push_view(UiNode::new(
        Entity::Canvas(CanvasEntity { draw: CallbackId(0) }),
        styles,
    ));
    let mut calc = RegionCalc::new(SimpleText::new());
    calc.compute_regions(&mut arena, root, region(0, 0, 100, 100));
    assert_eq!(arena.get_relative_region(root), Some(region(0, 0, 40, 100)));
}

#[test]
fn alignment_distributes_slack() {
    // A centred node sized below the offer is placed with half the slack
    // before it; a right/bottom aligned node gets all the slack before it.
    let mut arena = Arena::default();
    let mut styles = Styles::default();
    styles.size.max_size = SizeConstraints { width: Some(40), height: Some(20) };
    styles.h_align = dome::styles::HAlign::Center;
    styles.v_align = VAlign::Bottom;
    let root = arena.push_view(UiNode::new(
        Entity::Canvas(CanvasEntity { draw: CallbackId(0) }),
        styles,
    ));
    let mut calc = RegionCalc::new(SimpleText::new());
    calc.compute_regions(&mut arena, root, region(0, 0, 100, 100));
    // slack is negative offer delta: size 40 vs offer 100 gives delta -60,
    // centre adds half of it; the region is [0 + (-30), -30 + 40]
    assert_eq!(arena.get_relative_region(root), Some(region(-30, -80, 10, -60)));
}

#[test]
fn rect_minimum_comes_from_radii() {
    // A rounded rectangle's intrinsic size keeps opposite corner arcs from
    // overlapping: width max(tl+tr, bl+br), height max(tl+bl, tr+br).
    let mut arena = Arena::default();
    let mut styles = Styles::default();
    styles.size.zip = true;
    let root = arena.push_view(UiNode::new(
        Entity::Rect(RectEntity {
            paint: Brush::Solid(Color { r: 1, g: 2, b: 3, a: 255 }),
            radii: RoundedRectRadii {
                top_left: 10,
                top_right: 5,
                bottom_right: 0,
                bottom_left: 0,
            },
        }),
        styles,
    ));
    let mut calc = RegionCalc::new(SimpleText::new());
    calc.compute_regions(&mut arena, root, region(0, 0, 0, 0));
    assert_eq!(arena.get_relative_region(root), Some(region(0, 0, 15, 10)));
}

#[test]
fn paragraph_height_counts_lines() {
    // A paragraph's provisional minimum height is its line count times the
    // font size: two newlines make three lines of 10 units.
    let mut arena = Arena::default();
    let mut styles = Styles::default();
    styles.size.zip = true;
    let root = arena.push_view(UiNode::new(
        Entity::Paragraph(ParagraphEntity {
            text: String::from("one\ntwo\nthree"),
            styles: TextStyles {
                color: Color { r: 0, g: 0, b: 0, a: 255 },
                font_family: String::from("serif"),
                size: 10,
            },
            extended_styles: ParagraphStyles {
                offset: 0,
                align: TextAlign::Left,
                v_align: VAlign::Top,
            },
        }),
        styles,
    ));
    let mut calc = RegionCalc::new(SimpleText::new());
    calc.compute_regions(&mut arena, root, region(0, 0, 100, 5));
    assert_eq!(arena.get_relative_region(root), Some(region(0, 0, 100, 30)));
}

#[test]
fn missing_child_skips_subtree_only() {
    // A box whose child id is no longer live resolves no region for
    // itself, but a sibling subtree is laid out normally.
    let mut arena = Arena::default();
    let ghost_child = arena.push_view(leaf(None, None, None, None));
    let broken = arena.push_view(UiNode::new(
        Entity::Box(BoxEntity { inner: ghost_child }),
        Styles::default(),
    ));
    let healthy = arena.push_view(leaf(None, None, None, None));
    let root = arena.push_view(stack(StackDirection::Z, vec![broken, healthy]));
    arena.remove_view(ghost_child);
    let mut calc = RegionCalc::new(SimpleText::new());
    calc.compute_regions(&mut arena, root, region(0, 0, 60, 60));
    // the broken box kept its default region, the healthy sibling resolved
    assert_eq!(arena.get_relative_region(broken), Some(region(0, 0, 0, 0)));
    assert_eq!(arena.get_relative_region(healthy), Some(region(0, 0, 60, 60)));
    assert_eq!(arena.get_relative_region(root), Some(region(0, 0, 60, 60)));
}

#[test]
fn conflicting_bounds_let_the_minimum_win() {
    // A child whose declared minimum exceeds its declared maximum is
    // tolerated: the minimum phase pins its slice to the minimum of 50,
    // the rest of the extent goes to its sibling, and the child then
    // clamps itself down to its own maximum inside that slice.
    let mut arena = Arena::default();
    let a = arena.push_view(leaf(Some(50), None, Some(10), None));
    let b = arena.push_view(leaf(None, None, None, None));
    let root = arena.push_view(stack(StackDirection::X, vec![a, b]));
    let mut calc = RegionCalc::new(SimpleText::new());
    calc.compute_regions(&mut arena, root, region(0, 0, 60, 10));
    assert_eq!(arena.get_relative_region(a), Some(region(0, 0, 10, 10)));
    assert_eq!(arena.get_relative_region(b), Some(region(50, 0, 60, 10)));
}

#[test]
fn nested_stacks_compose_minimums() {
    // A vertical stack of two horizontal stacks: the inner minima flow up
    // as sums along each axis and maxima across it.
    let mut arena = Arena::default();
    let a = arena.push_view(leaf(Some(30), Some(10), None, None));
    let b = arena.push_view(leaf(Some(20), Some(15), None, None));
    let row = arena.push_view(stack(StackDirection::X, vec![a, b]));
    let c = arena.push_view(leaf(Some(5), Some(25), None, None));
    let root = arena.push_view(stack(StackDirection::Y, vec![row, c]));
    let mut calc = RegionCalc::new(SimpleText::new());
    calc.compute_regions(&mut arena, root, region(0, 0, 100, 100));
    // heights: minima {15, 25} under 100 -> general case, both flexible at
    // the average 50
    assert_eq!(arena.get_relative_region(row), Some(region(0, 0, 100, 50)));
    assert_eq!(arena.get_relative_region(c), Some(region(0, 50, 100, 100)));
    // inside the row: widths {30, 20} under 100 -> both flexible at 50
    assert_eq!(arena.get_relative_region(a), Some(region(0, 0, 50, 50)));
    assert_eq!(arena.get_relative_region(b), Some(region(50, 0, 100, 50)));
}

#[test]
fn scale_lays_out_its_child() {
    // A scale wrapper passes its content region through to its child; the
    // compositing transform is the renderer's concern, not layout's.
    let mut arena = Arena::default();
    let child = arena.push_view(leaf(None, None, None, None));
    let root = arena.push_view(UiNode::new(
        Entity::Scale(dome::nodes::ScaleEntity { inner: child, scale: 2000 }),
        Styles::default(),
    ));
    let mut calc = RegionCalc::new(SimpleText::new());
    calc.compute_regions(&mut arena, root, region(0, 0, 70, 30));
    assert_eq!(arena.get_relative_region(child), Some(region(0, 0, 70, 30)));
}
