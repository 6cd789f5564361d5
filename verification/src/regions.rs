//! The two-pass layout engine.
//!
//! The size-constraint pass walks the tree bottom-up and derives, for every
//! node, a minimum and maximum size constraint pair from its entity kind,
//! its children, and its style record, memoised into a per-id table for the
//! duration of one layout call. The region-resolution pass then walks
//! top-down from an available bounding region, fixes each node's rectangle,
//! and for stacks distributes the available extent among the children under
//! their constraints.
//!
//! Every executable function of the engine is specified exactly: its result
//! and its effect on the constraint table and the region cache equal the
//! value of the corresponding specification function on the entry state.

use vstd::prelude::*;

use crate::arena::{Arena, ViewId};
use crate::arith::{add_sat, div_floor, max64, mul_sat, sat_add_i64, sat_mul_i64, sat_sub_i64, sub_sat};
use crate::geometry::{Region, Size};
use crate::nodes::{
    Entity, ParagraphEntity, RoundedRectRadii, StackDirection, TextEntity, TextStyles, UiNode,
};
use crate::styles::{
    spec_max_options, spec_sum_options, HAlign, SizeConstraints, Styles, VAlign,
};
use crate::text::SimpleText;
use vstd::utf8::encode_utf8;

verus! {

broadcast use crate::arena::lemma_arena_out_of_range;

/// The constraint pair the size pass derives for one node.
#[derive(Clone, Copy, Debug, PartialEq, Eq, Structural)]
pub struct CalcData {
    pub min_size: SizeConstraints,
    pub max_size: SizeConstraints,
}

/// The node a view id names, if it is live.
pub open spec fn spec_node_get(v: Seq<Option<UiNode>>, id: ViewId) -> Option<UiNode> {
    if 0 <= id.spec_index() < v.len() {
        v[id.spec_index()]
    } else {
        None
    }
}

/// The constraint entry a view id names, if one was computed.
pub open spec fn spec_calc_get(m: Seq<Option<CalcData>>, id: ViewId) -> Option<CalcData> {
    if 0 <= id.spec_index() < m.len() {
        m[id.spec_index()]
    } else {
        None
    }
}

/// Store a constraint entry under an in-range id.
pub open spec fn spec_calc_set(
    m: Seq<Option<CalcData>>,
    id: ViewId,
    cd: CalcData,
) -> Seq<Option<CalcData>> {
    if 0 <= id.spec_index() < m.len() {
        m.update(id.spec_index(), Some(cd))
    } else {
        m
    }
}

/// Every live switch node selects a child it has: the layout passes index
/// the active child directly, as a construction contract.
pub open spec fn spec_switches_ok(v: Seq<Option<UiNode>>) -> bool {
    forall|i: int|
        0 <= i < v.len() ==> match #[trigger] v[i] {
            Some(n) => match n.entity {
                Entity::Switch(e) => e.mode < e.inner@.len(),
                _ => true,
            },
            None => true,
        }
}

/// A content minimum grows by the surrounding inset on its axis; an absent
/// minimum counts as zero, so the result is always a bound.
pub open spec fn spec_sum_min_size(width: Option<i64>, inset: i64) -> Option<i64> {
    Some(sat_add_i64(inset, match width {
        Some(w) => w,
        None => 0,
    }))
}

/// A finite maximum grows by the surrounding inset; an absent maximum stays
/// absent.
pub open spec fn spec_sum_max_size(width: Option<i64>, inset: i64) -> Option<i64> {
    match width {
        Some(w) => Some(sat_add_i64(w, inset)),
        None => None,
    }
}

/// The intrinsic size of a rounded rectangle: just wide and tall enough
/// that opposite corner arcs do not overlap.
pub open spec fn spec_rect_size(radii: RoundedRectRadii) -> Size {
    let top = sat_add_i64(radii.top_left, radii.top_right);
    let bottom = sat_add_i64(radii.bottom_left, radii.bottom_right);
    let left = sat_add_i64(radii.top_left, radii.bottom_left);
    let right = sat_add_i64(radii.top_right, radii.bottom_right);
    Size {
        width: if top >= bottom { top } else { bottom },
        height: if left >= right { left } else { right },
    }
}

/// One more line for every newline byte of the encoded text.
pub open spec fn spec_line_count(bytes: Seq<u8>) -> i64
    decreases bytes.len(),
{
    if bytes.len() == 0 {
        1
    } else if bytes.last() == 10u8 {
        sat_add_i64(spec_line_count(bytes.drop_last()), 1)
    } else {
        spec_line_count(bytes.drop_last())
    }
}

/// The provisional height of an unwrapped text block: its line count times
/// the font size.
pub open spec fn spec_text_height(text: Seq<char>, styles: TextStyles) -> i64 {
    sat_mul_i64(spec_line_count(encode_utf8(text)), styles.size)
}

fn sum_min_size(width: Option<i64>, border: i64) -> (r: Option<i64>)
    ensures
        r == spec_sum_min_size(width, border),
{
    match width {
        Some(w) => Some(add_sat(border, w)),
        None => Some(add_sat(border, 0)),
    }
}

fn sum_max_size(width: Option<i64>, border: i64) -> (r: Option<i64>)
    ensures
        r == spec_sum_max_size(width, border),
{
    match width {
        Some(w) => Some(add_sat(w, border)),
        None => None,
    }
}

fn rect_size(radii: &RoundedRectRadii) -> (s: Size)
    ensures
        s == spec_rect_size(*radii),
{
    let top = add_sat(radii.top_left, radii.top_right);
    let bottom = add_sat(radii.bottom_left, radii.bottom_right);
    let left = add_sat(radii.top_left, radii.bottom_left);
    let right = add_sat(radii.top_right, radii.bottom_right);
    Size { width: max64(top, bottom), height: max64(left, right) }
}

fn text_height(text: &String, styles: &TextStyles) -> (h: i64)
    ensures
        h == spec_text_height(text@, *styles),
{
    let bytes = text.as_str().as_bytes();
    let mut lines: i64 = 1;
    let mut i: usize = 0;
    while i < bytes.len()
        invariant
            i <= bytes@.len(),
            bytes@ == encode_utf8(text@),
            lines == spec_line_count(bytes@.take(i as int)),
        decreases bytes@.len() - i,
    {
        if bytes[i] == 10u8 {
            lines = add_sat(lines, 1);
        }
        proof {
            assert(bytes@.take(i as int + 1).drop_last() =~= bytes@.take(i as int));
            assert(bytes@.take(i as int + 1).last() == bytes@[i as int]);
        }
        i = i + 1;
    }
    proof {
        assert(bytes@.take(bytes@.len() as int) =~= bytes@);
    }
    mul_sat(lines, styles.size)
}

} // verus!

// === size-constraint pass ==================================================

verus! {

/// The horizontal inset a node's border and padding add around its content.
pub open spec fn spec_insets_w(styles: Styles) -> i64 {
    sat_add_i64(
        sat_add_i64(sat_mul_i64(styles.borders.width, 2), styles.padding.left),
        styles.padding.right,
    )
}

/// The vertical inset a node's border and padding add around its content.
pub open spec fn spec_insets_h(styles: Styles) -> i64 {
    sat_add_i64(
        sat_add_i64(sat_mul_i64(styles.borders.width, 2), styles.padding.top),
        styles.padding.bottom,
    )
}

/// A node's effective minimum: the content minimum plus the insets, floored
/// by the style-declared minimum.
pub open spec fn spec_finish_min(styles: Styles, content_min: SizeConstraints) -> SizeConstraints {
    let inset = SizeConstraints {
        width: spec_sum_min_size(content_min.width, spec_insets_w(styles)),
        height: spec_sum_min_size(content_min.height, spec_insets_h(styles)),
    };
    inset.spec_max(styles.size.min_size)
}

/// A node's effective maximum: a finite declared maximum plus the insets,
/// an absent one staying absent.
pub open spec fn spec_finish_max(styles: Styles, eff_max: SizeConstraints) -> SizeConstraints {
    SizeConstraints {
        width: spec_sum_max_size(eff_max.width, spec_insets_w(styles)),
        height: spec_sum_max_size(eff_max.height, spec_insets_h(styles)),
    }
}

/// How a stack folds its children's minima: sums along its axis, maxima
/// across it, and componentwise maxima for a depth stack.
pub open spec fn spec_stack_combine(
    dir: StackDirection,
    acc: SizeConstraints,
    min: SizeConstraints,
) -> SizeConstraints {
    match dir {
        StackDirection::X => SizeConstraints {
            width: spec_sum_options(acc.width, min.width),
            height: spec_max_options(acc.height, min.height),
        },
        StackDirection::Y => SizeConstraints {
            width: spec_max_options(acc.width, min.width),
            height: spec_sum_options(acc.height, min.height),
        },
        StackDirection::Z => SizeConstraints {
            width: spec_max_options(acc.width, min.width),
            height: spec_max_options(acc.height, min.height),
        },
    }
}

/// The size-constraint pass at one node: the table it leaves behind and the
/// entry it derives. A missing node, a missing child of a single-child
/// kind, or exhausted fuel yields no entry and leaves ancestors unserved.
pub open spec fn spec_size_pass(
    v: Seq<Option<UiNode>>,
    m: Seq<Option<CalcData>>,
    id: ViewId,
    fuel: nat,
) -> (Seq<Option<CalcData>>, Option<CalcData>)
    decreases fuel, 1nat, 0nat,
{
    if fuel == 0 {
        (m, None)
    } else {
        match spec_node_get(v, id) {
            None => (m, None),
            Some(node) => {
                let styles = node.styles;
                match node.entity {
                    Entity::Box(e) => {
                        let (m1, c) = spec_size_pass(v, m, e.inner, (fuel - 1) as nat);
                        match c {
                            None => (m1, None),
                            Some(cd) => {
                                let out = CalcData {
                                    min_size: spec_finish_min(styles, cd.min_size),
                                    max_size: spec_finish_max(styles, styles.size.max_size),
                                };
                                (spec_calc_set(m1, id, out), Some(out))
                            },
                        }
                    },
                    Entity::Scroll(e) => {
                        let (m1, c) = spec_size_pass(v, m, e.inner, (fuel - 1) as nat);
                        if !e.enable_inner_min_size {
                            let out = CalcData {
                                min_size: styles.size.min_size,
                                max_size: spec_finish_max(styles, styles.size.max_size),
                            };
                            (spec_calc_set(m1, id, out), Some(out))
                        } else {
                            match c {
                                None => (m1, None),
                                Some(cd) => {
                                    let out = CalcData {
                                        min_size: spec_finish_min(styles, cd.min_size),
                                        max_size: spec_finish_max(styles, styles.size.max_size),
                                    };
                                    (spec_calc_set(m1, id, out), Some(out))
                                },
                            }
                        }
                    },
                    Entity::Stack(e) => {
                        let (m1, folded) = spec_stack_kids(
                            v,
                            m,
                            e.inner@,
                            0,
                            e.direction,
                            SizeConstraints { width: None, height: None },
                            fuel,
                        );
                        let out = CalcData {
                            min_size: spec_finish_min(styles, folded),
                            max_size: spec_finish_max(styles, styles.size.max_size),
                        };
                        (spec_calc_set(m1, id, out), Some(out))
                    },
                    Entity::Scale(e) => {
                        let (m1, _c) = spec_size_pass(v, m, e.inner, (fuel - 1) as nat);
                        let out = CalcData {
                            min_size: spec_finish_min(
                                styles,
                                SizeConstraints { width: None, height: None },
                            ),
                            max_size: spec_finish_max(styles, styles.size.max_size),
                        };
                        (spec_calc_set(m1, id, out), Some(out))
                    },
                    Entity::Switch(e) => {
                        if e.mode < e.inner@.len() {
                            let (m1, c) = spec_size_pass(
                                v,
                                m,
                                e.inner@[e.mode as int],
                                (fuel - 1) as nat,
                            );
                            match c {
                                None => (m1, None),
                                Some(cd) => {
                                    let out = CalcData {
                                        min_size: spec_finish_min(styles, cd.min_size),
                                        max_size: spec_finish_max(styles, styles.size.max_size),
                                    };
                                    (spec_calc_set(m1, id, out), Some(out))
                                },
                            }
                        } else {
                            (m, None)
                        }
                    },
                    Entity::Rect(e) => {
                        let sz = spec_rect_size(e.radii);
                        let out = CalcData {
                            min_size: spec_finish_min(
                                styles,
                                SizeConstraints { width: Some(sz.width), height: Some(sz.height) },
                            ),
                            max_size: spec_finish_max(styles, styles.size.max_size),
                        };
                        (spec_calc_set(m, id, out), Some(out))
                    },
                    Entity::Text(_) => {
                        let measured = SizeConstraints { width: Some(0), height: Some(0) };
                        let out = CalcData {
                            min_size: spec_finish_min(styles, measured),
                            max_size: spec_finish_max(styles, measured),
                        };
                        (spec_calc_set(m, id, out), Some(out))
                    },
                    Entity::Paragraph(e) => {
                        let content = SizeConstraints {
                            width: None,
                            height: Some(spec_text_height(e.text@, e.styles)),
                        };
                        let out = CalcData {
                            min_size: spec_finish_min(styles, content),
                            max_size: spec_finish_max(styles, styles.size.max_size),
                        };
                        (spec_calc_set(m, id, out), Some(out))
                    },
                    _ => {
                        let out = CalcData {
                            min_size: spec_finish_min(
                                styles,
                                SizeConstraints { width: None, height: None },
                            ),
                            max_size: spec_finish_max(styles, styles.size.max_size),
                        };
                        (spec_calc_set(m, id, out), Some(out))
                    },
                }
            },
        }
    }
}

/// The size pass over a stack's children from index `i` on, folding their
/// minima; children whose pass yields no entry are skipped.
pub open spec fn spec_stack_kids(
    v: Seq<Option<UiNode>>,
    m: Seq<Option<CalcData>>,
    kids: Seq<ViewId>,
    i: int,
    dir: StackDirection,
    acc: SizeConstraints,
    fuel: nat,
) -> (Seq<Option<CalcData>>, SizeConstraints)
    decreases fuel, 0nat, kids.len() - i,
{
    if fuel == 0 || !(0 <= i < kids.len()) {
        (m, acc)
    } else {
        let (m1, c) = spec_size_pass(v, m, kids[i], (fuel - 1) as nat);
        let acc2 = match c {
            None => acc,
            Some(cd) => spec_stack_combine(dir, acc, cd.min_size),
        };
        spec_stack_kids(v, m1, kids, i + 1, dir, acc2, fuel)
    }
}

/// The layout driver: the text context and the per-id constraint table of
/// the current call.
pub struct RegionCalc {
    pub text: SimpleText,
    pub calc_data: Vec<Option<CalcData>>,
}

impl RegionCalc {
    pub fn new(text: SimpleText) -> (rc: RegionCalc)
        ensures
            rc.calc_data@ == Seq::<Option<CalcData>>::empty(),
    {
        let rc = RegionCalc { text, calc_data: Vec::new() };
        proof {
            assert(rc.calc_data@ =~= Seq::<Option<CalcData>>::empty());
        }
        rc
    }

    /// The wrap-dependent extent of a paragraph; measurement is an external
    /// service and currently reports the empty extent.
    fn get_paragraph_size(&self, _entity: &ParagraphEntity, _max_width: i64) -> (r: Region)
        ensures
            r == Region::spec_zero(),
    {
        Region::zero()
    }

    /// The natural extent of an unwrapped text run; measurement is an
    /// external service and currently reports the empty extent.
    fn get_text_blob_size(&self, _entity: &TextEntity) -> (r: Region)
        ensures
            r == Region::spec_zero(),
    {
        Region::zero()
    }

    fn set_calc(&mut self, id: ViewId, cd: CalcData)
        ensures
            final(self).calc_data@ == spec_calc_set(old(self).calc_data@, id, cd),
            final(self).text == old(self).text,
    {
        if id.0 < self.calc_data.len() {
            let slot = &mut self.calc_data[id.0];
            *slot = Some(cd);
        }
    }

    fn finish_calc(
        &mut self,
        id: ViewId,
        styles: &Styles,
        content_min: SizeConstraints,
        eff_max: SizeConstraints,
        is_scrollable: bool,
    ) -> (out: CalcData)
        ensures
            out == (CalcData {
                min_size: if is_scrollable {
                    styles.size.min_size
                } else {
                    spec_finish_min(*styles, content_min)
                },
                max_size: spec_finish_max(*styles, eff_max),
            }),
            final(self).calc_data@ == spec_calc_set(old(self).calc_data@, id, out),
            final(self).text == old(self).text,
    {
        let inset_w = add_sat(add_sat(mul_sat(styles.borders.width, 2), styles.padding.left),
            styles.padding.right);
        let inset_h = add_sat(add_sat(mul_sat(styles.borders.width, 2), styles.padding.top),
            styles.padding.bottom);
        let min_size = if is_scrollable {
            styles.size.min_size
        } else {
            let inset = SizeConstraints {
                width: sum_min_size(content_min.width, inset_w),
                height: sum_min_size(content_min.height, inset_h),
            };
            inset.max(styles.size.min_size)
        };
        let max_size = SizeConstraints {
            width: sum_max_size(eff_max.width, inset_w),
            height: sum_max_size(eff_max.height, inset_h),
        };
        let out = CalcData { min_size, max_size };
        self.set_calc(id, out);
        out
    }

    /// Derive and memoise the constraint pair of `id`'s subtree, bottom-up.
    fn compute_size_constraints(&mut self, arena: &Arena, id: ViewId, fuel: usize) -> (r: Option<
        CalcData,
    >)
        requires
            spec_switches_ok(arena.node_seq()),
        ensures
            final(self).calc_data@ == spec_size_pass(
                arena.node_seq(),
                old(self).calc_data@,
                id,
                fuel as nat,
            ).0,
            r == spec_size_pass(arena.node_seq(), old(self).calc_data@, id, fuel as nat).1,
            final(self).text == old(self).text,
        decreases fuel, 1int, 0int,
    {
        proof {
            assert(spec_node_get(arena.node_seq(), id) == arena.node_at(id.spec_index()));
        }
        if fuel == 0 {
            return None;
        }
        let node = match arena.get_view(id) {
            Some(n) => n,
            None => {
                return None;
            },
        };
        let styles = node.styles;
        match &node.entity {
            Entity::Box(e) => {
                let c = self.compute_size_constraints(arena, e.inner, fuel - 1);
                match c {
                    None => None,
                    Some(cd) => Some(
                        self.finish_calc(id, &styles, cd.min_size, styles.size.max_size, false),
                    ),
                }
            },
            Entity::Scroll(e) => {
                let c = self.compute_size_constraints(arena, e.inner, fuel - 1);
                if !e.enable_inner_min_size {
                    Some(
                        self.finish_calc(
                            id,
                            &styles,
                            SizeConstraints { width: None, height: None },
                            styles.size.max_size,
                            true,
                        ),
                    )
                } else {
                    match c {
                        None => None,
                        Some(cd) => Some(
                            self.finish_calc(id, &styles, cd.min_size, styles.size.max_size, false),
                        ),
                    }
                }
            },
            Entity::Stack(e) => {
                let folded = self.compute_stack_size_constraints(
                    arena,
                    &e.inner,
                    0,
                    e.direction,
                    SizeConstraints { width: None, height: None },
                    fuel,
                );
                Some(self.finish_calc(id, &styles, folded, styles.size.max_size, false))
            },
            Entity::Scale(e) => {
                let _ = self.compute_size_constraints(arena, e.inner, fuel - 1);
                Some(
                    self.finish_calc(
                        id,
                        &styles,
                        SizeConstraints { width: None, height: None },
                        styles.size.max_size,
                        false,
                    ),
                )
            },
            Entity::Switch(e) => {
                let kid = e.inner[e.mode];
                let c = self.compute_size_constraints(arena, kid, fuel - 1);
                match c {
                    None => None,
                    Some(cd) => Some(
                        self.finish_calc(id, &styles, cd.min_size, styles.size.max_size, false),
                    ),
                }
            },
            Entity::Rect(e) => {
                let sz = rect_size(&e.radii);
                Some(
                    self.finish_calc(
                        id,
                        &styles,
                        SizeConstraints { width: Some(sz.width), height: Some(sz.height) },
                        styles.size.max_size,
                        false,
                    ),
                )
            },
            Entity::Text(e) => {
                let sz = self.get_text_blob_size(e);
                let w = sz.width();
                let h = sz.height();
                let measured = SizeConstraints { width: Some(w), height: Some(h) };
                Some(self.finish_calc(id, &styles, measured, measured, false))
            },
            Entity::Paragraph(e) => {
                let h = text_height(&e.text, &e.styles);
                let content = SizeConstraints { width: None, height: Some(h) };
                Some(self.finish_calc(id, &styles, content, styles.size.max_size, false))
            },
            _ => {
                Some(
                    self.finish_calc(
                        id,
                        &styles,
                        SizeConstraints { width: None, height: None },
                        styles.size.max_size,
                        false,
                    ),
                )
            },
        }
    }

    /// Fold the minima of a stack's children from index `i` on, running the
    /// size pass on each.
    fn compute_stack_size_constraints(
        &mut self,
        arena: &Arena,
        kids: &Vec<ViewId>,
        i: usize,
        direction: StackDirection,
        acc: SizeConstraints,
        fuel: usize,
    ) -> (r: SizeConstraints)
        requires
            spec_switches_ok(arena.node_seq()),
        ensures
            final(self).calc_data@ == spec_stack_kids(
                arena.node_seq(),
                old(self).calc_data@,
                kids@,
                i as int,
                direction,
                acc,
                fuel as nat,
            ).0,
            r == spec_stack_kids(
                arena.node_seq(),
                old(self).calc_data@,
                kids@,
                i as int,
                direction,
                acc,
                fuel as nat,
            ).1,
            final(self).text == old(self).text,
        decreases fuel, 0int, kids@.len() - i,
    {
        if fuel == 0 || i >= kids.len() {
            return acc;
        }
        let c = self.compute_size_constraints(arena, kids[i], fuel - 1);
        let acc2 = match c {
            None => acc,
            Some(cd) => {
                match direction {
                    StackDirection::X => SizeConstraints {
                        width: crate::styles::sum_options(acc.width, cd.min_size.width),
                        height: crate::styles::max_options(acc.height, cd.min_size.height),
                    },
                    StackDirection::Y => SizeConstraints {
                        width: crate::styles::max_options(acc.width, cd.min_size.width),
                        height: crate::styles::sum_options(acc.height, cd.min_size.height),
                    },
                    StackDirection::Z => SizeConstraints {
                        width: crate::styles::max_options(acc.width, cd.min_size.width),
                        height: crate::styles::max_options(acc.height, cd.min_size.height),
                    },
                }
            },
        };
        self.compute_stack_size_constraints(arena, kids, i + 1, direction, acc2, fuel)
    }
}

} // verus!

// === constrained distribution ==============================================

verus! {

/// The saturating sum of a sequence of extents.
pub open spec fn spec_sum(s: Seq<i64>) -> i64
    decreases s.len(),
{
    if s.len() == 0 {
        0
    } else {
        sat_add_i64(spec_sum(s.drop_last()), s.last())
    }
}

/// The saturating sum of optional extents; any absent bound makes the whole
/// sum unbounded.
pub open spec fn spec_sum_opt(s: Seq<Option<i64>>) -> Option<i64>
    decreases s.len(),
{
    if s.len() == 0 {
        Some(0)
    } else {
        match (spec_sum_opt(s.drop_last()), s.last()) {
            (Some(a), Some(b)) => Some(sat_add_i64(a, b)),
            _ => None,
        }
    }
}

/// Absent maxima read as zero once the all-finite branch applies.
pub open spec fn spec_maxes_flat(maxes: Seq<Option<i64>>) -> Seq<i64> {
    Seq::new(maxes.len(), |i: int| match maxes[i] {
        Some(v) => v,
        None => 0,
    })
}

/// How many children are still flexible.
pub open spec fn spec_count_false(s: Seq<bool>) -> int
    decreases s.len(),
{
    if s.len() == 0 {
        0
    } else {
        spec_count_false(s.drop_last()) + if s.last() {
            0int
        } else {
            1int
        }
    }
}

/// The even share of the remaining extent over the flexible children.
pub open spec fn spec_avg_of(rem: i64, cnt: int) -> i64 {
    if cnt > 0 {
        (rem as int / cnt) as i64
    } else {
        0
    }
}

/// One scan of the minimum phase from index `i`: a flexible child whose
/// minimum exceeds the current average is pinned, the remaining extent and
/// average recomputed at once, so later children of the same scan see the
/// new average.
pub open spec fn spec_min_scan(
    mins: Seq<i64>,
    have: Seq<bool>,
    rem: i64,
    cnt: int,
    avg: i64,
    i: int,
) -> (Seq<bool>, i64, int, i64, bool)
    decreases mins.len() - i,
{
    if !(0 <= i < mins.len()) {
        (have, rem, cnt, avg, false)
    } else if 0 <= i < have.len() && !have[i] && mins[i] > avg {
        let have2 = have.update(i, true);
        let rem2 = sat_sub_i64(rem, mins[i]);
        let cnt2 = cnt - 1;
        let avg2 = spec_avg_of(rem2, cnt2);
        let next = spec_min_scan(mins, have2, rem2, cnt2, avg2, i + 1);
        (next.0, next.1, next.2, next.3, true)
    } else {
        spec_min_scan(mins, have, rem, cnt, avg, i + 1)
    }
}

/// The minimum phase: scans repeat until one pins nothing.
pub open spec fn spec_min_phase(
    mins: Seq<i64>,
    have: Seq<bool>,
    rem: i64,
    cnt: int,
    avg: i64,
    fuel: nat,
) -> (Seq<bool>, i64, int, i64)
    decreases fuel,
{
    if fuel == 0 {
        (have, rem, cnt, avg)
    } else {
        let scan = spec_min_scan(mins, have, rem, cnt, avg, 0);
        if scan.4 {
            spec_min_phase(mins, scan.0, scan.1, scan.2, scan.3, (fuel - 1) as nat)
        } else {
            (scan.0, scan.1, scan.2, scan.3)
        }
    }
}

/// One scan of the maximum phase from index `i`: a flexible child whose
/// finite maximum falls below the current average is pinned to that
/// maximum.
pub open spec fn spec_max_scan(
    maxes: Seq<Option<i64>>,
    widths: Seq<i64>,
    have: Seq<bool>,
    rem: i64,
    cnt: int,
    avg: i64,
    i: int,
) -> (Seq<i64>, Seq<bool>, i64, int, i64, bool)
    decreases maxes.len() - i,
{
    if !(0 <= i < maxes.len()) {
        (widths, have, rem, cnt, avg, false)
    } else if 0 <= i < have.len() && !have[i] && (maxes[i] matches Some(mx) && mx < avg) {
        let mx = maxes[i]->Some_0;
        let widths2 = if 0 <= i < widths.len() {
            widths.update(i, mx)
        } else {
            widths
        };
        let have2 = have.update(i, true);
        let rem2 = sat_sub_i64(rem, mx);
        let cnt2 = cnt - 1;
        let avg2 = spec_avg_of(rem2, cnt2);
        let next = spec_max_scan(maxes, widths2, have2, rem2, cnt2, avg2, i + 1);
        (next.0, next.1, next.2, next.3, next.4, true)
    } else {
        spec_max_scan(maxes, widths, have, rem, cnt, avg, i + 1)
    }
}

/// The maximum phase: scans repeat until one pins nothing.
pub open spec fn spec_max_phase(
    maxes: Seq<Option<i64>>,
    widths: Seq<i64>,
    have: Seq<bool>,
    rem: i64,
    cnt: int,
    avg: i64,
    fuel: nat,
) -> (Seq<i64>, Seq<bool>, i64, int, i64)
    decreases fuel,
{
    if fuel == 0 {
        (widths, have, rem, cnt, avg)
    } else {
        let scan = spec_max_scan(maxes, widths, have, rem, cnt, avg, 0);
        if scan.5 {
            spec_max_phase(maxes, scan.0, scan.1, scan.2, scan.3, scan.4, (fuel - 1) as nat)
        } else {
            (scan.0, scan.1, scan.2, scan.3, scan.4)
        }
    }
}

/// Every still-flexible child receives the final average.
pub open spec fn spec_fill(widths: Seq<i64>, have: Seq<bool>, avg: i64) -> Seq<i64> {
    Seq::new(widths.len(), |i: int| if 0 <= i < have.len() && !have[i] {
        avg
    } else {
        widths[i]
    })
}

/// The per-axis distribution of an available extent among children with
/// per-child minimum and optional maximum bounds.
///
/// When the minima already use the whole extent, every child is forced to
/// its minimum and the stack overflows rather than shrink below a minimum.
/// When every child has a finite maximum and those fit together, every
/// child receives its maximum and the leftover extent stays undistributed.
/// Otherwise the children are split by two-phase relaxation: children whose
/// minimum exceeds the running average are pinned to their minimum, then
/// children whose finite maximum falls below it are pinned to that maximum,
/// and the rest share the remaining extent evenly.
pub open spec fn spec_distribute(mins: Seq<i64>, maxes: Seq<Option<i64>>, avail: i64) -> Seq<i64> {
    let min_sum = spec_sum(mins);
    let max_sum = spec_sum_opt(maxes);
    if min_sum >= avail {
        mins
    } else if max_sum matches Some(ms) && ms <= avail {
        spec_maxes_flat(maxes)
    } else {
        let n = mins.len() as int;
        let have0 = Seq::new(mins.len(), |i: int| false);
        let avg0 = spec_avg_of(avail, n);
        let p1 = spec_min_phase(mins, have0, avail, n, avg0, (n + 1) as nat);
        let p2 = spec_max_phase(maxes, mins, p1.0, p1.1, p1.2, p1.3, (n + 1) as nat);
        spec_fill(p2.0, p2.1, p2.4)
    }
}

proof fn lemma_count_false_bounds(s: Seq<bool>)
    ensures
        0 <= spec_count_false(s) <= s.len(),
    decreases s.len(),
{
    if s.len() > 0 {
        lemma_count_false_bounds(s.drop_last());
    }
}

proof fn lemma_count_false_update(s: Seq<bool>, i: int)
    requires
        0 <= i < s.len(),
        !s[i],
    ensures
        spec_count_false(s.update(i, true)) == spec_count_false(s) - 1,
        spec_count_false(s) >= 1,
    decreases s.len(),
{
    lemma_count_false_bounds(s.drop_last());
    let u = s.update(i, true);
    if i == s.len() - 1 {
        assert(u.drop_last() =~= s.drop_last());
    } else {
        assert(u.drop_last() =~= s.drop_last().update(i, true));
        assert(u.last() == s.last());
        lemma_count_false_update(s.drop_last(), i);
    }
}

proof fn lemma_count_false_all(n: nat)
    ensures
        spec_count_false(Seq::new(n, |i: int| false)) == n,
    decreases n,
{
    let s = Seq::new(n, |i: int| false);
    if n > 0 {
        assert(s.drop_last() =~= Seq::new((n - 1) as nat, |i: int| false));
        lemma_count_false_all((n - 1) as nat);
    }
}

fn min_scan(
    mins: &Vec<i64>,
    have: &mut Vec<bool>,
    rem: &mut i64,
    cnt: &mut usize,
    avg: &mut i64,
    i: usize,
) -> (modified: bool)
    requires
        old(have)@.len() == mins@.len(),
        *old(cnt) == spec_count_false(old(have)@),
    ensures
        final(have)@.len() == mins@.len(),
        *final(cnt) == spec_count_false(final(have)@),
        ({
            let scan = spec_min_scan(
                mins@,
                old(have)@,
                *old(rem),
                *old(cnt) as int,
                *old(avg),
                i as int,
            );
            final(have)@ == scan.0 && *final(rem) == scan.1 && *final(cnt) as int == scan.2
                && *final(avg) == scan.3 && modified == scan.4
        }),
        *final(cnt) <= *old(cnt),
        modified ==> *final(cnt) < *old(cnt),
    decreases mins@.len() - i,
{
    if i >= mins.len() {
        return false;
    }
    let mut pinned = false;
    if !have[i] && mins[i] > *avg {
        proof {
            lemma_count_false_update(have@, i as int);
        }
        let slot = &mut have[i];
        *slot = true;
        *rem = sub_sat(*rem, mins[i]);
        *cnt = *cnt - 1;
        *avg = if *cnt > 0 {
            crate::arith::div_floor_cnt(*rem, *cnt)
        } else {
            0
        };
        pinned = true;
    }
    let rest = min_scan(mins, have, rem, cnt, avg, i + 1);
    pinned || rest
}

fn min_phase(
    mins: &Vec<i64>,
    have: &mut Vec<bool>,
    rem: &mut i64,
    cnt: &mut usize,
    avg: &mut i64,
    Ghost(fuel): Ghost<nat>,
)
    requires
        old(have)@.len() == mins@.len(),
        *old(cnt) == spec_count_false(old(have)@),
        fuel >= *old(cnt) + 1,
    ensures
        final(have)@.len() == mins@.len(),
        *final(cnt) == spec_count_false(final(have)@),
        ({
            let phase = spec_min_phase(
                mins@,
                old(have)@,
                *old(rem),
                *old(cnt) as int,
                *old(avg),
                fuel,
            );
            final(have)@ == phase.0 && *final(rem) == phase.1 && *final(cnt) as int == phase.2
                && *final(avg) == phase.3
        }),
    decreases fuel,
{
    let modified = min_scan(mins, have, rem, cnt, avg, 0);
    if modified {
        min_phase(mins, have, rem, cnt, avg, Ghost((fuel - 1) as nat));
    }
}

fn max_scan(
    maxes: &Vec<Option<i64>>,
    widths: &mut Vec<i64>,
    have: &mut Vec<bool>,
    rem: &mut i64,
    cnt: &mut usize,
    avg: &mut i64,
    i: usize,
) -> (modified: bool)
    requires
        old(have)@.len() == maxes@.len(),
        old(widths)@.len() == maxes@.len(),
        *old(cnt) == spec_count_false(old(have)@),
    ensures
        final(have)@.len() == maxes@.len(),
        final(widths)@.len() == maxes@.len(),
        *final(cnt) == spec_count_false(final(have)@),
        ({
            let scan = spec_max_scan(
                maxes@,
                old(widths)@,
                old(have)@,
                *old(rem),
                *old(cnt) as int,
                *old(avg),
                i as int,
            );
            final(widths)@ == scan.0 && final(have)@ == scan.1 && *final(rem) == scan.2
                && *final(cnt) as int == scan.3 && *final(avg) == scan.4 && modified == scan.5
        }),
        *final(cnt) <= *old(cnt),
        modified ==> *final(cnt) < *old(cnt),
    decreases maxes@.len() - i,
{
    if i >= maxes.len() {
        return false;
    }
    let mut pinned = false;
    let mx_opt = maxes[i];
    if !have[i] {
        match mx_opt {
            Some(mx) => {
                if mx < *avg {
                    proof {
                        lemma_count_false_update(have@, i as int);
                    }
                    let wslot = &mut widths[i];
                    *wslot = mx;
                    let slot = &mut have[i];
                    *slot = true;
                    *rem = sub_sat(*rem, mx);
                    *cnt = *cnt - 1;
                    *avg = if *cnt > 0 {
                        crate::arith::div_floor_cnt(*rem, *cnt)
                    } else {
                        0
                    };
                    pinned = true;
                }
            },
            None => {},
        }
    }
    let rest = max_scan(maxes, widths, have, rem, cnt, avg, i + 1);
    pinned || rest
}

fn max_phase(
    maxes: &Vec<Option<i64>>,
    widths: &mut Vec<i64>,
    have: &mut Vec<bool>,
    rem: &mut i64,
    cnt: &mut usize,
    avg: &mut i64,
    Ghost(fuel): Ghost<nat>,
)
    requires
        old(have)@.len() == maxes@.len(),
        old(widths)@.len() == maxes@.len(),
        *old(cnt) == spec_count_false(old(have)@),
        fuel >= *old(cnt) + 1,
    ensures
        final(have)@.len() == maxes@.len(),
        final(widths)@.len() == maxes@.len(),
        *final(cnt) == spec_count_false(final(have)@),
        ({
            let phase = spec_max_phase(
                maxes@,
                old(widths)@,
                old(have)@,
                *old(rem),
                *old(cnt) as int,
                *old(avg),
                fuel,
            );
            final(widths)@ == phase.0 && final(have)@ == phase.1 && *final(rem) == phase.2
                && *final(cnt) as int == phase.3 && *final(avg) == phase.4
        }),
    decreases fuel,
{
    let modified = max_scan(maxes, widths, have, rem, cnt, avg, 0);
    if modified {
        max_phase(maxes, widths, have, rem, cnt, avg, Ghost((fuel - 1) as nat));
    }
}

fn copy_extents(src: &Vec<i64>) -> (out: Vec<i64>)
    ensures
        out@ == src@,
{
    let mut out: Vec<i64> = Vec::new();
    let mut i: usize = 0;
    while i < src.len()
        invariant
            i <= src@.len(),
            out@ =~= src@.take(i as int),
        decreases src@.len() - i,
    {
        out.push(src[i]);
        proof {
            assert(out@ =~= src@.take(i as int + 1));
        }
        i = i + 1;
    }
    proof {
        assert(src@.take(src@.len() as int) =~= src@);
    }
    out
}

fn flatten_maxes(maxes: &Vec<Option<i64>>) -> (out: Vec<i64>)
    ensures
        out@ == spec_maxes_flat(maxes@),
{
    let mut out: Vec<i64> = Vec::new();
    let mut i: usize = 0;
    while i < maxes.len()
        invariant
            i <= maxes@.len(),
            out@ =~= spec_maxes_flat(maxes@).take(i as int),
        decreases maxes@.len() - i,
    {
        match maxes[i] {
            Some(v) => out.push(v),
            None => out.push(0),
        }
        proof {
            assert(out@ =~= spec_maxes_flat(maxes@).take(i as int + 1));
        }
        i = i + 1;
    }
    proof {
        assert(spec_maxes_flat(maxes@).take(maxes@.len() as int) =~= spec_maxes_flat(maxes@));
    }
    out
}

/// Distribute `avail` among children bounded below by `mins` and above by
/// `maxes`.
fn distribute(mins: &Vec<i64>, maxes: &Vec<Option<i64>>, avail: i64) -> (w: Vec<i64>)
    requires
        mins@.len() == maxes@.len(),
    ensures
        w@ == spec_distribute(mins@, maxes@, avail),
{
    let n = mins.len();
    let mut min_sum: i64 = 0;
    let mut i: usize = 0;
    while i < n
        invariant
            i <= n,
            n == mins@.len(),
            min_sum == spec_sum(mins@.take(i as int)),
        decreases n - i,
    {
        min_sum = add_sat(min_sum, mins[i]);
        proof {
            assert(mins@.take(i as int + 1).drop_last() =~= mins@.take(i as int));
            assert(mins@.take(i as int + 1).last() == mins@[i as int]);
        }
        i = i + 1;
    }
    proof {
        assert(mins@.take(mins@.len() as int) =~= mins@);
    }
    if min_sum >= avail {
        return copy_extents(mins);
    }
    let mut max_sum: i64 = 0;
    let mut all_finite = true;
    let mut i2: usize = 0;
    while i2 < n
        invariant
            i2 <= n,
            n == maxes@.len(),
            all_finite ==> spec_sum_opt(maxes@.take(i2 as int)) == Some(max_sum),
            !all_finite ==> spec_sum_opt(maxes@.take(i2 as int)) is None,
        decreases n - i2,
    {
        match maxes[i2] {
            Some(v) => {
                max_sum = add_sat(max_sum, v);
            },
            None => {
                all_finite = false;
            },
        }
        proof {
            assert(maxes@.take(i2 as int + 1).drop_last() =~= maxes@.take(i2 as int));
            assert(maxes@.take(i2 as int + 1).last() == maxes@[i2 as int]);
        }
        i2 = i2 + 1;
    }
    proof {
        assert(maxes@.take(maxes@.len() as int) =~= maxes@);
    }
    if all_finite && max_sum <= avail {
        return flatten_maxes(maxes);
    }
    // general case: two-phase relaxation
    let mut have: Vec<bool> = Vec::new();
    let mut i3: usize = 0;
    while i3 < n
        invariant
            i3 <= n,
            have@ =~= Seq::new(i3 as nat, |j: int| false),
        decreases n - i3,
    {
        have.push(false);
        proof {
            assert(have@ =~= Seq::new(i3 as nat + 1, |j: int| false));
        }
        i3 = i3 + 1;
    }
    let mut widths = copy_extents(mins);
    let mut rem: i64 = avail;
    let mut cnt: usize = n;
    let mut avg: i64 = if cnt > 0 {
        crate::arith::div_floor_cnt(rem, cnt)
    } else {
        0
    };
    proof {
        lemma_count_false_all(n as nat);
    }
    min_phase(mins, &mut have, &mut rem, &mut cnt, &mut avg, Ghost((n + 1) as nat));
    proof {
        lemma_count_false_bounds(have@);
    }
    max_phase(maxes, &mut widths, &mut have, &mut rem, &mut cnt, &mut avg, Ghost((n + 1) as nat));
    let ghost w2 = widths@;
    let ghost h2 = have@;
    let mut i4: usize = 0;
    while i4 < n
        invariant
            i4 <= n,
            n == mins@.len(),
            have@ == h2,
            h2.len() == n,
            widths@.len() == n,
            w2.len() == n,
            forall|j: int| 0 <= j < i4 as int ==> widths@[j] == spec_fill(w2, h2, avg)[j],
            forall|j: int| i4 as int <= j < n ==> widths@[j] == w2[j],
        decreases n - i4,
    {
        if !have[i4] {
            let slot = &mut widths[i4];
            *slot = avg;
        }
        i4 = i4 + 1;
    }
    proof {
        assert(widths@ =~= spec_fill(w2, h2, avg));
    }
    widths
}

} // verus!

// === region-resolution pass ================================================

verus! {

/// Half a slack delta, rounded toward negative infinity.
pub open spec fn spec_half(d: i64) -> i64 {
    (d as int / 2) as i64
}

/// Fix a node's rectangle inside the offered bounds: clamp the offered size
/// up to the minimum (zip) or down to the maximum (otherwise), then place
/// the result by the alignment pair, slack split before or after.
pub open spec fn spec_final_size(styles: Styles, cd: CalcData, initial: Size) -> Size {
    if styles.size.zip {
        cd.min_size.spec_apply_min(initial)
    } else {
        cd.max_size.spec_apply_max(initial)
    }
}

pub open spec fn spec_place(styles: Styles, cd: CalcData, bounds: Region) -> Region {
    let initial = Size {
        width: sat_sub_i64(bounds.x1, bounds.x0),
        height: sat_sub_i64(bounds.y1, bounds.y0),
    };
    let size = spec_final_size(styles, cd, initial);
    let dw = sat_sub_i64(size.width, initial.width);
    let dh = sat_sub_i64(size.height, initial.height);
    let ox = match styles.h_align {
        HAlign::Left => bounds.x0,
        HAlign::Center => sat_add_i64(bounds.x0, spec_half(dw)),
        HAlign::Right => sat_add_i64(bounds.x0, dw),
    };
    let oy = match styles.v_align {
        VAlign::Top => bounds.y0,
        VAlign::Center => sat_add_i64(bounds.y0, spec_half(dh)),
        VAlign::Bottom => sat_add_i64(bounds.y0, dh),
    };
    Region {
        x0: ox,
        y0: oy,
        x1: sat_add_i64(ox, size.width),
        y1: sat_add_i64(oy, size.height),
    }
}

/// The content region: the node's rectangle shrunk by padding and border on
/// all four sides.
pub open spec fn spec_inner_region(styles: Styles, region: Region) -> Region {
    Region {
        x0: sat_add_i64(region.x0, sat_add_i64(styles.padding.left, styles.borders.width)),
        x1: sat_sub_i64(region.x1, sat_add_i64(styles.padding.right, styles.borders.width)),
        y0: sat_add_i64(region.y0, sat_add_i64(styles.padding.top, styles.borders.width)),
        y1: sat_sub_i64(region.y1, sat_add_i64(styles.padding.bottom, styles.borders.width)),
    }
}

/// A scroll viewport hands its child the content region shifted against the
/// scroll offset; clipping is the renderer's concern.
pub open spec fn spec_scroll_shift(inner: Region, offset: crate::geometry::Vec2) -> Region {
    Region {
        x0: sat_sub_i64(inner.x0, offset.x),
        y0: sat_sub_i64(inner.y0, offset.y),
        x1: inner.x1,
        y1: inner.y1,
    }
}

/// Store a resolved region for a live slot.
pub open spec fn spec_region_set(
    r: Seq<Option<Region>>,
    id: ViewId,
    region: Region,
) -> Seq<Option<Region>> {
    if 0 <= id.spec_index() < r.len() && r[id.spec_index()] is Some {
        r.update(id.spec_index(), Some(region))
    } else {
        r
    }
}

/// A child's minimum extent on the stack axis; absent data reads as zero.
pub open spec fn spec_min_entry_x(m: Seq<Option<CalcData>>, id: ViewId) -> i64 {
    match spec_calc_get(m, id) {
        Some(cd) => match cd.min_size.width {
            Some(w) => w,
            None => 0,
        },
        None => 0,
    }
}

/// A child's maximum extent on the stack axis; a missing entry reads as
/// zero, a present entry without a bound stays unbounded.
pub open spec fn spec_max_entry_x(m: Seq<Option<CalcData>>, id: ViewId) -> Option<i64> {
    match spec_calc_get(m, id) {
        Some(cd) => cd.max_size.width,
        None => Some(0),
    }
}

pub open spec fn spec_min_entry_y(m: Seq<Option<CalcData>>, id: ViewId) -> i64 {
    match spec_calc_get(m, id) {
        Some(cd) => match cd.min_size.height {
            Some(h) => h,
            None => 0,
        },
        None => 0,
    }
}

pub open spec fn spec_max_entry_y(m: Seq<Option<CalcData>>, id: ViewId) -> Option<i64> {
    match spec_calc_get(m, id) {
        Some(cd) => cd.max_size.height,
        None => Some(0),
    }
}

/// Overwrite the minimum of an existing entry, keeping its maximum.
pub open spec fn spec_calc_update_min(
    m: Seq<Option<CalcData>>,
    id: ViewId,
    min: SizeConstraints,
) -> Seq<Option<CalcData>> {
    if 0 <= id.spec_index() < m.len() && m[id.spec_index()] is Some {
        m.update(
            id.spec_index(),
            Some(CalcData { min_size: min, max_size: m[id.spec_index()]->Some_0.max_size }),
        )
    } else {
        m
    }
}

/// Re-measure one node's paragraph content against a known wrap width,
/// descending through wrappers and non-horizontal stacks; each step hands
/// its children the width less its own insets.
pub open spec fn spec_remeasure_one(
    v: Seq<Option<UiNode>>,
    m: Seq<Option<CalcData>>,
    id: ViewId,
    width: i64,
    fuel: nat,
) -> Seq<Option<CalcData>>
    decreases fuel, 0nat, 0nat,
{
    if fuel == 0 {
        m
    } else {
        match spec_node_get(v, id) {
            None => m,
            Some(node) => {
                let styles = node.styles;
                let delta_w = sat_add_i64(
                    sat_add_i64(styles.padding.left, styles.padding.right),
                    sat_mul_i64(styles.borders.width, 2),
                );
                let new_width = sat_sub_i64(width, delta_w);
                match node.entity {
                    Entity::Paragraph(_) => {
                        let delta_h = sat_add_i64(
                            sat_add_i64(styles.padding.top, styles.padding.bottom),
                            sat_mul_i64(styles.borders.width, 2),
                        );
                        let min = SizeConstraints {
                            width: Some(delta_w),
                            height: Some(delta_h),
                        };
                        spec_calc_update_min(m, id, min)
                    },
                    Entity::Scroll(e) => {
                        if e.h_enabled {
                            spec_remeasure_one(v, m, e.inner, new_width, (fuel - 1) as nat)
                        } else {
                            m
                        }
                    },
                    Entity::Box(e) => spec_remeasure_one(v, m, e.inner, new_width, (fuel - 1) as nat),
                    Entity::Stack(e) => {
                        if e.direction != StackDirection::X {
                            spec_remeasure_list(v, m, e.inner@, 0, new_width, (fuel - 1) as nat)
                        } else {
                            m
                        }
                    },
                    Entity::Switch(e) => {
                        if e.mode < e.inner@.len() {
                            spec_remeasure_one(
                                v,
                                m,
                                e.inner@[e.mode as int],
                                new_width,
                                (fuel - 1) as nat,
                            )
                        } else {
                            m
                        }
                    },
                    _ => m,
                }
            },
        }
    }
}

/// Re-measure a list of siblings against the same wrap width.
pub open spec fn spec_remeasure_list(
    v: Seq<Option<UiNode>>,
    m: Seq<Option<CalcData>>,
    kids: Seq<ViewId>,
    i: int,
    width: i64,
    fuel: nat,
) -> Seq<Option<CalcData>>
    decreases fuel, 1nat, kids.len() - i,
{
    if !(0 <= i < kids.len()) {
        m
    } else {
        let m1 = spec_remeasure_one(v, m, kids[i], width, fuel);
        spec_remeasure_list(v, m1, kids, i + 1, width, fuel)
    }
}

/// The region pass at one node: look its constraints up, fix its rectangle,
/// recurse by entity kind into the content region, and cache the rectangle.
/// A missing node or entry abandons the subtree, leaving its caches alone.
pub open spec fn spec_region_pass(
    v: Seq<Option<UiNode>>,
    m: Seq<Option<CalcData>>,
    r: Seq<Option<Region>>,
    id: ViewId,
    bounds: Region,
    fuel: nat,
) -> (Seq<Option<CalcData>>, Seq<Option<Region>>)
    decreases fuel, 2nat, 0nat,
{
    if fuel == 0 {
        (m, r)
    } else {
        match spec_node_get(v, id) {
            None => (m, r),
            Some(node) => match spec_calc_get(m, id) {
                None => (m, r),
                Some(cd) => {
                    let region = spec_place(node.styles, cd, bounds);
                    let inner = spec_inner_region(node.styles, region);
                    let rec = match node.entity {
                        Entity::Box(e) => spec_region_pass(v, m, r, e.inner, inner, (fuel - 1) as nat),
                        Entity::Scale(e) => spec_region_pass(v, m, r, e.inner, inner, (fuel - 1) as nat),
                        Entity::Scroll(e) => spec_region_pass(
                            v,
                            m,
                            r,
                            e.inner,
                            spec_scroll_shift(inner, e.offset),
                            (fuel - 1) as nat,
                        ),
                        Entity::Switch(e) => {
                            if e.mode < e.inner@.len() {
                                spec_region_pass(
                                    v,
                                    m,
                                    r,
                                    e.inner@[e.mode as int],
                                    inner,
                                    (fuel - 1) as nat,
                                )
                            } else {
                                (m, r)
                            }
                        },
                        Entity::Stack(e) => spec_stack_region(v, m, r, e.direction, e.inner@, inner, fuel),
                        _ => (m, r),
                    };
                    (rec.0, spec_region_set(rec.1, id, region))
                },
            },
        }
    }
}

/// A stack's content region divided among its children: along X or Y the
/// gathered bounds feed the distribution and each child gets its slice in
/// order; along Z every child gets the whole region. Before a vertical
/// distribution the paragraph descendants are re-measured against the
/// resolved width.
pub open spec fn spec_stack_region(
    v: Seq<Option<UiNode>>,
    m: Seq<Option<CalcData>>,
    r: Seq<Option<Region>>,
    dir: StackDirection,
    kids: Seq<ViewId>,
    bounds: Region,
    fuel: nat,
) -> (Seq<Option<CalcData>>, Seq<Option<Region>>)
    decreases fuel, 1nat, 0nat,
{
    if fuel == 0 {
        (m, r)
    } else {
        match dir {
            StackDirection::X => {
                let mins = Seq::new(kids.len(), |i: int| spec_min_entry_x(m, kids[i]));
                let maxes = Seq::new(kids.len(), |i: int| spec_max_entry_x(m, kids[i]));
                let widths = spec_distribute(mins, maxes, sat_sub_i64(bounds.x1, bounds.x0));
                spec_lay_x(v, m, r, kids, widths, bounds, bounds.x0, 0, fuel)
            },
            StackDirection::Y => {
                let m1 = spec_remeasure_list(v, m, kids, 0, sat_sub_i64(bounds.x1, bounds.x0), fuel);
                let mins = Seq::new(kids.len(), |i: int| spec_min_entry_y(m1, kids[i]));
                let maxes = Seq::new(kids.len(), |i: int| spec_max_entry_y(m1, kids[i]));
                let heights = spec_distribute(mins, maxes, sat_sub_i64(bounds.y1, bounds.y0));
                spec_lay_y(v, m1, r, kids, heights, bounds, bounds.y0, 0, fuel)
            },
            StackDirection::Z => spec_lay_z(v, m, r, kids, bounds, 0, fuel),
        }
    }
}

/// Lay the children of a horizontal stack, each slice starting where the
/// previous one ended and spanning the full cross extent.
pub open spec fn spec_lay_x(
    v: Seq<Option<UiNode>>,
    m: Seq<Option<CalcData>>,
    r: Seq<Option<Region>>,
    kids: Seq<ViewId>,
    widths: Seq<i64>,
    region: Region,
    cursor: i64,
    i: int,
    fuel: nat,
) -> (Seq<Option<CalcData>>, Seq<Option<Region>>)
    decreases fuel, 0nat, kids.len() - i,
{
    if fuel == 0 || !(0 <= i < kids.len()) {
        (m, r)
    } else {
        let w = if 0 <= i < widths.len() {
            widths[i]
        } else {
            0
        };
        let rect = Region { x0: cursor, y0: region.y0, x1: sat_add_i64(cursor, w), y1: region.y1 };
        let rec = spec_region_pass(v, m, r, kids[i], rect, (fuel - 1) as nat);
        spec_lay_x(v, rec.0, rec.1, kids, widths, region, sat_add_i64(cursor, w), i + 1, fuel)
    }
}

/// Lay the children of a vertical stack.
pub open spec fn spec_lay_y(
    v: Seq<Option<UiNode>>,
    m: Seq<Option<CalcData>>,
    r: Seq<Option<Region>>,
    kids: Seq<ViewId>,
    heights: Seq<i64>,
    region: Region,
    cursor: i64,
    i: int,
    fuel: nat,
) -> (Seq<Option<CalcData>>, Seq<Option<Region>>)
    decreases fuel, 0nat, kids.len() - i,
{
    if fuel == 0 || !(0 <= i < kids.len()) {
        (m, r)
    } else {
        let h = if 0 <= i < heights.len() {
            heights[i]
        } else {
            0
        };
        let rect = Region { x0: region.x0, y0: cursor, x1: region.x1, y1: sat_add_i64(cursor, h) };
        let rec = spec_region_pass(v, m, r, kids[i], rect, (fuel - 1) as nat);
        spec_lay_y(v, rec.0, rec.1, kids, heights, region, sat_add_i64(cursor, h), i + 1, fuel)
    }
}

/// Lay the children of a depth stack, every one over the whole region.
pub open spec fn spec_lay_z(
    v: Seq<Option<UiNode>>,
    m: Seq<Option<CalcData>>,
    r: Seq<Option<Region>>,
    kids: Seq<ViewId>,
    bounds: Region,
    i: int,
    fuel: nat,
) -> (Seq<Option<CalcData>>, Seq<Option<Region>>)
    decreases fuel, 0nat, kids.len() - i,
{
    if fuel == 0 || !(0 <= i < kids.len()) {
        (m, r)
    } else {
        let rec = spec_region_pass(v, m, r, kids[i], bounds, (fuel - 1) as nat);
        spec_lay_z(v, rec.0, rec.1, kids, bounds, i + 1, fuel)
    }
}

/// What the region pass leaves untouched of the arena: everything but the
/// relative-region cache.
pub open spec fn spec_layout_frame(a0: Arena, a1: Arena) -> bool {
    &&& a1.n_slots() == a0.n_slots()
    &&& a1.free_list() == a0.free_list()
    &&& a1.live_count() == a0.live_count()
    &&& a1.node_seq() == a0.node_seq()
    &&& forall|j: int| a1.real_at(j) == a0.real_at(j)
    &&& forall|j: int| a1.prev_at(j) == a0.prev_at(j)
    &&& forall|j: int| a1.dirty_at(j) == a0.dirty_at(j)
    &&& (a0.wf() ==> a1.wf())
}

/// The recursion plan extracted from a node before descending, so the
/// borrow of the node ends before the arena is written.
enum StepPlan {
    IntoOne(ViewId, Region),
    IntoStack(StackDirection, Vec<ViewId>, Region),
    Leaf,
}

fn copy_ids(src: &Vec<ViewId>) -> (out: Vec<ViewId>)
    ensures
        out@ == src@,
{
    let mut out: Vec<ViewId> = Vec::new();
    let mut i: usize = 0;
    while i < src.len()
        invariant
            i <= src@.len(),
            out@ =~= src@.take(i as int),
        decreases src@.len() - i,
    {
        out.push(src[i]);
        proof {
            assert(out@ =~= src@.take(i as int + 1));
        }
        i = i + 1;
    }
    proof {
        assert(src@.take(src@.len() as int) =~= src@);
    }
    out
}

fn place_region(styles: &Styles, cd: CalcData, bounds: Region) -> (r: Region)
    ensures
        r == spec_place(*styles, cd, bounds),
{
    let initial = bounds.size();
    let size = if styles.size.zip {
        cd.min_size.apply_min(initial)
    } else {
        cd.max_size.apply_max(initial)
    };
    let dw = sub_sat(size.width, initial.width);
    let dh = sub_sat(size.height, initial.height);
    let ox = match styles.h_align {
        HAlign::Left => bounds.x0,
        HAlign::Center => add_sat(bounds.x0, div_floor(dw, 2)),
        HAlign::Right => add_sat(bounds.x0, dw),
    };
    let oy = match styles.v_align {
        VAlign::Top => bounds.y0,
        VAlign::Center => add_sat(bounds.y0, div_floor(dh, 2)),
        VAlign::Bottom => add_sat(bounds.y0, dh),
    };
    Region { x0: ox, y0: oy, x1: add_sat(ox, size.width), y1: add_sat(oy, size.height) }
}

fn inner_region(styles: &Styles, region: Region) -> (r: Region)
    ensures
        r == spec_inner_region(*styles, region),
{
    Region {
        x0: add_sat(region.x0, add_sat(styles.padding.left, styles.borders.width)),
        x1: sub_sat(region.x1, add_sat(styles.padding.right, styles.borders.width)),
        y0: add_sat(region.y0, add_sat(styles.padding.top, styles.borders.width)),
        y1: sub_sat(region.y1, add_sat(styles.padding.bottom, styles.borders.width)),
    }
}

} // verus!

// === region-resolution pass: executable ====================================

verus! {

impl RegionCalc {
    fn get_calc(&self, id: ViewId) -> (r: Option<CalcData>)
        ensures
            r == spec_calc_get(self.calc_data@, id),
    {
        if id.0 < self.calc_data.len() {
            self.calc_data[id.0]
        } else {
            None
        }
    }

    fn update_calc_min(&mut self, id: ViewId, min: SizeConstraints)
        ensures
            final(self).calc_data@ == spec_calc_update_min(old(self).calc_data@, id, min),
            final(self).text == old(self).text,
    {
        if id.0 < self.calc_data.len() {
            let slot = &mut self.calc_data[id.0];
            match slot {
                Some(cd) => {
                    cd.min_size = min;
                },
                None => {},
            }
        }
        proof {
            if !(0 <= id.spec_index() < old(self).calc_data@.len()
                && old(self).calc_data@[id.spec_index()] is Some) {
                assert(self.calc_data@ =~= old(self).calc_data@);
            }
        }
    }

    /// Re-measure one node against a known wrap width.
    fn recompute_paragraph_node(&mut self, arena: &Arena, id: ViewId, width: i64, fuel: usize)
        requires
            spec_switches_ok(arena.node_seq()),
        ensures
            final(self).calc_data@ == spec_remeasure_one(
                arena.node_seq(),
                old(self).calc_data@,
                id,
                width,
                fuel as nat,
            ),
            final(self).text == old(self).text,
        decreases fuel, 0int, 0int,
    {
        proof {
            assert(spec_node_get(arena.node_seq(), id) == arena.node_at(id.spec_index()));
        }
        if fuel == 0 {
            return ;
        }
        let node = match arena.get_view(id) {
            Some(n) => n,
            None => {
                return ;
            },
        };
        let styles = node.styles;
        let delta_w = add_sat(
            add_sat(styles.padding.left, styles.padding.right),
            mul_sat(styles.borders.width, 2),
        );
        let new_width = sub_sat(width, delta_w);
        match &node.entity {
            Entity::Paragraph(e) => {
                let delta_h = add_sat(
                    add_sat(styles.padding.top, styles.padding.bottom),
                    mul_sat(styles.borders.width, 2),
                );
                let size = self.get_paragraph_size(e, new_width);
                let min = SizeConstraints {
                    width: Some(add_sat(size.width(), delta_w)),
                    height: Some(add_sat(size.height(), delta_h)),
                };
                self.update_calc_min(id, min);
            },
            Entity::Scroll(e) => {
                if e.h_enabled {
                    let kid = e.inner;
                    self.recompute_paragraph_node(arena, kid, new_width, fuel - 1);
                }
            },
            Entity::Box(e) => {
                let kid = e.inner;
                self.recompute_paragraph_node(arena, kid, new_width, fuel - 1);
            },
            Entity::Stack(e) => {
                if !(e.direction == StackDirection::X) {
                    self.recompute_paragraph_size_with_width(arena, &e.inner, 0, new_width, fuel - 1);
                }
            },
            Entity::Switch(e) => {
                let kid = e.inner[e.mode];
                self.recompute_paragraph_node(arena, kid, new_width, fuel - 1);
            },
            _ => {},
        }
    }

    /// Re-measure the paragraph content of a sibling list against a known
    /// wrap width before a vertical distribution.
    fn recompute_paragraph_size_with_width(
        &mut self,
        arena: &Arena,
        kids: &Vec<ViewId>,
        i: usize,
        width: i64,
        fuel: usize,
    )
        requires
            spec_switches_ok(arena.node_seq()),
        ensures
            final(self).calc_data@ == spec_remeasure_list(
                arena.node_seq(),
                old(self).calc_data@,
                kids@,
                i as int,
                width,
                fuel as nat,
            ),
            final(self).text == old(self).text,
        decreases fuel, 1int, kids@.len() - i,
    {
        if i >= kids.len() {
            return ;
        }
        self.recompute_paragraph_node(arena, kids[i], width, fuel);
        self.recompute_paragraph_size_with_width(arena, kids, i + 1, width, fuel);
    }
}

} // verus!

verus! {

impl RegionCalc {
    /// Resolve the rectangle of `id`'s subtree inside `bounds` and cache it.
    fn compute_region(
        &mut self,
        arena: &mut Arena,
        id: ViewId,
        bounds: Region,
        fuel: usize,
    ) -> (r: Option<()>)
        requires
            spec_switches_ok(old(arena).node_seq()),
        ensures
            spec_layout_frame(*old(arena), *final(arena)),
            ({
                let rec = spec_region_pass(
                    old(arena).node_seq(),
                    old(self).calc_data@,
                    old(arena).rel_seq(),
                    id,
                    bounds,
                    fuel as nat,
                );
                final(self).calc_data@ == rec.0 && final(arena).rel_seq() == rec.1
            }),
            final(self).text == old(self).text,
        decreases fuel, 2int, 0int,
    {
        proof {
            assert(spec_node_get(arena.node_seq(), id) == arena.node_at(id.spec_index()));
        }
        if fuel == 0 {
            return None;
        }
        let node = match arena.get_view(id) {
            Some(n) => n,
            None => {
                return None;
            },
        };
        let styles = node.styles;
        let cd = match self.get_calc(id) {
            Some(c) => c,
            None => {
                return None;
            },
        };
        let region = place_region(&styles, cd, bounds);
        let inner = inner_region(&styles, region);
        let plan = match &node.entity {
            Entity::Box(e) => StepPlan::IntoOne(e.inner, inner),
            Entity::Scale(e) => StepPlan::IntoOne(e.inner, inner),
            Entity::Scroll(e) => StepPlan::IntoOne(
                e.inner,
                Region {
                    x0: sub_sat(inner.x0, e.offset.x),
                    y0: sub_sat(inner.y0, e.offset.y),
                    x1: inner.x1,
                    y1: inner.y1,
                },
            ),
            Entity::Switch(e) => StepPlan::IntoOne(e.inner[e.mode], inner),
            Entity::Stack(e) => StepPlan::IntoStack(e.direction, copy_ids(&e.inner), inner),
            _ => StepPlan::Leaf,
        };
        match plan {
            StepPlan::IntoOne(kid, sub_bounds) => {
                let _ = self.compute_region(arena, kid, sub_bounds, fuel - 1);
            },
            StepPlan::IntoStack(direction, kids, sub_bounds) => {
                let _ = self.compute_stack_inner_region(arena, direction, &kids, sub_bounds, fuel);
            },
            StepPlan::Leaf => {},
        }
        let ghost pre_set = *arena;
        arena.set_relative_region(id, region);
        proof {
            assert(arena.rel_seq() =~= spec_region_set(pre_set.rel_seq(), id, region));
            assert(arena.node_seq() =~= pre_set.node_seq());
        }
        Some(())
    }

    /// Divide a stack's content region among its children and recurse.
    fn compute_stack_inner_region(
        &mut self,
        arena: &mut Arena,
        direction: StackDirection,
        kids: &Vec<ViewId>,
        bounds: Region,
        fuel: usize,
    ) -> (r: Option<()>)
        requires
            spec_switches_ok(old(arena).node_seq()),
        ensures
            spec_layout_frame(*old(arena), *final(arena)),
            ({
                let rec = spec_stack_region(
                    old(arena).node_seq(),
                    old(self).calc_data@,
                    old(arena).rel_seq(),
                    direction,
                    kids@,
                    bounds,
                    fuel as nat,
                );
                final(self).calc_data@ == rec.0 && final(arena).rel_seq() == rec.1
            }),
            final(self).text == old(self).text,
        decreases fuel, 1int, 0int,
    {
        if fuel == 0 {
            return Some(());
        }
        match direction {
            StackDirection::X => {
                let ghost m_now = self.calc_data@;
                let mut mins: Vec<i64> = Vec::new();
                let mut maxes: Vec<Option<i64>> = Vec::new();
                let mut t: usize = 0;
                while t < kids.len()
                    invariant
                        t <= kids@.len(),
                        *self == *old(self),
                        m_now == self.calc_data@,
                        mins@ =~= Seq::new(t as nat, |j: int| spec_min_entry_x(m_now, kids@[j])),
                        maxes@ =~= Seq::new(t as nat, |j: int| spec_max_entry_x(m_now, kids@[j])),
                    decreases kids@.len() - t,
                {
                    match self.get_calc(kids[t]) {
                        Some(c) => {
                            match c.min_size.width {
                                Some(w) => mins.push(w),
                                None => mins.push(0),
                            }
                            maxes.push(c.max_size.width);
                        },
                        None => {
                            mins.push(0);
                            maxes.push(Some(0));
                        },
                    }
                    proof {
                        assert(mins@ =~= Seq::new(
                            t as nat + 1,
                            |j: int| spec_min_entry_x(m_now, kids@[j]),
                        ));
                        assert(maxes@ =~= Seq::new(
                            t as nat + 1,
                            |j: int| spec_max_entry_x(m_now, kids@[j]),
                        ));
                    }
                    t = t + 1;
                }
                let widths = distribute(&mins, &maxes, sub_sat(bounds.x1, bounds.x0));
                self.result_regions_x_stack(arena, kids, &widths, bounds, bounds.x0, 0, fuel)
            },
            StackDirection::Y => {
                self.recompute_paragraph_size_with_width(
                    arena,
                    kids,
                    0,
                    sub_sat(bounds.x1, bounds.x0),
                    fuel,
                );
                let ghost m_now = self.calc_data@;
                let ghost text_now = self.text;
                let mut mins: Vec<i64> = Vec::new();
                let mut maxes: Vec<Option<i64>> = Vec::new();
                let mut t: usize = 0;
                while t < kids.len()
                    invariant
                        t <= kids@.len(),
                        m_now == self.calc_data@,
                        text_now == self.text,
                        mins@ =~= Seq::new(t as nat, |j: int| spec_min_entry_y(m_now, kids@[j])),
                        maxes@ =~= Seq::new(t as nat, |j: int| spec_max_entry_y(m_now, kids@[j])),
                    decreases kids@.len() - t,
                {
                    match self.get_calc(kids[t]) {
                        Some(c) => {
                            match c.min_size.height {
                                Some(h) => mins.push(h),
                                None => mins.push(0),
                            }
                            maxes.push(c.max_size.height);
                        },
                        None => {
                            mins.push(0);
                            maxes.push(Some(0));
                        },
                    }
                    proof {
                        assert(mins@ =~= Seq::new(
                            t as nat + 1,
                            |j: int| spec_min_entry_y(m_now, kids@[j]),
                        ));
                        assert(maxes@ =~= Seq::new(
                            t as nat + 1,
                            |j: int| spec_max_entry_y(m_now, kids@[j]),
                        ));
                    }
                    t = t + 1;
                }
                let heights = distribute(&mins, &maxes, sub_sat(bounds.y1, bounds.y0));
                self.result_regions_y_stack(arena, kids, &heights, bounds, bounds.y0, 0, fuel)
            },
            StackDirection::Z => self.result_regions_z_stack(arena, kids, bounds, 0, fuel),
        }
    }

    /// Hand each child of a horizontal stack its slice, in order.
    fn result_regions_x_stack(
        &mut self,
        arena: &mut Arena,
        kids: &Vec<ViewId>,
        widths: &Vec<i64>,
        region: Region,
        cursor: i64,
        i: usize,
        fuel: usize,
    ) -> (r: Option<()>)
        requires
            spec_switches_ok(old(arena).node_seq()),
        ensures
            spec_layout_frame(*old(arena), *final(arena)),
            ({
                let rec = spec_lay_x(
                    old(arena).node_seq(),
                    old(self).calc_data@,
                    old(arena).rel_seq(),
                    kids@,
                    widths@,
                    region,
                    cursor,
                    i as int,
                    fuel as nat,
                );
                final(self).calc_data@ == rec.0 && final(arena).rel_seq() == rec.1
            }),
            final(self).text == old(self).text,
        decreases fuel, 0int, kids@.len() - i,
    {
        if fuel == 0 || i >= kids.len() {
            return Some(());
        }
        let w = if i < widths.len() {
            widths[i]
        } else {
            0
        };
        let rect = Region { x0: cursor, y0: region.y0, x1: add_sat(cursor, w), y1: region.y1 };
        let _ = self.compute_region(arena, kids[i], rect, fuel - 1);
        self.result_regions_x_stack(arena, kids, widths, region, add_sat(cursor, w), i + 1, fuel)
    }

    /// Hand each child of a vertical stack its slice, in order.
    fn result_regions_y_stack(
        &mut self,
        arena: &mut Arena,
        kids: &Vec<ViewId>,
        heights: &Vec<i64>,
        region: Region,
        cursor: i64,
        i: usize,
        fuel: usize,
    ) -> (r: Option<()>)
        requires
            spec_switches_ok(old(arena).node_seq()),
        ensures
            spec_layout_frame(*old(arena), *final(arena)),
            ({
                let rec = spec_lay_y(
                    old(arena).node_seq(),
                    old(self).calc_data@,
                    old(arena).rel_seq(),
                    kids@,
                    heights@,
                    region,
                    cursor,
                    i as int,
                    fuel as nat,
                );
                final(self).calc_data@ == rec.0 && final(arena).rel_seq() == rec.1
            }),
            final(self).text == old(self).text,
        decreases fuel, 0int, kids@.len() - i,
    {
        if fuel == 0 || i >= kids.len() {
            return Some(());
        }
        let h = if i < heights.len() {
            heights[i]
        } else {
            0
        };
        let rect = Region { x0: region.x0, y0: cursor, x1: region.x1, y1: add_sat(cursor, h) };
        let _ = self.compute_region(arena, kids[i], rect, fuel - 1);
        self.result_regions_y_stack(arena, kids, heights, region, add_sat(cursor, h), i + 1, fuel)
    }

    /// Hand each child of a depth stack the whole region.
    fn result_regions_z_stack(
        &mut self,
        arena: &mut Arena,
        kids: &Vec<ViewId>,
        bounds: Region,
        i: usize,
        fuel: usize,
    ) -> (r: Option<()>)
        requires
            spec_switches_ok(old(arena).node_seq()),
        ensures
            spec_layout_frame(*old(arena), *final(arena)),
            ({
                let rec = spec_lay_z(
                    old(arena).node_seq(),
                    old(self).calc_data@,
                    old(arena).rel_seq(),
                    kids@,
                    bounds,
                    i as int,
                    fuel as nat,
                );
                final(self).calc_data@ == rec.0 && final(arena).rel_seq() == rec.1
            }),
            final(self).text == old(self).text,
        decreases fuel, 0int, kids@.len() - i,
    {
        if fuel == 0 || i >= kids.len() {
            return Some(());
        }
        let _ = self.compute_region(arena, kids[i], bounds, fuel - 1);
        self.result_regions_z_stack(arena, kids, bounds, i + 1, fuel)
    }

    /// Run both passes: derive every reachable node's constraints from a
    /// transient table, then resolve and cache every reachable node's
    /// rectangle inside `bounds`.
    pub fn compute_regions(&mut self, arena: &mut Arena, root: ViewId, bounds: Region) -> (r:
        Option<()>)
        requires
            spec_switches_ok(old(arena).node_seq()),
            old(arena).n_slots() < usize::MAX,
        ensures
            r is Some,
            spec_layout_frame(*old(arena), *final(arena)),
            ({
                let v = old(arena).node_seq();
                let fuel = (old(arena).n_slots() + 1) as nat;
                let m0 = Seq::new(old(arena).n_slots(), |i: int| None::<CalcData>);
                let sp = spec_size_pass(v, m0, root, fuel);
                let rp = spec_region_pass(v, sp.0, old(arena).rel_seq(), root, bounds, fuel);
                final(self).calc_data@ == rp.0 && final(arena).rel_seq() == rp.1
            }),
            final(self).text == old(self).text,
    {
        let n = arena.slot_count();
        let mut table: Vec<Option<CalcData>> = Vec::new();
        let mut i: usize = 0;
        while i < n
            invariant
                i <= n,
                table@ =~= Seq::new(i as nat, |j: int| None::<CalcData>),
            decreases n - i,
        {
            table.push(None);
            proof {
                assert(table@ =~= Seq::new(i as nat + 1, |j: int| None::<CalcData>));
            }
            i = i + 1;
        }
        self.calc_data = table;
        let fuel = n + 1;
        let _ = self.compute_size_constraints(arena, root, fuel);
        let _ = self.compute_region(arena, root, bounds, fuel);
        Some(())
    }
}

} // verus!
