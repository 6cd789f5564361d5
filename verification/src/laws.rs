//! The stated laws of the layout engine, proved once and for all inputs.

use vstd::prelude::*;

use crate::geometry::Size;
use crate::regions::{
    spec_distribute, spec_final_size, spec_maxes_flat, spec_sum, spec_sum_opt, CalcData,
};
use crate::styles::Styles;

verus! {

/// When the children's minima already use up the available extent, the
/// distribution forces every child to exactly its minimum: a stack
/// overflows rather than shrink any child below its declared minimum.
pub proof fn lemma_distribute_forced_minimums(mins: Seq<i64>, maxes: Seq<Option<i64>>, avail: i64)
    requires
        spec_sum(mins) >= avail,
    ensures
        spec_distribute(mins, maxes, avail) == mins,
{
}

/// When every child has a finite maximum and those maxima fit together
/// inside the available extent, every child receives exactly its maximum;
/// leftover space is not distributed further.
pub proof fn lemma_distribute_capped(mins: Seq<i64>, maxes: Seq<Option<i64>>, avail: i64)
    requires
        spec_sum(mins) < avail,
        spec_sum_opt(maxes) matches Some(ms) && ms <= avail,
    ensures
        spec_distribute(mins, maxes, avail) == spec_maxes_flat(maxes),
{
}

/// A node resolved with the zip flag never falls below a declared minimum:
/// the final size honours each present minimum bound, whatever space was
/// offered.
pub proof fn lemma_zip_size_honours_min(styles: Styles, cd: CalcData, initial: Size)
    requires
        styles.size.zip,
    ensures
        cd.min_size.width matches Some(w) ==> spec_final_size(styles, cd, initial).width >= w,
        cd.min_size.height matches Some(h) ==> spec_final_size(styles, cd, initial).height >= h,
{
}

/// A node resolved without the zip flag never exceeds a declared maximum:
/// the final size honours each present maximum bound, whatever space was
/// offered.
pub proof fn lemma_sized_size_honours_max(styles: Styles, cd: CalcData, initial: Size)
    requires
        !styles.size.zip,
    ensures
        cd.max_size.width matches Some(w) ==> spec_final_size(styles, cd, initial).width <= w,
        cd.max_size.height matches Some(h) ==> spec_final_size(styles, cd, initial).height <= h,
{
}

} // verus!

// === idempotence of the region pass ========================================

verus! {

use crate::arena::ViewId;
use crate::geometry::Region;
use crate::nodes::{Entity, StackDirection, UiNode};
use crate::regions::{
    spec_calc_get, spec_inner_region, spec_lay_x, spec_lay_y, spec_lay_z, spec_node_get,
    spec_place, spec_region_pass, spec_region_set, spec_remeasure_list, spec_scroll_shift,
    spec_size_pass, spec_stack_region,
};

/// Two region caches with the same live slots.
pub open spec fn same_shape(r1: Seq<Option<Region>>, r2: Seq<Option<Region>>) -> bool {
    r1.len() == r2.len() && forall|j: int|
        0 <= j < r1.len() ==> ((#[trigger] r1[j]) is Some <==> (#[trigger] r2[j]) is Some)
}

/// Each slot either kept its starting value on both runs, or was written
/// the same value by both.
pub open spec fn merge_related(
    r: Seq<Option<Region>>,
    rr: Seq<Option<Region>>,
    a: Seq<Option<Region>>,
    aa: Seq<Option<Region>>,
) -> bool {
    forall|j: int|
        #![trigger a[j], aa[j]]
        0 <= j < r.len() ==> ((a[j] == r[j] && aa[j] == rr[j]) || a[j] == aa[j])
}


proof fn lemma_merge_compose(
    r: Seq<Option<Region>>,
    rr: Seq<Option<Region>>,
    s1: Seq<Option<Region>>,
    s2: Seq<Option<Region>>,
    t1: Seq<Option<Region>>,
    t2: Seq<Option<Region>>,
)
    requires
        same_shape(r, rr),
        same_shape(s1, r),
        same_shape(s2, rr),
        merge_related(r, rr, s1, s2),
        same_shape(t1, s1),
        same_shape(t2, s2),
        merge_related(s1, s2, t1, t2),
    ensures
        same_shape(t1, r),
        same_shape(t2, rr),
        merge_related(r, rr, t1, t2),
{
    assert forall|j: int|
        #![trigger t1[j], t2[j]]
        0 <= j < r.len() implies ((t1[j] == r[j] && t2[j] == rr[j]) || t1[j] == t2[j]) by {
        assert((s1[j] == r[j] && s2[j] == rr[j]) || s1[j] == s2[j]);
        assert((t1[j] == s1[j] && t2[j] == s2[j]) || t1[j] == t2[j]);
    }
    assert forall|j: int| 0 <= j < t1.len() implies ((#[trigger] t1[j]) is Some <==> (
    #[trigger] r[j]) is Some) by {
        assert(t1[j] is Some <==> s1[j] is Some);
        assert(s1[j] is Some <==> r[j] is Some);
    }
    assert forall|j: int| 0 <= j < t2.len() implies ((#[trigger] t2[j]) is Some <==> (
    #[trigger] rr[j]) is Some) by {
        assert(t2[j] is Some <==> s2[j] is Some);
        assert(s2[j] is Some <==> rr[j] is Some);
    }
}

proof fn lemma_set_step(
    r: Seq<Option<Region>>,
    rr: Seq<Option<Region>>,
    s1: Seq<Option<Region>>,
    s2: Seq<Option<Region>>,
    id: ViewId,
    region: Region,
)
    requires
        same_shape(r, rr),
        same_shape(s1, r),
        same_shape(s2, rr),
        merge_related(r, rr, s1, s2),
    ensures
        same_shape(spec_region_set(s1, id, region), r),
        same_shape(spec_region_set(s2, id, region), rr),
        merge_related(r, rr, spec_region_set(s1, id, region), spec_region_set(s2, id, region)),
{
    let idx = id.spec_index();
    let t1 = spec_region_set(s1, id, region);
    let t2 = spec_region_set(s2, id, region);
    assert forall|j: int|
        #![trigger t1[j], t2[j]]
        0 <= j < r.len() implies ((t1[j] == r[j] && t2[j] == rr[j]) || t1[j] == t2[j]) by {
        assert((s1[j] == r[j] && s2[j] == rr[j]) || s1[j] == s2[j]);
        if 0 <= idx < s1.len() && s1[idx] is Some {
            assert(s2[idx] is Some);
            if j == idx {
                assert(t1[j] == Some(region) && t2[j] == Some(region));
            }
        } else {
            assert(t1 == s1);
            if 0 <= idx < s2.len() && s2[idx] is Some {
                assert(s1[idx] is Some);
            }
            assert(t2 == s2);
        }
    }
    assert forall|j: int| 0 <= j < t1.len() implies ((#[trigger] t1[j]) is Some <==> (
    #[trigger] r[j]) is Some) by {
        assert(t1[j] is Some <==> s1[j] is Some);
    }
    assert forall|j: int| 0 <= j < t2.len() implies ((#[trigger] t2[j]) is Some <==> (
    #[trigger] rr[j]) is Some) by {
        assert(t2[j] is Some <==> s2[j] is Some);
    }
}

#[verifier::spinoff_prover]
proof fn lemma_rp_pair(
    v: Seq<Option<UiNode>>,
    m: Seq<Option<crate::regions::CalcData>>,
    r: Seq<Option<Region>>,
    rr: Seq<Option<Region>>,
    id: ViewId,
    bounds: Region,
    fuel: nat,
)
    requires
        same_shape(r, rr),
    ensures
        ({
            let a = spec_region_pass(v, m, r, id, bounds, fuel);
            let aa = spec_region_pass(v, m, rr, id, bounds, fuel);
            a.0 == aa.0 && same_shape(a.1, r) && same_shape(aa.1, rr) && merge_related(
                r,
                rr,
                a.1,
                aa.1,
            )
        }),
    decreases fuel, 2nat, 0nat,
{
    if fuel == 0 {
        return ;
    }
    match spec_node_get(v, id) {
        None => {},
        Some(node) => {
            match spec_calc_get(m, id) {
                None => {},
                Some(cd) => {
                    let region = spec_place(node.styles, cd, bounds);
                    let inner = spec_inner_region(node.styles, region);
                    match node.entity {
                        Entity::Box(e) => {
                            lemma_rp_pair(v, m, r, rr, e.inner, inner, (fuel - 1) as nat);
                            let rec = spec_region_pass(v, m, r, e.inner, inner, (fuel - 1) as nat);
                            let recc = spec_region_pass(
                                v,
                                m,
                                rr,
                                e.inner,
                                inner,
                                (fuel - 1) as nat,
                            );
                            lemma_set_step(r, rr, rec.1, recc.1, id, region);
                        },
                        Entity::Scale(e) => {
                            lemma_rp_pair(v, m, r, rr, e.inner, inner, (fuel - 1) as nat);
                            let rec = spec_region_pass(v, m, r, e.inner, inner, (fuel - 1) as nat);
                            let recc = spec_region_pass(
                                v,
                                m,
                                rr,
                                e.inner,
                                inner,
                                (fuel - 1) as nat,
                            );
                            lemma_set_step(r, rr, rec.1, recc.1, id, region);
                        },
                        Entity::Scroll(e) => {
                            let sub = spec_scroll_shift(inner, e.offset);
                            lemma_rp_pair(v, m, r, rr, e.inner, sub, (fuel - 1) as nat);
                            let rec = spec_region_pass(v, m, r, e.inner, sub, (fuel - 1) as nat);
                            let recc = spec_region_pass(v, m, rr, e.inner, sub, (fuel - 1) as nat);
                            lemma_set_step(r, rr, rec.1, recc.1, id, region);
                        },
                        Entity::Switch(e) => {
                            if e.mode < e.inner@.len() {
                                let kid = e.inner@[e.mode as int];
                                lemma_rp_pair(v, m, r, rr, kid, inner, (fuel - 1) as nat);
                                let rec = spec_region_pass(v, m, r, kid, inner, (fuel - 1) as nat);
                                let recc = spec_region_pass(
                                    v,
                                    m,
                                    rr,
                                    kid,
                                    inner,
                                    (fuel - 1) as nat,
                                );
                                lemma_set_step(r, rr, rec.1, recc.1, id, region);
                            } else {
                                lemma_set_step(r, rr, r, rr, id, region);
                            }
                        },
                        Entity::Stack(e) => {
                            lemma_stack_pair(v, m, r, rr, e.direction, e.inner@, inner, fuel);
                            let rec = spec_stack_region(
                                v,
                                m,
                                r,
                                e.direction,
                                e.inner@,
                                inner,
                                fuel,
                            );
                            let recc = spec_stack_region(
                                v,
                                m,
                                rr,
                                e.direction,
                                e.inner@,
                                inner,
                                fuel,
                            );
                            lemma_set_step(r, rr, rec.1, recc.1, id, region);
                        },
                        _ => {
                            lemma_set_step(r, rr, r, rr, id, region);
                        },
                    }
                },
            }
        },
    }
}

#[verifier::spinoff_prover]
proof fn lemma_stack_pair(
    v: Seq<Option<UiNode>>,
    m: Seq<Option<crate::regions::CalcData>>,
    r: Seq<Option<Region>>,
    rr: Seq<Option<Region>>,
    dir: StackDirection,
    kids: Seq<ViewId>,
    bounds: Region,
    fuel: nat,
)
    requires
        same_shape(r, rr),
    ensures
        ({
            let a = spec_stack_region(v, m, r, dir, kids, bounds, fuel);
            let aa = spec_stack_region(v, m, rr, dir, kids, bounds, fuel);
            a.0 == aa.0 && same_shape(a.1, r) && same_shape(aa.1, rr) && merge_related(
                r,
                rr,
                a.1,
                aa.1,
            )
        }),
    decreases fuel, 1nat, 0nat,
{
    if fuel == 0 {
        return ;
    }
    match dir {
        StackDirection::X => {
            let mins = Seq::new(kids.len(), |i: int| crate::regions::spec_min_entry_x(m, kids[i]));
            let maxes = Seq::new(kids.len(), |i: int| crate::regions::spec_max_entry_x(m, kids[i]));
            let widths = crate::regions::spec_distribute(
                mins,
                maxes,
                crate::arith::sat_sub_i64(bounds.x1, bounds.x0),
            );
            lemma_layx_pair(v, m, r, rr, kids, widths, bounds, bounds.x0, 0, fuel);
        },
        StackDirection::Y => {
            let m1 = spec_remeasure_list(
                v,
                m,
                kids,
                0,
                crate::arith::sat_sub_i64(bounds.x1, bounds.x0),
                fuel,
            );
            let mins = Seq::new(kids.len(), |i: int| crate::regions::spec_min_entry_y(m1, kids[i]));
            let maxes = Seq::new(
                kids.len(),
                |i: int| crate::regions::spec_max_entry_y(m1, kids[i]),
            );
            let heights = crate::regions::spec_distribute(
                mins,
                maxes,
                crate::arith::sat_sub_i64(bounds.y1, bounds.y0),
            );
            lemma_layy_pair(v, m1, r, rr, kids, heights, bounds, bounds.y0, 0, fuel);
        },
        StackDirection::Z => {
            lemma_layz_pair(v, m, r, rr, kids, bounds, 0, fuel);
        },
    }
}

#[verifier::spinoff_prover]
proof fn lemma_layx_pair(
    v: Seq<Option<UiNode>>,
    m: Seq<Option<crate::regions::CalcData>>,
    r: Seq<Option<Region>>,
    rr: Seq<Option<Region>>,
    kids: Seq<ViewId>,
    widths: Seq<i64>,
    region: Region,
    cursor: i64,
    i: int,
    fuel: nat,
)
    requires
        same_shape(r, rr),
    ensures
        ({
            let a = spec_lay_x(v, m, r, kids, widths, region, cursor, i, fuel);
            let aa = spec_lay_x(v, m, rr, kids, widths, region, cursor, i, fuel);
            a.0 == aa.0 && same_shape(a.1, r) && same_shape(aa.1, rr) && merge_related(
                r,
                rr,
                a.1,
                aa.1,
            )
        }),
    decreases fuel, 0nat, kids.len() - i,
{
    if fuel == 0 || !(0 <= i < kids.len()) {
        return ;
    }
    let w = if 0 <= i < widths.len() {
        widths[i]
    } else {
        0
    };
    let rect = Region {
        x0: cursor,
        y0: region.y0,
        x1: crate::arith::sat_add_i64(cursor, w),
        y1: region.y1,
    };
    let rec = spec_region_pass(v, m, r, kids[i], rect, (fuel - 1) as nat);
    let recc = spec_region_pass(v, m, rr, kids[i], rect, (fuel - 1) as nat);
    lemma_rp_pair(v, m, r, rr, kids[i], rect, (fuel - 1) as nat);
    lemma_layx_pair(
        v,
        rec.0,
        rec.1,
        recc.1,
        kids,
        widths,
        region,
        crate::arith::sat_add_i64(cursor, w),
        i + 1,
        fuel,
    );
    let rest = spec_lay_x(
        v,
        rec.0,
        rec.1,
        kids,
        widths,
        region,
        crate::arith::sat_add_i64(cursor, w),
        i + 1,
        fuel,
    );
    let restt = spec_lay_x(
        v,
        rec.0,
        recc.1,
        kids,
        widths,
        region,
        crate::arith::sat_add_i64(cursor, w),
        i + 1,
        fuel,
    );
    lemma_merge_compose(r, rr, rec.1, recc.1, rest.1, restt.1);
}

#[verifier::spinoff_prover]
proof fn lemma_layy_pair(
    v: Seq<Option<UiNode>>,
    m: Seq<Option<crate::regions::CalcData>>,
    r: Seq<Option<Region>>,
    rr: Seq<Option<Region>>,
    kids: Seq<ViewId>,
    heights: Seq<i64>,
    region: Region,
    cursor: i64,
    i: int,
    fuel: nat,
)
    requires
        same_shape(r, rr),
    ensures
        ({
            let a = spec_lay_y(v, m, r, kids, heights, region, cursor, i, fuel);
            let aa = spec_lay_y(v, m, rr, kids, heights, region, cursor, i, fuel);
            a.0 == aa.0 && same_shape(a.1, r) && same_shape(aa.1, rr) && merge_related(
                r,
                rr,
                a.1,
                aa.1,
            )
        }),
    decreases fuel, 0nat, kids.len() - i,
{
    if fuel == 0 || !(0 <= i < kids.len()) {
        return ;
    }
    let h = if 0 <= i < heights.len() {
        heights[i]
    } else {
        0
    };
    let rect = Region {
        x0: region.x0,
        y0: cursor,
        x1: region.x1,
        y1: crate::arith::sat_add_i64(cursor, h),
    };
    let rec = spec_region_pass(v, m, r, kids[i], rect, (fuel - 1) as nat);
    let recc = spec_region_pass(v, m, rr, kids[i], rect, (fuel - 1) as nat);
    lemma_rp_pair(v, m, r, rr, kids[i], rect, (fuel - 1) as nat);
    lemma_layy_pair(
        v,
        rec.0,
        rec.1,
        recc.1,
        kids,
        heights,
        region,
        crate::arith::sat_add_i64(cursor, h),
        i + 1,
        fuel,
    );
    let rest = spec_lay_y(
        v,
        rec.0,
        rec.1,
        kids,
        heights,
        region,
        crate::arith::sat_add_i64(cursor, h),
        i + 1,
        fuel,
    );
    let restt = spec_lay_y(
        v,
        rec.0,
        recc.1,
        kids,
        heights,
        region,
        crate::arith::sat_add_i64(cursor, h),
        i + 1,
        fuel,
    );
    lemma_merge_compose(r, rr, rec.1, recc.1, rest.1, restt.1);
}

#[verifier::spinoff_prover]
proof fn lemma_layz_pair(
    v: Seq<Option<UiNode>>,
    m: Seq<Option<crate::regions::CalcData>>,
    r: Seq<Option<Region>>,
    rr: Seq<Option<Region>>,
    kids: Seq<ViewId>,
    bounds: Region,
    i: int,
    fuel: nat,
)
    requires
        same_shape(r, rr),
    ensures
        ({
            let a = spec_lay_z(v, m, r, kids, bounds, i, fuel);
            let aa = spec_lay_z(v, m, rr, kids, bounds, i, fuel);
            a.0 == aa.0 && same_shape(a.1, r) && same_shape(aa.1, rr) && merge_related(
                r,
                rr,
                a.1,
                aa.1,
            )
        }),
    decreases fuel, 0nat, kids.len() - i,
{
    if fuel == 0 || !(0 <= i < kids.len()) {
        return ;
    }
    let rec = spec_region_pass(v, m, r, kids[i], bounds, (fuel - 1) as nat);
    let recc = spec_region_pass(v, m, rr, kids[i], bounds, (fuel - 1) as nat);
    lemma_rp_pair(v, m, r, rr, kids[i], bounds, (fuel - 1) as nat);
    lemma_layz_pair(v, rec.0, rec.1, recc.1, kids, bounds, i + 1, fuel);
    let rest = spec_lay_z(v, rec.0, rec.1, kids, bounds, i + 1, fuel);
    let restt = spec_lay_z(v, rec.0, recc.1, kids, bounds, i + 1, fuel);
    lemma_merge_compose(r, rr, rec.1, recc.1, rest.1, restt.1);
}

/// The region pass is idempotent: run a second time from the regions the
/// first run produced, with the same tree, table and bounds, it reproduces
/// them exactly.
pub proof fn lemma_region_pass_idempotent(
    v: Seq<Option<UiNode>>,
    m: Seq<Option<crate::regions::CalcData>>,
    r: Seq<Option<Region>>,
    id: ViewId,
    bounds: Region,
    fuel: nat,
)
    ensures
        ({
            let first = spec_region_pass(v, m, r, id, bounds, fuel);
            let second = spec_region_pass(v, m, first.1, id, bounds, fuel);
            second.1 == first.1 && second.0 == first.0
        }),
{
    let first = spec_region_pass(v, m, r, id, bounds, fuel);
    lemma_rp_pair(v, m, r, r, id, bounds, fuel);
    assert(same_shape(r, first.1));
    lemma_rp_pair(v, m, r, first.1, id, bounds, fuel);
    let second = spec_region_pass(v, m, first.1, id, bounds, fuel);
    assert forall|j: int| 0 <= j < r.len() implies second.1[j] == first.1[j] by {
        assert((first.1[j] == r[j] && second.1[j] == first.1[j]) || first.1[j] == second.1[j]);
    }
    assert(second.1 =~= first.1);
}

/// Invoking the two layout passes twice on an unchanged tree and unchanged
/// bounds yields identical regions: the second run recomputes the same
/// constraint table from scratch and rewrites every region with the value
/// it already has.
pub proof fn lemma_layout_idempotent(
    v: Seq<Option<UiNode>>,
    r0: Seq<Option<Region>>,
    root: ViewId,
    bounds: Region,
    fuel: nat,
)
    ensures
        ({
            let m0 = Seq::new(v.len(), |i: int| None::<crate::regions::CalcData>);
            let sp = spec_size_pass(v, m0, root, fuel);
            let first = spec_region_pass(v, sp.0, r0, root, bounds, fuel);
            let second = spec_region_pass(v, sp.0, first.1, root, bounds, fuel);
            second.1 == first.1
        }),
{
    let m0 = Seq::new(v.len(), |i: int| None::<crate::regions::CalcData>);
    let sp = spec_size_pass(v, m0, root, fuel);
    lemma_region_pass_idempotent(v, sp.0, r0, root, bounds, fuel);
}

} // verus!

// === nonnegative regions under minimum-driven sizing =======================

verus! {

use crate::regions::{
    spec_line_count, spec_remeasure_one, spec_stack_kids, spec_text_height, CalcData as Cd,
};
use crate::styles::SizeConstraints;

/// The style data of one node is nonnegative wherever layout reads a
/// magnitude from it, and a scroll node that suppresses its content minimum
/// declares a full minimum of its own.
pub open spec fn node_styles_nonneg(n: UiNode) -> bool {
    &&& n.styles.padding.left >= 0
    &&& n.styles.padding.right >= 0
    &&& n.styles.padding.top >= 0
    &&& n.styles.padding.bottom >= 0
    &&& n.styles.borders.width >= 0
    &&& (n.styles.size.min_size.width matches Some(w) ==> w >= 0)
    &&& (n.styles.size.min_size.height matches Some(h) ==> h >= 0)
    &&& match n.entity {
        Entity::Rect(e) => e.radii.top_left >= 0 && e.radii.top_right >= 0
            && e.radii.bottom_left >= 0 && e.radii.bottom_right >= 0,
        Entity::Paragraph(e) => e.styles.size >= 0,
        Entity::Scroll(e) => !e.enable_inner_min_size ==> (n.styles.size.min_size.width is Some
            && n.styles.size.min_size.height is Some),
        _ => true,
    }
}

/// Every live node's styles are nonnegative in the above sense.
pub open spec fn spec_styles_nonneg(v: Seq<Option<UiNode>>) -> bool {
    forall|i: int|
        0 <= i < v.len() ==> match #[trigger] v[i] {
            Some(n) => node_styles_nonneg(n),
            None => true,
        }
}

/// Every live node sizes itself by its minimum constraint.
pub open spec fn spec_all_zip(v: Seq<Option<UiNode>>) -> bool {
    forall|i: int|
        0 <= i < v.len() ==> match #[trigger] v[i] {
            Some(n) => n.styles.size.zip,
            None => true,
        }
}

/// A constraint entry with a full, nonnegative minimum.
pub open spec fn calc_good(cd: Cd) -> bool {
    &&& cd.min_size.width matches Some(w) && w >= 0
    &&& cd.min_size.height matches Some(h) && h >= 0
}

/// Every present entry of the table is good.
pub open spec fn m_good(m: Seq<Option<Cd>>) -> bool {
    forall|i: int|
        0 <= i < m.len() ==> match #[trigger] m[i] {
            Some(cd) => calc_good(cd),
            None => true,
        }
}

/// A folded content minimum: nonnegative wherever present.
pub open spec fn sc_soft(sc: SizeConstraints) -> bool {
    &&& (sc.width matches Some(w) ==> w >= 0)
    &&& (sc.height matches Some(h) ==> h >= 0)
}

proof fn lemma_line_count_pos(bytes: Seq<u8>)
    ensures
        spec_line_count(bytes) >= 1,
    decreases bytes.len(),
{
    if bytes.len() > 0 {
        lemma_line_count_pos(bytes.drop_last());
    }
}

proof fn lemma_text_height_nonneg(text: Seq<char>, styles: crate::nodes::TextStyles)
    requires
        styles.size >= 0,
    ensures
        spec_text_height(text, styles) >= 0,
{
    lemma_line_count_pos(vstd::utf8::encode_utf8(text));
    let lines = spec_line_count(vstd::utf8::encode_utf8(text));
    assert((lines as int) * (styles.size as int) >= 0) by (nonlinear_arith)
        requires
            lines as int >= 1,
            styles.size as int >= 0,
    ;
}

#[verifier::spinoff_prover]
proof fn lemma_sp_good(v: Seq<Option<UiNode>>, m: Seq<Option<Cd>>, id: ViewId, fuel: nat)
    requires
        spec_styles_nonneg(v),
        m_good(m),
    ensures
        m_good(spec_size_pass(v, m, id, fuel).0),
        spec_size_pass(v, m, id, fuel).1 matches Some(cd) ==> calc_good(cd),
    decreases fuel, 1nat, 0nat,
{
    if fuel == 0 {
        return ;
    }
    match spec_node_get(v, id) {
        None => {},
        Some(node) => {
            assert(node_styles_nonneg(node));
            match node.entity {
                Entity::Box(e) => {
                    lemma_sp_good(v, m, e.inner, (fuel - 1) as nat);
                },
                Entity::Scroll(e) => {
                    lemma_sp_good(v, m, e.inner, (fuel - 1) as nat);
                },
                Entity::Scale(e) => {
                    lemma_sp_good(v, m, e.inner, (fuel - 1) as nat);
                },
                Entity::Stack(e) => {
                    lemma_sk_good(
                        v,
                        m,
                        e.inner@,
                        0,
                        e.direction,
                        SizeConstraints { width: None, height: None },
                        fuel,
                    );
                },
                Entity::Switch(e) => {
                    if e.mode < e.inner@.len() {
                        lemma_sp_good(v, m, e.inner@[e.mode as int], (fuel - 1) as nat);
                    }
                },
                Entity::Paragraph(e) => {
                    lemma_text_height_nonneg(e.text@, e.styles);
                },
                _ => {},
            }
        },
    }
}

#[verifier::spinoff_prover]
proof fn lemma_sk_good(
    v: Seq<Option<UiNode>>,
    m: Seq<Option<Cd>>,
    kids: Seq<ViewId>,
    i: int,
    dir: StackDirection,
    acc: SizeConstraints,
    fuel: nat,
)
    requires
        spec_styles_nonneg(v),
        m_good(m),
        sc_soft(acc),
    ensures
        m_good(spec_stack_kids(v, m, kids, i, dir, acc, fuel).0),
        sc_soft(spec_stack_kids(v, m, kids, i, dir, acc, fuel).1),
    decreases fuel, 0nat, kids.len() - i,
{
    if fuel == 0 || !(0 <= i < kids.len()) {
        return ;
    }
    lemma_sp_good(v, m, kids[i], (fuel - 1) as nat);
    let step = spec_size_pass(v, m, kids[i], (fuel - 1) as nat);
    let acc2 = match step.1 {
        None => acc,
        Some(cd) => crate::regions::spec_stack_combine(dir, acc, cd.min_size),
    };
    lemma_sk_good(v, step.0, kids, i + 1, dir, acc2, fuel);
}

#[verifier::spinoff_prover]
proof fn lemma_remeasure_one_good(
    v: Seq<Option<UiNode>>,
    m: Seq<Option<Cd>>,
    id: ViewId,
    width: i64,
    fuel: nat,
)
    requires
        spec_styles_nonneg(v),
        m_good(m),
    ensures
        m_good(spec_remeasure_one(v, m, id, width, fuel)),
    decreases fuel, 0nat, 0nat,
{
    if fuel == 0 {
        return ;
    }
    match spec_node_get(v, id) {
        None => {},
        Some(node) => {
            assert(node_styles_nonneg(node));
            let styles = node.styles;
            let delta_w = crate::arith::sat_add_i64(
                crate::arith::sat_add_i64(styles.padding.left, styles.padding.right),
                crate::arith::sat_mul_i64(styles.borders.width, 2),
            );
            let new_width = crate::arith::sat_sub_i64(width, delta_w);
            match node.entity {
                Entity::Paragraph(_) => {
                    assert((styles.borders.width as int) * 2 >= 0) by (nonlinear_arith)
                        requires
                            styles.borders.width as int >= 0,
                    ;
                },
                Entity::Scroll(e) => {
                    if e.h_enabled {
                        lemma_remeasure_one_good(v, m, e.inner, new_width, (fuel - 1) as nat);
                    }
                },
                Entity::Box(e) => {
                    lemma_remeasure_one_good(v, m, e.inner, new_width, (fuel - 1) as nat);
                },
                Entity::Stack(e) => {
                    if e.direction != StackDirection::X {
                        lemma_remeasure_list_good(v, m, e.inner@, 0, new_width, (fuel - 1) as nat);
                    }
                },
                Entity::Switch(e) => {
                    if e.mode < e.inner@.len() {
                        lemma_remeasure_one_good(
                            v,
                            m,
                            e.inner@[e.mode as int],
                            new_width,
                            (fuel - 1) as nat,
                        );
                    }
                },
                _ => {},
            }
        },
    }
}

#[verifier::spinoff_prover]
proof fn lemma_remeasure_list_good(
    v: Seq<Option<UiNode>>,
    m: Seq<Option<Cd>>,
    kids: Seq<ViewId>,
    i: int,
    width: i64,
    fuel: nat,
)
    requires
        spec_styles_nonneg(v),
        m_good(m),
    ensures
        m_good(spec_remeasure_list(v, m, kids, i, width, fuel)),
    decreases fuel, 1nat, kids.len() - i,
{
    if !(0 <= i < kids.len()) {
        return ;
    }
    lemma_remeasure_one_good(v, m, kids[i], width, fuel);
    lemma_remeasure_list_good(
        v,
        spec_remeasure_one(v, m, kids[i], width, fuel),
        kids,
        i + 1,
        width,
        fuel,
    );
}

/// Slots either keep their value or hold a region of nonnegative size.
pub open spec fn writes_nonneg(r: Seq<Option<Region>>, r1: Seq<Option<Region>>) -> bool {
    r1.len() == r.len() && forall|j: int|
        0 <= j < r.len() ==> (#[trigger] r1[j] == r[j] || (r1[j] matches Some(reg) && reg.x1
            >= reg.x0 && reg.y1 >= reg.y0))
}

proof fn lemma_writes_nonneg_trans(
    r: Seq<Option<Region>>,
    s: Seq<Option<Region>>,
    t: Seq<Option<Region>>,
)
    requires
        writes_nonneg(r, s),
        writes_nonneg(s, t),
    ensures
        writes_nonneg(r, t),
{
    assert forall|j: int| 0 <= j < r.len() implies (#[trigger] t[j] == r[j] || (t[j] matches Some(
        reg,
    ) && reg.x1 >= reg.x0 && reg.y1 >= reg.y0)) by {
        assert(s[j] == r[j] || (s[j] matches Some(reg) && reg.x1 >= reg.x0 && reg.y1 >= reg.y0));
        assert(t[j] == s[j] || (t[j] matches Some(reg) && reg.x1 >= reg.x0 && reg.y1 >= reg.y0));
    }
}

#[verifier::spinoff_prover]
proof fn lemma_rp_nonneg(
    v: Seq<Option<UiNode>>,
    m: Seq<Option<Cd>>,
    r: Seq<Option<Region>>,
    id: ViewId,
    bounds: Region,
    fuel: nat,
)
    requires
        spec_styles_nonneg(v),
        spec_all_zip(v),
        m_good(m),
    ensures
        m_good(spec_region_pass(v, m, r, id, bounds, fuel).0),
        writes_nonneg(r, spec_region_pass(v, m, r, id, bounds, fuel).1),
    decreases fuel, 2nat, 0nat,
{
    if fuel == 0 {
        return ;
    }
    match spec_node_get(v, id) {
        None => {},
        Some(node) => {
            match spec_calc_get(m, id) {
                None => {},
                Some(cd) => {
                    assert(node_styles_nonneg(node));
                    assert(node.styles.size.zip);
                    assert(calc_good(cd));
                    let region = spec_place(node.styles, cd, bounds);
                    assert(region.x1 >= region.x0 && region.y1 >= region.y0);
                    let inner = spec_inner_region(node.styles, region);
                    let rec = match node.entity {
                        Entity::Box(e) => {
                            lemma_rp_nonneg(v, m, r, e.inner, inner, (fuel - 1) as nat);
                            spec_region_pass(v, m, r, e.inner, inner, (fuel - 1) as nat)
                        },
                        Entity::Scale(e) => {
                            lemma_rp_nonneg(v, m, r, e.inner, inner, (fuel - 1) as nat);
                            spec_region_pass(v, m, r, e.inner, inner, (fuel - 1) as nat)
                        },
                        Entity::Scroll(e) => {
                            let sub = spec_scroll_shift(inner, e.offset);
                            lemma_rp_nonneg(v, m, r, e.inner, sub, (fuel - 1) as nat);
                            spec_region_pass(v, m, r, e.inner, sub, (fuel - 1) as nat)
                        },
                        Entity::Switch(e) => {
                            if e.mode < e.inner@.len() {
                                let kid = e.inner@[e.mode as int];
                                lemma_rp_nonneg(v, m, r, kid, inner, (fuel - 1) as nat);
                                spec_region_pass(v, m, r, kid, inner, (fuel - 1) as nat)
                            } else {
                                (m, r)
                            }
                        },
                        Entity::Stack(e) => {
                            lemma_stack_nonneg(v, m, r, e.direction, e.inner@, inner, fuel);
                            spec_stack_region(v, m, r, e.direction, e.inner@, inner, fuel)
                        },
                        _ => { (m, r) },
                    };
                    let out = spec_region_set(rec.1, id, region);
                    assert forall|j: int| 0 <= j < r.len() implies (#[trigger] out[j] == r[j] || (
                    out[j] matches Some(reg) && reg.x1 >= reg.x0 && reg.y1 >= reg.y0)) by {
                        assert(rec.1[j] == r[j] || (rec.1[j] matches Some(reg) && reg.x1 >= reg.x0
                            && reg.y1 >= reg.y0));
                    }
                },
            }
        },
    }
}

#[verifier::spinoff_prover]
proof fn lemma_stack_nonneg(
    v: Seq<Option<UiNode>>,
    m: Seq<Option<Cd>>,
    r: Seq<Option<Region>>,
    dir: StackDirection,
    kids: Seq<ViewId>,
    bounds: Region,
    fuel: nat,
)
    requires
        spec_styles_nonneg(v),
        spec_all_zip(v),
        m_good(m),
    ensures
        m_good(spec_stack_region(v, m, r, dir, kids, bounds, fuel).0),
        writes_nonneg(r, spec_stack_region(v, m, r, dir, kids, bounds, fuel).1),
    decreases fuel, 1nat, 0nat,
{
    if fuel == 0 {
        return ;
    }
    match dir {
        StackDirection::X => {
            let mins = Seq::new(kids.len(), |i: int| crate::regions::spec_min_entry_x(m, kids[i]));
            let maxes = Seq::new(kids.len(), |i: int| crate::regions::spec_max_entry_x(m, kids[i]));
            let widths = spec_distribute(
                mins,
                maxes,
                crate::arith::sat_sub_i64(bounds.x1, bounds.x0),
            );
            lemma_layx_nonneg(v, m, r, kids, widths, bounds, bounds.x0, 0, fuel);
        },
        StackDirection::Y => {
            lemma_remeasure_list_good(
                v,
                m,
                kids,
                0,
                crate::arith::sat_sub_i64(bounds.x1, bounds.x0),
                fuel,
            );
            let m1 = spec_remeasure_list(
                v,
                m,
                kids,
                0,
                crate::arith::sat_sub_i64(bounds.x1, bounds.x0),
                fuel,
            );
            let mins = Seq::new(kids.len(), |i: int| crate::regions::spec_min_entry_y(m1, kids[i]));
            let maxes = Seq::new(
                kids.len(),
                |i: int| crate::regions::spec_max_entry_y(m1, kids[i]),
            );
            let heights = spec_distribute(
                mins,
                maxes,
                crate::arith::sat_sub_i64(bounds.y1, bounds.y0),
            );
            lemma_layy_nonneg(v, m1, r, kids, heights, bounds, bounds.y0, 0, fuel);
        },
        StackDirection::Z => {
            lemma_layz_nonneg(v, m, r, kids, bounds, 0, fuel);
        },
    }
}

#[verifier::spinoff_prover]
proof fn lemma_layx_nonneg(
    v: Seq<Option<UiNode>>,
    m: Seq<Option<Cd>>,
    r: Seq<Option<Region>>,
    kids: Seq<ViewId>,
    widths: Seq<i64>,
    region: Region,
    cursor: i64,
    i: int,
    fuel: nat,
)
    requires
        spec_styles_nonneg(v),
        spec_all_zip(v),
        m_good(m),
    ensures
        m_good(spec_lay_x(v, m, r, kids, widths, region, cursor, i, fuel).0),
        writes_nonneg(r, spec_lay_x(v, m, r, kids, widths, region, cursor, i, fuel).1),
    decreases fuel, 0nat, kids.len() - i,
{
    if fuel == 0 || !(0 <= i < kids.len()) {
        return ;
    }
    let w = if 0 <= i < widths.len() {
        widths[i]
    } else {
        0
    };
    let rect = Region {
        x0: cursor,
        y0: region.y0,
        x1: crate::arith::sat_add_i64(cursor, w),
        y1: region.y1,
    };
    lemma_rp_nonneg(v, m, r, kids[i], rect, (fuel - 1) as nat);
    let rec = spec_region_pass(v, m, r, kids[i], rect, (fuel - 1) as nat);
    lemma_layx_nonneg(
        v,
        rec.0,
        rec.1,
        kids,
        widths,
        region,
        crate::arith::sat_add_i64(cursor, w),
        i + 1,
        fuel,
    );
    let rest = spec_lay_x(
        v,
        rec.0,
        rec.1,
        kids,
        widths,
        region,
        crate::arith::sat_add_i64(cursor, w),
        i + 1,
        fuel,
    );
    lemma_writes_nonneg_trans(r, rec.1, rest.1);
}

#[verifier::spinoff_prover]
proof fn lemma_layy_nonneg(
    v: Seq<Option<UiNode>>,
    m: Seq<Option<Cd>>,
    r: Seq<Option<Region>>,
    kids: Seq<ViewId>,
    heights: Seq<i64>,
    region: Region,
    cursor: i64,
    i: int,
    fuel: nat,
)
    requires
        spec_styles_nonneg(v),
        spec_all_zip(v),
        m_good(m),
    ensures
        m_good(spec_lay_y(v, m, r, kids, heights, region, cursor, i, fuel).0),
        writes_nonneg(r, spec_lay_y(v, m, r, kids, heights, region, cursor, i, fuel).1),
    decreases fuel, 0nat, kids.len() - i,
{
    if fuel == 0 || !(0 <= i < kids.len()) {
        return ;
    }
    let h = if 0 <= i < heights.len() {
        heights[i]
    } else {
        0
    };
    let rect = Region {
        x0: region.x0,
        y0: cursor,
        x1: region.x1,
        y1: crate::arith::sat_add_i64(cursor, h),
    };
    lemma_rp_nonneg(v, m, r, kids[i], rect, (fuel - 1) as nat);
    let rec = spec_region_pass(v, m, r, kids[i], rect, (fuel - 1) as nat);
    lemma_layy_nonneg(
        v,
        rec.0,
        rec.1,
        kids,
        heights,
        region,
        crate::arith::sat_add_i64(cursor, h),
        i + 1,
        fuel,
    );
    let rest = spec_lay_y(
        v,
        rec.0,
        rec.1,
        kids,
        heights,
        region,
        crate::arith::sat_add_i64(cursor, h),
        i + 1,
        fuel,
    );
    lemma_writes_nonneg_trans(r, rec.1, rest.1);
}

#[verifier::spinoff_prover]
proof fn lemma_layz_nonneg(
    v: Seq<Option<UiNode>>,
    m: Seq<Option<Cd>>,
    r: Seq<Option<Region>>,
    kids: Seq<ViewId>,
    bounds: Region,
    i: int,
    fuel: nat,
)
    requires
        spec_styles_nonneg(v),
        spec_all_zip(v),
        m_good(m),
    ensures
        m_good(spec_lay_z(v, m, r, kids, bounds, i, fuel).0),
        writes_nonneg(r, spec_lay_z(v, m, r, kids, bounds, i, fuel).1),
    decreases fuel, 0nat, kids.len() - i,
{
    if fuel == 0 || !(0 <= i < kids.len()) {
        return ;
    }
    lemma_rp_nonneg(v, m, r, kids[i], bounds, (fuel - 1) as nat);
    let rec = spec_region_pass(v, m, r, kids[i], bounds, (fuel - 1) as nat);
    lemma_layz_nonneg(v, rec.0, rec.1, kids, bounds, i + 1, fuel);
    let rest = spec_lay_z(v, rec.0, rec.1, kids, bounds, i + 1, fuel);
    lemma_writes_nonneg_trans(r, rec.1, rest.1);
}

/// When every node sizes by its minimum and all style magnitudes are
/// nonnegative, every region the two passes write has nonnegative width
/// and height; untouched slots keep their old value. Without these
/// hypotheses the law fails: a node sized by its maximum that is offered
/// less than nothing — say a box whose padding exceeds the space offered
/// to its child — resolves the child to a negative extent.
pub proof fn lemma_layout_regions_nonneg(
    v: Seq<Option<UiNode>>,
    r0: Seq<Option<Region>>,
    root: ViewId,
    bounds: Region,
    fuel: nat,
)
    requires
        spec_styles_nonneg(v),
        spec_all_zip(v),
    ensures
        ({
            let m0 = Seq::new(v.len(), |i: int| None::<Cd>);
            let sp = spec_size_pass(v, m0, root, fuel);
            let rp = spec_region_pass(v, sp.0, r0, root, bounds, fuel);
            forall|j: int|
                0 <= j < r0.len() ==> (#[trigger] rp.1[j] == r0[j] || (rp.1[j] matches Some(reg)
                    && reg.x1 >= reg.x0 && reg.y1 >= reg.y0))
        }),
{
    let m0 = Seq::new(v.len(), |i: int| None::<Cd>);
    lemma_sp_good(v, m0, root, fuel);
    let sp = spec_size_pass(v, m0, root, fuel);
    lemma_rp_nonneg(v, sp.0, r0, root, bounds, fuel);
}

} // verus!

// === bounds of the general-case distribution ===============================

verus! {

use crate::arith::sat_sub_i64;
use crate::regions::{
    spec_avg_of, spec_count_false, spec_fill, spec_max_phase, spec_max_scan, spec_min_phase,
    spec_min_scan,
};
use vstd::arithmetic::div_mod::{lemma_fundamental_div_mod, lemma_mod_bound};

proof fn lemma_count_false_bounds_l(s: Seq<bool>)
    ensures
        0 <= spec_count_false(s) <= s.len(),
    decreases s.len(),
{
    if s.len() > 0 {
        lemma_count_false_bounds_l(s.drop_last());
    }
}

proof fn lemma_count_false_update_l(s: Seq<bool>, i: int)
    requires
        0 <= i < s.len(),
        !s[i],
    ensures
        spec_count_false(s.update(i, true)) == spec_count_false(s) - 1,
        spec_count_false(s) >= 1,
    decreases s.len(),
{
    lemma_count_false_bounds_l(s.drop_last());
    let u = s.update(i, true);
    if i == s.len() - 1 {
        assert(u.drop_last() =~= s.drop_last());
    } else {
        assert(u.drop_last() =~= s.drop_last().update(i, true));
        assert(u.last() == s.last());
        lemma_count_false_update_l(s.drop_last(), i);
    }
}

proof fn lemma_count_false_pos_witness(s: Seq<bool>)
    requires
        spec_count_false(s) >= 1,
    ensures
        exists|j: int| 0 <= j < s.len() && !(#[trigger] s[j]),
    decreases s.len(),
{
    if s.len() > 0 {
        if !s.last() {
            assert(!s[s.len() - 1]);
        } else {
            lemma_count_false_pos_witness(s.drop_last());
            let j = choose|j: int| 0 <= j < s.drop_last().len() && !(#[trigger] s.drop_last()[j]);
            assert(!s[j]);
        }
    }
}

proof fn lemma_count_false_at_l(s: Seq<bool>, i: int)
    requires
        0 <= i < s.len(),
        !s[i],
    ensures
        spec_count_false(s) >= 1,
    decreases s.len(),
{
    lemma_count_false_bounds_l(s.drop_last());
    if i < s.len() - 1 {
        lemma_count_false_at_l(s.drop_last(), i);
    }
}

proof fn lemma_div_ge(a: int, b: int, c: int)
    requires
        c >= 1,
        a >= b * c,
    ensures
        a / c >= b,
{
    lemma_fundamental_div_mod(a, c);
    lemma_mod_bound(a, c);
    assert(c * (a / c) + (a % c) >= b * c);
    assert((a / c) >= b) by (nonlinear_arith)
        requires
            c >= 1,
            c * (a / c) + (a % c) >= b * c,
            0 <= a % c < c,
    ;
}

proof fn lemma_avg_lower(rem: int, cnt: int)
    requires
        cnt >= 1,
    ensures
        (rem / cnt) * cnt <= rem,
{
    lemma_fundamental_div_mod(rem, cnt);
    lemma_mod_bound(rem, cnt);
    assert((rem / cnt) * cnt == cnt * (rem / cnt)) by (nonlinear_arith);
}

/// Pinning a below-average child raises the average of the rest.
proof fn lemma_avg_step(rem: i64, cnt: int, mx: i64)
    requires
        cnt >= 2,
        (mx as int) < spec_avg_of(rem, cnt) as int,
    ensures
        spec_avg_of(sat_sub_i64(rem, mx), cnt - 1) as int >= spec_avg_of(rem, cnt) as int,
{
    assert(i64::MIN <= (rem as int) / cnt <= i64::MAX) by (nonlinear_arith)
        requires
            cnt >= 1,
            i64::MIN <= rem as int <= i64::MAX,
    ;
    let avg = spec_avg_of(rem, cnt) as int;
    assert(avg == (rem as int) / cnt);
    lemma_avg_lower(rem as int, cnt);
    assert(avg * cnt <= rem as int);
    let rem2 = sat_sub_i64(rem, mx) as int;
    // the saturating difference is at least the average times the remaining
    // count: either no clamping happens, or it clamps upward to the top of
    // the range, which lies above that product as well
    assert(avg * (cnt - 1) <= avg * cnt - avg) by (nonlinear_arith);
    if rem as int - mx as int > i64::MAX {
        assert(rem2 == i64::MAX);
        if avg >= 0 {
            assert(avg * (cnt - 1) <= avg * cnt) by (nonlinear_arith)
                requires
                    avg >= 0,
                    cnt >= 2,
            ;
            assert(avg * (cnt - 1) <= rem as int);
        } else {
            assert(avg * (cnt - 1) <= 0) by (nonlinear_arith)
                requires
                    avg < 0,
                    cnt >= 2,
            ;
        }
        assert(avg * (cnt - 1) <= rem2);
    } else {
        assert(rem as int - mx as int >= avg * cnt - avg + 1);
        assert(rem as int - mx as int >= i64::MIN) by {
            if avg <= 0 {
                assert((mx as int) < 0);
            } else {
                assert(avg * cnt >= 0) by (nonlinear_arith)
                    requires
                        avg > 0,
                        cnt >= 2,
                ;
            }
        }
        assert(rem2 == rem as int - mx as int);
        assert(avg * (cnt - 1) <= rem2);
    }
    lemma_div_ge(rem2, avg, cnt - 1);
    assert(i64::MIN <= rem2 / (cnt - 1) <= i64::MAX) by (nonlinear_arith)
        requires
            cnt - 1 >= 1,
            i64::MIN <= rem2 <= i64::MAX,
    ;
    assert(spec_avg_of(sat_sub_i64(rem, mx), cnt - 1) as int == rem2 / (cnt - 1));
}

} // verus!

verus! {

proof fn lemma_count_false_all_l(n: nat)
    ensures
        spec_count_false(Seq::new(n, |i: int| false)) == n,
    decreases n,
{
    let s = Seq::new(n, |i: int| false);
    if n > 0 {
        assert(s.drop_last() =~= Seq::new((n - 1) as nat, |i: int| false));
        lemma_count_false_all_l((n - 1) as nat);
    }
}

#[verifier::spinoff_prover]
proof fn lemma_min_scan_props(
    mins: Seq<i64>,
    have: Seq<bool>,
    rem: i64,
    cnt: int,
    avg: i64,
    i: int,
)
    requires
        0 <= i,
        have.len() == mins.len(),
        cnt == spec_count_false(have),
        avg == spec_avg_of(rem, cnt),
    ensures
        ({
            let out = spec_min_scan(mins, have, rem, cnt, avg, i);
            &&& out.0.len() == have.len()
            &&& out.2 == spec_count_false(out.0)
            &&& out.3 == spec_avg_of(out.1, out.2)
            &&& out.2 <= cnt
            &&& (out.4 ==> out.2 < cnt)
            &&& forall|j: int| 0 <= j < have.len() && have[j] ==> #[trigger] out.0[j]
            &&& (!out.4 ==> out.0 == have && out.1 == rem && out.2 == cnt && out.3 == avg
                && (forall|j: int|
                    i <= j < mins.len() && !have[j] ==> (#[trigger] mins[j]) as int <= avg as int))
        }),
    decreases mins.len() - i,
{
    if !(0 <= i < mins.len()) {
        return ;
    }
    if 0 <= i < have.len() && !have[i] && mins[i] > avg {
        lemma_count_false_update_l(have, i);
        let have2 = have.update(i, true);
        let rem2 = sat_sub_i64(rem, mins[i]);
        let cnt2 = cnt - 1;
        let avg2 = spec_avg_of(rem2, cnt2);
        lemma_min_scan_props(mins, have2, rem2, cnt2, avg2, i + 1);
        let out = spec_min_scan(mins, have, rem, cnt, avg, i);
        assert forall|j: int| 0 <= j < have.len() && have[j] implies #[trigger] out.0[j] by {
            assert(have2[j]);
        }
    } else {
        lemma_min_scan_props(mins, have, rem, cnt, avg, i + 1);
    }
}

#[verifier::spinoff_prover]
proof fn lemma_min_phase_props(
    mins: Seq<i64>,
    have: Seq<bool>,
    rem: i64,
    cnt: int,
    avg: i64,
    fuel: nat,
)
    requires
        have.len() == mins.len(),
        cnt == spec_count_false(have),
        avg == spec_avg_of(rem, cnt),
        fuel >= cnt + 1,
    ensures
        ({
            let out = spec_min_phase(mins, have, rem, cnt, avg, fuel);
            &&& out.0.len() == have.len()
            &&& out.2 == spec_count_false(out.0)
            &&& out.3 == spec_avg_of(out.1, out.2)
            &&& forall|j: int| 0 <= j < have.len() && have[j] ==> #[trigger] out.0[j]
            &&& forall|j: int|
                0 <= j < mins.len() && !(#[trigger] out.0[j]) ==> mins[j] as int <= out.3 as int
        }),
    decreases fuel,
{
    lemma_count_false_bounds_l(have);
    if fuel == 0 {
        return ;
    }
    lemma_min_scan_props(mins, have, rem, cnt, avg, 0);
    let scan = spec_min_scan(mins, have, rem, cnt, avg, 0);
    if scan.4 {
        lemma_count_false_bounds_l(scan.0);
        lemma_min_phase_props(mins, scan.0, scan.1, scan.2, scan.3, (fuel - 1) as nat);
        let out = spec_min_phase(mins, have, rem, cnt, avg, fuel);
        assert forall|j: int| 0 <= j < have.len() && have[j] implies #[trigger] out.0[j] by {
            assert(scan.0[j]);
        }
    }
}

#[verifier::spinoff_prover]
proof fn lemma_max_scan_props(
    maxes: Seq<Option<i64>>,
    widths: Seq<i64>,
    have: Seq<bool>,
    rem: i64,
    cnt: int,
    avg: i64,
    i: int,
)
    requires
        0 <= i,
        have.len() == maxes.len(),
        widths.len() == maxes.len(),
        cnt == spec_count_false(have),
        avg == spec_avg_of(rem, cnt),
    ensures
        ({
            let out = spec_max_scan(maxes, widths, have, rem, cnt, avg, i);
            &&& out.0.len() == widths.len()
            &&& out.1.len() == have.len()
            &&& out.3 == spec_count_false(out.1)
            &&& out.4 == spec_avg_of(out.2, out.3)
            &&& out.3 <= cnt
            &&& (out.5 ==> out.3 < cnt)
            &&& forall|j: int| 0 <= j < have.len() && have[j] ==> #[trigger] out.1[j]
            &&& forall|j: int|
                0 <= j < widths.len() ==> ((#[trigger] out.0[j]) == widths[j] || (
                maxes[j] matches Some(mx) && out.0[j] == mx))
            &&& (out.3 > 0 ==> out.4 as int >= avg as int)
            &&& (!out.5 ==> out.0 == widths && out.1 == have && out.2 == rem && out.3 == cnt
                && out.4 == avg && (forall|j: int|
                    i <= j < maxes.len() && !have[j] ==> ((#[trigger] maxes[j]) matches Some(mx)
                        ==> mx as int >= avg as int)))
        }),
    decreases maxes.len() - i,
{
    if !(0 <= i < maxes.len()) {
        return ;
    }
    if 0 <= i < have.len() && !have[i] && (maxes[i] matches Some(mx) && mx < avg) {
        let mx = maxes[i]->Some_0;
        lemma_count_false_update_l(have, i);
        let widths2 = widths.update(i, mx);
        let have2 = have.update(i, true);
        let rem2 = sat_sub_i64(rem, mx);
        let cnt2 = cnt - 1;
        let avg2 = spec_avg_of(rem2, cnt2);
        if cnt2 > 0 {
            lemma_avg_step(rem, cnt, mx);
        }
        lemma_max_scan_props(maxes, widths2, have2, rem2, cnt2, avg2, i + 1);
        let out = spec_max_scan(maxes, widths, have, rem, cnt, avg, i);
        assert forall|j: int| 0 <= j < have.len() && have[j] implies #[trigger] out.1[j] by {
            assert(have2[j]);
        }
        assert forall|j: int| 0 <= j < widths.len() implies ((#[trigger] out.0[j]) == widths[j]
            || (maxes[j] matches Some(mmx) && out.0[j] == mmx)) by {
            assert(out.0[j] == widths2[j] || (maxes[j] matches Some(mmx) && out.0[j] == mmx));
            if j == i {
                assert(widths2[j] == mx);
            } else {
                assert(widths2[j] == widths[j]);
            }
        }
    } else {
        lemma_max_scan_props(maxes, widths, have, rem, cnt, avg, i + 1);
    }
}

#[verifier::spinoff_prover]
proof fn lemma_max_phase_props(
    maxes: Seq<Option<i64>>,
    widths: Seq<i64>,
    have: Seq<bool>,
    rem: i64,
    cnt: int,
    avg: i64,
    fuel: nat,
)
    requires
        have.len() == maxes.len(),
        widths.len() == maxes.len(),
        cnt == spec_count_false(have),
        avg == spec_avg_of(rem, cnt),
        fuel >= cnt + 1,
    ensures
        ({
            let out = spec_max_phase(maxes, widths, have, rem, cnt, avg, fuel);
            &&& out.0.len() == widths.len()
            &&& out.1.len() == have.len()
            &&& out.3 == spec_count_false(out.1)
            &&& forall|j: int| 0 <= j < have.len() && have[j] ==> #[trigger] out.1[j]
            &&& forall|j: int|
                0 <= j < widths.len() ==> ((#[trigger] out.0[j]) == widths[j] || (
                maxes[j] matches Some(mx) && out.0[j] == mx))
            &&& (out.3 > 0 ==> out.4 as int >= avg as int)
            &&& forall|j: int|
                0 <= j < maxes.len() && !(#[trigger] out.1[j]) ==> (maxes[j] matches Some(mx)
                    ==> mx as int >= out.4 as int)
        }),
    decreases fuel,
{
    lemma_count_false_bounds_l(have);
    if fuel == 0 {
        return ;
    }
    lemma_max_scan_props(maxes, widths, have, rem, cnt, avg, 0);
    let scan = spec_max_scan(maxes, widths, have, rem, cnt, avg, 0);
    if scan.5 {
        lemma_count_false_bounds_l(scan.1);
        lemma_max_phase_props(maxes, scan.0, scan.1, scan.2, scan.3, scan.4, (fuel - 1) as nat);
        let out = spec_max_phase(maxes, widths, have, rem, cnt, avg, fuel);
        if out.3 > 0 {
            lemma_count_false_pos_witness(out.1);
            let j = choose|j: int| 0 <= j < out.1.len() && !(#[trigger] out.1[j]);
            assert(!scan.1[j]);
            lemma_count_false_at_l(scan.1, j);
        }
        assert forall|j: int| 0 <= j < have.len() && have[j] implies #[trigger] out.1[j] by {
            assert(scan.1[j]);
        }
        assert forall|j: int| 0 <= j < widths.len() implies ((#[trigger] out.0[j]) == widths[j]
            || (maxes[j] matches Some(mmx) && out.0[j] == mmx)) by {
            assert(out.0[j] == scan.0[j] || (maxes[j] matches Some(mmx) && out.0[j] == mmx));
            assert(scan.0[j] == widths[j] || (maxes[j] matches Some(mmx) && scan.0[j] == mmx));
        }
    }
}

/// In the general case — the minima do not already fill the extent, and
/// the maxima do not all fit within it — the two-phase relaxation hands no
/// child less than its minimum nor more than a finite maximum, provided
/// each child's bounds are consistent (its minimum at most its maximum).
pub proof fn lemma_distribute_bounds(mins: Seq<i64>, maxes: Seq<Option<i64>>, avail: i64)
    requires
        mins.len() == maxes.len(),
        spec_sum(mins) < avail,
        !(spec_sum_opt(maxes) matches Some(ms) && ms <= avail),
        forall|j: int|
            0 <= j < mins.len() ==> ((#[trigger] maxes[j]) matches Some(mx) ==> mins[j] <= mx),
    ensures
        spec_distribute(mins, maxes, avail).len() == mins.len(),
        forall|j: int|
            0 <= j < mins.len() ==> (#[trigger] spec_distribute(mins, maxes, avail)[j]) as int
                >= mins[j] as int,
        forall|j: int|
            0 <= j < mins.len() ==> ((#[trigger] maxes[j]) matches Some(mx) ==> spec_distribute(
                mins,
                maxes,
                avail,
            )[j] as int <= mx as int),
{
    let n = mins.len() as int;
    let have0 = Seq::new(mins.len(), |i: int| false);
    lemma_count_false_all_l(mins.len());
    let avg0 = spec_avg_of(avail, n);
    lemma_min_phase_props(mins, have0, avail, n, avg0, (n + 1) as nat);
    let p1 = spec_min_phase(mins, have0, avail, n, avg0, (n + 1) as nat);
    lemma_count_false_bounds_l(p1.0);
    lemma_max_phase_props(maxes, mins, p1.0, p1.1, p1.2, p1.3, (n + 1) as nat);
    let p2 = spec_max_phase(maxes, mins, p1.0, p1.1, p1.2, p1.3, (n + 1) as nat);
    let result = spec_fill(p2.0, p2.1, p2.4);
    assert forall|j: int| 0 <= j < n implies (#[trigger] result[j]) as int >= mins[j] as int && (
    maxes[j] matches Some(mx) ==> result[j] as int <= mx as int) by {
        if !p2.1[j] {
            // still flexible: gets the final average, which the minimum
            // phase bounded from below and the maximum phase from above
            assert(!p1.0[j]);
            assert(mins[j] as int <= p1.3 as int);
            lemma_count_false_at_l(p2.1, j);
            assert(p2.4 as int >= p1.3 as int);
            assert(result[j] == p2.4);
        } else {
            assert(result[j] == p2.0[j]);
            assert(p2.0[j] == mins[j] || (maxes[j] matches Some(mx) && p2.0[j] == mx));
        }
    }
}

} // verus!
