//! A small layout system for text widgets: constraints flow down from a
//! root to its children, sizes flow back up, and each widget places its
//! children.
use vstd::prelude::*;
use std::ops::RangeInclusive;
use vstd::utf8::encode_utf8;
use vstd::std_specs::range::RangeInclusiveView;
use crate::math::{IVec2, UVec2};

verus! {

/// `RangeInclusive::start`, which gives the lower bound; its documentation
/// leaves the value open once the range was iterated to exhaustion, and so
/// does this contract.
pub assume_specification<Idx>[ RangeInclusive::<Idx>::start ](range: &RangeInclusive<Idx>) -> (start: &Idx)
    ensures
        !range@.exhausted ==> *start == range@.start,
;

/// `RangeInclusive::end`, which gives the upper bound; its documentation
/// leaves the value open once the range was iterated to exhaustion, and so
/// does this contract.
pub assume_specification<Idx>[ RangeInclusive::<Idx>::end ](range: &RangeInclusive<Idx>) -> (end: &Idx)
    ensures
        !range@.exhausted ==> *end == range@.end,
;

/// `RangeInclusive::clone`, which std derives: the copy has clones of the
/// two ends and the same record of whether the range was iterated to
/// exhaustion.
pub assume_specification<Idx: Clone>[ <RangeInclusive<Idx> as Clone>::clone ](range: &RangeInclusive<Idx>) -> (copy: RangeInclusive<Idx>)
    ensures
        vstd::pervasive::cloned(range@.start, copy@.start),
        vstd::pervasive::cloned(range@.end, copy@.end),
        copy@.exhausted == range@.exhausted,
;

/// Where a widget lies: its offset from its parent (from the root, once
/// the layout is applied) and its size.
#[derive(Clone, Copy, Debug)]
pub struct Positioned {
    pub offset: IVec2,
    pub size: UVec2,
}

/// The sizes that a widget may take: a range of widths and of heights,
/// where there is a bound.
pub struct Constraint {
    pub width: Option<RangeInclusive<u32>>,
    pub height: Option<RangeInclusive<u32>>,
}

/// A bound as it reads before any iteration: a range that was not iterated
/// to exhaustion, with the given ends.
pub open spec fn bound_is(range: Option<RangeInclusive<u32>>, view: Option<(u32, u32)>) -> bool {
    match (range, view) {
        (None, None) => true,
        (Some(r), Some((start, end))) => !r@.exhausted && r@.start == start && r@.end == end,
        _ => false,
    }
}

/// The same bound, read as its two ends.
pub open spec fn bound_ends(range: Option<RangeInclusive<u32>>) -> Option<(u32, u32)> {
    match range {
        None => None,
        Some(r) => Some((r@.start, r@.end)),
    }
}

/// No bound was iterated to exhaustion.
pub open spec fn bound_fresh(range: Option<RangeInclusive<u32>>) -> bool {
    range matches Some(r) ==> !r@.exhausted
}

/// `value` brought up to `start` and then down to `end`.
pub open spec fn clamp(value: u32, start: u32, end: u32) -> u32 {
    vstd::math::min(vstd::math::max(value as int, start as int), end as int) as u32
}

/// `value` under a bound: unchanged where there is none.
pub open spec fn clamp_to(value: u32, bound: Option<(u32, u32)>) -> u32 {
    match bound {
        None => value,
        Some((start, end)) => clamp(value, start, end),
    }
}

/// A bound as the range holds it: its two ends and whether it was iterated
/// to exhaustion.
pub open spec fn bound_view(range: Option<RangeInclusive<u32>>) -> Option<RangeInclusiveView<u32>> {
    match range {
        None => None,
        Some(r) => Some(r@),
    }
}

/// A clone of a bound.
fn copy_bound(range: &Option<RangeInclusive<u32>>) -> (copy: Option<RangeInclusive<u32>>)
    ensures
        bound_view(copy) == bound_view(*range),
{
    match range {
        Some(r) => {
            let c = r.clone();
            proof {
                assert(c@ == r@);
            }
            Some(c)
        },
        None => None,
    }
}

impl Constraint {
    /// The same constraint without a bound on the width.
    pub fn remove_x_bounds(&self) -> (unbounded: Self)
        ensures
            unbounded.width is None,
            bound_view(unbounded.height) == bound_view(self.height),
    {
        Constraint { width: None, height: copy_bound(&self.height) }
    }

    /// The same constraint without a bound on the height.
    pub fn remove_y_bounds(&self) -> (unbounded: Self)
        ensures
            unbounded.height is None,
            bound_view(unbounded.width) == bound_view(self.width),
    {
        Constraint { width: copy_bound(&self.width), height: None }
    }

    /// `size` brought within the bounds: each component raised to the
    /// start of its range and then lowered to its end.
    pub fn constrain(&self, size: UVec2) -> (constrained: UVec2)
        ensures
            bound_fresh(self.width) ==> constrained.x == clamp_to(size.x, bound_ends(self.width)),
            bound_fresh(self.height) ==> constrained.y == clamp_to(size.y, bound_ends(self.height)),
    {
        let mut size = size;
        if let Some(width) = &self.width {
            size.x = clamp_u32(size.x, *width.start(), *width.end());
        }
        if let Some(height) = &self.height {
            size.y = clamp_u32(size.y, *height.start(), *height.end());
        }
        size
    }
}

/// `value` brought up to `start` and then down to `end`.
fn clamp_u32(value: u32, start: u32, end: u32) -> (clamped: u32)
    ensures
        clamped == clamp(value, start, end),
{
    let raised = if start > value {
        start
    } else {
        value
    };
    if end < raised {
        end
    } else {
        raised
    }
}

/// The characters drawn around a widget, on each side where there is one.
pub struct Border {
    pub top: Option<char>,
    pub bottom: Option<char>,
    pub left: Option<char>,
    pub right: Option<char>,
}

impl Border {
    /// A border with the same character left and right, and the same above
    /// and below.
    pub fn symmetric(horizontal: Option<char>, vertical: Option<char>) -> (border: Self)
        ensures
            border.top == vertical && border.bottom == vertical,
            border.left == horizontal && border.right == horizontal,
    {
        Border { top: vertical, bottom: vertical, left: horizontal, right: horizontal }
    }
}

/// The space left around a widget, on each side where there is some.
pub struct Padding {
    pub top: Option<u32>,
    pub bottom: Option<u32>,
    pub left: Option<u32>,
    pub right: Option<u32>,
}

impl Padding {
    /// Padding with the same amount left and right, and the same above and
    /// below.
    pub fn symmetric(horizontal: Option<u32>, vertical: Option<u32>) -> (padding: Self)
        ensures
            padding.top == vertical && padding.bottom == vertical,
            padding.left == horizontal && padding.right == horizontal,
    {
        Padding { top: vertical, bottom: vertical, left: horizontal, right: horizontal }
    }
}

/// The character that fills a widget.
pub struct Fill {
    pub character: char,
}

/// A widget that shows a line of text.
pub struct Text {
    pub text: String,
}

/// How a text widget is laid out.
pub struct TextLogic;

impl TextLogic {
    /// A text is one line high and as wide as its bytes, the count cut to
    /// 32 bits.
    pub fn layout(text: &Text) -> (size: UVec2)
        ensures
            size.x == encode_utf8(text.text@).len() as u32,
            size.y == 1,
    {
        let len = text.text.as_str().as_bytes().len();
        #[verifier::truncate]
        let x = len as u32;
        UVec2 { x, y: 1 }
    }
}

impl Positioned {
    /// The same placement moved by the offset of its parent.
    pub fn shifted(&self, parent_offset: IVec2) -> (moved: Positioned)
        requires
            i32::MIN <= self.offset.x + parent_offset.x <= i32::MAX,
            i32::MIN <= self.offset.y + parent_offset.y <= i32::MAX,
        ensures
            moved.offset.x == self.offset.x + parent_offset.x,
            moved.offset.y == self.offset.y + parent_offset.y,
            moved.size == self.size,
    {
        Positioned {
            offset: IVec2 { x: self.offset.x + parent_offset.x, y: self.offset.y + parent_offset.y },
            size: self.size,
        }
    }
}

/// `size` under the constraint `c`, read by the ends of its bounds.
pub open spec fn constrained(c: &Constraint, size: UVec2) -> UVec2 {
    UVec2 { x: clamp_to(size.x, bound_ends(c.width)), y: clamp_to(size.y, bound_ends(c.height)) }
}

/// The sum of the heights of the first `n` of `sizes`.
pub open spec fn height_sum(sizes: Seq<UVec2>, n: int) -> int
    decreases n,
{
    if n <= 0 {
        0
    } else {
        height_sum(sizes, n - 1) + sizes[n - 1].y
    }
}

/// The greatest width among the first `n` of `sizes`, zero for none.
pub open spec fn width_max(sizes: Seq<UVec2>, n: int) -> int
    decreases n,
{
    if n <= 0 {
        0
    } else {
        vstd::math::max(width_max(sizes, n - 1), sizes[n - 1].x as int)
    }
}

/// The children's sizes under the constraint.
pub open spec fn constrained_sizes(c: &Constraint, sizes: Seq<UVec2>) -> Seq<UVec2> {
    Seq::new(sizes.len(), |i: int| constrained(c, sizes[i]))
}

/// The greatest width is one of the widths, or zero.
proof fn lemma_width_max_bound(sizes: Seq<UVec2>, n: int)
    requires
        0 <= n <= sizes.len(),
    ensures
        0 <= width_max(sizes, n) <= u32::MAX,
    decreases n,
{
    if n > 0 {
        lemma_width_max_bound(sizes, n - 1);
    }
}

/// Sums of heights grow with the count.
proof fn lemma_height_sum_monotone(sizes: Seq<UVec2>, m: int, n: int)
    requires
        0 <= m <= n <= sizes.len(),
    ensures
        0 <= height_sum(sizes, m) <= height_sum(sizes, n),
    decreases n - m,
{
    if m < n {
        lemma_height_sum_monotone(sizes, m, n - 1);
    } else {
        lemma_height_sum_nonnegative(sizes, n);
    }
}

/// Sums of heights are not negative.
proof fn lemma_height_sum_nonnegative(sizes: Seq<UVec2>, n: int)
    ensures
        0 <= height_sum(sizes, n),
    decreases n,
{
    if n > 0 {
        lemma_height_sum_nonnegative(sizes, n - 1);
    }
}

/// How a row is laid out: its children one below the other, from the top.
pub struct RowLogic;

impl RowLogic {
    /// The constraint handed to each child: the row's, without a bound on
    /// the height.
    pub fn child_constraint(constraint: &Constraint) -> (child: Constraint)
        ensures
            child.height is None,
            bound_view(child.width) == bound_view(constraint.width),
    {
        constraint.remove_y_bounds()
    }

    /// Places the children, whose layouts gave `child_sizes`: each under
    /// the row's constraint, at the left, below the one before it (the
    /// offset is the height above it, cut to a signed 32-bit value). The row
    /// is as wide as its widest child and as high as its children together.
    pub fn layout(constraint: &Constraint, child_sizes: &Vec<UVec2>) -> (laid_out: (Vec<Positioned>, UVec2))
        requires
            bound_fresh(constraint.width),
            bound_fresh(constraint.height),
            height_sum(constrained_sizes(constraint, child_sizes@), child_sizes@.len() as int) <= u32::MAX,
        ensures
            laid_out.0@.len() == child_sizes@.len(),
            forall|i: int|
                0 <= i < child_sizes@.len() ==> {
                    let placed = #[trigger] laid_out.0@[i];
                    &&& placed.size == constrained(constraint, child_sizes@[i])
                    &&& placed.offset.x == 0
                    &&& placed.offset.y == height_sum(constrained_sizes(constraint, child_sizes@), i) as i32
                },
            laid_out.1.x == width_max(constrained_sizes(constraint, child_sizes@), child_sizes@.len() as int),
            laid_out.1.y == height_sum(constrained_sizes(constraint, child_sizes@), child_sizes@.len() as int),
    {
        let ghost sizes = constrained_sizes(constraint, child_sizes@);
        let mut placed: Vec<Positioned> = Vec::new();
        let mut cursor_y: u32 = 0;
        let mut width: u32 = 0;
        let mut i: usize = 0;
        while i < child_sizes.len()
            invariant
                i <= child_sizes@.len(),
                sizes == constrained_sizes(constraint, child_sizes@),
                bound_fresh(constraint.width),
                bound_fresh(constraint.height),
                height_sum(sizes, child_sizes@.len() as int) <= u32::MAX,
                placed@.len() == i,
                cursor_y == height_sum(sizes, i as int),
                width == width_max(sizes, i as int),
                forall|k: int|
                    0 <= k < i ==> {
                        let p = #[trigger] placed@[k];
                        &&& p.size == constrained(constraint, child_sizes@[k])
                        &&& p.offset.x == 0
                        &&& p.offset.y == height_sum(sizes, k) as i32
                    },
            decreases child_sizes@.len() - i,
        {
            let size = constraint.constrain(child_sizes[i]);
            proof {
                assert(size == sizes[i as int]);
                lemma_height_sum_monotone(sizes, i + 1, child_sizes@.len() as int);
            }
            #[verifier::truncate]
            let offset_y = cursor_y as i32;
            placed.push(Positioned { offset: IVec2 { x: 0, y: offset_y }, size });
            if size.x > width {
                width = size.x;
            }
            cursor_y = cursor_y + size.y;
            i = i + 1;
        }
        (placed, UVec2 { x: width, y: cursor_y })
    }
}

/// How the root widget is laid out: its one child fills at most the
/// root's own size.
pub struct RootLogic;

impl RootLogic {
    /// The constraint handed to the child: any size up to the root's.
    pub fn child_constraint(size: UVec2) -> (constraint: Constraint)
        ensures
            bound_is(constraint.width, Some((0u32, size.x))),
            bound_is(constraint.height, Some((0u32, size.y))),
    {
        Constraint { width: Some(RangeInclusive::new(0, size.x)), height: Some(RangeInclusive::new(0, size.y)) }
    }

    /// Places the child, whose layout gave `child_size`, at the root's
    /// corner, cut to the root's size; the root keeps its own size.
    pub fn layout(size: UVec2, child_size: UVec2) -> (laid_out: (Positioned, UVec2))
        ensures
            laid_out.0.offset == (IVec2 { x: 0, y: 0 }),
            laid_out.0.size.x == vstd::math::min(child_size.x as int, size.x as int),
            laid_out.0.size.y == vstd::math::min(child_size.y as int, size.y as int),
            laid_out.1 == size,
    {
        let constraint = RootLogic::child_constraint(size);
        let placed = constraint.constrain(child_size);
        (Positioned { offset: IVec2 { x: 0, y: 0 }, size: placed }, size)
    }
}

} // verus!
