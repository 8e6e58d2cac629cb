//! The layout and composition algebra: carving a rectangle into regions and
//! combining what the regions draw and how they react.

use vstd::prelude::*;

verus! {

/// The edge of the remaining space that an item is carved from.
#[derive(Copy, Clone, PartialEq, Eq, Structural)]
pub enum Align {
    Bottom,
    Top,
    Left,
    Right,
}

/// Whether an item takes its minimum or its maximum extent.
#[derive(Copy, Clone, PartialEq, Eq, Structural)]
pub enum Restriction {
    Grow,
    Shrink,
}

/// A rendered region that can be spliced with others.
pub trait DrawResult: Sized + View {
    spec fn spec_empty(width: u32, height: u32) -> Self::V;

    spec fn spec_combine_horizontal(a: Self::V, b: Self::V, width: u32, split: u32, height: u32) -> Self::V;

    spec fn spec_combine_vertical(a: Self::V, b: Self::V, width: u32, split: u32, height: u32) -> Self::V;

    /// A blank region of the given size.
    fn empty(width: u32, height: u32) -> (r: Self)
        ensures
            r@ == Self::spec_empty(width, height),
    ;

    /// `self` on the left of column `split`, `other` on its right.
    fn combine_horizontal(self, other: Self, width: u32, split: u32, height: u32) -> (r: Self)
        ensures
            r@ == Self::spec_combine_horizontal(self@, other@, width, split, height),
    ;

    /// `self` above row `split`, `other` below it.
    fn combine_vertical(self, other: Self, width: u32, split: u32, height: u32) -> (r: Self)
        ensures
            r@ == Self::spec_combine_vertical(self@, other@, width, split, height),
    ;
}

/// The reactions of regions to an input, which can be concatenated.
pub trait OutputResult: Sized + View {
    spec fn spec_empty() -> Self::V;

    spec fn spec_combine(a: Self::V, b: Self::V) -> Self::V;

    fn empty() -> (r: Self)
        ensures
            r@ == Self::spec_empty(),
    ;

    fn combine(self, other: Self) -> (r: Self)
        ensures
            r@ == Self::spec_combine(self@, other@),
    ;
}

/// Something that renders itself into a region of a given size.
pub trait Drawable<R: View> {
    spec fn spec_draw(&self, width: u32, height: u32) -> R::V;

    fn draw(&self, width: u32, height: u32) -> (r: R)
        requires
            self.draw_ready(width, height),
        ensures
            r@ == self.spec_draw(width, height),
    ;

    /// Whether `draw` can run at this size.
    spec fn draw_ready(&self, width: u32, height: u32) -> bool;
}

/// Something that reacts to an input, given where it stands on screen.
pub trait Interactive<I, O: View> {
    spec fn spec_interact(&self, input: &I, x: u32, y: u32, width: u32, height: u32) -> O::V;

    fn interact(&self, input: &I, x: u32, y: u32, width: u32, height: u32) -> (r: O)
        ensures
            r@ == self.spec_interact(input, x, y, width, height),
    ;
}

/// A region of the screen: it draws, reacts and negotiates its size.
pub trait Widget<R: View, I, O: View>: Drawable<R> + Interactive<I, O> {
    spec fn spec_minimum_size(&self, width: u32, height: u32) -> (u32, u32);

    spec fn spec_maximum_size(&self, width: u32, height: u32) -> (u32, u32);

    fn minimum_size(&self, width: u32, height: u32) -> (r: (u32, u32))
        ensures
            r == self.spec_minimum_size(width, height),
    ;

    fn maximum_size(&self, width: u32, height: u32) -> (r: (u32, u32))
        ensures
            r == self.spec_maximum_size(width, height),
    ;
}

/// A widget together with the absolute rectangle it was given.
pub struct LayoutItem<'a, W> {
    pub x: u32,
    pub y: u32,
    pub width: u32,
    pub height: u32,
    pub widget: &'a W,
}

/// Items carved one after another off a shrinking rectangle.
///
/// `space` holds the remaining rectangle as (left, top, right, bottom).
pub struct Layout<'a, W> {
    pub items: Vec<LayoutItem<'a, W>>,
    pub space: (u32, u32, u32, u32),
}

/// Largest terminal extent, in cells, along either axis.
pub const MAX_EXTENT: u32 = 65535;

/// The rectangle (x, y, width, height) that an item gets when it is carved
/// off `space` with the given minimum and maximum sizes.
pub open spec fn item_rect(
    space: (u32, u32, u32, u32),
    min: (u32, u32),
    max: (u32, u32),
    align: Align,
    restriction: Restriction,
) -> (u32, u32, u32, u32) {
    let width = (space.2 - space.0) as u32;
    let height = (space.3 - space.1) as u32;
    let (w, h) = match align {
        Align::Top | Align::Bottom => (
            width,
            match restriction {
                Restriction::Grow => if max.1 < height { max.1 } else { height },
                Restriction::Shrink => if min.1 < height { min.1 } else { height },
            },
        ),
        Align::Left | Align::Right => (
            match restriction {
                Restriction::Grow => if max.0 < width { max.0 } else { width },
                Restriction::Shrink => if min.0 < width { min.0 } else { width },
            },
            height,
        ),
    };
    match align {
        Align::Top | Align::Left => (space.0, space.1, w, h),
        Align::Bottom => (space.0, (space.3 - h) as u32, w, h),
        Align::Right => ((space.2 - w) as u32, space.1, w, h),
    }
}

/// What remains of `space` once a strip of `w` by `h` is cut from its `align` edge.
pub open spec fn shrink_space(space: (u32, u32, u32, u32), w: u32, h: u32, align: Align) -> (
    u32,
    u32,
    u32,
    u32,
) {
    match align {
        Align::Top => (space.0, (space.1 + h) as u32, space.2, space.3),
        Align::Bottom => (space.0, space.1, space.2, (space.3 - h) as u32),
        Align::Left => ((space.0 + w) as u32, space.1, space.2, space.3),
        Align::Right => (space.0, space.1, (space.2 - w) as u32, space.3),
    }
}

/// The reactions of the last `k` items, concatenated in reverse item order:
/// the last item's reactions first.
pub open spec fn interact_fold<'a, W: Interactive<I, O>, I, O: OutputResult>(
    items: Seq<LayoutItem<'a, W>>,
    input: &I,
    k: int,
) -> O::V
    decreases k,
{
    if k <= 0 {
        O::spec_empty()
    } else {
        O::spec_combine(
            interact_fold(items, input, k - 1),
            items[items.len() - k].widget.spec_interact(
                input,
                items[items.len() - k].x,
                items[items.len() - k].y,
                items[items.len() - k].width,
                items[items.len() - k].height,
            ),
        )
    }
}

/// The combined drawing and the rectangle (x, y, width, height) it covers.
pub struct DrawState<R> {
    pub result: R,
    pub x: u32,
    pub y: u32,
    pub width: u32,
    pub height: u32,
}

/// Splices what `item` draws onto `st`, on the side where the item lies.
pub open spec fn draw_step<'a, W: Drawable<R>, R: DrawResult>(st: DrawState<R::V>, item: LayoutItem<'a, W>) -> DrawState<R::V> {
    splice::<R>(st, item.x, item.y, item.width, item.height, item.widget.spec_draw(item.width, item.height))
}

/// Splices `drawn`, covering the rectangle (x, y, width, height), onto `st`
/// on the side where the rectangle lies.
pub open spec fn splice<R: DrawResult>(st: DrawState<R::V>, x: u32, y: u32, width: u32, height: u32, drawn: R::V) -> DrawState<R::V> {
    let new_x = if st.x < x { st.x } else { x };
    let new_y = if st.y < y { st.y } else { y };
    let new_width = if x != st.x || st.width == 0 {
        (width + st.width) as u32
    } else {
        width
    };
    let new_height = if y != st.y || st.height == 0 {
        (height + st.height) as u32
    } else {
        height
    };
    let result = if x > st.x || st.width == 0 {
        R::spec_combine_horizontal(st.result, drawn, new_width, st.width, new_height)
    } else if x < st.x {
        R::spec_combine_horizontal(drawn, st.result, new_width, width, new_height)
    } else if y > st.y || st.height == 0 {
        R::spec_combine_vertical(st.result, drawn, new_width, st.height, new_height)
    } else if y < st.y {
        R::spec_combine_vertical(drawn, st.result, new_width, height, new_height)
    } else {
        st.result
    };
    DrawState { result, x: new_x, y: new_y, width: new_width, height: new_height }
}

/// The state after the last `k` items have been spliced on, last item first.
pub open spec fn draw_fold<'a, W: Drawable<R>, R: DrawResult>(
    items: Seq<LayoutItem<'a, W>>,
    start: DrawState<R::V>,
    k: int,
) -> DrawState<R::V>
    decreases k,
{
    if k <= 0 || k > items.len() {
        start
    } else {
        draw_step::<W, R>(draw_fold::<W, R>(items, start, k - 1), items[items.len() - k])
    }
}

impl<'a, W> Layout<'a, W> {
    pub open spec fn wf(&self) -> bool {
        &&& self.space.0 <= self.space.2 <= MAX_EXTENT
        &&& self.space.1 <= self.space.3 <= MAX_EXTENT
        &&& self.items@.len() <= MAX_EXTENT
        &&& forall|i: int|
            0 <= i < self.items@.len() ==> #[trigger] self.items@[i].width <= MAX_EXTENT
                && self.items@[i].height <= MAX_EXTENT
    }

    /// An empty layout over a `width` by `height` rectangle.
    pub fn new(width: u32, height: u32) -> (r: Self)
        requires
            width <= MAX_EXTENT,
            height <= MAX_EXTENT,
        ensures
            r.wf(),
            r.items@.len() == 0,
            r.space == (0u32, 0u32, width, height),
    {
        Self { space: (0, 0, width, height), items: Vec::new() }
    }

    /// Carves a strip for `item` off the `align` edge of the remaining space,
    /// sized by the item's minimum (`Shrink`) or maximum (`Grow`) extent along
    /// the carving axis and capped by the space left.
    pub fn add_item<R: View, I, O: View>(self, item: &'a W, align: Align, restriction: Restriction) -> (r: Self)
        where
            W: Widget<R, I, O>,
        requires
            self.wf(),
            self.items@.len() < MAX_EXTENT,
        ensures
            r.wf(),
            ({
                let width = (self.space.2 - self.space.0) as u32;
                let height = (self.space.3 - self.space.1) as u32;
                let rect = item_rect(
                    self.space,
                    item.spec_minimum_size(width, height),
                    item.spec_maximum_size(width, height),
                    align,
                    restriction,
                );
                &&& r.items@.len() == self.items@.len() + 1
                &&& r.items@.take(self.items@.len() as int) == self.items@
                &&& r.items@.last().x == rect.0
                &&& r.items@.last().y == rect.1
                &&& r.items@.last().width == rect.2
                &&& r.items@.last().height == rect.3
                &&& r.items@.last().widget == item
                &&& r.space == shrink_space(self.space, rect.2, rect.3, align)
            }),
    {
        let mut layout = self;
        let expand_horizontal = match align {
            Align::Top | Align::Bottom => true,
            Align::Left | Align::Right => false,
        };
        let width = layout.space.2 - layout.space.0;
        let height = layout.space.3 - layout.space.1;
        let (min_width, min_height) = item.minimum_size(width, height);
        let (max_width, max_height) = item.maximum_size(width, height);
        let (widget_width, widget_height) = if expand_horizontal {
            (
                width,
                match restriction {
                    Restriction::Grow => if max_height < height { max_height } else { height },
                    Restriction::Shrink => if min_height < height { min_height } else { height },
                },
            )
        } else {
            (
                match restriction {
                    Restriction::Grow => if max_width < width { max_width } else { width },
                    Restriction::Shrink => if min_width < width { min_width } else { width },
                },
                height,
            )
        };
        let (widget_x, widget_y) = match align {
            Align::Top | Align::Left => (layout.space.0, layout.space.1),
            Align::Bottom => (layout.space.0, layout.space.3 - widget_height),
            Align::Right => (layout.space.2 - widget_width, layout.space.1),
        };
        let ghost old_items = layout.items@;
        layout.items.push(
            LayoutItem { x: widget_x, y: widget_y, width: widget_width, height: widget_height, widget: item },
        );
        assert(layout.items@.take(old_items.len() as int) =~= old_items);
        assert forall|i: int| 0 <= i < layout.items@.len() implies #[trigger] layout.items@[i].width
            <= MAX_EXTENT && layout.items@[i].height <= MAX_EXTENT by {
            if i < old_items.len() {
                assert(layout.items@[i] == old_items[i]);
            }
        }
        match align {
            Align::Top => {
                layout.space.1 = layout.space.1 + widget_height;
            },
            Align::Bottom => {
                layout.space.3 = layout.space.3 - widget_height;
            },
            Align::Left => {
                layout.space.0 = layout.space.0 + widget_width;
            },
            Align::Right => {
                layout.space.2 = layout.space.2 - widget_width;
            },
        }
        layout
    }

    /// Asks every item how it reacts to `interactions` and concatenates the
    /// reactions in reverse item order, the last item's first.
    pub fn interact<I, O: OutputResult>(self, interactions: &I) -> (r: O)
        where
            W: Interactive<I, O>,
        ensures
            r@ == interact_fold(self.items@, interactions, self.items@.len() as int),
    {
        let mut result = O::empty();
        let mut i: usize = 0;
        while i < self.items.len()
            invariant
                i <= self.items@.len(),
                result@ == interact_fold(self.items@, interactions, i as int),
            decreases self.items@.len() - i,
        {
            let item = &self.items[self.items.len() - 1 - i];
            let reaction = item.widget.interact(interactions, item.x, item.y, item.width, item.height);
            result = result.combine(reaction);
            i = i + 1;
        }
        result
    }

    /// Draws every item at its size and splices the drawings together, last
    /// item first, onto a blank drawing of the remaining space.
    pub fn draw<R: DrawResult>(self) -> (r: R)
        where
            W: Drawable<R>,
        requires
            self.wf(),
            forall|i: int|
                0 <= i < self.items@.len() ==> (#[trigger] self.items@[i]).widget.draw_ready(
                    self.items@[i].width,
                    self.items@[i].height,
                ),
        ensures
            r@ == draw_fold::<W, R>(
                self.items@,
                DrawState {
                    result: R::spec_empty(
                        (self.space.2 - self.space.0) as u32,
                        (self.space.3 - self.space.1) as u32,
                    ),
                    x: self.space.0,
                    y: self.space.1,
                    width: (self.space.2 - self.space.0) as u32,
                    height: (self.space.3 - self.space.1) as u32,
                },
                self.items@.len() as int,
            ).result,
    {
        let ghost items = self.items@;
        let mut x = self.space.0;
        let mut y = self.space.1;
        let mut width = self.space.2 - self.space.0;
        let mut height = self.space.3 - self.space.1;
        let mut result = R::empty(width, height);
        let ghost start = DrawState { result: result@, x, y, width, height };
        let n = self.items.len();
        let mut k: usize = 0;
        while k < n
            invariant
                n == items.len(),
                items == self.items@,
                self.wf(),
                forall|i: int|
                    0 <= i < items.len() ==> (#[trigger] items[i]).widget.draw_ready(
                        items[i].width,
                        items[i].height,
                    ),
                k <= n,
                width <= (k + 1) * MAX_EXTENT,
                height <= (k + 1) * MAX_EXTENT,
                draw_fold::<W, R>(items, start, k as int) == (DrawState { result: result@, x, y, width, height }),
            decreases n - k,
        {
            let item = &self.items[n - 1 - k];
            assert(item.width <= MAX_EXTENT && item.height <= MAX_EXTENT);
            assert((k + 2) * MAX_EXTENT <= u32::MAX) by (nonlinear_arith)
                requires k < n, n <= MAX_EXTENT;
            let new_x = if x < item.x { x } else { item.x };
            let new_y = if y < item.y { y } else { item.y };
            let new_width = if item.x != x || width == 0 { item.width + width } else { item.width };
            let new_height = if item.y != y || height == 0 { item.height + height } else { item.height };
            if item.x > x || width == 0 {
                result = result.combine_horizontal(item.widget.draw(item.width, item.height), new_width, width, new_height);
            } else if item.x < x {
                result = item.widget.draw(item.width, item.height).combine_horizontal(result, new_width, item.width, new_height);
            } else if item.y > y || height == 0 {
                result = result.combine_vertical(item.widget.draw(item.width, item.height), new_width, height, new_height);
            } else if item.y < y {
                result = item.widget.draw(item.width, item.height).combine_vertical(result, new_width, item.height, new_height);
            }
            x = new_x;
            y = new_y;
            width = new_width;
            height = new_height;
            k = k + 1;
        }
        result
    }
}

} // verus!
