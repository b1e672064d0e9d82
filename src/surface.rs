use vstd::prelude::*;
use crate::geometry::{Color, Point};

verus! {

/// A source rectangle inside the sprite sheet.
#[derive(Clone, Copy, Debug, PartialEq, Eq, Structural)]
pub struct FrameRect {
    pub x: u32,
    pub y: u32,
    pub w: u32,
    pub h: u32,
}

/// A rectangle of the drawing surface, in whole pixels.
#[derive(Clone, Copy, Debug, PartialEq, Eq, Structural)]
pub struct ScreenRect {
    pub x: i64,
    pub y: i64,
    pub w: i64,
    pub h: i64,
}

/// One mutation of the drawing surface.
#[derive(Clone, Copy, Debug, PartialEq, Eq, Structural)]
pub enum DrawOp {
    MoveTo(Point),
    BeginPath,
    LineTo(Point),
    ClosePath,
    Stroke,
    SetFillColor(Color),
    Fill,
    ClearRect(ScreenRect),
    /// Copies `src` of the sprite sheet 1:1 with its top left corner at
    /// `(dst_x, dst_y)`.
    DrawImageRegion { src: FrameRect, dst_x: i64, dst_y: i64 },
}

/// A drawing surface that records, in order, every operation issued on it.
/// The host replays the record on its real surface.
pub struct DrawList {
    ops: Vec<DrawOp>,
}

impl View for DrawList {
    type V = Seq<DrawOp>;

    closed spec fn view(&self) -> Seq<DrawOp> {
        self.ops@
    }
}

impl DrawList {
    pub fn new() -> (r: DrawList)
        ensures
            r@ == Seq::<DrawOp>::empty(),
    {
        DrawList { ops: Vec::new() }
    }

    /// The operations recorded so far, oldest first.
    pub fn ops(&self) -> (r: &Vec<DrawOp>)
        ensures
            r@ == self@,
    {
        &self.ops
    }

    pub fn len(&self) -> (r: usize)
        ensures
            r == self@.len(),
    {
        self.ops.len()
    }

    fn record(&mut self, op: DrawOp)
        ensures
            final(self)@ == old(self)@.push(op),
    {
        self.ops.push(op);
    }

    pub fn move_to(&mut self, p: Point)
        ensures
            final(self)@ == old(self)@.push(DrawOp::MoveTo(p)),
    {
        self.record(DrawOp::MoveTo(p));
    }

    pub fn begin_path(&mut self)
        ensures
            final(self)@ == old(self)@.push(DrawOp::BeginPath),
    {
        self.record(DrawOp::BeginPath);
    }

    pub fn line_to(&mut self, p: Point)
        ensures
            final(self)@ == old(self)@.push(DrawOp::LineTo(p)),
    {
        self.record(DrawOp::LineTo(p));
    }

    pub fn close_path(&mut self)
        ensures
            final(self)@ == old(self)@.push(DrawOp::ClosePath),
    {
        self.record(DrawOp::ClosePath);
    }

    pub fn stroke(&mut self)
        ensures
            final(self)@ == old(self)@.push(DrawOp::Stroke),
    {
        self.record(DrawOp::Stroke);
    }

    pub fn set_fill_color(&mut self, c: Color)
        ensures
            final(self)@ == old(self)@.push(DrawOp::SetFillColor(c)),
    {
        self.record(DrawOp::SetFillColor(c));
    }

    pub fn fill(&mut self)
        ensures
            final(self)@ == old(self)@.push(DrawOp::Fill),
    {
        self.record(DrawOp::Fill);
    }

    pub fn clear_rect(&mut self, r: ScreenRect)
        ensures
            final(self)@ == old(self)@.push(DrawOp::ClearRect(r)),
    {
        self.record(DrawOp::ClearRect(r));
    }

    pub fn draw_image_region(&mut self, src: FrameRect, dst_x: i64, dst_y: i64)
        ensures
            final(self)@ == old(self)@.push(DrawOp::DrawImageRegion { src, dst_x, dst_y }),
    {
        self.record(DrawOp::DrawImageRegion { src, dst_x, dst_y });
    }
}

} // verus!
