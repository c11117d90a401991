//! The tessellator: located motions in, the vertex pairs of their segments
//! out.
//!
//! A straight motion is one segment. An arc is drawn as a chain of chords
//! through the points that the caller has laid along it, and the last
//! chord always ends at the end of the arc itself.

use vstd::prelude::*;
use crate::gcode::interpreter::{is_arc, MotionType};

verus! {

/// What a segment is drawn as: part of a rapid motion, or of one at a feed
/// rate.
#[derive(Clone, Copy, Debug, PartialEq, Eq, Structural)]
pub enum SegmentColor {
    Rapid,
    Feed,
}

/// A motion with its points located. `P` is the renderer's point.
#[derive(Debug)]
pub struct Toolpath<P> {
    pub motion_type: MotionType,
    pub start: P,
    pub end: P,
    /// The points along an arc between its two ends, from the start on.
    /// A straight motion has no use for them.
    pub arc: Vec<P>,
}

pub open spec fn color_of(kind: MotionType) -> SegmentColor {
    if kind == MotionType::Rapid {
        SegmentColor::Rapid
    } else {
        SegmentColor::Feed
    }
}

/// The points that a motion is drawn through.
pub open spec fn path_of<P>(toolpath: Toolpath<P>) -> Seq<P> {
    if is_arc(toolpath.motion_type) {
        seq![toolpath.start] + toolpath.arc@ + seq![toolpath.end]
    } else {
        seq![toolpath.start, toolpath.end]
    }
}

/// The segments of a path as vertex pairs: segment `k` runs from point `k`
/// to point `k + 1`.
pub open spec fn segments_of<P>(path: Seq<P>) -> Seq<P> {
    Seq::new((2 * (path.len() - 1)) as nat, |i: int| path[(i + 1) / 2])
}

/// The vertices of the motions, one motion after the other.
pub open spec fn vertices_of<P>(toolpaths: Seq<Toolpath<P>>) -> Seq<P>
    decreases toolpaths.len(),
{
    if toolpaths.len() == 0 {
        Seq::empty()
    } else {
        vertices_of(toolpaths.drop_last()) + segments_of(path_of(toolpaths.last()))
    }
}

/// The colours of the vertices: each motion has one colour for all of its
/// vertices.
pub open spec fn colors_of<P>(toolpaths: Seq<Toolpath<P>>) -> Seq<SegmentColor>
    decreases toolpaths.len(),
{
    if toolpaths.len() == 0 {
        Seq::empty()
    } else {
        let last = toolpaths.last();
        colors_of(toolpaths.drop_last()) + Seq::new(
            segments_of(path_of(last)).len(),
            |i: int| color_of(last.motion_type),
        )
    }
}

/// Flattens motions into line segments: two vertices for each segment, and
/// for each vertex its colour.
pub fn flatten<P: Copy>(toolpaths: &[Toolpath<P>]) -> (out: (Vec<P>, Vec<SegmentColor>))
    ensures
        out.0@ == vertices_of(toolpaths@),
        out.1@ == colors_of(toolpaths@),
{
    let mut vertices: Vec<P> = Vec::new();
    let mut colors: Vec<SegmentColor> = Vec::new();
    let mut n: usize = 0;
    assert(toolpaths@.take(0) =~= Seq::empty());
    while n < toolpaths.len()
        invariant
            0 <= n <= toolpaths.len(),
            vertices@ == vertices_of(toolpaths@.take(n as int)),
            colors@ == colors_of(toolpaths@.take(n as int)),
        decreases toolpaths.len() - n,
    {
        let toolpath = &toolpaths[n];
        let ghost before = vertices@;
        let ghost colors_before = colors@;
        let ghost path = path_of(*toolpath);
        let ghost segments = segments_of(path);
        let color = match toolpath.motion_type {
            MotionType::Rapid => SegmentColor::Rapid,
            _ => SegmentColor::Feed,
        };
        let ghost tint = Seq::new(segments.len(), |i: int| color_of(toolpath.motion_type));
        proof {
            assert(toolpaths@.take(n + 1).drop_last() =~= toolpaths@.take(n as int));
            assert(toolpaths@.take(n + 1).last() == *toolpath);
        }
        match toolpath.motion_type {
            MotionType::Rapid | MotionType::Linear => {
                vertices.push(toolpath.start);
                vertices.push(toolpath.end);
                colors.push(color);
                colors.push(color);
                proof {
                    assert(vertices@ =~= before + segments);
                    assert(colors@ =~= colors_before + tint);
                }
            },
            MotionType::ClockwiseArc | MotionType::CounterClockwiseArc => {
                let mut position = toolpath.start;
                let mut i: usize = 0;
                assert(segments.take(0) =~= Seq::empty());
                assert(tint.take(0) =~= Seq::empty());
                while i < toolpath.arc.len()
                    invariant
                        0 <= i <= toolpath.arc.len(),
                        path == seq![toolpath.start] + toolpath.arc@ + seq![toolpath.end],
                        segments == segments_of(path),
                        tint == Seq::new(segments.len(), |i: int| color_of(toolpath.motion_type)),
                        color == color_of(toolpath.motion_type),
                        position == path[i as int],
                        vertices@ == before + segments.take(2 * i),
                        colors@ == colors_before + tint.take(2 * i),
                    decreases toolpath.arc.len() - i,
                {
                    let next = toolpath.arc[i];
                    vertices.push(position);
                    position = next;
                    vertices.push(position);
                    colors.push(color);
                    colors.push(color);
                    proof {
                        assert(path[i + 1] == next);
                        assert(segments.take(2 * (i + 1)) =~= segments.take(2 * i).push(
                            path[i as int],
                        ).push(path[i + 1]));
                        assert(tint.take(2 * (i + 1)) =~= tint.take(2 * i).push(color).push(color));
                    }
                    i = i + 1;
                }
                // One last segment, which ends where the arc ends.
                vertices.push(position);
                vertices.push(toolpath.end);
                colors.push(color);
                colors.push(color);
                proof {
                    assert(vertices@ =~= before + segments);
                    assert(colors@ =~= colors_before + tint);
                }
            },
        }
        n = n + 1;
    }
    assert(toolpaths@.take(n as int) =~= toolpaths@);
    (vertices, colors)
}

/// Of the segments of one motion: there is at least one; they are as many
/// as the points between the ends of an arc, and one; the first starts
/// where the motion starts, each starts where the one before it ends, and
/// the last ends where the motion ends.
pub proof fn lemma_segments<P>(toolpath: Toolpath<P>)
    ensures
        ({
            let segments = segments_of(path_of(toolpath));
            &&& segments.len() == if is_arc(toolpath.motion_type) {
                2 * (toolpath.arc@.len() + 1)
            } else {
                2
            }
            &&& segments.first() == toolpath.start
            &&& segments.last() == toolpath.end
            &&& forall|k: int|
                0 < k && 2 * k < segments.len() ==> segments[2 * k] == #[trigger] segments[2 * k - 1]
        }),
{
    let path = path_of(toolpath);
    let segments = segments_of(path);
    assert(path.last() == toolpath.end);
}

/// Vertices and colours pair one to one, and the vertices pair into
/// segments.
pub proof fn lemma_flatten_pairs<P>(toolpaths: Seq<Toolpath<P>>)
    ensures
        vertices_of(toolpaths).len() == colors_of(toolpaths).len(),
        vertices_of(toolpaths).len() % 2 == 0,
        vertices_of(toolpaths).len() >= 2 * toolpaths.len(),
    decreases toolpaths.len(),
{
    if toolpaths.len() > 0 {
        lemma_flatten_pairs(toolpaths.drop_last());
        lemma_segments(toolpaths.last());
    }
}

} // verus!
