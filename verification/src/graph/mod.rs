//! A drawing of traces over time, as SVG text.
//!
//! The numbers of a trace come as texts: whoever draws places each point on the canvas
//! and writes its coordinates; the graph puts the drawing together.

use crate::text::{decimal, to_decimal};
use vstd::prelude::*;
use vstd::string::StringExecFns;

verus! {

/// A drawing, to which traces are added one by one.
pub struct Graph {
    trace_count: usize,
    width: usize,
    height: usize,
    svg: String,
}

/// The most traces that a graph takes: the legend of a further one would lie too far
/// down for the machine to count.
pub open spec fn trace_limit() -> nat {
    ((usize::MAX - 20) / 30) as nat
}

/// The colour of trace number `count`: two colours take turns.
pub open spec fn trace_color(count: nat) -> Seq<char> {
    if count % 2 == 0 {
        "darkseagreen"@
    } else {
        "coral"@
    }
}

/// The opening of a drawing `width` wide and `height` high, with the time axis across
/// its middle.
pub open spec fn opening(width: nat, height: nat) -> Seq<char> {
    "<svg version=\"1.1\" width=\""@ + decimal(width) + "\" height=\""@ + decimal(height)
        + "\" xmlns=\"http://www.w3.org/2000/svg\">"@ + "<path d=\"M0 "@ + decimal(height / 2)
        + " L "@ + decimal(width) + " "@ + decimal(height / 2) + "\" stroke=\"black\"/>"@
}

/// The legend of trace number `count`: a square of its colour, and beside it the label
/// with the range and its unit.
pub open spec fn legend(count: nat, label: Seq<char>, range: Seq<char>, units: Seq<char>) -> Seq<char> {
    "<rect x=\"10\" y=\""@ + decimal(10 + 30 * count) + "\" width=\"20\" height=\"20\" fill=\""@
        + trace_color(count) + "\"/>"@ + "<text x=\"35\" y=\""@ + decimal(20 + 30 * count)
        + "\" fill=\""@ + trace_color(count)
        + "\" text-anchor=\"start\" dominant-baseline=\"middle\" font-family=\"monospace\" font-weight=\"bold\">"@
        + label + " (±"@ + range + units + ")</text>"@
}

/// The path through `points`: a move to the first, then a line to each of the others.
pub open spec fn path_through(points: Seq<(Seq<char>, Seq<char>)>) -> Seq<char>
    decreases points.len(),
{
    if points.len() == 0 {
        Seq::empty()
    } else {
        path_through(points.drop_last()) + (if points.len() == 1 {
            "M"@
        } else {
            "L"@
        }) + points.last().0 + " "@ + points.last().1
    }
}

/// Trace number `count` as it is drawn: its legend and its path.
pub open spec fn trace(
    count: nat,
    points: Seq<(Seq<char>, Seq<char>)>,
    range: Seq<char>,
    label: Seq<char>,
    units: Seq<char>,
) -> Seq<char> {
    legend(count, label, range, units) + "<path d=\""@ + path_through(points) + "\" stroke=\""@
        + trace_color(count) + "\" stroke-width=\"3\" fill=\"transparent\"/>"@
}

/// The coordinates of a list of points.
pub open spec fn point_texts(points: Seq<(String, String)>) -> Seq<(Seq<char>, Seq<char>)> {
    points.map_values(|p: (String, String)| (p.0@, p.1@))
}

impl Graph {
    /// The number of traces drawn.
    pub closed spec fn traces(&self) -> nat {
        self.trace_count as nat
    }

    /// The text of the drawing so far.
    pub closed spec fn text(&self) -> Seq<char> {
        self.svg@
    }

    /// The width and the height of the canvas.
    pub closed spec fn size(&self) -> (nat, nat) {
        (self.width as nat, self.height as nat)
    }

    /// An empty drawing, 1500 wide and 800 high.
    pub fn new() -> (r: Self)
        ensures
            r.traces() == 0,
            r.size() == (1500nat, 800nat),
            r.text() == opening(1500, 800),
    {
        let trace_count: usize = 0;
        let width: usize = 1500;
        let height: usize = 800;
        let mut svg = String::from_str("<svg version=\"1.1\" width=\"");
        svg.append(to_decimal(width).as_str());
        svg.append("\" height=\"");
        svg.append(to_decimal(height).as_str());
        svg.append("\" xmlns=\"http://www.w3.org/2000/svg\">");
        svg.append("<path d=\"M0 ");
        svg.append(to_decimal(height / 2).as_str());
        svg.append(" L ");
        svg.append(to_decimal(width).as_str());
        svg.append(" ");
        svg.append(to_decimal(height / 2).as_str());
        svg.append("\" stroke=\"black\"/>");
        Graph { trace_count, width, height, svg }
    }

    /// The width of the canvas.
    pub fn width(&self) -> (r: usize)
        ensures
            r == self.size().0,
    {
        self.width
    }

    /// The height of the canvas.
    pub fn height(&self) -> (r: usize)
        ensures
            r == self.size().1,
    {
        self.height
    }

    /// The number of traces drawn.
    pub fn trace_count(&self) -> (r: usize)
        ensures
            r == self.traces(),
    {
        self.trace_count
    }

    /// Draws one more trace through `points`, each given by its two coordinates on the
    /// canvas, with `label`, `range` and `units` in its legend.
    pub fn add_trace(&mut self, points: &Vec<(String, String)>, range: &str, label: &str, units: &str)
        requires
            old(self).traces() < trace_limit(),
        ensures
            final(self).traces() == old(self).traces() + 1,
            final(self).size() == old(self).size(),
            final(self).text() == old(self).text() + trace(
                old(self).traces(),
                point_texts(points@),
                range@,
                label@,
                units@,
            ),
    {
        let ghost count = self.trace_count as nat;
        let color = if self.trace_count % 2 == 0 {
            "darkseagreen"
        } else {
            "coral"
        };
        let mut piece = String::from_str("<rect x=\"10\" y=\"");
        piece.append(to_decimal(10 + 30 * self.trace_count).as_str());
        piece.append("\" width=\"20\" height=\"20\" fill=\"");
        piece.append(color);
        piece.append("\"/>");
        piece.append("<text x=\"35\" y=\"");
        piece.append(to_decimal(20 + 30 * self.trace_count).as_str());
        piece.append("\" fill=\"");
        piece.append(color);
        piece.append(
            "\" text-anchor=\"start\" dominant-baseline=\"middle\" font-family=\"monospace\" font-weight=\"bold\">",
        );
        piece.append(label);
        piece.append(" (±");
        piece.append(range);
        piece.append(units);
        piece.append(")</text>");
        assert(piece@ == legend(count, label@, range@, units@));
        piece.append("<path d=\"");

        let mut path = String::new();
        let ghost texts = point_texts(points@);
        let mut i: usize = 0;
        assert(texts.take(0) =~= Seq::<(Seq<char>, Seq<char>)>::empty());
        while i < points.len()
            invariant
                i <= points.len(),
                texts == point_texts(points@),
                path@ == path_through(texts.take(i as int)),
            decreases points.len() - i,
        {
            proof {
                assert(texts.take(i + 1).drop_last() =~= texts.take(i as int));
                assert(texts.take(i + 1).last() == (points[i as int].0@, points[i as int].1@));
            }
            path.append(if i == 0 {
                "M"
            } else {
                "L"
            });
            path.append(points[i].0.as_str());
            path.append(" ");
            path.append(points[i].1.as_str());
            i += 1;
        }
        assert(texts.take(i as int) =~= texts);
        piece.append(path.as_str());
        piece.append("\" stroke=\"");
        piece.append(color);
        piece.append("\" stroke-width=\"3\" fill=\"transparent\"/>");
        assert(piece@ == trace(count, texts, range@, label@, units@));
        self.svg.append(piece.as_str());
        self.trace_count += 1;
    }

    /// The finished drawing.
    pub fn to_svg(self) -> (r: String)
        ensures
            r@ == self.text() + "</svg>"@,
    {
        let mut svg = self.svg;
        svg.append("</svg>");
        svg
    }
}

} // verus!
