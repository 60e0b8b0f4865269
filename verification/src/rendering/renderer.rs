use vstd::prelude::*;

verus! {

/// One request to a renderer.
pub enum DrawCall {
    /// The picture is to be `width` wide and `height` high.
    Init { width: int, height: int },
    /// A link is to run through the points.
    Link { points: Seq<(int, int)> },
    /// The technology called `text` is to be drawn around the point.
    Technology { text: Seq<char>, x: int, y: int },
}

/// The points of a list, as pairs of integers.
pub open spec fn point_views(points: Seq<(u32, u32)>) -> Seq<(int, int)> {
    Seq::new(points.len(), |i: int| (points[i].0 as int, points[i].1 as int))
}

/// What a tree is drawn with.
///
/// Two specification functions describe an implementation to its callers:
/// `size_of` says how large it draws a text, and `calls` lists what it has
/// been asked to draw. The contracts of the methods are stated over them, and
/// a verified implementation defines both so that its methods keep the
/// contracts. The defaults are there for implementations outside verified
/// code, which cannot define a specification function.
pub trait Renderer {
    /// The requests made so far, in order.
    open spec fn calls(&self) -> Seq<DrawCall> {
        Seq::empty()
    }

    /// The width and the height at which the renderer draws `text`.
    open spec fn size_of(&self, text: Seq<char>) -> (u32, u32) {
        (0, 0)
    }

    /// Initializes the render target.
    fn init(&mut self, width: u32, height: u32)
        ensures
            final(self).calls() == old(self).calls().push(
                DrawCall::Init { width: width as int, height: height as int },
            ),
    ;

    /// Renders a link between 2 technologies.
    fn render_link(&mut self, points: Vec<(u32, u32)>)
        ensures
            final(self).calls() == old(self).calls().push(
                DrawCall::Link { points: point_views(points@) },
            ),
    ;

    /// Renders a technology.
    fn render_technology(&mut self, text: &str, x: u32, y: u32)
        ensures
            final(self).calls() == old(self).calls().push(
                DrawCall::Technology { text: text@, x: x as int, y: y as int },
            ),
    ;

    /// Returns the size of a technology. Needed for calculating the layout.
    fn get_size_of_technology(&self, text: &str) -> (size: (u32, u32))
        ensures
            size == self.size_of(text@),
    ;
}

} // verus!
