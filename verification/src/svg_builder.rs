//! A renderer that draws into an SVG document.

use crate::rendering::renderer::{point_views, DrawCall, Renderer};
use crate::text::{decimal, push_decimal};
use svg::node::element::path::Data;
use svg::node::element::{Definitions, Marker, Path, Rectangle, Text, SVG};
use vstd::prelude::*;
use vstd::string::StringSliceAdditionalSpecFns;

verus! {

/// The path data of the `svg` crate; nothing is known of its content.
#[verifier::external_type_specification]
#[verifier::external_body]
pub struct ExData(svg::node::element::path::Data);

/// The path commands of the `svg` crate, which path data are made of;
/// nothing is known of their content.
#[verifier::external_type_specification]
#[verifier::external_body]
pub struct ExCommand(svg::node::element::path::Command);

/// The `path` element of the `svg` crate; nothing is known of its content.
#[verifier::external_type_specification]
#[verifier::external_body]
pub struct ExPath(svg::node::element::Path);

/// The `marker` element of the `svg` crate; nothing is known of its content.
#[verifier::external_type_specification]
#[verifier::external_body]
pub struct ExMarker(svg::node::element::Marker);

/// The `defs` element of the `svg` crate; nothing is known of its content.
#[verifier::external_type_specification]
#[verifier::external_body]
pub struct ExDefinitions(svg::node::element::Definitions);

/// The `rect` element of the `svg` crate; nothing is known of its content.
#[verifier::external_type_specification]
#[verifier::external_body]
pub struct ExRectangle(svg::node::element::Rectangle);

/// The `text` element of the `svg` crate; nothing is known of its content.
#[verifier::external_type_specification]
#[verifier::external_body]
pub struct ExText(svg::node::element::Text);

/// The text node of the `svg` crate; nothing is known of its content.
#[verifier::external_type_specification]
#[verifier::external_body]
pub struct ExTextNode(svg::node::Text);

/// The `svg` element of the `svg` crate, its document; nothing is known of
/// its content.
#[verifier::external_type_specification]
#[verifier::external_body]
pub struct ExDocument(svg::node::element::SVG);

// The text that an element of the `svg` crate is displayed as. It depends
// on the tag of the element, on its attributes and on the texts of its
// children alone.
pub uninterp spec fn element_text(
    name: Seq<char>,
    attributes: Map<Seq<char>, Seq<char>>,
    children: Seq<Seq<char>>,
) -> Seq<char>;

// The text that path data of the `svg` crate hold: the value that they give
// to an attribute.
pub uninterp spec fn data_text(data: Data) -> Seq<char>;

// The text of path data after a move to a point was added to data of the
// given text.
pub uninterp spec fn moved_to(text: Seq<char>, x: u32, y: u32) -> Seq<char>;

// The text of path data after a line to a point was added to data of the
// given text.
pub uninterp spec fn lined_to(text: Seq<char>, x: u32, y: u32) -> Seq<char>;

// The text of path data after the path was closed in data of the given text.
pub uninterp spec fn closed(text: Seq<char>) -> Seq<char>;

// The attributes that a `path` element holds, each name with its value.
pub uninterp spec fn path_attributes(path: Path) -> Map<Seq<char>, Seq<char>>;

// The texts of the children that a `path` element holds, in order.
pub uninterp spec fn path_children(path: Path) -> Seq<Seq<char>>;

// The attributes that a `marker` element holds, each name with its value.
pub uninterp spec fn marker_attributes(marker: Marker) -> Map<Seq<char>, Seq<char>>;

// The texts of the children that a `marker` element holds, in order.
pub uninterp spec fn marker_children(marker: Marker) -> Seq<Seq<char>>;

// The attributes that a `defs` element holds, each name with its value.
pub uninterp spec fn definitions_attributes(definitions: Definitions) -> Map<Seq<char>, Seq<char>>;

// The texts of the children that a `defs` element holds, in order.
pub uninterp spec fn definitions_children(definitions: Definitions) -> Seq<Seq<char>>;

// The attributes that a document holds, each name with its value.
pub uninterp spec fn document_attributes(document: SVG) -> Map<Seq<char>, Seq<char>>;

// The texts of the children that a document holds, in order.
pub uninterp spec fn document_children(document: SVG) -> Seq<Seq<char>>;

/// The attributes of an element that holds none.
pub open spec fn no_attributes() -> Map<Seq<char>, Seq<char>> {
    Map::empty()
}

/// The children of an element that holds none.
pub open spec fn no_children() -> Seq<Seq<char>> {
    Seq::empty()
}

/// `Data::new` of the `svg` crate: the data hold no command, so their text
/// is empty.
#[verifier::external_body]
fn data_new() -> (data: Data)
    ensures
        data_text(data) == Seq::<char>::empty(),
{
    Data::new()
}

/// `Data::move_to` of the `svg` crate, with a point as its parameters: the
/// data hold one command more, and their text follows from the text before
/// and the point.
#[verifier::external_body]
fn data_move_to(data: Data, x: u32, y: u32) -> (moved: Data)
    ensures
        data_text(moved) == moved_to(data_text(data), x, y),
{
    data.move_to((x, y))
}

/// `Data::line_to` of the `svg` crate, with a point as its parameters: the
/// data hold one command more, and their text follows from the text before
/// and the point.
#[verifier::external_body]
fn data_line_to(data: Data, x: u32, y: u32) -> (lined: Data)
    ensures
        data_text(lined) == lined_to(data_text(data), x, y),
{
    data.line_to((x, y))
}

/// `Data::close` of the `svg` crate: the data hold one command more, and
/// their text follows from the text before.
#[verifier::external_body]
fn data_close(data: Data) -> (done: Data)
    ensures
        data_text(done) == closed(data_text(data)),
{
    data.close()
}

/// `Path::new` of the `svg` crate: the element holds no attribute and no
/// child.
#[verifier::external_body]
fn path_new() -> (path: Path)
    ensures
        path_attributes(path) == no_attributes(),
        path_children(path) == no_children(),
{
    Path::new()
}

/// `Path::set` of the `svg` crate, with a text as the value: the element
/// holds the value under the name, and is otherwise as before.
#[verifier::external_body]
fn path_set(path: Path, name: &str, value: &str) -> (changed: Path)
    ensures
        path_attributes(changed) == path_attributes(path).insert(name@, value@),
        path_children(changed) == path_children(path),
{
    path.set(name, value)
}

/// `Path::set` of the `svg` crate, with path data as the value: the element
/// holds the text of the data under the name, and is otherwise as before.
#[verifier::external_body]
fn path_set_data(path: Path, name: &str, data: Data) -> (changed: Path)
    ensures
        path_attributes(changed) == path_attributes(path).insert(name@, data_text(data)),
        path_children(changed) == path_children(path),
{
    path.set(name, data)
}

/// `Marker::new` of the `svg` crate: the element holds no attribute and no
/// child.
#[verifier::external_body]
fn marker_new() -> (marker: Marker)
    ensures
        marker_attributes(marker) == no_attributes(),
        marker_children(marker) == no_children(),
{
    Marker::new()
}

/// `Marker::set` of the `svg` crate, with a text as the value: the element
/// holds the value under the name, and is otherwise as before.
#[verifier::external_body]
fn marker_set(marker: Marker, name: &str, value: &str) -> (changed: Marker)
    ensures
        marker_attributes(changed) == marker_attributes(marker).insert(name@, value@),
        marker_children(changed) == marker_children(marker),
{
    marker.set(name, value)
}

/// `Marker::add` of the `svg` crate, with a path as the child: the element
/// holds the path, which is displayed as a `path` element, as its last
/// child, and is otherwise as before.
#[verifier::external_body]
fn marker_add(marker: Marker, path: Path) -> (changed: Marker)
    ensures
        marker_attributes(changed) == marker_attributes(marker),
        marker_children(changed) == marker_children(marker).push(
            element_text("path"@, path_attributes(path), path_children(path)),
        ),
{
    marker.add(path)
}

/// `Definitions::new` of the `svg` crate: the element holds no attribute and
/// no child.
#[verifier::external_body]
fn definitions_new() -> (definitions: Definitions)
    ensures
        definitions_attributes(definitions) == no_attributes(),
        definitions_children(definitions) == no_children(),
{
    Definitions::new()
}

/// `Definitions::add` of the `svg` crate, with a marker as the child: the
/// element holds the marker, which is displayed as a `marker` element, as
/// its last child, and is otherwise as before.
#[verifier::external_body]
fn definitions_add(definitions: Definitions, marker: Marker) -> (changed: Definitions)
    ensures
        definitions_attributes(changed) == definitions_attributes(definitions),
        definitions_children(changed) == definitions_children(definitions).push(
            element_text("marker"@, marker_attributes(marker), marker_children(marker)),
        ),
{
    definitions.add(marker)
}

/// `Rectangle::new` of the `svg` crate. Nothing is claimed of the element
/// returned.
#[verifier::external_body]
fn rectangle_new() -> Rectangle {
    Rectangle::new()
}

/// `Rectangle::set` of the `svg` crate, with a text as the value. Nothing is
/// claimed of the element returned.
#[verifier::external_body]
fn rectangle_set(rectangle: Rectangle, name: &str, value: &str) -> Rectangle {
    rectangle.set(name, value)
}

/// `Text::new` of the `svg` crate's elements. Nothing is claimed of the
/// element returned.
#[verifier::external_body]
fn text_new() -> Text {
    Text::new()
}

/// `Text::set` of the `svg` crate's elements, with a text as the value.
/// Nothing is claimed of the element returned.
#[verifier::external_body]
fn text_set(text: Text, name: &str, value: &str) -> Text {
    text.set(name, value)
}

/// `Text::add` of the `svg` crate's elements, with a text node as the
/// child. Nothing is claimed of the element returned.
#[verifier::external_body]
fn text_add(text: Text, content: svg::node::Text) -> Text {
    text.add(content)
}

/// `Text::new` of the `svg` crate's nodes. Nothing is claimed of the node
/// returned.
#[verifier::external_body]
fn text_node_new(content: &str) -> svg::node::Text {
    svg::node::Text::new(content)
}

/// `SVG::new` of the `svg` crate. Nothing is claimed of the document returned.
#[verifier::external_body]
fn document_new() -> SVG {
    SVG::new()
}

/// `SVG::add` of the `svg` crate, with definitions as the child. Nothing is
/// claimed of the document returned.
#[verifier::external_body]
fn document_add(document: SVG, definitions: Definitions) -> SVG {
    document.add(definitions)
}

/// `Node::assign` of the `svg` crate on a document, with a text as the
/// value. Nothing is claimed of the document afterwards.
#[verifier::external_body]
fn document_assign(document: &mut SVG, name: &str, value: &str) {
    svg::Node::assign(document, name, value);
}

/// `Node::append` of the `svg` crate on a document, with a path as the
/// child. Nothing is claimed of the document afterwards.
#[verifier::external_body]
fn document_append_path(document: &mut SVG, path: Path) {
    svg::Node::append(document, path);
}

/// `Node::append` of the `svg` crate on a document, with a rectangle as the
/// child. Nothing is claimed of the document afterwards.
#[verifier::external_body]
fn document_append_rectangle(document: &mut SVG, rectangle: Rectangle) {
    svg::Node::append(document, rectangle);
}

/// `Node::append` of the `svg` crate on a document, with a text element as
/// the child. Nothing is claimed of the document afterwards.
#[verifier::external_body]
fn document_append_text(document: &mut SVG, text: Text) {
    svg::Node::append(document, text);
}

/// The `Display` of a document of the `svg` crate, through `to_string`: the
/// text of an `svg` element with the attributes and the children that the
/// document holds.
#[verifier::external_body]
fn document_to_string(document: &SVG) -> (text: String)
    ensures
        text@ == element_text("svg"@, document_attributes(*document), document_children(*document)),
{
    document.to_string()
}

/// The number nearest to `value` that `u32` can hold.
pub open spec fn clipped(value: int) -> u32 {
    if value > u32::MAX {
        u32::MAX
    } else if value < 0 {
        0
    } else {
        value as u32
    }
}

/// The width of the box around a text of `bytes` bytes: half the font size
/// for every byte, and the padding on both sides.
pub open spec fn text_width(bytes: nat, font_size: u32, text_padding: u32) -> u32 {
    clipped(bytes * (font_size / 2) + 2 * text_padding)
}

/// The height of the box around a text: twice the font size.
pub open spec fn text_height(font_size: u32) -> u32 {
    clipped(2 * font_size)
}

/// The box around a technology whose name has `bytes` bytes and whose centre
/// is the point: its left edge, its upper edge, its width and its height.
pub open spec fn box_at(font_size: u32, text_padding: u32, bytes: nat, x: u32, y: u32) -> (
    u32,
    u32,
    u32,
    u32,
) {
    let width = text_width(bytes, font_size, text_padding);
    (clipped(x - width / 2), clipped(y - font_size), width, text_height(font_size))
}

/// The point at which the name of a technology is written: a third of the
/// font size below the centre of its box.
pub open spec fn label_at(font_size: u32, x: u32, y: u32) -> (u32, u32) {
    (x, clipped(y + font_size / 3))
}

/// The path data of the arrow head: a triangle that points to the right.
pub open spec fn arrow_head_data() -> Seq<char> {
    closed(lined_to(lined_to(moved_to(Seq::empty(), 0, 0), 10, 7), 0, 14))
}

/// The text of the marker that links end in: a black arrow head, called
/// `head`, that turns with its link.
pub open spec fn arrow_head() -> Seq<char> {
    element_text(
        "marker"@,
        no_attributes().insert("id"@, "head"@).insert(
            "viewBox"@,
            "0 0 10 10"@,
        ).insert("orient"@, "auto"@).insert("refX"@, "1"@).insert("refY"@, "7"@),
        seq![
            element_text(
                "path"@,
                no_attributes().insert("fill"@, "black"@).insert(
                    "d"@,
                    arrow_head_data(),
                ),
                Seq::empty(),
            ),
        ],
    )
}

/// Draws technologies as boxes with their names and links as arrows into
/// an SVG document. Lengths that `u32` cannot hold are clipped.
pub struct SvgBuilder {
    document: SVG,
    font_size: u32,
    text_padding: u32,
    calls: Ghost<Seq<DrawCall>>,
}

/// The mathematical content of an [`SvgBuilder`].
pub struct SvgBuilderView {
    pub font_size: u32,
    pub text_padding: u32,
    pub calls: Seq<DrawCall>,
}

impl View for SvgBuilder {
    type V = SvgBuilderView;

    closed spec fn view(&self) -> SvgBuilderView {
        SvgBuilderView {
            font_size: self.font_size,
            text_padding: self.text_padding,
            calls: self.calls@,
        }
    }
}

fn number(value: u32) -> (text: String)
    ensures
        text@ == decimal(value as nat),
{
    let mut text = String::new();
    push_decimal(&mut text, value as usize);
    text
}

impl SvgBuilder {
    /// The attributes of the document, each name with its value.
    pub closed spec fn attributes(&self) -> Map<Seq<char>, Seq<char>> {
        document_attributes(self.document)
    }

    /// The texts of the elements of the document, in order.
    pub closed spec fn children(&self) -> Seq<Seq<char>> {
        document_children(self.document)
    }

    /// A builder with an empty picture.
    pub fn new(font_size: u32, text_padding: u32) -> (builder: Self)
        ensures
            builder@ == (SvgBuilderView { font_size, text_padding, calls: Seq::empty() }),
    {
        Self {
            document: document_add(document_new(), Self::create_definitions()),
            font_size,
            text_padding,
            calls: Ghost(Seq::empty()),
        }
    }

    fn create_definitions() -> (definitions: Definitions)
        ensures
            definitions_attributes(definitions) == no_attributes(),
            definitions_children(definitions) == seq![arrow_head()],
    {
        let arrow_head_data = data_close(
            data_line_to(data_line_to(data_move_to(data_new(), 0, 0), 10, 7), 0, 14),
        );
        let arrow_head_path = path_set_data(
            path_set(path_new(), "fill", "black"),
            "d",
            arrow_head_data,
        );
        let mut arrow_head = marker_set(marker_new(), "id", "head");
        arrow_head = marker_set(arrow_head, "viewBox", "0 0 10 10");
        arrow_head = marker_set(arrow_head, "orient", "auto");
        arrow_head = marker_set(arrow_head, "refX", "1");
        arrow_head = marker_set(arrow_head, "refY", "7");
        arrow_head = marker_add(arrow_head, arrow_head_path);
        definitions_add(definitions_new(), arrow_head)
    }

    fn get_text_width(&self, text: &str) -> (width: u32)
        ensures
            width == text_width(text.spec_bytes().len(), self@.font_size, self@.text_padding),
    {
        let font_width = self.font_size / 2;
        let length = text.as_bytes().len();
        assert(length * font_width <= 0xffff_ffff_ffff_ffff * 0xffff_ffff) by (nonlinear_arith)
            requires
                0 <= length <= 0xffff_ffff_ffff_ffff,
                0 <= font_width <= 0xffff_ffff,
        ;
        let width: u128 = (length as u128) * (font_width as u128) + 2 * (self.text_padding as u128);
        if width > u32::MAX as u128 {
            u32::MAX
        } else {
            width as u32
        }
    }

    fn get_text_height(&self) -> (height: u32)
        ensures
            height == text_height(self@.font_size),
    {
        self.font_size.saturating_add(self.font_size)
    }

    fn get_box(&self, text: &str, x: u32, y: u32) -> (edges: (u32, u32, u32, u32))
        ensures
            edges == box_at(self@.font_size, self@.text_padding, text.spec_bytes().len(), x, y),
    {
        let width = self.get_text_width(text);
        let width_half = width / 2;
        (
            x.saturating_sub(width_half),
            y.saturating_sub(self.font_size),
            width,
            self.get_text_height(),
        )
    }

    fn get_label(&self, x: u32, y: u32) -> (point: (u32, u32))
        ensures
            point == label_at(self@.font_size, x, y),
    {
        let text_offset = self.font_size / 3;
        (x, y.saturating_add(text_offset))
    }

    /// The document as SVG text: the text of an `svg` element with the
    /// attributes and the children of the document.
    pub fn export_as_string(&self) -> (text: String)
        ensures
            text@ == element_text("svg"@, self.attributes(), self.children()),
    {
        document_to_string(&self.document)
    }
}

impl Renderer for SvgBuilder {
    closed spec fn calls(&self) -> Seq<DrawCall> {
        self.calls@
    }

    open spec fn size_of(&self, text: Seq<char>) -> (u32, u32) {
        (
            text_width(vstd::utf8::encode_utf8(text).len(), self@.font_size, self@.text_padding),
            text_height(self@.font_size),
        )
    }

    fn init(&mut self, width: u32, height: u32)
        ensures
            final(self)@.font_size == old(self)@.font_size,
            final(self)@.text_padding == old(self)@.text_padding,
    {
        let mut view_box = "0 0 ".to_owned();
        push_decimal(&mut view_box, width as usize);
        view_box.push(' ');
        push_decimal(&mut view_box, height as usize);
        document_assign(&mut self.document, "viewBox", view_box.as_str());
        self.calls = Ghost(
            self.calls@.push(DrawCall::Init { width: width as int, height: height as int }),
        );
    }

    fn render_link(&mut self, points: Vec<(u32, u32)>)
        ensures
            final(self)@.font_size == old(self)@.font_size,
            final(self)@.text_padding == old(self)@.text_padding,
    {
        if points.len() > 0 {
            let mut arrow_data = data_move_to(data_new(), points[0].0, points[0].1);
            let mut i: usize = 1;
            while i < points.len()
                invariant
                    1 <= i <= points.len(),
                decreases points.len() - i,
            {
                arrow_data = data_line_to(arrow_data, points[i].0, points[i].1);
                i = i + 1;
            }
            let mut arrow_path = path_set(path_new(), "marker-end", "url(#head)");
            arrow_path = path_set(arrow_path, "fill", "none");
            arrow_path = path_set(arrow_path, "stroke", "black");
            arrow_path = path_set(arrow_path, "stroke-width", "1");
            arrow_path = path_set_data(arrow_path, "d", arrow_data);
            document_append_path(&mut self.document, arrow_path);
        }
        self.calls = Ghost(self.calls@.push(DrawCall::Link { points: point_views(points@) }));
    }

    fn render_technology(&mut self, text: &str, x: u32, y: u32)
        ensures
            final(self)@.font_size == old(self)@.font_size,
            final(self)@.text_padding == old(self)@.text_padding,
    {
        let (left, top, width, height) = self.get_box(text, x, y);
        let mut box_node = rectangle_set(rectangle_new(), "x", number(left).as_str());
        box_node = rectangle_set(box_node, "y", number(top).as_str());
        box_node = rectangle_set(box_node, "width", number(width).as_str());
        box_node = rectangle_set(box_node, "height", number(height).as_str());
        box_node = rectangle_set(box_node, "fill", "#4fc3ff");
        box_node = rectangle_set(box_node, "stroke", "black");
        box_node = rectangle_set(box_node, "stroke-width", "1");

        let text_element = text_node_new(text);

        let (label_x, label_y) = self.get_label(x, y);
        let mut text_node = text_set(text_new(), "x", number(label_x).as_str());
        text_node = text_set(text_node, "y", number(label_y).as_str());
        text_node = text_set(text_node, "font-size", number(self.font_size).as_str());
        text_node = text_set(text_node, "text-anchor", "middle");
        text_node = text_add(text_node, text_element);

        document_append_rectangle(&mut self.document, box_node);
        document_append_text(&mut self.document, text_node);
        self.calls = Ghost(
            self.calls@.push(DrawCall::Technology { text: text@, x: x as int, y: y as int }),
        );
    }

    fn get_size_of_technology(&self, text: &str) -> (size: (u32, u32)) {
        (self.get_text_width(text), self.get_text_height())
    }
}

} // verus!
