//! Writes a drawing as SVG markup.
//!
//! The elements are composed and serialised by the `svg` crate. What that
//! crate does is not proved here: the statements about it below are taken
//! from its source and believed. Everything that is handed to it (which
//! elements, which attributes, which values, in which order) is computed by
//! verified code.

use vstd::prelude::*;
use svg::node::element::Element;
use crate::render::{
    marker_primitive_views, region_primitive_views, ring_views, DocumentView, MarkerPrimitive,
    MarkerPrimitiveView, RegionPrimitive, RegionPrimitiveView, RenderedDocument,
};
use crate::prefix::lemma_take_step;
use crate::text::{decimal, format_decimal, format_hundredths, hundredths, push_char, push_decimal, push_hundredths};
use crate::transform::CanvasPoint;

verus! {

/// An element of the `svg` crate: a tag name, attributes and child nodes.
#[verifier::external_type_specification]
#[verifier::external_body]
pub struct ExElement(svg::node::element::Element);

/// The tag name of an element.
pub uninterp spec fn element_name(element: Element) -> Seq<char>;

/// The attributes of an element, by name.
pub uninterp spec fn element_attributes(element: Element) -> Map<Seq<char>, Seq<char>>;

/// The markup of each child of an element whose children are all elements,
/// in order.
pub uninterp spec fn element_children(element: Element) -> Seq<Seq<char>>;

/// What `Element`'s `Display` writes for an element with the given tag
/// name, attributes and child elements: the opening tag with the attributes
/// sorted by name and their values escaped, then each child on a line of its
/// own, then the closing tag.
pub uninterp spec fn element_markup(
    name: Seq<char>,
    attributes: Map<Seq<char>, Seq<char>>,
    children: Seq<Seq<char>>,
) -> Seq<char>;

/// The empty attribute list.
pub open spec fn no_attributes() -> Map<Seq<char>, Seq<char>> {
    Map::empty()
}

/// The empty list of children.
pub open spec fn no_children() -> Seq<Seq<char>> {
    Seq::empty()
}

/// `svg::Document::new`, taken as a plain element: an `svg` element that
/// carries the SVG namespace and has no children.
#[verifier::external_body]
fn new_document() -> (element: Element)
    ensures
        element_name(element) == "svg"@,
        element_attributes(element) == no_attributes().insert(
            "xmlns"@,
            "http://www.w3.org/2000/svg"@,
        ),
        element_children(element) == no_children(),
{
    svg::Document::new().into()
}

/// `svg::node::element::Group::new`, taken as a plain element: a `g`
/// element without attributes or children.
#[verifier::external_body]
fn new_group() -> (element: Element)
    ensures
        element_name(element) == "g"@,
        element_attributes(element) == no_attributes(),
        element_children(element) == no_children(),
{
    svg::node::element::Group::new().into()
}

/// `svg::node::element::Path::new`, taken as a plain element: a `path`
/// element without attributes or children.
#[verifier::external_body]
fn new_path() -> (element: Element)
    ensures
        element_name(element) == "path"@,
        element_attributes(element) == no_attributes(),
        element_children(element) == no_children(),
{
    svg::node::element::Path::new().into()
}

/// `svg::node::element::Circle::new`, taken as a plain element: a `circle`
/// element without attributes or children.
#[verifier::external_body]
fn new_circle() -> (element: Element)
    ensures
        element_name(element) == "circle"@,
        element_attributes(element) == no_attributes(),
        element_children(element) == no_children(),
{
    svg::node::element::Circle::new().into()
}

/// `svg::Node::assign` on an element: the attribute is set to the value,
/// replacing an earlier value of the same name; nothing else changes.
#[verifier::external_body]
fn assign(element: &mut Element, name: &str, value: &str)
    ensures
        element_name(*final(element)) == element_name(*old(element)),
        element_attributes(*final(element)) == element_attributes(*old(element)).insert(
            name@,
            value@,
        ),
        element_children(*final(element)) == element_children(*old(element)),
{
    svg::Node::assign(element, name, value)
}

/// `svg::Node::append` on an element: the child becomes the last child;
/// nothing else changes.
#[verifier::external_body]
fn append(element: &mut Element, child: Element)
    ensures
        element_name(*final(element)) == element_name(*old(element)),
        element_attributes(*final(element)) == element_attributes(*old(element)),
        element_children(*final(element)) == element_children(*old(element)).push(
            element_markup(
                element_name(child),
                element_attributes(child),
                element_children(child),
            ),
        ),
{
    svg::Node::append(element, child)
}

/// `to_string` on an element, which goes through the element's `Display`.
#[verifier::external_body]
fn markup_of(element: &Element) -> (text: String)
    ensures
        text@ == element_markup(
            element_name(*element),
            element_attributes(*element),
            element_children(*element),
        ),
{
    element.to_string()
}

/// A canvas position as text: both coordinates with two decimals, a space
/// between them.
pub open spec fn position_text(p: CanvasPoint) -> Seq<char> {
    hundredths(p.x as int) + seq![' '] + hundredths(p.y as int)
}

/// The path commands that visit the points of a ring: a move to the first
/// point and a line to each later one, each followed by a space.
pub open spec fn ring_segments(ring: Seq<CanvasPoint>) -> Seq<char>
    decreases ring.len(),
{
    if ring.len() == 0 {
        Seq::empty()
    } else {
        ring_segments(ring.drop_last()) + seq![
            if ring.len() == 1 {
                'M'
            } else {
                'L'
            },
            ' ',
        ] + position_text(ring.last()) + seq![' ']
    }
}

/// The closed path of a ring.
pub open spec fn ring_path(ring: Seq<CanvasPoint>) -> Seq<char> {
    ring_segments(ring).push('Z')
}

/// The path data of a shape: the closed paths of its rings, separated by
/// spaces.
pub open spec fn path_data(rings: Seq<Seq<CanvasPoint>>) -> Seq<char>
    decreases rings.len(),
{
    if rings.len() == 0 {
        Seq::empty()
    } else if rings.len() == 1 {
        ring_path(rings.last())
    } else {
        path_data(rings.drop_last()).push(' ') + ring_path(rings.last())
    }
}

/// The attributes of the path of a region.
pub open spec fn path_attributes(region: RegionPrimitiveView) -> Map<Seq<char>, Seq<char>> {
    no_attributes().insert("d"@, path_data(region.rings)).insert(
        "fill"@,
        region.style.fill_color,
    ).insert("stroke"@, region.style.stroke_color).insert(
        "stroke-width"@,
        decimal(region.style.stroke_width as nat),
    )
}

/// The markup of a region: a group labelled with the category that holds
/// the path.
pub open spec fn region_markup(region: RegionPrimitiveView) -> Seq<char> {
    element_markup(
        "g"@,
        no_attributes().insert("class"@, region.category),
        seq![element_markup("path"@, path_attributes(region), no_children())],
    )
}

/// The attributes of the circle of a marker.
pub open spec fn circle_attributes(marker: MarkerPrimitiveView) -> Map<Seq<char>, Seq<char>> {
    no_attributes().insert("cx"@, hundredths(marker.center.x as int)).insert(
        "cy"@,
        hundredths(marker.center.y as int),
    ).insert("r"@, decimal(marker.style.radius as nat)).insert(
        "fill"@,
        marker.style.fill_color,
    ).insert("stroke"@, "black"@)
}

/// The markup of a marker: a filled circle with a black outline.
pub open spec fn marker_markup(marker: MarkerPrimitiveView) -> Seq<char> {
    element_markup("circle"@, circle_attributes(marker), no_children())
}

/// The value of the `viewBox` attribute: the canvas from the origin.
pub open spec fn view_box(width: int, height: int) -> Seq<char> {
    seq!['0', ' ', '0', ' '] + decimal(width as nat) + seq![' '] + decimal(height as nat)
}

/// The attributes of the root element.
pub open spec fn document_attributes(width: int, height: int) -> Map<Seq<char>, Seq<char>> {
    no_attributes().insert("xmlns"@, "http://www.w3.org/2000/svg"@).insert(
        "viewBox"@,
        view_box(width, height),
    ).insert("width"@, "100%"@).insert("height"@, "100%"@)
}

/// The markup of the regions, in order.
pub open spec fn region_markups(regions: Seq<RegionPrimitiveView>) -> Seq<Seq<char>> {
    regions.map_values(|r: RegionPrimitiveView| region_markup(r))
}

/// The markup of the markers, in order.
pub open spec fn marker_markups(markers: Seq<MarkerPrimitiveView>) -> Seq<Seq<char>> {
    markers.map_values(|m: MarkerPrimitiveView| marker_markup(m))
}

/// The markup of a drawing: one root element the size of the canvas, with
/// the regions and then the markers as its children.
pub open spec fn document_markup(document: DocumentView) -> Seq<char> {
    element_markup(
        "svg"@,
        document_attributes(document.width, document.height),
        region_markups(document.regions) + marker_markups(document.markers),
    )
}

/// Appends a canvas position to `text`.
pub fn push_position(text: &mut String, p: CanvasPoint)
    ensures
        final(text)@ == old(text)@ + position_text(p),
{
    push_hundredths(text, p.x);
    push_char(text, ' ');
    push_hundredths(text, p.y);
    assert(text@ =~= old(text)@ + position_text(p));
}

/// Appends the closed path of a ring to `text`.
pub fn push_ring_path(text: &mut String, ring: &Vec<CanvasPoint>)
    ensures
        final(text)@ == old(text)@ + ring_path(ring@),
{
    let mut k: usize = 0;
    while k < ring.len()
        invariant
            k <= ring.len(),
            text@ == old(text)@ + ring_segments(ring@.take(k as int)),
        decreases ring.len() - k,
    {
        push_char(
            text,
            if k == 0 {
                'M'
            } else {
                'L'
            },
        );
        push_char(text, ' ');
        push_position(text, ring[k]);
        push_char(text, ' ');
        proof {
            lemma_take_step(ring@, k as int);
            assert(text@ =~= old(text)@ + ring_segments(ring@.take(k + 1)));
        }
        k += 1;
    }
    push_char(text, 'Z');
    assert(ring@.take(ring.len() as int) =~= ring@);
    assert(text@ =~= old(text)@ + ring_path(ring@));
}

/// Writes the path data of a shape.
pub fn path_data_of(rings: &Vec<Vec<CanvasPoint>>) -> (text: String)
    ensures
        text@ == path_data(ring_views(rings@)),
{
    let ghost views = ring_views(rings@);
    let mut text = String::new();
    let mut k: usize = 0;
    while k < rings.len()
        invariant
            k <= rings.len(),
            views == ring_views(rings@),
            text@ == path_data(views.take(k as int)),
        decreases rings.len() - k,
    {
        if k > 0 {
            push_char(&mut text, ' ');
        }
        push_ring_path(&mut text, &rings[k]);
        proof {
            lemma_take_step(views, k as int);
            assert(text@ =~= path_data(views.take(k + 1)));
        }
        k += 1;
    }
    assert(views.take(rings.len() as int) =~= views);
    text
}

/// Writes the value of the `viewBox` attribute.
pub fn view_box_of(width: u16, height: u16) -> (text: String)
    ensures
        text@ == view_box(width as int, height as int),
{
    let mut text = String::new();
    push_char(&mut text, '0');
    push_char(&mut text, ' ');
    push_char(&mut text, '0');
    push_char(&mut text, ' ');
    push_decimal(&mut text, width as u64);
    push_char(&mut text, ' ');
    push_decimal(&mut text, height as u64);
    assert(text@ =~= view_box(width as int, height as int));
    text
}

/// Composes the group of a region.
fn region_element(region: &RegionPrimitive) -> (element: Element)
    ensures
        element_markup(
            element_name(element),
            element_attributes(element),
            element_children(element),
        ) == region_markup(region@),
{
    let mut path = new_path();
    let data = path_data_of(&region.rings);
    let width = format_decimal(region.style.stroke_width as u64);
    assign(&mut path, "d", data.as_str());
    assign(&mut path, "fill", region.style.fill_color);
    assign(&mut path, "stroke", region.style.stroke_color);
    assign(&mut path, "stroke-width", width.as_str());
    let mut group = new_group();
    append(&mut group, path);
    assign(&mut group, "class", region.category.as_str());
    group
}

/// Composes the circle of a marker.
fn marker_element(marker: &MarkerPrimitive) -> (element: Element)
    ensures
        element_markup(
            element_name(element),
            element_attributes(element),
            element_children(element),
        ) == marker_markup(marker@),
{
    let mut circle = new_circle();
    let cx = format_hundredths(marker.center.x);
    let cy = format_hundredths(marker.center.y);
    let r = format_decimal(marker.style.radius as u64);
    assign(&mut circle, "cx", cx.as_str());
    assign(&mut circle, "cy", cy.as_str());
    assign(&mut circle, "r", r.as_str());
    assign(&mut circle, "fill", marker.style.fill_color);
    assign(&mut circle, "stroke", "black");
    circle
}

/// Writes a drawing as SVG markup.
pub fn to_svg(document: &RenderedDocument) -> (text: String)
    ensures
        text@ == document_markup(document@),
{
    let mut root = new_document();
    let frame = view_box_of(document.width, document.height);
    assign(&mut root, "viewBox", frame.as_str());
    assign(&mut root, "width", "100%");
    assign(&mut root, "height", "100%");
    let ghost regions = region_primitive_views(document.regions@);
    let ghost markers = marker_primitive_views(document.markers@);
    let mut k: usize = 0;
    while k < document.regions.len()
        invariant
            k <= document.regions.len(),
            regions == region_primitive_views(document.regions@),
            element_name(root) == "svg"@,
            element_attributes(root) == document_attributes(
                document.width as int,
                document.height as int,
            ),
            element_children(root) == region_markups(regions.take(k as int)),
        decreases document.regions.len() - k,
    {
        let group = region_element(&document.regions[k]);
        append(&mut root, group);
        assert(element_children(root) =~= region_markups(regions.take(k + 1))) by {
            assert(regions.take(k + 1) =~= regions.take(k as int).push(regions[k as int]));
        }
        k += 1;
    }
    assert(regions.take(document.regions.len() as int) =~= regions);
    let mut m: usize = 0;
    while m < document.markers.len()
        invariant
            m <= document.markers.len(),
            markers == marker_primitive_views(document.markers@),
            element_name(root) == "svg"@,
            element_attributes(root) == document_attributes(
                document.width as int,
                document.height as int,
            ),
            element_children(root) == region_markups(regions) + marker_markups(
                markers.take(m as int),
            ),
        decreases document.markers.len() - m,
    {
        let circle = marker_element(&document.markers[m]);
        append(&mut root, circle);
        assert(element_children(root) =~= region_markups(regions) + marker_markups(
            markers.take(m + 1),
        )) by {
            assert(markers.take(m + 1) =~= markers.take(m as int).push(markers[m as int]));
        }
        m += 1;
    }
    assert(markers.take(document.markers.len() as int) =~= markers);
    markup_of(&root)
}

} // verus!
