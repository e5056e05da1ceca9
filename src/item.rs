//! The items drawn on a board, and how their location is updated.

use vstd::prelude::*;

use crate::geometry::{copy_vec, Color, Point, Spline, SplineNode, Stroke, Transform};
use crate::ids::{ItemID, TagID};
use crate::message::{decimal, decimal_string, RejectReason};

verus! {

/// A rectangle; its size is given by the transform.
#[derive(Debug)]
pub struct RectangleItem {
    pub transform: Transform,
    pub stroke: Stroke,
    pub fill: Color,
}

/// An ellipse; its size is given by the transform.
#[derive(Debug)]
pub struct EllipseItem {
    pub transform: Transform,
    pub stroke: Stroke,
    pub fill: Color,
}

/// A line segment between two points.
#[derive(Debug)]
pub struct LineItem {
    pub start: Point,
    pub end: Point,
    pub stroke: Stroke,
}

/// A closed loop of points.
#[derive(Debug)]
pub struct PolygonItem {
    pub points: Vec<Point>,
    pub stroke: Stroke,
    pub fill: Color,
}

/// A hand-drawn path.
#[derive(Debug)]
pub struct PathItem {
    pub transform: Transform,
    pub path: Spline,
    pub stroke: Stroke,
}

/// An image stored at a URL.
#[derive(Debug)]
pub struct ImageItem {
    pub transform: Transform,
    pub url: String,
    pub description: String,
}

/// A text box, rendered with Markdown; the transform places the box.
#[derive(Debug)]
pub struct TextItem {
    pub transform: Transform,
    pub text: String,
}

/// A hyperlink.
#[derive(Debug)]
pub struct LinkItem {
    pub transform: Transform,
    pub url: String,
    pub text: String,
}

/// An indexed tag.
#[derive(Debug)]
pub struct TagItem {
    pub transform: Transform,
    /// The ID of the tag type.
    pub id: TagID,
    /// The data associated with the tag.
    pub data: String,
}

/// A union of all item kinds.
#[derive(Debug)]
pub enum Item {
    Rectangle(RectangleItem),
    Ellipse(EllipseItem),
    Line(LineItem),
    Polygon(PolygonItem),
    Path(PathItem),
    Image(ImageItem),
    Text(TextItem),
    Link(LinkItem),
    Tag(TagItem),
}

/// The value of an item, with its point sequences as `Seq`.
pub enum ItemView {
    Rectangle(RectangleItem),
    Ellipse(EllipseItem),
    Line(LineItem),
    Polygon { points: Seq<Point>, stroke: Stroke, fill: Color },
    Path { transform: Transform, nodes: Seq<SplineNode>, stroke: Stroke },
    Image(ImageItem),
    Text(TextItem),
    Link(LinkItem),
    Tag(TagItem),
}

impl View for Item {
    type V = ItemView;

    open spec fn view(&self) -> ItemView {
        match self {
            Item::Rectangle(i) => ItemView::Rectangle(*i),
            Item::Ellipse(i) => ItemView::Ellipse(*i),
            Item::Line(i) => ItemView::Line(*i),
            Item::Polygon(i) => ItemView::Polygon {
                points: i.points@,
                stroke: i.stroke,
                fill: i.fill,
            },
            Item::Path(i) => ItemView::Path {
                transform: i.transform,
                nodes: i.path@,
                stroke: i.stroke,
            },
            Item::Image(i) => ItemView::Image(*i),
            Item::Text(i) => ItemView::Text(*i),
            Item::Link(i) => ItemView::Link(*i),
            Item::Tag(i) => ItemView::Tag(*i),
        }
    }
}

impl Clone for Item {
    fn clone(&self) -> (r: Self)
        ensures
            r@ == self@,
    {
        match self {
            Item::Rectangle(i) => Item::Rectangle(
                RectangleItem {
                    transform: i.transform,
                    stroke: i.stroke.clone(),
                    fill: i.fill.clone(),
                },
            ),
            Item::Ellipse(i) => Item::Ellipse(
                EllipseItem { transform: i.transform, stroke: i.stroke.clone(), fill: i.fill.clone() },
            ),
            Item::Line(i) => Item::Line(
                LineItem { start: i.start, end: i.end, stroke: i.stroke.clone() },
            ),
            Item::Polygon(i) => Item::Polygon(
                PolygonItem {
                    points: copy_vec(&i.points),
                    stroke: i.stroke.clone(),
                    fill: i.fill.clone(),
                },
            ),
            Item::Path(i) => Item::Path(
                PathItem { transform: i.transform, path: i.path.clone(), stroke: i.stroke.clone() },
            ),
            Item::Image(i) => Item::Image(
                ImageItem {
                    transform: i.transform,
                    url: i.url.clone(),
                    description: i.description.clone(),
                },
            ),
            Item::Text(i) => Item::Text(TextItem { transform: i.transform, text: i.text.clone() }),
            Item::Link(i) => Item::Link(
                LinkItem { transform: i.transform, url: i.url.clone(), text: i.text.clone() },
            ),
            Item::Tag(i) => Item::Tag(
                TagItem { transform: i.transform, id: i.id, data: i.data.clone() },
            ),
        }
    }
}

/// A piece of location data: a transform or a list of points.
#[derive(Debug)]
pub enum LocationUpdate {
    /// The new transform of the item.
    Transform(Transform),
    /// The new points of the item.
    Points(Vec<Point>),
}

/// The value of a location update.
pub enum LocationView {
    Transform(Transform),
    Points(Seq<Point>),
}

impl View for LocationUpdate {
    type V = LocationView;

    open spec fn view(&self) -> LocationView {
        match self {
            LocationUpdate::Transform(t) => LocationView::Transform(*t),
            LocationUpdate::Points(p) => LocationView::Points(p@),
        }
    }
}

impl Clone for LocationUpdate {
    fn clone(&self) -> (r: Self)
        ensures
            r@ == self@,
    {
        match self {
            LocationUpdate::Transform(t) => LocationUpdate::Transform(*t),
            LocationUpdate::Points(p) => LocationUpdate::Points(copy_vec(p)),
        }
    }
}

/// The current location of an item: its transform, or its points.
pub open spec fn location_of(item: ItemView) -> LocationView {
    match item {
        ItemView::Rectangle(i) => LocationView::Transform(i.transform),
        ItemView::Ellipse(i) => LocationView::Transform(i.transform),
        ItemView::Line(i) => LocationView::Points(seq![i.start, i.end]),
        ItemView::Polygon { points, .. } => LocationView::Points(points),
        ItemView::Path { transform, .. } => LocationView::Transform(transform),
        ItemView::Image(i) => LocationView::Transform(i.transform),
        ItemView::Text(i) => LocationView::Transform(i.transform),
        ItemView::Link(i) => LocationView::Transform(i.transform),
        ItemView::Tag(i) => LocationView::Transform(i.transform),
    }
}

/// Whether an update fits the item's location family: exactly two points for
/// a line, any points for a polygon, a transform for every other item.
pub open spec fn accepts_location(item: ItemView, update: LocationView) -> bool {
    match item {
        ItemView::Line(_) => update matches LocationView::Points(p) && p.len() == 2,
        ItemView::Polygon { .. } => update is Points,
        _ => update is Transform,
    }
}

/// The item with its location replaced by `update`, where the update fits.
pub open spec fn with_location(item: ItemView, update: LocationView) -> ItemView {
    match (item, update) {
        (ItemView::Rectangle(i), LocationView::Transform(t)) => ItemView::Rectangle(
            RectangleItem { transform: t, ..i },
        ),
        (ItemView::Ellipse(i), LocationView::Transform(t)) => ItemView::Ellipse(
            EllipseItem { transform: t, ..i },
        ),
        (ItemView::Line(i), LocationView::Points(p)) => ItemView::Line(
            LineItem { start: p[0], end: p[1], ..i },
        ),
        (ItemView::Polygon { stroke, fill, .. }, LocationView::Points(p)) => ItemView::Polygon {
            points: p,
            stroke,
            fill,
        },
        (ItemView::Path { nodes, stroke, .. }, LocationView::Transform(t)) => ItemView::Path {
            transform: t,
            nodes,
            stroke,
        },
        (ItemView::Image(i), LocationView::Transform(t)) => ItemView::Image(
            ImageItem { transform: t, ..i },
        ),
        (ItemView::Text(i), LocationView::Transform(t)) => ItemView::Text(
            TextItem { transform: t, ..i },
        ),
        (ItemView::Link(i), LocationView::Transform(t)) => ItemView::Link(
            LinkItem { transform: t, ..i },
        ),
        (ItemView::Tag(i), LocationView::Transform(t)) => ItemView::Tag(
            TagItem { transform: t, ..i },
        ),
        _ => item,
    }
}

/// The location kind that an item expects, as named in a rejection.
pub open spec fn expected_kind(item: ItemView) -> Seq<char> {
    match item {
        ItemView::Line(_) => "Point[2]"@,
        ItemView::Polygon { .. } => "Point[]"@,
        _ => "Transform"@,
    }
}

/// The location kind that an update carries, as named in a rejection.
pub open spec fn received_kind(update: LocationView) -> Seq<char> {
    match update {
        LocationView::Transform(_) => "Transform"@,
        LocationView::Points(_) => "Point[]"@,
    }
}

/// Whether `reason` rejects `update` on the item `item` with ID `id`.
pub open spec fn is_location_mismatch(
    reason: RejectReason,
    id: ItemID,
    item: ItemView,
    update: LocationView,
) -> bool {
    reason matches RejectReason::IncorrectType { key, expected, received }
        && key matches Some(k) && k@ == decimal(id.0 as nat)
        && expected@ == expected_kind(item) && received@ == received_kind(update)
}

/// The rejection for a location update of the wrong kind.
fn incorrect_type(id: ItemID, expected: &'static str, received: &str) -> (r: RejectReason)
    ensures
        r matches RejectReason::IncorrectType { key, expected: e, received: rc }
            && key matches Some(k) && k@ == decimal(id.0 as nat) && e@ == expected@
            && rc@ == received@,
{
    RejectReason::IncorrectType {
        key: Some(decimal_string(id.0)),
        expected,
        received: received.to_owned(),
    }
}

/// Applying a fitting update and then reading the location gives the update back.
pub proof fn lemma_location_round_trip(item: ItemView, update: LocationView)
    requires
        accepts_location(item, update),
    ensures
        location_of(with_location(item, update)) == update,
        accepts_location(with_location(item, update), update),
{
    if let ItemView::Line(_) = item {
        let p = update->Points_0;
        assert(seq![p[0], p[1]] =~= p);
    }
}

impl Item {
    /// Replaces the item's location by `update` where it fits the item's
    /// location family; otherwise leaves the item as it is and returns its
    /// current location with an `IncorrectType` rejection.
    pub fn apply_location_update(&mut self, id: ItemID, update: &LocationUpdate) -> (r:
        core::result::Result<(), (LocationUpdate, RejectReason)>)
        ensures
            r is Ok <==> accepts_location(old(self)@, update@),
            r is Ok ==> final(self)@ == with_location(old(self)@, update@),
            r is Err ==> *final(self) == *old(self),
            r matches Err((current, reason)) ==> current@ == location_of(old(self)@)
                && is_location_mismatch(reason, id, old(self)@, update@),
    {
        proof {
            reveal_strlit("Transform");
            reveal_strlit("Point[]");
            reveal_strlit("Point[2]");
        }
        match self {
            Item::Rectangle(item) => match update {
                LocationUpdate::Transform(t) => {
                    item.transform = *t;
                    Ok(())
                },
                LocationUpdate::Points(_) => Err(
                    (
                        LocationUpdate::Transform(item.transform),
                        incorrect_type(id, "Transform", "Point[]"),
                    ),
                ),
            },
            Item::Ellipse(item) => match update {
                LocationUpdate::Transform(t) => {
                    item.transform = *t;
                    Ok(())
                },
                LocationUpdate::Points(_) => Err(
                    (
                        LocationUpdate::Transform(item.transform),
                        incorrect_type(id, "Transform", "Point[]"),
                    ),
                ),
            },
            Item::Path(item) => match update {
                LocationUpdate::Transform(t) => {
                    item.transform = *t;
                    Ok(())
                },
                LocationUpdate::Points(_) => Err(
                    (
                        LocationUpdate::Transform(item.transform),
                        incorrect_type(id, "Transform", "Point[]"),
                    ),
                ),
            },
            Item::Image(item) => match update {
                LocationUpdate::Transform(t) => {
                    item.transform = *t;
                    Ok(())
                },
                LocationUpdate::Points(_) => Err(
                    (
                        LocationUpdate::Transform(item.transform),
                        incorrect_type(id, "Transform", "Point[]"),
                    ),
                ),
            },
            Item::Text(item) => match update {
                LocationUpdate::Transform(t) => {
                    item.transform = *t;
                    Ok(())
                },
                LocationUpdate::Points(_) => Err(
                    (
                        LocationUpdate::Transform(item.transform),
                        incorrect_type(id, "Transform", "Point[]"),
                    ),
                ),
            },
            Item::Link(item) => match update {
                LocationUpdate::Transform(t) => {
                    item.transform = *t;
                    Ok(())
                },
                LocationUpdate::Points(_) => Err(
                    (
                        LocationUpdate::Transform(item.transform),
                        incorrect_type(id, "Transform", "Point[]"),
                    ),
                ),
            },
            Item::Tag(item) => match update {
                LocationUpdate::Transform(t) => {
                    item.transform = *t;
                    Ok(())
                },
                LocationUpdate::Points(_) => Err(
                    (
                        LocationUpdate::Transform(item.transform),
                        incorrect_type(id, "Transform", "Point[]"),
                    ),
                ),
            },
            Item::Line(item) => match update {
                LocationUpdate::Points(p) => {
                    if p.len() == 2 {
                        item.start = p[0];
                        item.end = p[1];
                        Ok(())
                    } else {
                        Err(
                            (
                                LocationUpdate::Points(vec![item.start, item.end]),
                                incorrect_type(id, "Point[2]", "Point[]"),
                            ),
                        )
                    }
                },
                LocationUpdate::Transform(_) => Err(
                    (
                        LocationUpdate::Points(vec![item.start, item.end]),
                        incorrect_type(id, "Point[2]", "Transform"),
                    ),
                ),
            },
            Item::Polygon(item) => match update {
                LocationUpdate::Points(p) => {
                    item.points = copy_vec(p);
                    Ok(())
                },
                LocationUpdate::Transform(_) => Err(
                    (
                        LocationUpdate::Points(copy_vec(&item.points)),
                        incorrect_type(id, "Point[]", "Transform"),
                    ),
                ),
            },
        }
    }
}

} // verus!
