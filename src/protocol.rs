//! Decoding the drawable part of a protocol line. The line's JSON object
//! arrives as optional plain fields; which of the three forms it has, if
//! any, and whether its colors, size and markers are valid is decided here.
use vstd::prelude::*;
use crate::graphics_data::{
    color_of, same_text, Color, Drawable, Marker, ShapeRect, ShapeVect, Size, VectorElement,
};

verus! {

/// One point of a polyline as it arrives.
#[derive(Clone, Debug)]
pub struct WirePoint {
    pub x: usize,
    pub y: usize,
    pub marker: String,
    pub color: String,
    pub text: String,
}

/// The drawable fields of a line, each present or not.
#[derive(Clone, Debug)]
pub struct WireFields {
    pub shape: Option<String>,
    pub x: Option<usize>,
    pub y: Option<usize>,
    pub w: Option<usize>,
    pub h: Option<usize>,
    pub fill: Option<String>,
    pub color: Option<String>,
    pub vector: Option<Vec<WirePoint>>,
    pub text: Option<String>,
    pub size: Option<String>,
}

/// Why a line's drawable is invalid; the whole line is then rejected.
#[derive(Clone, Copy, Debug, PartialEq, Eq, Structural)]
pub enum DrawableError {
    /// A color is neither a known name nor `#rrggbb`.
    Color,
    /// A size is neither `normal` nor `large`.
    Size,
    /// A marker is neither `circle` nor `cross`.
    Marker,
    /// `shape` is neither `rect` nor `vect`.
    Shape,
}

/// Which form the fields take.
#[derive(Clone, Copy, Debug, PartialEq, Eq, Structural)]
pub enum Form {
    /// No complete form: an update of the time-to-live alone.
    Absent,
    Rect,
    Vect,
    Text,
    /// A `shape` that names no form.
    Unknown,
}

pub open spec fn is_rect_tag(s: Seq<char>) -> bool {
    s == seq!['r', 'e', 'c', 't']
}

pub open spec fn is_vect_tag(s: Seq<char>) -> bool {
    s == seq!['v', 'e', 'c', 't']
}

/// `shape` selects the rectangle or the polyline; without it, `text`
/// selects a label. A selected form with a field missing is no form.
pub open spec fn form_of(f: WireFields) -> Form {
    match f.shape {
        Some(s) => if is_rect_tag(s@) {
            if f.x is Some && f.y is Some && f.w is Some && f.h is Some && f.fill is Some && f.color is Some {
                Form::Rect
            } else {
                Form::Absent
            }
        } else if is_vect_tag(s@) {
            if f.color is Some && f.vector is Some {
                Form::Vect
            } else {
                Form::Absent
            }
        } else {
            Form::Unknown
        },
        None => if f.text is Some && f.color is Some && f.x is Some && f.y is Some {
            Form::Text
        } else {
            Form::Absent
        },
    }
}

pub open spec fn size_of(s: Option<String>) -> Option<Size> {
    match s {
        None => Some(Size::Normal),
        Some(t) => if t@ == seq!['n', 'o', 'r', 'm', 'a', 'l'] {
            Some(Size::Normal)
        } else if t@ == seq!['l', 'a', 'r', 'g', 'e'] {
            Some(Size::Large)
        } else {
            None
        },
    }
}

pub open spec fn marker_of(s: Seq<char>) -> Option<Marker> {
    if s == seq!['c', 'i', 'r', 'c', 'l', 'e'] {
        Some(Marker::Circle)
    } else if s == seq!['c', 'r', 'o', 's', 's'] {
        Some(Marker::Cross)
    } else {
        None
    }
}

pub open spec fn point_error(p: WirePoint) -> Option<DrawableError> {
    if marker_of(p.marker@) is None {
        Some(DrawableError::Marker)
    } else if color_of(p.color@) is None {
        Some(DrawableError::Color)
    } else {
        None
    }
}

/// The first error among the points, in order.
pub open spec fn points_error(ps: Seq<WirePoint>) -> Option<DrawableError>
    decreases ps.len(),
{
    if ps.len() == 0 {
        None
    } else if point_error(ps[0]) is Some {
        point_error(ps[0])
    } else {
        points_error(ps.drop_first())
    }
}

pub open spec fn decoded_point(p: WirePoint) -> VectorElement {
    VectorElement {
        x: p.x,
        y: p.y,
        marker: marker_of(p.marker@)->Some_0,
        color: color_of(p.color@)->Some_0,
        text: p.text,
    }
}

pub open spec fn color_error(s: Option<String>) -> bool {
    color_of(s->Some_0@) is None
}

/// The error that rejects the fields, if any, checking in the order in
/// which the fields are written.
pub open spec fn decode_error(f: WireFields) -> Option<DrawableError> {
    match form_of(f) {
        Form::Unknown => Some(DrawableError::Shape),
        Form::Absent => None,
        Form::Rect => if color_error(f.fill) || color_error(f.color) {
            Some(DrawableError::Color)
        } else {
            None
        },
        Form::Vect => if color_error(f.color) {
            Some(DrawableError::Color)
        } else {
            points_error(f.vector->Some_0@)
        },
        Form::Text => if size_of(f.size) is None {
            Some(DrawableError::Size)
        } else if color_error(f.color) {
            Some(DrawableError::Color)
        } else {
            None
        },
    }
}

fn parse_color(s: &String) -> (r: Result<Color, DrawableError>)
    ensures
        match color_of(s@) {
            Some(c) => r == Ok::<Color, DrawableError>(c),
            None => r == Err::<Color, DrawableError>(DrawableError::Color),
        },
{
    match Color::try_from(s.as_str()) {
        Ok(c) => Ok(c),
        Err(_) => Err(DrawableError::Color),
    }
}

fn parse_size(s: &Option<String>) -> (r: Result<Size, DrawableError>)
    ensures
        match size_of(*s) {
            Some(z) => r == Ok::<Size, DrawableError>(z),
            None => r == Err::<Size, DrawableError>(DrawableError::Size),
        },
{
    match s {
        None => Ok(Size::Normal),
        Some(t) => {
            proof {
                reveal_strlit("normal");
                reveal_strlit("large");
                assert("normal"@ =~= seq!['n', 'o', 'r', 'm', 'a', 'l']);
                assert("large"@ =~= seq!['l', 'a', 'r', 'g', 'e']);
            }
            if same_text(t.as_str(), "normal") {
                Ok(Size::Normal)
            } else if same_text(t.as_str(), "large") {
                Ok(Size::Large)
            } else {
                Err(DrawableError::Size)
            }
        },
    }
}

fn parse_marker(s: &String) -> (r: Result<Marker, DrawableError>)
    ensures
        match marker_of(s@) {
            Some(m) => r == Ok::<Marker, DrawableError>(m),
            None => r == Err::<Marker, DrawableError>(DrawableError::Marker),
        },
{
    proof {
        reveal_strlit("circle");
        reveal_strlit("cross");
        assert("circle"@ =~= seq!['c', 'i', 'r', 'c', 'l', 'e']);
        assert("cross"@ =~= seq!['c', 'r', 'o', 's', 's']);
    }
    if same_text(s.as_str(), "circle") {
        Ok(Marker::Circle)
    } else if same_text(s.as_str(), "cross") {
        Ok(Marker::Cross)
    } else {
        Err(DrawableError::Marker)
    }
}

fn decode_points(ps: &Vec<WirePoint>) -> (r: Result<Vec<VectorElement>, DrawableError>)
    ensures
        match points_error(ps@) {
            Some(e) => r == Err::<Vec<VectorElement>, DrawableError>(e),
            None => r matches Ok(v) && v@ == ps@.map_values(|p: WirePoint| decoded_point(p)),
        },
{
    let mut out: Vec<VectorElement> = Vec::new();
    let mut i: usize = 0;
    assert(ps@.subrange(0, ps@.len() as int) =~= ps@);
    assert(out@ =~= ps@.subrange(0, 0).map_values(|p: WirePoint| decoded_point(p)));
    while i < ps.len()
        invariant
            i <= ps@.len(),
            points_error(ps@) == points_error(ps@.subrange(i as int, ps@.len() as int)),
            out@ == ps@.subrange(0, i as int).map_values(|p: WirePoint| decoded_point(p)),
        decreases ps@.len() - i,
    {
        let ghost rest = ps@.subrange(i as int, ps@.len() as int);
        assert(rest[0] == ps@[i as int]);
        assert(rest.drop_first() =~= ps@.subrange(i + 1, ps@.len() as int));
        let p = &ps[i];
        let marker = match parse_marker(&p.marker) {
            Ok(m) => m,
            Err(e) => return Err(e),
        };
        let color = match parse_color(&p.color) {
            Ok(c) => c,
            Err(e) => return Err(e),
        };
        let text = p.text.clone();
        out.push(VectorElement { x: p.x, y: p.y, marker, color, text });
        i = i + 1;
        assert(out@ =~= ps@.subrange(0, i as int).map_values(|p: WirePoint| decoded_point(p)));
    }
    assert(ps@.subrange(0, ps@.len() as int) =~= ps@);
    Ok(out)
}

/// Decodes the drawable of a line: `Ok(None)` where the fields complete no
/// form, an error where `shape` names no form or a color, size or marker is
/// invalid, and otherwise the drawable the fields describe.
pub fn decode_drawable(fields: WireFields) -> (r: Result<Option<Drawable>, DrawableError>)
    ensures
        match decode_error(fields) {
            Some(e) => r == Err::<Option<Drawable>, DrawableError>(e),
            None => match form_of(fields) {
                Form::Absent => r == Ok::<Option<Drawable>, DrawableError>(None),
                Form::Rect => r == Ok::<Option<Drawable>, DrawableError>(
                    Some(
                        (Drawable::Rectangle {
                            shape: ShapeRect::Rect,
                            x: fields.x->Some_0,
                            y: fields.y->Some_0,
                            w: fields.w->Some_0,
                            h: fields.h->Some_0,
                            fill: color_of(fields.fill->Some_0@)->Some_0,
                            color: color_of(fields.color->Some_0@)->Some_0,
                        }),
                    ),
                ),
                Form::Vect => r matches Ok(Some(Drawable::Vector { shape: _, color, vector })) && color
                    == color_of(fields.color->Some_0@)->Some_0 && vector@ == fields.vector->Some_0@.map_values(
                    |p: WirePoint| decoded_point(p),
                ),
                Form::Text => r == Ok::<Option<Drawable>, DrawableError>(
                    Some(
                        (Drawable::Text {
                            text: fields.text->Some_0,
                            size: size_of(fields.size)->Some_0,
                            color: color_of(fields.color->Some_0@)->Some_0,
                            x: fields.x->Some_0,
                            y: fields.y->Some_0,
                        }),
                    ),
                ),
                Form::Unknown => false,
            },
        },
{
    let ghost f = fields;
    let WireFields { shape, x, y, w, h, fill, color, vector, text, size } = fields;
    match shape {
        Some(s) => {
            proof {
                reveal_strlit("rect");
                reveal_strlit("vect");
                assert("rect"@ =~= seq!['r', 'e', 'c', 't']);
                assert("vect"@ =~= seq!['v', 'e', 'c', 't']);
            }
            if same_text(s.as_str(), "rect") {
                match (x, y, w, h, fill, color) {
                    (Some(x), Some(y), Some(w), Some(h), Some(fill), Some(color)) => {
                        let fill = match parse_color(&fill) {
                            Ok(c) => c,
                            Err(e) => return Err(e),
                        };
                        let color = match parse_color(&color) {
                            Ok(c) => c,
                            Err(e) => return Err(e),
                        };
                        Ok(Some(Drawable::Rectangle { shape: ShapeRect::Rect, x, y, w, h, fill, color }))
                    },
                    _ => Ok(None),
                }
            } else if same_text(s.as_str(), "vect") {
                match (color, vector) {
                    (Some(color), Some(vector)) => {
                        let color = match parse_color(&color) {
                            Ok(c) => c,
                            Err(e) => return Err(e),
                        };
                        let vector = match decode_points(&vector) {
                            Ok(v) => v,
                            Err(e) => return Err(e),
                        };
                        Ok(Some(Drawable::Vector { shape: ShapeVect::Vect, color, vector }))
                    },
                    _ => Ok(None),
                }
            } else {
                Err(DrawableError::Shape)
            }
        },
        None => match (text, color, x, y) {
            (Some(text), Some(color), Some(x), Some(y)) => {
                let size = match parse_size(&size) {
                    Ok(z) => z,
                    Err(e) => return Err(e),
                };
                let color = match parse_color(&color) {
                    Ok(c) => c,
                    Err(e) => return Err(e),
                };
                Ok(Some(Drawable::Text { text, size, color, x, y }))
            },
            _ => Ok(None),
        },
    }
}

} // verus!
