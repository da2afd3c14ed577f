//! Drawing objects, which may hold a text box, and pictures placed as
//! shapes.

use vstd::prelude::*;
use crate::model::paragraph::Paragraph;
use crate::model::picture::Picture;

verus! {

/// The paragraphs of a text box.
#[derive(Debug, Default)]
pub struct TextBox {
    pub paragraphs: Vec<Paragraph>,
}

/// Drawing attributes of a shape.
#[derive(Debug, Default)]
pub struct DrawingObjAttr {
    pub text_box: Option<TextBox>,
}

/// A shape control.
#[derive(Debug)]
pub enum ShapeObject {
    /// A drawing object (a rectangle, an ellipse, a frame...) with its
    /// drawing attributes.
    Drawing(DrawingObjAttr),
    /// A picture; it has no drawing attributes of its own.
    Picture(Picture),
}

impl ShapeObject {
    /// The drawing attributes of the shape, where it has them.
    pub open spec fn drawing_attr(self) -> Option<DrawingObjAttr> {
        match self {
            ShapeObject::Drawing(d) => Some(d),
            ShapeObject::Picture(_) => None,
        }
    }

    /// The drawing attributes of the shape, where it has them.
    pub fn drawing(&self) -> (r: Option<&DrawingObjAttr>)
        ensures
            match r {
                Some(d) => self.drawing_attr() == Some(*d),
                None => self.drawing_attr() is None,
            },
    {
        match self {
            ShapeObject::Drawing(d) => Some(d),
            ShapeObject::Picture(_) => None,
        }
    }
}

} // verus!
