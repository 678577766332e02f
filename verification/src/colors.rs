//! Colors: what a default color refers to, the gradients that colors can be
//! taken from, and the palette that resolves a reference to a color value.

use vstd::prelude::*;

verus! {

/// A color value: red, green and blue.
#[derive(Debug, Clone, Copy, PartialEq, Eq, Hash)]
pub struct Rgb {
    /// The three channels, red first.
    pub rgb: [u8; 3],
}

/// Reference to a color that the global palette resolves. A puzzle stores
/// the reference, never the color value, so that a changed palette shows
/// without rebuilding the puzzle.
#[derive(Debug, PartialEq, Eq, Hash)]
pub enum DefaultColor {
    /// No color is known.
    Unknown,
    /// A color value given outright.
    HexCode {
        /// The color value.
        rgb: Rgb,
    },
    /// A single color of the palette, by name.
    Single {
        /// Name of the color.
        name: String,
    },
    /// A member of a named set of colors.
    ColorSet {
        /// Name of the set.
        set_name: String,
        /// Position within the set, from zero.
        index: usize,
    },
    /// A point on a named gradient.
    Gradient {
        /// Name of the gradient.
        gradient_name: String,
        /// Position on the gradient, from zero.
        index: usize,
        /// Number of positions that the gradient is divided into.
        total: usize,
    },
}

/// What a default color is in contracts: the same reference with its names
/// as sequences of characters.
pub enum DefaultColorView {
    /// No color is known.
    Unknown,
    /// A color value given outright.
    HexCode {
        /// The color value.
        rgb: Rgb,
    },
    /// A single color of the palette, by name.
    Single {
        /// Name of the color.
        name: Seq<char>,
    },
    /// A member of a named set of colors.
    ColorSet {
        /// Name of the set.
        set_name: Seq<char>,
        /// Position within the set, from zero.
        index: usize,
    },
    /// A point on a named gradient.
    Gradient {
        /// Name of the gradient.
        gradient_name: Seq<char>,
        /// Position on the gradient, from zero.
        index: usize,
        /// Number of positions that the gradient is divided into.
        total: usize,
    },
}

impl View for DefaultColor {
    type V = DefaultColorView;

    open spec fn view(&self) -> DefaultColorView {
        match self {
            DefaultColor::Unknown => DefaultColorView::Unknown,
            DefaultColor::HexCode { rgb } => DefaultColorView::HexCode { rgb: *rgb },
            DefaultColor::Single { name } => DefaultColorView::Single { name: name@ },
            DefaultColor::ColorSet { set_name, index } => DefaultColorView::ColorSet {
                set_name: set_name@,
                index: *index,
            },
            DefaultColor::Gradient { gradient_name, index, total } => DefaultColorView::Gradient {
                gradient_name: gradient_name@,
                index: *index,
                total: *total,
            },
        }
    }
}

impl Clone for DefaultColor {
    fn clone(&self) -> (r: Self)
        ensures
            r@ == self@,
    {
        match self {
            DefaultColor::Unknown => DefaultColor::Unknown,
            DefaultColor::HexCode { rgb } => DefaultColor::HexCode { rgb: *rgb },
            DefaultColor::Single { name } => DefaultColor::Single { name: name.clone() },
            DefaultColor::ColorSet { set_name, index } => DefaultColor::ColorSet {
                set_name: set_name.clone(),
                index: *index,
            },
            DefaultColor::Gradient { gradient_name, index, total } => DefaultColor::Gradient {
                gradient_name: gradient_name.clone(),
                index: *index,
                total: *total,
            },
        }
    }
}

impl DefaultColor {
    /// Whether this is the reference that stands for "no color known".
    pub fn is_unknown(&self) -> (r: bool)
        ensures
            r == (self@ is Unknown),
    {
        match self {
            DefaultColor::Unknown => true,
            _ => false,
        }
    }
}

/// The channels of the rainbow gradient at position `index` of `total`, as
/// the gradient's own arithmetic gives them.
pub uninterp spec fn rainbow_rgb(index: usize, total: usize) -> Seq<u8>;

/// Samples the rainbow gradient of `colorous`: `RAINBOW.eval_rational`,
/// which takes a position beyond the last as the last and does not accept
/// zero positions. The crate is built without its `std` feature, so that the
/// channels come from its own arithmetic and not from the platform's sine
/// and cosine: the same position gives the same channels everywhere. Of the
/// channels themselves nothing is claimed but that they are these.
#[verifier::external_body]
fn rainbow_rational(index: usize, total: usize) -> (r: [u8; 3])
    requires
        total > 0,
    ensures
        r@ == rainbow_rgb(index, total),
{
    colorous::RAINBOW.eval_rational(index, total).as_array()
}

/// A gradient that default colors can be taken from.
#[derive(Debug, Default, Clone, Copy, PartialEq, Eq, Structural, Hash)]
pub enum DefaultColorGradient {
    /// The colors of the rainbow, from violet through green to red and back.
    #[default]
    Rainbow,
}

impl DefaultColorGradient {
    /// Name of the gradient, as a default color spells it.
    pub open spec fn name_spec(self) -> Seq<char> {
        match self {
            DefaultColorGradient::Rainbow => "Rainbow"@,
        }
    }

    /// The channels of the gradient at position `index` of `total`.
    pub open spec fn sample_spec(self, index: usize, total: usize) -> Seq<u8> {
        match self {
            DefaultColorGradient::Rainbow => rainbow_rgb(index, total),
        }
    }

    /// Name of the gradient, as a default color spells it.
    pub fn name(self) -> (r: String)
        ensures
            r@ == self.name_spec(),
    {
        match self {
            DefaultColorGradient::Rainbow => String::from_str("Rainbow"),
        }
    }

    /// The gradient of that name, if there is one.
    pub fn from_name(name: &String) -> (r: Option<Self>)
        ensures
            r matches Some(gradient) ==> gradient.name_spec() == name@,
            r is None ==> forall|gradient: DefaultColorGradient| gradient.name_spec() != name@,
    {
        let rainbow = String::from_str("Rainbow");
        if *name == rainbow {
            Some(DefaultColorGradient::Rainbow)
        } else {
            None
        }
    }

    /// Samples the gradient at a point.
    pub fn sample(self, index: usize, total: usize) -> (r: Rgb)
        requires
            total > 0,
        ensures
            r.rgb@ == self.sample_spec(index, total),
    {
        match self {
            DefaultColorGradient::Rainbow => Rgb { rgb: rainbow_rational(index, total) },
        }
    }

    /// Returns a [`DefaultColor`] for the gradient
    pub fn default_color_at(self, index: usize, total: usize) -> (r: DefaultColor)
        ensures
            r@ == (DefaultColorView::Gradient { gradient_name: self.name_spec(), index, total }),
    {
        DefaultColor::Gradient { gradient_name: self.name(), index, total }
    }

    /// Returns the [`DefaultColor`] for the far end of the gradient.
    pub fn default_color_at_end(self) -> (r: DefaultColor)
        ensures
            r@ == (DefaultColorView::Gradient {
                gradient_name: self.name_spec(),
                index: usize::MAX,
                total: usize::MAX,
            }),
    {
        DefaultColor::Gradient {
            gradient_name: self.name(),
            index: usize::MAX,
            total: usize::MAX,
        }
    }
}

} // verus!
