//! The section descriptor's enumerations and rebar entries.
use vstd::prelude::*;
use vstd::view::View as _;

verus! {

/// The kind of structural member a section describes.
#[derive(Debug, Clone, Copy, PartialEq, Eq, Structural)]
pub enum SectionType {
    Beam,
    Column,
    Wall,
}

/// Which drawings a section asks for.
#[derive(Debug, Clone, Copy, PartialEq, Eq, Structural)]
pub enum View {
    Section,
    Longitudinal,
    Both,
}

/// Where a rebar entry's bars are placed in the cross-section.
#[derive(Debug, Clone, Copy, PartialEq, Eq, Structural)]
pub enum RebarPattern {
    Top,
    Bottom,
    Sides,
    Perimeter,
}

/// One declared line of longitudinal reinforcement: `count` bars of `size`.
#[derive(Debug, Clone)]
pub struct RebarEntry {
    pub pattern: RebarPattern,
    pub count: u32,
    pub size: String,
}

} // verus!

verus! {

/// A section's outline; dimensions are decimal numerals in centimetres, as
/// written.
#[derive(Debug, Clone)]
pub enum Shape {
    Rect { width: String, height: String },
    Circle { diameter: String },
}

/// One segment of a stirrup spacing program; distances are decimal numerals
/// in centimetres, as written.
#[derive(Debug, Clone)]
pub enum Spacing {
    /// `count` stirrups, `dist` apart, from each end.
    Fixed { count: u32, dist: String },
    /// Stirrups evenly filling what is left, about `dist` apart.
    Rest { dist: String },
}

/// Stirrups or ties: their bar size and spacing program.
#[derive(Debug, Clone)]
pub struct StirrupsConfig {
    pub size: String,
    pub dist: Vec<Spacing>,
}

/// Everything a section block declares. Numbers are decimal numerals as
/// written (centimetres; `concrete` in kg/cm2).
#[derive(Debug, Clone)]
pub struct SectionProperties {
    pub shape: Option<Shape>,
    pub cover: Option<String>,
    pub span: Option<String>,
    pub view: Option<View>,
    pub scale_section: Option<String>,
    pub scale_long: Option<String>,
    pub concrete: Option<String>,
    pub rebar: Vec<RebarEntry>,
    pub ties: Option<StirrupsConfig>,
}

/// One section block: the member's kind, its label and its properties.
#[derive(Debug, Clone)]
pub struct Section {
    pub kind: SectionType,
    pub id: String,
    pub properties: SectionProperties,
}

pub ghost enum ShapeModel {
    Rect(Seq<char>, Seq<char>),
    Circle(Seq<char>),
}

pub ghost enum SpacingModel {
    Fixed(u32, Seq<char>),
    Rest(Seq<char>),
}

pub ghost struct PropsModel {
    pub shape: Option<ShapeModel>,
    pub cover: Option<Seq<char>>,
    pub span: Option<Seq<char>>,
    pub view: Option<View>,
    pub scale_section: Option<Seq<char>>,
    pub scale_long: Option<Seq<char>>,
    pub concrete: Option<Seq<char>>,
    pub rebar: Seq<(RebarPattern, u32, Seq<char>)>,
    pub ties: Option<(Seq<char>, Seq<SpacingModel>)>,
}

pub ghost struct SectionModel {
    pub kind: SectionType,
    pub id: Seq<char>,
    pub props: PropsModel,
}

pub open spec fn text_of(o: Option<String>) -> Option<Seq<char>> {
    match o {
        Some(s) => Some(s@),
        None => None,
    }
}

impl RebarEntry {
    pub open spec fn model(&self) -> (RebarPattern, u32, Seq<char>) {
        (self.pattern, self.count, self.size@)
    }
}

impl Shape {
    pub open spec fn model(&self) -> ShapeModel {
        match self {
            Shape::Rect { width, height } => ShapeModel::Rect(width@, height@),
            Shape::Circle { diameter } => ShapeModel::Circle(diameter@),
        }
    }
}

impl Spacing {
    pub open spec fn model(&self) -> SpacingModel {
        match self {
            Spacing::Fixed { count, dist } => SpacingModel::Fixed(*count, dist@),
            Spacing::Rest { dist } => SpacingModel::Rest(dist@),
        }
    }
}

impl StirrupsConfig {
    pub open spec fn model(&self) -> (Seq<char>, Seq<SpacingModel>) {
        (self.size@, self.dist@.map_values(|s: Spacing| s.model()))
    }
}

impl SectionProperties {
    pub open spec fn model(&self) -> PropsModel {
        PropsModel {
            shape: match self.shape {
                Some(s) => Some(s.model()),
                None => None,
            },
            cover: text_of(self.cover),
            span: text_of(self.span),
            view: self.view,
            scale_section: text_of(self.scale_section),
            scale_long: text_of(self.scale_long),
            concrete: text_of(self.concrete),
            rebar: self.rebar@.map_values(|e: RebarEntry| e.model()),
            ties: match self.ties {
                Some(t) => Some(t.model()),
                None => None,
            },
        }
    }
}

impl Section {
    pub open spec fn model(&self) -> SectionModel {
        SectionModel { kind: self.kind, id: self.id@, props: self.properties.model() }
    }
}

} // verus!
