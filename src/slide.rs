use vstd::prelude::*;

verus! {

/// One structured fragment of a slide body.
#[derive(Debug, PartialEq, Eq)]
pub enum Content {
    /// Free-form prose, its lines joined by single spaces.
    Text(String),
    /// A line that holds only a quoted path: a configuration override.
    ConfigDirective(String),
    /// A bracketed description followed by a quoted path.
    Image(String, String),
    /// List entries in source order, each with its depth.
    List(Vec<(u8, String)>),
}

/// The mathematical content of a [`Content`].
pub enum ContentModel {
    Text(Seq<char>),
    ConfigDirective(Seq<char>),
    Image(Seq<char>, Seq<char>),
    List(Seq<(u8, Seq<char>)>),
}

impl DeepView for Content {
    type V = ContentModel;

    open spec fn deep_view(&self) -> ContentModel {
        match self {
            Content::Text(t) => ContentModel::Text(t@),
            Content::ConfigDirective(p) => ContentModel::ConfigDirective(p@),
            Content::Image(d, p) => ContentModel::Image(d@, p@),
            Content::List(entries) => ContentModel::List(entries.deep_view()),
        }
    }
}

/// One slide: its kind label and its contents in order.
#[derive(Debug, PartialEq, Eq)]
pub struct Slide {
    pub kind: String,
    pub contents: Vec<Content>,
}

/// The mathematical content of a [`Slide`].
pub struct SlideModel {
    pub kind: Seq<char>,
    pub contents: Seq<ContentModel>,
}

impl DeepView for Slide {
    type V = SlideModel;

    open spec fn deep_view(&self) -> SlideModel {
        SlideModel { kind: self.kind@, contents: self.contents.deep_view() }
    }
}

} // verus!
