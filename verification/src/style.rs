//! Styled text segments: the render-ready output of the highlighter.
//!
//! A styled line is an ordered sequence of text segments, each tagged
//! with a display style category. The mathematical model of a segment
//! is [`SegModel`]: a sequence of characters together with its style.

use vstd::prelude::*;

verus! {

/// The display style category of a text segment.
#[derive(Clone, Copy, Debug, PartialEq, Eq)]
pub enum Style {
    /// Ordinary text.
    Plain,
    /// A detected keyword marker ("Ban" or "Found").
    Keyword,
    /// A detected IPv4-shaped address.
    Address,
}

/// The mathematical model of a styled segment.
pub struct SegModel {
    pub text: Seq<char>,
    pub style: Style,
}

/// A plain-styled segment model.
pub open spec fn plain(t: Seq<char>) -> SegModel {
    SegModel { text: t, style: Style::Plain }
}

/// A keyword-styled segment model.
pub open spec fn keyword(t: Seq<char>) -> SegModel {
    SegModel { text: t, style: Style::Keyword }
}

/// An address-styled segment model.
pub open spec fn address(t: Seq<char>) -> SegModel {
    SegModel { text: t, style: Style::Address }
}

/// A text fragment tagged with its display style.
#[derive(Clone, Debug)]
pub struct Segment {
    pub text: String,
    pub style: Style,
}

impl View for Segment {
    type V = SegModel;

    open spec fn view(&self) -> SegModel {
        SegModel { text: self.text@, style: self.style }
    }
}

/// One render-ready log line: an ordered sequence of styled segments.
#[derive(Clone, Debug)]
pub struct StyledLine {
    pub segments: Vec<Segment>,
}

impl View for StyledLine {
    type V = Seq<SegModel>;

    open spec fn view(&self) -> Seq<SegModel> {
        seg_views(self.segments@)
    }
}

/// The views of a sequence of strings.
pub open spec fn string_views(v: Seq<String>) -> Seq<Seq<char>> {
    Seq::new(v.len(), |i: int| v[i]@)
}

/// The models of a sequence of segments.
pub open spec fn seg_views(v: Seq<Segment>) -> Seq<SegModel> {
    Seq::new(v.len(), |i: int| v[i]@)
}

/// The models of a sequence of styled lines.
pub open spec fn line_views(v: Seq<StyledLine>) -> Seq<Seq<SegModel>> {
    Seq::new(v.len(), |i: int| v[i]@)
}

/// The concatenation of the segment texts, style tags ignored.
pub open spec fn concat_texts(segs: Seq<SegModel>) -> Seq<char>
    decreases segs.len(),
{
    if segs.len() == 0 {
        Seq::empty()
    } else {
        segs[0].text + concat_texts(segs.drop_first())
    }
}

} // verus!
