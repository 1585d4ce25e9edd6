use vstd::prelude::*;
use vstd::string::*;

verus! {

/// An item of a coloured text list: a colour for the text after it, or a piece of text.
#[derive(Debug)]
pub enum TextPart {
    Color([u8; 4]),
    Text(String),
}

/// Text in one colour.
pub type ColoredSegment = ([u8; 4], String);

/// Opaque white, the colour before any is given.
pub open spec fn white() -> [u8; 4] {
    [255u8, 255u8, 255u8, 255u8]
}

/// The colour in force after `parts` and the non-empty pieces of text with their colours.
pub open spec fn scan_parts(parts: Seq<TextPart>) -> ([u8; 4], Seq<([u8; 4], Seq<char>)>)
    decreases parts.len(),
{
    if parts.len() == 0 {
        (white(), Seq::empty())
    } else {
        let (color, segments) = scan_parts(parts.drop_last());
        match parts.last() {
            TextPart::Color(c) => (c, segments),
            TextPart::Text(t) => if t@.len() == 0 {
                (color, segments)
            } else {
                (color, segments.push((color, t@)))
            },
        }
    }
}

/// The contents of coloured segments.
pub open spec fn segment_views(v: Seq<ColoredSegment>) -> Seq<([u8; 4], Seq<char>)> {
    Seq::new(v.len(), |i: int| (v[i].0, v[i].1@))
}

/// The pieces of a coloured text list with the colour each is drawn in; `None` where there is
/// no text to draw.
pub fn colored_segments(parts: &Vec<TextPart>) -> (r: Option<Vec<ColoredSegment>>)
    ensures
        match r {
            Some(v) => scan_parts(parts@).1.len() > 0 && segment_views(v@) == scan_parts(parts@).1,
            None => scan_parts(parts@).1.len() == 0,
        },
{
    let mut segments: Vec<ColoredSegment> = Vec::new();
    let mut color: [u8; 4] = [255u8, 255u8, 255u8, 255u8];
    let mut i: usize = 0;
    while i < parts.len()
        invariant
            i <= parts.len(),
            (color, segment_views(segments@)) == scan_parts(parts@.subrange(0, i as int)),
        decreases parts.len() - i,
    {
        let ghost prefix = parts@.subrange(0, i + 1);
        assert(prefix.drop_last() =~= parts@.subrange(0, i as int));
        assert(prefix.last() == parts@[i as int]);
        match &parts[i] {
            TextPart::Color(c) => {
                color = *c;
            },
            TextPart::Text(t) => {
                if !t.as_str().is_empty() {
                    let ghost before = segment_views(segments@);
                    segments.push((color, t.clone()));
                    assert(segment_views(segments@) =~= before.push((color, t@)));
                }
            },
        }
        i = i + 1;
    }
    assert(parts@.subrange(0, parts.len() as int) =~= parts@);
    if segments.len() == 0 {
        None
    } else {
        Some(segments)
    }
}

/// The text of a list, colours left out.
pub open spec fn plain_text(parts: Seq<TextPart>) -> Seq<char>
    decreases parts.len(),
{
    if parts.len() == 0 {
        Seq::empty()
    } else {
        match parts.last() {
            TextPart::Color(_) => plain_text(parts.drop_last()),
            TextPart::Text(t) => plain_text(parts.drop_last()) + t@,
        }
    }
}

/// The pieces of text of a list, joined, without their colours.
pub fn extract_text(parts: &Vec<TextPart>) -> (s: String)
    ensures
        s@ == plain_text(parts@),
{
    let mut s = String::new();
    let mut i: usize = 0;
    while i < parts.len()
        invariant
            i <= parts.len(),
            s@ == plain_text(parts@.subrange(0, i as int)),
        decreases parts.len() - i,
    {
        let ghost prefix = parts@.subrange(0, i + 1);
        assert(prefix.drop_last() =~= parts@.subrange(0, i as int));
        assert(prefix.last() == parts@[i as int]);
        match &parts[i] {
            TextPart::Color(_) => {},
            TextPart::Text(t) => {
                s.append(t.as_str());
            },
        }
        i = i + 1;
    }
    assert(parts@.subrange(0, parts.len() as int) =~= parts@);
    s
}

} // verus!
