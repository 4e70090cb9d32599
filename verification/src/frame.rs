//! Camera frames and rendered frames.
use vstd::prelude::*;

verus! {

/// A colour: red, green and blue.
pub type Rgb = (u8, u8, u8);

/// A camera frame: three bytes for each pixel, rows from the top, each from
/// the left.
pub struct Frame {
    pub data: Vec<u8>,
    pub width: usize,
    pub height: usize,
}

impl Clone for Frame {
    fn clone(&self) -> (r: Self)
        ensures
            r.data@ == self.data@,
            r.width == self.width,
            r.height == self.height,
    {
        Frame { data: vstd::slice::slice_to_vec(self.data.as_slice()), width: self.width, height: self.height }
    }
}

/// What a rendered frame shows.
#[verifier::ext_equal]
pub struct Picture {
    /// The characters, row by row.
    pub chars: Seq<Seq<char>>,
    /// The colours, row by row, where the picture has any.
    pub colors: Option<Seq<Seq<Rgb>>>,
}

/// A frame of characters, with the colour of each where it has colours.
pub struct RenderFrame {
    pub chars: Vec<String>,
    pub colors: Option<Vec<Vec<Rgb>>>,
}

/// The characters of each row.
pub open spec fn text_rows(rows: Seq<String>) -> Seq<Seq<char>> {
    Seq::new(rows.len(), |y: int| rows[y]@)
}

/// The items of each row.
pub open spec fn item_rows<T>(rows: Seq<Vec<T>>) -> Seq<Seq<T>> {
    Seq::new(rows.len(), |y: int| rows[y]@)
}

/// The colours of each row.
pub open spec fn color_rows(rows: Seq<Vec<Rgb>>) -> Seq<Seq<Rgb>> {
    item_rows(rows)
}

/// The colours of each row, where there are any.
pub open spec fn color_grid(grid: Option<Vec<Vec<Rgb>>>) -> Option<Seq<Seq<Rgb>>> {
    match grid {
        Some(rows) => Some(color_rows(rows@)),
        None => None,
    }
}

impl View for RenderFrame {
    type V = Picture;

    open spec fn view(&self) -> Picture {
        Picture { chars: text_rows(self.chars@), colors: color_grid(self.colors) }
    }
}

/// A picture without rows and without colours.
pub open spec fn blank_picture() -> Picture {
    Picture { chars: Seq::empty(), colors: None }
}

/// A copy of rows of text.
pub fn copy_text(rows: &Vec<String>) -> (r: Vec<String>)
    ensures
        text_rows(r@) == text_rows(rows@),
{
    let mut out: Vec<String> = Vec::new();
    let mut y: usize = 0;
    while y < rows.len()
        invariant
            y <= rows.len(),
            out.len() == y,
            forall|i: int| 0 <= i < y ==> #[trigger] out@[i]@ == rows@[i]@,
        decreases rows.len() - y,
    {
        out.push(rows[y].clone());
        y += 1;
    }
    assert(text_rows(out@) =~= text_rows(rows@));
    out
}

/// A copy of rows of colours.
pub fn copy_colors(rows: &Vec<Vec<Rgb>>) -> (r: Vec<Vec<Rgb>>)
    ensures
        color_rows(r@) == color_rows(rows@),
{
    let mut out: Vec<Vec<Rgb>> = Vec::new();
    let mut y: usize = 0;
    while y < rows.len()
        invariant
            y <= rows.len(),
            out.len() == y,
            forall|i: int| 0 <= i < y ==> #[trigger] out@[i]@ == rows@[i]@,
        decreases rows.len() - y,
    {
        out.push(vstd::slice::slice_to_vec(rows[y].as_slice()));
        y += 1;
    }
    assert(color_rows(out@) =~= color_rows(rows@));
    out
}

/// A copy of the colours, where there are any.
pub fn copy_grid(grid: &Option<Vec<Vec<Rgb>>>) -> (r: Option<Vec<Vec<Rgb>>>)
    ensures
        color_grid(r) == color_grid(*grid),
{
    match grid {
        Some(rows) => Some(copy_colors(rows)),
        None => None,
    }
}

impl Clone for RenderFrame {
    fn clone(&self) -> (r: Self)
        ensures
            r@ == self@,
    {
        RenderFrame { chars: copy_text(&self.chars), colors: copy_grid(&self.colors) }
    }
}

impl Default for RenderFrame {
    fn default() -> (r: Self)
        ensures
            r@ == blank_picture(),
    {
        let r = RenderFrame { chars: Vec::new(), colors: None };
        assert(r@ =~= blank_picture());
        r
    }
}

} // verus!
