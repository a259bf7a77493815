//! Decoded pictures and how their pixels land on the terminal grid.
use vstd::prelude::*;

verus! {

/// When true, every cell is drawn without color.
pub const BLACKWHITE: bool = false;

/// A decoded picture: `width` by `height` RGB pixels, row by row.
pub struct Img {
    pub width: u32,
    pub height: u32,
    pub data: Vec<[u8; 3]>,
}

/// The `image` crate's error type, carried through unread.
#[verifier::external_type_specification]
#[verifier::external_body]
pub struct ExImageError(image::ImageError);

/// The picture the file named `path`, holding `bytes`, decodes to: its width,
/// its height and its pixels as consecutive red, green, blue bytes; nothing
/// when it does not decode. The format is taken from the name's extension.
pub uninterp spec fn decoded_rgb(path: Seq<char>, bytes: Seq<u8>) -> Option<(u32, u32, Seq<u8>)>;

/// Decodes a picture with the `image` crate: the format from the extension of
/// `path` (`ImageFormat::from_path`), then `load_from_memory_with_format` on
/// `bytes`, converted to 8-bit RGB (`to_rgb8`). The decoded picture is named
/// (`decoded_rgb`) rather than described: the contract claims only that it
/// depends on the name and the bytes alone, and that an error comes exactly
/// when no picture is decoded. Nothing is said of the length of the bytes
/// returned.
#[verifier::external_body]
fn decode_rgb8(path: &str, bytes: &[u8]) -> (res: Result<(u32, u32, Vec<u8>), image::ImageError>)
    ensures
        match res {
            Ok(r) => decoded_rgb(path@, bytes@) == Some((r.0, r.1, r.2@)),
            Err(_) => decoded_rgb(path@, bytes@) is None,
        },
{
    let format = image::ImageFormat::from_path(path)?;
    let rgb = image::load_from_memory_with_format(bytes, format)?.to_rgb8();
    Ok((rgb.width(), rgb.height(), rgb.into_raw()))
}

/// Why a picture could not be read.
pub enum PictureError {
    /// The bytes do not decode as a picture of the format the name gives.
    Decode(image::ImageError),
}

/// The pixel made of the three bytes of `raw` that start at `3 * i`.
pub open spec fn triple_at(raw: Seq<u8>, i: int) -> Seq<u8> {
    seq![raw[3 * i], raw[3 * i + 1], raw[3 * i + 2]]
}

impl Img {
    /// Builds a picture from its dimensions and its pixels packed as
    /// consecutive red, green, blue bytes; bytes after the last whole pixel
    /// are ignored.
    pub fn from_rgb_bytes(width: u32, height: u32, raw: &Vec<u8>) -> (res: Img)
        ensures
            res.width == width,
            res.height == height,
            res.data@.len() == raw@.len() / 3,
            forall|i: int| 0 <= i < res.data@.len() ==> (#[trigger] res.data@[i])@ == triple_at(raw@, i),
    {
        let len = raw.len();
        let count = len / 3;
        let mut data: Vec<[u8; 3]> = Vec::new();
        let mut i: usize = 0;
        while i < count
            invariant
                len == raw@.len(),
                count == raw@.len() / 3,
                i <= count,
                data@.len() == i,
                forall|j: int| 0 <= j < i ==> (#[trigger] data@[j])@ == triple_at(raw@, j),
            decreases count - i,
        {
            assert(3 * i + 2 < raw@.len()) by (nonlinear_arith)
                requires
                    i < count,
                    count == raw@.len() / 3,
            ;
            let k: usize = 3 * i;
            let px: [u8; 3] = [raw[k], raw[k + 1], raw[k + 2]];
            assert(px@ =~= triple_at(raw@, i as int));
            data.push(px);
            i = i + 1;
        }
        Img { width, height, data }
    }
}


/// A buffer of three bytes for each of `width * height` pixels gives exactly
/// `width * height` pixels.
pub proof fn lemma_whole_buffer(width: u32, height: u32, len: nat)
    requires
        len == 3 * (width * height),
    ensures
        len / 3 == width * height,
{
}

/// Decodes the picture file named `path` whose content is `bytes`.
pub fn decode_picture(path: &str, bytes: &[u8]) -> (res: Result<Img, PictureError>)
    ensures
        match decoded_rgb(path@, bytes@) {
            Some(d) => res matches Ok(img) && img.width == d.0 && img.height == d.1
                && img.data@.len() == d.2.len() / 3
                && forall|i: int| 0 <= i < img.data@.len() ==> (#[trigger] img.data@[i])@ == triple_at(d.2, i),
            None => res is Err,
        },
{
    match decode_rgb8(path, bytes) {
        Ok((width, height, raw)) => Ok(Img::from_rgb_bytes(width, height, &raw)),
        Err(e) => Err(PictureError::Decode(e)),
    }
}

/// Integer division by two that rounds toward zero, as `/` does on `i32`.
pub open spec fn half_toward_zero(a: int) -> int {
    if a >= 0 {
        a / 2
    } else {
        -((-a) / 2)
    }
}

/// The part of the terminal a picture is drawn on: `scaled_height` rows of
/// `scaled_width` cells, shifted by the offsets.
#[derive(Debug, Clone, Copy, PartialEq, Eq, Structural)]
pub struct Layout {
    pub scaled_height: i32,
    pub scaled_width: i32,
    pub x_offset: i32,
    pub y_offset: i32,
}

fn half_i32(a: i32) -> (res: i32)
    ensures
        res == half_toward_zero(a as int),
{
    if a >= 0 {
        a / 2
    } else {
        let n: i64 = -(a as i64);
        let h: i64 = n / 2;
        (-h) as i32
    }
}

/// Layout at one cell per pixel: the picture is centered horizontally and
/// starts one row above the top of the terminal.
pub fn native_layout(img: &Img, rows: i32, cols: i32) -> (res: Layout)
    requires
        img.width <= i32::MAX,
        img.height <= i32::MAX,
        cols - img.width >= i32::MIN,
    ensures
        res.scaled_height == img.height,
        res.scaled_width == img.width,
        res.x_offset == half_toward_zero(cols - img.width),
        res.y_offset == -1,
{
    let h = img.height as i32;
    let w = img.width as i32;
    Layout { scaled_height: h, scaled_width: w, x_offset: half_i32(cols - w), y_offset: -1 }
}

/// Layout of a picture scaled to `h` rows of `w` cells, centered on a
/// terminal of `rows` by `cols` cells.
pub fn scaled_layout(rows: i32, cols: i32, h: i32, w: i32) -> (res: Layout)
    requires
        i32::MIN <= cols - w <= i32::MAX,
        i32::MIN <= rows - h <= i32::MAX,
    ensures
        res.scaled_height == h,
        res.scaled_width == w,
        res.x_offset == half_toward_zero(cols - w),
        res.y_offset == half_toward_zero(rows - h),
{
    Layout { scaled_height: h, scaled_width: w, x_offset: half_i32(cols - w), y_offset: half_i32(rows - h) }
}

/// The source coordinates `0, 1, ..., n - 1`: one pixel per cell.
pub fn identity_map(n: u32) -> (res: Vec<u32>)
    ensures
        res@.len() == n,
        forall|i: int| 0 <= i < n ==> res@[i] == i,
{
    let mut res: Vec<u32> = Vec::new();
    let mut i: u32 = 0;
    while i < n
        invariant
            i <= n,
            res@.len() == i,
            forall|j: int| 0 <= j < i ==> res@[j] == j,
        decreases n - i,
    {
        res.push(i);
        i = i + 1;
    }
    res
}

/// One terminal cell to paint: its row, its column and the pixel shown there.
#[derive(Debug, Clone, Copy)]
pub struct Cell {
    pub y: i32,
    pub x: i32,
    pub pixel: [u8; 3],
}

/// The inputs of a drawing: the picture, where it goes, the terminal size, and
/// for each drawn row and column the picture row and column it shows.
pub struct Frame {
    pub img: Img,
    pub layout: Layout,
    pub rows: i32,
    pub cols: i32,
    pub src_rows: Seq<u32>,
    pub src_cols: Seq<u32>,
}

impl Frame {
    /// Cell `(y, x)` of the scaled picture lies on the terminal.
    pub open spec fn on_screen(self, y: int, x: int) -> bool {
        &&& 0 <= y + self.layout.y_offset < self.rows
        &&& 0 <= x + self.layout.x_offset < self.cols
    }

    /// Index into the picture's pixels of the pixel shown at `(y, x)`.
    pub open spec fn pixel_index(self, y: int, x: int) -> int {
        self.src_rows[y] * self.img.width + self.src_cols[x]
    }

    /// Cell `(y, x)` is painted: it is on screen and its pixel exists.
    pub open spec fn painted(self, y: int, x: int) -> bool {
        self.on_screen(y, x) && self.pixel_index(y, x) < self.img.data@.len()
    }

    pub open spec fn cell(self, y: int, x: int) -> Cell {
        Cell {
            y: (y + self.layout.y_offset) as i32,
            x: (x + self.layout.x_offset) as i32,
            pixel: self.img.data@[self.pixel_index(y, x)],
        }
    }

    /// The painted cells of row `y` among its first `n` columns, left to right.
    pub open spec fn row_cells(self, y: int, n: int) -> Seq<Cell>
        decreases n,
    {
        if n <= 0 {
            seq![]
        } else {
            let prev = self.row_cells(y, n - 1);
            if self.painted(y, n - 1) {
                prev.push(self.cell(y, n - 1))
            } else {
                prev
            }
        }
    }

    /// The painted cells of the first `n` rows, row by row.
    pub open spec fn grid_cells(self, n: int) -> Seq<Cell>
        decreases n,
    {
        if n <= 0 {
            seq![]
        } else {
            self.grid_cells(n - 1) + self.row_cells(n - 1, self.layout.scaled_width as int)
        }
    }

    /// Every painted cell of the picture, in drawing order.
    pub open spec fn cells(self) -> Seq<Cell> {
        self.grid_cells(self.layout.scaled_height as int)
    }

    /// The drawing is well posed: one source row per drawn row and one source
    /// column per drawn column, source coordinates inside the picture, and no
    /// arithmetic leaves the machine integers.
    pub open spec fn well_posed(self) -> bool {
        &&& self.layout.scaled_height >= 0
        &&& self.layout.scaled_width >= 0
        &&& self.src_rows.len() == self.layout.scaled_height
        &&& self.src_cols.len() == self.layout.scaled_width
        &&& forall|y: int| 0 <= y < self.src_rows.len() ==> #[trigger] self.src_rows[y] < self.img.height
        &&& forall|x: int| 0 <= x < self.src_cols.len() ==> #[trigger] self.src_cols[x] < self.img.width
        &&& self.img.height * self.img.width <= u32::MAX + 1
        &&& self.layout.scaled_height + self.layout.y_offset <= i32::MAX + 1
        &&& self.layout.scaled_width + self.layout.x_offset <= i32::MAX + 1
    }
}

proof fn lemma_hidden_row(f: Frame, y: int, n: int)
    requires
        !(0 <= y + f.layout.y_offset < f.rows),
    ensures
        f.row_cells(y, n) == Seq::<Cell>::empty(),
    decreases n,
{
    if n > 0 {
        lemma_hidden_row(f, y, n - 1);
    }
}

proof fn lemma_index_fits(y: u32, x: u32, h: u32, w: u32)
    requires
        y < h,
        x < w,
        h * w <= u32::MAX + 1,
    ensures
        y * w + x <= u32::MAX,
        y * w <= u32::MAX,
{
    assert(y * w + x < h * w) by (nonlinear_arith)
        requires
            y < h,
            x < w,
    ;
    assert(y * w <= y * w + x);
}

/// The cells to paint, row by row and left to right: every cell of the scaled
/// picture that lies on the terminal and whose source pixel exists, with that
/// pixel.
pub fn visible_cells(
    img: &Img,
    layout: &Layout,
    rows: i32,
    cols: i32,
    src_rows: &Vec<u32>,
    src_cols: &Vec<u32>,
) -> (res: Vec<Cell>)
    requires
        (Frame { img: *img, layout: *layout, rows, cols, src_rows: src_rows@, src_cols: src_cols@ }).well_posed(),
    ensures
        res@ == (Frame { img: *img, layout: *layout, rows, cols, src_rows: src_rows@, src_cols: src_cols@ }).cells(),
{
    let ghost f = Frame { img: *img, layout: *layout, rows, cols, src_rows: src_rows@, src_cols: src_cols@ };
    let mut cells: Vec<Cell> = Vec::new();
    let mut y: i32 = 0;
    while y < layout.scaled_height
        invariant
            f == (Frame { img: *img, layout: *layout, rows, cols, src_rows: src_rows@, src_cols: src_cols@ }),
            f.well_posed(),
            0 <= y <= layout.scaled_height,
            cells@ == f.grid_cells(y as int),
        decreases layout.scaled_height - y,
    {
        let draw_y = y + layout.y_offset;
        if draw_y >= rows || draw_y < 0 {
            proof {
                lemma_hidden_row(f, y as int, layout.scaled_width as int);
            }
        } else {
            let mut x: i32 = 0;
            while x < layout.scaled_width
                invariant
                    f == (Frame { img: *img, layout: *layout, rows, cols, src_rows: src_rows@, src_cols: src_cols@ }),
                    f.well_posed(),
                    0 <= y < layout.scaled_height,
                    draw_y == y + layout.y_offset,
                    0 <= draw_y < rows,
                    0 <= x <= layout.scaled_width,
                    cells@ == f.grid_cells(y as int) + f.row_cells(y as int, x as int),
                decreases layout.scaled_width - x,
            {
                let draw_x = x + layout.x_offset;
                if draw_x >= cols || draw_x < 0 {
                } else {
                    let img_y = src_rows[y as usize];
                    let img_x = src_cols[x as usize];
                    assert(img_y < img.height && img_x < img.width);
                    proof {
                        lemma_index_fits(img_y, img_x, img.height, img.width);
                    }
                    let index: u32 = img_y * img.width + img_x;
                    if (index as usize) < img.data.len() {
                        let pixel = img.data[index as usize];
                        cells.push(Cell { y: draw_y, x: draw_x, pixel });
                    }
                }
                x = x + 1;
            }
        }
        y = y + 1;
    }
    cells
}


proof fn lemma_row_on_screen(f: Frame, y: int, n: int)
    requires
        n <= f.layout.scaled_width,
    ensures
        forall|i: int| 0 <= i < f.row_cells(y, n).len() ==>
            0 <= (#[trigger] f.row_cells(y, n)[i]).y < f.rows && 0 <= f.row_cells(y, n)[i].x < f.cols,
    decreases n,
{
    if n > 0 {
        lemma_row_on_screen(f, y, n - 1);
        let prev = f.row_cells(y, n - 1);
        if f.painted(y, n - 1) {
            let c = f.cell(y, n - 1);
            assert(0 <= c.y < f.rows && 0 <= c.x < f.cols);
            assert forall|i: int| 0 <= i < f.row_cells(y, n).len() implies
                0 <= (#[trigger] f.row_cells(y, n)[i]).y < f.rows && 0 <= f.row_cells(y, n)[i].x < f.cols by {
                if i < prev.len() {
                    assert(f.row_cells(y, n)[i] == prev[i]);
                }
            }
        }
    }
}

proof fn lemma_grid_on_screen(f: Frame, n: int)
    requires
        n <= f.layout.scaled_height,
        f.layout.scaled_width >= 0,
    ensures
        forall|i: int| 0 <= i < f.grid_cells(n).len() ==>
            0 <= (#[trigger] f.grid_cells(n)[i]).y < f.rows && 0 <= f.grid_cells(n)[i].x < f.cols,
    decreases n,
{
    if n > 0 {
        lemma_grid_on_screen(f, n - 1);
        lemma_row_on_screen(f, n - 1, f.layout.scaled_width as int);
        let a = f.grid_cells(n - 1);
        let b = f.row_cells(n - 1, f.layout.scaled_width as int);
        assert forall|i: int| 0 <= i < f.grid_cells(n).len() implies
            0 <= (#[trigger] f.grid_cells(n)[i]).y < f.rows && 0 <= f.grid_cells(n)[i].x < f.cols by {
            if i < a.len() {
                assert(f.grid_cells(n)[i] == a[i]);
            } else {
                assert(f.grid_cells(n)[i] == b[i - a.len()]);
            }
        }
    }
}

/// Nothing is drawn off the terminal: every painted cell has a row in
/// `0..rows` and a column in `0..cols`.
pub proof fn lemma_cells_on_screen(f: Frame)
    requires
        f.layout.scaled_width >= 0,
    ensures
        forall|i: int| 0 <= i < f.cells().len() ==>
            0 <= (#[trigger] f.cells()[i]).y < f.rows && 0 <= f.cells()[i].x < f.cols,
{
    lemma_grid_on_screen(f, f.layout.scaled_height as int);
}

/// The cells to paint when the picture is drawn at one cell per pixel
/// (`native_layout`, each cell showing the pixel at its own row and column).
pub fn native_cells(img: &Img, rows: i32, cols: i32) -> (res: Vec<Cell>)
    requires
        img.width <= i32::MAX,
        img.height <= i32::MAX,
        cols - img.width >= i32::MIN,
        img.height * img.width <= u32::MAX + 1,
    ensures
        ({
            let layout = Layout {
                scaled_height: img.height as i32,
                scaled_width: img.width as i32,
                x_offset: half_toward_zero(cols - img.width) as i32,
                y_offset: -1i32,
            };
            let f = Frame {
                img: *img,
                layout,
                rows,
                cols,
                src_rows: Seq::new(img.height as nat, |i: int| i as u32),
                src_cols: Seq::new(img.width as nat, |i: int| i as u32),
            };
            res@ == f.cells()
        }),
{
    let layout = native_layout(img, rows, cols);
    let src_rows = identity_map(img.height);
    let src_cols = identity_map(img.width);
    assert(src_rows@ =~= Seq::new(img.height as nat, |i: int| i as u32));
    assert(src_cols@ =~= Seq::new(img.width as nat, |i: int| i as u32));
    visible_cells(img, &layout, rows, cols, &src_rows, &src_cols)
}

/// The color pair a palette color is drawn with, or `None` when the cell is
/// drawn in the terminal's default color (the greys and white, or everything
/// when `BLACKWHITE` is set). Pair `n + 1` holds palette color `n`.
pub fn color_pair_for(color_idx: usize) -> (res: Option<i16>)
    requires
        color_idx < i16::MAX,
    ensures
        res == (if !BLACKWHITE && color_idx != 7 && color_idx != 8 && color_idx != 15 {
            Some((color_idx + 1) as i16)
        } else {
            None::<i16>
        }),
{
    if !BLACKWHITE && color_idx != 7 && color_idx != 8 && color_idx != 15 {
        Some((color_idx + 1) as i16)
    } else {
        None
    }
}

/// The characters that stand for increasing brightness: the default set, or
/// the second set when `unicode` is set.
pub open spec fn brightness_chars(unicode: bool) -> Seq<char> {
    if !unicode {
        seq![' ', '.', ',', '"', ';', '*', '%', '#', '$']
    } else {
        seq![' ', ' ', '.', ':', '-', '=', '+', '*', '#', '%', '@']
    }
}

/// The highest brightness level of a character set (its length minus one).
pub fn max_brightness_level(unicode: bool) -> (res: usize)
    ensures
        res == brightness_chars(unicode).len() - 1,
{
    if !unicode {
        8
    } else {
        10
    }
}

/// The character drawn for brightness level `level`.
pub fn brightness_char(level: usize, unicode: bool) -> (res: char)
    requires
        level < brightness_chars(unicode).len(),
    ensures
        res == brightness_chars(unicode)[level as int],
{
    let chars: Vec<char> = if !unicode {
        vec![' ', '.', ',', '"', ';', '*', '%', '#', '$']
    } else {
        vec![' ', ' ', '.', ':', '-', '=', '+', '*', '#', '%', '@']
    };
    assert(chars@ =~= brightness_chars(unicode));
    chars[level]
}

/// Where in the ramp the character drawn for `level` first occurs.
pub open spec fn ramp_position(unicode: bool, level: int) -> int {
    match crate::commands::first_index_of(brightness_chars(unicode), brightness_chars(unicode)[level]) {
        Some(k) => k,
        None => -1,
    }
}

proof fn lemma_first_index_at(s: Seq<char>, c: char, l: int)
    requires
        0 <= l < s.len(),
        s[l] == c,
        forall|k: int| 0 <= k < l ==> s[k] != c,
    ensures
        crate::commands::first_index_of(s, c) == Some(l),
    decreases l,
{
    if l > 0 {
        assert(s[0] != c);
        let t = s.drop_first();
        assert forall|k: int| 0 <= k < l - 1 implies t[k] != c by {
            assert(t[k] == s[k + 1]);
        }
        lemma_first_index_at(t, c, l - 1);
    }
}

proof fn lemma_ramp_position(unicode: bool, level: int)
    requires
        0 <= level < brightness_chars(unicode).len(),
    ensures
        ramp_position(unicode, level) == (if unicode && level == 1 { 0 } else { level }),
{
    let s = brightness_chars(unicode);
    let p: int = if unicode && level == 1 { 0 } else { level };
    assert(s[p] == s[level]);
    assert forall|k: int| 0 <= k < p implies s[k] != s[level] by {
        if unicode {
            assert(s =~= seq![' ', ' ', '.', ':', '-', '=', '+', '*', '#', '%', '@']);
        } else {
            assert(s =~= seq![' ', '.', ',', '"', ';', '*', '%', '#', '$']);
        }
    }
    lemma_first_index_at(s, s[level], p);
}

/// A brighter level never gives a character that comes earlier in the ramp.
pub proof fn lemma_brighter_never_earlier(unicode: bool, l1: int, l2: int)
    requires
        0 <= l1 <= l2 < brightness_chars(unicode).len(),
    ensures
        ramp_position(unicode, l1) <= ramp_position(unicode, l2),
{
    lemma_ramp_position(unicode, l1);
    lemma_ramp_position(unicode, l2);
}

} // verus!
