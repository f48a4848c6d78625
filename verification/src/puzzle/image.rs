//! Images in layers: each layer is a rectangle of pixels, and the first layer
//! lies on top.

use vstd::prelude::*;

verus! {

/// One pixel in one layer of an image.
#[derive(Debug, Clone, Copy, PartialEq, Eq, Structural)]
pub enum Pixel {
    Black,
    White,
    Transparent,
}

impl Pixel {
    /// The pixel that the character `c` stands for, if it stands for one.
    pub open spec fn of_char(c: char) -> Option<Pixel> {
        if c == '0' {
            Some(Pixel::Black)
        } else if c == '1' {
            Some(Pixel::White)
        } else if c == '2' {
            Some(Pixel::Transparent)
        } else {
            None
        }
    }

    /// The number of the pixel's colour.
    pub open spec fn spec_value(self) -> u8 {
        match self {
            Pixel::Black => 0,
            Pixel::White => 1,
            Pixel::Transparent => 2,
        }
    }

    /// The character that the pixel is drawn with.
    pub open spec fn drawn(self) -> char {
        match self {
            Pixel::Black => ' ',
            Pixel::White => '#',
            Pixel::Transparent => '.',
        }
    }

    /// The pixel that one of the characters `0`, `1` and `2` stands for.
    pub fn new(c: char) -> (pixel: Self)
        requires
            Pixel::of_char(c) is Some,
        ensures
            Pixel::of_char(c) == Some(pixel),
    {
        if c == '0' {
            Pixel::Black
        } else if c == '1' {
            Pixel::White
        } else {
            Pixel::Transparent
        }
    }

    /// The number of the pixel's colour.
    pub fn value(self) -> (value: u8)
        ensures
            value == self.spec_value(),
    {
        match self {
            Pixel::Black => 0,
            Pixel::White => 1,
            Pixel::Transparent => 2,
        }
    }

    /// The character that the pixel is drawn with.
    pub fn to_char(self) -> (c: char)
        ensures
            c == self.drawn(),
    {
        match self {
            Pixel::Black => ' ',
            Pixel::White => '#',
            Pixel::Transparent => '.',
        }
    }

    /// Whether the pixel hides what lies below it.
    pub fn is_visible(self) -> (visible: bool)
        ensures
            visible == (self != Pixel::Transparent),
    {
        match self {
            Pixel::Transparent => false,
            _ => true,
        }
    }
}

/// Whether every layer of `img` has `height` rows of `width` pixels.
pub open spec fn well_formed(img: Seq<Vec<Vec<Pixel>>>, height: int, width: int) -> bool {
    &&& forall|d: int| 0 <= d < img.len() ==> (#[trigger] img[d])@.len() == height
    &&& forall|d: int, h: int|
        0 <= d < img.len() && 0 <= h < height ==> (#[trigger] img[d]@[h])@.len() == width
}

/// The pixel of layer `d` in row `h` and column `w`.
pub open spec fn pixel_at(img: Seq<Vec<Vec<Pixel>>>, d: int, h: int, w: int) -> Pixel {
    img[d]@[h]@[w]
}

/// The first layer from `d` on whose pixel at row `h` and column `w` is not
/// transparent, or the number of layers where there is none.
pub open spec fn first_visible_layer(img: Seq<Vec<Vec<Pixel>>>, h: int, w: int, d: int) -> int
    decreases img.len() - d,
{
    if d < 0 || d >= img.len() || pixel_at(img, d, h, w) != Pixel::Transparent {
        d
    } else {
        first_visible_layer(img, h, w, d + 1)
    }
}

/// What is seen of the image at row `h` and column `w`: the pixel of the first
/// layer in which it is not transparent.
pub open spec fn visible_at(img: Seq<Vec<Vec<Pixel>>>, h: int, w: int) -> Option<Pixel> {
    let d = first_visible_layer(img, h, w, 0);
    if d < img.len() {
        Some(pixel_at(img, d, h, w))
    } else {
        None
    }
}

/// The character that is seen of the image at row `h` and column `w`.
pub open spec fn shown_at(img: Seq<Vec<Vec<Pixel>>>, h: int, w: int) -> Option<char> {
    match visible_at(img, h, w) {
        Some(pixel) => Some(pixel.drawn()),
        None => None,
    }
}

/// The first layer with a visible pixel lies within the image, or is the number
/// of layers; every layer before it is transparent there.
pub proof fn lemma_first_visible_layer(img: Seq<Vec<Vec<Pixel>>>, h: int, w: int, d: int)
    requires
        0 <= d <= img.len(),
    ensures
        d <= first_visible_layer(img, h, w, d) <= img.len(),
        first_visible_layer(img, h, w, d) < img.len() ==> pixel_at(
            img,
            first_visible_layer(img, h, w, d),
            h,
            w,
        ) != Pixel::Transparent,
        forall|k: int|
            d <= k < first_visible_layer(img, h, w, d) ==> #[trigger] pixel_at(img, k, h, w)
                == Pixel::Transparent,
    decreases img.len() - d,
{
    if d < img.len() && pixel_at(img, d, h, w) == Pixel::Transparent {
        lemma_first_visible_layer(img, h, w, d + 1);
    }
}

/// The first visible pixel, top to bottom, at row `h` and column `w`.
pub fn first_visible_pixel(img: &Vec<Vec<Vec<Pixel>>>, h: usize, w: usize) -> (pixel: Option<Pixel>)
    requires
        forall|d: int|
            0 <= d < img@.len() ==> h < (#[trigger] img@[d])@.len() && w < img@[d]@[h as int]@.len(),
    ensures
        pixel == visible_at(img@, h as int, w as int),
{
    let mut d: usize = 0;
    while d < img.len()
        invariant
            d <= img@.len(),
            forall|k: int|
                0 <= k < img@.len() ==> h < (#[trigger] img@[k])@.len() && w < img@[k]@[h as int]@.len(),
            first_visible_layer(img@, h as int, w as int, 0) == first_visible_layer(
                img@,
                h as int,
                w as int,
                d as int,
            ),
        decreases img@.len() - d,
    {
        let pixel: Pixel = img[d][h][w];
        if pixel.is_visible() {
            return Some(pixel);
        }
        d = d + 1;
    }
    None
}

/// What is seen of an image whose layers have `height` rows of `width` pixels:
/// the rows of its visible pixels, drawn as characters. `None` where all layers
/// are transparent at some place.
pub fn render(img: &Vec<Vec<Vec<Pixel>>>, height: usize, width: usize) -> (rows: Option<
    Vec<Vec<char>>,
>)
    requires
        well_formed(img@, height as int, width as int),
    ensures
        match rows {
            Some(rows) => {
                &&& rows@.len() == height
                &&& forall|h: int| 0 <= h < height ==> (#[trigger] rows@[h])@.len() == width
                &&& forall|h: int, w: int|
                    0 <= h < height && 0 <= w < width ==> shown_at(img@, h, w) == Some(
                        #[trigger] rows@[h]@[w],
                    )
            },
            None => exists|h: int, w: int|
                0 <= h < height && 0 <= w < width && #[trigger] visible_at(img@, h, w) is None,
        },
{
    let mut rows: Vec<Vec<char>> = Vec::new();
    let mut h: usize = 0;
    while h < height
        invariant
            h <= height,
            well_formed(img@, height as int, width as int),
            rows@.len() == h,
            forall|i: int| 0 <= i < h ==> (#[trigger] rows@[i])@.len() == width,
            forall|i: int, w: int|
                0 <= i < h && 0 <= w < width ==> shown_at(img@, i, w) == Some(
                    #[trigger] rows@[i]@[w],
                ),
        decreases height - h,
    {
        let mut row: Vec<char> = Vec::new();
        let mut w: usize = 0;
        while w < width
            invariant
                h < height,
                w <= width,
                well_formed(img@, height as int, width as int),
                row@.len() == w,
                forall|j: int|
                    0 <= j < w ==> shown_at(img@, h as int, j) == Some(#[trigger] row@[j]),
            decreases width - w,
        {
            assert forall|d: int| 0 <= d < img@.len() implies h < (#[trigger] img@[d])@.len() && w
                < img@[d]@[h as int]@.len() by {
                assert(img@[d]@.len() == height);
                assert(img@[d]@[h as int]@.len() == width);
            }
            match first_visible_pixel(img, h, w) {
                Some(pixel) => {
                    row.push(pixel.to_char());
                },
                None => {
                    return None;
                },
            }
            w = w + 1;
        }
        let ghost before = rows@;
        let ghost last = row;
        rows.push(row);
        assert(rows@[h as int] == last);
        assert forall|i: int| 0 <= i < h + 1 implies (#[trigger] rows@[i])@.len() == width by {
            if i < h {
                assert(rows@[i] == before[i]);
            }
        }
        assert forall|i: int, w: int| 0 <= i < h + 1 && 0 <= w < width implies shown_at(
            img@,
            i,
            w,
        ) == Some(#[trigger] rows@[i]@[w]) by {
            if i < h {
                assert(rows@[i] == before[i]);
            }
        }
        h = h + 1;
    }
    Some(rows)
}

/// The image that `text` holds: layer after layer, row after row, each pixel
/// one of the characters `0`, `1` and `2`. `None` where the text holds another
/// character, or does not fill a whole number of layers.
pub fn read_input(text: &Vec<char>, height: usize, width: usize) -> (img: Option<
    Vec<Vec<Vec<Pixel>>>,
>)
    requires
        0 < height,
        0 < width,
        height * width <= usize::MAX,
    ensures
        match img {
            Some(img) => {
                &&& img@.len() * (height * width) == text@.len()
                &&& well_formed(img@, height as int, width as int)
                &&& forall|d: int, h: int, w: int|
                    0 <= d < img@.len() && 0 <= h < height && 0 <= w < width ==> Pixel::of_char(
                        text@[(d * height + h) * width + w],
                    ) == Some(#[trigger] pixel_at(img@, d, h, w))
            },
            None => (text@.len() as int) % (height * width) != 0 || exists|k: int|
                0 <= k < text@.len() && Pixel::of_char(#[trigger] text@[k]) is None,
        },
{
    let size: usize = height * width;
    let n: usize = text.len();
    assert(size > 0) by (nonlinear_arith)
        requires
            size == height * width,
            0 < height,
            0 < width,
    ;
    if n % size != 0 {
        return None;
    }
    let depth: usize = n / size;
    assert(depth * size == n) by (nonlinear_arith)
        requires
            n % size == 0,
            depth == n / size,
            size > 0,
    ;
    let mut layers: Vec<Vec<Vec<Pixel>>> = Vec::new();
    let mut next: usize = 0;
    let mut d: usize = 0;
    while d < depth
        invariant
            d <= depth,
            size == height * width,
            0 < height,
            0 < width,
            depth * size == n,
            n == text@.len(),
            next == d * size,
            layers@.len() == d,
            well_formed(layers@, height as int, width as int),
            forall|i: int, h: int, w: int|
                0 <= i < d && 0 <= h < height && 0 <= w < width ==> Pixel::of_char(
                    text@[(i * height + h) * width + w],
                ) == Some(#[trigger] pixel_at(layers@, i, h, w)),
        decreases depth - d,
    {
        let mut layer: Vec<Vec<Pixel>> = Vec::new();
        let mut h: usize = 0;
        while h < height
            invariant
                d < depth,
                h <= height,
                size == height * width,
                0 < width,
                depth * size == n,
                n == text@.len(),
                next == d * size + h * width,
                layer@.len() == h,
                forall|i: int| 0 <= i < h ==> (#[trigger] layer@[i])@.len() == width,
                forall|i: int, w: int|
                    0 <= i < h && 0 <= w < width ==> Pixel::of_char(
                        text@[(d * height + i) * width + w],
                    ) == Some(#[trigger] layer@[i]@[w]),
            decreases height - h,
        {
            let mut row: Vec<Pixel> = Vec::new();
            let mut w: usize = 0;
            proof {
                lemma_place(d as int, h as int, height as int, width as int, depth as int);
            }
            while w < width
                invariant
                    w <= width,
                    next == d * size + h * width + w,
                    next - w + width <= n,
                    n == text@.len(),
                    d * size + h * width == (d * height + h) * width,
                    row@.len() == w,
                    forall|j: int|
                        0 <= j < w ==> Pixel::of_char(text@[(d * height + h) * width + j]) == Some(
                            #[trigger] row@[j],
                        ),
                decreases width - w,
            {
                let c: char = text[next];
                if !(c == '0' || c == '1' || c == '2') {
                    return None;
                }
                row.push(Pixel::new(c));
                next = next + 1;
                w = w + 1;
            }
            let ghost rows_before = layer@;
            let ghost last_row = row;
            layer.push(row);
            assert(layer@[h as int] == last_row);
            assert forall|i: int, w: int| 0 <= i < h + 1 && 0 <= w < width implies Pixel::of_char(
                text@[(d * height + i) * width + w],
            ) == Some(#[trigger] layer@[i]@[w]) by {
                if i < h {
                    assert(layer@[i] == rows_before[i]);
                }
            }
            assert forall|i: int| 0 <= i < h + 1 implies (#[trigger] layer@[i])@.len() == width by {
                if i < h {
                    assert(layer@[i] == rows_before[i]);
                }
            }
            assert(d * size + h * width + width == d * size + (h + 1) * width)
                by (nonlinear_arith);
            h = h + 1;
        }
        proof {
            assert(d * size + height * width == (d + 1) * size) by (nonlinear_arith)
                requires
                    size == height * width,
            ;
        }
        let ghost before = layers@;
        let ghost last = layer;
        layers.push(layer);
        assert(layers@[d as int] == last);
        assert forall|i: int, h: int, w: int|
            0 <= i < d + 1 && 0 <= h < height && 0 <= w < width implies Pixel::of_char(
            text@[(i * height + h) * width + w],
        ) == Some(#[trigger] pixel_at(layers@, i, h, w)) by {
            if i < d {
                assert(layers@[i] == before[i]);
                assert(pixel_at(layers@, i, h, w) == pixel_at(before, i, h, w));
            }
        }
        assert(well_formed(layers@, height as int, width as int)) by {
            assert forall|i: int| 0 <= i < layers@.len() implies (#[trigger] layers@[i])@.len()
                == height by {
                if i < d {
                    assert(layers@[i] == before[i]);
                }
            }
            assert forall|i: int, h: int| 0 <= i < layers@.len() && 0 <= h < height implies (
            #[trigger] layers@[i]@[h])@.len() == width by {
                if i < d {
                    assert(layers@[i] == before[i]);
                    assert(before[i]@[h]@.len() == width);
                }
            }
        }
        d = d + 1;
    }
    assert(layers@.len() * (height * width) == text@.len());
    Some(layers)
}

/// Row `h` of layer `d` lies within the text.
proof fn lemma_place(d: int, h: int, height: int, width: int, depth: int)
    requires
        0 <= d < depth,
        0 <= h < height,
        0 < width,
    ensures
        d * (height * width) + h * width == (d * height + h) * width,
        d * (height * width) + h * width + width <= depth * (height * width),
{
    assert(d * (height * width) + h * width == (d * height + h) * width) by (nonlinear_arith);
    assert(d * height + h + 1 <= depth * height) by (nonlinear_arith)
        requires
            0 <= d < depth,
            0 <= h < height,
    ;
    assert((d * height + h + 1) * width <= (depth * height) * width) by (nonlinear_arith)
        requires
            d * height + h + 1 <= depth * height,
            0 < width,
    ;
    assert((d * height + h + 1) * width == d * (height * width) + h * width + width)
        by (nonlinear_arith);
    assert((depth * height) * width == depth * (height * width)) by (nonlinear_arith);
}

/// How many of the first `n` pixels of `row` are `p`.
pub open spec fn tally_row(row: Seq<Pixel>, p: Pixel, n: int) -> nat
    decreases n,
{
    if n <= 0 {
        0
    } else {
        tally_row(row, p, n - 1) + if row[n - 1] == p {
            1nat
        } else {
            0nat
        }
    }
}

/// How many pixels of the first `h` rows of `layer` are `p`.
pub open spec fn tally(layer: Seq<Vec<Pixel>>, p: Pixel, h: int) -> nat
    decreases h,
{
    if h <= 0 {
        0
    } else {
        tally(layer, p, h - 1) + tally_row(layer[h - 1]@, p, layer[h - 1]@.len() as int)
    }
}

/// How many pixels of `layer` are black, white and transparent.
pub open spec fn tallies(layer: Seq<Vec<Pixel>>) -> (nat, nat, nat) {
    (
        tally(layer, Pixel::Black, layer.len() as int),
        tally(layer, Pixel::White, layer.len() as int),
        tally(layer, Pixel::Transparent, layer.len() as int),
    )
}

/// Whether `a` comes before `b`: it has fewer first numbers, or as many and
/// fewer second ones, or as many of both and fewer third ones.
pub open spec fn fewer(a: (nat, nat, nat), b: (nat, nat, nat)) -> bool {
    a.0 < b.0 || (a.0 == b.0 && (a.1 < b.1 || (a.1 == b.1 && a.2 < b.2)))
}

/// The first among the first `n` layers before which none of them comes.
pub open spec fn fewest(img: Seq<Vec<Vec<Pixel>>>, n: int) -> int
    decreases n,
{
    if n <= 1 {
        0
    } else {
        let best = fewest(img, n - 1);
        if fewer(tallies(img[n - 1]@), tallies(img[best]@)) {
            n - 1
        } else {
            best
        }
    }
}

/// There are no more pixels of a kind than there are pixels.
proof fn lemma_tally(layer: Seq<Vec<Pixel>>, p: Pixel, h: int, width: int)
    requires
        0 <= h <= layer.len(),
        0 <= width,
        forall|i: int| 0 <= i < layer.len() ==> (#[trigger] layer[i])@.len() == width,
    ensures
        tally(layer, p, h) <= h * width,
    decreases h,
{
    if h > 0 {
        lemma_tally(layer, p, h - 1, width);
        lemma_tally_row(layer[h - 1]@, p, width);
        assert((h - 1) * width + width == h * width) by (nonlinear_arith);
    } else {
        assert(0 * width == 0);
    }
}

/// There are no more pixels of a kind in a row than the row is long.
proof fn lemma_tally_row(row: Seq<Pixel>, p: Pixel, n: int)
    requires
        0 <= n,
    ensures
        tally_row(row, p, n) <= n,
    decreases n,
{
    if n > 0 {
        lemma_tally_row(row, p, n - 1);
    }
}

/// How many pixels of `layer` are black, white and transparent.
fn count_layer(layer: &Vec<Vec<Pixel>>, height: usize, width: usize) -> (counts: (
    usize,
    usize,
    usize,
))
    requires
        layer@.len() == height,
        forall|i: int| 0 <= i < layer@.len() ==> (#[trigger] layer@[i])@.len() == width,
        height * width <= usize::MAX,
    ensures
        (counts.0 as nat, counts.1 as nat, counts.2 as nat) == tallies(layer@),
        counts.0 <= height * width,
        counts.1 <= height * width,
        counts.2 <= height * width,
{
    let mut freqs: (usize, usize, usize) = (0, 0, 0);
    let mut h: usize = 0;
    while h < height
        invariant
            h <= height == layer@.len(),
            forall|i: int| 0 <= i < layer@.len() ==> (#[trigger] layer@[i])@.len() == width,
            height * width <= usize::MAX,
            freqs.0 == tally(layer@, Pixel::Black, h as int),
            freqs.1 == tally(layer@, Pixel::White, h as int),
            freqs.2 == tally(layer@, Pixel::Transparent, h as int),
        decreases height - h,
    {
        let row: &Vec<Pixel> = &layer[h];
        let ghost before = freqs;
        proof {
            lemma_tally(layer@, Pixel::Black, h as int + 1, width as int);
            lemma_tally(layer@, Pixel::White, h as int + 1, width as int);
            lemma_tally(layer@, Pixel::Transparent, h as int + 1, width as int);
            assert((h + 1) * width <= height * width) by (nonlinear_arith)
                requires
                    h + 1 <= height,
                    0 <= width,
            ;
        }
        let mut w: usize = 0;
        while w < row.len()
            invariant
                w <= row@.len() == width,
                freqs.0 == before.0 + tally_row(row@, Pixel::Black, w as int),
                freqs.1 == before.1 + tally_row(row@, Pixel::White, w as int),
                freqs.2 == before.2 + tally_row(row@, Pixel::Transparent, w as int),
                before.0 + tally_row(row@, Pixel::Black, width as int) <= usize::MAX,
                before.1 + tally_row(row@, Pixel::White, width as int) <= usize::MAX,
                before.2 + tally_row(row@, Pixel::Transparent, width as int) <= usize::MAX,
            decreases row@.len() - w,
        {
            proof {
                lemma_tally_row_grows(row@, Pixel::Black, w as int + 1, width as int);
                lemma_tally_row_grows(row@, Pixel::White, w as int + 1, width as int);
                lemma_tally_row_grows(row@, Pixel::Transparent, w as int + 1, width as int);
            }
            match row[w] {
                Pixel::Black => {
                    freqs.0 = freqs.0 + 1;
                },
                Pixel::White => {
                    freqs.1 = freqs.1 + 1;
                },
                Pixel::Transparent => {
                    freqs.2 = freqs.2 + 1;
                },
            }
            w = w + 1;
        }
        h = h + 1;
    }
    proof {
        lemma_tally(layer@, Pixel::Black, height as int, width as int);
        lemma_tally(layer@, Pixel::White, height as int, width as int);
        lemma_tally(layer@, Pixel::Transparent, height as int, width as int);
    }
    freqs
}

/// The count of a kind in the first pixels of a row is no more than the count
/// in more of them.
proof fn lemma_tally_row_grows(row: Seq<Pixel>, p: Pixel, m: int, n: int)
    requires
        m <= n,
    ensures
        tally_row(row, p, m) <= tally_row(row, p, n),
    decreases n - m,
{
    if m < n {
        lemma_tally_row_grows(row, p, m, n - 1);
    }
}

/// Finds the layer with the fewest black pixels, the first of those with the
/// fewest white and transparent ones among several, and returns the number of
/// its white pixels times the number of its transparent pixels.
pub fn part1(img: &Vec<Vec<Vec<Pixel>>>, height: usize, width: usize) -> (product: u128)
    requires
        img@.len() > 0,
        well_formed(img@, height as int, width as int),
        height * width <= usize::MAX,
    ensures
        product == tallies(img@[fewest(img@, img@.len() as int)]@).1 * tallies(
            img@[fewest(img@, img@.len() as int)]@,
        ).2,
{
    let mut best: (usize, usize, usize) = count_layer(&img[0], height, width);
    let mut d: usize = 1;
    while d < img.len()
        invariant
            1 <= d <= img@.len(),
            well_formed(img@, height as int, width as int),
            height * width <= usize::MAX,
            (best.0 as nat, best.1 as nat, best.2 as nat) == tallies(
                img@[fewest(img@, d as int)]@,
            ),
        decreases img@.len() - d,
    {
        let counts: (usize, usize, usize) = count_layer(&img[d], height, width);
        if counts.0 < best.0 || (counts.0 == best.0 && (counts.1 < best.1 || (counts.1 == best.1
            && counts.2 < best.2))) {
            best = counts;
        }
        d = d + 1;
    }
    let (_, ones, twos) = best;
    assert(ones * twos <= usize::MAX * usize::MAX) by (nonlinear_arith)
        requires
            0 <= ones <= usize::MAX,
            0 <= twos <= usize::MAX,
    ;
    (ones as u128) * (twos as u128)
}

} // verus!
