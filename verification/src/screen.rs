//! Pixel dimensions of the view and of exported images and videos, with the
//! short names ("1080p", "4k", "8k") that save files use for the common ones.

use vstd::prelude::*;

use crate::text::{
    count_and_first, count_char, decimal_text, first_char_index, parse_usize, parse_usize_fails,
    push_decimal, text_chars,
};

verus! {

broadcast use vstd::string::group_string_axioms;

/// A width and a height in pixels.
#[derive(Clone, Copy, Debug, PartialEq, Eq)]
pub struct ScreenDimensions {
    x: usize,
    y: usize,
}

/// The text that names the dimensions `(x, y)` in save files and file names.
pub open spec fn dimensions_text(x: nat, y: nat) -> Seq<char> {
    if x == 1920 && y == 1080 {
        "1080p"@
    } else if x == 3840 && y == 2160 {
        "4k"@
    } else if x == 7680 && y == 4320 {
        "8k"@
    } else {
        decimal_text(x) + seq!['x'] + decimal_text(y)
    }
}

/// What reading the text `s` as dimensions gives: `Ok((width, height))`, or
/// the error message.
pub open spec fn dimensions_from_text(s: Seq<char>) -> Result<(nat, nat), Seq<char>> {
    if s == "1080p"@ {
        Ok((1920, 1080))
    } else if s == "4k"@ {
        Ok((3840, 2160))
    } else if s == "8k"@ {
        Ok((7680, 4320))
    } else if count_char(s, 'x') != 1 {
        Err("incorrect number of dimensions"@)
    } else {
        let k = first_char_index(s, 'x');
        let w = s.subrange(0, k);
        let h = s.subrange(k + 1, s.len() as int);
        if parse_usize_fails(w) {
            Err("unable to parse width"@)
        } else if parse_usize_fails(h) {
            Err("unable to parse height"@)
        } else {
            Ok((
                crate::text::unsigned_text_value(w).unwrap(),
                crate::text::unsigned_text_value(h).unwrap(),
            ))
        }
    }
}

impl ScreenDimensions {
    /// The width in pixels.
    pub closed spec fn width_spec(&self) -> nat {
        self.x as nat
    }

    /// The height in pixels.
    pub closed spec fn height_spec(&self) -> nat {
        self.y as nat
    }

    /// Dimensions `x` pixels wide and `y` pixels high.
    pub fn new(x: usize, y: usize) -> (d: ScreenDimensions)
        ensures
            d.width_spec() == x,
            d.height_spec() == y,
    {
        ScreenDimensions { x, y }
    }

    /// Dimensions from a `(width, height)` pair.
    pub fn from_tuple(dimensions: (usize, usize)) -> (d: ScreenDimensions)
        ensures
            d.width_spec() == dimensions.0,
            d.height_spec() == dimensions.1,
    {
        ScreenDimensions { x: dimensions.0, y: dimensions.1 }
    }

    /// The width in pixels.
    pub fn width(&self) -> (w: usize)
        ensures
            w == self.width_spec(),
    {
        self.x
    }

    /// The height in pixels.
    pub fn height(&self) -> (h: usize)
        ensures
            h == self.height_spec(),
    {
        self.y
    }

    /// The width and height of an 8k image.
    pub fn tuple_8k() -> (t: (usize, usize))
        ensures
            t == (7680usize, 4320usize),
    {
        (7680, 4320)
    }

    /// The width and height of a 4k image.
    pub fn tuple_4k() -> (t: (usize, usize))
        ensures
            t == (3840usize, 2160usize),
    {
        (3840, 2160)
    }

    /// The width and height of a 1080p image.
    pub fn tuple_1080p() -> (t: (usize, usize))
        ensures
            t == (1920usize, 1080usize),
    {
        (1920, 1080)
    }

    /// Returns the text that names these dimensions: "1080p", "4k" or "8k" for
    /// those resolutions, `"{width}x{height}"` for any other.
    pub fn to_string(&self) -> (s: String)
        ensures
            s@ == dimensions_text(self.width_spec(), self.height_spec()),
    {
        if self.x == 1920 && self.y == 1080 {
            String::from_str("1080p")
        } else if self.x == 3840 && self.y == 2160 {
            String::from_str("4k")
        } else if self.x == 7680 && self.y == 4320 {
            String::from_str("8k")
        } else {
            let mut s = String::new();
            push_decimal(&mut s, self.x);
            s.append("x");
            push_decimal(&mut s, self.y);
            proof {
                reveal_strlit("x");
            }
            s
        }
    }

    /// Reads dimensions from their name in a save file: "1080p", "4k", "8k",
    /// or `"{width}x{height}"` with two unsigned numbers.
    pub fn from_str(dims: &str) -> (r: Result<ScreenDimensions, &'static str>)
        ensures
            match dimensions_from_text(dims@) {
                Ok((w, h)) => r matches Ok(d) && d.width_spec() == w && d.height_spec() == h,
                Err(msg) => r matches Err(e) && e@ == msg,
            },
    {
        let chars = text_chars(dims);
        if str_equals(dims, "1080p") {
            return Ok(ScreenDimensions::from_tuple(ScreenDimensions::tuple_1080p()));
        }
        if str_equals(dims, "4k") {
            return Ok(ScreenDimensions::from_tuple(ScreenDimensions::tuple_4k()));
        }
        if str_equals(dims, "8k") {
            return Ok(ScreenDimensions::from_tuple(ScreenDimensions::tuple_8k()));
        }
        let n = chars.len();
        proof {
            reveal_strlit("incorrect number of dimensions");
            reveal_strlit("unable to parse width");
            reveal_strlit("unable to parse height");
        }
        let (count, first) = count_and_first(dims, 'x');
        if count != 1 {
            return Err("incorrect number of dimensions");
        }
        let width_text = dims.substring_char(0, first);
        let height_text = dims.substring_char(first + 1, n);
        let x = match parse_usize(width_text) {
            None => return Err("unable to parse width"),
            Some(width) => width,
        };
        let y = match parse_usize(height_text) {
            None => return Err("unable to parse height"),
            Some(height) => height,
        };
        Ok(ScreenDimensions::from_tuple((x, y)))
    }

    /// The number of pixels.
    pub fn numpixels(&self) -> (n: usize)
        requires
            self.width_spec() * self.height_spec() <= usize::MAX,
        ensures
            n == self.width_spec() * self.height_spec(),
    {
        self.x * self.y
    }
}

/// Whether two texts are equal, character for character.
pub fn str_equals(a: &str, b: &str) -> (r: bool)
    ensures
        r == (a@ == b@),
{
    let ac = text_chars(a);
    let bc = text_chars(b);
    if ac.len() != bc.len() {
        return false;
    }
    let mut i: usize = 0;
    while i < ac.len()
        invariant
            ac@ == a@,
            bc@ == b@,
            ac@.len() == bc@.len(),
            i <= ac@.len(),
            forall|j: int| 0 <= j < i ==> a@[j] == b@[j],
        decreases ac@.len() - i,
    {
        if ac[i] != bc[i] {
            return false;
        }
        i = i + 1;
    }
    assert(a@ == b@);
    true
}


/// The name of dimensions holds no comma and no line break.
pub proof fn lemma_dimensions_text_no_comma(x: nat, y: nat)
    ensures
        forall|i: int| 0 <= i < dimensions_text(x, y).len() ==> dimensions_text(x, y)[i] != ',',
        forall|i: int| 0 <= i < dimensions_text(x, y).len() ==> dimensions_text(x, y)[i] != '\n',
{
    reveal_strlit("1080p");
    reveal_strlit("4k");
    reveal_strlit("8k");
    crate::text::lemma_decimal_text_reads_back(x);
    crate::text::lemma_decimal_text_reads_back(y);
    let s = dimensions_text(x, y);
    if !(x == 1920 && y == 1080) && !(x == 3840 && y == 2160) && !(x == 7680 && y == 4320) {
        let a = decimal_text(x);
        let b = decimal_text(y);
        assert forall|i: int| 0 <= i < s.len() implies s[i] != ',' && s[i] != '\n' by {
            if i < a.len() {
                assert(s[i] == a[i]);
                assert(crate::text::is_digit(a[i]));
            } else if i > a.len() {
                assert(s[i] == b[i - a.len() - 1]);
                assert(crate::text::is_digit(b[i - a.len() - 1]));
            }
        }
    }
}

/// Reading back the name written for dimensions gives those dimensions.
pub proof fn lemma_dimensions_text_round_trip(x: usize, y: usize)
    ensures
        dimensions_from_text(dimensions_text(x as nat, y as nat)) == Ok::<(nat, nat), Seq<char>>(
            (x as nat, y as nat),
        ),
{
    reveal_strlit("1080p");
    reveal_strlit("4k");
    reveal_strlit("8k");
    let s = dimensions_text(x as nat, y as nat);
    if !(x == 1920 && y == 1080) && !(x == 3840 && y == 2160) && !(x == 7680 && y == 4320) {
        let a = decimal_text(x as nat);
        let b = decimal_text(y as nat);
        crate::text::lemma_decimal_text_reads_back(x as nat);
        crate::text::lemma_decimal_text_reads_back(y as nat);
        assert(forall|i: int| 0 <= i < a.len() ==> a[i] != 'x');
        assert(forall|i: int| 0 <= i < b.len() ==> b[i] != 'x');
        crate::text::lemma_count_char_absent(a, 'x');
        crate::text::lemma_count_char_absent(b, 'x');
        crate::text::lemma_count_char_append(a, seq!['x'], 'x');
        crate::text::lemma_count_char_append(a + seq!['x'], b, 'x');
        assert(count_char(seq!['x'], 'x') == 1) by {
            assert(seq!['x'].drop_last() =~= Seq::<char>::empty());
            assert(count_char(Seq::<char>::empty(), 'x') == 0);
            assert(seq!['x'].last() == 'x');
        }
        crate::text::lemma_first_char_index_after(a, b, 'x');
        assert(s[a.len() as int] == 'x');
        assert(s != "1080p"@);
        assert(s != "4k"@);
        assert(s != "8k"@);
    }
}

/// The resolutions an image can be exported at.
#[derive(Clone, Copy, PartialEq, Eq, Structural, Debug)]
pub enum ScreenshotResolution {
    R1080p,
    R4k,
    R8k,
    Custom,
}

/// The width and height of a resolution; a custom one is `width` by `height`.
pub open spec fn resolution_dimensions(r: ScreenshotResolution, width: nat, height: nat) -> (nat, nat) {
    match r {
        ScreenshotResolution::R1080p => (1920, 1080),
        ScreenshotResolution::R4k => (3840, 2160),
        ScreenshotResolution::R8k => (7680, 4320),
        ScreenshotResolution::Custom => (width, height),
    }
}

/// The name shown for a resolution.
pub open spec fn resolution_name(r: ScreenshotResolution) -> Seq<char> {
    match r {
        ScreenshotResolution::R1080p => "1080p"@,
        ScreenshotResolution::R4k => "4k"@,
        ScreenshotResolution::R8k => "8k"@,
        ScreenshotResolution::Custom => "Custom"@,
    }
}

impl ScreenshotResolution {
    /// Returns the dimensions of the resolution; a custom one is `width` by
    /// `height`.
    pub fn to_screen_dimensions(&self, width: usize, height: usize) -> (d: ScreenDimensions)
        ensures
            (d.width_spec(), d.height_spec()) == resolution_dimensions(*self, width as nat, height as nat),
    {
        ScreenDimensions::from_tuple(
            match self {
                ScreenshotResolution::R1080p => ScreenDimensions::tuple_1080p(),
                ScreenshotResolution::R4k => ScreenDimensions::tuple_4k(),
                ScreenshotResolution::R8k => ScreenDimensions::tuple_8k(),
                ScreenshotResolution::Custom => (width, height),
            },
        )
    }

    /// The resolutions offered to the user, in menu order.
    pub fn get_variants() -> (v: Vec<ScreenshotResolution>)
        ensures
            v@ == seq![
                ScreenshotResolution::R1080p,
                ScreenshotResolution::R4k,
                ScreenshotResolution::R8k,
                ScreenshotResolution::Custom,
            ],
    {
        vec![
            ScreenshotResolution::R1080p,
            ScreenshotResolution::R4k,
            ScreenshotResolution::R8k,
            ScreenshotResolution::Custom,
        ]
    }

    /// The name shown for the resolution.
    pub fn get_string(&self) -> (s: String)
        ensures
            s@ == resolution_name(*self),
    {
        match self {
            ScreenshotResolution::R1080p => String::from_str("1080p"),
            ScreenshotResolution::R4k => String::from_str("4k"),
            ScreenshotResolution::R8k => String::from_str("8k"),
            ScreenshotResolution::Custom => String::from_str("Custom"),
        }
    }
}

/// A named resolution's dimensions are saved under the name shown for it.
pub proof fn lemma_resolution_names_its_dimensions(r: ScreenshotResolution, width: nat, height: nat)
    requires
        r != ScreenshotResolution::Custom,
    ensures
        dimensions_text(
            resolution_dimensions(r, width, height).0,
            resolution_dimensions(r, width, height).1,
        ) == resolution_name(r),
{
}

} // verus!
