//! The text of the explorer's save files: the fractal line, the parameter
//! text of a view, the timestamps of a video, and the files that hold them
//! behind a checksum line.
//!
//! Numbers that the explorer keeps as floating point (the centre, the
//! magnification, the seed of a Julia set, a timestamp's position) are held
//! here as the text that the file holds for them.

use vstd::prelude::*;

use crate::lines::{
    join_str, join_text, lacks, lemma_find_first, lemma_join_push, lemma_join_split,
    lemma_no_match_in_prefix,
    lemma_occurs_char, lemma_split_join, lemma_split_step, lemma_split_whole, pieces_lack,
    split_str, split_text, string_views,
};
use crate::screen::{dimensions_text, lemma_dimensions_text_no_comma, str_equals, ScreenDimensions};
use crate::video::{
    lemma_video_header_round_trip, parse_video_header, video_header, video_header_from_text,
    video_header_text,
};
use crate::text::{
    between_end, between_start, calculate_checksum, check_chesum, checksum_matches, decimal_text,
    digit_sum, get_str_between, is_digit, lemma_ascii_start_found, last_line, last_newline, lemma_decimal_text_reads_back, lemma_last_line_after,
    lemma_digit_sum_append, lemma_digit_sum_bound, occurs_at, push_decimal, text_chars,
};

verus! {

broadcast use vstd::string::group_string_axioms;

/// The text of the two coordinates of a Julia seed: real part, imaginary part.
pub type SeedText = (Seq<char>, Seq<char>);

// ---------------------------------------------------------------------------
// The fractal line
// ---------------------------------------------------------------------------

/// The seed of a Julia set: the text of its real and imaginary parts.
#[derive(Clone, Debug)]
pub struct JuliaSeed {
    pub re: String,
    pub im: String,
}

/// The fractal being explored.
#[derive(Clone, Debug)]
pub enum Fractal {
    Mandelbrot,
    Julia(JuliaSeed),
}

impl View for Fractal {
    /// `None` for the Mandelbrot set, the seed's text for a Julia set.
    type V = Option<SeedText>;

    open spec fn view(&self) -> Option<SeedText> {
        match self {
            Fractal::Mandelbrot => None,
            Fractal::Julia(seed) => Some((seed.re@, seed.im@)),
        }
    }
}

/// The text a seed is saved as: its two parts separated by a comma.
pub open spec fn seed_text(seed: SeedText) -> Seq<char> {
    seed.0 + seq![','] + seed.1
}

/// The line a fractal is saved as.
pub open spec fn fractal_text(f: Option<SeedText>) -> Seq<char> {
    match f {
        None => "Mandelbrot"@,
        Some(seed) => "Julia("@ + seed_text(seed) + seq![')'],
    }
}

/// What reading a seed gives: the first two comma-separated fields, when
/// there are at least two.
pub open spec fn seed_from_text(s: Seq<char>) -> Option<SeedText> {
    let values = split_str(s, seq![',']);
    if values.len() >= 2 {
        Some((values[0], values[1]))
    } else {
        None
    }
}

/// What reading a fractal line gives: `Some(None)` for the Mandelbrot set,
/// `Some(Some(seed))` for a line that starts with `Julia` and holds a seed
/// between its first `(` and the next `)`, and `None` for any other line.
pub open spec fn fractal_from_text(s: Seq<char>) -> Option<Option<SeedText>> {
    if s == "Mandelbrot"@ {
        Some(None)
    } else if s.len() >= 5 && s.subrange(0, 5) == "Julia"@ {
        match seed_from_text(s.subrange(between_start(s, "("@), between_end(s, "("@, ")"@))) {
            Some(seed) => Some(Some(seed)),
            None => None,
        }
    } else {
        None
    }
}

/// A seed whose parts can be written and read back: neither holds a comma, a
/// closing bracket or a line break.
pub open spec fn seed_valid(seed: SeedText) -> bool {
    &&& forall|j: int| 0 <= j < seed.0.len() ==> seed.0[j] != ',' && seed.0[j] != ')' && seed.0[j] != '\n'
    &&& forall|j: int| 0 <= j < seed.1.len() ==> seed.1[j] != ',' && seed.1[j] != ')' && seed.1[j] != '\n'
}

/// A fractal whose line can be written and read back.
pub open spec fn fractal_valid(f: Option<SeedText>) -> bool {
    match f {
        None => true,
        Some(seed) => seed_valid(seed),
    }
}

impl JuliaSeed {
    /// Makes a seed from the text of its two parts.
    pub fn new(re: String, im: String) -> (s: JuliaSeed)
        ensures
            s.re@ == re@,
            s.im@ == im@,
    {
        JuliaSeed { re, im }
    }

    /// Returns the text the seed is saved as: real part, comma, imaginary part.
    pub fn get_export_string(&self) -> (s: String)
        ensures
            s@ == seed_text((self.re@, self.im@)),
    {
        let mut s = self.re.clone();
        s.append(",");
        s.append(self.im.as_str());
        proof {
            reveal_strlit(",");
        }
        s
    }

    /// Reads a seed from its saved text: the first two comma-separated
    /// fields, or `None` when there are fewer than two.
    pub fn import_from_str(seed: &str) -> (r: Option<JuliaSeed>)
        ensures
            match seed_from_text(seed@) {
                Some(s) => r matches Some(j) && j.re@ == s.0 && j.im@ == s.1,
                None => r is None,
            },
    {
        proof {
            reveal_strlit(",");
            assert(","@ =~= seq![',']);
        }
        let values = split_text(seed, ",");
        assert(string_views(values@).len() == values@.len());
        if values.len() < 2 {
            return None;
        }
        assert(string_views(values@)[0] == values@[0]@);
        assert(string_views(values@)[1] == values@[1]@);
        Some(JuliaSeed { re: values[0].clone(), im: values[1].clone() })
    }
}

impl Fractal {
    /// Whether this is the Mandelbrot set.
    pub fn is_mandelbrot(&self) -> (b: bool)
        ensures
            b == (self@ is None),
    {
        match self {
            Fractal::Mandelbrot => true,
            _ => false,
        }
    }

    /// Whether this is a Julia set.
    pub fn is_julia(&self) -> (b: bool)
        ensures
            b == (self@ is Some),
    {
        match self {
            Fractal::Julia(_) => true,
            _ => false,
        }
    }

    /// Returns the line the fractal is saved as: `Mandelbrot`, or `Julia`
    /// followed by the seed in brackets.
    pub fn get_export_string(&self) -> (s: String)
        ensures
            s@ == fractal_text(self@),
    {
        proof {
            reveal_strlit("Julia(");
            reveal_strlit(")");
        }
        match self {
            Fractal::Mandelbrot => String::from_str("Mandelbrot"),
            Fractal::Julia(seed) => {
                let mut s = String::from_str("Julia(");
                let inner = seed.get_export_string();
                s.append(inner.as_str());
                s.append(")");
                s
            },
        }
    }

    /// Reads a fractal line, or returns `None` when it names no fractal.
    pub fn import_from_str(fractal: &str) -> (r: Option<Fractal>)
        ensures
            match fractal_from_text(fractal@) {
                Some(f) => r matches Some(g) && g@ == f,
                None => r is None,
            },
    {
        if str_equals(fractal, "Mandelbrot") {
            return Some(Fractal::Mandelbrot);
        }
        let n = text_chars(fractal).len();
        if n < 5 {
            return None;
        }
        if !str_equals(fractal.substring_char(0, 5), "Julia") {
            return None;
        }
        proof {
            reveal_strlit("(");
        }
        proof {
            reveal_strlit("(");
            lemma_ascii_start_found(fractal@, "("@);
        }
        match JuliaSeed::import_from_str(get_str_between(fractal, "(", ")")) {
            Some(seed) => Some(Fractal::Julia(seed)),
            None => None,
        }
    }
}

/// A fractal line reads back as the fractal it was written for.
pub proof fn lemma_fractal_round_trip(f: Option<SeedText>)
    requires
        fractal_valid(f),
    ensures
        fractal_from_text(fractal_text(f)) == Some(f),
{
    reveal_strlit("Mandelbrot");
    reveal_strlit("Julia(");
    reveal_strlit("Julia");
    reveal_strlit("(");
    reveal_strlit(")");
    match f {
        None => {},
        Some(seed) => {
            let (re, im) = seed;
            let s = fractal_text(f);
            let body = seed_text(seed);
            assert(s =~= "Julia("@ + body + seq![')']);
            assert(s != "Mandelbrot"@) by {
                assert(s[0] == 'J');
                assert("Mandelbrot"@[0] == 'M');
            }
            assert(s.subrange(0, 5) =~= "Julia"@);
            // the first `(` is the one after `Julia`
            assert("("@ =~= seq!['(']);
            assert(")"@ =~= seq![')']);
            lemma_occurs_char(s, '(', 5);
            assert forall|i: int| 0 <= i < 5 implies !#[trigger] occurs_at(s, "("@, i) by {
                lemma_occurs_char(s, '(', i);
            }
            lemma_find_first(s, "("@, 5);
            assert(between_start(s, "("@) == 6);
            // the first `)` after it closes the seed
            let rest = s.subrange(6, s.len() as int);
            assert(rest =~= body + seq![')']);
            lemma_occurs_char(rest, ')', body.len() as int);
            assert forall|i: int| 0 <= i < body.len() implies !#[trigger] occurs_at(rest, ")"@, i) by {
                lemma_occurs_char(rest, ')', i);
                if i < re.len() {
                    assert(rest[i] == re[i]);
                } else if i > re.len() {
                    assert(rest[i] == im[i - re.len() - 1]);
                }
            }
            lemma_find_first(rest, ")"@, body.len() as int);
            assert(between_end(s, "("@, ")"@) == 6 + body.len());
            assert(s.subrange(6, 6 + body.len() as int) =~= body);
            // the seed splits into its two parts
            let ps = seq![re, im];
            assert(join_str(ps.drop_first(), seq![',']) == im) by {
                assert(ps.drop_first() =~= seq![im]);
            }
            assert(join_str(ps, seq![',']) =~= body);
            assert(pieces_lack(ps, ',')) by {
                assert forall|i: int, j: int| 0 <= i < ps.len() && 0 <= j < ps[i].len() implies #[trigger] ps[i][j] != ',' by {
                    if i == 0 {
                        assert(ps[i] == re);
                    } else {
                        assert(ps[i] == im);
                    }
                }
            }
            lemma_split_join(ps, ',');
        },
    }
}

// ---------------------------------------------------------------------------
// The parameter text of a view
// ---------------------------------------------------------------------------

/// What a parameter text holds: the fractal, the text of the five numbers
/// that fix the view, and the lines that describe the colour layers.
pub struct ParamsModel {
    pub fractal: Option<SeedText>,
    pub center_re: Seq<char>,
    pub center_im: Seq<char>,
    pub magnification: Seq<char>,
    pub max_iterations: Seq<char>,
    pub bailout2: Seq<char>,
    pub layers: Seq<Seq<char>>,
}

/// The parameters of a view, as a save file holds them.
#[derive(Clone, Debug)]
pub struct VisualiserParams {
    pub fractal: Fractal,
    pub center_re: String,
    pub center_im: String,
    pub magnification: String,
    pub max_iterations: String,
    pub bailout2: String,
    /// The lines that describe the colour layers, one per line.
    pub layers: Vec<String>,
}

impl View for VisualiserParams {
    type V = ParamsModel;

    open spec fn view(&self) -> ParamsModel {
        ParamsModel {
            fractal: self.fractal@,
            center_re: self.center_re@,
            center_im: self.center_im@,
            magnification: self.magnification@,
            max_iterations: self.max_iterations@,
            bailout2: self.bailout2@,
            layers: string_views(self.layers@),
        }
    }
}

/// The line break.
pub open spec fn newline() -> Seq<char> {
    seq!['\n']
}

/// The lines of a parameter text: the fractal, the five labelled numbers, a
/// blank line, then the layer lines.
pub open spec fn params_lines(m: ParamsModel) -> Seq<Seq<char>> {
    seq![
        fractal_text(m.fractal),
        "center (re): "@ + m.center_re,
        "center (im): "@ + m.center_im,
        "magnification: "@ + m.magnification,
        "max iterations: "@ + m.max_iterations,
        "bailout2: "@ + m.bailout2,
        Seq::empty(),
    ] + m.layers
}

/// The parameter text: each of its lines followed by a line break.
pub open spec fn params_text(m: ParamsModel) -> Seq<char> {
    join_str(params_lines(m).push(Seq::empty()), newline())
}

/// The value on a labelled line: what follows its last `": "`.
pub open spec fn param_value(line: Seq<char>) -> Seq<char> {
    split_str(line, ": "@).last()
}

/// What reading the lines of a parameter text gives: nothing when there are
/// fewer than seven lines or the first names no fractal; else the fractal,
/// the values of the next five lines, and the lines after the seventh as the
/// layer lines.
pub open spec fn params_from_lines(lines: Seq<Seq<char>>) -> Option<ParamsModel> {
    if lines.len() < 7 {
        None
    } else {
        match fractal_from_text(lines[0]) {
            None => None,
            Some(f) => Some(
                ParamsModel {
                    fractal: f,
                    center_re: param_value(lines[1]),
                    center_im: param_value(lines[2]),
                    magnification: param_value(lines[3]),
                    max_iterations: param_value(lines[4]),
                    bailout2: param_value(lines[5]),
                    layers: lines.subrange(7, lines.len() as int),
                },
            ),
        }
    }
}

/// What reading a parameter text gives.
pub open spec fn params_from_text(s: Seq<char>) -> Option<ParamsModel> {
    params_from_lines(split_str(s, newline()))
}

/// A value that can be written on a labelled line and read back: it holds no
/// line break and no `": "`.
pub open spec fn value_valid(v: Seq<char>) -> bool {
    &&& forall|j: int| 0 <= j < v.len() ==> v[j] != '\n'
    &&& lacks(v, ": "@)
}

/// Parameters that can be written and read back.
pub open spec fn params_valid(m: ParamsModel) -> bool {
    &&& fractal_valid(m.fractal)
    &&& value_valid(m.center_re)
    &&& value_valid(m.center_im)
    &&& value_valid(m.magnification)
    &&& value_valid(m.max_iterations)
    &&& value_valid(m.bailout2)
    &&& pieces_lack(m.layers, '\n')
}

/// Appends a line break, then `label`, then `value`.
fn push_line(s: &mut String, label: &str, value: &str)
    ensures
        final(s)@ == old(s)@ + newline() + label@ + value@,
{
    s.append("\n");
    s.append(label);
    s.append(value);
    proof {
        reveal_strlit("\n");
        assert(final(s)@ =~= old(s)@ + newline() + label@ + value@);
    }
}

/// Returns the value on a labelled line: what follows its last `": "`, or
/// the whole line when it holds none.
pub fn read_param_value(line: &str) -> (v: String)
    ensures
        v@ == param_value(line@),
{
    proof {
        reveal_strlit(": ");
    }
    let pieces = split_text(line, ": ");
    assert(string_views(pieces@).len() == pieces@.len());
    let last = pieces.len() - 1;
    assert(string_views(pieces@)[last as int] == pieces@[last as int]@);
    pieces[last].clone()
}

impl VisualiserParams {
    /// Returns the parameter text: the fractal line, the five labelled
    /// values, a blank line and the layer lines, each ended by a line break.
    pub fn format_params(&self) -> (s: String)
        ensures
            s@ == params_text(self@),
    {
        let ghost m = self@;
        let ghost all = params_lines(m);
        let mut s = self.fractal.get_export_string();
        proof {
            reveal_strlit("center (re): ");
            reveal_strlit("center (im): ");
            reveal_strlit("magnification: ");
            reveal_strlit("max iterations: ");
            reveal_strlit("bailout2: ");
            reveal_strlit("");
            assert(all.take(1) =~= seq![all[0]]);
        }
        push_line(&mut s, "center (re): ", self.center_re.as_str());
        proof {
            assert(all.take(2) =~= all.take(1).push(all[1]));
            lemma_join_push(all.take(1), all[1], newline());
        }
        push_line(&mut s, "center (im): ", self.center_im.as_str());
        proof {
            assert(all.take(3) =~= all.take(2).push(all[2]));
            lemma_join_push(all.take(2), all[2], newline());
        }
        push_line(&mut s, "magnification: ", self.magnification.as_str());
        proof {
            assert(all.take(4) =~= all.take(3).push(all[3]));
            lemma_join_push(all.take(3), all[3], newline());
        }
        push_line(&mut s, "max iterations: ", self.max_iterations.as_str());
        proof {
            assert(all.take(5) =~= all.take(4).push(all[4]));
            lemma_join_push(all.take(4), all[4], newline());
        }
        push_line(&mut s, "bailout2: ", self.bailout2.as_str());
        proof {
            assert(all.take(6) =~= all.take(5).push(all[5]));
            lemma_join_push(all.take(5), all[5], newline());
        }
        push_line(&mut s, "", "");
        proof {
            assert(all.take(7) =~= all.take(6).push(all[6]));
            lemma_join_push(all.take(6), all[6], newline());
        }
        let mut i: usize = 0;
        while i < self.layers.len()
            invariant
                m == self@,
                all == params_lines(m),
                i <= self.layers@.len(),
                s@ == join_str(all.take(7 + i), newline()),
            decreases self.layers@.len() - i,
        {
            push_line(&mut s, "", self.layers[i].as_str());
            proof {
                reveal_strlit("");
                assert(all[7 + i] == self.layers@[i as int]@);
                assert(s@ =~= join_str(all.take(7 + i), newline()) + newline() + all[7 + i]);
                assert(all.take(7 + i + 1) =~= all.take(7 + i).push(all[7 + i]));
                lemma_join_push(all.take(7 + i), all[7 + i], newline());
            }
            i = i + 1;
        }
        push_line(&mut s, "", "");
        proof {
            assert(all.take(7 + i) =~= all);
            lemma_join_push(all, Seq::empty(), newline());
        }
        s
    }

    /// Reads a parameter text, or returns `None` when it has fewer than seven
    /// lines or its first line names no fractal.
    pub fn import_from_str(params: &str) -> (r: Option<VisualiserParams>)
        ensures
            match params_from_text(params@) {
                Some(m) => r matches Some(p) && p@ == m,
                None => r is None,
            },
    {
        proof {
            reveal_strlit("\n");
            assert("\n"@ =~= newline());
        }
        let lines = split_text(params, "\n");
        let ghost ls = string_views(lines@);
        assert(ls.len() == lines@.len());
        if lines.len() < 7 {
            return None;
        }
        assert forall|k: int| 0 <= k < lines@.len() implies ls[k] == #[trigger] lines@[k]@ by {}
        let fractal = match Fractal::import_from_str(lines[0].as_str()) {
            Some(f) => f,
            None => return None,
        };
        let center_re = read_param_value(lines[1].as_str());
        let center_im = read_param_value(lines[2].as_str());
        let magnification = read_param_value(lines[3].as_str());
        let max_iterations = read_param_value(lines[4].as_str());
        let bailout2 = read_param_value(lines[5].as_str());
        let mut layers: Vec<String> = Vec::new();
        let mut i: usize = 7;
        while i < lines.len()
            invariant
                ls == string_views(lines@),
                ls.len() == lines@.len(),
                7 <= i <= lines@.len(),
                string_views(layers@) == ls.subrange(7, i as int),
            decreases lines@.len() - i,
        {
            let ghost before = string_views(layers@);
            layers.push(lines[i].clone());
            proof {
                assert(ls[i as int] == lines@[i as int]@);
                assert(string_views(layers@) =~= before.push(ls[i as int]));
                assert(ls.subrange(7, i + 1) =~= ls.subrange(7, i as int).push(ls[i as int]));
            }
            i = i + 1;
        }
        let p = VisualiserParams {
            fractal,
            center_re,
            center_im,
            magnification,
            max_iterations,
            bailout2,
            layers,
        };
        Some(p)
    }
}

/// The value of a line made of a label without `:`, then `": "`, then a
/// valid value, is that value.
proof fn lemma_param_value_after_label(head: Seq<char>, v: Seq<char>)
    requires
        forall|j: int| 0 <= j < head.len() ==> head[j] != ':',
        lacks(v, ": "@),
    ensures
        param_value(head + ": "@ + v) == v,
{
    reveal_strlit(": ");
    lemma_no_match_in_prefix(head, ": "@, v);
    lemma_split_step(head, ": "@, v);
    lemma_split_whole(v, ": "@);
}

/// The lines of valid parameters hold no line break, and read back as those
/// parameters.
pub proof fn lemma_params_lines_read_back(m: ParamsModel)
    requires
        params_valid(m),
    ensures
        pieces_lack(params_lines(m), '\n'),
        params_from_lines(params_lines(m)) == Some(m),
{
    reveal_strlit("center (re): ");
    reveal_strlit("center (im): ");
    reveal_strlit("magnification: ");
    reveal_strlit("max iterations: ");
    reveal_strlit("bailout2: ");
    reveal_strlit("center (re)");
    reveal_strlit("center (im)");
    reveal_strlit("magnification");
    reveal_strlit("max iterations");
    reveal_strlit("bailout2");
    reveal_strlit(": ");
    reveal_strlit("Mandelbrot");
    reveal_strlit("Julia(");
    let ls = params_lines(m);
    assert("center (re): "@ =~= "center (re)"@ + ": "@);
    assert("center (im): "@ =~= "center (im)"@ + ": "@);
    assert("magnification: "@ =~= "magnification"@ + ": "@);
    assert("max iterations: "@ =~= "max iterations"@ + ": "@);
    assert("bailout2: "@ =~= "bailout2"@ + ": "@);
    lemma_param_value_after_label("center (re)"@, m.center_re);
    lemma_param_value_after_label("center (im)"@, m.center_im);
    lemma_param_value_after_label("magnification"@, m.magnification);
    lemma_param_value_after_label("max iterations"@, m.max_iterations);
    lemma_param_value_after_label("bailout2"@, m.bailout2);
    lemma_fractal_round_trip(m.fractal);
    assert(ls.subrange(7, ls.len() as int) =~= m.layers);
    assert forall|i: int, j: int| 0 <= i < ls.len() && 0 <= j < ls[i].len() implies #[trigger] ls[i][j] != '\n' by {
        if i == 0 {
            match m.fractal {
                None => {},
                Some(seed) => {
                    let body = seed_text(seed);
                    assert(ls[0] =~= "Julia("@ + body + seq![')']);
                    if 6 <= j < 6 + seed.0.len() {
                        assert(ls[0][j] == seed.0[j - 6]);
                    } else if 6 + seed.0.len() < j < 6 + body.len() {
                        assert(ls[0][j] == seed.1[j - 7 - seed.0.len()]);
                    }
                },
            }
        } else if 1 <= i <= 5 {
            let label = if i == 1 {
                "center (re): "@
            } else if i == 2 {
                "center (im): "@
            } else if i == 3 {
                "magnification: "@
            } else if i == 4 {
                "max iterations: "@
            } else {
                "bailout2: "@
            };
            let v = if i == 1 {
                m.center_re
            } else if i == 2 {
                m.center_im
            } else if i == 3 {
                m.magnification
            } else if i == 4 {
                m.max_iterations
            } else {
                m.bailout2
            };
            assert(ls[i] == label + v);
            if j >= label.len() {
                assert(ls[i][j] == v[j - label.len()]);
            }
        } else if i >= 7 {
            assert(ls[i] == m.layers[i - 7]);
        }
    }
}

// ---------------------------------------------------------------------------
// Save files of a view
// ---------------------------------------------------------------------------

/// What reading a save file gives: `Ignored` when its checksum does not
/// match (the file is left alone), `Malformed` when the checksum matches but
/// the text does not read, else what it holds.
pub enum SaveRead<T> {
    Ignored,
    Malformed,
    Read(T),
}

/// The save file of a view: its parameter text, then the checksum of that
/// text as the last line.
pub open spec fn params_save_text(m: ParamsModel) -> Seq<char> {
    params_text(m) + decimal_text(digit_sum(params_text(m)))
}

/// What reading the save file of a view gives: when the checksum matches,
/// the parameters read from the lines before the checksum line.
pub open spec fn params_save_from_text(s: Seq<char>) -> SaveRead<ParamsModel> {
    if !checksum_matches(s) {
        SaveRead::Ignored
    } else {
        match params_from_text(join_str(split_str(s, newline()).drop_last(), newline())) {
            Some(m) => SaveRead::Read(m),
            None => SaveRead::Malformed,
        }
    }
}

impl VisualiserParams {
    /// Returns the save file of the view: the parameter text, then its
    /// checksum.
    pub fn save_params_text(&self) -> (s: String)
        requires
            params_text(self@).len() * 9 <= usize::MAX,
        ensures
            s@ == params_save_text(self@),
    {
        let mut s = self.format_params();
        let sum = calculate_checksum(s.as_str());
        push_decimal(&mut s, sum);
        s
    }

    /// Reads the save file of a view.
    pub fn read_params_save(text: &str) -> (r: SaveRead<VisualiserParams>)
        requires
            text@.len() * 9 <= usize::MAX,
        ensures
            match params_save_from_text(text@) {
                SaveRead::Ignored => r is Ignored,
                SaveRead::Malformed => r is Malformed,
                SaveRead::Read(m) => r matches SaveRead::Read(p) && p@ == m,
            },
    {
        if !check_chesum(text) {
            return SaveRead::Ignored;
        }
        proof {
            reveal_strlit("\n");
            assert("\n"@ =~= newline());
        }
        let mut lines = split_text(text, "\n");
        let ghost all = string_views(lines@);
        assert(all.len() == lines@.len());
        lines.pop();
        assert(string_views(lines@) =~= all.drop_last());
        let body = join_text(&lines, "\n");
        match VisualiserParams::import_from_str(body.as_str()) {
            Some(p) => SaveRead::Read(p),
            None => SaveRead::Malformed,
        }
    }
}

/// A view's save file reads back as the view's parameters.
pub proof fn lemma_params_save_round_trip(m: ParamsModel)
    requires
        params_valid(m),
        params_text(m).len() * 9 <= usize::MAX,
    ensures
        params_save_from_text(params_save_text(m)) == SaveRead::Read(m),
{
    let ls = params_lines(m);
    let t = params_text(m);
    let d = decimal_text(digit_sum(t));
    let s = t + d;
    lemma_params_lines_read_back(m);
    lemma_decimal_text_reads_back(digit_sum(t));
    lemma_join_push(ls, Seq::empty(), newline());
    lemma_join_push(ls, d, newline());
    assert(t =~= join_str(ls, newline()) + newline());
    assert(s =~= join_str(ls.push(d), newline()));
    // the checksum line
    assert forall|j: int| 0 <= j < d.len() implies d[j] != '\n' by {
        assert(is_digit(d[j]));
    }
    lemma_last_line_after(t, d);
    lemma_digit_sum_bound(t);
    lemma_digit_sum_append(t, d);
    assert(checksum_matches(s));
    // the lines
    assert(pieces_lack(ls.push(d), '\n')) by {
        assert forall|i: int, j: int| 0 <= i < ls.push(d).len() && 0 <= j < ls.push(d)[i].len() implies #[trigger] ls.push(d)[i][j] != '\n' by {
            if i < ls.len() {
                assert(ls.push(d)[i] == ls[i]);
                assert(ls[i][j] != '\n');
            } else {
                assert(ls.push(d)[i] == d);
            }
        }
    }
    lemma_split_join(ls.push(d), '\n');
    assert(ls.push(d).drop_last() =~= ls);
    lemma_split_join(ls, '\n');
}

// ---------------------------------------------------------------------------
// Video timestamps
// ---------------------------------------------------------------------------

/// A timestamp as a save file holds it: the parameters of the view, and the
/// text of the timestamp's position in the video.
pub type TimestampModel = (ParamsModel, Seq<char>);

/// A timestamp of a video: the view at that point, and the text of its
/// position in the video (a fraction from 0 to 1).
#[derive(Clone, Debug)]
pub struct VideoTimestamp {
    pub params: VisualiserParams,
    pub percent: String,
}

impl View for VideoTimestamp {
    type V = TimestampModel;

    open spec fn view(&self) -> TimestampModel {
        (self.params@, self.percent@)
    }
}

/// The text of a timestamp: its parameter text, then its position on a line
/// of its own.
pub open spec fn timestamp_text(t: TimestampModel) -> Seq<char> {
    params_text(t.0) + t.1 + newline()
}

/// What reading the text of a timestamp gives: its lines without a leading
/// and a trailing empty line; the last of them is the position and the others
/// are the parameter text. `None` when no line is left for the position or
/// the parameters do not read.
pub open spec fn timestamp_from_text(s: Seq<char>) -> Option<TimestampModel> {
    let all = split_str(s, newline());
    let lines = if all[0].len() == 0 {
        all.drop_first()
    } else {
        all
    };
    if lines.len() == 0 {
        None
    } else {
        let lines = if lines.last().len() == 0 {
            lines.drop_last()
        } else {
            lines
        };
        if lines.len() == 0 {
            None
        } else {
            match params_from_text(join_str(lines.drop_last(), newline())) {
                Some(m) => Some((m, lines.last())),
                None => None,
            }
        }
    }
}

/// A timestamp that can be written and read back.
pub open spec fn timestamp_valid(t: TimestampModel) -> bool {
    &&& params_valid(t.0)
    &&& forall|j: int| 0 <= j < t.1.len() ==> t.1[j] != '\n'
}

impl VideoTimestamp {
    /// Returns the text of the timestamp: its parameter text, then its
    /// position on a line of its own.
    pub fn get_save(&self) -> (s: String)
        ensures
            s@ == timestamp_text(self@),
    {
        let mut s = self.params.format_params();
        s.append(self.percent.as_str());
        s.append("\n");
        proof {
            reveal_strlit("\n");
            assert(s@ =~= timestamp_text(self@));
        }
        s
    }

    /// Reads the text of a timestamp.
    pub fn import_from_str(timestamp: &str) -> (r: Option<VideoTimestamp>)
        ensures
            match timestamp_from_text(timestamp@) {
                Some(t) => r matches Some(v) && v@ == t,
                None => r is None,
            },
    {
        proof {
            reveal_strlit("\n");
            assert("\n"@ =~= newline());
        }
        let mut lines = split_text(timestamp, "\n");
        let ghost all = string_views(lines@);
        assert(all.len() == lines@.len());
        assert(all[0] == lines@[0]@);
        if lines[0].as_str().is_empty() {
            lines.remove(0);
            assert(string_views(lines@) =~= all.drop_first());
        }
        let ghost first = string_views(lines@);
        assert(first.len() == lines@.len());
        if lines.len() == 0 {
            return None;
        }
        let last = lines.len() - 1;
        assert(first[last as int] == lines@[last as int]@);
        if lines[last].as_str().is_empty() {
            lines.pop();
            assert(string_views(lines@) =~= first.drop_last());
        }
        let ghost kept = string_views(lines@);
        assert(kept.len() == lines@.len());
        if lines.len() == 0 {
            return None;
        }
        let percent = match lines.pop() {
            Some(p) => p,
            None => return None,
        };
        assert(string_views(lines@) =~= kept.drop_last());
        let body = join_text(&lines, "\n");
        match VisualiserParams::import_from_str(body.as_str()) {
            Some(params) => Some(VideoTimestamp { params, percent }),
            None => None,
        }
    }
}

/// The text of a timestamp reads back as that timestamp, also behind a
/// leading line break.
pub proof fn lemma_timestamp_round_trip(t: TimestampModel)
    requires
        timestamp_valid(t),
    ensures
        timestamp_from_text(timestamp_text(t)) == Some(t),
        timestamp_from_text(newline() + timestamp_text(t)) == Some(t),
{
    reveal_strlit("Mandelbrot");
    reveal_strlit("Julia(");
    let (m, pct) = t;
    let ls = params_lines(m);
    let e = Seq::<char>::empty();
    lemma_params_lines_read_back(m);
    lemma_join_push(ls, e, newline());
    lemma_join_push(ls, pct, newline());
    lemma_join_push(ls.push(pct), e, newline());
    let all = ls.push(pct).push(e);
    let text = timestamp_text(t);
    assert(text =~= join_str(all, newline()));
    assert(pieces_lack(all, '\n')) by {
        assert forall|i: int, j: int| 0 <= i < all.len() && 0 <= j < all[i].len() implies #[trigger] all[i][j] != '\n' by {
            if i < ls.len() {
                assert(all[i] == ls[i]);
                assert(ls[i][j] != '\n');
            } else if i == ls.len() {
                assert(all[i] == pct);
            }
        }
    }
    lemma_split_join(all, '\n');
    lemma_split_join(ls, '\n');
    assert(all[0] == fractal_text(m.fractal));
    assert(all[0].len() > 0);
    assert(all.drop_last() =~= ls.push(pct));
    assert(ls.push(pct).drop_last() =~= ls);
    // behind a leading line break, the first line is empty and dropped
    assert(newline() + text =~= e + newline() + text);
    lemma_split_step(e, newline(), text);
    assert((seq![e] + all).drop_first() =~= all);
}

// ---------------------------------------------------------------------------
// The save file of a video
// ---------------------------------------------------------------------------

/// What a video save file holds: the width and height of the frames, the
/// number of frames, and the timestamps.
pub type VideoModel = (nat, nat, nat, Seq<TimestampModel>);

/// The saved state of a video recording.
#[derive(Clone, Debug)]
pub struct VideoSave {
    pub dimensions: ScreenDimensions,
    pub frames: usize,
    pub timestamps: Vec<VideoTimestamp>,
}

/// The view of each timestamp of `v`.
pub open spec fn timestamp_views(v: Seq<VideoTimestamp>) -> Seq<TimestampModel> {
    v.map_values(|t: VideoTimestamp| t@)
}

impl View for VideoSave {
    type V = VideoModel;

    open spec fn view(&self) -> VideoModel {
        (
            self.dimensions.width_spec(),
            self.dimensions.height_spec(),
            self.frames as nat,
            timestamp_views(self.timestamps@),
        )
    }
}

/// The marker that ends each timestamp in a video save file.
pub open spec fn stamp_end() -> Seq<char> {
    seq!['t', 's']
}

/// The timestamps of a video save file: each one's text, then `ts` on a line
/// of its own.
pub open spec fn stamps_text(st: Seq<TimestampModel>) -> Seq<char>
    decreases st.len(),
{
    if st.len() == 0 {
        Seq::empty()
    } else {
        timestamp_text(st[0]) + stamp_end() + newline() + stamps_text(st.drop_first())
    }
}

/// A video save file before its checksum line: the header line, then the
/// timestamps.
pub open spec fn video_body_text(w: nat, h: nat, frames: nat, st: Seq<TimestampModel>) -> Seq<char> {
    video_header_text(w, h, frames) + newline() + stamps_text(st)
}

/// A video save file: its body, then the checksum of the body.
pub open spec fn video_file_text(w: nat, h: nat, frames: nat, st: Seq<TimestampModel>) -> Seq<char> {
    video_body_text(w, h, frames, st) + decimal_text(digit_sum(video_body_text(w, h, frames, st)))
}

/// What reading the pieces of a video save file between its `ts` markers
/// gives: each piece read as a timestamp, or `None` when one does not read.
pub open spec fn stamps_from_chunks(chunks: Seq<Seq<char>>) -> Option<Seq<TimestampModel>>
    decreases chunks.len(),
{
    if chunks.len() == 0 {
        Some(Seq::empty())
    } else {
        match (stamps_from_chunks(chunks.drop_last()), timestamp_from_text(chunks.last())) {
            (Some(st), Some(t)) => Some(st.push(t)),
            _ => None,
        }
    }
}

/// What reading a video save file gives: `Ignored` when the checksum does not
/// match or the header line does not read; else the header and the pieces
/// between the `ts` markers of the text after the header line (the piece
/// after the last marker holds the checksum), `Malformed` when one of them
/// does not read as a timestamp.
pub open spec fn video_file_from_text(s: Seq<char>) -> SaveRead<VideoModel> {
    if !checksum_matches(s) {
        SaveRead::Ignored
    } else {
        let lines = split_str(s, newline());
        match video_header_from_text(lines[0]) {
            None => SaveRead::Ignored,
            Some((w, h, frames)) => {
                let rest = join_str(lines.drop_first(), newline());
                match stamps_from_chunks(split_str(rest, stamp_end()).drop_last()) {
                    Some(st) => SaveRead::Read((w, h, frames, st)),
                    None => SaveRead::Malformed,
                }
            },
        }
    }
}

/// Writing one more timestamp adds its text and its marker at the end.
proof fn lemma_stamps_text_push(st: Seq<TimestampModel>, t: TimestampModel)
    ensures
        stamps_text(st.push(t)) == stamps_text(st) + timestamp_text(t) + stamp_end() + newline(),
    decreases st.len(),
{
    if st.len() == 0 {
        assert(st.push(t).drop_first() =~= Seq::<TimestampModel>::empty());
        assert(stamps_text(st.push(t).drop_first()) == Seq::<char>::empty());
        assert(stamps_text(st.push(t)) =~= stamps_text(st) + timestamp_text(t) + stamp_end()
            + newline());
    } else {
        assert(st.push(t).drop_first() =~= st.drop_first().push(t));
        lemma_stamps_text_push(st.drop_first(), t);
        assert(stamps_text(st.push(t)) =~= stamps_text(st) + timestamp_text(t) + stamp_end()
            + newline());
    }
}

/// When a piece read fails, reading all the pieces fails.
proof fn lemma_stamps_from_chunks_prefix(chunks: Seq<Seq<char>>, k: int)
    requires
        0 <= k <= chunks.len(),
        stamps_from_chunks(chunks.take(k)) is None,
    ensures
        stamps_from_chunks(chunks) is None,
    decreases chunks.len() - k,
{
    if k == chunks.len() {
        assert(chunks.take(k) =~= chunks);
    } else {
        assert(chunks.take(k + 1).drop_last() =~= chunks.take(k));
        lemma_stamps_from_chunks_prefix(chunks, k + 1);
    }
}

/// Returns the save file of a video: the header line, each timestamp's text
/// followed by `ts` on a line of its own, then the checksum.
pub fn save_video_text(
    dimensions: &ScreenDimensions,
    frames: usize,
    timestamps: &Vec<VideoTimestamp>,
) -> (s: String)
    requires
        video_body_text(
            dimensions.width_spec(),
            dimensions.height_spec(),
            frames as nat,
            timestamp_views(timestamps@),
        ).len() * 9 <= usize::MAX,
    ensures
        s@ == video_file_text(
            dimensions.width_spec(),
            dimensions.height_spec(),
            frames as nat,
            timestamp_views(timestamps@),
        ),
{
    let ghost st = timestamp_views(timestamps@);
    let ghost head = video_header_text(dimensions.width_spec(), dimensions.height_spec(), frames as nat)
        + newline();
    let mut s = video_header(dimensions, frames);
    let mut i: usize = 0;
    assert(st.take(0) =~= Seq::<TimestampModel>::empty());
    assert(s@ =~= head + stamps_text(st.take(0)));
    while i < timestamps.len()
        invariant
            st == timestamp_views(timestamps@),
            i <= timestamps@.len(),
            s@ == head + stamps_text(st.take(i as int)),
        decreases timestamps@.len() - i,
    {
        let text = timestamps[i].get_save();
        s.append(text.as_str());
        s.append("ts\n");
        proof {
            reveal_strlit("ts\n");
            assert(st[i as int] == timestamps@[i as int]@);
            assert(st.take(i + 1) =~= st.take(i as int).push(st[i as int]));
            lemma_stamps_text_push(st.take(i as int), st[i as int]);
            assert(s@ =~= head + stamps_text(st.take(i + 1)));
        }
        i = i + 1;
    }
    assert(st.take(i as int) =~= st);
    let sum = calculate_checksum(s.as_str());
    push_decimal(&mut s, sum);
    s
}

/// Reads the save file of a video.
pub fn read_video_save(text: &str) -> (r: SaveRead<VideoSave>)
    requires
        text@.len() * 9 <= usize::MAX,
    ensures
        match video_file_from_text(text@) {
            SaveRead::Ignored => r is Ignored,
            SaveRead::Malformed => r is Malformed,
            SaveRead::Read(v) => r matches SaveRead::Read(saved) && saved@ == v,
        },
{
    if !check_chesum(text) {
        return SaveRead::Ignored;
    }
    proof {
        reveal_strlit("\n");
        reveal_strlit("ts");
        assert("\n"@ =~= newline());
        assert("ts"@ =~= stamp_end());
    }
    let mut lines = split_text(text, "\n");
    let ghost all = string_views(lines@);
    assert(all.len() == lines@.len());
    assert(all[0] == lines@[0]@);
    let (dimensions, frames) = match parse_video_header(lines[0].as_str()) {
        Some(h) => h,
        None => return SaveRead::Ignored,
    };
    lines.remove(0);
    assert(string_views(lines@) =~= all.drop_first());
    let rest = join_text(&lines, "\n");
    let mut chunks = split_text(rest.as_str(), "ts");
    let ghost pieces = string_views(chunks@);
    assert(pieces.len() == chunks@.len());
    chunks.pop();
    let ghost cs = string_views(chunks@);
    assert(cs =~= pieces.drop_last());
    let mut timestamps: Vec<VideoTimestamp> = Vec::new();
    let mut i: usize = 0;
    assert(cs.take(0) =~= Seq::<Seq<char>>::empty());
    assert(timestamp_views(timestamps@) =~= Seq::<TimestampModel>::empty());
    while i < chunks.len()
        invariant
            cs == string_views(chunks@),
            cs.len() == chunks@.len(),
            i <= chunks@.len(),
            stamps_from_chunks(cs.take(i as int)) == Some(timestamp_views(timestamps@)),
            checksum_matches(text@),
            all == split_str(text@, newline()),
            video_header_from_text(all[0]) is Some,
            cs == split_str(join_str(all.drop_first(), newline()), stamp_end()).drop_last(),
        decreases chunks@.len() - i,
    {
        assert(cs[i as int] == chunks@[i as int]@);
        assert(cs.take(i + 1).drop_last() =~= cs.take(i as int));
        assert(cs.take(i + 1).last() == cs[i as int]);
        match VideoTimestamp::import_from_str(chunks[i].as_str()) {
            Some(t) => {
                let ghost before = timestamp_views(timestamps@);
                timestamps.push(t);
                assert(timestamp_views(timestamps@) =~= before.push(t@));
            },
            None => {
                proof {
                    assert(timestamp_from_text(cs[i as int]) is None);
                    assert(stamps_from_chunks(cs.take(i + 1)) is None);
                    lemma_stamps_from_chunks_prefix(cs, i + 1);
                }
                return SaveRead::Malformed;
            },
        }
        i = i + 1;
    }
    assert(cs.take(i as int) =~= cs);
    SaveRead::Read(VideoSave { dimensions, frames, timestamps })
}

/// A text without `ts` keeps the first `ts` after it where that marker is
/// written.
proof fn lemma_no_stamp_end_before(a: Seq<char>, b: Seq<char>)
    requires
        lacks(a, stamp_end()),
    ensures
        forall|i: int| 0 <= i < a.len() ==> !#[trigger] occurs_at(a + stamp_end() + b, stamp_end(), i),
{
    let p = stamp_end();
    let s = a + p + b;
    assert forall|i: int| 0 <= i < a.len() implies !#[trigger] occurs_at(s, p, i) by {
        if occurs_at(s, p, i) {
            if i + 2 <= a.len() {
                assert(a.subrange(i, i + 2) =~= s.subrange(i, i + 2));
                assert(occurs_at(a, p, i));
            } else {
                assert(s.subrange(i, i + 2)[1] == s[i + 1]);
                assert(s[i + 1] == p[0]);
            }
        }
    }
}

/// A text without the letter `t` holds no `ts`.
proof fn lemma_lacks_stamp_end_without_t(s: Seq<char>)
    requires
        forall|j: int| 0 <= j < s.len() ==> s[j] != 't',
    ensures
        lacks(s, stamp_end()),
{
    assert forall|i: int| !#[trigger] occurs_at(s, stamp_end(), i) by {
        if occurs_at(s, stamp_end(), i) {
            assert(s.subrange(i, i + 2)[0] == s[i]);
        }
    }
}

/// Putting an empty text or a line break before a text without `ts` adds no
/// `ts`.
proof fn lemma_lacks_stamp_end_after_lead(lead: Seq<char>, t: Seq<char>)
    requires
        lead == Seq::<char>::empty() || lead == newline(),
        lacks(t, stamp_end()),
    ensures
        lacks(lead + t, stamp_end()),
{
    let s = lead + t;
    assert forall|i: int| !#[trigger] occurs_at(s, stamp_end(), i) by {
        if occurs_at(s, stamp_end(), i) {
            if i < lead.len() {
                assert(s.subrange(i, i + 2)[0] == s[i]);
                assert(s[i] == lead[i]);
            } else {
                assert(t.subrange(i - lead.len(), i - lead.len() + 2) =~= s.subrange(i, i + 2));
                assert(occurs_at(t, stamp_end(), i - lead.len()));
            }
        }
    }
}

/// The pieces between the `ts` markers of written timestamps: each
/// timestamp's text, behind the line break that follows the previous marker
/// (behind `lead` for the first).
pub open spec fn stamp_chunks(st: Seq<TimestampModel>, lead: Seq<char>) -> Seq<Seq<char>> {
    Seq::new(
        st.len(),
        |i: int|
            if i == 0 {
                lead + timestamp_text(st[0])
            } else {
                newline() + timestamp_text(st[i])
            },
    )
}

/// Splitting written timestamps, then a tail `d` without `t`, at their
/// markers gives each timestamp's piece, then the tail behind its line break.
proof fn lemma_split_stamps(st: Seq<TimestampModel>, lead: Seq<char>, d: Seq<char>)
    requires
        lead == Seq::<char>::empty() || lead == newline(),
        forall|j: int| 0 <= j < d.len() ==> d[j] != 't',
        forall|i: int| 0 <= i < st.len() ==> lacks(#[trigger] timestamp_text(st[i]), stamp_end()),
    ensures
        split_str(lead + stamps_text(st) + d, stamp_end()) == stamp_chunks(st, lead).push(
            (if st.len() == 0 {
                lead
            } else {
                newline()
            }) + d,
        ),
    decreases st.len(),
{
    if st.len() == 0 {
        assert(lead + stamps_text(st) + d =~= lead + d);
        assert forall|j: int| 0 <= j < (lead + d).len() implies (lead + d)[j] != 't' by {
            if j >= lead.len() {
                assert((lead + d)[j] == d[j - lead.len()]);
            }
        }
        lemma_lacks_stamp_end_without_t(lead + d);
        lemma_split_whole(lead + d, stamp_end());
        assert(stamp_chunks(st, lead) =~= Seq::<Seq<char>>::empty());
        assert(seq![lead + d] =~= stamp_chunks(st, lead).push(lead + d));
    } else {
        let rest = st.drop_first();
        let a = lead + timestamp_text(st[0]);
        let b = newline() + stamps_text(rest) + d;
        assert(lacks(timestamp_text(st[0]), stamp_end()));
        assert(lead + stamps_text(st) + d =~= a + stamp_end() + b);
        lemma_lacks_stamp_end_after_lead(lead, timestamp_text(st[0]));
        lemma_no_stamp_end_before(a, b);
        lemma_split_step(a, stamp_end(), b);
        assert forall|i: int| 0 <= i < rest.len() implies lacks(#[trigger] timestamp_text(rest[i]), stamp_end()) by {
            assert(rest[i] == st[i + 1]);
            assert(lacks(timestamp_text(st[i + 1]), stamp_end()));
        }
        lemma_split_stamps(rest, newline(), d);
        let tail = newline() + d;
        assert(seq![a] + stamp_chunks(rest, newline()).push(tail) =~= stamp_chunks(st, lead).push(tail));
    }
}

/// The pieces of written timestamps read back as those timestamps.
proof fn lemma_stamps_from_stamp_chunks(st: Seq<TimestampModel>, k: int)
    requires
        0 <= k <= st.len(),
        forall|i: int| 0 <= i < st.len() ==> timestamp_valid(#[trigger] st[i]),
    ensures
        stamps_from_chunks(stamp_chunks(st, Seq::empty()).take(k)) == Some(st.take(k)),
    decreases k,
{
    let cs = stamp_chunks(st, Seq::empty());
    if k == 0 {
        assert(cs.take(0) =~= Seq::<Seq<char>>::empty());
        assert(st.take(0) =~= Seq::<TimestampModel>::empty());
    } else {
        lemma_stamps_from_stamp_chunks(st, k - 1);
        assert(cs.take(k).drop_last() =~= cs.take(k - 1));
        assert(timestamp_valid(st[k - 1]));
        lemma_timestamp_round_trip(st[k - 1]);
        if k == 1 {
            assert(cs[0] =~= timestamp_text(st[0]));
        }
        assert(timestamp_from_text(cs.take(k).last()) == Some(st[k - 1]));
        assert(st.take(k - 1).push(st[k - 1]) =~= st.take(k));
    }
}

/// A video's save file reads back as the video's dimensions, number of
/// frames and timestamps.
pub proof fn lemma_video_file_round_trip(w: usize, h: usize, frames: usize, st: Seq<TimestampModel>)
    requires
        forall|i: int| 0 <= i < st.len() ==> timestamp_valid(#[trigger] st[i]),
        forall|i: int| 0 <= i < st.len() ==> lacks(#[trigger] timestamp_text(st[i]), stamp_end()),
        video_body_text(w as nat, h as nat, frames as nat, st).len() * 9 <= usize::MAX,
    ensures
        video_file_from_text(video_file_text(w as nat, h as nat, frames as nat, st))
            == SaveRead::Read((w as nat, h as nat, frames as nat, st)),
{
    let e = Seq::<char>::empty();
    let hd = video_header_text(w as nat, h as nat, frames as nat);
    let r = stamps_text(st);
    let b = video_body_text(w as nat, h as nat, frames as nat, st);
    let d = decimal_text(digit_sum(b));
    let s = b + d;
    assert(s == video_file_text(w as nat, h as nat, frames as nat, st));
    lemma_decimal_text_reads_back(digit_sum(b));
    assert forall|j: int| 0 <= j < d.len() implies d[j] != '\n' && d[j] != 't' by {
        assert(is_digit(d[j]));
    }
    // the body ends with a line break, so the checksum is the last line
    if st.len() == 0 {
        assert(b =~= hd + newline());
    } else {
        lemma_stamps_text_push(st.drop_last(), st.last());
        assert(st.drop_last().push(st.last()) =~= st);
        assert(b =~= hd + newline() + stamps_text(st.drop_last()) + timestamp_text(st.last())
            + stamp_end() + newline());
    }
    assert(b.last() == '\n');
    lemma_last_line_after(b, d);
    lemma_digit_sum_bound(b);
    lemma_digit_sum_append(b, d);
    assert(checksum_matches(s));
    // the header is the first line
    lemma_dimensions_text_no_comma(w as nat, h as nat);
    lemma_decimal_text_reads_back(frames as nat);
    let dims = dimensions_text(w as nat, h as nat);
    let fr = decimal_text(frames as nat);
    assert forall|j: int| 0 <= j < hd.len() implies hd[j] != newline()[0] by {
        if j < dims.len() {
            assert(hd[j] == dims[j]);
        } else if j > dims.len() {
            assert(hd[j] == fr[j - dims.len() - 1]);
            assert(is_digit(fr[j - dims.len() - 1]));
        }
    }
    assert(s =~= hd + newline() + (r + d));
    lemma_no_match_in_prefix(hd, newline(), r + d);
    lemma_split_step(hd, newline(), r + d);
    let lines = split_str(s, newline());
    assert(lines[0] == hd);
    assert(lines.drop_first() =~= split_str(r + d, newline()));
    lemma_video_header_round_trip(w, h, frames);
    lemma_join_split(r + d, newline());
    // the timestamps are the pieces between the markers
    assert(e + r + d =~= r + d);
    lemma_split_stamps(st, e, d);
    let chunks = split_str(r + d, stamp_end());
    assert(chunks.drop_last() =~= stamp_chunks(st, e));
    lemma_stamps_from_stamp_chunks(st, st.len() as int);
    assert(stamp_chunks(st, e).take(st.len() as int) =~= stamp_chunks(st, e));
    assert(st.take(st.len() as int) =~= st);
}

} // verus!
