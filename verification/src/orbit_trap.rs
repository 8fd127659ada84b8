//! The kinds of orbit trap and of trap analysis, the one-character codes
//! that save files write for them, and the text an orbit trap is saved as.

use vstd::prelude::*;
use vstd::utf8::{encode_utf8, is_ascii_chars};

use crate::lines::{
    join_str, lemma_find_char, lemma_split_join, pieces_lack, split_str, split_text, string_views,
};
use crate::numerals::{float_literal, is_float_literal};
use crate::text::{
    between_end, between_start, find, find_chars, get_str_between, is_digit, lemma_ascii_start_found, text_chars,
};

verus! {

broadcast use vstd::string::group_string_axioms;

/// What an orbit-trap layer measures of the orbit point closest to the trap.
#[derive(Clone, Copy, PartialEq, Eq, Structural, Debug)]
pub enum OrbitTrapAnalysis {
    Distance,
    Real,
    Imaginary,
    Angle,
}

/// The shape of an orbit trap.
#[derive(Clone, Copy, PartialEq, Eq, Structural, Debug)]
pub enum OrbitTrapShape {
    Point,
    Cross,
    Circle,
}

/// The code written for an analysis.
pub open spec fn analysis_code(a: OrbitTrapAnalysis) -> char {
    match a {
        OrbitTrapAnalysis::Distance => '0',
        OrbitTrapAnalysis::Real => '1',
        OrbitTrapAnalysis::Imaginary => '2',
        OrbitTrapAnalysis::Angle => '3',
    }
}

/// The analysis a code stands for, if any.
pub open spec fn analysis_of_code(c: char) -> Option<OrbitTrapAnalysis> {
    if c == '0' {
        Some(OrbitTrapAnalysis::Distance)
    } else if c == '1' {
        Some(OrbitTrapAnalysis::Real)
    } else if c == '2' {
        Some(OrbitTrapAnalysis::Imaginary)
    } else if c == '3' {
        Some(OrbitTrapAnalysis::Angle)
    } else {
        None
    }
}

/// The code written for a trap shape.
pub open spec fn shape_code(s: OrbitTrapShape) -> char {
    match s {
        OrbitTrapShape::Point => '0',
        OrbitTrapShape::Cross => '1',
        OrbitTrapShape::Circle => '2',
    }
}

/// The trap shape a code stands for, if any.
pub open spec fn shape_of_code(c: char) -> Option<OrbitTrapShape> {
    if c == '0' {
        Some(OrbitTrapShape::Point)
    } else if c == '1' {
        Some(OrbitTrapShape::Cross)
    } else if c == '2' {
        Some(OrbitTrapShape::Circle)
    } else {
        None
    }
}

impl OrbitTrapAnalysis {
    /// Returns the code written for the analysis in save files.
    pub fn export_num(&self) -> (s: &'static str)
        ensures
            s@ == seq![analysis_code(*self)],
    {
        proof {
            reveal_strlit("0");
            reveal_strlit("1");
            reveal_strlit("2");
            reveal_strlit("3");
        }
        match self {
            OrbitTrapAnalysis::Distance => "0",
            OrbitTrapAnalysis::Real => "1",
            OrbitTrapAnalysis::Imaginary => "2",
            OrbitTrapAnalysis::Angle => "3",
        }
    }

    /// Returns the analysis a save-file code stands for.
    pub fn import_from_num(num: char) -> (a: OrbitTrapAnalysis)
        requires
            analysis_of_code(num) is Some,
        ensures
            analysis_of_code(num) == Some(a),
    {
        if num == '0' {
            OrbitTrapAnalysis::Distance
        } else if num == '1' {
            OrbitTrapAnalysis::Real
        } else if num == '2' {
            OrbitTrapAnalysis::Imaginary
        } else {
            OrbitTrapAnalysis::Angle
        }
    }

    /// The analyses offered to the user, in menu order.
    pub fn get_variants() -> (v: Vec<OrbitTrapAnalysis>)
        ensures
            v@ == seq![
                OrbitTrapAnalysis::Distance,
                OrbitTrapAnalysis::Real,
                OrbitTrapAnalysis::Imaginary,
                OrbitTrapAnalysis::Angle,
            ],
    {
        vec![
            OrbitTrapAnalysis::Distance,
            OrbitTrapAnalysis::Real,
            OrbitTrapAnalysis::Imaginary,
            OrbitTrapAnalysis::Angle,
        ]
    }

    /// The name shown for the analysis.
    pub fn get_string(&self) -> (s: String)
        ensures
            s@ == match self {
                OrbitTrapAnalysis::Distance => "Distance"@,
                OrbitTrapAnalysis::Real => "Real"@,
                OrbitTrapAnalysis::Imaginary => "Imaginary"@,
                OrbitTrapAnalysis::Angle => "Angle"@,
            },
    {
        match self {
            OrbitTrapAnalysis::Distance => String::from_str("Distance"),
            OrbitTrapAnalysis::Real => String::from_str("Real"),
            OrbitTrapAnalysis::Imaginary => String::from_str("Imaginary"),
            OrbitTrapAnalysis::Angle => String::from_str("Angle"),
        }
    }
}

impl OrbitTrapShape {
    /// Returns the code written for the trap shape in save files.
    pub fn export_num(&self) -> (s: &'static str)
        ensures
            s@ == seq![shape_code(*self)],
    {
        proof {
            reveal_strlit("0");
            reveal_strlit("1");
            reveal_strlit("2");
        }
        match self {
            OrbitTrapShape::Point => "0",
            OrbitTrapShape::Cross => "1",
            OrbitTrapShape::Circle => "2",
        }
    }

    /// Returns the trap shape a save-file code stands for.
    pub fn import_from_num(num: char) -> (s: OrbitTrapShape)
        requires
            shape_of_code(num) is Some,
        ensures
            shape_of_code(num) == Some(s),
    {
        if num == '0' {
            OrbitTrapShape::Point
        } else if num == '1' {
            OrbitTrapShape::Cross
        } else {
            OrbitTrapShape::Circle
        }
    }

    /// The name shown for the trap shape.
    pub fn get_string(&self) -> (s: String)
        ensures
            s@ == match self {
                OrbitTrapShape::Point => "Point"@,
                OrbitTrapShape::Cross => "Cross"@,
                OrbitTrapShape::Circle => "Circle"@,
            },
    {
        match self {
            OrbitTrapShape::Point => String::from_str("Point"),
            OrbitTrapShape::Cross => String::from_str("Cross"),
            OrbitTrapShape::Circle => String::from_str("Circle"),
        }
    }

    /// The shapes offered to the user, in menu order.
    pub fn get_variants() -> (v: Vec<OrbitTrapShape>)
        ensures
            v@ == seq![OrbitTrapShape::Point, OrbitTrapShape::Circle, OrbitTrapShape::Cross],
    {
        vec![OrbitTrapShape::Point, OrbitTrapShape::Circle, OrbitTrapShape::Cross]
    }
}

/// Reading back the code written for an analysis gives that analysis, and
/// every code that stands for an analysis is the one written for it.
pub proof fn lemma_analysis_code_round_trip(a: OrbitTrapAnalysis, c: char)
    ensures
        analysis_of_code(analysis_code(a)) == Some(a),
        analysis_of_code(c) matches Some(b) ==> analysis_code(b) == c,
{
}

/// Reading back the code written for a trap shape gives that shape, and every
/// code that stands for a shape is the one written for it.
pub proof fn lemma_shape_code_round_trip(s: OrbitTrapShape, c: char)
    ensures
        shape_of_code(shape_code(s)) == Some(s),
        shape_of_code(c) matches Some(t) ==> shape_code(t) == c,
{
}

// ---------------------------------------------------------------------------
// The text of an orbit trap
// ---------------------------------------------------------------------------

/// What the saved text of an orbit trap holds.
pub struct TrapModel {
    pub shape: OrbitTrapShape,
    pub center_re: Seq<char>,
    pub center_im: Seq<char>,
    pub analysis: OrbitTrapAnalysis,
    pub size: Seq<char>,
}

/// An orbit trap as its saved text describes it: the shape, the text of the
/// coordinates of its centre, the analysis, and the text of its size (the arm
/// length of a cross, the radius of a circle; a point has none).
#[derive(Clone, Debug)]
pub struct OrbitTrapType {
    pub shape: OrbitTrapShape,
    pub center_re: String,
    pub center_im: String,
    pub analysis: OrbitTrapAnalysis,
    pub size: String,
}

impl View for OrbitTrapType {
    type V = TrapModel;

    open spec fn view(&self) -> TrapModel {
        TrapModel {
            shape: self.shape,
            center_re: self.center_re@,
            center_im: self.center_im@,
            analysis: self.analysis,
            size: self.size@,
        }
    }
}

/// The size written for a trap: nothing for a point.
pub open spec fn size_text(t: TrapModel) -> Seq<char> {
    if t.shape == OrbitTrapShape::Point {
        Seq::empty()
    } else {
        t.size
    }
}

/// The text a trap is saved as: the shape's code, the centre in brackets,
/// the analysis's code, then the size in square brackets.
pub open spec fn trap_text(t: TrapModel) -> Seq<char> {
    seq![shape_code(t.shape), '('] + t.center_re + seq![','] + t.center_im + seq![
        ')',
        analysis_code(t.analysis),
        '[',
    ] + size_text(t) + seq![']']
}

/// The size read from the text between `[` and `]`: that text when a number
/// can be read from it, else `0`.
pub open spec fn size_read(raw: Seq<char>) -> Seq<char> {
    if float_literal(raw) {
        raw
    } else {
        seq!['0']
    }
}

/// What reading the text of a trap gives: the shape from the first
/// character; the centre from the first two comma-separated fields between
/// the first `(` and the next `)`; the analysis from the character whose
/// position is one past the byte position of the first `)`; and, for a cross
/// or a circle, the size between the first `[` and the next `]` (`0` when no
/// number can be read from it). `None`
/// when the text is empty, a field or the `)` is missing, or a code stands
/// for nothing.
pub open spec fn trap_from_text(s: Seq<char>) -> Option<TrapModel> {
    if s.len() == 0 {
        None
    } else {
        let centre = split_str(
            s.subrange(between_start(s, "("@), between_end(s, "("@, ")"@)),
            seq![','],
        );
        if centre.len() < 2 {
            None
        } else {
            match find(s, seq![')']) {
                None => None,
                Some(k) => {
                    let n: int = encode_utf8(s.subrange(0, k)).len() as int + 1;
                    if n >= s.len() {
                        None
                    } else {
                        match (analysis_of_code(s[n]), shape_of_code(s[0])) {
                            (Some(analysis), Some(shape)) => Some(
                                TrapModel {
                                    shape,
                                    center_re: centre[0],
                                    center_im: centre[1],
                                    analysis,
                                    size: if shape == OrbitTrapShape::Point {
                                        Seq::empty()
                                    } else {
                                        size_read(
                                            s.subrange(between_start(s, "["@), between_end(s, "["@, "]"@)),
                                        )
                                    },
                                },
                            ),
                            _ => None,
                        }
                    }
                },
            }
        }
    }
}

/// A trap whose text can be written and read back: the coordinates are
/// ASCII without `,`, `)` or `[`; the size holds no `]` and is the text of a
/// number; a point has no size.
pub open spec fn trap_valid(t: TrapModel) -> bool {
    &&& is_ascii_chars(t.center_re)
    &&& is_ascii_chars(t.center_im)
    &&& forall|j: int| 0 <= j < t.center_re.len() ==> t.center_re[j] != ',' && t.center_re[j] != ')' && t.center_re[j] != '['
    &&& forall|j: int| 0 <= j < t.center_im.len() ==> t.center_im[j] != ',' && t.center_im[j] != ')' && t.center_im[j] != '['
    &&& forall|j: int| 0 <= j < t.size.len() ==> t.size[j] != ']'
    &&& t.shape == OrbitTrapShape::Point ==> t.size.len() == 0
    &&& t.shape != OrbitTrapShape::Point ==> float_literal(t.size)
}

/// The UTF-8 encoding of a text takes at most four bytes per character.
proof fn lemma_encode_utf8_len_bound(s: Seq<char>)
    ensures
        encode_utf8(s).len() <= 4 * s.len(),
    decreases s.len(),
{
    if s.len() > 0 {
        lemma_encode_utf8_len_bound(s.drop_first());
    }
}

impl OrbitTrapType {
    /// The trap's analysis.
    pub fn get_analysis(&self) -> (a: OrbitTrapAnalysis)
        ensures
            a == self.analysis,
    {
        self.analysis
    }

    /// Changes the trap's analysis and nothing else.
    pub fn set_analysis(&mut self, new: OrbitTrapAnalysis)
        ensures
            final(self)@ == (TrapModel { analysis: new, ..old(self)@ }),
    {
        self.analysis = new;
    }

    /// Returns whether two traps have the same shape, whatever their centres,
    /// analyses and sizes.
    pub fn eq(&self, other: &Self) -> (r: bool)
        ensures
            r == (self.shape == other.shape),
    {
        self.shape == other.shape
    }

    /// The name shown for the trap: the name of its shape.
    pub fn get_string(&self) -> (s: String)
        ensures
            s@ == match self.shape {
                OrbitTrapShape::Point => "Point"@,
                OrbitTrapShape::Cross => "Cross"@,
                OrbitTrapShape::Circle => "Circle"@,
            },
    {
        self.shape.get_string()
    }

    /// The traps offered to the user, in menu order: a point, a circle and a
    /// cross, each centred on the origin with the distance analysis, the
    /// circle and the cross of size one.
    pub fn get_variants() -> (v: Vec<OrbitTrapType>)
        ensures
            v@.len() == 3,
            v@[0]@ == (TrapModel {
                shape: OrbitTrapShape::Point,
                center_re: "0"@,
                center_im: "0"@,
                analysis: OrbitTrapAnalysis::Distance,
                size: ""@,
            }),
            v@[1]@ == (TrapModel {
                shape: OrbitTrapShape::Circle,
                center_re: "0"@,
                center_im: "0"@,
                analysis: OrbitTrapAnalysis::Distance,
                size: "1"@,
            }),
            v@[2]@ == (TrapModel {
                shape: OrbitTrapShape::Cross,
                center_re: "0"@,
                center_im: "0"@,
                analysis: OrbitTrapAnalysis::Distance,
                size: "1"@,
            }),
    {
        let mut v: Vec<OrbitTrapType> = Vec::new();
        v.push(OrbitTrapType {
            shape: OrbitTrapShape::Point,
            center_re: String::from_str("0"),
            center_im: String::from_str("0"),
            analysis: OrbitTrapAnalysis::Distance,
            size: String::from_str(""),
        });
        v.push(OrbitTrapType {
            shape: OrbitTrapShape::Circle,
            center_re: String::from_str("0"),
            center_im: String::from_str("0"),
            analysis: OrbitTrapAnalysis::Distance,
            size: String::from_str("1"),
        });
        v.push(OrbitTrapType {
            shape: OrbitTrapShape::Cross,
            center_re: String::from_str("0"),
            center_im: String::from_str("0"),
            analysis: OrbitTrapAnalysis::Distance,
            size: String::from_str("1"),
        });
        v
    }

    /// Returns the text the trap is saved as.
    pub fn get_export_str(&self) -> (s: String)
        ensures
            s@ == trap_text(self@),
    {
        let mut s = String::from_str(self.shape.export_num());
        s.append("(");
        s.append(self.center_re.as_str());
        s.append(",");
        s.append(self.center_im.as_str());
        s.append(")");
        s.append(self.analysis.export_num());
        s.append("[");
        match self.shape {
            OrbitTrapShape::Point => {},
            _ => s.append(self.size.as_str()),
        }
        s.append("]");
        proof {
            reveal_strlit("(");
            reveal_strlit(",");
            reveal_strlit(")");
            reveal_strlit("[");
            reveal_strlit("]");
            assert(s@ =~= trap_text(self@));
        }
        s
    }

    /// Reads the text of a trap, or returns `None` when it describes none.
    pub fn import_from_str(trap: &str) -> (r: Option<OrbitTrapType>)
        requires
            trap@.len() * 4 < usize::MAX,
        ensures
            match trap_from_text(trap@) {
                Some(t) => r matches Some(o) && o@ == t,
                None => r is None,
            },
    {
        proof {
            reveal_strlit("(");
            reveal_strlit(",");
            reveal_strlit(")");
            reveal_strlit("[");
            assert(","@ =~= seq![',']);
            assert(")"@ =~= seq![')']);
        }
        let chars = text_chars(trap);
        if chars.len() == 0 {
            return None;
        }
        let trap_type = chars[0];
        proof {
            reveal_strlit("(");
            lemma_ascii_start_found(trap@, "("@);
        }
        let centre = split_text(get_str_between(trap, "(", ")"), ",");
        let ghost cs = string_views(centre@);
        assert(cs.len() == centre@.len());
        if centre.len() < 2 {
            return None;
        }
        assert(cs[0] == centre@[0]@);
        assert(cs[1] == centre@[1]@);
        let close = text_chars(")");
        let k = match find_chars(&chars, &close, 0) {
            Some(k) => k,
            None => return None,
        };
        proof {
            crate::text::lemma_find_from_bounds(trap@, ")"@, 0);
            lemma_encode_utf8_len_bound(trap@.subrange(0, k as int));
        }
        let bytes = trap.substring_char(0, k).len();
        let n = bytes + 1;
        if n >= chars.len() {
            return None;
        }
        let code = chars[n];
        if !('0' <= code && code <= '3') || !('0' <= trap_type && trap_type <= '2') {
            return None;
        }
        let analysis = OrbitTrapAnalysis::import_from_num(code);
        let shape = OrbitTrapShape::import_from_num(trap_type);
        let size = match shape {
            OrbitTrapShape::Point => String::new(),
            _ => {
                proof {
                    reveal_strlit("[");
                    lemma_ascii_start_found(trap@, "["@);
                }
                let raw = get_str_between(trap, "[", "]");
                if is_float_literal(raw) {
                    String::from_str(raw)
                } else {
                    let zero = String::from_str("0");
                    proof {
                        reveal_strlit("0");
                    }
                    assert(zero@ =~= seq!['0']);
                    zero
                }
            },
        };
        Some(
            OrbitTrapType {
                shape,
                center_re: centre[0].clone(),
                center_im: centre[1].clone(),
                analysis,
                size,
            },
        )
    }
}

/// `s` is made of the characters a finite number's decimal notation uses:
/// digits, `-` and `.`.
pub open spec fn numeral_chars(s: Seq<char>) -> bool {
    forall|j: int| 0 <= j < s.len() ==> is_digit(#[trigger] s[j]) || s[j] == '-' || s[j] == '.'
}

/// The text of a trap whose centre and size are written as finite numbers
/// reads back as that trap: the same shape, centre, analysis and size.
pub proof fn lemma_numeric_trap_round_trip(t: TrapModel)
    requires
        numeral_chars(t.center_re),
        numeral_chars(t.center_im),
        numeral_chars(t.size),
        t.shape == OrbitTrapShape::Point ==> t.size.len() == 0,
        t.shape != OrbitTrapShape::Point ==> float_literal(t.size),
    ensures
        trap_from_text(trap_text(t)) == Some(t),
{
    assert forall|j: int| 0 <= j < t.center_re.len() implies '\0' <= #[trigger] t.center_re[j] <= '\u{7f}' by {
        assert(is_digit(t.center_re[j]) || t.center_re[j] == '-' || t.center_re[j] == '.');
    }
    assert forall|j: int| 0 <= j < t.center_im.len() implies '\0' <= #[trigger] t.center_im[j] <= '\u{7f}' by {
        assert(is_digit(t.center_im[j]) || t.center_im[j] == '-' || t.center_im[j] == '.');
    }
    assert forall|j: int| 0 <= j < t.center_re.len() implies t.center_re[j] != ',' && t.center_re[j] != ')' && t.center_re[j] != '[' by {
        assert(is_digit(t.center_re[j]) || t.center_re[j] == '-' || t.center_re[j] == '.');
    }
    assert forall|j: int| 0 <= j < t.center_im.len() implies t.center_im[j] != ',' && t.center_im[j] != ')' && t.center_im[j] != '[' by {
        assert(is_digit(t.center_im[j]) || t.center_im[j] == '-' || t.center_im[j] == '.');
    }
    assert forall|j: int| 0 <= j < t.size.len() implies t.size[j] != ']' by {
        assert(is_digit(t.size[j]) || t.size[j] == '-' || t.size[j] == '.');
    }
    lemma_trap_round_trip(t);
}

/// The text of a trap reads back as that trap.
pub proof fn lemma_trap_round_trip(t: TrapModel)
    requires
        trap_valid(t),
    ensures
        trap_from_text(trap_text(t)) == Some(t),
{
    reveal_strlit("(");
    reveal_strlit(")");
    reveal_strlit("[");
    reveal_strlit("]");
    assert("("@ =~= seq!['(']);
    assert(")"@ =~= seq![')']);
    assert("["@ =~= seq!['[']);
    assert("]"@ =~= seq![']']);
    let s = trap_text(t);
    let re = t.center_re;
    let im = t.center_im;
    let z = size_text(t);
    let sc = shape_code(t.shape);
    let ac = analysis_code(t.analysis);
    let pre = seq![sc, '('];
    let body = re + seq![','] + im;
    let mid = seq![')', ac, '['];
    let close = seq![']'];
    assert(s =~= pre + body + mid + z + close);
    let k: int = 2 + body.len() as int;
    assert forall|j: int| 0 <= j < body.len() implies body[j] != ')' && body[j] != '[' by {
        if j < re.len() {
            assert(body[j] == re[j]);
        } else if j > re.len() {
            assert(body[j] == im[j - re.len() - 1]);
        }
    }
    assert forall|j: int| 0 <= j < k implies s[j] != ')' && s[j] != '[' by {
        if j >= 2 {
            assert(s[j] == body[j - 2]);
        }
    }
    // the centre
    lemma_find_char(s, '(', 1);
    assert(between_start(s, "("@) == 2);
    let rest = s.subrange(2, s.len() as int);
    assert(rest =~= body + (mid + z + close));
    assert forall|j: int| 0 <= j < body.len() implies rest[j] != ')' by {
        assert(rest[j] == body[j]);
    }
    lemma_find_char(rest, ')', body.len() as int);
    assert(between_end(s, "("@, ")"@) == k);
    assert(s.subrange(2, k) =~= body);
    let ps = seq![re, im];
    assert(ps.drop_first() =~= seq![im]);
    assert(join_str(seq![im], seq![',']) == im);
    assert(join_str(ps, seq![',']) =~= body);
    assert(pieces_lack(ps, ',')) by {
        assert forall|i: int, j: int| 0 <= i < ps.len() && 0 <= j < ps[i].len() implies #[trigger] ps[i][j] != ',' by {
            if i == 0 {
                assert(ps[i] == re);
            } else {
                assert(ps[i] == im);
            }
        }
    }
    lemma_split_join(ps, ',');
    // the analysis
    lemma_find_char(s, ')', k);
    assert(s.subrange(0, k) =~= pre + body);
    assert(is_ascii_chars(s.subrange(0, k))) by {
        assert forall|j: int| 0 <= j < k implies '\0' <= #[trigger] s.subrange(0, k)[j] <= '\u{7f}' by {
            if 2 <= j < 2 + re.len() {
                assert(s.subrange(0, k)[j] == re[j - 2]);
            } else if 2 + re.len() < j < k {
                assert(s.subrange(0, k)[j] == im[j - 3 - re.len()]);
            }
        }
    }
    vstd::utf8::is_ascii_chars_encode_utf8(s.subrange(0, k));
    assert(s[k + 1] == ac);
    lemma_analysis_code_round_trip(t.analysis, ac);
    lemma_shape_code_round_trip(t.shape, sc);
    // the size
    if t.shape != OrbitTrapShape::Point {
        lemma_find_char(s, '[', k + 2);
        assert(between_start(s, "["@) == k + 3);
        let tail = s.subrange(k + 3, s.len() as int);
        assert(tail =~= z + close);
        assert forall|j: int| 0 <= j < z.len() implies tail[j] != ']' by {
            assert(tail[j] == z[j]);
        }
        lemma_find_char(tail, ']', z.len() as int);
        assert(s.subrange(k + 3, k + 3 + z.len()) =~= z);
    } else {
        assert(t.size =~= Seq::<char>::empty());
    }
    assert(s[0] == sc);
    assert(encode_utf8(s.subrange(0, k)).len() == k);
}

} // verus!
