//! How a palette is stretched over the iteration counts, the code that save
//! files write for it, and the text a palette is saved as.
//!
//! The colour components and positions of a palette's points, its length and
//! its offset are floating point; here they are held as the text the save
//! file holds for them.

use vstd::prelude::*;
use vstd::utf8::encode_utf8;

use crate::lines::{join_str, split_str, split_text, string_views};
use crate::names::{replace_str, replace_text};
use crate::text::{
    between_end, between_start, find, find_chars, get_str_between, lemma_ascii_start_found, occurs_at, text_chars,
};

verus! {

broadcast use vstd::string::group_string_axioms;

/// How a palette maps to iteration counts.
#[derive(Clone, Copy, PartialEq, Eq, Structural, Debug)]
pub enum MappingType {
    /// the palette stays the same regardless of the max iterations
    Constant,
    /// the palette length stays the same, being extended further with a higher max iterations
    Repeated,
}

/// The code written for a mapping type.
pub open spec fn mapping_code(m: MappingType) -> char {
    match m {
        MappingType::Constant => '0',
        MappingType::Repeated => '1',
    }
}

/// The mapping type a code stands for, if any.
pub open spec fn mapping_of_code(c: char) -> Option<MappingType> {
    if c == '0' {
        Some(MappingType::Constant)
    } else if c == '1' {
        Some(MappingType::Repeated)
    } else {
        None
    }
}

impl MappingType {
    /// Returns the code written for the mapping type in save files.
    pub fn export_num(&self) -> (s: &'static str)
        ensures
            s@ == seq![mapping_code(*self)],
    {
        proof {
            reveal_strlit("0");
            reveal_strlit("1");
        }
        match self {
            MappingType::Constant => "0",
            MappingType::Repeated => "1",
        }
    }

    /// Returns the mapping type a save-file code stands for.
    pub fn import_from_num(num: char) -> (m: MappingType)
        requires
            mapping_of_code(num) is Some,
        ensures
            mapping_of_code(num) == Some(m),
    {
        if num == '0' {
            MappingType::Constant
        } else {
            MappingType::Repeated
        }
    }

    /// The mapping types offered to the user, in menu order.
    pub fn get_variants() -> (v: Vec<MappingType>)
        ensures
            v@ == seq![MappingType::Constant, MappingType::Repeated],
    {
        vec![MappingType::Constant, MappingType::Repeated]
    }

    /// The name shown for the mapping type.
    pub fn get_string(&self) -> (s: String)
        ensures
            s@ == match self {
                MappingType::Constant => "Constant"@,
                MappingType::Repeated => "Repeated"@,
            },
    {
        match self {
            MappingType::Constant => String::from_str("Constant"),
            MappingType::Repeated => String::from_str("Repeated"),
        }
    }
}

/// Reading back the code written for a mapping type gives that type, and
/// every code that stands for a type is the one written for it.
pub proof fn lemma_mapping_code_round_trip(m: MappingType, c: char)
    ensures
        mapping_of_code(mapping_code(m)) == Some(m),
        mapping_of_code(c) matches Some(n) ==> mapping_code(n) == c,
{
}

// ---------------------------------------------------------------------------
// The text of a palette
// ---------------------------------------------------------------------------

/// What the text of a colour point holds: its red, green, blue and alpha
/// components and its position in the palette.
pub struct PointModel {
    pub r: Seq<char>,
    pub g: Seq<char>,
    pub b: Seq<char>,
    pub a: Seq<char>,
    pub percent: Seq<char>,
}

/// What the text of a palette holds.
pub struct PaletteModel {
    pub colour_map: Seq<PointModel>,
    pub mapping_type: MappingType,
    pub palette_length: Seq<char>,
    pub offset: Seq<char>,
}

/// A colour point as its saved text describes it.
#[derive(Clone, Debug)]
pub struct ColourPointText {
    pub r: String,
    pub g: String,
    pub b: String,
    pub a: String,
    pub percent: String,
}

impl View for ColourPointText {
    type V = PointModel;

    open spec fn view(&self) -> PointModel {
        PointModel { r: self.r@, g: self.g@, b: self.b@, a: self.a@, percent: self.percent@ }
    }
}

/// A palette as its saved text describes it: its colour points, its mapping
/// type, and the text of its length and offset.
#[derive(Clone, Debug)]
pub struct PaletteText {
    pub colour_map: Vec<ColourPointText>,
    pub mapping_type: MappingType,
    pub palette_length: String,
    pub offset: String,
}

/// The view of each point of `v`.
pub open spec fn point_views(v: Seq<ColourPointText>) -> Seq<PointModel> {
    v.map_values(|p: ColourPointText| p@)
}

impl View for PaletteText {
    type V = PaletteModel;

    open spec fn view(&self) -> PaletteModel {
        PaletteModel {
            colour_map: point_views(self.colour_map@),
            mapping_type: self.mapping_type,
            palette_length: self.palette_length@,
            offset: self.offset@,
        }
    }
}

/// The text inside the brackets of a colour point:
/// `[r][g][b][a],percent`.
pub open spec fn point_body(p: PointModel) -> Seq<char> {
    seq!['['] + p.r + seq![']', '['] + p.g + seq![']', '['] + p.b + seq![']', '['] + p.a + seq![
        ']',
        ',',
    ] + p.percent
}

/// The text of a colour point: its body in round brackets.
pub open spec fn point_text(p: PointModel) -> Seq<char> {
    seq!['('] + point_body(p) + seq![')']
}

/// The text of the colour points, one after the other.
pub open spec fn map_text(points: Seq<PointModel>) -> Seq<char>
    decreases points.len(),
{
    if points.len() == 0 {
        Seq::empty()
    } else {
        map_text(points.drop_last()) + point_text(points.last())
    }
}

/// The text a palette is saved as: `#`, its points, `#`, the code of its
/// mapping type, then its length and its offset in square brackets.
pub open spec fn palette_text(m: PaletteModel) -> Seq<char> {
    seq!['#'] + map_text(m.colour_map) + seq!['#', mapping_code(m.mapping_type), '['] + m.palette_length
        + seq![']', '['] + m.offset + seq![']']
}

/// `s` with every `c` taken out.
pub open spec fn remove_char(s: Seq<char>, c: char) -> Seq<char> {
    replace_str(s, seq![c], Seq::empty())
}

/// `s` without its square brackets.
pub open spec fn strip_brackets(s: Seq<char>) -> Seq<char> {
    remove_char(remove_char(s, '['), ']')
}

/// The colour fields of a point's text without round brackets: the pieces
/// between its `][` separators, the last cut at its first comma.
pub open spec fn point_colours(q: Seq<char>) -> Seq<Seq<char>> {
    let pieces = split_str(q, seq![']', '[']);
    pieces.drop_last().push(split_str(pieces.last(), seq![','])[0])
}

/// The `i`-th colour component read from the colour fields: the field
/// without square brackets, or `0` when there are fewer fields.
pub open spec fn component(colours: Seq<Seq<char>>, i: int) -> Seq<char> {
    if i < colours.len() {
        strip_brackets(colours[i])
    } else {
        seq!['0']
    }
}

/// What reading the text of a colour point gives, round brackets taken out:
/// up to four colour components and the position after the last comma;
/// `None` when there are more than four colour fields.
pub open spec fn point_from_text(p: Seq<char>) -> Option<PointModel> {
    let q = remove_char(remove_char(p, '('), ')');
    let colours = point_colours(q);
    if colours.len() > 4 {
        None
    } else {
        Some(
            PointModel {
                r: component(colours, 0),
                g: component(colours, 1),
                b: component(colours, 2),
                a: component(colours, 3),
                percent: split_str(q, seq![',']).last(),
            },
        )
    }
}

/// What reading the texts of colour points gives: each read, or `None` when
/// one does not read.
pub open spec fn points_from_pieces(pieces: Seq<Seq<char>>) -> Option<Seq<PointModel>>
    decreases pieces.len(),
{
    if pieces.len() == 0 {
        Some(Seq::empty())
    } else {
        match (points_from_pieces(pieces.drop_last()), point_from_text(pieces.last())) {
            (Some(points), Some(p)) => Some(points.push(p)),
            _ => None,
        }
    }
}

/// What reading the colour map of a palette gives: its pieces between the
/// `)(` separators, each read as a point.
pub open spec fn colour_map_from_text(s: Seq<char>) -> Option<Seq<PointModel>> {
    points_from_pieces(split_str(s, seq![')', '(']))
}

/// What reading the text of a palette gives. The text must start with a
/// one-byte character and hold a second `#`; the mapping code is the character
/// whose position is one past the byte position of that `#`; the length and
/// the offset are the texts in the first square brackets after that `#` and
/// after the first `]` following it; the colour map is the text between the
/// first two `#`. `None` when a part is missing or does not read.
pub open spec fn palette_from_text(s: Seq<char>) -> Option<PaletteModel> {
    if s.len() == 0 || s[0] > '\u{7f}' {
        None
    } else {
        match find(s.subrange(1, s.len() as int), seq!['#']) {
            None => None,
            Some(j) => {
                let k = j + 1;
                let n = encode_utf8(s.subrange(0, k)).len() as int + 1;
                let rest = s.subrange(k + 1, s.len() as int);
                match find(rest, seq![']']) {
                    None => None,
                    Some(j2) => {
                        let rest2 = rest.subrange(j2 + 1, rest.len() as int);
                        if n >= s.len() {
                            None
                        } else {
                            match (
                                mapping_of_code(s[n]),
                                colour_map_from_text(
                                    s.subrange(between_start(s, "#"@), between_end(s, "#"@, "#"@)),
                                ),
                            ) {
                                (Some(mapping_type), Some(colour_map)) => Some(
                                    PaletteModel {
                                        colour_map,
                                        mapping_type,
                                        palette_length: rest.subrange(
                                            between_start(rest, "["@),
                                            between_end(rest, "["@, "]"@),
                                        ),
                                        offset: rest2.subrange(
                                            between_start(rest2, "["@),
                                            between_end(rest2, "["@, "]"@),
                                        ),
                                    },
                                ),
                                _ => None,
                            }
                        }
                    },
                }
            },
        }
    }
}

/// A split always has a piece.
proof fn lemma_split_has_a_piece(s: Seq<char>, p: Seq<char>)
    ensures
        split_str(s, p).len() >= 1,
{
}

/// When one point does not read, the colour map does not read.
proof fn lemma_points_prefix(pieces: Seq<Seq<char>>, k: int)
    requires
        0 <= k <= pieces.len(),
        points_from_pieces(pieces.take(k)) is None,
    ensures
        points_from_pieces(pieces) is None,
    decreases pieces.len() - k,
{
    if k == pieces.len() {
        assert(pieces.take(k) =~= pieces);
    } else {
        assert(pieces.take(k + 1).drop_last() =~= pieces.take(k));
        lemma_points_prefix(pieces, k + 1);
    }
}

/// Returns `text` without its square brackets.
fn strip_brackets_text(text: &str) -> (s: String)
    ensures
        s@ == strip_brackets(text@),
{
    proof {
        reveal_strlit("[");
        reveal_strlit("]");
        reveal_strlit("");
        assert("["@ =~= seq!['[']);
        assert("]"@ =~= seq![']']);
        assert(""@ =~= Seq::<char>::empty());
    }
    let without_open = replace_text(text, "[", "");
    replace_text(without_open.as_str(), "]", "")
}

impl ColourPointText {
    /// Reads the text of a colour point: up to four colour components (a
    /// missing one reads as `0`) and the position after the last comma, or
    /// `None` when there are more than four colour fields.
    pub fn import_from_str(point: &str) -> (r: Option<ColourPointText>)
        ensures
            match point_from_text(point@) {
                Some(p) => r matches Some(c) && c@ == p,
                None => r is None,
            },
    {
        proof {
            reveal_strlit("(");
            reveal_strlit(")");
            reveal_strlit("");
            reveal_strlit("][");
            reveal_strlit(",");
            reveal_strlit("0");
            assert("("@ =~= seq!['(']);
            assert(")"@ =~= seq![')']);
            assert(""@ =~= Seq::<char>::empty());
            assert("]["@ =~= seq![']', '[']);
            assert(","@ =~= seq![',']);
            assert("0"@ =~= seq!['0']);
        }
        let without_open = replace_text(point, "(", "");
        let q = replace_text(without_open.as_str(), ")", "");
        let mut colours = split_text(q.as_str(), "][");
        let ghost pieces = string_views(colours@);
        proof {
            lemma_split_has_a_piece(q@, "]["@);
        }
        assert(pieces.len() == colours@.len());
        let last = match colours.pop() {
            Some(l) => l,
            None => return None,
        };
        assert(last@ == pieces.last());
        let end_pieces = split_text(last.as_str(), ",");
        proof {
            lemma_split_has_a_piece(last@, ","@);
        }
        assert(string_views(end_pieces@)[0] == end_pieces@[0]@);
        colours.push(end_pieces[0].clone());
        let ghost fields = string_views(colours@);
        assert(fields =~= point_colours(q@));
        if colours.len() > 4 {
            return None;
        }
        let r = if colours.len() > 0 {
            strip_brackets_text(colours[0].as_str())
        } else {
            String::from_str("0")
        };
        let g = if colours.len() > 1 {
            strip_brackets_text(colours[1].as_str())
        } else {
            String::from_str("0")
        };
        let b = if colours.len() > 2 {
            strip_brackets_text(colours[2].as_str())
        } else {
            String::from_str("0")
        };
        let a = if colours.len() > 3 {
            strip_brackets_text(colours[3].as_str())
        } else {
            String::from_str("0")
        };
        let by_comma = split_text(q.as_str(), ",");
        proof {
            lemma_split_has_a_piece(q@, ","@);
        }
        let ghost commas = string_views(by_comma@);
        assert(commas.len() == by_comma@.len());
        let last_i = by_comma.len() - 1;
        assert(commas[last_i as int] == by_comma@[last_i as int]@);
        let percent = by_comma[last_i].clone();
        proof {
            assert(fields.len() > 0 ==> fields[0] == colours@[0]@);
            assert(fields.len() > 1 ==> fields[1] == colours@[1]@);
            assert(fields.len() > 2 ==> fields[2] == colours@[2]@);
            assert(fields.len() > 3 ==> fields[3] == colours@[3]@);
            assert(q@ == remove_char(remove_char(point@, '('), ')'));
            assert(r@ == component(fields, 0));
            assert(a@ == component(fields, 3));
            assert(percent@ == split_str(q@, seq![',']).last());
        }
        Some(ColourPointText { r, g, b, a, percent })
    }
}

/// Reads the colour map of a palette: the pieces between its `)(`
/// separators, each read as a point, or `None` when one does not read.
pub fn import_colour_map_from_str(text: &str) -> (r: Option<Vec<ColourPointText>>)
    ensures
        match colour_map_from_text(text@) {
            Some(m) => r matches Some(v) && point_views(v@) == m,
            None => r is None,
        },
{
    proof {
        reveal_strlit(")(");
        assert(")("@ =~= seq![')', '(']);
    }
    let pieces = split_text(text, ")(");
    let ghost ps = string_views(pieces@);
    assert(ps.len() == pieces@.len());
    let mut points: Vec<ColourPointText> = Vec::new();
    let mut i: usize = 0;
    assert(ps.take(0) =~= Seq::<Seq<char>>::empty());
    assert(point_views(points@) =~= Seq::<PointModel>::empty());
    while i < pieces.len()
        invariant
            ps == string_views(pieces@),
            ps.len() == pieces@.len(),
            ps == split_str(text@, seq![')', '(']),
            i <= pieces@.len(),
            points_from_pieces(ps.take(i as int)) == Some(point_views(points@)),
        decreases pieces@.len() - i,
    {
        assert(ps[i as int] == pieces@[i as int]@);
        assert(ps.take(i + 1).drop_last() =~= ps.take(i as int));
        assert(ps.take(i + 1).last() == ps[i as int]);
        match ColourPointText::import_from_str(pieces[i].as_str()) {
            Some(p) => {
                let ghost before = point_views(points@);
                points.push(p);
                assert(point_views(points@) =~= before.push(p@));
            },
            None => {
                proof {
                    lemma_points_prefix(ps, i + 1);
                }
                return None;
            },
        }
        i = i + 1;
    }
    assert(ps.take(i as int) =~= ps);
    Some(points)
}

/// The UTF-8 encoding of a text takes at most four bytes per character.
proof fn lemma_encode_utf8_len_bound(s: Seq<char>)
    ensures
        encode_utf8(s).len() <= 4 * s.len(),
    decreases s.len(),
{
    if s.len() > 0 {
        lemma_encode_utf8_len_bound(s.drop_first());
    }
}

impl PaletteText {
    /// Returns the text the palette is saved as.
    pub fn get_export_string(&self) -> (s: String)
        ensures
            s@ == palette_text(self@),
    {
        proof {
            reveal_strlit("#");
            reveal_strlit("([");
            reveal_strlit("][");
            reveal_strlit("],");
            reveal_strlit(")");
            reveal_strlit("[");
            reveal_strlit("]");
        }
        let ghost points = point_views(self.colour_map@);
        let mut s = String::from_str("#");
        let mut i: usize = 0;
        assert(points.take(0) =~= Seq::<PointModel>::empty());
        while i < self.colour_map.len()
            invariant
                points == point_views(self.colour_map@),
                i <= self.colour_map@.len(),
                s@ == seq!['#'] + map_text(points.take(i as int)),
                "([" @ =~= seq!['(', '['],
                "]["@ =~= seq![']', '['],
                "],"@ =~= seq![']', ','],
                ")"@ =~= seq![')'],
            decreases self.colour_map@.len() - i,
        {
            let point = &self.colour_map[i];
            s.append("([");
            s.append(point.r.as_str());
            s.append("][");
            s.append(point.g.as_str());
            s.append("][");
            s.append(point.b.as_str());
            s.append("][");
            s.append(point.a.as_str());
            s.append("],");
            s.append(point.percent.as_str());
            s.append(")");
            proof {
                assert(points[i as int] == point@);
                assert(points.take(i + 1).drop_last() =~= points.take(i as int));
                assert(s@ =~= seq!['#'] + map_text(points.take(i + 1)));
            }
            i = i + 1;
        }
        assert(points.take(i as int) =~= points);
        s.append("#");
        s.append(self.mapping_type.export_num());
        s.append("[");
        s.append(self.palette_length.as_str());
        s.append("][");
        s.append(self.offset.as_str());
        s.append("]");
        assert(s@ =~= palette_text(self@));
        s
    }

    /// Reads the text of a palette, or returns `None` when a part of it is
    /// missing or does not read.
    pub fn import_from_str(text: &str) -> (r: Option<PaletteText>)
        requires
            text@.len() * 4 < usize::MAX,
        ensures
            match palette_from_text(text@) {
                Some(m) => r matches Some(p) && p@ == m,
                None => r is None,
            },
    {
        proof {
            reveal_strlit("#");
            reveal_strlit("]");
            reveal_strlit("[");
            assert("#"@ =~= seq!['#']);
            assert("]"@ =~= seq![']']);
        }
        let chars = text_chars(text);
        let n_chars = chars.len();
        if n_chars == 0 || chars[0] > '\u{7f}' {
            return None;
        }
        let hash = text_chars("#");
        proof {
            crate::lines::lemma_find_from_shift(text@, seq!['#'], 1, 0);
            crate::text::lemma_find_from_bounds(text@, seq!['#'], 1);
        }
        let k = match find_chars(&chars, &hash, 1) {
            Some(k) => k,
            None => return None,
        };
        proof {
            lemma_encode_utf8_len_bound(text@.subrange(0, k as int));
        }
        let bytes = text.substring_char(0, k).len();
        let n = bytes + 1;
        let rest = text.substring_char(k + 1, n_chars);
        let rest_chars = text_chars(rest);
        let close = text_chars("]");
        proof {
            crate::text::lemma_find_from_bounds(rest@, seq![']'], 0);
        }
        let j2 = match find_chars(&rest_chars, &close, 0) {
            Some(j) => j,
            None => return None,
        };
        let rest2 = rest.substring_char(j2 + 1, rest_chars.len());
        if n >= n_chars {
            return None;
        }
        let code = chars[n];
        if code != '0' && code != '1' {
            return None;
        }
        let mapping_type = MappingType::import_from_num(code);
        proof {
            reveal_strlit("#");
            lemma_ascii_start_found(text@, "#"@);
        }
        let colour_map = match import_colour_map_from_str(get_str_between(text, "#", "#")) {
            Some(m) => m,
            None => return None,
        };
        proof {
            reveal_strlit("[");
            lemma_ascii_start_found(rest@, "["@);
        }
        let palette_length = String::from_str(get_str_between(rest, "[", "]"));
        proof {
            reveal_strlit("[");
            lemma_ascii_start_found(rest2@, "["@);
        }
        let offset = String::from_str(get_str_between(rest2, "[", "]"));
        Some(PaletteText { colour_map, mapping_type, palette_length, offset })
    }
}

/// A field of a palette's text that can be written and read back: ASCII,
/// without round or square brackets, commas or `#`.
pub open spec fn field_valid(f: Seq<char>) -> bool {
    forall|j: int|
        0 <= j < f.len() ==> {
            &&& '\0' <= #[trigger] f[j] <= '\u{7f}'
            &&& f[j] != '('
            &&& f[j] != ')'
            &&& f[j] != '['
            &&& f[j] != ']'
            &&& f[j] != ','
            &&& f[j] != '#'
        }
}

/// A colour point whose text can be written and read back.
pub open spec fn point_valid(p: PointModel) -> bool {
    &&& field_valid(p.r)
    &&& field_valid(p.g)
    &&& field_valid(p.b)
    &&& field_valid(p.a)
    &&& field_valid(p.percent)
}

/// A palette whose text can be written and read back: it has a colour point,
/// its points are valid, and its length and offset hold no `]`.
pub open spec fn palette_valid(m: PaletteModel) -> bool {
    &&& m.colour_map.len() >= 1
    &&& forall|i: int| 0 <= i < m.colour_map.len() ==> point_valid(#[trigger] m.colour_map[i])
    &&& forall|j: int| 0 <= j < m.palette_length.len() ==> m.palette_length[j] != ']'
    &&& forall|j: int| 0 <= j < m.offset.len() ==> m.offset[j] != ']'
}

/// `s` holds no `c`.
pub open spec fn no_char(s: Seq<char>, c: char) -> bool {
    forall|j: int| 0 <= j < s.len() ==> s[j] != c
}

/// `s` is ASCII and holds no `#`.
pub open spec fn map_safe(s: Seq<char>) -> bool {
    forall|j: int| 0 <= j < s.len() ==> '\0' <= #[trigger] s[j] <= '\u{7f}' && s[j] != '#'
}

proof fn lemma_no_char_concat(x: Seq<char>, y: Seq<char>, c: char)
    requires
        no_char(x, c),
        no_char(y, c),
    ensures
        no_char(x + y, c),
{
    assert forall|j: int| 0 <= j < (x + y).len() implies (x + y)[j] != c by {
        if j >= x.len() {
            assert((x + y)[j] == y[j - x.len()]);
        }
    }
}

proof fn lemma_map_safe_concat(x: Seq<char>, y: Seq<char>)
    requires
        map_safe(x),
        map_safe(y),
    ensures
        map_safe(x + y),
{
    assert forall|j: int| 0 <= j < (x + y).len() implies '\0' <= #[trigger] (x + y)[j] <= '\u{7f}' && (x + y)[j] != '#' by {
        if j >= x.len() {
            assert((x + y)[j] == y[j - x.len()]);
        } else {
            assert((x + y)[j] == x[j]);
        }
    }
}

/// The body of a valid point holds no round brackets and no `#`, and is
/// ASCII.
proof fn lemma_point_body_chars(p: PointModel)
    requires
        point_valid(p),
    ensures
        no_char(point_body(p), '('),
        no_char(point_body(p), ')'),
        map_safe(point_body(p)),
        map_safe(point_text(p)),
{
    let parts = seq![
        seq!['['], p.r, seq![']', '['], p.g, seq![']', '['], p.b, seq![']', '['], p.a, seq![']', ','], p.percent,
    ];
    assert forall|i: int| 0 <= i < parts.len() implies no_char(#[trigger] parts[i], '(') && no_char(parts[i], ')') && map_safe(parts[i]) by {
        if i == 1 {
            assert(parts[i] == p.r);
        } else if i == 3 {
            assert(parts[i] == p.g);
        } else if i == 5 {
            assert(parts[i] == p.b);
        } else if i == 7 {
            assert(parts[i] == p.a);
        } else if i == 9 {
            assert(parts[i] == p.percent);
        }
    }
    lemma_concat_parts_chars(parts, parts.len() as int);
    let acc = concat_parts(parts, parts.len() as int);
    assert(acc =~= point_body(p)) by {
        reveal_with_fuel(concat_parts, 12);
    }
    lemma_map_safe_concat(seq!['('], point_body(p));
    lemma_map_safe_concat(seq!['('] + point_body(p), seq![')']);
}

/// Parts without round brackets or `#`, ASCII, give such a text.
proof fn lemma_concat_parts_chars(parts: Seq<Seq<char>>, i: int)
    requires
        0 <= i <= parts.len(),
        forall|k: int| 0 <= k < parts.len() ==> no_char(#[trigger] parts[k], '(') && no_char(parts[k], ')') && map_safe(parts[k]),
    ensures
        no_char(concat_parts(parts, i), '('),
        no_char(concat_parts(parts, i), ')'),
        map_safe(concat_parts(parts, i)),
    decreases i,
{
    if i > 0 {
        lemma_concat_parts_chars(parts, i - 1);
        let acc = concat_parts(parts, i - 1);
        assert(no_char(parts[i - 1], '(') && no_char(parts[i - 1], ')') && map_safe(parts[i - 1]));
        lemma_no_char_concat(acc, parts[i - 1], '(');
        lemma_no_char_concat(acc, parts[i - 1], ')');
        lemma_map_safe_concat(acc, parts[i - 1]);
    }
}

/// The parts of `parts` before `i`, one after the other.
pub open spec fn concat_parts(parts: Seq<Seq<char>>, i: int) -> Seq<char>
    decreases i,
{
    if i <= 0 {
        Seq::empty()
    } else {
        concat_parts(parts, i - 1) + parts[i - 1]
    }
}

/// The separator of the points of a colour map.
pub open spec fn point_separator() -> Seq<char> {
    seq![')', '(']
}

/// The bodies of the points.
pub open spec fn bodies(cm: Seq<PointModel>) -> Seq<Seq<char>> {
    cm.map_values(|p: PointModel| point_body(p))
}

/// The pieces the text of a colour map splits into at its `)(` separators:
/// each point's body, the first behind `lead`, the last followed by `)`.
pub open spec fn decorated(bs: Seq<Seq<char>>, lead: Seq<char>) -> Seq<Seq<char>> {
    Seq::new(
        bs.len(),
        |i: int|
            (if i == 0 {
                lead
            } else {
                Seq::empty()
            }) + bs[i] + (if i == bs.len() - 1 {
                seq![')']
            } else {
                Seq::empty()
            }),
    )
}

/// The text of a colour map is its points' bodies joined by `)(`, in round
/// brackets.
proof fn lemma_map_text_join(cm: Seq<PointModel>)
    requires
        cm.len() >= 1,
    ensures
        map_text(cm) == seq!['('] + join_str(bodies(cm), point_separator()) + seq![')'],
    decreases cm.len(),
{
    let b = point_body(cm.last());
    if cm.len() == 1 {
        assert(cm.drop_last() =~= Seq::<PointModel>::empty());
        assert(map_text(cm.drop_last()) == Seq::<char>::empty());
        assert(bodies(cm) =~= seq![b]);
        assert(join_str(seq![b], point_separator()) == b);
        assert(map_text(cm) =~= seq!['('] + join_str(bodies(cm), point_separator()) + seq![')']);
    } else {
        let c2 = cm.drop_last();
        lemma_map_text_join(c2);
        assert(bodies(cm) =~= bodies(c2).push(b));
        crate::lines::lemma_join_push(bodies(c2), b, point_separator());
        assert(map_text(cm) =~= seq!['('] + join_str(bodies(cm), point_separator()) + seq![')']);
    }
}

/// Splitting the text of a colour map at its `)(` separators gives its
/// decorated pieces.
proof fn lemma_split_decorated(bs: Seq<Seq<char>>, lead: Seq<char>)
    requires
        bs.len() >= 1,
        lead == seq!['('] || lead == Seq::<char>::empty(),
        forall|i: int| 0 <= i < bs.len() ==> no_char(#[trigger] bs[i], ')'),
    ensures
        split_str(lead + join_str(bs, point_separator()) + seq![')'], point_separator())
            == decorated(bs, lead),
    decreases bs.len(),
{
    let sep = point_separator();
    assert(no_char(lead, ')'));
    assert(no_char(bs[0], ')'));
    if bs.len() == 1 {
        let text = lead + bs[0] + seq![')'];
        assert(join_str(bs, sep) == bs[0]);
        assert forall|i: int| !#[trigger] occurs_at(text, sep, i) by {
            if occurs_at(text, sep, i) {
                assert(text.subrange(i, i + 2)[0] == text[i]);
                if i < lead.len() {
                    assert(text[i] == lead[i]);
                } else if i < lead.len() + bs[0].len() {
                    assert(text[i] == bs[0][i - lead.len()]);
                }
            }
        }
        crate::lines::lemma_split_whole(text, sep);
        assert(decorated(bs, lead) =~= seq![text]);
    } else {
        let rest = bs.drop_first();
        let a = lead + bs[0];
        let b = join_str(rest, sep) + seq![')'];
        assert(lead + join_str(bs, sep) + seq![')'] =~= a + sep + b);
        lemma_no_char_concat(lead, bs[0], ')');
        assert forall|j: int| 0 <= j < a.len() implies a[j] != sep[0] by {}
        crate::lines::lemma_no_match_in_prefix(a, sep, b);
        crate::lines::lemma_split_step(a, sep, b);
        assert forall|i: int| 0 <= i < rest.len() implies no_char(#[trigger] rest[i], ')') by {
            assert(rest[i] == bs[i + 1]);
        }
        lemma_split_decorated(rest, Seq::empty());
        assert(Seq::<char>::empty() + join_str(rest, sep) + seq![')'] =~= b);
        assert(seq![a] + decorated(rest, Seq::empty()) =~= decorated(bs, lead));
    }
}

/// Taking out the `c` between two texts without `c` joins them; a text
/// without `c` is kept.
proof fn lemma_remove_char_around(x: Seq<char>, y: Seq<char>, c: char)
    requires
        no_char(x, c),
        no_char(y, c),
    ensures
        remove_char(x + seq![c] + y, c) == x + y,
        remove_char(x, c) == x,
{
    let ps = seq![x, y];
    assert(ps.drop_first() =~= seq![y]);
    assert(join_str(seq![y], seq![c]) == y);
    assert(join_str(seq![y], Seq::<char>::empty()) == y);
    assert(join_str(ps, seq![c]) =~= x + seq![c] + y);
    assert(join_str(ps, Seq::<char>::empty()) =~= x + y);
    assert(crate::lines::pieces_lack(ps, c)) by {
        assert forall|i: int, j: int| 0 <= i < ps.len() && 0 <= j < ps[i].len() implies #[trigger] ps[i][j] != c by {
            if i == 0 {
                assert(ps[i] == x);
            } else {
                assert(ps[i] == y);
            }
        }
    }
    crate::lines::lemma_split_join(ps, c);
    crate::lines::lemma_lacks_char(x, c);
    crate::lines::lemma_split_whole(x, seq![c]);
    assert(join_str(seq![x], Seq::<char>::empty()) == x);
}

/// Taking the round brackets out of a body behind `lead` and before `z`
/// gives the body back.
proof fn lemma_parens_removed(body: Seq<char>, lead: Seq<char>, z: Seq<char>)
    requires
        no_char(body, '('),
        no_char(body, ')'),
        lead == seq!['('] || lead == Seq::<char>::empty(),
        z == seq![')'] || z == Seq::<char>::empty(),
    ensures
        remove_char(remove_char(lead + body + z, '('), ')') == body,
{
    let e = Seq::<char>::empty();
    let text = lead + body + z;
    assert(no_char(z, '('));
    lemma_no_char_concat(body, z, '(');
    if lead == seq!['('] {
        assert(text =~= e + seq!['('] + (body + z));
        lemma_remove_char_around(e, body + z, '(');
        assert(e + (body + z) =~= body + z);
    } else {
        assert(text =~= body + z);
        lemma_remove_char_around(body + z, e, '(');
    }
    if z == seq![')'] {
        assert(body + z =~= body + seq![')'] + e);
        lemma_remove_char_around(body, e, ')');
        assert(body + e =~= body);
    } else {
        assert(body + z =~= body);
        lemma_remove_char_around(body, e, ')');
    }
}

/// The colour fields of a valid point's body are its four components, the
/// first with its opening bracket and the last with its closing one.
proof fn lemma_point_colours(p: PointModel)
    requires
        point_valid(p),
    ensures
        point_colours(point_body(p)) == seq![seq!['['] + p.r, p.g, p.b, p.a + seq![']']],
{
    let body = point_body(p);
    let sep = seq![']', '['];
    let last = p.a + seq![']', ','] + p.percent;
    let ps4 = seq![seq!['['] + p.r, p.g, p.b, last];
    assert(ps4.drop_first() =~= seq![p.g, p.b, last]);
    assert(seq![p.g, p.b, last].drop_first() =~= seq![p.b, last]);
    assert(seq![p.b, last].drop_first() =~= seq![last]);
    assert(join_str(seq![last], sep) == last);
    assert(join_str(seq![p.b, last], sep) == p.b + sep + last);
    assert(join_str(seq![p.g, p.b, last], sep) == p.g + sep + (p.b + sep + last));
    assert(join_str(ps4, sep) == seq!['['] + p.r + sep + (p.g + sep + (p.b + sep + last)));
    assert(join_str(ps4, sep) =~= body);
    assert forall|i: int, j: int| 0 <= i < ps4.len() - 1 && 0 <= j < ps4[i].len() implies #[trigger] ps4[i][j] != sep[0] by {
        if i == 0 {
            if j > 0 {
                assert(ps4[i][j] == p.r[j - 1]);
            }
        } else if i == 1 {
            assert(ps4[i] == p.g);
        } else {
            assert(ps4[i] == p.b);
        }
    }
    assert forall|i: int| !#[trigger] occurs_at(last, sep, i) by {
        if occurs_at(last, sep, i) {
            assert(last.subrange(i, i + 2)[0] == last[i]);
            assert(last.subrange(i, i + 2)[1] == last[i + 1]);
            if i < p.a.len() {
                assert(last[i] == p.a[i]);
            } else if i > p.a.len() + 1 {
                assert(last[i] == p.percent[i - p.a.len() - 2]);
            }
        }
    }
    assert(ps4.last() == last);
    crate::lines::lemma_split_join_pattern(ps4, sep);
    let head = p.a + seq![']'];
    let ends = seq![head, p.percent];
    assert(ends.drop_first() =~= seq![p.percent]);
    assert(join_str(seq![p.percent], seq![',']) == p.percent);
    assert(join_str(ends, seq![',']) =~= last);
    assert(crate::lines::pieces_lack(ends, ',')) by {
        assert forall|i: int, j: int| 0 <= i < ends.len() && 0 <= j < ends[i].len() implies #[trigger] ends[i][j] != ',' by {
            if i == 0 {
                if j < p.a.len() {
                    assert(ends[i][j] == p.a[j]);
                }
            } else {
                assert(ends[i] == p.percent);
            }
        }
    }
    crate::lines::lemma_split_join(ends, ',');
    assert(point_colours(body) =~= seq![seq!['['] + p.r, p.g, p.b, head]);
}

/// Each colour field of a valid point's body reads as its component.
proof fn lemma_point_components(p: PointModel)
    requires
        point_valid(p),
    ensures
        component(seq![seq!['['] + p.r, p.g, p.b, p.a + seq![']']], 0) == p.r,
        component(seq![seq!['['] + p.r, p.g, p.b, p.a + seq![']']], 1) == p.g,
        component(seq![seq!['['] + p.r, p.g, p.b, p.a + seq![']']], 2) == p.b,
        component(seq![seq!['['] + p.r, p.g, p.b, p.a + seq![']']], 3) == p.a,
{
    let e = Seq::<char>::empty();
    let head = p.a + seq![']'];
    lemma_remove_char_around(e, p.r, '[');
    assert(e + seq!['['] + p.r =~= seq!['['] + p.r);
    assert(e + p.r =~= p.r);
    lemma_remove_char_around(p.r, e, ']');
    lemma_remove_char_around(p.g, e, '[');
    lemma_remove_char_around(p.g, e, ']');
    lemma_remove_char_around(p.b, e, '[');
    lemma_remove_char_around(p.b, e, ']');
    assert(no_char(head, '[')) by {
        assert forall|j: int| 0 <= j < head.len() implies head[j] != '[' by {
            if j < p.a.len() {
                assert(head[j] == p.a[j]);
            }
        }
    }
    lemma_remove_char_around(head, e, '[');
    lemma_remove_char_around(p.a, e, ']');
    assert(p.a + seq![']'] + e =~= head);
    assert(p.a + e =~= p.a);
}

/// The position of a valid point's body is what follows its last comma.
proof fn lemma_point_percent(p: PointModel)
    requires
        point_valid(p),
    ensures
        split_str(point_body(p), seq![',']).last() == p.percent,
{
    let body = point_body(p);
    let pre = seq!['['] + p.r + seq![']', '['] + p.g + seq![']', '['] + p.b + seq![']', '['] + p.a + seq![']'];
    let halves = seq![pre, p.percent];
    assert(halves.drop_first() =~= seq![p.percent]);
    assert(join_str(seq![p.percent], seq![',']) == p.percent);
    assert(join_str(halves, seq![',']) =~= body);
    assert(crate::lines::pieces_lack(halves, ',')) by {
        assert forall|i: int, j: int| 0 <= i < halves.len() && 0 <= j < halves[i].len() implies #[trigger] halves[i][j] != ',' by {
            if i == 0 {
                assert(halves[i] == pre);
                let k1 = 1 + p.r.len();
                let k2 = k1 + 2 + p.g.len();
                let k3 = k2 + 2 + p.b.len();
                if 1 <= j < k1 {
                    assert(pre[j] == p.r[j - 1]);
                } else if k1 + 2 <= j < k2 {
                    assert(pre[j] == p.g[j - k1 - 2]);
                } else if k2 + 2 <= j < k3 {
                    assert(pre[j] == p.b[j - k2 - 2]);
                } else if k3 + 2 <= j < k3 + 2 + p.a.len() {
                    assert(pre[j] == p.a[j - k3 - 2]);
                }
            } else {
                assert(halves[i] == p.percent);
            }
        }
    }
    crate::lines::lemma_split_join(halves, ',');
}

/// The text of a valid point reads back as that point, also behind an
/// opening bracket and before a closing one.
proof fn lemma_point_reads_back(p: PointModel, lead: Seq<char>, z: Seq<char>)
    requires
        point_valid(p),
        lead == seq!['('] || lead == Seq::<char>::empty(),
        z == seq![')'] || z == Seq::<char>::empty(),
    ensures
        point_from_text(lead + point_body(p) + z) == Some(p),
{
    lemma_point_body_chars(p);
    lemma_parens_removed(point_body(p), lead, z);
    lemma_point_colours(p);
    lemma_point_components(p);
    lemma_point_percent(p);
}

/// The text of valid colour points is ASCII and holds no `#`.
proof fn lemma_map_text_safe(cm: Seq<PointModel>)
    requires
        forall|i: int| 0 <= i < cm.len() ==> point_valid(#[trigger] cm[i]),
    ensures
        map_safe(map_text(cm)),
    decreases cm.len(),
{
    if cm.len() > 0 {
        assert(point_valid(cm[cm.len() - 1]));
        lemma_map_text_safe(cm.drop_last());
        lemma_point_body_chars(cm.last());
        lemma_map_safe_concat(map_text(cm.drop_last()), point_text(cm.last()));
    }
}

/// The pieces of the text of valid colour points read back as those points.
proof fn lemma_points_read_back(cm: Seq<PointModel>, k: int)
    requires
        cm.len() >= 1,
        forall|i: int| 0 <= i < cm.len() ==> point_valid(#[trigger] cm[i]),
        0 <= k <= cm.len(),
    ensures
        points_from_pieces(decorated(bodies(cm), seq!['(']).take(k)) == Some(cm.take(k)),
    decreases k,
{
    let ds = decorated(bodies(cm), seq!['(']);
    if k == 0 {
        assert(ds.take(0) =~= Seq::<Seq<char>>::empty());
        assert(cm.take(0) =~= Seq::<PointModel>::empty());
    } else {
        lemma_points_read_back(cm, k - 1);
        assert(ds.take(k).drop_last() =~= ds.take(k - 1));
        let i = k - 1;
        assert(point_valid(cm[i]));
        let lead = if i == 0 {
            seq!['(']
        } else {
            Seq::<char>::empty()
        };
        let z = if i == cm.len() - 1 {
            seq![')']
        } else {
            Seq::<char>::empty()
        };
        assert(ds[i] == lead + point_body(cm[i]) + z);
        lemma_point_reads_back(cm[i], lead, z);
        assert(ds.take(k).last() == ds[i]);
        assert(cm.take(k - 1).push(cm[i]) =~= cm.take(k));
    }
}

/// The text of a valid palette reads back as that palette.
pub proof fn lemma_palette_round_trip(m: PaletteModel)
    requires
        palette_valid(m),
    ensures
        palette_from_text(palette_text(m)) == Some(m),
{
    reveal_strlit("#");
    reveal_strlit("[");
    reveal_strlit("]");
    assert("#"@ =~= seq!['#']);
    assert("["@ =~= seq!['[']);
    assert("]"@ =~= seq![']']);
    let cm = m.colour_map;
    let big_m = map_text(cm);
    let code = mapping_code(m.mapping_type);
    let len = m.palette_length;
    let off = m.offset;
    let ll: int = len.len() as int;
    let ol: int = off.len() as int;
    let ml: int = big_m.len() as int;
    let s = palette_text(m);
    let tail = seq!['#', code, '['] + len + seq![']', '['] + off + seq![']'];
    assert(s =~= seq!['#'] + big_m + tail);
    lemma_map_text_safe(cm);
    // the second `#` ends the colour map
    let after = s.subrange(1, s.len() as int);
    assert(after =~= big_m + tail);
    assert forall|j: int| 0 <= j < big_m.len() implies after[j] != '#' by {
        assert(after[j] == big_m[j]);
    }
    crate::lines::lemma_find_char(after, '#', ml);
    let k: int = ml + 1;
    assert(s.subrange(0, k) =~= seq!['#'] + big_m);
    assert(vstd::utf8::is_ascii_chars(s.subrange(0, k))) by {
        assert forall|j: int| 0 <= j < k implies '\0' <= #[trigger] s.subrange(0, k)[j] <= '\u{7f}' by {
            if j > 0 {
                assert(s.subrange(0, k)[j] == big_m[j - 1]);
                assert('\0' <= big_m[j - 1] <= '\u{7f}' && big_m[j - 1] != '#');
            } else {
                assert(s.subrange(0, k)[j] == '#');
            }
        }
    }
    vstd::utf8::is_ascii_chars_encode_utf8(s.subrange(0, k));
    assert(s[k + 1] == code);
    // the length and the offset
    let rest = s.subrange(k + 1, s.len() as int);
    assert(rest =~= seq![code, '['] + len + seq![']', '['] + off + seq![']']);
    assert forall|j: int| 0 <= j < 2 + ll implies rest[j] != ']' by {
        if j >= 2 {
            assert(rest[j] == len[j - 2]);
        }
    }
    crate::lines::lemma_find_char(rest, ']', 2 + ll);
    let rest2 = rest.subrange(3 + ll, rest.len() as int);
    assert(rest2 =~= seq!['['] + off + seq![']']);
    crate::lines::lemma_find_char(rest, '[', 1);
    let inner = rest.subrange(2, rest.len() as int);
    assert(inner =~= len + seq![']', '['] + off + seq![']']);
    assert forall|j: int| 0 <= j < len.len() implies inner[j] != ']' by {
        assert(inner[j] == len[j]);
    }
    crate::lines::lemma_find_char(inner, ']', ll);
    assert(rest.subrange(2, 2 + ll) =~= len);
    crate::lines::lemma_find_char(rest2, '[', 0);
    let inner2 = rest2.subrange(1, rest2.len() as int);
    assert(inner2 =~= off + seq![']']);
    assert forall|j: int| 0 <= j < off.len() implies inner2[j] != ']' by {
        assert(inner2[j] == off[j]);
    }
    crate::lines::lemma_find_char(inner2, ']', ol);
    assert(rest2.subrange(1, 1 + ol) =~= off);
    // the colour map
    crate::lines::lemma_find_char(s, '#', 0);
    assert(s.subrange(1, s.len() as int) == after);
    assert(s.subrange(1, 1 + ml) =~= big_m);
    lemma_map_text_join(cm);
    assert forall|i: int| 0 <= i < bodies(cm).len() implies no_char(#[trigger] bodies(cm)[i], ')') by {
        assert(point_valid(cm[i]));
        lemma_point_body_chars(cm[i]);
    }
    lemma_split_decorated(bodies(cm), seq!['(']);
    lemma_points_read_back(cm, cm.len() as int);
    assert(decorated(bodies(cm), seq!['(']).take(cm.len() as int) =~= decorated(bodies(cm), seq!['(']));
    assert(cm.take(cm.len() as int) =~= cm);
}

} // verus!
