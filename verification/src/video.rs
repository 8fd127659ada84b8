//! Video recording bookkeeping: the number of frames, the progress counts,
//! the file names of the frames, and the header line of a video save file.

use vstd::prelude::*;

use crate::screen::{dimensions_from_text, dimensions_text, ScreenDimensions};
use crate::text::{
    all_digits, count_and_first, count_char, decimal_text, decimal_value, first_char_index, is_digit,
    lemma_decimal_text_reads_back, parse_usize, parse_usize_fails, push_decimal, text_chars,
    unsigned_text_value,
};

verus! {

broadcast use vstd::string::group_string_axioms;

/// `n` zeros.
pub open spec fn zeros(n: nat) -> Seq<char>
    decreases n,
{
    if n == 0 {
        Seq::empty()
    } else {
        zeros((n - 1) as nat).push('0')
    }
}

/// The name of frame `completed` of a video of `frames` frames: its number,
/// padded with zeros to as many digits as `frames` has, so that the frames
/// sort in order.
pub open spec fn frame_name(frames: nat, completed: nat) -> Seq<char> {
    zeros((decimal_text(frames).len() - decimal_text(completed).len()) as nat) + decimal_text(
        completed,
    )
}

proof fn lemma_zeros_digits(n: nat)
    ensures
        zeros(n).len() == n,
        forall|i: int| 0 <= i < n ==> #[trigger] zeros(n)[i] == '0',
        decimal_value(zeros(n)) == 0,
    decreases n,
{
    if n > 0 {
        lemma_zeros_digits((n - 1) as nat);
        assert(zeros(n).drop_last() == zeros((n - 1) as nat));
    }
}

proof fn lemma_leading_zeros_value(k: nat, d: Seq<char>)
    ensures
        decimal_value(zeros(k) + d) == decimal_value(d),
    decreases d.len(),
{
    lemma_zeros_digits(k);
    if d.len() == 0 {
        assert(zeros(k) + d == zeros(k));
    } else {
        lemma_leading_zeros_value(k, d.drop_last());
        assert((zeros(k) + d).drop_last() == zeros(k) + d.drop_last());
        assert((zeros(k) + d).last() == d.last());
    }
}

/// Every frame name of a video has as many characters as the number of
/// frames has digits, and its digits spell the frame's number: so the names
/// of a video's frames sort in the order of the frames.
pub proof fn lemma_frame_name_width(frames: nat, completed: nat)
    requires
        decimal_text(completed).len() <= decimal_text(frames).len(),
    ensures
        frame_name(frames, completed).len() == decimal_text(frames).len(),
        unsigned_text_value(frame_name(frames, completed)) == Some(completed),
{
    let k = (decimal_text(frames).len() - decimal_text(completed).len()) as nat;
    let d = decimal_text(completed);
    let s = frame_name(frames, completed);
    lemma_zeros_digits(k);
    lemma_decimal_text_reads_back(completed);
    lemma_leading_zeros_value(k, d);
    assert(d.len() > 0 && all_digits(d));
    assert forall|i: int| 0 <= i < s.len() implies is_digit(#[trigger] s[i]) by {
        if i < k {
            assert(s[i] == zeros(k)[i]);
        } else {
            assert(s[i] == d[i - k]);
        }
    }
    assert(is_digit(s[0]));
}

/// The header line of a video save file, without its line break.
pub open spec fn video_header_text(width: nat, height: nat, frames: nat) -> Seq<char> {
    dimensions_text(width, height) + seq![','] + decimal_text(frames)
}

/// What reading a video header line gives: the dimensions and the number of
/// frames, when the line is two comma-separated fields that read as such.
pub open spec fn video_header_from_text(s: Seq<char>) -> Option<(nat, nat, nat)> {
    if count_char(s, ',') != 1 {
        None
    } else {
        let k = first_char_index(s, ',');
        let dims = s.subrange(0, k);
        let frames = s.subrange(k + 1, s.len() as int);
        match dimensions_from_text(dims) {
            Err(_) => None,
            Ok((w, h)) => if parse_usize_fails(frames) {
                None
            } else {
                Some((w, h, crate::text::unsigned_text_value(frames).unwrap()))
            },
        }
    }
}

/// Returns the number of digits of `n`.
fn digit_count(n: usize) -> (d: usize)
    ensures
        d == decimal_text(n as nat).len(),
    decreases n,
{
    proof {
        crate::text::lemma_decimal_text(n as nat);
    }
    if n < 10 {
        1
    } else {
        let d = digit_count(n / 10);
        proof {
            crate::text::lemma_decimal_text((n / 10) as nat);
            lemma_digit_count_small((n / 10) as nat);
        }
        d + 1
    }
}

proof fn lemma_digit_count_small(n: nat)
    ensures
        decimal_text(n).len() <= n + 1,
    decreases n,
{
    if n >= 10 {
        lemma_digit_count_small(n / 10);
    }
}

/// Returns the file name (without extension) of frame `completed_frames` of a
/// video of `frames` frames.
pub fn frame_image_name(frames: usize, completed_frames: usize) -> (s: String)
    requires
        decimal_text(completed_frames as nat).len() <= decimal_text(frames as nat).len(),
    ensures
        s@ == frame_name(frames as nat, completed_frames as nat),
{
    let pad = digit_count(frames) - digit_count(completed_frames);
    let mut s = String::new();
    let mut i: usize = 0;
    while i < pad
        invariant
            i <= pad,
            s@ == zeros(i as nat),
        decreases pad - i,
    {
        s.append("0");
        proof {
            reveal_strlit("0");
        }
        i = i + 1;
    }
    push_decimal(&mut s, completed_frames);
    s
}

/// Returns the number of frames of a video `time` seconds long at `fps`
/// frames per second.
pub fn total_frames(time: usize, fps: usize) -> (frames: usize)
    requires
        time * fps <= usize::MAX,
    ensures
        frames == time * fps,
{
    time * fps
}

/// Returns the pixels rendered so far and the pixels of the whole video, for
/// a video of `frames` frames of `pixels` pixels, `completed_frames` of them
/// done and `this_frame` pixels of the current one rendered.
pub fn progress_counts(pixels: usize, completed_frames: usize, this_frame: usize, frames: usize) -> (r: (
    usize,
    usize,
))
    requires
        pixels * completed_frames + this_frame <= usize::MAX,
        pixels * frames <= usize::MAX,
    ensures
        r.0 == pixels * completed_frames + this_frame,
        r.1 == pixels * frames,
{
    (pixels * completed_frames + this_frame, pixels * frames)
}

/// Returns the header line of a video save file: the dimensions and the
/// number of frames, separated by a comma, then a line break.
pub fn video_header(dimensions: &ScreenDimensions, frames: usize) -> (s: String)
    ensures
        s@ == video_header_text(dimensions.width_spec(), dimensions.height_spec(), frames as nat)
            + seq!['\n'],
{
    let mut s = dimensions.to_string();
    s.append(",");
    push_decimal(&mut s, frames);
    s.append("\n");
    proof {
        reveal_strlit(",");
        reveal_strlit("\n");
    }
    s
}

/// Reads the header line of a video save file: the dimensions and the number
/// of frames, or `None` when the line is not two comma-separated fields that
/// read as such.
pub fn parse_video_header(line: &str) -> (r: Option<(ScreenDimensions, usize)>)
    ensures
        match video_header_from_text(line@) {
            Some((w, h, f)) => r matches Some((d, frames)) && d.width_spec() == w
                && d.height_spec() == h && frames == f,
            None => r is None,
        },
{
    let n = text_chars(line).len();
    let (count, first) = count_and_first(line, ',');
    if count != 1 {
        return None;
    }
    let dims = match ScreenDimensions::from_str(line.substring_char(0, first)) {
        Err(_) => return None,
        Ok(d) => d,
    };
    let frames = match parse_usize(line.substring_char(first + 1, n)) {
        None => return None,
        Some(f) => f,
    };
    Some((dims, frames))
}


/// Reading back the header line written for a video gives its dimensions and
/// number of frames.
pub proof fn lemma_video_header_round_trip(width: usize, height: usize, frames: usize)
    ensures
        video_header_from_text(video_header_text(width as nat, height as nat, frames as nat))
            == Some((width as nat, height as nat, frames as nat)),
{
    let a = dimensions_text(width as nat, height as nat);
    let b = decimal_text(frames as nat);
    crate::screen::lemma_dimensions_text_no_comma(width as nat, height as nat);
    crate::screen::lemma_dimensions_text_round_trip(width, height);
    crate::text::lemma_decimal_text_reads_back(frames as nat);
    assert(forall|i: int| 0 <= i < b.len() ==> b[i] != ',');
    crate::text::lemma_count_char_absent(a, ',');
    crate::text::lemma_count_char_absent(b, ',');
    crate::text::lemma_count_char_append(a, seq![','], ',');
    crate::text::lemma_count_char_append(a + seq![','], b, ',');
    assert(count_char(seq![','], ',') == 1) by {
        assert(seq![','].drop_last() =~= Seq::<char>::empty());
        assert(count_char(Seq::<char>::empty(), ',') == 0);
    }
    crate::text::lemma_first_char_index_after(a, b, ',');
}

} // verus!
