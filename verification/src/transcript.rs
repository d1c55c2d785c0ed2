//! From the segments a speech-to-text engine returns to one transcript text.

use vstd::prelude::*;
use vstd::string::StringExecFns;

verus! {

/// One stretch of recognized speech. The times are in hundredths of a second
/// from the start of the audio.
#[derive(Debug, PartialEq, Eq)]
pub struct Segment {
    pub start: i64,
    pub end: i64,
    pub text: String,
}

/// The mathematical value of a [`Segment`].
pub struct SegmentView {
    pub start: int,
    pub end: int,
    pub text: Seq<char>,
}

impl View for Segment {
    type V = SegmentView;

    open spec fn view(&self) -> SegmentView {
        SegmentView { start: self.start as int, end: self.end as int, text: self.text@ }
    }
}

/// The values of a sequence of segments, element by element.
pub open spec fn segment_views(segments: Seq<Segment>) -> Seq<SegmentView> {
    Seq::new(segments.len(), |i: int| segments[i]@)
}

/// The character for one decimal digit.
pub open spec fn digit(d: int) -> char {
    if d == 0 {
        '0'
    } else if d == 1 {
        '1'
    } else if d == 2 {
        '2'
    } else if d == 3 {
        '3'
    } else if d == 4 {
        '4'
    } else if d == 5 {
        '5'
    } else if d == 6 {
        '6'
    } else if d == 7 {
        '7'
    } else if d == 8 {
        '8'
    } else {
        '9'
    }
}

/// The decimal digits of a natural number, most significant first, without
/// leading zeros.
pub open spec fn digits(n: nat) -> Seq<char>
    decreases n,
{
    if n < 10 {
        seq![digit(n as int)]
    } else {
        digits(n / 10).push(digit((n % 10) as int))
    }
}

/// A whole number in decimal, with a minus sign in front where it is
/// negative.
pub open spec fn decimal(n: int) -> Seq<char> {
    if n < 0 {
        seq!['-'] + digits((-n) as nat)
    } else {
        digits(n as nat)
    }
}

/// One segment as it stands in a transcript: its time range in square
/// brackets, a colon, and its text.
pub open spec fn stamped(segment: SegmentView) -> Seq<char> {
    "["@ + decimal(segment.start) + " - "@ + decimal(segment.end) + "]: "@ + segment.text
}

/// The transcript of a run of segments: each segment stamped, one after the
/// other with nothing in between.
pub open spec fn transcript_of(segments: Seq<SegmentView>) -> Seq<char>
    decreases segments.len(),
{
    if segments.len() == 0 {
        Seq::empty()
    } else {
        transcript_of(segments.drop_last()) + stamped(segments.last())
    }
}

fn digit_text(d: u64) -> (text: &'static str)
    requires
        d < 10,
    ensures
        text@ == seq![digit(d as int)],
{
    proof {
        reveal_strlit("0");
        reveal_strlit("1");
        reveal_strlit("2");
        reveal_strlit("3");
        reveal_strlit("4");
        reveal_strlit("5");
        reveal_strlit("6");
        reveal_strlit("7");
        reveal_strlit("8");
        reveal_strlit("9");
    }
    let text = if d == 0 {
        "0"
    } else if d == 1 {
        "1"
    } else if d == 2 {
        "2"
    } else if d == 3 {
        "3"
    } else if d == 4 {
        "4"
    } else if d == 5 {
        "5"
    } else if d == 6 {
        "6"
    } else if d == 7 {
        "7"
    } else if d == 8 {
        "8"
    } else {
        "9"
    };
    assert(text@ =~= seq![digit(d as int)]);
    text
}

fn push_digits(out: &mut String, n: u64)
    ensures
        final(out)@ == old(out)@ + digits(n as nat),
    decreases n,
{
    if n >= 10 {
        push_digits(out, n / 10);
    }
    out.append(digit_text(n % 10));
    proof {
        assert(final(out)@ =~= old(out)@ + digits(n as nat));
    }
}

/// Appends `n` in decimal to `out`.
pub fn push_decimal(out: &mut String, n: i64)
    ensures
        final(out)@ == old(out)@ + decimal(n as int),
{
    if n < 0 {
        proof {
            reveal_strlit("-");
        }
        out.append("-");
        let magnitude: u64 = if n == i64::MIN {
            9223372036854775808u64
        } else {
            (-n) as u64
        };
        push_digits(out, magnitude);
        proof {
            assert("-"@ =~= seq!['-']);
            assert(final(out)@ =~= old(out)@ + decimal(n as int));
        }
    } else {
        push_digits(out, n as u64);
    }
}

/// Appends one stamped segment to `out`.
pub fn push_segment(out: &mut String, segment: &Segment)
    ensures
        final(out)@ == old(out)@ + stamped(segment@),
{
    out.append("[");
    push_decimal(out, segment.start);
    out.append(" - ");
    push_decimal(out, segment.end);
    out.append("]: ");
    out.append(segment.text.as_str());
    proof {
        assert(final(out)@ =~= old(out)@ + stamped(segment@));
    }
}

/// Joins the segments of one recording into its transcript.
pub fn render(segments: &Vec<Segment>) -> (text: String)
    ensures
        text@ == transcript_of(segment_views(segments@)),
{
    let mut text = String::new();
    let mut i: usize = 0;
    proof {
        assert(segment_views(segments@).subrange(0, 0) =~= Seq::<SegmentView>::empty());
    }
    while i < segments.len()
        invariant
            i <= segments.len(),
            text@ == transcript_of(segment_views(segments@).subrange(0, i as int)),
        decreases segments.len() - i,
    {
        proof {
            let next = segment_views(segments@).subrange(0, i + 1);
            assert(next.drop_last() =~= segment_views(segments@).subrange(0, i as int));
            assert(next.last() == segments[i as int]@);
        }
        push_segment(&mut text, &segments[i]);
        i = i + 1;
    }
    proof {
        assert(segment_views(segments@).subrange(0, segments.len() as int) =~= segment_views(
            segments@,
        ));
    }
    text
}

} // verus!
