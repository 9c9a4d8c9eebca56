//! Lines of terminal output together with the colour they are shown in.

use vstd::prelude::*;

verus! {

/// How a piece of a line is coloured on a terminal.
#[derive(Clone, Copy, Debug, PartialEq, Eq, Structural)]
pub enum Tint {
    Plain,
    Red,
    RedBold,
    Green,
    GreenBold,
    Yellow,
    Cyan,
    Dimmed,
}

/// A line of output: an uncoloured lead, text in a colour, then an
/// uncoloured tail.
#[derive(Debug)]
pub struct StyledLine {
    pub lead: String,
    pub text: String,
    pub tint: Tint,
    pub tail: String,
}

/// The plain values of styled lines: lead, coloured text, colour, tail.
pub open spec fn styled(v: Seq<StyledLine>) -> Seq<(Seq<char>, Seq<char>, Tint, Seq<char>)> {
    v.map_values(|l: StyledLine| (l.lead@, l.text@, l.tint, l.tail@))
}

/// Appends a line shown wholly in one colour.
pub fn push_line(out: &mut Vec<StyledLine>, text: String, tint: Tint)
    ensures
        styled(final(out)@) == styled(old(out)@).push(
            (Seq::<char>::empty(), text@, tint, Seq::<char>::empty()),
        ),
{
    let ghost before = out@;
    let ghost t = text@;
    out.push(StyledLine { lead: String::new(), text, tint, tail: String::new() });
    assert(styled(out@) =~= styled(before).push(
        (Seq::<char>::empty(), t, tint, Seq::<char>::empty()),
    ));
}

/// Appends a line whose `lead` is uncoloured and whose `text` is coloured.
pub fn push_led_line(out: &mut Vec<StyledLine>, lead: String, text: String, tint: Tint)
    ensures
        styled(final(out)@) == styled(old(out)@).push((lead@, text@, tint, Seq::<char>::empty())),
{
    let ghost before = out@;
    let ghost l = lead@;
    let ghost t = text@;
    out.push(StyledLine { lead, text, tint, tail: String::new() });
    assert(styled(out@) =~= styled(before).push((l, t, tint, Seq::<char>::empty())));
}

/// Appends a line with one coloured piece between an uncoloured lead and
/// tail.
pub fn push_cell_line(out: &mut Vec<StyledLine>, lead: String, text: String, tint: Tint, tail: String)
    ensures
        styled(final(out)@) == styled(old(out)@).push((lead@, text@, tint, tail@)),
{
    let ghost before = out@;
    let ghost l = lead@;
    let ghost t = text@;
    let ghost e = tail@;
    out.push(StyledLine { lead, text, tint, tail });
    assert(styled(out@) =~= styled(before).push((l, t, tint, e)));
}

/// How a command's result is shown.
#[derive(Debug)]
pub enum Rendered {
    /// As JSON, serialised by the caller.
    Json,
    /// As coloured terminal lines.
    Styled(Vec<StyledLine>),
    /// As plain lines (GitHub Actions workflow commands).
    Plain(Vec<String>),
}

} // verus!
