//! Texts and measures of the screen furniture: numbers, headers, paddings
//! and the place of popups.

use vstd::prelude::*;
use vstd::string::StringExecFns;
use crate::diff::{Hunk, HunkView};
use crate::nav::{least, sub_or_zero};
use crate::text::chars_of;

verus! {

/// The decimal digit of a number under ten.
pub open spec fn digit_char(d: nat) -> char {
    if d == 0 {
        '0'
    } else if d == 1 {
        '1'
    } else if d == 2 {
        '2'
    } else if d == 3 {
        '3'
    } else if d == 4 {
        '4'
    } else if d == 5 {
        '5'
    } else if d == 6 {
        '6'
    } else if d == 7 {
        '7'
    } else if d == 8 {
        '8'
    } else {
        '9'
    }
}

/// A number in decimal digits.
pub open spec fn spec_decimal(n: nat) -> Seq<char>
    decreases n,
{
    if n < 10 {
        seq![digit_char(n)]
    } else {
        spec_decimal(n / 10).push(digit_char(n % 10))
    }
}

/// A text of `count` blanks.
pub open spec fn blanks(count: nat) -> Seq<char> {
    Seq::new(count, |i: int| ' ')
}

/// The number in front of a line: the number flush right in five columns
/// and a blank, or six blanks for no number and for the number 0.
pub open spec fn spec_line_number_text(lineno: Option<nat>) -> Seq<char> {
    match lineno {
        Some(n) => if n > 0 {
            blanks(sub_or_zero(5, spec_decimal(n).len())) + spec_decimal(n) + seq![' ']
        } else {
            blanks(6)
        },
        None => blanks(6),
    }
}

/// The header row of a hunk: its header text, or, where that is empty, the
/// ranges of the hunk in the form `@@ -a,b +c,d @@`.
pub open spec fn spec_hunk_header_text(hunk: HunkView) -> Seq<char> {
    if hunk.header.len() > 0 {
        hunk.header
    } else {
        "@@ -"@ + spec_decimal(hunk.old_start) + ","@ + spec_decimal(hunk.old_count) + " +"@
            + spec_decimal(hunk.new_start) + ","@ + spec_decimal(hunk.new_count) + " @@"@
    }
}

/// Blanks between a text of `left` columns at the left edge and a text of
/// `right` columns at the right edge of a row of `width` columns; `None`
/// where the two do not fit with a column to spare.
pub open spec fn spec_gap(left: nat, right: nat, width: nat) -> Option<nat> {
    if left + right < width {
        Some((width - left - right) as nat)
    } else {
        None
    }
}

/// Where a popup of the wanted size stands in an area: centred, and no
/// larger than the area. Areas and popups are given as `(x, y, width,
/// height)`.
pub open spec fn spec_centered(area: (nat, nat, nat, nat), width: nat, height: nat) -> (
    nat,
    nat,
    nat,
    nat,
) {
    (
        least(area.0 + sub_or_zero(area.2, width) / 2, u16::MAX as nat),
        least(area.1 + sub_or_zero(area.3, height) / 2, u16::MAX as nat),
        least(width, area.2),
        least(height, area.3),
    )
}

/// Levels by which a node of the file list is indented at most.
pub const MAX_VISUAL_INDENT: usize = 6;

/// Levels by which a node at `depth` is indented.
pub open spec fn spec_visual_depth(depth: nat) -> nat {
    least(depth, MAX_VISUAL_INDENT as nat)
}

/// The levels that a node lies deeper than it is indented; none for a node
/// that is indented in full.
pub open spec fn spec_hidden_depth(depth: nat) -> Option<nat> {
    if depth > MAX_VISUAL_INDENT {
        Some((depth - MAX_VISUAL_INDENT) as nat)
    } else {
        None
    }
}

/// The digit of a number under ten.
fn digit(d: usize) -> (c: char)
    requires
        d < 10,
    ensures
        c == digit_char(d as nat),
{
    if d == 0 {
        '0'
    } else if d == 1 {
        '1'
    } else if d == 2 {
        '2'
    } else if d == 3 {
        '3'
    } else if d == 4 {
        '4'
    } else if d == 5 {
        '5'
    } else if d == 6 {
        '6'
    } else if d == 7 {
        '7'
    } else if d == 8 {
        '8'
    } else {
        '9'
    }
}

/// A number in decimal digits.
pub fn decimal(n: usize) -> (text: String)
    ensures
        text@ == spec_decimal(n as nat),
    decreases n,
{
    if n < 10 {
        let mut text = String::new();
        text.push(digit(n));
        assert(text@ =~= seq![digit_char(n as nat)]);
        text
    } else {
        let mut text = decimal(n / 10);
        text.push(digit(n % 10));
        text
    }
}

/// A text of `count` blanks.
pub fn blank_text(count: usize) -> (text: String)
    ensures
        text@ == blanks(count as nat),
{
    let mut text = String::new();
    let mut i: usize = 0;
    assert(text@ =~= blanks(0));
    while i < count
        invariant
            i <= count,
            text@ == blanks(i as nat),
        decreases count - i,
    {
        text.push(' ');
        i += 1;
        assert(text@ =~= blanks(i as nat));
    }
    text
}

/// The number in front of a line.
pub fn line_number_text(lineno: Option<usize>) -> (text: String)
    ensures
        text@ == spec_line_number_text(
            match lineno {
                Some(n) => Some(n as nat),
                None => None,
            },
        ),
{
    match lineno {
        Some(n) => {
            if n > 0 {
                let digits = decimal(n);
                let len = chars_of(digits.as_str()).len();
                let pad = if len < 5 {
                    5 - len
                } else {
                    0
                };
                let text = blank_text(pad).concat(digits.as_str()).concat(" ");
                proof {
                    reveal_strlit(" ");
                    assert(" "@ =~= seq![' ']);
                }
                text
            } else {
                blank_text(6)
            }
        },
        None => blank_text(6),
    }
}

/// The header row of a hunk.
pub fn hunk_header_text(hunk: &Hunk) -> (text: String)
    ensures
        text@ == spec_hunk_header_text(hunk@),
{
    if !hunk.header.as_str().is_empty() {
        return hunk.header.clone();
    }
    let text = String::from_str("@@ -");
    let text = text.concat(decimal(hunk.old_start as usize).as_str());
    let text = text.concat(",");
    let text = text.concat(decimal(hunk.old_count as usize).as_str());
    let text = text.concat(" +");
    let text = text.concat(decimal(hunk.new_start as usize).as_str());
    let text = text.concat(",");
    let text = text.concat(decimal(hunk.new_count as usize).as_str());
    text.concat(" @@")
}

/// Blanks between a text at the left edge and a text at the right edge of
/// a row.
pub fn gap(left: usize, right: usize, width: usize) -> (blanks: Option<usize>)
    ensures
        match blanks {
            Some(b) => spec_gap(left as nat, right as nat, width as nat) == Some(b as nat),
            None => spec_gap(left as nat, right as nat, width as nat) is None,
        },
{
    if left < width && right < width - left {
        Some(width - left - right)
    } else {
        None
    }
}

/// Where a popup of the wanted size stands in an area.
pub fn centered(area: (u16, u16, u16, u16), width: u16, height: u16) -> (popup: (u16, u16, u16, u16))
    ensures
        (popup.0 as nat, popup.1 as nat, popup.2 as nat, popup.3 as nat) == spec_centered(
            (area.0 as nat, area.1 as nat, area.2 as nat, area.3 as nat),
            width as nat,
            height as nat,
        ),
{
    (
        area.0.saturating_add(area.2.saturating_sub(width) / 2),
        area.1.saturating_add(area.3.saturating_sub(height) / 2),
        if width <= area.2 {
            width
        } else {
            area.2
        },
        if height <= area.3 {
            height
        } else {
            area.3
        },
    )
}

/// Levels by which a node at `depth` is indented, and the levels that it
/// lies deeper.
pub fn visual_depth(depth: usize) -> (levels: (usize, Option<usize>))
    ensures
        levels.0 == spec_visual_depth(depth as nat),
        match levels.1 {
            Some(d) => spec_hidden_depth(depth as nat) == Some(d as nat),
            None => spec_hidden_depth(depth as nat) is None,
        },
{
    if depth > MAX_VISUAL_INDENT {
        (MAX_VISUAL_INDENT, Some(depth - MAX_VISUAL_INDENT))
    } else {
        (depth, None)
    }
}

} // verus!
