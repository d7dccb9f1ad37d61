//! Cursor and scroll arithmetic: how a cursor moves through a list, how a
//! window follows it, and how far content may scroll.

use vstd::prelude::*;

verus! {

/// `a - b`, and 0 where `b` is the larger.
pub open spec fn sub_or_zero(a: nat, b: nat) -> nat {
    if a >= b {
        (a - b) as nat
    } else {
        0
    }
}

/// The smaller of two numbers.
pub open spec fn least(a: nat, b: nat) -> nat {
    if a <= b {
        a
    } else {
        b
    }
}

/// A position moved by `amount` steps, forward or back, within the range
/// of `usize`.
pub open spec fn spec_step(pos: nat, amount: nat, forward: bool) -> nat {
    if forward {
        least(pos + amount, usize::MAX as nat)
    } else {
        sub_or_zero(pos, amount)
    }
}

/// Rows of the content pane on a screen of `height` rows: all but the
/// header and the footer row.
pub open spec fn spec_content_height(height: nat) -> nat {
    sub_or_zero(height, 2)
}

/// Rows of the file list on a screen of `height` rows: the content pane
/// without its border rows.
pub open spec fn spec_sidebar_height(height: nat) -> nat {
    sub_or_zero(sub_or_zero(height, 2), 2)
}

/// The cursor is on a row of the list and inside the window of `visible`
/// rows that starts at `scroll`, and the window does not reach past the
/// end of the list where the list fills it. An empty list has cursor and
/// window at 0. A window without rows constrains nothing.
pub open spec fn cursor_in_view(cursor: nat, scroll: nat, total: nat, visible: nat) -> bool {
    if total == 0 {
        cursor == 0 && scroll == 0
    } else {
        &&& cursor < total
        &&& visible > 0 ==> scroll <= cursor && cursor < scroll + visible && scroll <= sub_or_zero(
            total,
            visible,
        )
    }
}

/// Where the window starts once the cursor is brought into view: the
/// window moves up to the cursor, or down until the cursor is on its last
/// row, or stays; then it is pulled back so that it does not reach past the
/// end of the list. A window without rows stays where it is.
pub open spec fn spec_scroll_into_view(cursor: nat, scroll: nat, total: nat, visible: nat) -> nat {
    if visible == 0 {
        scroll
    } else {
        let moved = if cursor < scroll {
            cursor
        } else if cursor >= scroll + visible {
            (cursor + 1 - visible) as nat
        } else {
            scroll
        };
        least(moved, sub_or_zero(total, visible))
    }
}

/// Cursor (`.0`) and window start (`.1`) after the cursor was put on row
/// `index`, or on the last row where the list is shorter.
pub open spec fn spec_set_cursor(index: nat, scroll: nat, total: nat, visible: nat) -> (nat, nat) {
    if total == 0 {
        (0, 0)
    } else {
        let cursor = least(index, (total - 1) as nat);
        (cursor, spec_scroll_into_view(cursor, scroll, total, visible))
    }
}

/// Cursor and window start after the cursor moved by `amount` rows.
pub open spec fn spec_move_cursor(
    cursor: nat,
    scroll: nat,
    amount: nat,
    forward: bool,
    total: nat,
    visible: nat,
) -> (nat, nat) {
    spec_set_cursor(spec_step(cursor, amount, forward), scroll, total, visible)
}

/// Window start after the window was moved by `amount` rows while the
/// cursor stays: the window moves as far as the list and the cursor allow.
/// A list that fits into the window is shown from its first row.
pub open spec fn spec_scroll_window(
    cursor: nat,
    scroll: nat,
    amount: nat,
    forward: bool,
    total: nat,
    visible: nat,
) -> nat {
    if total <= visible || visible == 0 {
        0
    } else {
        let wanted = least(spec_step(scroll, amount, forward), (total - visible) as nat);
        spec_scroll_into_view(cursor, wanted, total, visible)
    }
}

/// Content scroll after a move by `amount` rows, held within `max_scroll`.
pub open spec fn spec_scroll_content(scroll: nat, amount: nat, forward: bool, max_scroll: nat) -> nat {
    least(spec_step(scroll, amount, forward), max_scroll)
}

/// Bringing the cursor into view leaves it in view, and leaves a window
/// alone that already shows it.
pub proof fn lemma_scroll_into_view(cursor: nat, scroll: nat, total: nat, visible: nat)
    requires
        cursor < total,
    ensures
        cursor_in_view(cursor, spec_scroll_into_view(cursor, scroll, total, visible), total, visible),
        cursor_in_view(cursor, scroll, total, visible) ==> spec_scroll_into_view(
            cursor,
            scroll,
            total,
            visible,
        ) == scroll,
{
}

/// A position moved by `amount` steps.
pub fn step(pos: usize, amount: usize, forward: bool) -> (moved: usize)
    ensures
        moved == spec_step(pos as nat, amount as nat, forward),
{
    if forward {
        pos.saturating_add(amount)
    } else {
        pos.saturating_sub(amount)
    }
}

/// Rows of the content pane on a screen of `height` rows.
pub fn content_height(height: u16) -> (rows: usize)
    ensures
        rows == spec_content_height(height as nat),
{
    height.saturating_sub(2) as usize
}

/// Rows of the file list on a screen of `height` rows.
pub fn sidebar_height(height: u16) -> (rows: usize)
    ensures
        rows == spec_sidebar_height(height as nat),
{
    height.saturating_sub(2).saturating_sub(2) as usize
}

/// Where the window starts once the cursor is brought into view.
pub fn scroll_into_view(cursor: usize, scroll: usize, total: usize, visible: usize) -> (start: usize)
    requires
        cursor < total,
    ensures
        start == spec_scroll_into_view(cursor as nat, scroll as nat, total as nat, visible as nat),
        cursor_in_view(cursor as nat, start as nat, total as nat, visible as nat),
{
    if visible == 0 {
        return scroll;
    }
    let moved = if cursor < scroll {
        cursor
    } else if cursor - scroll >= visible {
        cursor + 1 - visible
    } else {
        scroll
    };
    let max_scroll = total.saturating_sub(visible);
    if moved <= max_scroll {
        moved
    } else {
        max_scroll
    }
}

/// Puts the cursor on row `index`, or on the last row where the list is
/// shorter, and brings it into view. Returns cursor and window start.
pub fn set_cursor(index: usize, scroll: usize, total: usize, visible: usize) -> (placed: (
    usize,
    usize,
))
    ensures
        (placed.0 as nat, placed.1 as nat) == spec_set_cursor(
            index as nat,
            scroll as nat,
            total as nat,
            visible as nat,
        ),
        cursor_in_view(placed.0 as nat, placed.1 as nat, total as nat, visible as nat),
{
    if total == 0 {
        return (0, 0);
    }
    let cursor = if index <= total - 1 {
        index
    } else {
        total - 1
    };
    (cursor, scroll_into_view(cursor, scroll, total, visible))
}

/// Moves the cursor by `amount` rows and brings it into view. Returns
/// cursor and window start.
pub fn move_cursor(
    cursor: usize,
    scroll: usize,
    amount: usize,
    forward: bool,
    total: usize,
    visible: usize,
) -> (placed: (usize, usize))
    ensures
        (placed.0 as nat, placed.1 as nat) == spec_move_cursor(
            cursor as nat,
            scroll as nat,
            amount as nat,
            forward,
            total as nat,
            visible as nat,
        ),
        cursor_in_view(placed.0 as nat, placed.1 as nat, total as nat, visible as nat),
{
    set_cursor(step(cursor, amount, forward), scroll, total, visible)
}

/// Moves the window by `amount` rows while the cursor stays where it is.
/// Returns the window start.
pub fn scroll_window(
    cursor: usize,
    scroll: usize,
    amount: usize,
    forward: bool,
    total: usize,
    visible: usize,
) -> (start: usize)
    requires
        total > 0 ==> cursor < total,
    ensures
        start == spec_scroll_window(
            cursor as nat,
            scroll as nat,
            amount as nat,
            forward,
            total as nat,
            visible as nat,
        ),
        total > 0 ==> cursor_in_view(cursor as nat, start as nat, total as nat, visible as nat),
{
    if total <= visible || visible == 0 {
        return 0;
    }
    let max_scroll = total - visible;
    let stepped = step(scroll, amount, forward);
    let wanted = if stepped <= max_scroll {
        stepped
    } else {
        max_scroll
    };
    scroll_into_view(cursor, wanted, total, visible)
}

/// Content scroll after a move by `amount` rows, held within `max_scroll`.
pub fn scroll_content(scroll: usize, amount: usize, forward: bool, max_scroll: usize) -> (moved:
    usize)
    ensures
        moved == spec_scroll_content(scroll as nat, amount as nat, forward, max_scroll as nat),
        moved <= max_scroll,
{
    let stepped = step(scroll, amount, forward);
    if stepped <= max_scroll {
        stepped
    } else {
        max_scroll
    }
}

} // verus!
