//! Text measured in screen columns: cutting a text to a width and
//! expanding tabs to the next tab stop.
//!
//! How many columns a character takes is decided by the `unicode-width`
//! crate. The functions that work with widths take them as plain numbers,
//! one for each character.

use vstd::prelude::*;
use vstd::arithmetic::div_mod::{
    lemma_add_mod_noop, lemma_fundamental_div_mod, lemma_mod_multiples_basic,
    lemma_mod_pos_bound, lemma_small_mod,
};
use unicode_width::{UnicodeWidthChar, UnicodeWidthStr};
use crate::text::{chars_of, substring};

verus! {

/// The display width of a character in columns; none for a control
/// character.
pub uninterp spec fn char_width_of(c: char) -> Option<nat>;

/// The display width of a text in columns.
pub uninterp spec fn text_width_of(text: Seq<char>) -> nat;

/// `UnicodeWidthChar::width` of `unicode-width`: the width of a character
/// in columns, or `None` for a control character. It is a function of the
/// character alone.
#[verifier::external_body]
fn char_width(c: char) -> (width: Option<usize>)
    ensures
        match width {
            Some(w) => char_width_of(c) == Some(w as nat),
            None => char_width_of(c) is None,
        },
{
    UnicodeWidthChar::width(c)
}

/// `UnicodeWidthStr::width` of `unicode-width`: the width of a text in
/// columns. It is a function of the text alone.
#[verifier::external_body]
fn text_width(text: &str) -> (width: usize)
    ensures
        width == text_width_of(text@),
{
    UnicodeWidthStr::width(text)
}

/// Columns that a character takes in a row: its display width, and none
/// for a control character.
pub open spec fn columns_of(c: char) -> nat {
    match char_width_of(c) {
        Some(w) => w,
        None => 0,
    }
}

/// The columns of each character of a text.
pub open spec fn widths_of(text: Seq<char>) -> Seq<nat> {
    text.map_values(|c: char| columns_of(c))
}

/// Columns as natural numbers.
pub open spec fn widths_view(widths: Seq<usize>) -> Seq<nat> {
    widths.map_values(|w: usize| w as nat)
}

/// Number of characters from the start that fit into `max` columns,
/// counted from character `k` on with `used` columns taken: characters are
/// taken until one does not fit.
pub open spec fn fitting_from(widths: Seq<nat>, max: nat, k: int, used: nat) -> int
    decreases widths.len() - k,
{
    if k < 0 || k >= widths.len() || used + widths[k] > max {
        k
    } else {
        fitting_from(widths, max, k + 1, used + widths[k])
    }
}

/// Number of characters from the start that fit into `max` columns.
pub open spec fn spec_fitting_count(widths: Seq<nat>, max: nat) -> int {
    fitting_from(widths, max, 0, 0)
}

/// A text cut to `max` columns: the text itself where it is narrow enough,
/// else its longest start whose characters fit.
pub open spec fn spec_truncate_str(text: Seq<char>, max: nat) -> Seq<char> {
    if text_width_of(text) <= max {
        text
    } else {
        text.take(spec_fitting_count(widths_of(text), max))
    }
}

/// Blanks that a tab at column `col` stands for: as many as lead to the
/// next tab stop.
pub open spec fn tab_blanks(col: nat, tab_width: nat) -> nat {
    (tab_width - col % tab_width) as nat
}

/// The characters from `k` on with tabs expanded, where character `k`
/// stands at column `col`.
pub open spec fn expand_from(
    text: Seq<char>,
    widths: Seq<nat>,
    tab_width: nat,
    k: int,
    col: nat,
) -> Seq<char>
    decreases text.len() - k,
{
    if k < 0 || k >= text.len() {
        Seq::empty()
    } else if text[k] == '\t' {
        let blanks = tab_blanks(col, tab_width);
        Seq::new(blanks, |i: int| ' ') + expand_from(text, widths, tab_width, k + 1, col + blanks)
    } else {
        seq![text[k]] + expand_from(text, widths, tab_width, k + 1, col + widths[k])
    }
}

/// The column behind the first `k` characters, where the first stands at
/// column `col`.
pub open spec fn column_after(text: Seq<char>, widths: Seq<nat>, tab_width: nat, k: int, col: nat) -> nat
    decreases k,
{
    if k <= 0 || k > text.len() {
        col
    } else {
        let before = column_after(text, widths, tab_width, k - 1, col);
        if text[k - 1] == '\t' {
            before + tab_blanks(before, tab_width)
        } else {
            before + widths[k - 1]
        }
    }
}

/// A text with its tabs expanded, the text starting at column `col`.
pub open spec fn spec_expand_tabs(text: Seq<char>, widths: Seq<nat>, tab_width: nat, col: nat) -> Seq<
    char,
> {
    expand_from(text, widths, tab_width, 0, col)
}

/// Columns that agree within the tab cycle agree within it behind a
/// character.
proof fn lemma_next_column(col: nat, other: nat, width: nat, tab_width: nat)
    requires
        tab_width > 0,
        col % tab_width == other % tab_width,
    ensures
        (col + width) % tab_width == (other + width) % tab_width,
{
    lemma_add_mod_noop(col as int, width as int, tab_width as int);
    lemma_add_mod_noop(other as int, width as int, tab_width as int);
}

/// A tab stands for at least one blank and leads to a tab stop.
proof fn lemma_tab_stop(col: nat, tab_width: nat)
    requires
        tab_width > 0,
    ensures
        0 < tab_blanks(col, tab_width) <= tab_width,
        (col + tab_blanks(col, tab_width)) % tab_width == 0,
{
    lemma_mod_pos_bound(col as int, tab_width as int);
    lemma_fundamental_div_mod(col as int, tab_width as int);
    let q = col as int / tab_width as int;
    let r = col as int % tab_width as int;
    assert(col + (tab_width - r) == (q + 1) * tab_width) by (nonlinear_arith)
        requires
            col == tab_width * q + r,
    ;
    lemma_mod_multiples_basic(q + 1, tab_width as int);
}

/// Number of characters from the start that fit into `max_width` columns,
/// given the columns of each character.
pub fn fitting_count(widths: &[usize], max_width: usize) -> (count: usize)
    ensures
        count == spec_fitting_count(widths_view(widths@), max_width as nat),
        count <= widths@.len(),
{
    let ghost w = widths_view(widths@);
    let mut used: usize = 0;
    let mut k: usize = 0;
    while k < widths.len()
        invariant
            k <= widths@.len(),
            w == widths_view(widths@),
            used <= max_width,
            fitting_from(w, max_width as nat, k as int, used as nat) == spec_fitting_count(
                w,
                max_width as nat,
            ),
        decreases widths@.len() - k,
    {
        assert(w[k as int] == widths@[k as int]);
        if widths[k] > max_width - used {
            return k;
        }
        used = used + widths[k];
        k += 1;
    }
    k
}

/// The columns of each character of a text.
fn measure(chars: &[char]) -> (widths: Vec<usize>)
    ensures
        widths_view(widths@) == widths_of(chars@),
{
    let mut widths: Vec<usize> = Vec::new();
    let mut i: usize = 0;
    while i < chars.len()
        invariant
            i <= chars@.len(),
            widths@.len() == i,
            forall|k: int| 0 <= k < i ==> (#[trigger] widths@[k]) == columns_of(chars@[k]),
        decreases chars@.len() - i,
    {
        let w = match char_width(chars[i]) {
            Some(w) => w,
            None => 0,
        };
        widths.push(w);
        i += 1;
    }
    assert(widths_view(widths@) =~= widths_of(chars@));
    widths
}

/// Cuts a text to `max_width` columns.
pub fn truncate_str(s: &str, max_width: usize) -> (cut: String)
    ensures
        cut@ == spec_truncate_str(s@, max_width as nat),
{
    if text_width(s) <= max_width {
        return s.to_owned();
    }
    let chars = chars_of(s);
    let widths = measure(chars.as_slice());
    let count = fitting_count(widths.as_slice(), max_width);
    assert(widths_view(widths@).len() == widths@.len());
    let cut = substring(s, 0, count);
    assert(cut@ =~= s@.take(count as int));
    cut
}

/// The column behind a character that stands at column `col` of a tab
/// cycle and takes `width` columns, within the tab cycle.
fn advance(col: usize, width: usize, tab_width: usize) -> (next: usize)
    requires
        tab_width > 0,
        col < tab_width,
    ensures
        next == (col + width) % (tab_width as int),
        next < tab_width,
{
    (((col as u128) + (width as u128)) % (tab_width as u128)) as usize
}

/// Expands the tabs of a text, given the columns of each character: a tab
/// becomes the blanks up to the next multiple of `tab_width`. The text
/// starts at column `col`; the column behind it is returned with it.
pub fn expand_tabs_with(chars: &[char], widths: &[usize], tab_width: usize, col: usize) -> (expanded:
    (String, usize))
    requires
        tab_width > 0,
        widths@.len() == chars@.len(),
        col < tab_width,
    ensures
        expanded.0@ == spec_expand_tabs(chars@, widths_view(widths@), tab_width as nat, col as nat),
        expanded.1 == column_after(
            chars@,
            widths_view(widths@),
            tab_width as nat,
            chars@.len() as int,
            col as nat,
        ) % (tab_width as nat),
{
    let ghost w = widths_view(widths@);
    let ghost tab = tab_width as nat;
    let mut text = String::new();
    let mut at: usize = col;
    let mut k: usize = 0;
    let ghost mut full: nat = col as nat;
    proof {
        assert(text@ + expand_from(chars@, w, tab, 0, full) =~= spec_expand_tabs(
            chars@,
            w,
            tab,
            col as nat,
        ));
        lemma_small_mod(col as nat, tab);
    }
    while k < chars.len()
        invariant
            k <= chars@.len(),
            tab_width > 0,
            tab == tab_width,
            widths@.len() == chars@.len(),
            w == widths_view(widths@),
            at < tab_width,
            at == full % tab,
            full == column_after(chars@, w, tab, k as int, col as nat),
            text@ + expand_from(chars@, w, tab, k as int, full) == spec_expand_tabs(
                chars@,
                w,
                tab,
                col as nat,
            ),
        decreases chars@.len() - k,
    {
        let ghost so_far = text@;
        assert(w[k as int] == widths@[k as int]);
        if chars[k] == '\t' {
            let blanks = tab_width - at;
            let ghost pad = Seq::new(blanks as nat, |i: int| ' ');
            let mut b: usize = 0;
            while b < blanks
                invariant
                    b <= blanks,
                    pad == Seq::new(blanks as nat, |i: int| ' '),
                    text@ == so_far + pad.take(b as int),
                decreases blanks - b,
            {
                text.push(' ');
                b += 1;
                assert(pad.take(b as int) =~= pad.take(b as int - 1).push(' '));
                assert(so_far + pad.take(b as int) =~= (so_far + pad.take(b as int - 1)).push(' '));
            }
            proof {
                assert(pad.take(blanks as int) =~= pad);
                lemma_tab_stop(full, tab);
                assert(tab_blanks(full, tab) == blanks);
                let next: nat = (full + blanks) as nat;
                assert(text@ + expand_from(chars@, w, tab, k as int + 1, next) =~= so_far
                    + expand_from(chars@, w, tab, k as int, full));
                full = next;
            }
            at = 0;
        } else {
            text.push(chars[k]);
            let next_at = advance(at, widths[k], tab_width);
            proof {
                let next: nat = full + w[k as int];
                lemma_small_mod(at as nat, tab);
                lemma_next_column(full, at as nat, w[k as int], tab);
                assert(text@ + expand_from(chars@, w, tab, k as int + 1, next) =~= so_far
                    + expand_from(chars@, w, tab, k as int, full));
                full = next;
            }
            at = next_at;
        }
        k += 1;
    }
    assert(text@ + Seq::<char>::empty() =~= text@);
    (text, at)
}

/// Where tabs lead depends on the column within the tab cycle alone.
pub proof fn lemma_expand_depends_on_cycle(
    text: Seq<char>,
    widths: Seq<nat>,
    tab_width: nat,
    k: int,
    col: nat,
    other: nat,
)
    requires
        tab_width > 0,
        col % tab_width == other % tab_width,
        0 <= k,
    ensures
        expand_from(text, widths, tab_width, k, col) == expand_from(text, widths, tab_width, k, other),
    decreases text.len() - k,
{
    if k < text.len() {
        if text[k] == '\t' {
            let a: nat = col + tab_blanks(col, tab_width);
            let b: nat = other + tab_blanks(other, tab_width);
            lemma_tab_stop(col, tab_width);
            lemma_tab_stop(other, tab_width);
            lemma_expand_depends_on_cycle(text, widths, tab_width, k + 1, a, b);
        } else {
            let a: nat = col + widths[k];
            let b: nat = other + widths[k];
            lemma_next_column(col, other, widths[k], tab_width);
            lemma_expand_depends_on_cycle(text, widths, tab_width, k + 1, a, b);
        }
    }
}

/// Expands the tabs of a text that starts at column 0.
pub fn expand_tabs(content: &str, tab_width: usize) -> (expanded: String)
    requires
        tab_width > 0,
    ensures
        expanded@ == spec_expand_tabs(content@, widths_of(content@), tab_width as nat, 0),
{
    let chars = chars_of(content);
    let widths = measure(chars.as_slice());
    assert(widths_view(widths@).len() == widths@.len());
    let (expanded, _) = expand_tabs_with(chars.as_slice(), widths.as_slice(), tab_width, 0);
    expanded
}

/// The column, within the tab cycle, at which token `j` of a line starts:
/// the tokens stand one behind the other from column 0 on.
pub open spec fn token_column(texts: Seq<Seq<char>>, tab_width: nat, j: int) -> nat
    decreases j,
{
    if j <= 0 || j > texts.len() {
        0
    } else {
        column_after(
            texts[j - 1],
            widths_of(texts[j - 1]),
            tab_width,
            texts[j - 1].len() as int,
            token_column(texts, tab_width, j - 1),
        ) % tab_width
    }
}

/// Token `j` with its tabs expanded.
pub open spec fn expanded_token(texts: Seq<Seq<char>>, tab_width: nat, j: int) -> Seq<char> {
    spec_expand_tabs(texts[j], widths_of(texts[j]), tab_width, token_column(texts, tab_width, j))
}

/// The first `n` tokens with their tabs expanded, each with its position
/// among the tokens; tokens without text are left out.
pub open spec fn expanded_tokens_upto(texts: Seq<Seq<char>>, tab_width: nat, n: int) -> Seq<
    (int, Seq<char>),
>
    decreases n,
{
    if n <= 0 || n > texts.len() {
        Seq::empty()
    } else {
        let text = expanded_token(texts, tab_width, n - 1);
        if text.len() > 0 {
            expanded_tokens_upto(texts, tab_width, n - 1).push((n - 1, text))
        } else {
            expanded_tokens_upto(texts, tab_width, n - 1)
        }
    }
}

/// An expanded token with its position as an integer.
pub open spec fn token_view(token: (usize, String)) -> (int, Seq<char>) {
    (token.0 as int, token.1@)
}

/// Expands the tabs of the tokens of a line. Each token of the result
/// carries the position of the token it was made from; tokens without
/// text are left out.
pub fn expand_tabs_tokens(texts: &[String], tab_width: usize) -> (expanded: Vec<(usize, String)>)
    requires
        tab_width > 0,
    ensures
        expanded@.map_values(|t: (usize, String)| token_view(t)) == expanded_tokens_upto(
            crate::diff::lines_view(texts@),
            tab_width as nat,
            texts@.len() as int,
        ),
{
    let ghost views = crate::diff::lines_view(texts@);
    let ghost tab = tab_width as nat;
    let mut expanded: Vec<(usize, String)> = Vec::new();
    let mut col: usize = 0;
    let mut j: usize = 0;
    assert(expanded@.map_values(|t: (usize, String)| token_view(t)) =~= expanded_tokens_upto(
        views,
        tab,
        0,
    ));
    while j < texts.len()
        invariant
            j <= texts@.len(),
            tab_width > 0,
            tab == tab_width,
            views == crate::diff::lines_view(texts@),
            col < tab_width,
            col == token_column(views, tab, j as int),
            expanded@.map_values(|t: (usize, String)| token_view(t)) == expanded_tokens_upto(
                views,
                tab,
                j as int,
            ),
        decreases texts@.len() - j,
    {
        let chars = chars_of(texts[j].as_str());
        let widths = measure(chars.as_slice());
        assert(widths_view(widths@).len() == widths@.len());
        assert(views[j as int] == chars@);
        let (text, next) = expand_tabs_with(chars.as_slice(), widths.as_slice(), tab_width, col);
        proof {
            lemma_mod_pos_bound(
                column_after(chars@, widths_of(chars@), tab, chars@.len() as int, col as nat) as int,
                tab as int,
            );
        }
        if !text.as_str().is_empty() {
            let ghost so_far = expanded@;
            expanded.push((j, text));
            assert(expanded@.map_values(|t: (usize, String)| token_view(t)) =~= so_far.map_values(
                |t: (usize, String)| token_view(t),
            ).push((j as int, text@)));
        }
        col = next;
        j += 1;
    }
    expanded
}

} // verus!
