//! Texts as character sequences: their order, the components of paths,
//! trimming and lines.

use vstd::prelude::*;
use vstd::string::StrSliceExecFns;

verus! {

/// `String::push` of the standard library appends a character to the
/// text.
pub assume_specification[ String::push ](text: &mut String, ch: char)
    ensures
        final(text)@ == old(text)@.push(ch),
;

/// `a` sorts before `b` in the order of strings, looking from position `i`
/// on, where the two agree before `i`: at the first difference the smaller
/// code point decides, and a proper prefix sorts first.
pub open spec fn less_from(a: Seq<char>, b: Seq<char>, i: int) -> bool
    decreases a.len() - i,
{
    if i < 0 || i >= b.len() {
        false
    } else if i >= a.len() {
        true
    } else if a[i] != b[i] {
        (a[i] as int) < (b[i] as int)
    } else {
        less_from(a, b, i + 1)
    }
}

/// `a` sorts strictly before `b` in the order of strings.
pub open spec fn text_less(a: Seq<char>, b: Seq<char>) -> bool {
    less_from(a, b, 0)
}

/// Position at which the last `/`-separated component of the first `n`
/// characters starts.
pub open spec fn base_start_upto(s: Seq<char>, n: int) -> int
    decreases n,
{
    if n <= 0 || n > s.len() {
        0
    } else if s[n - 1] == '/' {
        n
    } else {
        base_start_upto(s, n - 1)
    }
}

/// Position at which the last component of a path starts.
pub open spec fn base_start(s: Seq<char>) -> int {
    base_start_upto(s, s.len() as int)
}

/// The last component of a path: what follows the last `/`.
pub open spec fn basename(s: Seq<char>) -> Seq<char> {
    s.skip(base_start(s))
}

/// Number of `/` among the first `n` characters.
pub open spec fn slashes_upto(s: Seq<char>, n: int) -> nat
    decreases n,
{
    if n <= 0 || n > s.len() {
        0
    } else {
        slashes_upto(s, n - 1) + if s[n - 1] == '/' {
            1nat
        } else {
            0nat
        }
    }
}

/// Number of `/` in a path.
pub open spec fn slash_count(s: Seq<char>) -> nat {
    slashes_upto(s, s.len() as int)
}

/// A component of the path starts at `i`.
pub open spec fn starts_component(s: Seq<char>, i: int) -> bool {
    0 <= i < s.len() && (i == 0 || s[i - 1] == '/')
}

/// `suffix` is what `s` ends with.
pub open spec fn ends_with(s: Seq<char>, suffix: Seq<char>) -> bool {
    suffix.len() <= s.len() && s.skip(s.len() - suffix.len()) == suffix
}

/// The last component starts within the text, behind a `/` or at the
/// start, and holds no `/`.
pub proof fn lemma_base_start_bounds(s: Seq<char>, n: int)
    requires
        0 <= n <= s.len(),
    ensures
        0 <= base_start_upto(s, n) <= n,
        base_start_upto(s, n) > 0 ==> s[base_start_upto(s, n) - 1] == '/',
        forall|i: int| base_start_upto(s, n) <= i < n ==> s[i] != '/',
    decreases n,
{
    if n > 0 && s[n - 1] != '/' {
        lemma_base_start_bounds(s, n - 1);
    }
}

/// The characters of a string.
pub fn chars_of(s: &str) -> (chars: Vec<char>)
    ensures
        chars@ == s@,
{
    let mut chars: Vec<char> = Vec::new();
    for c in it: s.chars()
        invariant
            it.seq() == s@,
            chars@ == it.seq().take(it.index() as int),
    {
        chars.push(c);
    }
    chars
}

/// Whether two character sequences are the same.
pub fn chars_equal(a: &[char], b: &[char]) -> (same: bool)
    ensures
        same == (a@ == b@),
{
    if a.len() != b.len() {
        return false;
    }
    let mut i: usize = 0;
    while i < a.len()
        invariant
            i <= a@.len(),
            a@.len() == b@.len(),
            forall|k: int| 0 <= k < i ==> a@[k] == b@[k],
        decreases a@.len() - i,
    {
        if a[i] != b[i] {
            return false;
        }
        i += 1;
    }
    assert(a@ =~= b@);
    true
}

/// Whether `a` sorts strictly before `b`.
pub fn chars_less(a: &[char], b: &[char]) -> (less: bool)
    ensures
        less == text_less(a@, b@),
{
    let mut i: usize = 0;
    while i < a.len() && i < b.len()
        invariant
            i <= a@.len(),
            i <= b@.len(),
            less_from(a@, b@, i as int) == text_less(a@, b@),
        decreases a@.len() - i,
    {
        if a[i] != b[i] {
            let x = a[i];
            let y = b[i];
            let less = x < y;
            return less;
        }
        i += 1;
    }
    i < b.len()
}

/// Whether two strings are the same text.
pub fn str_equal(a: &str, b: &str) -> (same: bool)
    ensures
        same == (a@ == b@),
{
    let ca = chars_of(a);
    let cb = chars_of(b);
    chars_equal(ca.as_slice(), cb.as_slice())
}

/// Whether `a` sorts strictly before `b`.
pub fn str_less(a: &str, b: &str) -> (less: bool)
    ensures
        less == text_less(a@, b@),
{
    let ca = chars_of(a);
    let cb = chars_of(b);
    chars_less(ca.as_slice(), cb.as_slice())
}

/// Position at which the last component of a path starts.
pub fn base_start_of(s: &[char]) -> (start: usize)
    ensures
        start == base_start(s@),
        start <= s@.len(),
{
    let mut n: usize = s.len();
    while n > 0 && s[n - 1] != '/'
        invariant
            n <= s@.len(),
            base_start_upto(s@, n as int) == base_start(s@),
        decreases n,
    {
        n -= 1;
    }
    n
}

/// Number of `/` in a path.
pub fn count_slashes(s: &[char]) -> (count: usize)
    ensures
        count == slash_count(s@),
{
    let mut count: usize = 0;
    let mut i: usize = 0;
    while i < s.len()
        invariant
            i <= s@.len(),
            count == slashes_upto(s@, i as int),
            count <= i,
        decreases s@.len() - i,
    {
        if s[i] == '/' {
            count += 1;
        }
        i += 1;
    }
    count
}

/// A copy of the characters `from..to` of a string.
pub fn substring(s: &str, from: usize, to: usize) -> (part: String)
    requires
        from <= to <= s@.len(),
    ensures
        part@ == s@.subrange(from as int, to as int),
{
    s.substring_char(from, to).to_owned()
}

/// A white-space character.
pub open spec fn is_white(c: char) -> bool {
    let n = c as int;
    ||| 9 <= n <= 13
    ||| n == 32
    ||| n == 133
    ||| n == 160
    ||| n == 5760
    ||| 8192 <= n <= 8202
    ||| n == 8232
    ||| n == 8233
    ||| n == 8239
    ||| n == 8287
    ||| n == 12288
}

/// Position of the first character from `k` on that is no white space; the
/// length where there is none.
pub open spec fn white_end(s: Seq<char>, k: int) -> int
    decreases s.len() - k,
{
    if k < 0 || k >= s.len() || !is_white(s[k]) {
        k
    } else {
        white_end(s, k + 1)
    }
}

/// Position behind the last character before `n` and from `from` on that
/// is no white space; `from` where there is none.
pub open spec fn white_start(s: Seq<char>, from: int, n: int) -> int
    decreases n - from,
{
    if n <= from || n > s.len() || !is_white(s[n - 1]) {
        n
    } else {
        white_start(s, from, n - 1)
    }
}

/// A text without the white space at its start and at its end.
pub open spec fn spec_trim(s: Seq<char>) -> Seq<char> {
    let start = white_end(s, 0);
    let end = white_start(s, start, s.len() as int);
    s.subrange(start, end)
}

/// Position behind the last character among the first `n` that is neither
/// a line feed nor a carriage return; 0 where there is none.
pub open spec fn line_end_start(s: Seq<char>, n: int) -> int
    decreases n,
{
    if n <= 0 || n > s.len() || (s[n - 1] != '\n' && s[n - 1] != '\r') {
        n
    } else {
        line_end_start(s, n - 1)
    }
}

/// A line without the line feeds and carriage returns at its end.
pub open spec fn spec_trim_line_end(s: Seq<char>) -> Seq<char> {
    s.take(line_end_start(s, s.len() as int))
}

/// Whether a character is white space.
pub fn is_whitespace(c: char) -> (white: bool)
    ensures
        white == is_white(c),
{
    let n = c as u32;
    (9 <= n && n <= 13) || n == 32 || n == 133 || n == 160 || n == 5760 || (8192 <= n && n
        <= 8202) || n == 8232 || n == 8233 || n == 8239 || n == 8287 || n == 12288
}

/// A text without the white space at its start and at its end.
pub fn trim(s: &str) -> (trimmed: String)
    ensures
        trimmed@ == spec_trim(s@),
{
    let chars = chars_of(s);
    let mut start: usize = 0;
    while start < chars.len() && is_whitespace(chars[start])
        invariant
            start <= chars@.len(),
            chars@ == s@,
            white_end(s@, start as int) == white_end(s@, 0),
        decreases chars@.len() - start,
    {
        start += 1;
    }
    let mut end: usize = chars.len();
    while end > start && is_whitespace(chars[end - 1])
        invariant
            start <= end <= chars@.len(),
            chars@ == s@,
            white_start(s@, start as int, end as int) == white_start(
                s@,
                start as int,
                s@.len() as int,
            ),
        decreases end,
    {
        end -= 1;
    }
    substring(s, start, end)
}

/// A line without the line feeds and carriage returns at its end.
pub fn trim_line_end(s: &str) -> (trimmed: String)
    ensures
        trimmed@ == spec_trim_line_end(s@),
{
    let chars = chars_of(s);
    let mut end: usize = chars.len();
    while end > 0 && (chars[end - 1] == '\n' || chars[end - 1] == '\r')
        invariant
            end <= chars@.len(),
            chars@ == s@,
            line_end_start(s@, end as int) == line_end_start(s@, s@.len() as int),
        decreases end,
    {
        end -= 1;
    }
    let trimmed = substring(s, 0, end);
    assert(trimmed@ =~= s@.take(end as int));
    trimmed
}

/// Position of the first line feed from `k` on; the length where there is
/// none.
pub open spec fn line_break_from(s: Seq<char>, k: int) -> int
    decreases s.len() - k,
{
    if k < 0 || k >= s.len() || s[k] == '\n' {
        k
    } else {
        line_break_from(s, k + 1)
    }
}

/// The line that starts at `k` and ends before a line feed at `end` or at
/// the end of the text. A carriage return in front of the line feed
/// belongs to the line ending.
pub open spec fn line_between(s: Seq<char>, k: int, end: int) -> Seq<char> {
    if end < s.len() && end > k && s[end - 1] == '\r' {
        s.subrange(k, end - 1)
    } else {
        s.subrange(k, end)
    }
}

/// A line ends at or behind its start and within the text.
pub proof fn lemma_line_break_from(s: Seq<char>, k: int)
    requires
        0 <= k <= s.len(),
    ensures
        k <= line_break_from(s, k) <= s.len(),
    decreases s.len() - k,
{
    if k < s.len() && s[k] != '\n' {
        lemma_line_break_from(s, k + 1);
    }
}

/// The lines of the text from `k` on.
pub open spec fn lines_from(s: Seq<char>, k: int) -> Seq<Seq<char>>
    decreases s.len() + 1 - k,
{
    if k < 0 || k >= s.len() {
        Seq::empty()
    } else {
        let end = line_break_from(s, k);
        proof {
            lemma_line_break_from(s, k);
        }
        seq![line_between(s, k, end)] + lines_from(s, end + 1)
    }
}

/// The lines of a text. Lines end with a line feed or with a carriage
/// return and a line feed; the line ending is no part of the line, and the
/// last line needs none.
pub open spec fn spec_split_lines(s: Seq<char>) -> Seq<Seq<char>> {
    lines_from(s, 0)
}

/// The lines of a text.
pub fn split_lines(contents: &str) -> (lines: Vec<String>)
    ensures
        lines@.map_values(|l: String| l@) == spec_split_lines(contents@),
{
    let chars = chars_of(contents);
    let len = chars.len();
    let mut lines: Vec<String> = Vec::new();
    let mut k: usize = 0;
    assert(lines@.map_values(|l: String| l@) + lines_from(contents@, 0) =~= spec_split_lines(
        contents@,
    ));
    while k < len
        invariant
            k <= len,
            len == chars@.len(),
            chars@ == contents@,
            lines@.map_values(|l: String| l@) + lines_from(contents@, k as int) == spec_split_lines(
                contents@,
            ),
        decreases len - k,
    {
        let mut end: usize = k;
        while end < len && chars[end] != '\n'
            invariant
                k <= end <= len,
                len == chars@.len(),
                chars@ == contents@,
                line_break_from(contents@, end as int) == line_break_from(contents@, k as int),
            decreases len - end,
        {
            end += 1;
        }
        let stop = if end < len && end > k && chars[end - 1] == '\r' {
            end - 1
        } else {
            end
        };
        let line = substring(contents, k, stop);
        let ghost so_far = lines@;
        lines.push(line);
        proof {
            assert(line@ == line_between(contents@, k as int, end as int));
            assert(lines@.map_values(|l: String| l@) =~= so_far.map_values(|l: String| l@).push(
                line@,
            ));
            assert(lines@.map_values(|l: String| l@) + lines_from(contents@, end as int + 1)
                =~= so_far.map_values(|l: String| l@) + lines_from(contents@, k as int));
        }
        k = if end < len {
            end + 1
        } else {
            len
        };
    }
    assert(lines@.map_values(|l: String| l@) + Seq::<Seq<char>>::empty() =~= lines@.map_values(
        |l: String| l@,
    ));
    lines
}

} // verus!
