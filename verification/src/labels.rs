//! Short texts for narrow places: names and subjects cut to a length.

use vstd::prelude::*;
use vstd::string::{StringExecFns, StringSliceAdditionalSpecFns};
use vstd::utf8::{decode_utf8, encode_utf8, encode_utf8_decode_utf8, is_char_boundary};
use crate::nav::{least, sub_or_zero};
use crate::text::{chars_of, substring};

verus! {

/// Number of bytes of a text in UTF-8.
pub open spec fn byte_len(text: Seq<char>) -> nat {
    encode_utf8(text).len()
}

/// The characters that the first `n` bytes of a text encode.
pub open spec fn byte_prefix(text: Seq<char>, n: int) -> Seq<char> {
    decode_utf8(encode_utf8(text).take(n))
}

/// Number of bytes kept of a text that is cut to `max` bytes: room is left
/// for three dots where `max` allows more than three bytes.
pub open spec fn kept_bytes(max: nat) -> nat {
    if max > 3 {
        (max - 3) as nat
    } else {
        max
    }
}

/// A text cut to `max` bytes: the text itself where it is short enough,
/// else its first bytes, followed by three dots where `max` allows more
/// than three bytes.
pub open spec fn spec_truncate(text: Seq<char>, max: nat) -> Seq<char> {
    if byte_len(text) <= max {
        text
    } else if max > 3 {
        byte_prefix(text, kept_bytes(max) as int) + "..."@
    } else {
        byte_prefix(text, kept_bytes(max) as int)
    }
}

/// Cuts a text to `max` bytes. A text that is too long must have a
/// character start where it is cut.
pub fn truncate(s: &str, max: usize) -> (cut: String)
    requires
        byte_len(s@) > max ==> is_char_boundary(encode_utf8(s@), kept_bytes(max as nat) as int),
    ensures
        cut@ == spec_truncate(s@, max as nat),
{
    if s.as_bytes().len() <= max {
        return s.to_owned();
    }
    let keep = if max > 3 {
        max - 3
    } else {
        max
    };
    let (head, _) = s.split_at(keep);
    proof {
        encode_utf8_decode_utf8(head@);
        assert(head.spec_bytes() =~= encode_utf8(s@).take(keep as int));
    }
    if max > 3 {
        head.to_owned().concat("...")
    } else {
        head.to_owned()
    }
}

/// The characters that the last `n` bytes of a text encode.
pub open spec fn byte_suffix(text: Seq<char>, n: int) -> Seq<char> {
    decode_utf8(encode_utf8(text).skip(byte_len(text) - n))
}

/// A path cut to `max` bytes at its front: the path itself where it is
/// short enough or `max` is three or less, else three dots and its last
/// bytes.
pub open spec fn spec_truncate_front(text: Seq<char>, max: nat) -> Seq<char> {
    if byte_len(text) > max && max > 3 {
        "..."@ + byte_suffix(text, max - 3)
    } else {
        text
    }
}

/// Cuts a path to `max` bytes at its front, so that its end stays
/// readable. A path that is too long must have a character start where it
/// is cut.
pub fn truncate_front(s: &str, max: usize) -> (cut: String)
    requires
        byte_len(s@) > max && max > 3 ==> is_char_boundary(
            encode_utf8(s@),
            byte_len(s@) - max + 3,
        ),
    ensures
        cut@ == spec_truncate_front(s@, max as nat),
{
    let len = s.as_bytes().len();
    if len > max && max > 3 {
        let (_, tail) = s.split_at(len - max + 3);
        proof {
            encode_utf8_decode_utf8(tail@);
            assert(tail.spec_bytes() =~= encode_utf8(s@).skip(len - max + 3));
        }
        String::from_str("...").concat(tail)
    } else {
        s.to_owned()
    }
}

/// Number of characters kept at the start of a name that is cut to
/// `max_width`: two thirds of what the ellipsis leaves.
pub open spec fn kept_front(max_width: nat) -> nat {
    (((max_width - 1) * 2) / 3) as nat
}

/// Number of characters kept at the end of a name that is cut to
/// `max_width`.
pub open spec fn kept_back(max_width: nat) -> nat {
    (max_width - 1 - kept_front(max_width)) as nat
}

/// A name cut to `max_width` with its start and its end kept: the name
/// itself where it has at most `max_width` bytes; its first characters
/// where `max_width` is under five; else its start, an ellipsis and its
/// end.
pub open spec fn spec_smart_truncate(name: Seq<char>, max_width: nat) -> Seq<char> {
    if byte_len(name) <= max_width {
        name
    } else if max_width < 5 {
        name.take(least(max_width, name.len()) as int)
    } else {
        name.take(least(kept_front(max_width), name.len()) as int) + seq!['\u{2026}'] + name.skip(
            sub_or_zero(name.len(), kept_back(max_width)) as int,
        )
    }
}

/// Cuts a name to `max_width` and keeps its start and its end, so that an
/// extension stays readable.
pub fn smart_truncate(s: &str, max_width: usize) -> (cut: String)
    ensures
        cut@ == spec_smart_truncate(s@, max_width as nat),
{
    if s.as_bytes().len() <= max_width {
        return s.to_owned();
    }
    let chars = chars_of(s);
    let len = chars.len();
    if max_width < 5 {
        let keep = if max_width <= len {
            max_width
        } else {
            len
        };
        let cut = substring(s, 0, keep);
        assert(cut@ =~= s@.take(keep as int));
        return cut;
    }
    let available = max_width - 1;
    let front = (((available as u128) * 2) / 3) as usize;
    let back = available - front;
    let keep_front = if front <= len {
        front
    } else {
        len
    };
    let skip = if len >= back {
        len - back
    } else {
        0
    };
    let mut cut = substring(s, 0, keep_front);
    assert(cut@ =~= s@.take(keep_front as int));
    cut.push('\u{2026}');
    let tail = substring(s, skip, len);
    assert(tail@ =~= s@.skip(skip as int));
    let cut = cut.concat(tail.as_str());
    assert(cut@ =~= spec_smart_truncate(s@, max_width as nat));
    cut
}

/// The key under which the tokens of one side of a file's full content
/// are cached: the path of that side and a mark of the side.
pub open spec fn spec_full_cache_key(path: Seq<char>, old_side: bool) -> Seq<char> {
    path + if old_side {
        "::full::old"@
    } else {
        "::full::new"@
    }
}

/// The key under which the tokens of one side of a file's full content
/// are cached. The two sides of a file never share a key.
pub fn full_cache_key(path: &str, old_side: bool) -> (key: String)
    ensures
        key@ == spec_full_cache_key(path@, old_side),
{
    if old_side {
        path.to_owned().concat("::full::old")
    } else {
        path.to_owned().concat("::full::new")
    }
}

} // verus!
