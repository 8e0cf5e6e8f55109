use vstd::prelude::*;

use crate::lexer::{chars_of, first_from, Lexer, StopAt};
use crate::primitives::{HorOrientation, Orientation, VertOrientation};

verus! {

/// What `str::to_lowercase` gives for a text.
pub uninterp spec fn lower_of(s: Seq<char>) -> Seq<char>;

/// Relies on `str::to_lowercase`: the result depends on the characters alone.
#[verifier::external_body]
fn lowercase(s: &str) -> (r: String)
    ensures
        r@ == lower_of(s@),
{
    s.to_lowercase()
}

/// The vertical placement a lower-case word names.
pub open spec fn vertical_of(w: Seq<char>) -> Option<VertOrientation> {
    if w == "top"@ {
        Some(VertOrientation::Top)
    } else if w == "middle"@ {
        Some(VertOrientation::Middle)
    } else if w == "bottom"@ {
        Some(VertOrientation::Bottom)
    } else {
        None
    }
}

/// The horizontal placement a lower-case word names.
pub open spec fn horizontal_of(w: Seq<char>) -> Option<HorOrientation> {
    if w == "left"@ {
        Some(HorOrientation::Left)
    } else if w == "middle"@ {
        Some(HorOrientation::Middle)
    } else if w == "right"@ {
        Some(HorOrientation::Right)
    } else {
        None
    }
}

/// The orientation written as exactly two words, "<vertical> <horizontal>"
/// (for example "top left"), with any whitespace around them.
pub open spec fn orientation_of(t: Seq<char>) -> Option<Orientation> {
    let b0 = first_from(t, 0, StopAt::NonSpace);
    let e0 = first_from(t, b0, StopAt::WordEnd);
    let b1 = first_from(t, e0, StopAt::NonSpace);
    let e1 = first_from(t, b1, StopAt::WordEnd);
    let b2 = first_from(t, e1, StopAt::NonSpace);
    if b2 < t.len() {
        None
    } else {
        match (vertical_of(t.subrange(b0, e0)), horizontal_of(t.subrange(b1, e1))) {
            (Some(vertical), Some(horizontal)) => Some(Orientation { vertical, horizontal }),
            _ => None,
        }
    }
}

fn scan(t: &Vec<char>, from: usize, kind: StopAt) -> (r: usize)
    requires
        from <= t@.len(),
    ensures
        r == first_from(t@, from as int, kind),
        from <= r <= t@.len(),
{
    let mut j = from;
    while j < t.len() && !Lexer::stops_at(kind, t[j])
        invariant
            from <= j <= t@.len(),
            first_from(t@, from as int, kind) == first_from(t@, j as int, kind),
        decreases t@.len() - j,
    {
        j = j + 1;
    }
    j
}

/// Whether the characters of `t` from `b` to `e` spell `word`.
fn spells(t: &Vec<char>, b: usize, e: usize, word: &str) -> (r: bool)
    requires
        b <= e <= t@.len(),
    ensures
        r == (t@.subrange(b as int, e as int) == word@),
{
    let w = chars_of(word);
    if e - b != w.len() {
        return false;
    }
    let mut i: usize = 0;
    while i < w.len()
        invariant
            i <= w@.len(),
            e - b == w@.len(),
            b <= e <= t@.len(),
            w@ == word@,
            forall|m: int| 0 <= m < i ==> t@[b + m] == w@[m],
        decreases w@.len() - i,
    {
        if t[b + i] != w[i] {
            proof {
                assert(t@.subrange(b as int, e as int)[i as int] != word@[i as int]);
            }
            return false;
        }
        i = i + 1;
    }
    proof {
        assert(t@.subrange(b as int, e as int) =~= word@);
    }
    true
}

/// Reads an orientation from text that is already in lower case; see
/// [`orientation_of`].
pub fn orientation_of_words(lowered: &str) -> (r: Option<Orientation>)
    ensures
        r == orientation_of(lowered@),
{
    let t = chars_of(lowered);
    let b0 = scan(&t, 0, StopAt::NonSpace);
    let e0 = scan(&t, b0, StopAt::WordEnd);
    let b1 = scan(&t, e0, StopAt::NonSpace);
    let e1 = scan(&t, b1, StopAt::WordEnd);
    let b2 = scan(&t, e1, StopAt::NonSpace);
    if b2 < t.len() {
        return None;
    }
    proof {
        reveal_strlit("top");
        reveal_strlit("middle");
        reveal_strlit("bottom");
        reveal_strlit("left");
        reveal_strlit("right");
    }
    let vertical = if spells(&t, b0, e0, "top") {
        VertOrientation::Top
    } else if spells(&t, b0, e0, "middle") {
        VertOrientation::Middle
    } else if spells(&t, b0, e0, "bottom") {
        VertOrientation::Bottom
    } else {
        return None;
    };
    let horizontal = if spells(&t, b1, e1, "left") {
        HorOrientation::Left
    } else if spells(&t, b1, e1, "middle") {
        HorOrientation::Middle
    } else if spells(&t, b1, e1, "right") {
        HorOrientation::Right
    } else {
        return None;
    };
    Some(Orientation { vertical, horizontal })
}

/// Reads an orientation such as "Top Left", in any case. The text must be
/// two such words; [`parse_orientation`] takes any text.
pub fn str_to_orientation(s: &str) -> (r: Orientation)
    requires
        orientation_of(lower_of(s@)) is Some,
    ensures
        orientation_of(lower_of(s@)) == Some(r),
{
    let lowered = lowercase(s);
    orientation_of_words(lowered.as_str()).unwrap()
}

/// Reads an orientation such as "Top Left", in any case; `None` where the
/// text is not two such words.
pub fn parse_orientation(s: &str) -> (r: Option<Orientation>)
    ensures
        r == orientation_of(lower_of(s@)),
{
    let lowered = lowercase(s);
    if orientation_of_words(lowered.as_str()).is_some() {
        Some(str_to_orientation(s))
    } else {
        None
    }
}

/// The value of a hex digit, in either case.
pub open spec fn hex_digit(c: char) -> Option<u32> {
    if '0' <= c && c <= '9' {
        Some((c as u32 - '0' as u32) as u32)
    } else if 'a' <= c && c <= 'f' {
        Some((c as u32 - 'a' as u32 + 10) as u32)
    } else if 'A' <= c && c <= 'F' {
        Some((c as u32 - 'A' as u32 + 10) as u32)
    } else {
        None
    }
}

/// The value of a run of hex digits, `None` where a character is not a hex
/// digit or the value does not fit in 32 bits.
pub open spec fn hex_value(s: Seq<char>) -> Option<nat>
    decreases s.len(),
{
    if s.len() == 0 {
        Some(0)
    } else {
        match (hex_value(s.drop_last()), hex_digit(s.last())) {
            (Some(v), Some(d)) => if v * 16 + d <= u32::MAX {
                Some((v * 16 + d) as nat)
            } else {
                None
            },
            _ => None,
        }
    }
}

/// A color written in hex as `u32::from_str_radix` reads it (an optional
/// `+`, then one or more hex digits): red, green and blue are its bytes 2,
/// 1 and 0.
pub open spec fn rgb_of_hex(s: Seq<char>) -> Option<(u8, u8, u8)> {
    let digits = if s.len() > 0 && s[0] == '+' {
        s.drop_first()
    } else {
        s
    };
    if digits.len() == 0 {
        None
    } else {
        match hex_value(digits) {
            Some(v) => Some(
                ((v / 65536 % 256) as u8, (v / 256 % 256) as u8, (v % 256) as u8),
            ),
            None => None,
        }
    }
}

fn digit_value(c: char) -> (r: Option<u32>)
    ensures
        r == hex_digit(c),
{
    if '0' <= c && c <= '9' {
        Some(c as u32 - '0' as u32)
    } else if 'a' <= c && c <= 'f' {
        Some(c as u32 - 'a' as u32 + 10)
    } else if 'A' <= c && c <= 'F' {
        Some(c as u32 - 'A' as u32 + 10)
    } else {
        None
    }
}

/// Reads the red, green and blue bytes of a hex color such as `ff8000`
/// (without its `#`); see [`rgb_of_hex`].
pub fn hex_string_to_rgb(hex: &str) -> (r: Option<(u8, u8, u8)>)
    ensures
        r == rgb_of_hex(hex@),
{
    let t = chars_of(hex);
    let start: usize = if t.len() > 0 && t[0] == '+' {
        1
    } else {
        0
    };
    let ghost digits = t@.subrange(start as int, t@.len() as int);
    proof {
        if start == 1 {
            assert(digits =~= hex@.drop_first());
        } else {
            assert(digits =~= hex@);
        }
    }
    if start == t.len() {
        return None;
    }
    let mut v: u64 = 0;
    let mut i = start;
    while i < t.len()
        invariant
            start <= i <= t@.len(),
            digits == t@.subrange(start as int, t@.len() as int),
            t@ == hex@,
            digits == (if hex@.len() > 0 && hex@[0] == '+' {
                hex@.drop_first()
            } else {
                hex@
            }),
            hex_value(t@.subrange(start as int, i as int)) == Some(v as nat),
            v <= u32::MAX,
        decreases t@.len() - i,
    {
        let ghost prefix = t@.subrange(start as int, i + 1);
        proof {
            assert(prefix.drop_last() =~= t@.subrange(start as int, i as int));
            assert(prefix.last() == t@[i as int]);
        }
        match digit_value(t[i]) {
            None => {
                proof {
                    assert(hex_value(prefix) is None);
                    assert(prefix =~= digits.take((i - start) as int + 1));
                    lemma_hex_none_extends(digits, (i - start) as int + 1);
                }
                return None;
            },
            Some(d) => {
                let next = v * 16 + d as u64;
                if next > 0xFFFF_FFFF {
                    proof {
                        assert(hex_value(prefix) is None);
                        assert(prefix =~= digits.take((i - start) as int + 1));
                        lemma_hex_none_extends(digits, (i - start) as int + 1);
                    }
                    return None;
                }
                v = next;
            },
        }
        i = i + 1;
    }
    proof {
        assert(t@.subrange(start as int, i as int) =~= digits);
    }
    let w = v as u32;
    Some((((w / 65536) % 256) as u8, ((w / 256) % 256) as u8, (w % 256) as u8))
}

/// Once a prefix of a digit run has no value, neither has the run.
proof fn lemma_hex_none_extends(s: Seq<char>, k: int)
    requires
        0 <= k <= s.len(),
        hex_value(s.take(k)) is None,
    ensures
        hex_value(s) is None,
    decreases s.len() - k,
{
    if k < s.len() {
        let longer = s.take(k + 1);
        assert(longer.drop_last() =~= s.take(k));
        lemma_hex_none_extends(s, k + 1);
    } else {
        assert(s.take(k) =~= s);
    }
}

} // verus!
