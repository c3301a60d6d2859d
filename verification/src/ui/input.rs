//! Reading a sequence of numbers from text: fields between separators,
//! each a number in decimal digits with white space around it.

use vstd::prelude::*;

verus! {

/// The characters that count as white space: those with the Unicode
/// property `White_Space`.
pub open spec fn is_space(c: char) -> bool {
    let u = c as u32;
    ||| 0x09 <= u <= 0x0D
    ||| u == 0x20
    ||| u == 0x85
    ||| u == 0xA0
    ||| u == 0x1680
    ||| 0x2000 <= u <= 0x200A
    ||| u == 0x2028
    ||| u == 0x2029
    ||| u == 0x202F
    ||| u == 0x205F
    ||| u == 0x3000
}

/// The decimal digits `0` to `9`.
pub open spec fn is_digit(c: char) -> bool {
    0x30 <= c as u32 <= 0x39
}

/// The characters that end a field: the comma, and with `lines` also the
/// line feed.
pub open spec fn is_separator(c: char, lines: bool) -> bool {
    c == ',' || (lines && c == '\n')
}

/// The first position from `lo` on, before `hi`, that holds no white
/// space, or `hi` where there is none.
pub open spec fn trim_start(s: Seq<char>, lo: int, hi: int) -> int
    decreases hi - lo,
{
    if lo < hi && is_space(s[lo]) {
        trim_start(s, lo + 1, hi)
    } else {
        lo
    }
}

/// The position behind the last one before `hi`, from `lo` on, that holds
/// no white space, or `lo` where there is none.
pub open spec fn trim_end(s: Seq<char>, lo: int, hi: int) -> int
    decreases hi - lo,
{
    if lo < hi && is_space(s[hi - 1]) {
        trim_end(s, lo, hi - 1)
    } else {
        hi
    }
}

/// The number that the characters from `lo` up to, but not including, `hi`
/// stand for in decimal digits, if they are all digits; 0 where there are
/// none.
pub open spec fn digits_value(s: Seq<char>, lo: int, hi: int) -> Option<nat>
    decreases hi - lo,
{
    if hi <= lo {
        Some(0)
    } else {
        match digits_value(s, lo, hi - 1) {
            Some(v) => if is_digit(s[hi - 1]) {
                Some((v * 10 + (s[hi - 1] as u32 - 0x30)) as nat)
            } else {
                None
            },
            None => None,
        }
    }
}

/// The number that the field from `lo` up to, but not including, `hi`
/// stands for: white space at both ends aside, it is one or more decimal
/// digits, with or without a `+` before them, and the number is a `usize`.
pub open spec fn field_value(s: Seq<char>, lo: int, hi: int) -> Option<usize> {
    let a = trim_start(s, lo, hi);
    let b = trim_end(s, a, hi);
    let c = if a < b && s[a] == '+' {
        a + 1
    } else {
        a
    };
    if c < b {
        match digits_value(s, c, b) {
            Some(v) => if v <= usize::MAX {
                Some(v as usize)
            } else {
                None
            },
            None => None,
        }
    } else {
        None
    }
}

/// The first position from `lo` on that holds a separator, or the length
/// of `s` where there is none.
pub open spec fn field_end(s: Seq<char>, lo: int, lines: bool) -> int
    decreases s.len() - lo,
{
    if 0 <= lo < s.len() && !is_separator(s[lo], lines) {
        field_end(s, lo + 1, lines)
    } else {
        lo
    }
}

/// A field ends at or behind the position where it begins, and within the
/// text.
pub proof fn lemma_field_end(s: Seq<char>, lo: int, lines: bool)
    requires
        0 <= lo <= s.len(),
    ensures
        lo <= field_end(s, lo, lines) <= s.len(),
    decreases s.len() - lo,
{
    if lo < s.len() && !is_separator(s[lo], lines) {
        lemma_field_end(s, lo + 1, lines);
    }
}

/// The numbers of the fields of `s` from the position `lo` on, in their
/// order. A field that stands for no number is passed over.
pub open spec fn numbers_from(s: Seq<char>, lo: int, lines: bool) -> Seq<usize>
    decreases s.len() - lo,
{
    if 0 <= lo <= s.len() {
        let e = field_end(s, lo, lines);
        let head = match field_value(s, lo, e) {
            Some(v) => seq![v],
            None => Seq::<usize>::empty(),
        };
        if e >= s.len() {
            head
        } else {
            proof {
                lemma_field_end(s, lo, lines);
            }
            head + numbers_from(s, e + 1, lines)
        }
    } else {
        Seq::<usize>::empty()
    }
}

/// The numbers that the text `s` holds: with `lines`, one field between
/// any two commas or line feeds; without, between any two commas.
pub open spec fn numbers_of(s: Seq<char>, lines: bool) -> Seq<usize> {
    numbers_from(s, 0, lines)
}

/// A character that is no digit leaves every run of characters through it
/// without a value.
proof fn lemma_digits_none(s: Seq<char>, lo: int, i: int, hi: int)
    requires
        lo <= i < hi,
        !is_digit(s[i]),
    ensures
        digits_value(s, lo, hi) is None,
    decreases hi - i,
{
    if hi > i + 1 {
        lemma_digits_none(s, lo, i, hi - 1);
    }
}

/// More digits do not make a smaller number.
proof fn lemma_digits_grow(s: Seq<char>, lo: int, i: int, hi: int)
    requires
        lo <= i <= hi,
        digits_value(s, lo, i) is Some,
    ensures
        digits_value(s, lo, hi) is Some ==> digits_value(s, lo, hi)->0 >= digits_value(
            s,
            lo,
            i,
        )->0,
    decreases hi - i,
{
    if hi > i {
        lemma_digits_grow(s, lo, i, hi - 1);
    }
}

/// Whether `c` is white space.
pub fn is_whitespace(c: char) -> (r: bool)
    ensures
        r == is_space(c),
{
    let u = c as u32;
    (0x09 <= u && u <= 0x0D) || u == 0x20 || u == 0x85 || u == 0xA0 || u == 0x1680 || (0x2000 <= u
        && u <= 0x200A) || u == 0x2028 || u == 0x2029 || u == 0x202F || u == 0x205F || u == 0x3000
}

/// The characters of `text`.
pub fn chars_of(text: &str) -> (chars: Vec<char>)
    ensures
        chars@ == text@,
{
    let mut chars: Vec<char> = Vec::new();
    for c in it: text.chars()
        invariant
            it.seq() == text@,
            chars@.len() == it.index(),
            forall|j: int| 0 <= j < chars@.len() ==> chars@[j] == it.seq()[j],
    {
        chars.push(c);
    }
    assert(chars@ =~= text@);
    chars
}

/// The number that the field of `chars` from `lo` up to, but not
/// including, `hi` stands for.
pub fn parse_field(chars: &Vec<char>, lo: usize, hi: usize) -> (r: Option<usize>)
    requires
        lo <= hi <= chars@.len(),
    ensures
        r == field_value(chars@, lo as int, hi as int),
{
    let ghost s = chars@;
    let mut a = lo;
    while a < hi && is_whitespace(chars[a])
        invariant
            s == chars@,
            lo <= a <= hi <= s.len(),
            trim_start(s, a as int, hi as int) == trim_start(s, lo as int, hi as int),
        decreases hi - a,
    {
        a = a + 1;
    }
    let mut b = hi;
    while a < b && is_whitespace(chars[b - 1])
        invariant
            s == chars@,
            a <= b <= hi <= s.len(),
            trim_end(s, a as int, b as int) == trim_end(s, a as int, hi as int),
        decreases b - a,
    {
        b = b - 1;
    }
    let mut c = a;
    if a < b && chars[a] == '+' {
        c = a + 1;
    }
    if c >= b {
        return None;
    }
    let mut v: usize = 0;
    let mut i = c;
    let ghost value = field_value(s, lo as int, hi as int);
    while i < b
        invariant
            s == chars@,
            c <= i <= b <= s.len(),
            digits_value(s, c as int, i as int) == Some(v as nat),
            value == field_value(s, lo as int, hi as int),
            value == match digits_value(s, c as int, b as int) {
                Some(w) => if w <= usize::MAX {
                    Some(w as usize)
                } else {
                    None
                },
                None => None,
            },
        decreases b - i,
    {
        let u = chars[i] as u32;
        if !(0x30 <= u && u <= 0x39) {
            proof {
                lemma_digits_none(s, c as int, i as int, b as int);
            }
            return None;
        }
        let d = (u - 0x30) as usize;
        if v > (usize::MAX - d) / 10 {
            proof {
                assert(digits_value(s, c as int, i + 1) == Some((v * 10 + d) as nat));
                lemma_digits_grow(s, c as int, i + 1, b as int);
            }
            return None;
        }
        v = v * 10 + d;
        i = i + 1;
    }
    Some(v)
}

/// The numbers that `chars` holds, field by field.
pub fn parse_chars(chars: &Vec<char>, lines: bool) -> (out: Vec<usize>)
    ensures
        out@ == numbers_of(chars@, lines),
{
    let ghost s = chars@;
    let n = chars.len();
    let mut out: Vec<usize> = Vec::new();
    let mut lo: usize = 0;
    let mut more = true;
    while more
        invariant
            s == chars@,
            n == s.len(),
            lo <= n,
            more ==> out@ + numbers_from(s, lo as int, lines) == numbers_of(s, lines),
            !more ==> out@ == numbers_of(s, lines),
        decreases n - lo + if more { 1int } else { 0int },
    {
        let mut e = lo;
        while e < n && !(chars[e] == ',' || (lines && chars[e] == '\n'))
            invariant
                s == chars@,
                n == s.len(),
                lo <= e <= n,
                field_end(s, e as int, lines) == field_end(s, lo as int, lines),
            decreases n - e,
        {
            e = e + 1;
        }
        let ghost before = out@;
        match parse_field(chars, lo, e) {
            Some(v) => {
                out.push(v);
                assert(out@ =~= before + seq![v]);
            },
            None => {
                assert(out@ =~= before + Seq::<usize>::empty());
            },
        }
        if e >= n {
            more = false;
        } else {
            assert(out@ + numbers_from(s, e + 1, lines) =~= before + numbers_from(
                s,
                lo as int,
                lines,
            ));
            lo = e + 1;
        }
    }
    out
}

/// The numbers that `text` holds between its commas.
pub fn parse_numbers(text: &str) -> (out: Vec<usize>)
    ensures
        out@ == numbers_of(text@, false),
{
    let chars = chars_of(text);
    parse_chars(&chars, false)
}

/// The numbers that `text` holds between its commas and line feeds.
pub fn parse_csv(text: &str) -> (out: Vec<usize>)
    ensures
        out@ == numbers_of(text@, true),
{
    let chars = chars_of(text);
    parse_chars(&chars, true)
}

} // verus!
