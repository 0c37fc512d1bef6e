use vstd::prelude::*;

verus! {


/// What `str::to_lowercase` returns for a string: the full Unicode lowercase
/// mapping of each character, which depends on the string alone.
pub uninterp spec fn lowercase(s: Seq<char>) -> Seq<char>;

/// `str::to_lowercase`: the Unicode lowercase form of `s`.
#[verifier::external_body]
fn to_lowercase(s: &str) -> (r: String)
    ensures
        r@ == lowercase(s@),
{
    s.to_lowercase()
}

/// `String::push`: append one character.
#[verifier::external_body]
pub(crate) fn push_char(s: &mut String, c: char)
    ensures
        final(s)@ == old(s)@.push(c),
{
    s.push(c)
}

/// `String::pop`: remove and return the last character, if any.
#[verifier::external_body]
pub(crate) fn pop_char(s: &mut String) -> (r: Option<char>)
    ensures
        old(s)@.len() == 0 ==> r is None && final(s)@ == old(s)@,
        old(s)@.len() > 0 ==> r == Some(old(s)@.last()) && final(s)@ == old(s)@.drop_last(),
{
    s.pop()
}

/// The characters of `s`, in order.
pub fn chars_of(s: &str) -> (v: Vec<char>)
    ensures
        v@ == s@,
{
    let mut v: Vec<char> = Vec::new();
    for c in it: s.chars()
        invariant
            it.seq() == s@,
            v@ == it.seq().take(it.index() as int),
    {
        assert(it.seq().take(it.index() + 1) =~= v@.push(c));
        v.push(c);
    }
    assert(s@.take(s@.len() as int) =~= s@);
    v
}

/// A string holding the characters `cs[lo..hi]`.
pub fn string_from_range(cs: &Vec<char>, lo: usize, hi: usize) -> (s: String)
    requires
        lo <= hi <= cs@.len(),
    ensures
        s@ == cs@.subrange(lo as int, hi as int),
{
    let mut s = String::new();
    let mut i = lo;
    while i < hi
        invariant
            lo <= i <= hi,
            hi <= cs@.len(),
            s@ == cs@.subrange(lo as int, i as int),
        decreases hi - i,
    {
        push_char(&mut s, cs[i]);
        assert(cs@.subrange(lo as int, i + 1) =~= cs@.subrange(lo as int, i as int).push(
            cs@[i as int],
        ));
        i = i + 1;
    }
    s
}

/// Whether two strings hold the same characters.
pub fn str_eq(a: &str, b: &str) -> (r: bool)
    ensures
        r == (a@ == b@),
{
    let x = chars_of(a);
    let y = chars_of(b);
    if x.len() != y.len() {
        return false;
    }
    let mut i: usize = 0;
    while i < x.len()
        invariant
            x@ == a@,
            y@ == b@,
            x@.len() == y@.len(),
            0 <= i <= x@.len(),
            forall|j: int| 0 <= j < i ==> x@[j] == y@[j],
        decreases x@.len() - i,
    {
        if x[i] != y[i] {
            return false;
        }
        i = i + 1;
    }
    assert(x@ =~= y@);
    true
}

/// Whether `s` ends with `suffix`.
pub open spec fn ends_with(s: Seq<char>, suffix: Seq<char>) -> bool {
    s.len() >= suffix.len() && s.subrange(s.len() - suffix.len(), s.len() as int) == suffix
}

/// Whether `s` starts with `prefix`.
pub open spec fn starts_with(s: Seq<char>, prefix: Seq<char>) -> bool {
    s.len() >= prefix.len() && s.subrange(0, prefix.len() as int) == prefix
}

/// Whether the characters `cs` end with `suffix`.
pub fn chars_end_with(cs: &Vec<char>, suffix: &str) -> (r: bool)
    ensures
        r == ends_with(cs@, suffix@),
{
    let suf = chars_of(suffix);
    if suf.len() > cs.len() {
        return false;
    }
    let n = cs.len();
    let base = n - suf.len();
    let mut i: usize = 0;
    while i < suf.len()
        invariant
            suf@ == suffix@,
            n == cs@.len(),
            suf@.len() <= cs@.len(),
            base == cs@.len() - suf@.len(),
            0 <= i <= suf@.len(),
            forall|j: int| 0 <= j < i ==> cs@[base + j] == suf@[j],
        decreases suf@.len() - i,
    {
        if cs[base + i] != suf[i] {
            assert(cs@.subrange(base as int, cs@.len() as int)[i as int] != suffix@[i as int]);
            return false;
        }
        i = i + 1;
    }
    assert(cs@.subrange(base as int, cs@.len() as int) =~= suffix@);
    true
}

/// Whether a lowercased file name carries an image extension.
pub open spec fn has_image_extension(lower: Seq<char>) -> bool {
    ends_with(lower, ".png"@) || ends_with(lower, ".jpg"@) || ends_with(lower, ".jpeg"@)
}

/// Whether a lowercased name ends in `.png`, `.jpg` or `.jpeg`.
pub fn is_image_name(lower: &str) -> (r: bool)
    ensures
        r == has_image_extension(lower@),
{
    let cs = chars_of(lower);
    chars_end_with(&cs, ".png") || chars_end_with(&cs, ".jpg") || chars_end_with(&cs, ".jpeg")
}

/// Whether an argument names an image file (by extension, in any case).
pub open spec fn spec_looks_like_image(s: Seq<char>) -> bool {
    has_image_extension(lowercase(s))
}

pub fn looks_like_image(s: &str) -> (r: bool)
    ensures
        r == spec_looks_like_image(s@),
{
    let lower = to_lowercase(s);
    is_image_name(lower.as_str())
}

/// The Unicode `White_Space` property, which `char::is_whitespace` and
/// `str::trim` use.
pub open spec fn is_space(c: char) -> bool {
    let u = c as u32;
    (0x09 <= u <= 0x0d) || u == 0x20 || u == 0x85 || u == 0xa0 || u == 0x1680 || (0x2000 <= u
        <= 0x200a) || u == 0x2028 || u == 0x2029 || u == 0x202f || u == 0x205f || u == 0x3000
}

pub fn char_is_space(c: char) -> (r: bool)
    ensures
        r == is_space(c),
{
    let u = c as u32;
    (0x09 <= u && u <= 0x0d) || u == 0x20 || u == 0x85 || u == 0xa0 || u == 0x1680 || (0x2000 <= u
        && u <= 0x200a) || u == 0x2028 || u == 0x2029 || u == 0x202f || u == 0x205f || u == 0x3000
}

/// `s` without its leading whitespace.
pub open spec fn trim_start(s: Seq<char>) -> Seq<char>
    decreases s.len(),
{
    if s.len() > 0 && is_space(s[0]) {
        trim_start(s.drop_first())
    } else {
        s
    }
}

/// `s` without its trailing whitespace.
pub open spec fn trim_end(s: Seq<char>) -> Seq<char>
    decreases s.len(),
{
    if s.len() > 0 && is_space(s.last()) {
        trim_end(s.drop_last())
    } else {
        s
    }
}

/// `s` without leading and trailing whitespace, as `str::trim` gives it.
pub open spec fn trim(s: Seq<char>) -> Seq<char> {
    trim_end(trim_start(s))
}

/// The bounds of `cs[lo..hi]` once trimmed.
pub fn trim_range(cs: &Vec<char>, lo: usize, hi: usize) -> (r: (usize, usize))
    requires
        lo <= hi <= cs@.len(),
    ensures
        lo <= r.0 <= r.1 <= hi,
        cs@.subrange(r.0 as int, r.1 as int) == trim(cs@.subrange(lo as int, hi as int)),
{
    let mut a = lo;
    while a < hi && char_is_space(cs[a])
        invariant
            lo <= a <= hi,
            hi <= cs@.len(),
            trim_start(cs@.subrange(lo as int, hi as int)) == trim_start(
                cs@.subrange(a as int, hi as int),
            ),
        decreases hi - a,
    {
        assert(cs@.subrange(a as int, hi as int).drop_first() =~= cs@.subrange(a + 1, hi as int));
        a = a + 1;
    }
    let mut b = hi;
    while b > a && char_is_space(cs[b - 1])
        invariant
            lo <= a <= b <= hi,
            hi <= cs@.len(),
            trim_start(cs@.subrange(lo as int, hi as int)) == cs@.subrange(a as int, hi as int),
            trim(cs@.subrange(lo as int, hi as int)) == trim_end(cs@.subrange(a as int, b as int)),
        decreases b - a,
    {
        assert(cs@.subrange(a as int, b as int).drop_last() =~= cs@.subrange(a as int, b - 1));
        b = b - 1;
    }
    (a, b)
}

/// `s` with leading and trailing whitespace removed.
pub fn trim_str(s: &str) -> (r: String)
    ensures
        r@ == trim(s@),
{
    let cs = chars_of(s);
    let (a, b) = trim_range(&cs, 0, cs.len());
    assert(cs@.subrange(0, cs@.len() as int) =~= cs@);
    string_from_range(&cs, a, b)
}

/// Value of a hexadecimal digit, if `c` is one.
pub open spec fn hex_digit(c: char) -> Option<u32> {
    if '0' <= c <= '9' {
        Some((c as u32 - '0' as u32) as u32)
    } else if 'a' <= c <= 'f' {
        Some((c as u32 - 'a' as u32 + 10) as u32)
    } else if 'A' <= c <= 'F' {
        Some((c as u32 - 'A' as u32 + 10) as u32)
    } else {
        None
    }
}

pub fn hex_digit_of(c: char) -> (r: Option<u32>)
    ensures
        r == hex_digit(c),
{
    if '0' <= c && c <= '9' {
        Some(c as u32 - '0' as u32)
    } else if 'a' <= c && c <= 'f' {
        Some(c as u32 - 'a' as u32 + 10)
    } else if 'A' <= c && c <= 'F' {
        Some(c as u32 - 'A' as u32 + 10)
    } else {
        None
    }
}

/// Whether every character of `s` is a hexadecimal digit.
pub open spec fn all_hex(s: Seq<char>) -> bool {
    forall|i: int| 0 <= i < s.len() ==> (#[trigger] hex_digit(s[i])) is Some
}

/// The number that the hexadecimal digits `s` spell.
pub open spec fn hex_value(s: Seq<char>) -> nat
    decreases s.len(),
{
    if s.len() == 0 {
        0
    } else {
        (hex_value(s.drop_last()) * 16 + hex_digit(s.last())->0) as nat
    }
}

/// What `u16::from_str_radix(s, 16)` accepts: an optional `+` and then at
/// least one hexadecimal digit, spelling a number that fits in `u16`.
pub open spec fn parse_hex_u16(s: Seq<char>) -> Option<u16> {
    let digits = if s.len() > 0 && s[0] == '+' {
        s.drop_first()
    } else {
        s
    };
    if digits.len() > 0 && all_hex(digits) && hex_value(digits) <= u16::MAX {
        Some(hex_value(digits) as u16)
    } else {
        None
    }
}

proof fn lemma_hex_value_prefix(s: Seq<char>, i: int)
    requires
        0 <= i <= s.len(),
        all_hex(s),
    ensures
        hex_value(s.take(i)) <= hex_value(s),
    decreases s.len() - i,
{
    if i < s.len() {
        lemma_hex_value_prefix(s, i + 1);
        assert(s.take(i + 1).drop_last() =~= s.take(i));
        assert(hex_digit(s[i]) is Some);
    } else {
        assert(s.take(i) =~= s);
    }
}

/// Parse `cs[lo..hi]` as `u16::from_str_radix(_, 16)` does.
pub fn parse_hex_range(cs: &Vec<char>, lo: usize, hi: usize) -> (r: Option<u16>)
    requires
        lo <= hi <= cs@.len(),
    ensures
        r == parse_hex_u16(cs@.subrange(lo as int, hi as int)),
{
    let ghost s = cs@.subrange(lo as int, hi as int);
    let mut start = lo;
    if lo < hi && cs[lo] == '+' {
        start = lo + 1;
        assert(s.drop_first() =~= cs@.subrange(start as int, hi as int));
    }
    let ghost digits = cs@.subrange(start as int, hi as int);
    assert(digits == (if s.len() > 0 && s[0] == '+' {
        s.drop_first()
    } else {
        s
    }));
    if start == hi {
        return None;
    }
    let mut v: u32 = 0;
    let mut i = start;
    while i < hi
        invariant
            lo <= start <= i <= hi,
            hi <= cs@.len(),
            digits == cs@.subrange(start as int, hi as int),
            s == cs@.subrange(lo as int, hi as int),
            digits == (if s.len() > 0 && s[0] == '+' {
                s.drop_first()
            } else {
                s
            }),
            digits.len() > 0,
            all_hex(digits.take(i - start)),
            v == hex_value(digits.take(i - start)),
            v <= u16::MAX,
        decreases hi - i,
    {
        let d = match hex_digit_of(cs[i]) {
            Some(d) => d,
            None => {
                assert(hex_digit(digits[i - start]) is None);
                assert(!all_hex(digits));
                return None;
            },
        };
        assert(digits.take(i - start + 1).drop_last() =~= digits.take(i - start));
        assert(digits.take(i - start + 1).last() == cs@[i as int]);
        v = v * 16 + d;
        assert(v == hex_value(digits.take(i - start + 1)));
        assert(all_hex(digits.take(i - start + 1)));
        if v > 0xFFFF {
            proof {
                if all_hex(digits) {
                    lemma_hex_value_prefix(digits, i - start + 1);
                }
            }
            return None;
        }
        i = i + 1;
    }
    assert(digits.take(hi - start) =~= digits);
    Some(v as u16)
}

/// Index of the first `c` in `s`, if any.
pub open spec fn first_index_of(s: Seq<char>, c: char) -> Option<int>
    decreases s.len(),
{
    if s.len() == 0 {
        None
    } else if s[0] == c {
        Some(0)
    } else {
        match first_index_of(s.drop_first(), c) {
            Some(i) => Some(i + 1),
            None => None,
        }
    }
}

/// The USB id that a `VID:PID` string in hexadecimal names: the text before
/// the first `:` and the text after it, each trimmed and parsed.
pub open spec fn spec_parse_vid_pid(s: Seq<char>) -> Option<(u16, u16)> {
    match first_index_of(s, ':') {
        Some(i) => match (
            parse_hex_u16(trim(s.take(i))),
            parse_hex_u16(trim(s.skip(i + 1))),
        ) {
            (Some(v), Some(p)) => Some((v, p)),
            _ => None,
        },
        None => None,
    }
}

/// Find the first `c` in `cs`.
fn find_char(cs: &Vec<char>, c: char) -> (r: Option<usize>)
    ensures
        match first_index_of(cs@, c) {
            Some(i) => r == Some(i as usize) && 0 <= i < cs@.len(),
            None => r is None,
        },
{
    let mut i: usize = 0;
    assert(cs@.skip(0) =~= cs@);
    while i < cs.len()
        invariant
            0 <= i <= cs@.len(),
            first_index_of(cs@, c) == match first_index_of(cs@.skip(i as int), c) {
                Some(j) => Some(j + i),
                None => None,
            },
        decreases cs@.len() - i,
    {
        let ghost rest = cs@.skip(i as int);
        assert(rest.drop_first() =~= cs@.skip(i + 1));
        if cs[i] == c {
            return Some(i);
        }
        i = i + 1;
    }
    assert(cs@.skip(i as int) =~= Seq::<char>::empty());
    None
}

/// Parse a `VID:PID` pair of hexadecimal numbers, e.g. `04f9:2062`.
pub fn parse_vid_pid(s: &str) -> (r: Option<(u16, u16)>)
    ensures
        r == spec_parse_vid_pid(s@),
{
    let cs = chars_of(s);
    let colon = match find_char(&cs, ':') {
        Some(i) => i,
        None => return None,
    };
    let n = cs.len();
    let (a, b) = trim_range(&cs, 0, colon);
    assert(cs@.subrange(0, colon as int) =~= s@.take(colon as int));
    let vid = match parse_hex_range(&cs, a, b) {
        Some(v) => v,
        None => return None,
    };
    let (c, d) = trim_range(&cs, colon + 1, n);
    assert(cs@.subrange(colon + 1, n as int) =~= s@.skip(colon + 1));
    let pid = match parse_hex_range(&cs, c, d) {
        Some(p) => p,
        None => return None,
    };
    Some((vid, pid))
}

/// Font family that a font name asks for.
#[derive(Debug, Clone, Copy, PartialEq, Eq, Structural)]
pub enum FontFamily {
    SansSerif,
    Serif,
    Monospace,
    /// A family looked up by the given name (also used for font file paths).
    Named,
}

/// Whether a font name is a path to a font file rather than a family.
pub open spec fn is_font_path(name: Seq<char>) -> bool {
    starts_with(name, "/"@) || ends_with(name, ".ttf"@) || ends_with(name, ".otf"@)
}

/// The family for a font name: paths are looked up by name; otherwise the
/// generic names (in any case) select a generic family.
pub open spec fn spec_font_family(name: Seq<char>) -> FontFamily {
    if is_font_path(name) {
        FontFamily::Named
    } else {
        let l = lowercase(name);
        if l == "sans-serif"@ || l == "sans"@ {
            FontFamily::SansSerif
        } else if l == "serif"@ {
            FontFamily::Serif
        } else if l == "monospace"@ || l == "mono"@ {
            FontFamily::Monospace
        } else {
            FontFamily::Named
        }
    }
}

/// Family chosen for an already lowercased generic font name.
pub open spec fn generic_family(lower: Seq<char>) -> FontFamily {
    if lower == "sans-serif"@ || lower == "sans"@ {
        FontFamily::SansSerif
    } else if lower == "serif"@ {
        FontFamily::Serif
    } else if lower == "monospace"@ || lower == "mono"@ {
        FontFamily::Monospace
    } else {
        FontFamily::Named
    }
}

/// The generic family that a lowercased font name selects.
pub fn family_of_lowercase(lower: &str) -> (f: FontFamily)
    ensures
        f == generic_family(lower@),
{
    if str_eq(lower, "sans-serif") || str_eq(lower, "sans") {
        FontFamily::SansSerif
    } else if str_eq(lower, "serif") {
        FontFamily::Serif
    } else if str_eq(lower, "monospace") || str_eq(lower, "mono") {
        FontFamily::Monospace
    } else {
        FontFamily::Named
    }
}

/// Choose the font family for a font name or path.
pub fn font_family_for(name: &str) -> (f: FontFamily)
    ensures
        f == spec_font_family(name@),
{
    let cs = chars_of(name);
    let is_path = (cs.len() > 0 && cs[0] == '/') || chars_end_with(&cs, ".ttf") || chars_end_with(
        &cs,
        ".otf",
    );
    if is_path {
        proof {
            if cs@.len() > 0 && cs@[0] == '/' {
                reveal_strlit("/");
                assert(cs@.subrange(0, 1) =~= "/"@);
            }
        }
        return FontFamily::Named;
    }
    proof {
        reveal_strlit("/");
        if cs@.len() >= 1 {
            assert(cs@.subrange(0, 1)[0] == cs@[0]);
        }
    }
    let lower = to_lowercase(name);
    family_of_lowercase(lower.as_str())
}

} // verus!
