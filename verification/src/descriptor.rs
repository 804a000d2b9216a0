//! What the name of a theme directory says about the icons below it
//! (size, scale, theme), and how well such a description fits a wanted
//! size.

use crate::text::{
    all_digits, decimal_value, find_char, first_index, is_digit, lemma_first_index_is,
    lemma_parsed_chars, matches_at, parse_u16, parse_unsigned, to_chars,
};
use vstd::prelude::*;

verus! {

/// The size of the icons in a theme directory.
#[derive(Copy, Clone, PartialEq, Eq, Debug, Structural)]
pub enum IconSize {
    /// Vector icons, usable at any size.
    Scalable,
    /// Raster icons of this many pixels along the longer side.
    Fixed(u16),
}

/// Size, scale and theme of an icon, as far as its directories tell.
#[derive(PartialEq, Eq, Debug)]
pub struct IconDescriptor {
    pub size: Option<IconSize>,
    /// Pixel density multiplier, as in `@2x`; at least 1 in every descriptor
    /// that starts from `default` and grows by `apply`.
    pub scale: u32,
    pub theme: Option<String>,
}

/// The mathematical content of an `IconDescriptor`.
pub struct DescriptorView {
    pub size: Option<IconSize>,
    pub scale: u32,
    pub theme: Option<Seq<char>>,
}

impl View for IconDescriptor {
    type V = DescriptorView;

    open spec fn view(&self) -> DescriptorView {
        DescriptorView {
            size: self.size,
            scale: self.scale,
            theme: match self.theme {
                Some(t) => Some(t@),
                None => None,
            },
        }
    }
}

/// Sort key of a descriptor against a wanted size: a larger key is a
/// better fit. Keys compare by `size_score` first and by `scale` second.
#[derive(Copy, Clone, PartialEq, Eq, PartialOrd, Ord, Debug, Structural)]
pub struct IconDescOrd {
    pub size_score: u16,
    pub scale: u32,
}

/// A directory name with a scale suffix splits into the name before the
/// first `@` and the scale. The suffix is `@`, one or two digits that
/// denote a number of at least 1, and `x`; a name with any other text
/// behind its first `@` has no scale suffix.
pub open spec fn scale_suffix(name: Seq<char>) -> Option<(Seq<char>, u32)> {
    let at = first_index(name, '@', 0);
    let digits = name.subrange(at + 1, name.len() - 1);
    if at + 3 <= name.len() <= at + 4 && name.last() == 'x' && all_digits(digits) && decimal_value(
        digits,
    ) >= 1 {
        Some((name.subrange(0, at), decimal_value(digits) as u32))
    } else {
        None
    }
}

/// Width and height in a name of the form `WxH`, both readable as
/// 16-bit decimal numbers.
pub open spec fn dimensions(base: Seq<char>) -> Option<(u16, u16)> {
    let x = first_index(base, 'x', 0);
    if x < base.len() {
        match (
            parse_unsigned(base.subrange(0, x), 0xffff),
            parse_unsigned(base.subrange(x + 1, base.len() as int), 0xffff),
        ) {
            (Some(w), Some(h)) => Some((w as u16, h as u16)),
            _ => None,
        }
    } else {
        None
    }
}

/// The size that a directory name (without scale suffix) states, if any:
/// `scalable`, `WxH` (the larger of the two counts) or a bare number.
pub open spec fn size_of_name(base: Seq<char>) -> Option<IconSize> {
    if base == "scalable"@ {
        Some(IconSize::Scalable)
    } else if let Some((w, h)) = dimensions(base) {
        Some(IconSize::Fixed(if w >= h { w } else { h }))
    } else if let Some(n) = parse_unsigned(base, 0xffff) {
        Some(IconSize::Fixed(n as u16))
    } else {
        None
    }
}

/// The descriptor after reading one more directory name. A scale suffix
/// sets the scale and is cut off; a size in the remaining name sets the
/// size; a name that states neither leaves both as they were. The
/// remaining name becomes the theme unless a theme is already known.
pub open spec fn apply_spec(d: DescriptorView, name: Seq<char>) -> DescriptorView {
    let (base, scale) = match scale_suffix(name) {
        Some((base, scale)) => (base, scale),
        None => (name, d.scale),
    };
    DescriptorView {
        size: match size_of_name(base) {
            Some(size) => Some(size),
            None => d.size,
        },
        scale,
        theme: match d.theme {
            Some(theme) => Some(theme),
            None => Some(base),
        },
    }
}

/// How well a size fits the wanted size `target`; higher is better. An
/// unknown size scores 0, a scalable icon one below the maximum, an exact
/// fit the maximum. A larger icon loses its excess from the maximum, a
/// smaller one its deficit from half the maximum.
pub open spec fn size_score(size: Option<IconSize>, target: u16) -> int {
    match size {
        None => 0,
        Some(IconSize::Scalable) => u16::MAX - 1,
        Some(IconSize::Fixed(s)) => if s == target {
            u16::MAX as int
        } else if s > target {
            u16::MAX - (s - target)
        } else {
            u16::MAX / 2 - (target - s)
        },
    }
}

/// The score of a size fits into 16 bits: a fixed size is not smaller than
/// the target by more than half the maximum.
pub open spec fn score_fits(size: Option<IconSize>, target: u16) -> bool {
    size matches Some(IconSize::Fixed(s)) ==> target - s <= u16::MAX / 2
}

/// Key `a` is a strictly better fit than key `b`.
pub open spec fn outranks(a: IconDescOrd, b: IconDescOrd) -> bool {
    a.size_score > b.size_score || (a.size_score == b.size_score && a.scale > b.scale)
}

/// The decimal digits of a number, most significant first.
pub open spec fn decimal_digits(n: nat) -> Seq<char>
    decreases n,
{
    if n < 10 {
        seq![digit_char(n)]
    } else {
        decimal_digits(n / 10).push(digit_char(n % 10))
    }
}

pub open spec fn digit_char(d: nat) -> char {
    if d == 0 {
        '0'
    } else if d == 1 {
        '1'
    } else if d == 2 {
        '2'
    } else if d == 3 {
        '3'
    } else if d == 4 {
        '4'
    } else if d == 5 {
        '5'
    } else if d == 6 {
        '6'
    } else if d == 7 {
        '7'
    } else if d == 8 {
        '8'
    } else {
        '9'
    }
}

/// The text form of a descriptor: `unknown`, `scalable` or the fixed size
/// in decimal, followed by `@Nx` when the scale `N` is not 1.
pub open spec fn label_spec(d: DescriptorView) -> Seq<char> {
    let size = match d.size {
        None => "unknown"@,
        Some(IconSize::Scalable) => "scalable"@,
        Some(IconSize::Fixed(n)) => decimal_digits(n as nat),
    };
    if d.scale != 1 {
        size + seq!['@'] + decimal_digits(d.scale as nat) + seq!['x']
    } else {
        size
    }
}

/// Appends the decimal digits of `n` to `out`.
pub fn push_decimal(out: &mut String, n: u64)
    ensures
        final(out)@ == old(out)@ + decimal_digits(n as nat),
    decreases n,
{
    if n >= 10 {
        push_decimal(out, n / 10);
    }
    let d: u64 = n % 10;
    let digit: &str = if d == 0 {
        "0"
    } else if d == 1 {
        "1"
    } else if d == 2 {
        "2"
    } else if d == 3 {
        "3"
    } else if d == 4 {
        "4"
    } else if d == 5 {
        "5"
    } else if d == 6 {
        "6"
    } else if d == 7 {
        "7"
    } else if d == 8 {
        "8"
    } else {
        "9"
    };
    proof {
        reveal_strlit("0");
        reveal_strlit("1");
        reveal_strlit("2");
        reveal_strlit("3");
        reveal_strlit("4");
        reveal_strlit("5");
        reveal_strlit("6");
        reveal_strlit("7");
        reveal_strlit("8");
        reveal_strlit("9");
        assert(digit@ =~= seq![digit_char(d as nat)]);
    }
    out.append(digit);
    assert(final(out)@ =~= old(out)@ + decimal_digits(n as nat));
}

impl Clone for IconDescriptor {
    fn clone(&self) -> (r: Self)
        ensures
            r == *self,
    {
        IconDescriptor {
            size: self.size,
            scale: self.scale,
            theme: match &self.theme {
                Some(t) => Some(t.clone()),
                None => None,
            },
        }
    }
}

impl Default for IconDescriptor {
    /// Nothing known: no size, scale 1, no theme.
    fn default() -> (r: Self)
        ensures
            r@ == (DescriptorView { size: None, scale: 1, theme: None }),
    {
        IconDescriptor { size: None, scale: 1, theme: None }
    }
}

impl IconDescriptor {
    /// The sort key of this descriptor against the wanted size `target`.
    pub fn ord(&self, target: u16) -> (r: IconDescOrd)
        requires
            score_fits(self.size, target),
        ensures
            r.size_score == size_score(self.size, target),
            r.scale == self.scale,
    {
        let score: u16 = match self.size {
            None => 0,
            Some(IconSize::Scalable) => u16::MAX - 1,
            Some(IconSize::Fixed(size)) => {
                if size == target {
                    u16::MAX
                } else if size > target {
                    u16::MAX - (size - target)
                } else {
                    (u16::MAX / 2) - (target - size)
                }
            },
        };
        IconDescOrd { size_score: score, scale: self.scale }
    }

    /// Reads one more directory name into the descriptor.
    pub fn apply(self, dir_name: &str) -> (r: IconDescriptor)
        ensures
            r@ == apply_spec(self@, dir_name@),
    {
        let chars = to_chars(dir_name);
        let len: usize = chars.len();
        let at: usize = find_char(&chars, '@', 0);
        let mut scale: u32 = self.scale;
        let mut end: usize = len;
        if at < len && len - at >= 3 && len - at <= 4 && chars[len - 1] == 'x' {
            let ghost digits = chars@.subrange(at + 1, len - 1);
            match parse_u16(&chars, at + 1, len - 1) {
                Some(n) => {
                    // A sign is no digit: `@+2x` is no scale suffix.
                    assert(digits[0] == chars@[at + 1]);
                    if chars[at + 1] != '+' && n >= 1 {
                        scale = n as u32;
                        end = at;
                    }
                },
                None => {
                    proof {
                        lemma_two_digits_fit(digits);
                    }
                },
            }
        }
        let ghost base = chars@.subrange(0, end as int);
        assert(scale_suffix(chars@) == if end < len {
            Some((base, scale))
        } else {
            None::<(Seq<char>, u32)>
        });
        assert(end == len ==> base == chars@);
        let scalable = to_chars("scalable");
        let mut size: Option<IconSize> = self.size;
        if end == scalable.len() && matches_at(&chars, &scalable, 0) {
            size = Some(IconSize::Scalable);
        } else {
            let x: usize = find_char(&chars, 'x', 0);
            let mut found = false;
            assert(first_index(base, 'x', 0) == if x < end {
                x as int
            } else {
                end as int
            }) by {
                lemma_first_index_prefix(chars@, 'x', end as int);
            }
            if x < end {
                assert(base.subrange(0, x as int) == chars@.subrange(0, x as int));
                assert(base.subrange(x + 1, end as int) == chars@.subrange(x + 1, end as int));
                match (parse_u16(&chars, 0, x), parse_u16(&chars, x + 1, end)) {
                    (Some(w), Some(h)) => {
                        size = Some(IconSize::Fixed(if w >= h { w } else { h }));
                        found = true;
                    },
                    _ => {},
                }
            }
            if !found {
                match parse_u16(&chars, 0, end) {
                    Some(n) => {
                        size = Some(IconSize::Fixed(n));
                    },
                    None => {},
                }
            }
        }
        let theme = match self.theme {
            Some(theme) => Some(theme),
            None => Some(dir_name.substring_char(0, end).to_owned()),
        };
        IconDescriptor { size, scale, theme }
    }

    /// The text form of the descriptor.
    pub fn to_string(&self) -> (r: String)
        ensures
            r@ == label_spec(self@),
    {
        let mut out = String::new();
        match self.size {
            None => {
                out.append("unknown");
            },
            Some(IconSize::Scalable) => {
                out.append("scalable");
            },
            Some(IconSize::Fixed(n)) => {
                push_decimal(&mut out, n as u64);
            },
        }
        if self.scale != 1 {
            proof {
                reveal_strlit("@");
                reveal_strlit("x");
                assert("@"@ =~= seq!['@']);
                assert("x"@ =~= seq!['x']);
            }
            out.append("@");
            push_decimal(&mut out, self.scale as u64);
            out.append("x");
        }
        out
    }
}

/// A directory name `WxH`, with `W` and `H` readable as 16-bit numbers,
/// sets the size to the larger of the two, whatever was known before.
pub proof fn lemma_apply_dimensions(d: DescriptorView, width: Seq<char>, height: Seq<char>)
    requires
        parse_unsigned(width, 0xffff) is Some,
        parse_unsigned(height, 0xffff) is Some,
    ensures
        ({
            let w = parse_unsigned(width, 0xffff)->0 as u16;
            let h = parse_unsigned(height, 0xffff)->0 as u16;
            apply_spec(d, width + seq!['x'] + height).size == Some(
                IconSize::Fixed(if w >= h { w } else { h }),
            )
        }),
{
    let name = width + seq!['x'] + height;
    lemma_parsed_chars(width, 0xffff);
    lemma_parsed_chars(height, 0xffff);
    assert forall|i: int| 0 <= i < name.len() implies name[i] != '@' by {
        if i < width.len() {
            assert(name[i] == width[i]);
        } else if i > width.len() {
            assert(name[i] == height[i - width.len() - 1]);
        }
    }
    lemma_first_index_is(name, '@', 0, name.len() as int);
    assert(scale_suffix(name) is None);
    assert forall|i: int| 0 <= i < width.len() implies name[i] != 'x' by {
        assert(name[i] == width[i]);
    }
    lemma_first_index_is(name, 'x', 0, width.len() as int);
    assert(name.subrange(0, width.len() as int) =~= width);
    assert(name.subrange(width.len() as int + 1, name.len() as int) =~= height);
    reveal_strlit("scalable");
    assert(name[0] == width[0]);
    assert(name != "scalable"@);
}

/// The directory name `scalable` sets the size to scalable.
pub proof fn lemma_apply_scalable(d: DescriptorView)
    ensures
        apply_spec(d, "scalable"@).size == Some(IconSize::Scalable),
        apply_spec(d, "scalable"@).scale == d.scale,
{
    reveal_strlit("scalable");
    let name = "scalable"@;
    lemma_first_index_is(name, '@', 0, name.len() as int);
}

/// A scale suffix sets the scale, and the name before it is read as if it
/// stood alone: `name@2x` gives scale 2 and what `name` gives for size and
/// theme. `digits` is the number in the suffix.
pub proof fn lemma_apply_scale_suffix(d: DescriptorView, name: Seq<char>, digits: Seq<char>)
    requires
        forall|i: int| 0 <= i < name.len() ==> name[i] != '@',
        1 <= digits.len() <= 2,
        all_digits(digits),
        decimal_value(digits) >= 1,
    ensures
        apply_spec(d, name + seq!['@'] + digits + seq!['x']) == apply_spec(
            DescriptorView { scale: decimal_value(digits) as u32, ..d },
            name,
        ),
{
    let full = name + seq!['@'] + digits + seq!['x'];
    assert forall|i: int| 0 <= i < name.len() implies full[i] != '@' by {
        assert(full[i] == name[i]);
    }
    lemma_first_index_is(full, '@', 0, name.len() as int);
    lemma_first_index_is(name, '@', 0, name.len() as int);
    lemma_two_digits_fit(digits);
    assert(full.subrange(name.len() as int + 1, full.len() - 1) =~= digits);
    assert(full.subrange(0, name.len() as int) =~= name);
    assert(scale_suffix(full) == Some((name, decimal_value(digits) as u32)));
    assert(scale_suffix(name) is None);
}

/// A descriptor whose scale is at least 1 keeps such a scale under `apply`.
pub proof fn lemma_apply_keeps_scale(d: DescriptorView, name: Seq<char>)
    requires
        d.scale >= 1,
    ensures
        apply_spec(d, name).scale >= 1,
{
    if scale_suffix(name) is Some {
        let at = first_index(name, '@', 0);
        lemma_first_index_is_bounds(name, '@', 0);
        lemma_two_digits_fit(name.subrange(at + 1, name.len() - 1));
    }
}

pub proof fn lemma_first_index_is_bounds(s: Seq<char>, c: char, from: int)
    requires
        0 <= from <= s.len(),
    ensures
        from <= first_index(s, c, from) <= s.len(),
    decreases s.len() - from,
{
    if from < s.len() {
        lemma_first_index_is_bounds(s, c, from + 1);
    }
}

/// For a fixed target, a fixed size equal to the target outranks every
/// other fixed size, whatever the scales.
pub proof fn lemma_exact_size_outranks(target: u16, other: u16, scale: u32, other_scale: u32)
    requires
        other != target,
        score_fits(Some(IconSize::Fixed(other)), target),
    ensures
        size_score(Some(IconSize::Fixed(target)), target) > size_score(
            Some(IconSize::Fixed(other)),
            target,
        ),
        outranks(
            IconDescOrd {
                size_score: size_score(Some(IconSize::Fixed(target)), target) as u16,
                scale,
            },
            IconDescOrd {
                size_score: size_score(Some(IconSize::Fixed(other)), target) as u16,
                scale: other_scale,
            },
        ),
{
}

/// For a fixed target, a scalable icon never ranks below a fixed size that
/// is not the target, by size. It outranks every such size but the one
/// that is larger than the target by exactly 1, which scores the same.
pub proof fn lemma_scalable_outranks(target: u16, other: u16, scale: u32, other_scale: u32)
    requires
        other != target,
        score_fits(Some(IconSize::Fixed(other)), target),
    ensures
        size_score(Some(IconSize::Scalable), target) >= size_score(
            Some(IconSize::Fixed(other)),
            target,
        ),
        other != target + 1 ==> outranks(
            IconDescOrd { size_score: size_score(Some(IconSize::Scalable), target) as u16, scale },
            IconDescOrd {
                size_score: size_score(Some(IconSize::Fixed(other)), target) as u16,
                scale: other_scale,
            },
        ),
        other == target + 1 ==> size_score(Some(IconSize::Scalable), target) == size_score(
            Some(IconSize::Fixed(other)),
            target,
        ),
{
}

/// One or two digits always denote a number that fits in 16 bits.
pub proof fn lemma_two_digits_fit(digits: Seq<char>)
    requires
        1 <= digits.len() <= 2,
    ensures
        all_digits(digits) ==> decimal_value(digits) <= 99,
{
    if all_digits(digits) {
        if digits.len() == 1 {
            assert(digits.drop_last().len() == 0);
            assert(decimal_value(digits.drop_last()) == 0);
        } else {
            let one = digits.drop_last();
            assert(one.drop_last().len() == 0);
            assert(decimal_value(one.drop_last()) == 0);
            assert(one.last() == digits[0]);
            assert(decimal_value(one) <= 9);
        }
    }
}

/// The first occurrence of a character in a prefix is its first occurrence
/// in the whole, if that lies within the prefix.
pub proof fn lemma_first_index_prefix(s: Seq<char>, c: char, end: int)
    requires
        0 <= end <= s.len(),
    ensures
        first_index(s.subrange(0, end), c, 0) == if first_index(s, c, 0) < end {
            first_index(s, c, 0)
        } else {
            end
        },
{
    lemma_first_index_prefix_from(s, c, end, 0);
}

pub proof fn lemma_first_index_prefix_from(s: Seq<char>, c: char, end: int, from: int)
    requires
        0 <= end <= s.len(),
        0 <= from,
    ensures
        first_index(s.subrange(0, end), c, from) == if first_index(s, c, from) < end {
            first_index(s, c, from)
        } else {
            end
        },
        from <= first_index(s, c, from) || from > s.len(),
    decreases s.len() - from,
{
    if from < s.len() {
        lemma_first_index_prefix_from(s, c, end, from + 1);
    }
}

} // verus!
