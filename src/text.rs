use vstd::prelude::*;
use vstd::std_specs::iter::IteratorSpec;

verus! {

/// The character at `i`, or `'\0'` past either end: a line reads as if followed by NULs.
pub open spec fn char_at(s: Seq<char>, i: int) -> char {
    if 0 <= i < s.len() {
        s[i]
    } else {
        '\0'
    }
}

/// Characters with the Unicode `White_Space` property.
pub open spec fn is_space(c: char) -> bool {
    ||| '\t' <= c <= '\r'
    ||| c == ' '
    ||| c == '\u{85}'
    ||| c == '\u{A0}'
    ||| c == '\u{1680}'
    ||| '\u{2000}' <= c <= '\u{200A}'
    ||| c == '\u{2028}'
    ||| c == '\u{2029}'
    ||| c == '\u{202F}'
    ||| c == '\u{205F}'
    ||| c == '\u{3000}'
}

pub open spec fn is_digit(c: char) -> bool {
    '0' <= c <= '9'
}

pub open spec fn all_digits(d: Seq<char>) -> bool {
    forall|i: int| 0 <= i < d.len() ==> is_digit(#[trigger] d[i])
}

pub open spec fn digit_value(c: char) -> nat {
    (c as u32 - '0' as u32) as nat
}

/// The value of a sequence of decimal digits, most significant first.
pub open spec fn decimal(d: Seq<char>) -> nat
    decreases d.len(),
{
    if d.len() == 0 {
        0
    } else {
        decimal(d.drop_last()) * 10 + digit_value(d.last())
    }
}

/// The value of an unsigned decimal integer: an optional `+`, then one or more digits,
/// whose value fits in 32 bits.
pub open spec fn unsigned_value(t: Seq<char>) -> Option<u32> {
    let d = if t.len() > 0 && t[0] == '+' {
        t.skip(1)
    } else {
        t
    };
    if d.len() > 0 && all_digits(d) && decimal(d) <= u32::MAX {
        Some(decimal(d) as u32)
    } else {
        None
    }
}

/// The value of a run of digits, held at `u32::MAX` where it is larger.
pub open spec fn saturated_value(d: Seq<char>) -> u32 {
    if decimal(d) <= u32::MAX {
        decimal(d) as u32
    } else {
        u32::MAX
    }
}

/// The value of digits grows as digits are appended.
pub proof fn lemma_decimal_prefix(d: Seq<char>, k: int)
    requires
        all_digits(d),
        0 <= k <= d.len(),
    ensures
        decimal(d.take(k)) <= decimal(d),
    decreases d.len(),
{
    if k < d.len() {
        let p = d.drop_last();
        assert(p.take(k) =~= d.take(k));
        lemma_decimal_prefix(p, k);
    } else {
        assert(d.take(k) =~= d);
    }
}

pub fn is_whitespace(c: char) -> (r: bool)
    ensures
        r == is_space(c),
{
    ('\t' <= c && c <= '\r') || c == ' ' || c == '\u{85}' || c == '\u{A0}' || c == '\u{1680}'
        || ('\u{2000}' <= c && c <= '\u{200A}') || c == '\u{2028}' || c == '\u{2029}'
        || c == '\u{202F}' || c == '\u{205F}' || c == '\u{3000}'
}

pub fn is_decimal_digit(c: char) -> (r: bool)
    ensures
        r == is_digit(c),
{
    '0' <= c && c <= '9'
}

/// The value of the digits `s[from..to]`, or `None` where it exceeds `u32::MAX`.
pub fn decimal_of(s: &Vec<char>, from: usize, to: usize) -> (r: Option<u32>)
    requires
        from <= to <= s@.len(),
        all_digits(s@.subrange(from as int, to as int)),
    ensures
        r == (if decimal(s@.subrange(from as int, to as int)) <= u32::MAX {
            Some(decimal(s@.subrange(from as int, to as int)) as u32)
        } else {
            None::<u32>
        }),
{
    let ghost d = s@.subrange(from as int, to as int);
    let mut acc: u64 = 0;
    let mut i: usize = from;
    while i < to
        invariant
            from <= i <= to <= s@.len(),
            d == s@.subrange(from as int, to as int),
            all_digits(d),
            acc == decimal(s@.subrange(from as int, i as int)),
            acc <= u32::MAX,
        decreases to - i,
    {
        let ghost before = s@.subrange(from as int, i as int);
        let ghost after = s@.subrange(from as int, i + 1);
        assert(after.drop_last() =~= before);
        assert(after.last() == d[i - from]);
        let v = (s[i] as u32 - '0' as u32) as u64;
        acc = acc * 10 + v;
        i += 1;
        if acc > u32::MAX as u64 {
            proof {
                assert(d.take(i - from) =~= after);
                lemma_decimal_prefix(d, i - from);
            }
            return None;
        }
    }
    assert(s@.subrange(from as int, i as int) =~= d);
    Some(acc as u32)
}

/// The characters of a string, in order.
pub fn chars_of(text: &str) -> (r: Vec<char>)
    ensures
        r@ == text@,
{
    let mut v: Vec<char> = Vec::new();
    let mut it = text.chars();
    proof {
        broadcast use vstd::string::group_string_axioms;
    }
    loop
        invariant
            it.obeys_prophetic_iter_laws(),
            v@ + it.remaining() == text@,
            it.decrease() is Some,
        ensures
            v@ == text@,
        decreases it.decrease()->0,
    {
        match it.next() {
            Some(c) => {
                v.push(c);
            },
            None => {
                assert(v@ =~= v@ + it.remaining());
                break;
            },
        }
    }
    v
}

/// Relies on `FromIterator<char>` for `String`: the string holds the characters
/// `chars[from..to]` in order.
#[verifier::external_body]
pub(crate) fn string_of(chars: &Vec<char>, from: usize, to: usize) -> (r: String)
    requires
        from <= to <= chars@.len(),
    ensures
        r@ == chars@.subrange(from as int, to as int),
{
    chars[from..to].iter().collect()
}

} // verus!
