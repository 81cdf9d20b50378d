//! Character classes, quoting, escaping and canonical number text.
//!
//! Everything here is stated over `Seq<char>`, the view of a `str`.

use vstd::prelude::*;
use vstd::std_specs::iter::IteratorSpec;
use vstd::string::*;

verus! {

/// Whether `c` is white space: the code points that carry the Unicode
/// `White_Space` property.
pub open spec fn is_whitespace(c: char) -> bool {
    let n = c as u32;
    ||| 0x09 <= n <= 0x0d
    ||| n == 0x20
    ||| n == 0x85
    ||| n == 0xa0
    ||| n == 0x1680
    ||| 0x2000 <= n <= 0x200a
    ||| n == 0x2028
    ||| n == 0x2029
    ||| n == 0x202f
    ||| n == 0x205f
    ||| n == 0x3000
}

/// Whether `c` has a structural meaning in KeyValues text.
pub open spec fn is_control(c: char) -> bool {
    c == '{' || c == '}' || c == '"'
}

/// Whether `c` cannot stand in a string that is written without quotes.
pub open spec fn forces_quotes(c: char) -> bool {
    is_control(c) || is_whitespace(c)
}

/// Whether some character of `s` forces quotes.
pub open spec fn has_forcing_char(s: Seq<char>) -> bool {
    exists|i: int| 0 <= i < s.len() && forces_quotes(#[trigger] s[i])
}

/// Whether `s` must be quoted to be read back as one string: it is empty, it
/// begins with `[`, or it holds a brace, a quote or white space.
pub open spec fn needs_quotes(s: Seq<char>) -> bool {
    s.len() == 0 || s[0] == '[' || has_forcing_char(s)
}

/// Whether `c` is written as a two-character escape.
pub open spec fn is_escaped(c: char) -> bool {
    c == '\t' || c == '\n' || c == '\\' || c == '"'
}

/// The second character of the escape that stands for `c`.
pub open spec fn escape_letter(c: char) -> char {
    if c == '\t' {
        't'
    } else if c == '\n' {
        'n'
    } else {
        c
    }
}

/// The text that stands for `c` inside a written string.
pub open spec fn escape_char(c: char) -> Seq<char> {
    if is_escaped(c) {
        seq!['\\', escape_letter(c)]
    } else {
        seq![c]
    }
}

/// The text that stands for `s` inside a written string: tab, newline,
/// backslash and quote become two-character escapes, every other character
/// stands for itself.
pub open spec fn escape(s: Seq<char>) -> Seq<char>
    decreases s.len(),
{
    if s.len() == 0 {
        Seq::empty()
    } else {
        escape(s.drop_last()) + escape_char(s.last())
    }
}

/// `s` as it is written: escaped, and between quotes if `quoted`.
pub open spec fn written(s: Seq<char>, quoted: bool) -> Seq<char> {
    if quoted {
        seq!['"'] + escape(s) + seq!['"']
    } else {
        escape(s)
    }
}

/// The character of the decimal digit `d`.
pub open spec fn digit_char(d: nat) -> char {
    if d == 0 {
        '0'
    } else if d == 1 {
        '1'
    } else if d == 2 {
        '2'
    } else if d == 3 {
        '3'
    } else if d == 4 {
        '4'
    } else if d == 5 {
        '5'
    } else if d == 6 {
        '6'
    } else if d == 7 {
        '7'
    } else if d == 8 {
        '8'
    } else {
        '9'
    }
}

/// The decimal digits of `n`, most significant first; none for zero.
pub open spec fn digits(n: nat) -> Seq<char>
    decreases n,
{
    if n == 0 {
        Seq::empty()
    } else {
        digits(n / 10).push(digit_char(n % 10))
    }
}

/// The canonical decimal text of a natural number.
pub open spec fn decimal(n: nat) -> Seq<char> {
    if n == 0 {
        seq!['0']
    } else {
        digits(n)
    }
}

/// The canonical decimal text of an integer: a minus sign before the
/// magnitude of a negative number.
pub open spec fn signed_decimal(n: int) -> Seq<char> {
    if n < 0 {
        seq!['-'] + decimal((-n) as nat)
    } else {
        decimal(n as nat)
    }
}

/// The canonical text of a boolean.
pub open spec fn bool_text(b: bool) -> Seq<char> {
    if b {
        seq!['1']
    } else {
        seq!['0']
    }
}

/// Appends one character to a string. Trusted: `String::push` appends `c`
/// to the end of the string and changes nothing else.
#[verifier::external_body]
pub(crate) fn push_char(s: &mut String, c: char)
    ensures
        final(s)@ == old(s)@.push(c),
{
    s.push(c)
}

/// `c` is white space.
pub fn is_whitespace_char(c: char) -> (r: bool)
    ensures
        r == is_whitespace(c),
{
    let n: u32 = c as u32;
    (0x09 <= n && n <= 0x0d) || n == 0x20 || n == 0x85 || n == 0xa0 || n == 0x1680 || (0x2000 <= n
        && n <= 0x200a) || n == 0x2028 || n == 0x2029 || n == 0x202f || n == 0x205f || n == 0x3000
}

/// The characters of `s`, in order.
pub fn chars_of(s: &str) -> (v: Vec<char>)
    ensures
        v@ == s@,
{
    let mut v: Vec<char> = Vec::new();
    let it = s.chars();
    for c in iter: it
        invariant
            v@ == iter.seq().take(iter.index() as int),
            iter.seq() == s@,
    {
        v.push(c);
    }
    v
}

/// Whether two strings hold the same characters.
pub fn same_text(a: &str, b: &str) -> (r: bool)
    ensures
        r == (a@ == b@),
{
    let mut x = a.chars();
    let mut y = b.chars();
    let ghost mut i: int = 0;
    assert(a@.skip(0) =~= a@);
    assert(b@.skip(0) =~= b@);
    loop
        invariant
            0 <= i <= a@.len(),
            i <= b@.len(),
            x.remaining() == a@.skip(i),
            y.remaining() == b@.skip(i),
            forall|k: int| 0 <= k < i ==> a@[k] == b@[k],
        decreases a@.len() - i,
    {
        let c = x.next();
        let d = y.next();
        match (c, d) {
            (None, None) => {
                assert(a@ =~= b@);
                return true;
            },
            (Some(p), Some(q)) => {
                if p != q {
                    assert(a@[i] != b@[i]);
                    return false;
                }
            },
            _ => {
                assert(a@.len() != b@.len());
                return false;
            },
        }
        proof {
            assert(a@.skip(i).drop_first() =~= a@.skip(i + 1));
            assert(b@.skip(i).drop_first() =~= b@.skip(i + 1));
            i = i + 1;
        }
    }
}

/// Whether `s` must be written between quotes.
pub fn must_quote(s: &str) -> (r: bool)
    ensures
        r == needs_quotes(s@),
{
    let mut it = s.chars();
    let mut first = true;
    let ghost mut i: int = 0;
    assert(s@.skip(0) =~= s@);
    loop
        invariant
            0 <= i <= s@.len(),
            first == (i == 0),
            it.remaining() == s@.skip(i),
            i > 0 ==> s@[0] != '[',
            forall|k: int| 0 <= k < i ==> !forces_quotes(#[trigger] s@[k]),
        decreases s@.len() - i,
    {
        match it.next() {
            None => {
                return first;
            },
            Some(c) => {
                if first && c == '[' {
                    return true;
                }
                if c == '{' || c == '}' || c == '"' || is_whitespace_char(c) {
                    assert(forces_quotes(s@[i]));
                    return true;
                }
            },
        }
        first = false;
        proof {
            assert(s@.skip(i).drop_first() =~= s@.skip(i + 1));
            i = i + 1;
        }
    }
}

/// Appends `escape(s)` to `out`.
pub fn push_escaped(out: &mut String, s: &str)
    ensures
        final(out)@ == old(out)@ + escape(s@),
{
    let mut it = s.chars();
    let ghost mut i: int = 0;
    assert(s@.skip(0) =~= s@);
    assert(old(out)@ + escape(s@.take(0)) =~= old(out)@);
    loop
        invariant
            0 <= i <= s@.len(),
            it.remaining() == s@.skip(i),
            out@ == old(out)@ + escape(s@.take(i)),
        decreases s@.len() - i,
    {
        let c = match it.next() {
            None => {
                assert(s@.take(i) =~= s@);
                return ;
            },
            Some(c) => c,
        };
        proof {
            assert(s@.take(i + 1).drop_last() =~= s@.take(i));
            assert(s@.take(i + 1).last() == c);
        }
        if c == '\t' {
            push_char(out, '\\');
            push_char(out, 't');
        } else if c == '\n' {
            push_char(out, '\\');
            push_char(out, 'n');
        } else if c == '\\' {
            push_char(out, '\\');
            push_char(out, '\\');
        } else if c == '"' {
            push_char(out, '\\');
            push_char(out, '"');
        } else {
            push_char(out, c);
        }
        assert(out@ =~= old(out)@ + escape(s@.take(i + 1)));
        proof {
            assert(s@.skip(i).drop_first() =~= s@.skip(i + 1));
            i = i + 1;
        }
    }
}

/// Appends `written(s, quoted)` to `out`.
pub fn push_written(out: &mut String, s: &str, quoted: bool)
    ensures
        final(out)@ == old(out)@ + written(s@, quoted),
{
    if quoted {
        push_char(out, '"');
        push_escaped(out, s);
        push_char(out, '"');
        assert(out@ =~= old(out)@ + written(s@, quoted));
    } else {
        push_escaped(out, s);
    }
}

/// The character of a decimal digit.
fn digit_of(d: u64) -> (c: char)
    requires
        d < 10,
    ensures
        c == digit_char(d as nat),
{
    if d == 0 {
        '0'
    } else if d == 1 {
        '1'
    } else if d == 2 {
        '2'
    } else if d == 3 {
        '3'
    } else if d == 4 {
        '4'
    } else if d == 5 {
        '5'
    } else if d == 6 {
        '6'
    } else if d == 7 {
        '7'
    } else if d == 8 {
        '8'
    } else {
        '9'
    }
}

/// Appends the canonical decimal text of `v` to `out`.
pub fn push_decimal(out: &mut String, v: u64)
    ensures
        final(out)@ == old(out)@ + decimal(v as nat),
{
    if v == 0 {
        push_char(out, '0');
        assert(out@ =~= old(out)@ + decimal(0));
        return ;
    }
    let mut low: Vec<char> = Vec::new();
    let mut n: u64 = v;
    while n > 0
        invariant
            digits(v as nat) == digits(n as nat) + low@.reverse(),
        decreases n,
    {
        let c = digit_of(n % 10);
        proof {
            assert(low@.push(c).reverse() =~= seq![c] + low@.reverse());
            assert(digits(n as nat) == digits((n / 10) as nat).push(c));
            assert(digits((n / 10) as nat).push(c) + low@.reverse() =~= digits((n / 10) as nat)
                + (seq![c] + low@.reverse()));
        }
        low.push(c);
        n = n / 10;
    }
    assert(digits(v as nat) =~= low@.reverse());
    let mut i: usize = low.len();
    while i > 0
        invariant
            i <= low.len(),
            out@ == old(out)@ + low@.reverse().take(low.len() - i),
        decreases i,
    {
        i -= 1;
        push_char(out, low[i]);
        assert(out@ =~= old(out)@ + low@.reverse().take(low.len() - i));
    }
    assert(low@.reverse().take(low.len() as int) =~= low@.reverse());
}

/// The canonical decimal text of an unsigned integer.
pub fn unsigned_to_string(v: u64) -> (s: String)
    ensures
        s@ == decimal(v as nat),
{
    let mut s = String::new();
    push_decimal(&mut s, v);
    assert(s@ =~= decimal(v as nat));
    s
}

/// The canonical decimal text of a signed integer.
pub fn signed_to_string(v: i64) -> (s: String)
    ensures
        s@ == signed_decimal(v as int),
{
    let mut s = String::new();
    if v < 0 {
        push_char(&mut s, '-');
        let magnitude: u64 = if v == i64::MIN {
            0x8000_0000_0000_0000u64
        } else {
            (-v) as u64
        };
        push_decimal(&mut s, magnitude);
        assert(s@ =~= signed_decimal(v as int));
    } else {
        push_decimal(&mut s, v as u64);
        assert(s@ =~= signed_decimal(v as int));
    }
    s
}

/// The one-character string of `c`.
pub fn char_to_string(c: char) -> (s: String)
    ensures
        s@ == seq![c],
{
    let mut s = String::new();
    push_char(&mut s, c);
    assert(s@ =~= seq![c]);
    s
}

/// A copy of `s`.
pub fn copy_str(s: &str) -> (r: String)
    ensures
        r@ == s@,
{
    let mut r = String::new();
    r.append(s);
    assert(r@ =~= s@);
    r
}

/// Whether `c` is a decimal digit.
pub open spec fn is_digit(c: char) -> bool {
    0x30 <= c as u32 <= 0x39
}

/// The value of the decimal digit `c`.
pub open spec fn digit_value(c: char) -> nat {
    (c as u32 - 0x30) as nat
}

/// Whether `s` is a run of one or more decimal digits.
pub open spec fn all_digits(s: Seq<char>) -> bool {
    s.len() > 0 && forall|i: int| 0 <= i < s.len() ==> is_digit(#[trigger] s[i])
}

/// The number that the decimal digits `s` stand for.
pub open spec fn digits_value(s: Seq<char>) -> nat
    decreases s.len(),
{
    if s.len() == 0 {
        0
    } else {
        digits_value(s.drop_last()) * 10 + digit_value(s.last())
    }
}

/// The natural number that `s` stands for, if it is a run of digits.
pub open spec fn parse_unsigned(s: Seq<char>) -> Option<nat> {
    if all_digits(s) {
        Some(digits_value(s))
    } else {
        None
    }
}

/// The integer that `s` stands for, if it is a run of digits, with or
/// without a minus sign before it.
pub open spec fn parse_signed(s: Seq<char>) -> Option<int> {
    if s.len() > 0 && s[0] == '-' {
        match parse_unsigned(s.skip(1)) {
            Some(n) => Some(-(n as int)),
            None => None,
        }
    } else {
        match parse_unsigned(s) {
            Some(n) => Some(n as int),
            None => None,
        }
    }
}

/// What reading a run of digits gave.
#[derive(Copy, Clone, Debug, PartialEq, Eq, Structural)]
pub enum Magnitude {
    /// The text is not a run of digits.
    Invalid,
    /// The digits stand for more than 64 bits hold.
    TooLarge,
    /// The number that the digits stand for.
    Value(u64),
}

/// What reading `s` as a natural number gives.
pub open spec fn magnitude_of(s: Seq<char>) -> Magnitude {
    match parse_unsigned(s) {
        None => Magnitude::Invalid,
        Some(n) => if n > u64::MAX {
            Magnitude::TooLarge
        } else {
            Magnitude::Value(n as u64)
        },
    }
}

/// Reads `s[from..]` as a natural number.
pub fn read_magnitude(s: &Vec<char>, from: usize) -> (m: Magnitude)
    requires
        from <= s.len(),
    ensures
        m == magnitude_of(s@.skip(from as int)),
{
    let ghost t = s@.skip(from as int);
    if from == s.len() {
        return Magnitude::Invalid;
    }
    let mut i: usize = from;
    while i < s.len()
        invariant
            from <= i <= s.len(),
            t == s@.skip(from as int),
            forall|k: int| 0 <= k < i - from ==> is_digit(#[trigger] t[k]),
        decreases s.len() - i,
    {
        let n: u32 = s[i] as u32;
        if n < 0x30 || n > 0x39 {
            assert(!is_digit(t[i - from]));
            return Magnitude::Invalid;
        }
        i += 1;
    }
    assert(all_digits(t));
    let mut acc: u64 = 0;
    let mut overflow = false;
    i = from;
    assert(t.take(0) =~= Seq::<char>::empty());
    while i < s.len()
        invariant
            from <= i <= s.len(),
            t == s@.skip(from as int),
            all_digits(t),
            !overflow ==> acc == digits_value(t.take(i - from)),
            overflow ==> digits_value(t.take(i - from)) > u64::MAX,
        decreases s.len() - i,
    {
        let c = s[i];
        proof {
            assert(t[i - from] == c);
            assert(is_digit(t[i - from]));
            assert(t.take(i - from + 1).drop_last() =~= t.take(i - from));
            assert(t.take(i - from + 1).last() == c);
        }
        let d: u64 = (c as u32 - 0x30) as u64;
        if !overflow {
            if acc > (u64::MAX - d) / 10 {
                overflow = true;
            } else {
                acc = acc * 10 + d;
            }
        }
        i += 1;
    }
    assert(t.take(t.len() as int) =~= t);
    if overflow {
        Magnitude::TooLarge
    } else {
        Magnitude::Value(acc)
    }
}

} // verus!
