//! Text primitives: characters, digits, numbers, separators and blanks.
use vstd::prelude::*;
use vstd::std_specs::iter::IteratorSpec;

verus! {

/// `String::push` appends the given character to the end of the string.
pub assume_specification[ String::push ](s: &mut String, c: char)
    ensures
        final(s)@ == old(s)@.push(c),
;

/// The characters of a string, in order.
pub fn to_chars(s: &str) -> (chars: Vec<char>)
    ensures
        chars@ == s@,
{
    let mut chars: Vec<char> = Vec::new();
    let mut rest = s.chars();
    loop
        invariant_except_break
            chars@ + rest.remaining() == s@,
            rest.obeys_prophetic_iter_laws(),
            rest.decrease() is Some,
        ensures
            chars@ == s@,
        decreases rest.decrease()->0,
    {
        match rest.next() {
            Some(c) => {
                chars.push(c);
            },
            None => {
                break;
            },
        }
    }
    chars
}

// ---------------------------------------------------------------------------
// Digits and numbers
// ---------------------------------------------------------------------------

/// The value of `c` as a digit in the given radix (at most 36), in either case.
pub open spec fn digit_value(c: char, radix: nat) -> Option<nat> {
    let d = if '0' <= c && c <= '9' {
        (c as int - '0' as int) as nat
    } else if 'a' <= c && c <= 'z' {
        (c as int - 'a' as int + 10) as nat
    } else if 'A' <= c && c <= 'Z' {
        (c as int - 'A' as int + 10) as nat
    } else {
        radix
    };
    if d < radix {
        Some(d)
    } else {
        None
    }
}

/// Every character of `s` is a digit in the given radix.
pub open spec fn all_digits(s: Seq<char>, radix: nat) -> bool {
    forall|i: int| 0 <= i < s.len() ==> (#[trigger] digit_value(s[i], radix)) is Some
}

/// The number that a sequence of digits denotes, most significant digit first.
pub open spec fn number_value(s: Seq<char>, radix: nat) -> nat
    decreases s.len(),
{
    if s.len() == 0 {
        0
    } else {
        number_value(s.drop_last(), radix) * radix + digit_value(s.last(), radix)->0
    }
}

/// The digit character for `d`, lower case from ten up.
pub open spec fn digit_char(d: nat) -> char {
    if d < 10 {
        (48 + d) as char
    } else {
        (87 + d) as char
    }
}

/// The digits of `n` in the given radix, without leading zeros.
pub open spec fn digits(n: nat, radix: nat) -> Seq<char>
    decreases n,
{
    if n < radix || radix < 2 {
        seq![digit_char(n)]
    } else {
        proof {
            assert(n / radix < n) by (nonlinear_arith)
                requires
                    n >= radix,
                    radix >= 2,
            ;
        }
        digits(n / radix, radix).push(digit_char(n % radix))
    }
}

/// The digit that a character stands for, if it is one.
pub fn to_digit(c: char, radix: u32) -> (d: Option<u32>)
    requires
        radix <= 36,
    ensures
        match d {
            Some(v) => digit_value(c, radix as nat) == Some(v as nat),
            None => digit_value(c, radix as nat) is None,
        },
{
    let v: u32 = if '0' <= c && c <= '9' {
        c as u32 - 48
    } else if 'a' <= c && c <= 'z' {
        c as u32 - 87
    } else if 'A' <= c && c <= 'Z' {
        c as u32 - 55
    } else {
        radix
    };
    if v < radix {
        Some(v)
    } else {
        None
    }
}

/// Reads a non-empty run of digits as a number of at most `max`.
pub fn parse_number(s: &[char], radix: u32, max: u32) -> (n: Option<u32>)
    requires
        2 <= radix <= 36,
        max <= 0xffff,
    ensures
        match n {
            Some(v) => s@.len() > 0 && all_digits(s@, radix as nat) && number_value(
                s@,
                radix as nat,
            ) == v && v <= max,
            None => s@.len() == 0 || !all_digits(s@, radix as nat) || number_value(
                s@,
                radix as nat,
            ) > max,
        },
{
    let mut value: u32 = 0;
    let mut overflow = false;
    let mut i: usize = 0;
    if s.len() == 0 {
        return None;
    }
    while i < s.len()
        invariant
            2 <= radix <= 36,
            max <= 0xffff,
            0 <= i <= s@.len(),
            all_digits(s@.take(i as int), radix as nat),
            overflow <==> number_value(s@.take(i as int), radix as nat) > max,
            !overflow ==> number_value(s@.take(i as int), radix as nat) == value,
        decreases s@.len() - i,
    {
        let d: u32 = match to_digit(s[i], radix) {
            Some(d) => d,
            None => {
                return None;
            },
        };
        proof {
            let before = s@.take(i as int);
            let after = s@.take(i + 1);
            assert(after.drop_last() =~= before);
            assert(after.last() == s@[i as int]);
            assert forall|j: int| 0 <= j < after.len() implies (#[trigger] digit_value(
                after[j],
                radix as nat,
            )) is Some by {
                if j < i {
                    assert(after[j] == before[j]);
                }
            }
            let v = number_value(before, radix as nat);
            assert(v * radix as nat >= v) by (nonlinear_arith)
                requires
                    radix >= 2,
                    v >= 0,
            ;
            assert(!overflow ==> v <= 0xffff);
            assert(v <= 0xffff ==> v * radix as nat <= 0xffff * 36) by (nonlinear_arith)
                requires
                    radix <= 36,
            ;
        }
        if !overflow {
            assert(value * radix <= 0xffff * 36) by (nonlinear_arith)
                requires
                    value <= 0xffff,
                    radix <= 36,
            ;
            let next: u32 = value * radix + d;
            if next > max {
                overflow = true;
            } else {
                value = next;
            }
        }
        i += 1;
    }
    assert(s@.take(i as int) =~= s@);
    if overflow {
        None
    } else {
        Some(value)
    }
}

/// Appends the digits of `n` in the given radix.
pub fn push_number(out: &mut String, n: u32, radix: u32)
    requires
        2 <= radix <= 36,
    ensures
        final(out)@ == old(out)@ + digits(n as nat, radix as nat),
    decreases n,
{
    if n >= radix {
        assert(n / radix < n) by (nonlinear_arith)
            requires
                n >= radix,
                radix >= 2,
        ;
        push_number(out, n / radix, radix);
    }
    let d: u32 = n % radix;
    let c: char = if d < 10 {
        (48 + d as u8) as char
    } else {
        (87 + d as u8) as char
    };
    out.push(c);
    proof {
        assert(c == digit_char(d as nat));
        if n < radix {
            vstd::arithmetic::div_mod::lemma_small_mod(n as nat, radix as nat);
            assert(digits(n as nat, radix as nat) =~= seq![c]);
        } else {
            assert(digits(n as nat, radix as nat) =~= digits((n / radix) as nat, radix as nat).push(c));
        }
        assert(out@ =~= old(out)@ + digits(n as nat, radix as nat));
    }
}

/// The number that a port text denotes: an optional `+`, then decimal digits,
/// of a value that fits in sixteen bits.
pub open spec fn port_value(s: Seq<char>) -> Option<u16> {
    let body = if s.len() > 0 && s[0] == '+' {
        s.skip(1)
    } else {
        s
    };
    if body.len() > 0 && all_digits(body, 10) && number_value(body, 10) <= 0xffff {
        Some(number_value(body, 10) as u16)
    } else {
        None
    }
}

/// Reads a port number.
pub fn parse_port(s: &[char]) -> (port: Option<u16>)
    ensures
        port == port_value(s@),
{
    let start: usize = if s.len() > 0 && s[0] == '+' {
        1
    } else {
        0
    };
    let body = vstd::slice::slice_subrange(s, start, s.len());
    proof {
        assert(s@.subrange(0, s@.len() as int) =~= s@);
        if s@.len() > 0 {
            assert(s@.subrange(1, s@.len() as int) =~= s@.skip(1));
        }
    }
    match parse_number(body, 10, 0xffff) {
        Some(v) => Some(v as u16),
        None => None,
    }
}

// ---------------------------------------------------------------------------
// Separators
// ---------------------------------------------------------------------------

/// The pieces of `s` between occurrences of `sep`. There is always at least one.
pub open spec fn split(s: Seq<char>, sep: char) -> Seq<Seq<char>>
    decreases s.len(),
{
    if s.len() == 0 {
        seq![Seq::empty()]
    } else {
        let before = split(s.drop_last(), sep);
        if s.last() == sep {
            before.push(Seq::empty())
        } else {
            before.drop_last().push(before.last().push(s.last()))
        }
    }
}

/// The contents of a list of pieces.
pub open spec fn contents(pieces: Seq<Vec<char>>) -> Seq<Seq<char>> {
    pieces.map_values(|p: Vec<char>| p@)
}

/// Splitting never gives an empty list.
pub proof fn lemma_split_nonempty(s: Seq<char>, sep: char)
    ensures
        split(s, sep).len() > 0,
    decreases s.len(),
{
    if s.len() > 0 {
        lemma_split_nonempty(s.drop_last(), sep);
    }
}

/// Cuts `s` at every occurrence of `sep`.
pub fn split_chars(s: &[char], sep: char) -> (pieces: Vec<Vec<char>>)
    ensures
        contents(pieces@) == split(s@, sep),
        pieces@.len() > 0,
{
    let mut done: Vec<Vec<char>> = Vec::new();
    let mut current: Vec<char> = Vec::new();
    let mut i: usize = 0;
    assert(contents(done@).push(current@) =~= split(s@.take(0), sep));
    while i < s.len()
        invariant
            0 <= i <= s@.len(),
            contents(done@).push(current@) == split(s@.take(i as int), sep),
        decreases s@.len() - i,
    {
        let c = s[i];
        let ghost before = contents(done@).push(current@);
        assert(s@.take(i + 1).drop_last() =~= s@.take(i as int));
        if c == sep {
            done.push(current);
            current = Vec::new();
            assert(contents(done@) =~= before);
        } else {
            current.push(c);
            assert(contents(done@).push(current@) =~= before.drop_last().push(before.last().push(c)));
        }
        i += 1;
    }
    assert(s@.take(i as int) =~= s@);
    let ghost last = current@;
    let ghost old_done = done@;
    done.push(current);
    assert(contents(done@) =~= contents(old_done).push(last));
    done
}

/// The index of the last occurrence of `c` in `s`.
pub open spec fn last_index(s: Seq<char>, c: char) -> Option<int>
    decreases s.len(),
{
    if s.len() == 0 {
        None
    } else if s.last() == c {
        Some(s.len() - 1)
    } else {
        last_index(s.drop_last(), c)
    }
}

/// Finds the last occurrence of `c` in `s`.
pub fn last_index_of(s: &[char], c: char) -> (at: Option<usize>)
    ensures
        match at {
            Some(i) => last_index(s@, c) == Some(i as int) && i < s@.len(),
            None => last_index(s@, c) is None,
        },
{
    let mut i: usize = s.len();
    assert(s@.take(i as int) =~= s@);
    while i > 0
        invariant
            0 <= i <= s@.len(),
            last_index(s@, c) == last_index(s@.take(i as int), c),
        decreases i,
    {
        i -= 1;
        if s[i] == c {
            return Some(i);
        }
        assert(s@.take(i + 1).drop_last() =~= s@.take(i as int));
    }
    None
}

/// `s` starts with `prefix`.
pub open spec fn starts_with(s: Seq<char>, prefix: Seq<char>) -> bool {
    s.len() >= prefix.len() && s.take(prefix.len() as int) == prefix
}

/// Whether `s` starts with `prefix`.
pub fn begins_with(s: &str, prefix: &str) -> (r: bool)
    ensures
        r == starts_with(s@, prefix@),
{
    let chars = to_chars(s);
    let wanted = to_chars(prefix);
    if chars.len() < wanted.len() {
        return false;
    }
    let mut i: usize = 0;
    while i < wanted.len()
        invariant
            0 <= i <= wanted@.len() <= chars@.len(),
            chars@ == s@,
            wanted@ == prefix@,
            forall|j: int| 0 <= j < i ==> s@[j] == prefix@[j],
        decreases wanted@.len() - i,
    {
        if chars[i] != wanted[i] {
            assert(s@.take(prefix@.len() as int)[i as int] != prefix@[i as int]);
            return false;
        }
        i += 1;
    }
    assert(s@.take(prefix@.len() as int) =~= prefix@);
    true
}

// ---------------------------------------------------------------------------
// Blanks
// ---------------------------------------------------------------------------

/// The Unicode characters with the White_Space property.
pub open spec fn white_space(c: char) -> bool {
    ||| '\u{9}' <= c <= '\u{d}'
    ||| c == '\u{20}'
    ||| c == '\u{85}'
    ||| c == '\u{a0}'
    ||| c == '\u{1680}'
    ||| '\u{2000}' <= c <= '\u{200a}'
    ||| c == '\u{2028}'
    ||| c == '\u{2029}'
    ||| c == '\u{202f}'
    ||| c == '\u{205f}'
    ||| c == '\u{3000}'
}

/// `s` without its leading white space.
pub open spec fn trim_start(s: Seq<char>) -> Seq<char>
    decreases s.len(),
{
    if s.len() > 0 && white_space(s[0]) {
        trim_start(s.skip(1))
    } else {
        s
    }
}

/// `s` without its trailing white space.
pub open spec fn trim_end(s: Seq<char>) -> Seq<char>
    decreases s.len(),
{
    if s.len() > 0 && white_space(s.last()) {
        trim_end(s.drop_last())
    } else {
        s
    }
}

fn is_white_space(c: char) -> (r: bool)
    ensures
        r == white_space(c),
{
    ('\u{9}' <= c && c <= '\u{d}') || c == '\u{20}' || c == '\u{85}' || c == '\u{a0}' || c
        == '\u{1680}' || ('\u{2000}' <= c && c <= '\u{200a}') || c == '\u{2028}' || c
        == '\u{2029}' || c == '\u{202f}' || c == '\u{205f}' || c == '\u{3000}'
}

/// Cuts the white space off both ends.
pub fn trim(s: &[char]) -> (r: &[char])
    ensures
        r@ == trim_end(trim_start(s@)),
{
    let mut lo: usize = 0;
    assert(s@.skip(0) =~= s@);
    while lo < s.len() && is_white_space(s[lo])
        invariant
            0 <= lo <= s@.len(),
            trim_start(s@) == trim_start(s@.skip(lo as int)),
        decreases s@.len() - lo,
    {
        assert(s@.skip(lo as int).skip(1) =~= s@.skip(lo + 1));
        lo += 1;
    }
    let mut hi: usize = s.len();
    assert(trim_start(s@) == s@.skip(lo as int));
    assert(s@.subrange(lo as int, hi as int) =~= s@.skip(lo as int));
    while hi > lo && is_white_space(s[hi - 1])
        invariant
            0 <= lo <= hi <= s@.len(),
            trim_end(trim_start(s@)) == trim_end(s@.subrange(lo as int, hi as int)),
        decreases hi - lo,
    {
        assert(s@.subrange(lo as int, hi as int).drop_last() =~= s@.subrange(lo as int, hi - 1));
        hi -= 1;
    }
    vstd::slice::slice_subrange(s, lo, hi)
}

// ---------------------------------------------------------------------------
// Laws
// ---------------------------------------------------------------------------

/// The digits of a number denote that number, and have no zero in front but for zero
/// itself.
pub proof fn lemma_digits_denote(n: nat, radix: nat)
    requires
        2 <= radix <= 36,
    ensures
        digits(n, radix).len() > 0,
        all_digits(digits(n, radix), radix),
        number_value(digits(n, radix), radix) == n,
        digits(n, radix)[0] == '0' ==> n == 0 && digits(n, radix).len() == 1,
    decreases n,
{
    let s = digits(n, radix);
    if n < radix {
        assert(digit_value(s[0], radix) == Some(n));
        assert(s.drop_last() =~= Seq::empty());
        assert(number_value(s.drop_last(), radix) == 0);
        assert(0 * radix == 0) by (nonlinear_arith);
    } else {
        let q = n / radix;
        let r = n % radix;
        assert(q < n && q >= 1) by (nonlinear_arith)
            requires
                n >= radix,
                radix >= 2,
                q == n / radix,
        ;
        vstd::arithmetic::div_mod::lemma_fundamental_div_mod(n as int, radix as int);
        vstd::arithmetic::div_mod::lemma_mod_bound(n as int, radix as int);
        assert(q * radix == radix * q) by (nonlinear_arith);
        lemma_digits_denote(q, radix);
        let t = digits(q, radix);
        assert(s == t.push(digit_char(r)));
        assert(s.drop_last() =~= t);
        assert(digit_value(s.last(), radix) == Some(r));
        assert forall|i: int| 0 <= i < s.len() implies (#[trigger] digit_value(s[i], radix)) is Some by {
            if i < t.len() {
                assert(s[i] == t[i]);
            }
        }
        assert(s[0] == t[0]);
    }
}

/// A digit is a letter or a figure, no mark.
pub proof fn lemma_digit_is_no_mark(s: Seq<char>, radix: nat, mark: char)
    requires
        radix <= 36,
        all_digits(s, radix),
        mark < '0' || '9' < mark < 'A' || 'Z' < mark < 'a' || 'z' < mark,
    ensures
        !s.contains(mark),
{
    if s.contains(mark) {
        let i = choose|i: int| 0 <= i < s.len() && s[i] == mark;
        assert(digit_value(s[i], radix) is Some);
    }
}

/// The port that the digits of a number denote.
pub proof fn lemma_port_of_digits(port: u16)
    ensures
        port_value(digits(port as nat, 10)) == Some(port),
{
    lemma_digits_denote(port as nat, 10);
    lemma_digit_is_no_mark(digits(port as nat, 10), 10, '+');
}

/// A text without the separator is one piece.
pub proof fn lemma_split_one(s: Seq<char>, sep: char)
    requires
        !s.contains(sep),
    ensures
        split(s, sep) == seq![s],
    decreases s.len(),
{
    if s.len() > 0 {
        let t = s.drop_last();
        assert(s.contains(s.last())) by {
            assert(s[s.len() - 1] == s.last());
        }
        assert forall|i: int| 0 <= i < t.len() implies t[i] != sep by {
            assert(s[i] == t[i]);
        }
        lemma_split_one(t, sep);
        assert(t.push(s.last()) =~= s);
        assert(split(s, sep) =~= seq![s]);
    } else {
        assert(s =~= Seq::empty());
    }
}

/// What follows the last separator is the last piece.
pub proof fn lemma_split_last(a: Seq<char>, b: Seq<char>, sep: char)
    requires
        !b.contains(sep),
    ensures
        split(a + seq![sep] + b, sep) == split(a, sep).push(b),
    decreases b.len(),
{
    let s = a + seq![sep] + b;
    if b.len() == 0 {
        assert(s.drop_last() =~= a);
        assert(b =~= Seq::empty());
    } else {
        let c = b.drop_last();
        assert(b.contains(b.last())) by {
            assert(b[b.len() - 1] == b.last());
        }
        assert forall|i: int| 0 <= i < c.len() implies c[i] != sep by {
            assert(b[i] == c[i]);
        }
        lemma_split_last(a, c, sep);
        assert(s.drop_last() =~= a + seq![sep] + c);
        assert(s.last() == b.last());
        assert(c.push(b.last()) =~= b);
        assert(split(a, sep).push(c).drop_last() =~= split(a, sep));
    }
}

/// Every character other than the separator is in some piece.
pub proof fn lemma_split_keeps(s: Seq<char>, sep: char, c: char)
    requires
        s.contains(c),
        c != sep,
    ensures
        exists|k: int| 0 <= k < split(s, sep).len() && (#[trigger] split(s, sep)[k]).contains(c),
    decreases s.len(),
{
    let t = s.drop_last();
    let before = split(t, sep);
    let after = split(s, sep);
    lemma_split_nonempty(t, sep);
    if s.last() == c {
        let piece = after.last();
        assert(piece[piece.len() - 1] == c);
        assert(after[after.len() - 1].contains(c));
    } else {
        let i = choose|i: int| 0 <= i < s.len() && s[i] == c;
        assert(t[i] == c);
        lemma_split_keeps(t, sep, c);
        let k = choose|k: int| 0 <= k < before.len() && (#[trigger] before[k]).contains(c);
        let j = choose|j: int| 0 <= j < before[k].len() && before[k][j] == c;
        assert(after[k][j] == c);
        assert(after[k].contains(c));
    }
}

/// The last occurrence lies in front of a tail that has none.
pub proof fn lemma_last_index(a: Seq<char>, b: Seq<char>, c: char)
    requires
        !b.contains(c),
    ensures
        last_index(a + seq![c] + b, c) == Some(a.len() as int),
    decreases b.len(),
{
    let s = a + seq![c] + b;
    if b.len() > 0 {
        let d = b.drop_last();
        assert(b[b.len() - 1] == s.last());
        assert forall|i: int| 0 <= i < d.len() implies d[i] != c by {
            assert(b[i] == d[i]);
        }
        lemma_last_index(a, d, c);
        assert(s.drop_last() =~= a + seq![c] + d);
    } else {
        assert(s.last() == c);
    }
}

/// The character for a digit is the figure for it, or from ten on the letter in either case,
/// and nothing else is.
pub proof fn lemma_digit(c: char, radix: nat, d: nat)
    requires
        d < radix <= 36,
    ensures
        digit_value(c, radix) == Some(d) <==> (if d < 10 {
            c as int == 48 + d
        } else {
            c as int == 87 + d || c as int == 55 + d
        }),
        digit_value(c, radix) is Some ==> digit_value(c, radix)->0 < radix,
{
}

/// No digits denote zero. One more digit multiplies the number by the radix and adds itself.
pub proof fn lemma_number_grows(s: Seq<char>, c: char, radix: nat)
    requires
        digit_value(c, radix) is Some,
    ensures
        number_value(Seq::empty(), radix) == 0,
        number_value(s.push(c), radix) == number_value(s, radix) * radix + digit_value(
            c,
            radix,
        )->0,
        all_digits(s.push(c), radix) <==> all_digits(s, radix),
{
    assert(s.push(c).drop_last() =~= s);
    if all_digits(s, radix) {
        assert forall|i: int| 0 <= i < s.push(c).len() implies (#[trigger] digit_value(
            s.push(c)[i],
            radix,
        )) is Some by {
            if i < s.len() {
                assert(s.push(c)[i] == s[i]);
            }
        }
    }
    if all_digits(s.push(c), radix) {
        assert forall|i: int| 0 <= i < s.len() implies (#[trigger] digit_value(
            s[i],
            radix,
        )) is Some by {
            assert(s.push(c)[i] == s[i]);
        }
    }
}

/// A text consists of digits unless one of its characters is none.
pub proof fn lemma_all_digits(s: Seq<char>, radix: nat, i: int)
    ensures
        s.len() == 0 ==> all_digits(s, radix),
        0 <= i < s.len() && digit_value(s[i], radix) is None ==> !all_digits(s, radix),
        !all_digits(s, radix) ==> exists|j: int|
            0 <= j < s.len() && (#[trigger] digit_value(s[j], radix)) is None,
{
}

/// Numbers are written with figures and small letters, and the number alone decides on
/// the text: whatever text of such digits without a zero in front denotes `n` is the text
/// of `n`.
pub proof fn lemma_digits_are_the_only(n: nat, radix: nat, s: Seq<char>)
    requires
        2 <= radix <= 36,
        s.len() > 0,
        all_digits(s, radix),
        number_value(s, radix) == n,
        s.len() > 1 ==> s[0] != '0',
        forall|i: int|
            0 <= i < s.len() ==> 48 <= (#[trigger] s[i]) as int <= 57 || 97 <= s[i] as int <= 122,
    ensures
        digits(n, radix) == s,
    decreases s.len(),
{
    let t = s.drop_last();
    let d = digit_value(s.last(), radix)->0;
    assert(s[s.len() - 1] == s.last());
    assert(digit_value(s[s.len() - 1], radix) is Some);
    assert(digit_char(d) == s.last());
    if s.len() == 1 {
        assert(t =~= Seq::empty());
        assert(number_value(t, radix) == 0);
        assert(0 * radix == 0) by (nonlinear_arith);
        assert(n == d);
        assert(s =~= seq![digit_char(n)]);
    } else {
        let q = number_value(t, radix);
        assert forall|i: int| 0 <= i < t.len() implies (#[trigger] digit_value(
            t[i],
            radix,
        )) is Some by {
            assert(t[i] == s[i]);
        }
        assert forall|i: int| 0 <= i < t.len() implies 48 <= (#[trigger] t[i]) as int <= 57 || 97
            <= t[i] as int <= 122 by {
            assert(t[i] == s[i]);
        }
        assert(t[0] == s[0]);
        lemma_digits_are_the_only(q, radix, t);
        lemma_digits_denote(q, radix);
        assert(q > 0) by {
            if q == 0 {
                assert(digits(0, radix) == seq![digit_char(0)]);
                assert(t[0] == '0');
            }
        }
        assert(n == q * radix + d);
        vstd::arithmetic::div_mod::lemma_fundamental_div_mod_converse(
            n as int,
            radix as int,
            q as int,
            d as int,
        );
        assert(n >= radix) by (nonlinear_arith)
            requires
                n == q * radix + d,
                q >= 1,
                d >= 0,
        ;
        assert(s =~= t.push(digit_char(d)));
    }
}

/// Numbers are written with figures and small letters.
pub proof fn lemma_digits_are_small(n: nat, radix: nat, i: int)
    requires
        2 <= radix <= 36,
        0 <= i < digits(n, radix).len(),
    ensures
        48 <= digits(n, radix)[i] as int <= 57 || 97 <= digits(n, radix)[i] as int <= 122,
    decreases n,
{
    if n >= radix {
        let q = n / radix;
        assert(q < n) by (nonlinear_arith)
            requires
                n >= radix,
                radix >= 2,
                q == n / radix,
        ;
        vstd::arithmetic::div_mod::lemma_mod_bound(n as int, radix as int);
        if i < digits(q, radix).len() {
            lemma_digits_are_small(q, radix, i);
        }
    }
}

/// A port is a number of at most sixteen bits in decimal, with or without one `+` in
/// front and with any number of zeros, and nothing else.
pub proof fn lemma_port_text(body: Seq<char>, plus: bool)
    requires
        !plus ==> body.len() == 0 || body[0] != '+',
    ensures
        ({
            let s = if plus {
                seq!['+'] + body
            } else {
                body
            };
            &&& port_value(s) is Some <==> body.len() > 0 && all_digits(body, 10) && number_value(
                body,
                10,
            ) <= 65535
            &&& port_value(s) is Some ==> port_value(s)->0 == number_value(body, 10)
        }),
{
    assert((seq!['+'] + body).skip(1) =~= body);
}

/// A text that does not hold the character has no last occurrence of it.
pub proof fn lemma_no_last_index(s: Seq<char>, c: char)
    requires
        !s.contains(c),
    ensures
        last_index(s, c) is None,
    decreases s.len(),
{
    if s.len() > 0 {
        assert(s[s.len() - 1] == s.last());
        let t = s.drop_last();
        assert forall|i: int| 0 <= i < t.len() implies t[i] != c by {
            assert(s[i] == t[i]);
        }
        lemma_no_last_index(t, c);
    }
}

/// A text starts with another exactly where it is the other and something behind it.
pub proof fn lemma_starts_with(s: Seq<char>, prefix: Seq<char>, rest: Seq<char>)
    ensures
        starts_with(prefix + rest, prefix),
        starts_with(s, prefix) ==> s == prefix + s.skip(prefix.len() as int),
{
    assert((prefix + rest).take(prefix.len() as int) =~= prefix);
    if starts_with(s, prefix) {
        assert(s =~= s.take(prefix.len() as int) + s.skip(prefix.len() as int));
    }
}

/// White space is the tab, line and page characters, the space, and the blanks that Unicode
/// adds.
pub proof fn lemma_white_space(c: char)
    ensures
        white_space(c) <==> ({
            let u = c as int;
            ||| 9 <= u <= 13
            ||| u == 32
            ||| u == 133
            ||| u == 160
            ||| u == 5760
            ||| 8192 <= u <= 8202
            ||| u == 8232
            ||| u == 8233
            ||| u == 8239
            ||| u == 8287
            ||| u == 12288
        }),
{
}

/// White space around a text is cut off, and nothing else.
pub proof fn lemma_trim(before: Seq<char>, text: Seq<char>, after: Seq<char>)
    requires
        forall|i: int| 0 <= i < before.len() ==> white_space(#[trigger] before[i]),
        forall|i: int| 0 <= i < after.len() ==> white_space(#[trigger] after[i]),
        text.len() > 0 ==> !white_space(text[0]) && !white_space(text.last()),
    ensures
        trim_end(trim_start(before + text + after)) == text,
    decreases before.len() + after.len(),
{
    let s = before + text + after;
    if text.len() == 0 {
        lemma_trim_blank(s);
        assert(trim_end(trim_start(s)) =~= text);
    } else if before.len() > 0 {
        assert(s[0] == before[0]);
        assert(s.skip(1) =~= before.skip(1) + text + after);
        lemma_trim(before.skip(1), text, after);
    } else if after.len() > 0 {
        assert(s[0] == text[0]);
        assert(trim_start(s) == s);
        assert(s.last() == after.last());
        assert(after[after.len() - 1] == after.last());
        let t = before + text + after.drop_last();
        assert(s.drop_last() =~= t);
        assert(t[0] == text[0]);
        lemma_trim(before, text, after.drop_last());
    } else {
        assert(s =~= text);
    }
}

proof fn lemma_trim_blank(s: Seq<char>)
    requires
        forall|i: int| 0 <= i < s.len() ==> white_space(#[trigger] s[i]),
    ensures
        trim_start(s).len() == 0,
        trim_end(trim_start(s)).len() == 0,
    decreases s.len(),
{
    if s.len() > 0 {
        lemma_trim_blank(s.skip(1));
    }
}

/// The pieces with the separator between each two.
pub open spec fn joined(pieces: Seq<Seq<char>>, sep: char) -> Seq<char>
    decreases pieces.len(),
{
    if pieces.len() == 0 {
        Seq::empty()
    } else if pieces.len() == 1 {
        pieces[0]
    } else {
        joined(pieces.drop_last(), sep) + seq![sep] + pieces.last()
    }
}

/// Pieces are joined from left to right: one piece is itself, and each further one follows a
/// separator.
pub proof fn lemma_joined(pieces: Seq<Seq<char>>, piece: Seq<char>, sep: char)
    ensures
        joined(Seq::empty(), sep) == Seq::<char>::empty(),
        joined(seq![piece], sep) == piece,
        pieces.len() > 0 ==> joined(pieces.push(piece), sep) == joined(pieces, sep) + seq![sep]
            + piece,
{
    assert(pieces.push(piece).drop_last() =~= pieces);
}

/// Cutting undoes joining, where no piece holds the separator.
pub proof fn lemma_split_joined(pieces: Seq<Seq<char>>, sep: char)
    requires
        pieces.len() > 0,
        forall|k: int| 0 <= k < pieces.len() ==> !(#[trigger] pieces[k]).contains(sep),
    ensures
        split(joined(pieces, sep), sep) == pieces,
    decreases pieces.len(),
{
    if pieces.len() == 1 {
        lemma_split_one(pieces[0], sep);
        assert(seq![pieces[0]] =~= pieces);
    } else {
        let head = pieces.drop_last();
        assert forall|k: int| 0 <= k < head.len() implies !(#[trigger] head[k]).contains(sep) by {
            assert(head[k] == pieces[k]);
        }
        assert(!pieces[pieces.len() - 1].contains(sep));
        lemma_split_joined(head, sep);
        lemma_split_last(joined(head, sep), pieces.last(), sep);
        assert(head.push(pieces.last()) =~= pieces);
    }
}

/// Joining undoes cutting, and no piece holds the separator.
pub proof fn lemma_joined_split(s: Seq<char>, sep: char)
    ensures
        joined(split(s, sep), sep) == s,
        forall|k: int| 0 <= k < split(s, sep).len() ==> !(#[trigger] split(s, sep)[k]).contains(sep),
    decreases s.len(),
{
    let pieces = split(s, sep);
    if s.len() == 0 {
        assert(pieces =~= seq![Seq::<char>::empty()]);
        assert(s =~= Seq::empty());
    } else {
        let t = s.drop_last();
        let before = split(t, sep);
        lemma_joined_split(t, sep);
        lemma_split_nonempty(t, sep);
        assert(s =~= t.push(s.last()));
        if s.last() == sep {
            assert(pieces.drop_last() =~= before);
            assert(joined(pieces, sep) =~= t + seq![sep] + Seq::<char>::empty());
            assert forall|k: int| 0 <= k < pieces.len() implies !(#[trigger] pieces[k]).contains(
                sep,
            ) by {
                if k < before.len() {
                    assert(pieces[k] == before[k]);
                }
            }
        } else {
            let last = before.last().push(s.last());
            assert(pieces.drop_last() =~= before.drop_last());
            assert(pieces.last() == last);
            if before.len() == 1 {
                assert(joined(before, sep) == before[0]);
                assert(joined(pieces, sep) == last);
            } else {
                assert(joined(pieces, sep) =~= joined(before, sep).push(s.last()));
            }
            assert forall|k: int| 0 <= k < pieces.len() implies !(#[trigger] pieces[k]).contains(
                sep,
            ) by {
                if k < before.len() - 1 {
                    assert(pieces[k] == before[k]);
                } else {
                    assert(!before[before.len() - 1].contains(sep));
                    if last.contains(sep) {
                        let i = choose|i: int| 0 <= i < last.len() && last[i] == sep;
                        assert(before.last()[i] == sep);
                    }
                }
            }
        }
    }
}

/// The contents of a list of pieces are the characters of each piece.
pub proof fn lemma_contents(pieces: Seq<Vec<char>>, k: int)
    ensures
        contents(pieces).len() == pieces.len(),
        0 <= k < pieces.len() ==> contents(pieces)[k] == pieces[k]@,
{
}

} // verus!
