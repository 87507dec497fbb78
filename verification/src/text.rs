//! Character-level text utilities: conversions between `str`/`String` and
//! character vectors, character classes, and decimal / hexadecimal numerals.

use vstd::prelude::*;

verus! {

broadcast use vstd::string::axiom_spec_iter;

/// Collects the characters of a string, whose view is exactly that
/// character sequence.
pub fn str_to_chars(s: &str) -> (r: Vec<char>)
    ensures
        r@ == s@,
{
    let mut r: Vec<char> = Vec::new();
    for c in it: s.chars()
        invariant
            it.seq() == s@,
            r@ == s@.take(it.index() as int),
    {
        proof {
            assert(s@.take(it.index() + 1 as int) =~= s@.take(it.index() as int).push(c));
        }
        r.push(c);
    }
    proof {
        assert(s@.take(s@.len() as int) =~= s@);
    }
    r
}

/// Relies on String::push: appends the given character to the end of the string.
#[verifier::external_body]
pub fn push_char(s: &mut String, c: char)
    ensures
        final(s)@ == old(s)@.push(c),
{
    s.push(c);
}

/// Builds a string out of a character vector.
pub fn chars_to_string(v: &Vec<char>) -> (r: String)
    ensures
        r@ == v@,
{
    let mut r = String::new();
    let mut i: usize = 0;
    while i < v.len()
        invariant
            i <= v.len(),
            r@ == v@.take(i as int),
        decreases v.len() - i,
    {
        push_char(&mut r, v[i]);
        proof {
            assert(r@ =~= v@.take(i + 1 as int));
        }
        i = i + 1;
    }
    proof {
        assert(v@.take(v@.len() as int) =~= v@);
    }
    r
}

/// Unicode whitespace, the class stripped around sections and numbers:
/// the characters with the White_Space property.
pub open spec fn is_ws(c: char) -> bool {
    ||| c == ' '
    ||| c == '\t'
    ||| c == '\r'
    ||| c == '\n'
    ||| c == '\u{b}'
    ||| c == '\u{c}'
    ||| c == '\u{85}'
    ||| c == '\u{a0}'
    ||| c == '\u{1680}'
    ||| (0x2000 <= c as u32 <= 0x200a)
    ||| c == '\u{2028}'
    ||| c == '\u{2029}'
    ||| c == '\u{202f}'
    ||| c == '\u{205f}'
    ||| c == '\u{3000}'
}

/// Runtime test for [`is_ws`].
pub fn ws_char(c: char) -> (r: bool)
    ensures
        r == is_ws(c),
{
    let n = c as u32;
    c == ' ' || c == '\t' || c == '\r' || c == '\n' || c == '\u{b}' || c == '\u{c}'
        || c == '\u{85}' || c == '\u{a0}' || c == '\u{1680}' || (0x2000 <= n && n <= 0x200a)
        || c == '\u{2028}' || c == '\u{2029}' || c == '\u{202f}' || c == '\u{205f}'
        || c == '\u{3000}'
}

/// Decimal digit.
pub open spec fn is_digit(c: char) -> bool {
    48 <= c as u32 <= 57
}

/// The numeric value of a decimal digit.
pub open spec fn digit_val(c: char) -> nat {
    (c as u32 - 48) as nat
}

/// Runtime test for [`is_digit`].
pub fn digit_char(c: char) -> (r: bool)
    ensures
        r == is_digit(c),
{
    let n = c as u32;
    48 <= n && n <= 57
}

/// The decimal digit character for a value below ten.
pub open spec fn digit_of(d: nat) -> char {
    if d == 0 {
        '0'
    } else if d == 1 {
        '1'
    } else if d == 2 {
        '2'
    } else if d == 3 {
        '3'
    } else if d == 4 {
        '4'
    } else if d == 5 {
        '5'
    } else if d == 6 {
        '6'
    } else if d == 7 {
        '7'
    } else if d == 8 {
        '8'
    } else {
        '9'
    }
}

/// The decimal numeral of a natural number, most significant digit first,
/// without leading zeros (a lone zero for zero).
pub open spec fn dec_str(n: nat) -> Seq<char>
    decreases n,
{
    if n < 10 {
        seq![digit_of(n)]
    } else {
        dec_str(n / 10).push(digit_of(n % 10))
    }
}

/// Renders a number in decimal, appending to `buf`.
pub fn append_dec_u64(buf: &mut Vec<char>, n: u64)
    ensures
        final(buf)@ == old(buf)@ + dec_str(n as nat),
    decreases n,
{
    if n < 10 {
        let d: u64 = n;
        buf.push(dec_digit_exec(d as u8));
        proof {
            assert(buf@ =~= old(buf)@ + dec_str(n as nat));
        }
    } else {
        append_dec_u64(buf, n / 10);
        buf.push(dec_digit_exec((n % 10) as u8));
        proof {
            assert(buf@ =~= old(buf)@ + dec_str(n as nat));
        }
    }
}

/// Copies the characters of `v` between `lo` and `hi` into a fresh vector.
pub fn copy_range(v: &Vec<char>, lo: usize, hi: usize) -> (r: Vec<char>)
    requires
        lo <= hi <= v@.len(),
    ensures
        r@ == v@.subrange(lo as int, hi as int),
{
    let mut r: Vec<char> = Vec::new();
    let mut i: usize = lo;
    while i < hi
        invariant
            lo <= i <= hi <= v@.len(),
            r@ == v@.subrange(lo as int, i as int),
        decreases hi - i,
    {
        r.push(v[i]);
        proof {
            assert(r@ =~= v@.subrange(lo as int, i + 1 as int));
        }
        i = i + 1;
    }
    r
}

/// Whether `pat` occurs in `s` starting at position `i`.
pub open spec fn starts_with_at(s: Seq<char>, i: int, pat: Seq<char>) -> bool {
    &&& 0 <= i
    &&& i + pat.len() <= s.len()
    &&& s.subrange(i, i + pat.len()) == pat
}

/// Runtime test for [`starts_with_at`].
pub fn starts_with_at_exec(v: &Vec<char>, i: usize, pat: &Vec<char>) -> (r: bool)
    requires
        i <= v@.len(),
    ensures
        r == starts_with_at(v@, i as int, pat@),
{
    if pat.len() > v.len() - i {
        proof {
            assert(!starts_with_at(v@, i as int, pat@));
        }
        return false;
    }
    let end: usize = i + pat.len();
    let mut j: usize = 0;
    while j < pat.len()
        invariant
            j <= pat@.len(),
            end == i + pat@.len(),
            end <= v@.len(),
            forall|k: int| 0 <= k < j ==> v@[i + k] == pat@[k],
        decreases pat@.len() - j,
    {
        let k: usize = i + j;
        if v[k] != pat[j] {
            proof {
                assert(v@.subrange(i as int, i + pat@.len()) != pat@) by {
                    assert(v@.subrange(i as int, i + pat@.len())[j as int] != pat@[j as int]);
                }
            }
            return false;
        }
        j = j + 1;
    }
    proof {
        assert(v@.subrange(i as int, i + pat@.len()) =~= pat@);
    }
    true
}

/// The number of leading whitespace characters of `s`.
pub open spec fn ws_prefix(s: Seq<char>) -> nat
    decreases s.len(),
{
    if s.len() > 0 && is_ws(s[0]) {
        (1 + ws_prefix(s.subrange(1, s.len() as int))) as nat
    } else {
        0
    }
}

/// The number of trailing whitespace characters of `s`.
pub open spec fn ws_suffix(s: Seq<char>) -> nat
    decreases s.len(),
{
    if s.len() > 0 && is_ws(s[s.len() - 1]) {
        (1 + ws_suffix(s.subrange(0, s.len() - 1))) as nat
    } else {
        0
    }
}

/// `s` with leading whitespace removed.
pub open spec fn trim_start(s: Seq<char>) -> Seq<char> {
    s.subrange(ws_prefix(s) as int, s.len() as int)
}

/// `s` with trailing whitespace removed.
pub open spec fn trim_end(s: Seq<char>) -> Seq<char> {
    s.subrange(0, s.len() - ws_suffix(s))
}

/// `s` with whitespace removed at both ends.
pub open spec fn trim(s: Seq<char>) -> Seq<char> {
    trim_end(trim_start(s))
}

/// A scan that stops at the first non-whitespace character finds the
/// whitespace prefix.
pub proof fn lemma_ws_prefix_of(s: Seq<char>, k: int)
    requires
        0 <= k <= s.len(),
        forall|j: int| 0 <= j < k ==> is_ws(s[j]),
        k < s.len() ==> !is_ws(s[k]),
    ensures
        ws_prefix(s) == k,
    decreases s.len(),
{
    if s.len() > 0 && is_ws(s[0]) {
        lemma_ws_prefix_of(s.subrange(1, s.len() as int), k - 1);
    }
}

/// A backward scan that stops at the first non-whitespace character finds the
/// whitespace suffix.
pub proof fn lemma_ws_suffix_of(s: Seq<char>, k: int)
    requires
        0 <= k <= s.len(),
        forall|j: int| s.len() - k <= j < s.len() ==> is_ws(s[j]),
        k < s.len() ==> !is_ws(s[s.len() - k - 1]),
    ensures
        ws_suffix(s) == k,
    decreases s.len(),
{
    if s.len() > 0 && is_ws(s[s.len() - 1]) {
        lemma_ws_suffix_of(s.subrange(0, s.len() - 1), k - 1);
    }
}

/// The index just past the leading whitespace of `v` between `lo` and `hi`.
pub fn scan_ws_start(v: &Vec<char>, lo: usize, hi: usize) -> (k: usize)
    requires
        lo <= hi <= v@.len(),
    ensures
        lo <= k <= hi,
        k - lo == ws_prefix(v@.subrange(lo as int, hi as int)),
    decreases hi - lo,
{
    let mut i: usize = lo;
    while i < hi && ws_char(v[i])
        invariant
            lo <= i <= hi <= v@.len(),
            forall|j: int| lo <= j < i ==> is_ws(v@[j]),
        decreases hi - i,
    {
        i = i + 1;
    }
    proof {
        let sub = v@.subrange(lo as int, hi as int);
        lemma_ws_prefix_of(sub, i - lo);
    }
    i
}

/// The index at the start of the trailing whitespace of `v` between `lo` and `hi`.
pub fn scan_ws_end(v: &Vec<char>, lo: usize, hi: usize) -> (k: usize)
    requires
        lo <= hi <= v@.len(),
    ensures
        lo <= k <= hi,
        hi - k == ws_suffix(v@.subrange(lo as int, hi as int)),
    decreases hi - lo,
{
    let mut i: usize = hi;
    while i > lo && ws_char(v[i - 1])
        invariant
            lo <= i <= hi <= v@.len(),
            forall|j: int| i <= j < hi ==> is_ws(v@[j]),
        decreases i - lo,
    {
        i = i - 1;
    }
    proof {
        let sub = v@.subrange(lo as int, hi as int);
        lemma_ws_suffix_of(sub, hi - i);
    }
    i
}

/// The value of a decimal numeral, most significant digit first.
pub open spec fn dec_val(s: Seq<char>) -> nat
    decreases s.len(),
{
    if s.len() == 0 {
        0
    } else {
        dec_val(s.drop_last()) * 10 + digit_val(s.last())
    }
}

/// Every character of `s` is a decimal digit.
pub open spec fn all_digits(s: Seq<char>) -> bool {
    forall|i: int| 0 <= i < s.len() ==> is_digit(#[trigger] s[i])
}

/// What `str::parse::<u8>` accepts: an optional plus sign, then at least one
/// digit, with a value that fits in a byte.
pub open spec fn u8_dec_spec(s: Seq<char>) -> Option<u8> {
    let d = if s.len() > 0 && s[0] == '+' {
        s.subrange(1, s.len() as int)
    } else {
        s
    };
    if d.len() > 0 && all_digits(d) && dec_val(d) <= 255 {
        Some(dec_val(d) as u8)
    } else {
        None
    }
}

/// Extending a digit string cannot shrink its value.
proof fn lemma_dec_val_take_grows(s: Seq<char>, i: int, j: int)
    requires
        0 <= i <= j <= s.len(),
    ensures
        dec_val(s.subrange(0, i)) <= dec_val(s.subrange(0, j)),
    decreases j - i,
{
    if i < j {
        lemma_dec_val_take_grows(s, i, j - 1);
        let a = s.subrange(0, j - 1);
        let b = s.subrange(0, j);
        assert(b.drop_last() =~= a);
    }
}

/// Parses the digits of `v` between `lo` and `hi` as a byte, the way
/// `str::parse::<u8>` would.
pub fn parse_u8_dec(v: &Vec<char>, lo: usize, hi: usize) -> (r: Option<u8>)
    requires
        lo <= hi <= v@.len(),
    ensures
        r == u8_dec_spec(v@.subrange(lo as int, hi as int)),
{
    let ghost s = v@.subrange(lo as int, hi as int);
    let mut i: usize = lo;
    if i < hi && v[i] == '+' {
        i = i + 1;
    }
    let ghost d = if s.len() > 0 && s[0] == '+' {
        s.subrange(1, s.len() as int)
    } else {
        s
    };
    proof {
        assert(d =~= v@.subrange(i as int, hi as int));
    }
    if i == hi {
        return None;
    }
    let ghost start = i as int;
    let mut acc: u32 = 0;
    while i < hi
        invariant
            0 <= start <= i as int <= hi <= v@.len(),
            s == v@.subrange(lo as int, hi as int),
            d == v@.subrange(start, hi as int),
            d.len() > 0,
            u8_dec_spec(s) == (if all_digits(d) && dec_val(d) <= 255 {
                Some(dec_val(d) as u8)
            } else {
                None
            }),
            acc <= 255,
            acc == dec_val(d.subrange(0, i - start)),
            all_digits(d.subrange(0, i - start)),
        decreases hi - i,
    {
        let c = v[i];
        if !digit_char(c) {
            proof {
                let idx = i as int - start;
                assert(0 <= idx < d.len());
                assert(d[idx] == v@.subrange(start, hi as int)[idx]);
                assert(v@.subrange(start, hi as int)[idx] == v@[start + idx]);
                assert(d[idx] == c);
                assert(!all_digits(d));
            }
            return None;
        }
        let dv: u32 = c as u32 - 48;
        proof {
            assert(d.subrange(0, i as int - start + 1).drop_last() =~= d.subrange(
                0,
                i as int - start,
            ));
            assert(d.subrange(0, i as int - start + 1).last() == c);
        }
        let next: u32 = acc * 10 + dv;
        if next > 255 {
            proof {
                lemma_dec_val_take_grows(d, i as int - start + 1, d.len() as int);
                assert(d.subrange(0, d.len() as int) =~= d);
            }
            return None;
        }
        acc = next;
        i = i + 1;
    }
    proof {
        assert(d.subrange(0, d.len() as int) =~= d);
    }
    Some(acc as u8)
}

/// The lowercase hexadecimal digit character for a value below sixteen.
pub open spec fn hex_digit_of(d: nat) -> char {
    if d < 10 {
        digit_of(d)
    } else if d == 10 {
        'a'
    } else if d == 11 {
        'b'
    } else if d == 12 {
        'c'
    } else if d == 13 {
        'd'
    } else if d == 14 {
        'e'
    } else {
        'f'
    }
}

/// Hexadecimal digit, either case.
pub open spec fn is_hex_digit(c: char) -> bool {
    is_digit(c) || (97 <= c as u32 <= 102) || (65 <= c as u32 <= 70)
}

/// The numeric value of a hexadecimal digit.
pub open spec fn hex_digit_val(c: char) -> nat {
    if is_digit(c) {
        digit_val(c)
    } else if 97 <= c as u32 <= 102 {
        (c as u32 - 87) as nat
    } else {
        (c as u32 - 55) as nat
    }
}

/// Every character of `s` is a hexadecimal digit.
pub open spec fn all_hex(s: Seq<char>) -> bool {
    forall|i: int| 0 <= i < s.len() ==> is_hex_digit(#[trigger] s[i])
}

/// The fixed-width hexadecimal numeral of `v` with `k` digits, most
/// significant first, leading zeros kept.
pub open spec fn hex_fixed(v: nat, k: nat) -> Seq<char>
    decreases k,
{
    if k == 0 {
        Seq::<char>::empty()
    } else {
        hex_fixed(v / 16, (k - 1) as nat).push(hex_digit_of(v % 16))
    }
}

/// The value of a hexadecimal numeral, most significant digit first.
pub open spec fn hex_val(s: Seq<char>) -> nat
    decreases s.len(),
{
    if s.len() == 0 {
        0
    } else {
        hex_val(s.drop_last()) * 16 + hex_digit_val(s.last())
    }
}

/// Sixteen to the power `k`.
pub open spec fn pow16(k: nat) -> nat
    decreases k,
{
    if k == 0 {
        1
    } else {
        16 * pow16((k - 1) as nat)
    }
}

/// `pow16` grows with its argument.
pub proof fn lemma_pow16_mono(a: nat, b: nat)
    requires
        a <= b,
    ensures
        pow16(a) <= pow16(b),
        pow16(a) >= 1,
    decreases b,
{
    if b > 0 {
        if a == b {
            lemma_pow16_mono((a - 1) as nat, (b - 1) as nat);
        } else {
            lemma_pow16_mono(a, (b - 1) as nat);
        }
    }
}

/// The value of `pow16` at sixteen digits, the width of a 64-bit word.
pub proof fn lemma_pow16_16()
    ensures
        pow16(16) == 0x1_0000_0000_0000_0000,
{
    reveal_with_fuel(pow16, 17);
}

/// A fixed-width numeral has its width, holds only hexadecimal digits, and
/// reads back to the value it was made from.
pub proof fn lemma_hex_fixed_props(v: nat, k: nat)
    requires
        v < pow16(k),
    ensures
        hex_fixed(v, k).len() == k,
        all_hex(hex_fixed(v, k)),
        hex_val(hex_fixed(v, k)) == v,
    decreases k,
{
    if k == 0 {
    } else {
        assert(pow16(k) == 16 * pow16((k - 1) as nat));
        assert(v / 16 < pow16((k - 1) as nat)) by (nonlinear_arith)
            requires
                v < 16 * pow16((k - 1) as nat),
        ;
        lemma_hex_fixed_props(v / 16, (k - 1) as nat);
        let rest = hex_fixed(v / 16, (k - 1) as nat);
        let whole = rest.push(hex_digit_of(v % 16));
        assert(whole.drop_last() =~= rest);
        assert(hex_digit_val(hex_digit_of(v % 16)) == v % 16);
        assert(forall|i: int|
            0 <= i < whole.len() ==> is_hex_digit(#[trigger] whole[i])) by {
            assert(forall|i: int| 0 <= i < rest.len() ==> whole[i] == #[trigger] rest[i]);
            assert(whole[whole.len() - 1] == hex_digit_of(v % 16));
        }
    }
}

/// The hexadecimal digit character of a value below sixteen.
fn hex_digit_exec(d: u8) -> (c: char)
    requires
        d < 16,
    ensures
        c == hex_digit_of(d as nat),
{
    match d {
        0 => '0',
        1 => '1',
        2 => '2',
        3 => '3',
        4 => '4',
        5 => '5',
        6 => '6',
        7 => '7',
        8 => '8',
        9 => '9',
        10 => 'a',
        11 => 'b',
        12 => 'c',
        13 => 'd',
        14 => 'e',
        _ => 'f',
    }
}

/// Renders `v` as `k` hexadecimal digits, appending to `buf`.
pub fn append_hex_u64(buf: &mut Vec<char>, v: u64, k: u8)
    ensures
        final(buf)@ == old(buf)@ + hex_fixed(v as nat, k as nat),
    decreases k,
{
    if k == 0 {
        proof {
            assert(buf@ =~= old(buf)@ + hex_fixed(v as nat, 0));
        }
    } else {
        append_hex_u64(buf, v / 16, k - 1);
        buf.push(hex_digit_exec((v % 16) as u8));
        proof {
            assert(buf@ =~= old(buf)@ + hex_fixed(v as nat, k as nat));
        }
    }
}

/// Runtime test for [`is_hex_digit`] with the digit's value.
fn hex_digit_val_exec(c: char) -> (r: Option<u8>)
    ensures
        r is Some <==> is_hex_digit(c),
        r matches Some(d) ==> d as nat == hex_digit_val(c) && d < 16,
{
    let n = c as u32;
    if 48 <= n && n <= 57 {
        Some((n - 48) as u8)
    } else if 97 <= n && n <= 102 {
        Some((n - 87) as u8)
    } else if 65 <= n && n <= 70 {
        Some((n - 55) as u8)
    } else {
        None
    }
}

/// Parses exactly sixteen hexadecimal digits of `v` starting at `lo` into a
/// 64-bit value.
pub fn parse_hex16(v: &Vec<char>, lo: usize) -> (r: Option<u64>)
    requires
        lo + 16 <= v@.len(),
    ensures
        r == (if all_hex(v@.subrange(lo as int, lo + 16)) {
            Some(hex_val(v@.subrange(lo as int, lo + 16)) as u64)
        } else {
            None
        }),
{
    let ghost s = v@.subrange(lo as int, lo + 16);
    let n: usize = v.len();
    let hi: usize = lo + 16;
    let mut acc: u64 = 0;
    let mut i: usize = 0;
    while i < 16
        invariant
            0 <= i <= 16,
            lo + 16 <= v@.len(),
            hi == lo + 16,
            s == v@.subrange(lo as int, lo + 16),
            all_hex(s.subrange(0, i as int)),
            acc as nat == hex_val(s.subrange(0, i as int)),
            (acc as nat) < pow16(i as nat),
        decreases 16 - i,
    {
        let k: usize = hi - 16 + i;
        let c = v[k];
        proof {
            assert(s[i as int] == c);
        }
        match hex_digit_val_exec(c) {
            None => {
                proof {
                    assert(!all_hex(s)) by {
                        assert(!is_hex_digit(s[i as int]));
                    }
                }
                return None;
            },
            Some(d) => {
                proof {
                    lemma_pow16_mono(i as nat + 1, 16);
                    lemma_pow16_16();
                    let p = pow16(i as nat);
                    let q = pow16(i as nat + 1);
                    assert(acc * 16 + 15 < q) by (nonlinear_arith)
                        requires
                            (acc as nat) < p,
                            q == 16 * p,
                    ;
                    assert(s.subrange(0, i + 1 as int).drop_last() =~= s.subrange(0, i as int));
                    assert(s.subrange(0, i + 1 as int).last() == c);
                }
                acc = acc * 16 + (d as u64);
                i = i + 1;
            },
        }
    }
    proof {
        assert(s.subrange(0, 16) =~= s);
    }
    Some(acc)
}

/// The lowercase form of an ASCII letter; other characters are unchanged.
pub open spec fn lower_char(c: char) -> char {
    match c {
        'A' => 'a',
        'B' => 'b',
        'C' => 'c',
        'D' => 'd',
        'E' => 'e',
        'F' => 'f',
        'G' => 'g',
        'H' => 'h',
        'I' => 'i',
        'J' => 'j',
        'K' => 'k',
        'L' => 'l',
        'M' => 'm',
        'N' => 'n',
        'O' => 'o',
        'P' => 'p',
        'Q' => 'q',
        'R' => 'r',
        'S' => 's',
        'T' => 't',
        'U' => 'u',
        'V' => 'v',
        'W' => 'w',
        'X' => 'x',
        'Y' => 'y',
        'Z' => 'z',
        _ => c,
    }
}

/// ASCII-lowercases every character of `s`.
pub open spec fn lower_seq(s: Seq<char>) -> Seq<char> {
    s.map_values(|c: char| lower_char(c))
}

/// Runtime form of [`lower_char`].
pub fn lower_char_exec(c: char) -> (r: char)
    ensures
        r == lower_char(c),
{
    match c {
        'A' => 'a',
        'B' => 'b',
        'C' => 'c',
        'D' => 'd',
        'E' => 'e',
        'F' => 'f',
        'G' => 'g',
        'H' => 'h',
        'I' => 'i',
        'J' => 'j',
        'K' => 'k',
        'L' => 'l',
        'M' => 'm',
        'N' => 'n',
        'O' => 'o',
        'P' => 'p',
        'Q' => 'q',
        'R' => 'r',
        'S' => 's',
        'T' => 't',
        'U' => 'u',
        'V' => 'v',
        'W' => 'w',
        'X' => 'x',
        'Y' => 'y',
        'Z' => 'z',
        _ => c,
    }
}

/// ASCII-lowercases a character vector.
pub fn lower_chars(v: &Vec<char>) -> (r: Vec<char>)
    ensures
        r@ == lower_seq(v@),
{
    let mut r: Vec<char> = Vec::new();
    let mut i: usize = 0;
    while i < v.len()
        invariant
            i <= v@.len(),
            r@ == lower_seq(v@.subrange(0, i as int)),
        decreases v@.len() - i,
    {
        r.push(lower_char_exec(v[i]));
        proof {
            assert(r@ =~= lower_seq(v@.subrange(0, i + 1 as int))) by {
                assert(lower_seq(v@.subrange(0, i + 1 as int)) =~= lower_seq(
                    v@.subrange(0, i as int),
                ).push(lower_char(v@[i as int])));
            }
        }
        i = i + 1;
    }
    proof {
        assert(v@.subrange(0, v@.len() as int) =~= v@);
    }
    r
}

/// Whether two character sequences are the same.
pub fn chars_eq(a: &Vec<char>, b: &Vec<char>) -> (r: bool)
    ensures
        r == (a@ == b@),
{
    if a.len() != b.len() {
        return false;
    }
    let eq = starts_with_at_exec(a, 0, b);
    proof {
        if starts_with_at(a@, 0, b@) {
            assert(a@.subrange(0, b@.len() as int) =~= a@);
        } else {
            assert(a@ != b@) by {
                if a@ == b@ {
                    assert(a@.subrange(0, b@.len() as int) =~= b@);
                }
            }
        }
    }
    eq
}

/// The digit character of a value below ten.
fn dec_digit_exec(d: u8) -> (c: char)
    requires
        d < 10,
    ensures
        c == digit_of(d as nat),
{
    match d {
        0 => '0',
        1 => '1',
        2 => '2',
        3 => '3',
        4 => '4',
        5 => '5',
        6 => '6',
        7 => '7',
        8 => '8',
        _ => '9',
    }
}

} // verus!
