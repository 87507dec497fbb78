//! The canonical JSON text of an [`AgentMessage`] and its strict reader.
//!
//! The writer emits one fixed field order and escape style; the reader
//! accepts exactly that shape and hands back the message, so that decoding
//! inverts encoding for every message.

use vstd::prelude::*;

use crate::message::{kind_name, AgentMessage, AgentMessageView, MessageKind, MsgId};
use crate::roles::{role_name, AgentId, AgentRole};
use crate::text::{all_digits, all_hex, append_dec_u64, append_hex_u64, chars_eq, chars_to_string,
    copy_range, dec_str, dec_val, digit_char, digit_of, digit_val, hex_digit_of, hex_fixed, hex_val,
    is_digit, is_hex_digit, lemma_hex_fixed_props, lemma_pow16_16, parse_hex16, parse_u8_dec,
    pow16, starts_with_at, starts_with_at_exec, str_to_chars, u8_dec_spec};

verus! {

/// The escape the writer uses for one character: quotes, backslashes and the
/// named control characters get two-character escapes, other control
/// characters a `\u00XX` escape, and everything else stands as itself.
pub open spec fn esc_char(c: char) -> Seq<char> {
    if c == '"' {
        seq!['\\', '"']
    } else if c == '\\' {
        seq!['\\', '\\']
    } else if c == '\n' {
        seq!['\\', 'n']
    } else if c == '\r' {
        seq!['\\', 'r']
    } else if c == '\t' {
        seq!['\\', 't']
    } else if (c as u32) < 32 {
        seq!['\\', 'u', '0', '0', hex_digit_of((c as u32 / 16) as nat), hex_digit_of(
            (c as u32 % 16) as nat,
        )]
    } else {
        seq![c]
    }
}

/// The escaped form of a whole string.
pub open spec fn esc_str(s: Seq<char>) -> Seq<char>
    decreases s.len(),
{
    if s.len() == 0 {
        Seq::<char>::empty()
    } else {
        esc_char(s[0]) + esc_str(s.subrange(1, s.len() as int))
    }
}

/// Escaping a string one character longer appends that character's escape.
proof fn lemma_esc_snoc(s: Seq<char>, c: char)
    ensures
        esc_str(s.push(c)) == esc_str(s) + esc_char(c),
    decreases s.len(),
{
    if s.len() == 0 {
        let p = s.push(c);
        assert(p[0] == c);
        assert(p.subrange(1, p.len() as int) =~= Seq::<char>::empty());
        assert(esc_str(Seq::<char>::empty()) == Seq::<char>::empty());
        assert(esc_str(p) == esc_char(c) + esc_str(p.subrange(1, p.len() as int)));
        assert(esc_str(p) =~= esc_char(c));
        assert(esc_str(s) + esc_char(c) =~= esc_char(c));
    } else {
        let t = s.subrange(1, s.len() as int);
        lemma_esc_snoc(t, c);
        assert(s.push(c)[0] == s[0]);
        assert(s.push(c).subrange(1, s.push(c).len() as int) =~= t.push(c));
        assert(esc_str(s.push(c)) == esc_char(s[0]) + esc_str(t.push(c)));
        assert(esc_char(s[0]) + (esc_str(t) + esc_char(c)) =~= (esc_char(s[0]) + esc_str(t))
            + esc_char(c));
    }
}

/// The control character with the given value below thirty-two.
pub open spec fn ctl_char_of(v: nat) -> char {
    if v == 0 {
        '\u{0}'
    } else if v == 1 {
        '\u{1}'
    } else if v == 2 {
        '\u{2}'
    } else if v == 3 {
        '\u{3}'
    } else if v == 4 {
        '\u{4}'
    } else if v == 5 {
        '\u{5}'
    } else if v == 6 {
        '\u{6}'
    } else if v == 7 {
        '\u{7}'
    } else if v == 8 {
        '\u{8}'
    } else if v == 9 {
        '\t'
    } else if v == 10 {
        '\n'
    } else if v == 11 {
        '\u{b}'
    } else if v == 12 {
        '\u{c}'
    } else if v == 13 {
        '\r'
    } else if v == 14 {
        '\u{e}'
    } else if v == 15 {
        '\u{f}'
    } else if v == 16 {
        '\u{10}'
    } else if v == 17 {
        '\u{11}'
    } else if v == 18 {
        '\u{12}'
    } else if v == 19 {
        '\u{13}'
    } else if v == 20 {
        '\u{14}'
    } else if v == 21 {
        '\u{15}'
    } else if v == 22 {
        '\u{16}'
    } else if v == 23 {
        '\u{17}'
    } else if v == 24 {
        '\u{18}'
    } else if v == 25 {
        '\u{19}'
    } else if v == 26 {
        '\u{1a}'
    } else if v == 27 {
        '\u{1b}'
    } else if v == 28 {
        '\u{1c}'
    } else if v == 29 {
        '\u{1d}'
    } else if v == 30 {
        '\u{1e}'
    } else {
        '\u{1f}'
    }
}

/// Runtime form of [`ctl_char_of`].
fn ctl_char_exec(v: u8) -> (c: char)
    requires
        v < 32,
    ensures
        c == ctl_char_of(v as nat),
{
    match v {
        0 => '\u{0}',
        1 => '\u{1}',
        2 => '\u{2}',
        3 => '\u{3}',
        4 => '\u{4}',
        5 => '\u{5}',
        6 => '\u{6}',
        7 => '\u{7}',
        8 => '\u{8}',
        9 => '\t',
        10 => '\n',
        11 => '\u{b}',
        12 => '\u{c}',
        13 => '\r',
        14 => '\u{e}',
        15 => '\u{f}',
        16 => '\u{10}',
        17 => '\u{11}',
        18 => '\u{12}',
        19 => '\u{13}',
        20 => '\u{14}',
        21 => '\u{15}',
        22 => '\u{16}',
        23 => '\u{17}',
        24 => '\u{18}',
        25 => '\u{19}',
        26 => '\u{1a}',
        27 => '\u{1b}',
        28 => '\u{1c}',
        29 => '\u{1d}',
        30 => '\u{1e}',
        _ => '\u{1f}',
    }
}

/// Appends the escaped form of `s` to `buf`.
pub fn append_escaped(buf: &mut Vec<char>, s: &Vec<char>)
    ensures
        final(buf)@ == old(buf)@ + esc_str(s@),
{
    let mut i: usize = 0;
    proof {
        assert(buf@ =~= old(buf)@ + esc_str(s@.take(0)));
    }
    while i < s.len()
        invariant
            i <= s@.len(),
            buf@ == old(buf)@ + esc_str(s@.take(i as int)),
        decreases s@.len() - i,
    {
        let c = s[i];
        if c == '"' {
            buf.push('\\');
            buf.push('"');
        } else if c == '\\' {
            buf.push('\\');
            buf.push('\\');
        } else if c == '\n' {
            buf.push('\\');
            buf.push('n');
        } else if c == '\r' {
            buf.push('\\');
            buf.push('r');
        } else if c == '\t' {
            buf.push('\\');
            buf.push('t');
        } else if (c as u32) < 32 {
            let v = c as u32;
            buf.push('\\');
            buf.push('u');
            buf.push('0');
            buf.push('0');
            buf.push(hex_digit_pub((v / 16) as u8));
            buf.push(hex_digit_pub((v % 16) as u8));
        } else {
            buf.push(c);
        }
        proof {
            lemma_esc_snoc(s@.take(i as int), c);
            assert(s@.take(i + 1 as int) =~= s@.take(i as int).push(c));
            assert(buf@ =~= old(buf)@ + esc_str(s@.take(i + 1 as int)));
        }
        i = i + 1;
    }
    proof {
        assert(s@.take(s@.len() as int) =~= s@);
    }
}

/// The hexadecimal digit character of a value below sixteen.
fn hex_digit_pub(d: u8) -> (c: char)
    requires
        d < 16,
    ensures
        c == hex_digit_of(d as nat),
{
    match d {
        0 => '0',
        1 => '1',
        2 => '2',
        3 => '3',
        4 => '4',
        5 => '5',
        6 => '6',
        7 => '7',
        8 => '8',
        9 => '9',
        10 => 'a',
        11 => 'b',
        12 => 'c',
        13 => 'd',
        14 => 'e',
        _ => 'f',
    }
}

/// The reader's result on a quoted-string body starting at `i`: the
/// characters up to the closing quote, unescaped, and the index just past
/// that quote. Escapes beyond the writer's own repertoire are refused.
pub open spec fn unesc_at(s: Seq<char>, i: int) -> Option<(Seq<char>, int)>
    decreases s.len() - i when 0 <= i <= s.len()
{
    if i >= s.len() {
        None
    } else if s[i] == '"' {
        Some((Seq::<char>::empty(), i + 1))
    } else if s[i] == '\\' {
        if i + 1 >= s.len() {
            None
        } else {
            let e = s[i + 1];
            if e == '"' || e == '\\' || e == '/' {
                match unesc_at(s, i + 2) {
                    Some((rest, j)) => Some((seq![e] + rest, j)),
                    None => None,
                }
            } else if e == 'n' {
                match unesc_at(s, i + 2) {
                    Some((rest, j)) => Some((seq!['\n'] + rest, j)),
                    None => None,
                }
            } else if e == 'r' {
                match unesc_at(s, i + 2) {
                    Some((rest, j)) => Some((seq!['\r'] + rest, j)),
                    None => None,
                }
            } else if e == 't' {
                match unesc_at(s, i + 2) {
                    Some((rest, j)) => Some((seq!['\t'] + rest, j)),
                    None => None,
                }
            } else if e == 'b' {
                match unesc_at(s, i + 2) {
                    Some((rest, j)) => Some((seq![ctl_char_of(8)] + rest, j)),
                    None => None,
                }
            } else if e == 'f' {
                match unesc_at(s, i + 2) {
                    Some((rest, j)) => Some((seq![ctl_char_of(12)] + rest, j)),
                    None => None,
                }
            } else if e == 'u' {
                if i + 6 <= s.len() && all_hex(s.subrange(i + 2, i + 6)) && hex_val(
                    s.subrange(i + 2, i + 6),
                ) < 32 {
                    match unesc_at(s, i + 6) {
                        Some((rest, j)) => Some(
                            (seq![ctl_char_of(hex_val(s.subrange(i + 2, i + 6)))] + rest, j),
                        ),
                        None => None,
                    }
                } else {
                    None
                }
            } else {
                None
            }
        }
    } else {
        match unesc_at(s, i + 1) {
            Some((rest, j)) => Some((seq![s[i]] + rest, j)),
            None => None,
        }
    }
}

/// Reads a quoted-string body: the exec form of [`unesc_at`].
pub fn unesc_exec(v: &Vec<char>, i: usize) -> (r: Option<(Vec<char>, usize)>)
    requires
        i <= v@.len(),
    ensures
        (r is Some) == (unesc_at(v@, i as int) is Some),
        r matches Some((w, j)) ==> ({
            &&& unesc_at(v@, i as int) matches Some((ws, js))
            &&& w@ == ws
            &&& j as int == js
            &&& i < j <= v@.len()
        }),
{
    let mut out: Vec<char> = Vec::new();
    let mut k: usize = i;
    let n: usize = v.len();
    loop
        invariant
            i <= k <= n == v@.len(),
            (unesc_at(v@, i as int) is Some) == (unesc_at(v@, k as int) is Some),
            unesc_at(v@, k as int) matches Some((rest, j)) ==> (unesc_at(v@, i as int) matches Some(
                (all, j2),
            ) && all == out@ + rest && j2 == j),
        decreases v@.len() - k,
    {
        if k >= n {
            return None;
        }
        let c = v[k];
        if c == '"' {
            proof {
                assert(unesc_at(v@, k as int) == Some((Seq::<char>::empty(), k + 1 as int)));
                assert(out@ + Seq::<char>::empty() =~= out@);
            }
            return Some((out, k + 1));
        } else if c == '\\' {
            if n - k < 2 {
                return None;
            }
            let e = v[k + 1];
            let ghost acc = out@;
            if e == '"' || e == '\\' || e == '/' {
                proof {
                    lemma_unesc_step(v@, i as int, k as int, acc, seq![e], k + 2 as int);
                }
                out.push(e);
                proof {
                    assert(out@ =~= acc + seq![e]);
                }
                k = k + 2;
            } else if e == 'n' {
                proof {
                    lemma_unesc_step(v@, i as int, k as int, acc, seq!['\n'], k + 2 as int);
                }
                out.push('\n');
                proof {
                    assert(out@ =~= acc + seq!['\n']);
                }
                k = k + 2;
            } else if e == 'r' {
                proof {
                    lemma_unesc_step(v@, i as int, k as int, acc, seq!['\r'], k + 2 as int);
                }
                out.push('\r');
                proof {
                    assert(out@ =~= acc + seq!['\r']);
                }
                k = k + 2;
            } else if e == 't' {
                proof {
                    lemma_unesc_step(v@, i as int, k as int, acc, seq!['\t'], k + 2 as int);
                }
                out.push('\t');
                proof {
                    assert(out@ =~= acc + seq!['\t']);
                }
                k = k + 2;
            } else if e == 'b' {
                proof {
                    lemma_unesc_step(v@, i as int, k as int, acc, seq![ctl_char_of(8)], k + 2 as int);
                }
                out.push(ctl_char_exec(8));
                proof {
                    assert(out@ =~= acc + seq![ctl_char_of(8)]);
                }
                k = k + 2;
            } else if e == 'f' {
                proof {
                    lemma_unesc_step(
                        v@,
                        i as int,
                        k as int,
                        acc,
                        seq![ctl_char_of(12)],
                        k + 2 as int,
                    );
                }
                out.push(ctl_char_exec(12));
                proof {
                    assert(out@ =~= acc + seq![ctl_char_of(12)]);
                }
                k = k + 2;
            } else if e == 'u' {
                if n - k < 6 {
                    return None;
                }
                let ghost h = v@.subrange(k + 2 as int, k + 6 as int);
                let d1 = hex_val_of(v[k + 2]);
                let d2 = hex_val_of(v[k + 3]);
                let d3 = hex_val_of(v[k + 4]);
                let d4 = hex_val_of(v[k + 5]);
                proof {
                    assert(h.len() == 4);
                    assert(h[0] == v@[k + 2 as int] && h[1] == v@[k + 3 as int] && h[2] == v@[k + 4
                        as int] && h[3] == v@[k + 5 as int]);
                }
                match (d1, d2, d3, d4) {
                    (Some(a), Some(b), Some(cc), Some(d)) => {
                        let val: u32 = (((a as u32) * 16 + (b as u32)) * 16 + (cc as u32)) * 16 + (
                        d as u32);
                        proof {
                            assert(all_hex(h)) by {
                                assert(forall|j: int|
                                    0 <= j < 4 ==> is_hex_digit(#[trigger] h[j]));
                            }
                            assert(hex_val(h) == val as nat) by {
                                reveal_with_fuel(crate::text::hex_val, 6);
                                assert(h.drop_last() =~= h.subrange(0, 3));
                                assert(h.subrange(0, 3).drop_last() =~= h.subrange(0, 2));
                                assert(h.subrange(0, 2).drop_last() =~= h.subrange(0, 1));
                                assert(h.subrange(0, 1).drop_last() =~= Seq::<char>::empty());
                            }
                        }
                        if val >= 32 {
                            return None;
                        }
                        proof {
                            lemma_unesc_step(
                                v@,
                                i as int,
                                k as int,
                                acc,
                                seq![ctl_char_of(val as nat)],
                                k + 6 as int,
                            );
                        }
                        out.push(ctl_char_exec(val as u8));
                        proof {
                            assert(out@ =~= acc + seq![ctl_char_of(val as nat)]);
                        }
                        k = k + 6;
                    },
                    _ => {
                        proof {
                            assert(!all_hex(h)) by {
                                if d1 is None {
                                    assert(!is_hex_digit(h[0]));
                                } else if d2 is None {
                                    assert(!is_hex_digit(h[1]));
                                } else if d3 is None {
                                    assert(!is_hex_digit(h[2]));
                                } else {
                                    assert(!is_hex_digit(h[3]));
                                }
                            }
                        }
                        return None;
                    },
                }
            } else {
                return None;
            }
        } else {
            let ghost acc = out@;
            proof {
                lemma_unesc_step(v@, i as int, k as int, acc, seq![c], k + 1 as int);
            }
            out.push(c);
            proof {
                assert(out@ =~= acc + seq![c]);
            }
            k = k + 1;
        }
    }
}

/// One unescaping step: if the spec reader at `k` yields `piece` and then
/// continues at `k2`, the accumulated output extends by `piece`.
proof fn lemma_unesc_step(s: Seq<char>, i: int, k: int, acc: Seq<char>, piece: Seq<char>, k2: int)
    requires
        0 <= i <= k <= s.len(),
        (unesc_at(s, i) is Some) == (unesc_at(s, k) is Some),
        unesc_at(s, k) matches Some((rest, j)) ==> (unesc_at(s, i) matches Some((all, j2)) && all
            == acc + rest && j2 == j),
        unesc_at(s, k) == (match unesc_at(s, k2) {
            Some((rest2, j2)) => Some::<(Seq<char>, int)>((piece + rest2, j2)),
            None => None::<(Seq<char>, int)>,
        }),
        0 <= k2 <= s.len(),
    ensures
        (unesc_at(s, i) is Some) == (unesc_at(s, k2) is Some),
        unesc_at(s, k2) matches Some((rest, j)) ==> (unesc_at(s, i) matches Some((all, j2)) && all
            == (acc + piece) + rest && j2 == j),
{
    match unesc_at(s, k2) {
        Some((rest2, j2)) => {
            assert(unesc_at(s, k) == Some((piece + rest2, j2)));
            assert(acc + (piece + rest2) =~= (acc + piece) + rest2);
        },
        None => {},
    }
}

/// Runtime test for a hexadecimal digit with its value.
fn hex_val_of(c: char) -> (r: Option<u8>)
    ensures
        r is Some <==> is_hex_digit(c),
        r matches Some(d) ==> d as nat == crate::text::hex_digit_val(c) && d < 16,
{
    let n = c as u32;
    if 48 <= n && n <= 57 {
        Some((n - 48) as u8)
    } else if 97 <= n && n <= 102 {
        Some((n - 87) as u8)
    } else if 65 <= n && n <= 70 {
        Some((n - 55) as u8)
    } else {
        None
    }
}

/// A control character is recovered from its own code point.
proof fn lemma_ctl_char_inv(c: char)
    requires
        (c as u32) < 32,
    ensures
        ctl_char_of((c as u32) as nat) == c,
{
}

/// Reading back the escaped form of `content`, followed by a closing quote
/// and anything after it, yields `content` exactly.
pub proof fn lemma_unesc_inverts_esc(s: Seq<char>, i: int, content: Seq<char>)
    requires
        0 <= i,
        i + esc_str(content).len() + 1 <= s.len(),
        s.subrange(i, i + esc_str(content).len()) == esc_str(content),
        s[i + esc_str(content).len()] == '"',
    ensures
        unesc_at(s, i) == Some((content, i + esc_str(content).len() + 1)),
    decreases content.len(),
{
    if content.len() == 0 {
        assert(s[i] == '"');
    } else {
        let c = content[0];
        let rest = content.subrange(1, content.len() as int);
        let e = esc_char(c);
        let er = esc_str(rest);
        assert(esc_str(content) == e + er);
        let el = e.len();
        assert(forall|j: int|
            0 <= j < esc_str(content).len() ==> s[i + j] == #[trigger] esc_str(content)[j]);
        assert forall|j: int| 0 <= j < el implies s[i + j] == e[j] by {
            assert(s[i + j] == esc_str(content)[j]);
            assert(esc_str(content)[j] == (e + er)[j]);
            assert((e + er)[j] == e[j]);
        }
        assert(s.subrange(i + el, i + el + er.len()) =~= er) by {
            assert(forall|j: int|
                0 <= j < er.len() ==> s.subrange(i + el, i + el + er.len())[j] == s[i + el + j]
                    && #[trigger] er[j] == esc_str(content)[el + j]);
        }
        lemma_unesc_inverts_esc(s, i + el, rest);
        if c == '"' || c == '\\' {
            assert(s[i] == '\\' && s[i + 1] == c);
            assert(seq![c] + rest =~= content);
        } else if c == '\n' {
            assert(s[i] == '\\' && s[i + 1] == 'n');
            assert(seq!['\n'] + rest =~= content);
        } else if c == '\r' {
            assert(s[i] == '\\' && s[i + 1] == 'r');
            assert(seq!['\r'] + rest =~= content);
        } else if c == '\t' {
            assert(s[i] == '\\' && s[i + 1] == 't');
            assert(seq!['\t'] + rest =~= content);
        } else if (c as u32) < 32 {
            let v = (c as u32) as nat;
            assert(s[i] == '\\' && s[i + 1] == 'u' && s[i + 2] == '0' && s[i + 3] == '0');
            assert(s[i + 4] == hex_digit_of(v / 16) && s[i + 5] == hex_digit_of(v % 16));
            let h = s.subrange(i + 2, i + 6);
            assert(h =~= seq!['0', '0', hex_digit_of(v / 16), hex_digit_of(v % 16)]);
            assert(is_hex_digit('0') && crate::text::hex_digit_val('0') == 0);
            assert(is_hex_digit(hex_digit_of(v / 16)) && crate::text::hex_digit_val(
                hex_digit_of(v / 16),
            ) == v / 16);
            assert(is_hex_digit(hex_digit_of(v % 16)) && crate::text::hex_digit_val(
                hex_digit_of(v % 16),
            ) == v % 16);
            assert(all_hex(h)) by {
                assert(forall|j: int| 0 <= j < 4 ==> is_hex_digit(#[trigger] h[j]));
            }
            assert(hex_val(h) == v) by {
                reveal_with_fuel(crate::text::hex_val, 6);
                assert(h.drop_last() =~= seq!['0', '0', hex_digit_of(v / 16)]);
                assert(h.drop_last().drop_last() =~= seq!['0', '0']);
                assert(h.drop_last().drop_last().drop_last() =~= seq!['0']);
                assert(h.drop_last().drop_last().drop_last().drop_last() =~= Seq::<char>::empty());
                assert(hex_val(h) == (v / 16) * 16 + v % 16);
            }
            lemma_ctl_char_inv(c);
            assert(seq![c] + rest =~= content);
        } else {
            assert(e[0] == c);
            assert(s[i + 0] == e[0]);
            assert(seq![c] + rest =~= content);
        }
    }
}

/// The hyphenated lowercase hexadecimal text of a 128-bit identifier.
pub open spec fn uuid_str(id: MsgId) -> Seq<char> {
    let h = hex_fixed(id.hi as nat, 16);
    let l = hex_fixed(id.lo as nat, 16);
    h.subrange(0, 8) + seq!['-'] + h.subrange(8, 12) + seq!['-'] + h.subrange(12, 16) + seq!['-']
        + l.subrange(0, 4) + seq!['-'] + l.subrange(4, 16)
}

/// Appends the hyphenated text of an identifier to `buf`.
pub fn append_uuid(buf: &mut Vec<char>, id: MsgId)
    ensures
        final(buf)@ == old(buf)@ + uuid_str(id),
{
    proof {
        lemma_pow16_16();
        lemma_hex_fixed_props(id.hi as nat, 16);
        lemma_hex_fixed_props(id.lo as nat, 16);
    }
    let mut h: Vec<char> = Vec::new();
    append_hex_u64(&mut h, id.hi, 16);
    let mut l: Vec<char> = Vec::new();
    append_hex_u64(&mut l, id.lo, 16);
    let mut part = copy_range(&h, 0, 8);
    buf.append(&mut part);
    buf.push('-');
    let mut part = copy_range(&h, 8, 12);
    buf.append(&mut part);
    buf.push('-');
    let mut part = copy_range(&h, 12, 16);
    buf.append(&mut part);
    buf.push('-');
    let mut part = copy_range(&l, 0, 4);
    buf.append(&mut part);
    buf.push('-');
    let mut part = copy_range(&l, 4, 16);
    buf.append(&mut part);
    proof {
        assert(buf@ =~= old(buf)@ + uuid_str(id));
    }
}

/// The reader's result on a hyphenated identifier at `i`.
pub open spec fn parse_uuid_at(s: Seq<char>, i: int) -> Option<(MsgId, int)> {
    if 0 <= i && i + 36 <= s.len() && s[i + 8] == '-' && s[i + 13] == '-' && s[i + 18] == '-' && s[i
        + 23] == '-' {
        let h = s.subrange(i, i + 8) + s.subrange(i + 9, i + 13) + s.subrange(i + 14, i + 18);
        let l = s.subrange(i + 19, i + 23) + s.subrange(i + 24, i + 36);
        if all_hex(h) && all_hex(l) {
            Some((MsgId { hi: hex_val(h) as u64, lo: hex_val(l) as u64 }, i + 36))
        } else {
            None
        }
    } else {
        None
    }
}

/// Reads a hyphenated identifier: the exec form of [`parse_uuid_at`].
pub fn parse_uuid_exec(v: &Vec<char>, i: usize) -> (r: Option<(MsgId, usize)>)
    requires
        i <= v@.len(),
    ensures
        (r is Some) == (parse_uuid_at(v@, i as int) is Some),
        r matches Some((id, j)) ==> parse_uuid_at(v@, i as int) == Some((id, j as int)),
{
    let n = v.len();
    if n - i < 36 {
        return None;
    }
    if !(v[i + 8] == '-' && v[i + 13] == '-' && v[i + 18] == '-' && v[i + 23] == '-') {
        return None;
    }
    let ghost h = v@.subrange(i as int, i + 8) + v@.subrange(i + 9 as int, i + 13) + v@.subrange(
        i + 14 as int,
        i + 18,
    );
    let ghost l = v@.subrange(i + 19 as int, i + 23) + v@.subrange(i + 24 as int, i + 36);
    let mut hchars = copy_range(v, i, i + 8);
    let mut t = copy_range(v, i + 9, i + 13);
    hchars.append(&mut t);
    let mut t = copy_range(v, i + 14, i + 18);
    hchars.append(&mut t);
    let mut lchars = copy_range(v, i + 19, i + 23);
    let mut t = copy_range(v, i + 24, i + 36);
    lchars.append(&mut t);
    proof {
        assert(hchars@ =~= h);
        assert(lchars@ =~= l);
        assert(hchars@.subrange(0, 16) =~= h);
        assert(lchars@.subrange(0, 16) =~= l);
    }
    let hv = parse_hex16(&hchars, 0);
    let lv = parse_hex16(&lchars, 0);
    match (hv, lv) {
        (Some(a), Some(b)) => Some((MsgId { hi: a, lo: b }, i + 36)),
        _ => None,
    }
}

/// A rendered identifier reads back to the identifier it came from.
pub proof fn lemma_parse_uuid_of(s: Seq<char>, i: int, id: MsgId)
    requires
        0 <= i,
        i + 36 <= s.len(),
        s.subrange(i, i + 36) == uuid_str(id),
    ensures
        parse_uuid_at(s, i) == Some((id, i + 36)),
{
    lemma_pow16_16();
    lemma_hex_fixed_props(id.hi as nat, 16);
    lemma_hex_fixed_props(id.lo as nat, 16);
    let hf = hex_fixed(id.hi as nat, 16);
    let lf = hex_fixed(id.lo as nat, 16);
    let u = uuid_str(id);
    let a = hf.subrange(0, 8);
    let b = hf.subrange(8, 12);
    let c = hf.subrange(12, 16);
    let d = lf.subrange(0, 4);
    let e = lf.subrange(4, 16);
    let hy = seq!['-'];
    let p1 = a + hy;
    let p2 = p1 + b;
    let p3 = p2 + hy;
    let p4 = p3 + c;
    let p5 = p4 + hy;
    let p6 = p5 + d;
    let p7 = p6 + hy;
    assert(u == p7 + e);
    assert(p1.len() == 9 && p2.len() == 13 && p3.len() == 14 && p4.len() == 18 && p5.len() == 19
        && p6.len() == 23 && p7.len() == 24 && u.len() == 36);
    assert(forall|j: int| 0 <= j < 36 ==> s[i + j] == #[trigger] u[j]);
    assert(u[8] == '-' && u[13] == '-' && u[18] == '-' && u[23] == '-');
    let h = s.subrange(i, i + 8) + s.subrange(i + 9, i + 13) + s.subrange(i + 14, i + 18);
    let l = s.subrange(i + 19, i + 23) + s.subrange(i + 24, i + 36);
    let hab = s.subrange(i, i + 8) + s.subrange(i + 9, i + 13);
    let lab = s.subrange(i + 19, i + 23);
    assert forall|j: int| 0 <= j < 16 implies h[j] == hf[j] by {
        assert(h == hab + s.subrange(i + 14, i + 18));
        if j < 8 {
            assert(h[j] == hab[j]);
            assert(hab[j] == s.subrange(i, i + 8)[j]);
            assert(s.subrange(i, i + 8)[j] == s[i + j]);
            assert(s[i + j] == u[j]);
            assert(u[j] == p7[j]);
            assert(p7[j] == p6[j]);
            assert(p6[j] == p5[j]);
            assert(p5[j] == p4[j]);
            assert(p4[j] == p3[j]);
            assert(p3[j] == p2[j]);
            assert(p2[j] == p1[j]);
            assert(p1[j] == a[j]);
            assert(a[j] == hf[j]);
        } else if j < 12 {
            let m = j + 1;
            assert(h[j] == hab[j]);
            assert(hab[j] == s.subrange(i + 9, i + 13)[j - 8]);
            assert(s.subrange(i + 9, i + 13)[j - 8] == s[i + m]);
            assert(s[i + m] == u[m]);
            assert(u[m] == p7[m]);
            assert(p7[m] == p6[m]);
            assert(p6[m] == p5[m]);
            assert(p5[m] == p4[m]);
            assert(p4[m] == p3[m]);
            assert(p3[m] == p2[m]);
            assert(p2[m] == b[m - 9]);
            assert(b[m - 9] == hf[j]);
        } else {
            let m = j + 2;
            assert(h[j] == s.subrange(i + 14, i + 18)[j - 12]);
            assert(s.subrange(i + 14, i + 18)[j - 12] == s[i + m]);
            assert(s[i + m] == u[m]);
            assert(u[m] == p7[m]);
            assert(p7[m] == p6[m]);
            assert(p6[m] == p5[m]);
            assert(p5[m] == p4[m]);
            assert(p4[m] == c[m - 14]);
            assert(c[m - 14] == hf[j]);
        }
    }
    assert(h =~= hf);
    assert forall|j: int| 0 <= j < 16 implies l[j] == lf[j] by {
        assert(l == lab + s.subrange(i + 24, i + 36));
        if j < 4 {
            let m = j + 19;
            assert(l[j] == lab[j]);
            assert(lab[j] == s[i + m]);
            assert(s[i + m] == u[m]);
            assert(u[m] == p7[m]);
            assert(p7[m] == p6[m]);
            assert(p6[m] == d[m - 19]);
            assert(d[m - 19] == lf[j]);
        } else {
            let m = j + 20;
            assert(l[j] == s.subrange(i + 24, i + 36)[j - 4]);
            assert(s.subrange(i + 24, i + 36)[j - 4] == s[i + m]);
            assert(s[i + m] == u[m]);
            assert(u[m] == e[m - 24]);
            assert(e[m - 24] == lf[j]);
        }
    }
    assert(l =~= lf);
    assert(hex_val(h) == id.hi as nat);
    assert(hex_val(l) == id.lo as nat);
}

/// Whether the text at `i` begins with `lit`, and the index just past it.
pub open spec fn lit_at(s: Seq<char>, i: int, lit: Seq<char>) -> Option<int> {
    if starts_with_at(s, i, lit) {
        Some(i + lit.len())
    } else {
        None
    }
}

/// Reads an expected literal: the exec form of [`lit_at`].
pub fn expect_lit(v: &Vec<char>, i: usize, lit: &str) -> (r: Option<usize>)
    requires
        i <= v@.len(),
    ensures
        (r is Some) == (lit_at(v@, i as int, lit@) is Some),
        r matches Some(j) ==> lit_at(v@, i as int, lit@) == Some(j as int) && i <= j <= v@.len(),
{
    let n = v.len();
    let pat = str_to_chars(lit);
    if starts_with_at_exec(v, i, &pat) {
        proof {
            assert(i + pat@.len() <= n);
        }
        Some(i + pat.len())
    } else {
        None
    }
}

/// The number of decimal digits at `i`.
pub open spec fn digit_run(s: Seq<char>, i: int) -> nat
    decreases s.len() - i when 0 <= i <= s.len()
{
    if i >= s.len() {
        0
    } else if is_digit(s[i]) {
        (1 + digit_run(s, i + 1)) as nat
    } else {
        0
    }
}

/// A scan that stops at the first non-digit finds the digit run.
proof fn lemma_digit_run_of(s: Seq<char>, i: int, j: int)
    requires
        0 <= i <= j <= s.len(),
        forall|m: int| i <= m < j ==> is_digit(s[m]),
        j < s.len() ==> !is_digit(s[j]),
    ensures
        digit_run(s, i) == j - i,
    decreases j - i,
{
    if i < j {
        lemma_digit_run_of(s, i + 1, j);
    }
}

/// The reader's result on a decimal byte at `i`: the digit run's value if it
/// fits in a byte, and the index just past the run.
pub open spec fn parse_u8_at(s: Seq<char>, i: int) -> Option<(u8, int)> {
    let k = digit_run(s, i) as int;
    match u8_dec_spec(s.subrange(i, i + k)) {
        Some(n) => Some((n, i + k)),
        None => None,
    }
}

/// Reads a decimal byte: the exec form of [`parse_u8_at`].
pub fn parse_u8_exec(v: &Vec<char>, i: usize) -> (r: Option<(u8, usize)>)
    requires
        i <= v@.len(),
    ensures
        (r is Some) == (parse_u8_at(v@, i as int) is Some),
        r matches Some((n, j)) ==> parse_u8_at(v@, i as int) == Some((n, j as int)) && i <= j
            <= v@.len(),
{
    let n = v.len();
    let mut j: usize = i;
    while j < n && digit_char(v[j])
        invariant
            i <= j <= n == v@.len(),
            forall|m: int| i <= m < j ==> is_digit(v@[m]),
        decreases n - j,
    {
        j = j + 1;
    }
    proof {
        lemma_digit_run_of(v@, i as int, j as int);
    }
    match parse_u8_dec(v, i, j) {
        Some(val) => Some((val, j)),
        None => None,
    }
}

/// The decimal numeral of `n` reads back to `n` when a non-digit follows.
pub proof fn lemma_parse_u8_of(s: Seq<char>, i: int, n: u8)
    requires
        0 <= i,
        i + dec_str(n as nat).len() <= s.len(),
        s.subrange(i, i + dec_str(n as nat).len()) == dec_str(n as nat),
        i + dec_str(n as nat).len() < s.len() ==> !is_digit(s[i + dec_str(n as nat).len()]),
    ensures
        parse_u8_at(s, i) == Some((n, i + dec_str(n as nat).len())),
{
    let d = dec_str(n as nat);
    lemma_dec_str_digits(n as nat);
    assert(forall|j: int| 0 <= j < d.len() ==> s[i + j] == #[trigger] d[j]);
    assert forall|m: int| i <= m < i + d.len() implies is_digit(s[m]) by {
        assert(s[m] == d[m - i]);
        assert(is_digit(d[m - i]));
    }
    lemma_digit_run_of(s, i, i + d.len());
    assert(s.subrange(i, i + d.len()) == d);
    lemma_dec_val_of_dec_str(n as nat);
    assert(u8_dec_spec(d) == Some(n)) by {
        assert(d[0] != '+');
        assert(all_digits(d));
    }
}

/// A decimal numeral consists of digits and is never empty.
pub proof fn lemma_dec_str_digits(n: nat)
    ensures
        dec_str(n).len() >= 1,
        all_digits(dec_str(n)),
        is_digit(dec_str(n)[0]),
        dec_str(n)[0] != '+',
    decreases n,
{
    if n < 10 {
    } else {
        lemma_dec_str_digits(n / 10);
        let d = dec_str(n);
        let p = dec_str(n / 10);
        assert(d == p.push(digit_of(n % 10)));
        assert(forall|j: int| 0 <= j < d.len() ==> is_digit(#[trigger] d[j])) by {
            assert(forall|j: int| 0 <= j < p.len() ==> d[j] == #[trigger] p[j]);
            assert(d[d.len() - 1] == digit_of(n % 10));
        }
        assert(d[0] == p[0]);
    }
}

/// The value of a decimal numeral is the number it renders.
pub proof fn lemma_dec_val_of_dec_str(n: nat)
    ensures
        dec_val(dec_str(n)) == n,
    decreases n,
{
    if n < 10 {
        let d = dec_str(n);
        assert(d.drop_last() =~= Seq::<char>::empty());
        assert(dec_val(Seq::<char>::empty()) == 0);
    } else {
        lemma_dec_val_of_dec_str(n / 10);
        let d = dec_str(n);
        let p = dec_str(n / 10);
        assert(d == p.push(digit_of(n % 10)));
        assert(d.drop_last() =~= p);
        assert(d.last() == digit_of(n % 10));
        assert(digit_val(digit_of(n % 10)) == n % 10);
    }
}

/// The number of characters at `i` before the next double quote.
pub open spec fn quote_run(s: Seq<char>, i: int) -> nat
    decreases s.len() - i when 0 <= i <= s.len()
{
    if i >= s.len() {
        0
    } else if s[i] == '"' {
        0
    } else {
        (1 + quote_run(s, i + 1)) as nat
    }
}

/// A scan that stops at the first double quote finds the run.
proof fn lemma_quote_run_of(s: Seq<char>, i: int, j: int)
    requires
        0 <= i <= j <= s.len(),
        forall|m: int| i <= m < j ==> s[m] != '"',
        j < s.len() ==> s[j] == '"',
    ensures
        quote_run(s, i) == j - i,
    decreases j - i,
{
    if i < j {
        lemma_quote_run_of(s, i + 1, j);
    }
}

/// The role a quoted name denotes on the wire.
pub open spec fn role_of_name(name: Seq<char>) -> Option<AgentRole> {
    if name == "manager"@ {
        Some(AgentRole::Manager)
    } else if name == "architect"@ {
        Some(AgentRole::Architect)
    } else if name == "developer"@ {
        Some(AgentRole::Developer)
    } else if name == "scorer"@ {
        Some(AgentRole::Scorer)
    } else {
        None
    }
}

/// The kind a quoted name denotes on the wire.
pub open spec fn kind_of_name(name: Seq<char>) -> Option<MessageKind> {
    if name == "task_assignment"@ {
        Some(MessageKind::TaskAssignment)
    } else if name == "task_complete"@ {
        Some(MessageKind::TaskComplete)
    } else if name == "task_give_up"@ {
        Some(MessageKind::TaskGiveUp)
    } else if name == "interrupt"@ {
        Some(MessageKind::Interrupt)
    } else if name == "architect_review"@ {
        Some(MessageKind::ArchitectReview)
    } else if name == "info"@ {
        Some(MessageKind::Info)
    } else if name == "evaluation"@ {
        Some(MessageKind::Evaluation)
    } else if name == "observation"@ {
        Some(MessageKind::Observation)
    } else {
        None
    }
}

/// The reader's result on a quoted role name at `i`: the run up to the next
/// quote names the role, and the quote is consumed.
pub open spec fn parse_role_at(s: Seq<char>, i: int) -> Option<(AgentRole, int)> {
    if 0 <= i <= s.len() {
        let q = quote_run(s, i) as int;
        if i + q < s.len() {
            match role_of_name(s.subrange(i, i + q)) {
                Some(role) => Some((role, i + q + 1)),
                None => None,
            }
        } else {
            None
        }
    } else {
        None
    }
}

/// The reader's result on a quoted kind name at `i`.
pub open spec fn parse_kind_at(s: Seq<char>, i: int) -> Option<(MessageKind, int)> {
    if 0 <= i <= s.len() {
        let q = quote_run(s, i) as int;
        if i + q < s.len() {
            match kind_of_name(s.subrange(i, i + q)) {
                Some(kind) => Some((kind, i + q + 1)),
                None => None,
            }
        } else {
            None
        }
    } else {
        None
    }
}

/// Finds the end of the quote run at `i`.
fn scan_quote(v: &Vec<char>, i: usize) -> (j: usize)
    requires
        i <= v@.len(),
    ensures
        i <= j <= v@.len(),
        j - i == quote_run(v@, i as int),
        j < v@.len() ==> v@[j as int] == '"',
    decreases v@.len() - i,
{
    let n = v.len();
    let mut j: usize = i;
    while j < n && v[j] != '"'
        invariant
            i <= j <= n == v@.len(),
            forall|m: int| i <= m < j ==> v@[m] != '"',
        decreases n - j,
    {
        j = j + 1;
    }
    proof {
        lemma_quote_run_of(v@, i as int, j as int);
    }
    j
}

/// Reads a quoted role name: the exec form of [`parse_role_at`].
pub fn parse_role_exec(v: &Vec<char>, i: usize) -> (r: Option<(AgentRole, usize)>)
    requires
        i <= v@.len(),
    ensures
        (r is Some) == (parse_role_at(v@, i as int) is Some),
        r matches Some((role, j)) ==> parse_role_at(v@, i as int) == Some((role, j as int)) && i
            < j <= v@.len(),
{
    let j = scan_quote(v, i);
    if j >= v.len() {
        return None;
    }
    let name = copy_range(v, i, j);
    let role = if chars_eq(&name, &str_to_chars("manager")) {
        Some(AgentRole::Manager)
    } else if chars_eq(&name, &str_to_chars("architect")) {
        Some(AgentRole::Architect)
    } else if chars_eq(&name, &str_to_chars("developer")) {
        Some(AgentRole::Developer)
    } else if chars_eq(&name, &str_to_chars("scorer")) {
        Some(AgentRole::Scorer)
    } else {
        None
    };
    match role {
        Some(role) => Some((role, j + 1)),
        None => None,
    }
}

/// Reads a quoted kind name: the exec form of [`parse_kind_at`].
pub fn parse_kind_exec(v: &Vec<char>, i: usize) -> (r: Option<(MessageKind, usize)>)
    requires
        i <= v@.len(),
    ensures
        (r is Some) == (parse_kind_at(v@, i as int) is Some),
        r matches Some((kind, j)) ==> parse_kind_at(v@, i as int) == Some((kind, j as int)) && i
            < j <= v@.len(),
{
    let j = scan_quote(v, i);
    if j >= v.len() {
        return None;
    }
    let name = copy_range(v, i, j);
    let kind = if chars_eq(&name, &str_to_chars("task_assignment")) {
        Some(MessageKind::TaskAssignment)
    } else if chars_eq(&name, &str_to_chars("task_complete")) {
        Some(MessageKind::TaskComplete)
    } else if chars_eq(&name, &str_to_chars("task_give_up")) {
        Some(MessageKind::TaskGiveUp)
    } else if chars_eq(&name, &str_to_chars("interrupt")) {
        Some(MessageKind::Interrupt)
    } else if chars_eq(&name, &str_to_chars("architect_review")) {
        Some(MessageKind::ArchitectReview)
    } else if chars_eq(&name, &str_to_chars("info")) {
        Some(MessageKind::Info)
    } else if chars_eq(&name, &str_to_chars("evaluation")) {
        Some(MessageKind::Evaluation)
    } else if chars_eq(&name, &str_to_chars("observation")) {
        Some(MessageKind::Observation)
    } else {
        None
    };
    match kind {
        Some(kind) => Some((kind, j + 1)),
        None => None,
    }
}

/// No role name contains a double quote; needed so the quote scan stops
/// exactly at the closing quote.
proof fn lemma_role_name_quote_free(role: AgentRole)
    ensures
        forall|j: int| 0 <= j < role_name(role).len() ==> #[trigger] role_name(role)[j] != '"',
        role_name(role).len() >= 1,
{
    reveal_strlit("manager");
    reveal_strlit("architect");
    reveal_strlit("developer");
    reveal_strlit("scorer");
    match role {
        AgentRole::Manager => {
            assert("manager"@ =~= seq!['m', 'a', 'n', 'a', 'g', 'e', 'r']);
        },
        AgentRole::Architect => {
            assert("architect"@ =~= seq!['a', 'r', 'c', 'h', 'i', 't', 'e', 'c', 't']);
        },
        AgentRole::Developer => {
            assert("developer"@ =~= seq!['d', 'e', 'v', 'e', 'l', 'o', 'p', 'e', 'r']);
        },
        AgentRole::Scorer => {
            assert("scorer"@ =~= seq!['s', 'c', 'o', 'r', 'e', 'r']);
        },
    }
}

/// No kind name contains a double quote.
proof fn lemma_kind_name_quote_free(kind: MessageKind)
    ensures
        forall|j: int| 0 <= j < kind_name(kind).len() ==> #[trigger] kind_name(kind)[j] != '"',
        kind_name(kind).len() >= 1,
{
    match kind {
        MessageKind::TaskAssignment => {
            reveal_strlit("task_assignment");
            assert("task_assignment"@ =~= seq!['t', 'a', 's', 'k', '_', 'a', 's', 's', 'i', 'g',
                'n', 'm', 'e', 'n', 't']);
        },
        MessageKind::TaskComplete => {
            reveal_strlit("task_complete");
            assert("task_complete"@ =~= seq!['t', 'a', 's', 'k', '_', 'c', 'o', 'm', 'p', 'l',
                'e', 't', 'e']);
        },
        MessageKind::TaskGiveUp => {
            reveal_strlit("task_give_up");
            assert("task_give_up"@ =~= seq!['t', 'a', 's', 'k', '_', 'g', 'i', 'v', 'e', '_', 'u',
                'p']);
        },
        MessageKind::Interrupt => {
            reveal_strlit("interrupt");
            assert("interrupt"@ =~= seq!['i', 'n', 't', 'e', 'r', 'r', 'u', 'p', 't']);
        },
        MessageKind::ArchitectReview => {
            reveal_strlit("architect_review");
            assert("architect_review"@ =~= seq!['a', 'r', 'c', 'h', 'i', 't', 'e', 'c', 't', '_',
                'r', 'e', 'v', 'i', 'e', 'w']);
        },
        MessageKind::Info => {
            reveal_strlit("info");
            assert("info"@ =~= seq!['i', 'n', 'f', 'o']);
        },
        MessageKind::Evaluation => {
            reveal_strlit("evaluation");
            assert("evaluation"@ =~= seq!['e', 'v', 'a', 'l', 'u', 'a', 't', 'i', 'o', 'n']);
        },
        MessageKind::Observation => {
            reveal_strlit("observation");
            assert("observation"@ =~= seq!['o', 'b', 's', 'e', 'r', 'v', 'a', 't', 'i', 'o', 'n']);
        },
    }
}

/// A rendered role name, followed by its closing quote, reads back to the
/// role.
proof fn lemma_parse_role_of(s: Seq<char>, i: int, role: AgentRole)
    requires
        0 <= i,
        i + role_name(role).len() + 1 <= s.len(),
        s.subrange(i, i + role_name(role).len()) == role_name(role),
        s[i + role_name(role).len()] == '"',
    ensures
        parse_role_at(s, i) == Some((role, i + role_name(role).len() + 1)),
{
    let name = role_name(role);
    lemma_role_name_quote_free(role);
    assert(forall|j: int| 0 <= j < name.len() ==> s[i + j] == #[trigger] name[j]);
    assert forall|m: int| i <= m < i + name.len() implies s[m] != '"' by {
        assert(s[m] == name[m - i]);
    }
    lemma_quote_run_of(s, i, i + name.len());
    reveal_strlit("manager");
    reveal_strlit("architect");
    reveal_strlit("developer");
    reveal_strlit("scorer");
    assert(s.subrange(i, i + name.len()) == name);
    match role {
        AgentRole::Manager => {},
        AgentRole::Architect => {},
        AgentRole::Developer => {
            assert("developer"@[0] != "architect"@[0]);
        },
        AgentRole::Scorer => {},
    }
}

/// A rendered kind name, followed by its closing quote, reads back to the
/// kind.
proof fn lemma_parse_kind_of(s: Seq<char>, i: int, kind: MessageKind)
    requires
        0 <= i,
        i + kind_name(kind).len() + 1 <= s.len(),
        s.subrange(i, i + kind_name(kind).len()) == kind_name(kind),
        s[i + kind_name(kind).len()] == '"',
    ensures
        parse_kind_at(s, i) == Some((kind, i + kind_name(kind).len() + 1)),
{
    let name = kind_name(kind);
    lemma_kind_name_quote_free(kind);
    assert(forall|j: int| 0 <= j < name.len() ==> s[i + j] == #[trigger] name[j]);
    assert forall|m: int| i <= m < i + name.len() implies s[m] != '"' by {
        assert(s[m] == name[m - i]);
    }
    lemma_quote_run_of(s, i, i + name.len());
    reveal_strlit("task_assignment");
    reveal_strlit("task_complete");
    reveal_strlit("task_give_up");
    reveal_strlit("interrupt");
    reveal_strlit("architect_review");
    reveal_strlit("info");
    reveal_strlit("evaluation");
    reveal_strlit("observation");
    assert(s.subrange(i, i + name.len()) == name);
}

/// The canonical JSON object of an agent identity.
pub open spec fn agent_json(a: AgentId) -> Seq<char> {
    "{\"role\":\""@ + role_name(a.role) + "\",\"index\":"@ + dec_str(a.index as nat) + "}"@
}

/// Appends the identity object to `buf`.
pub fn append_agent(buf: &mut Vec<char>, a: &AgentId)
    ensures
        final(buf)@ == old(buf)@ + agent_json(*a),
{
    let mut part = str_to_chars("{\"role\":\"");
    buf.append(&mut part);
    let mut part = str_to_chars(a.role.as_str());
    buf.append(&mut part);
    let mut part = str_to_chars("\",\"index\":");
    buf.append(&mut part);
    append_dec_u64(buf, a.index as u64);
    let mut part = str_to_chars("}");
    buf.append(&mut part);
    proof {
        assert(buf@ =~= old(buf)@ + agent_json(*a));
    }
}

/// The reader's result on an identity object at `i`.
pub open spec fn parse_agent_at(s: Seq<char>, i: int) -> Option<(AgentId, int)> {
    match lit_at(s, i, "{\"role\":\""@) {
        None => None,
        Some(j1) => match parse_role_at(s, j1) {
            None => None,
            Some((role, j2)) => match lit_at(s, j2, ",\"index\":"@) {
                None => None,
                Some(j3) => match parse_u8_at(s, j3) {
                    None => None,
                    Some((index, j4)) => match lit_at(s, j4, "}"@) {
                        None => None,
                        Some(j5) => Some((AgentId { role, index }, j5)),
                    },
                },
            },
        },
    }
}

/// Reads an identity object: the exec form of [`parse_agent_at`].
pub fn parse_agent_exec(v: &Vec<char>, i: usize) -> (r: Option<(AgentId, usize)>)
    requires
        i <= v@.len(),
    ensures
        (r is Some) == (parse_agent_at(v@, i as int) is Some),
        r matches Some((a, j)) ==> parse_agent_at(v@, i as int) == Some((a, j as int)) && i <= j
            <= v@.len(),
{
    match expect_lit(v, i, "{\"role\":\"") {
        None => None,
        Some(j1) => match parse_role_exec(v, j1) {
            None => None,
            Some((role, j2)) => match expect_lit(v, j2, ",\"index\":") {
                None => None,
                Some(j3) => match parse_u8_exec(v, j3) {
                    None => None,
                    Some((index, j4)) => match expect_lit(v, j4, "}") {
                        None => None,
                        Some(j5) => Some((AgentId { role, index }, j5)),
                    },
                },
            },
        },
    }
}

/// A rendered identity object reads back to the identity it came from.
proof fn lemma_parse_agent_of(s: Seq<char>, i: int, a: AgentId)
    requires
        0 <= i,
        i + agent_json(a).len() <= s.len(),
        s.subrange(i, i + agent_json(a).len()) == agent_json(a),
    ensures
        parse_agent_at(s, i) == Some((a, i + agent_json(a).len())),
{
    let g = agent_json(a);
    let q0 = "{\"role\":\""@;
    let q1 = role_name(a.role);
    let q2 = "\",\"index\":"@;
    let q3 = dec_str(a.index as nat);
    let q4 = "}"@;
    let p1 = q0 + q1;
    let p2 = p1 + q2;
    let p3 = p2 + q3;
    assert(g == p3 + q4);
    reveal_strlit("{\"role\":\"");
    reveal_strlit("\",\"index\":");
    reveal_strlit(",\"index\":");
    reveal_strlit("}");
    reveal_strlit("\"");
    assert(forall|j: int| 0 <= j < g.len() ==> s[i + j] == #[trigger] g[j]);
    let i1 = i + q0.len();
    let i2 = i1 + q1.len();
    let i3 = i2 + q2.len();
    let i4 = i3 + q3.len();
    let i5 = i4 + 1;
    assert(lit_at(s, i, q0) == Some(i1)) by {
        assert forall|j: int| 0 <= j < q0.len() implies s.subrange(i, i + q0.len())[j] == q0[j] by {
            assert(s.subrange(i, i + q0.len())[j] == s[i + j]);
            assert(g[j] == p3[j]);
            assert(p3[j] == p2[j]);
            assert(p2[j] == p1[j]);
            assert(p1[j] == q0[j]);
        }
        assert(s.subrange(i, i + q0.len()) =~= q0);
    }
    assert(s.subrange(i1, i2) =~= q1) by {
        assert forall|j: int| 0 <= j < q1.len() implies s.subrange(i1, i2)[j] == q1[j] by {
            let m = q0.len() + j;
            assert(s.subrange(i1, i2)[j] == s[i + m]);
            assert(g[m] == p3[m]);
            assert(p3[m] == p2[m]);
            assert(p2[m] == p1[m]);
            assert(p1[m] == q1[j]);
        }
    }
    assert(s[i2] == '"') by {
        let m: int = (q0.len() + q1.len()) as int;
        assert(g[m] == p3[m]);
        assert(p3[m] == p2[m]);
        assert(p2[m] == q2[0]);
        assert(q2[0] == '"');
    }
    lemma_parse_role_of(s, i1, a.role);
    assert(lit_at(s, i2 + 1, ",\"index\":"@) == Some(i3)) by {
        assert forall|j: int| 0 <= j < ",\"index\":"@.len() implies s.subrange(
            i2 + 1,
            i3,
        )[j] == ",\"index\":"@[j] by {
            let m = q0.len() + q1.len() + 1 + j;
            assert(",\"index\":"@[j] == q2[j + 1]);
            assert(s.subrange(i2 + 1, i3)[j] == s[i + m]);
            assert(g[m] == p3[m]);
            assert(p3[m] == p2[m]);
            assert(p2[m] == q2[j + 1]);
        }
        assert(",\"index\":"@.len() + 1 == q2.len());
        assert(s.subrange(i2 + 1, i3) =~= ",\"index\":"@);
    }
    assert(s.subrange(i3, i4) =~= q3) by {
        assert forall|j: int| 0 <= j < q3.len() implies s.subrange(i3, i4)[j] == q3[j] by {
            let m = q0.len() + q1.len() + q2.len() + j;
            assert(s.subrange(i3, i4)[j] == s[i + m]);
            assert(g[m] == p3[m]);
            assert(p3[m] == q3[j]);
        }
    }
    assert(s[i4] == '}') by {
        let m: int = (q0.len() + q1.len() + q2.len() + q3.len()) as int;
        assert(g[m] == q4[0]);
        assert(q4[0] == '}');
    }
    lemma_dec_str_digits(a.index as nat);
    lemma_parse_u8_of(s, i3, a.index);
    assert(lit_at(s, i4, "}"@) == Some(i5)) by {
        assert(s.subrange(i4, i4 + 1) =~= "}"@);
    }
    assert(parse_agent_at(s, i) == Some((a, i5)));
    assert(i5 == i + g.len());
}

/// The canonical JSON text of a message: one fixed field order, identifiers
/// hyphenated, the task reference omitted when absent.
pub open spec fn msg_json(m: AgentMessageView) -> Seq<char> {
    "{\"id\":\""@ + uuid_str(m.id) + "\",\"from\":"@ + agent_json(m.from) + ",\"to\":"@
        + agent_json(m.to) + ",\"kind\":\""@ + kind_name(m.kind) + "\",\"content\":\""@ + esc_str(
        m.content,
    ) + (match m.task_id {
        None => "\"}"@,
        Some(t) => "\",\"task_id\":\""@ + uuid_str(t) + "\"}"@,
    })
}

/// Writes the canonical JSON text of a message.
pub fn encode_message(m: &AgentMessage) -> (r: String)
    ensures
        r@ == msg_json(m@),
{
    let mut buf = str_to_chars("{\"id\":\"");
    append_uuid(&mut buf, m.id);
    let mut part = str_to_chars("\",\"from\":");
    buf.append(&mut part);
    append_agent(&mut buf, &m.from);
    let mut part = str_to_chars(",\"to\":");
    buf.append(&mut part);
    append_agent(&mut buf, &m.to);
    let mut part = str_to_chars(",\"kind\":\"");
    buf.append(&mut part);
    let mut part = str_to_chars(m.kind.as_str());
    buf.append(&mut part);
    let mut part = str_to_chars("\",\"content\":\"");
    buf.append(&mut part);
    let content = str_to_chars(m.content.as_str());
    append_escaped(&mut buf, &content);
    match &m.task_id {
        None => {
            let mut part = str_to_chars("\"}");
            buf.append(&mut part);
        },
        Some(t) => {
            let mut part = str_to_chars("\",\"task_id\":\"");
            buf.append(&mut part);
            append_uuid(&mut buf, *t);
            let mut part = str_to_chars("\"}");
            buf.append(&mut part);
        },
    }
    proof {
        assert(buf@ =~= msg_json(m@));
    }
    chars_to_string(&buf)
}

/// The reader's result on a whole message text: the message, provided the
/// text is exactly the canonical form of one.
pub open spec fn decode_spec(s: Seq<char>) -> Option<AgentMessageView> {
    match lit_at(s, 0, "{\"id\":\""@) {
        None => None,
        Some(i1) => match parse_uuid_at(s, i1) {
            None => None,
            Some((id, i2)) => match lit_at(s, i2, "\",\"from\":"@) {
                None => None,
                Some(i3) => match parse_agent_at(s, i3) {
                    None => None,
                    Some((from, i4)) => match lit_at(s, i4, ",\"to\":"@) {
                        None => None,
                        Some(i5) => match parse_agent_at(s, i5) {
                            None => None,
                            Some((to, i6)) => match lit_at(s, i6, ",\"kind\":\""@) {
                                None => None,
                                Some(i7) => match parse_kind_at(s, i7) {
                                    None => None,
                                    Some((kind, i8)) => match lit_at(s, i8, ",\"content\":\""@) {
                                        None => None,
                                        Some(i9) => match unesc_at(s, i9) {
                                            None => None,
                                            Some((content, i10)) => decode_tail_spec(
                                                s,
                                                i10,
                                                id,
                                                from,
                                                to,
                                                kind,
                                                content,
                                            ),
                                        },
                                    },
                                },
                            },
                        },
                    },
                },
            },
        },
    }
}

/// The reader's result on what follows the content: either the closing brace
/// or the optional task reference, and nothing after.
pub open spec fn decode_tail_spec(
    s: Seq<char>,
    i10: int,
    id: MsgId,
    from: AgentId,
    to: AgentId,
    kind: MessageKind,
    content: Seq<char>,
) -> Option<AgentMessageView> {
    match lit_at(s, i10, "}"@) {
        Some(j) => if j == s.len() {
            Some(AgentMessageView { id, from, to, kind, content, task_id: None })
        } else {
            None
        },
        None => match lit_at(s, i10, ",\"task_id\":\""@) {
            None => None,
            Some(i11) => match parse_uuid_at(s, i11) {
                None => None,
                Some((t, i12)) => match lit_at(s, i12, "\"}"@) {
                    Some(j) => if j == s.len() {
                        Some(AgentMessageView { id, from, to, kind, content, task_id: Some(t) })
                    } else {
                        None
                    },
                    None => None,
                },
            },
        },
    }
}

/// Reads a whole message text: the exec form of [`decode_spec`].
pub fn decode_message(s: &str) -> (r: Option<AgentMessage>)
    ensures
        (r is Some) == (decode_spec(s@) is Some),
        r matches Some(m) ==> decode_spec(s@) == Some(m@),
{
    let v = str_to_chars(s);
    let i1 = match expect_lit(&v, 0, "{\"id\":\"") {
        Some(j) => j,
        None => {
            return None;
        },
    };
    let (id, i2) = match parse_uuid_exec(&v, i1) {
        Some(x) => x,
        None => {
            return None;
        },
    };
    let i3 = match expect_lit(&v, i2, "\",\"from\":") {
        Some(j) => j,
        None => {
            return None;
        },
    };
    let (from, i4) = match parse_agent_exec(&v, i3) {
        Some(x) => x,
        None => {
            return None;
        },
    };
    let i5 = match expect_lit(&v, i4, ",\"to\":") {
        Some(j) => j,
        None => {
            return None;
        },
    };
    let (to, i6) = match parse_agent_exec(&v, i5) {
        Some(x) => x,
        None => {
            return None;
        },
    };
    let i7 = match expect_lit(&v, i6, ",\"kind\":\"") {
        Some(j) => j,
        None => {
            return None;
        },
    };
    let (kind, i8) = match parse_kind_exec(&v, i7) {
        Some(x) => x,
        None => {
            return None;
        },
    };
    let i9 = match expect_lit(&v, i8, ",\"content\":\"") {
        Some(j) => j,
        None => {
            return None;
        },
    };
    let (content, i10) = match unesc_exec(&v, i9) {
        Some(x) => x,
        None => {
            return None;
        },
    };
    let content = chars_to_string(&content);
    match expect_lit(&v, i10, "}") {
        Some(j) => {
            if j == v.len() {
                Some(AgentMessage { id, from, to, kind, content, task_id: None })
            } else {
                None
            }
        },
        None => {
            let i11 = match expect_lit(&v, i10, ",\"task_id\":\"") {
                Some(j) => j,
                None => {
                    return None;
                },
            };
            let (t, i12) = match parse_uuid_exec(&v, i11) {
                Some(x) => x,
                None => {
                    return None;
                },
            };
            match expect_lit(&v, i12, "\"}") {
                Some(j) => {
                    if j == v.len() {
                        Some(AgentMessage { id, from, to, kind, content, task_id: Some(t) })
                    } else {
                        None
                    }
                },
                None => None,
            }
        },
    }
}

/// A literal found at `i` in a text known piecewise.
proof fn lemma_lit_at_of(s: Seq<char>, i: int, lit: Seq<char>)
    requires
        0 <= i,
        i + lit.len() <= s.len(),
        forall|j: int| 0 <= j < lit.len() ==> s[i + j] == #[trigger] lit[j],
    ensures
        lit_at(s, i, lit) == Some(i + lit.len()),
{
    assert(s.subrange(i, i + lit.len()) =~= lit);
}

/// Decoding inverts encoding: every message read back from its own canonical
/// text is the message itself, the task reference included, whether absent or
/// present.
/// The length of the canonical text up to and including the quote that
/// closes the content.
pub open spec fn msg_head_len(m: AgentMessageView) -> int {
    ("{\"id\":\""@).len() as int + uuid_str(m.id).len() + ("\",\"from\":"@).len() + agent_json(
        m.from,
    ).len() + (",\"to\":"@).len() + agent_json(m.to).len() + (",\"kind\":\""@).len()
        + kind_name(m.kind).len() + 1 + (",\"content\":\""@).len() + esc_str(m.content).len() + 1
}

/// The reader works through the head of a canonical text and reaches its
/// tail with every field recovered.
#[verifier::rlimit(100)]
#[verifier::spinoff_prover]
proof fn lemma_decode_encode_head(m: AgentMessageView)
    ensures
        decode_spec(msg_json(m)) == decode_tail_spec(
            msg_json(m),
            msg_head_len(m),
            m.id,
            m.from,
            m.to,
            m.kind,
            m.content,
        ),
{
    let t = msg_json(m);
    let q0 = "{\"id\":\""@;
    let q1 = uuid_str(m.id);
    let q2 = "\",\"from\":"@;
    let q3 = agent_json(m.from);
    let q4 = ",\"to\":"@;
    let q5 = agent_json(m.to);
    let q6 = ",\"kind\":\""@;
    let q7 = kind_name(m.kind);
    let q8 = "\",\"content\":\""@;
    let q9 = esc_str(m.content);
    let q10 = (match m.task_id {
        None => "\"}"@,
        Some(tid) => "\",\"task_id\":\""@ + uuid_str(tid) + "\"}"@,
    });
    let p1 = q0 + q1;
    let p2 = p1 + q2;
    let p3 = p2 + q3;
    let p4 = p3 + q4;
    let p5 = p4 + q5;
    let p6 = p5 + q6;
    let p7 = p6 + q7;
    let p8 = p7 + q8;
    let p9 = p8 + q9;
    assert(t == p9 + q10);
    reveal_strlit("{\"id\":\"");
    reveal_strlit("\",\"from\":");
    reveal_strlit(",\"to\":");
    reveal_strlit(",\"kind\":\"");
    reveal_strlit("\",\"content\":\"");
    reveal_strlit(",\"content\":\"");
    reveal_strlit("\"}");
    reveal_strlit("}");
    reveal_strlit("\",\"task_id\":\"");
    reveal_strlit(",\"task_id\":\"");
    let i1 = q0.len() as int;
    let i2 = i1 + q1.len();
    let i3 = i2 + q2.len();
    let i4 = i3 + q3.len();
    let i5 = i4 + q4.len();
    let i6 = i5 + q5.len();
    let i7 = i6 + q6.len();
    let i8 = i7 + q7.len() + 1;
    let i9 = i8 + (q8.len() - 1);
    let i10 = i9 + q9.len() + 1;
    assert forall|j: int| 0 <= j < i1 implies t[j] == q0[j] by {
        assert(t[j] == p9[j] && p9[j] == p8[j] && p8[j] == p7[j] && p7[j] == p6[j] && p6[j]
            == p5[j] && p5[j] == p4[j] && p4[j] == p3[j] && p3[j] == p2[j] && p2[j] == p1[j]
            && p1[j] == q0[j]);
    }
    lemma_lit_at_of(t, 0, q0);
    assert forall|j: int| 0 <= j < q1.len() implies t[i1 + j] == q1[j] by {
        let x = i1 + j;
        assert(t[x] == p9[x] && p9[x] == p8[x] && p8[x] == p7[x] && p7[x] == p6[x] && p6[x]
            == p5[x] && p5[x] == p4[x] && p4[x] == p3[x] && p3[x] == p2[x] && p2[x] == p1[x]
            && p1[x] == q1[j]);
    }
    assert(t.subrange(i1, i1 + 36) =~= q1) by {
        assert(q1.len() == 36) by {
            lemma_pow16_16();
            lemma_hex_fixed_props(m.id.hi as nat, 16);
            lemma_hex_fixed_props(m.id.lo as nat, 16);
        }
    }
    lemma_parse_uuid_of(t, i1, m.id);
    assert forall|j: int| 0 <= j < q2.len() implies t[i2 + j] == q2[j] by {
        let x = i2 + j;
        assert(t[x] == p9[x] && p9[x] == p8[x] && p8[x] == p7[x] && p7[x] == p6[x] && p6[x]
            == p5[x] && p5[x] == p4[x] && p4[x] == p3[x] && p3[x] == p2[x] && p2[x] == q2[j]);
    }
    lemma_lit_at_of(t, i2, q2);
    assert forall|j: int| 0 <= j < q3.len() implies t[i3 + j] == q3[j] by {
        let x = i3 + j;
        assert(t[x] == p9[x] && p9[x] == p8[x] && p8[x] == p7[x] && p7[x] == p6[x] && p6[x]
            == p5[x] && p5[x] == p4[x] && p4[x] == p3[x] && p3[x] == q3[j]);
    }
    assert(t.subrange(i3, i3 + q3.len()) =~= q3);
    lemma_parse_agent_of(t, i3, m.from);
    assert forall|j: int| 0 <= j < q4.len() implies t[i4 + j] == q4[j] by {
        let x = i4 + j;
        assert(t[x] == p9[x] && p9[x] == p8[x] && p8[x] == p7[x] && p7[x] == p6[x] && p6[x]
            == p5[x] && p5[x] == p4[x] && p4[x] == q4[j]);
    }
    lemma_lit_at_of(t, i4, q4);
    assert forall|j: int| 0 <= j < q5.len() implies t[i5 + j] == q5[j] by {
        let x = i5 + j;
        assert(t[x] == p9[x] && p9[x] == p8[x] && p8[x] == p7[x] && p7[x] == p6[x] && p6[x]
            == p5[x] && p5[x] == q5[j]);
    }
    assert(t.subrange(i5, i5 + q5.len()) =~= q5);
    lemma_parse_agent_of(t, i5, m.to);
    assert forall|j: int| 0 <= j < q6.len() implies t[i6 + j] == q6[j] by {
        let x = i6 + j;
        assert(t[x] == p9[x] && p9[x] == p8[x] && p8[x] == p7[x] && p7[x] == p6[x] && p6[x]
            == q6[j]);
    }
    lemma_lit_at_of(t, i6, q6);
    assert forall|j: int| 0 <= j < q7.len() + 1 implies t[i7 + j] == (q7 + q8)[j] by {
        let x = i7 + j;
        if j < q7.len() {
            assert(t[x] == p9[x] && p9[x] == p8[x] && p8[x] == p7[x] && p7[x] == q7[j]);
            assert((q7 + q8)[j] == q7[j]);
        } else {
            assert(t[x] == p9[x] && p9[x] == p8[x] && p8[x] == q8[0]);
            assert((q7 + q8)[j] == q8[0]);
        }
    }
    assert(t.subrange(i7, i7 + q7.len()) =~= q7) by {
        assert(forall|j: int|
            0 <= j < q7.len() ==> #[trigger] t.subrange(i7, i7 + q7.len())[j] == t[i7 + j] && (q7
                + q8)[j] == q7[j]);
    }
    assert(t[i7 + q7.len()] == q8[0]);
    assert(q8[0] == '"');
    lemma_parse_kind_of(t, i7, m.kind);
    let q8r = ",\"content\":\""@;
    assert forall|j: int| 0 <= j < q8r.len() implies t[i8 + j] == q8r[j] by {
        let x = i8 + j;
        assert(q8r.len() + 1 == q8.len());
        assert(q8r[j] == q8[j + 1]);
        assert(t[x] == p9[x] && p9[x] == p8[x] && p8[x] == q8[j + 1]);
    }
    assert(i9 == i8 + q8r.len());
    lemma_lit_at_of(t, i8, q8r);
    assert forall|j: int| 0 <= j < q9.len() + 1 implies t[i9 + j] == (q9 + q10)[j] by {
        let x = i9 + j;
        if j < q9.len() {
            assert(t[x] == p9[x] && p9[x] == q9[j]);
            assert((q9 + q10)[j] == q9[j]);
        } else {
            assert(t[x] == q10[0]);
            assert((q9 + q10)[j] == q10[0]);
        }
    }
    assert(t.subrange(i9, i9 + q9.len()) =~= q9) by {
        assert(forall|j: int|
            0 <= j < q9.len() ==> #[trigger] t.subrange(i9, i9 + q9.len())[j] == t[i9 + j] && (q9
                + q10)[j] == q9[j]);
    }
    assert(q10[0] == '"') by {
        match m.task_id {
            None => {},
            Some(tid) => {
                assert(q10[0] == "\",\"task_id\":\""@[0]);
            },
        }
    }
    assert(t[i9 + q9.len()] == '"');
    lemma_unesc_inverts_esc(t, i9, m.content);
    assert(i10 == msg_head_len(m));
}

/// The reader finishes a canonical text with no task reference.
#[verifier::rlimit(100)]
#[verifier::spinoff_prover]
proof fn lemma_decode_encode_tail(m: AgentMessageView)
    ensures
        decode_tail_spec(msg_json(m), msg_head_len(m), m.id, m.from, m.to, m.kind, m.content)
            == Some(m),
{
    let t = msg_json(m);
    let q10 = (match m.task_id {
        None => "\"}"@,
        Some(tid) => "\",\"task_id\":\""@ + uuid_str(tid) + "\"}"@,
    });
    let p9 = "{\"id\":\""@ + uuid_str(m.id) + "\",\"from\":"@ + agent_json(m.from) + ",\"to\":"@
        + agent_json(m.to) + ",\"kind\":\""@ + kind_name(m.kind) + "\",\"content\":\""@ + esc_str(
        m.content,
    );
    reveal_strlit("\"}");
    reveal_strlit("}");
    reveal_strlit("\",\"task_id\":\"");
    reveal_strlit(",\"task_id\":\"");
    reveal_strlit("\",\"content\":\"");
    reveal_strlit(",\"content\":\"");
    assert(t == p9 + q10);
    let i10 = msg_head_len(m);
    assert(i10 == p9.len() + 1);
    match m.task_id {
        None => {
            assert(t[i10] == q10[1]);
            assert(q10[1] == '}');
            assert(t.subrange(i10, i10 + 1) =~= "}"@);
            assert(lit_at(t, i10, "}"@) == Some(i10 + 1));
            assert(i10 + 1 == t.len());
        },
        Some(tid) => {
            let qa = "\",\"task_id\":\""@;
            let qb = uuid_str(tid);
            let qc = "\"}"@;
            assert(q10 == qa + qb + qc);
            let r1 = qa + qb;
            assert(q10 == r1 + qc);
            assert forall|j: int| 0 <= j < q10.len() implies t[i10 - 1 + j] == q10[j] by {
                let x = i10 - 1 + j;
                assert(t[x] == q10[j]);
            }
            assert(!(lit_at(t, i10, "}"@) is Some)) by {
                assert(t[i10] == q10[1]);
                assert(q10[1] == r1[1]);
                assert(r1[1] == qa[1]);
                assert(qa[1] == ',');
                if starts_with_at(t, i10, "}"@) {
                    assert(t.subrange(i10, i10 + 1)[0] == t[i10]);
                    assert(t[i10] == '}');
                }
            }
            let qar = ",\"task_id\":\""@;
            let i11 = i10 + qar.len();
            let i12 = i11 + 36;
            assert forall|j: int| 0 <= j < qar.len() implies t[i10 + j] == qar[j] by {
                assert(t[i10 + j] == q10[j + 1]);
                assert(q10[j + 1] == r1[j + 1]);
                assert(r1[j + 1] == qa[j + 1]);
                assert(qa[j + 1] == qar[j]);
            }
            lemma_lit_at_of(t, i10, qar);
            assert(qb.len() == 36) by {
                lemma_pow16_16();
                lemma_hex_fixed_props(tid.hi as nat, 16);
                lemma_hex_fixed_props(tid.lo as nat, 16);
            }
            assert(t.subrange(i11, i11 + 36) =~= qb) by {
                assert(qa.len() == qar.len() + 1);
                assert forall|j: int| 0 <= j < 36 implies t.subrange(i11, i11 + 36)[j] == qb[j] by {
                    assert(t.subrange(i11, i11 + 36)[j] == t[i11 + j]);
                    assert(t[i11 + j] == q10[qa.len() + j]);
                    assert(q10[qa.len() + j] == r1[qa.len() + j]);
                    assert(r1[qa.len() + j] == qb[j]);
                }
            }
            lemma_parse_uuid_of(t, i11, tid);
            assert(t.subrange(i12, i12 + 2) =~= qc) by {
                assert forall|j: int| 0 <= j < 2 implies t.subrange(i12, i12 + 2)[j] == qc[j] by {
                    assert(t.subrange(i12, i12 + 2)[j] == t[i12 + j]);
                    assert(t[i12 + j] == q10[qa.len() + 36 + j]);
                    assert(q10[qa.len() + 36 + j] == qc[j]);
                }
            }
            assert(lit_at(t, i12, qc) == Some(i12 + 2));
            assert(i12 + 2 == t.len());
        },
    }
}

/// Decoding inverts encoding: every message read back from its own canonical
/// text is the message itself, the task reference included, whether absent or
/// present.
pub proof fn lemma_decode_encode(m: AgentMessageView)
    ensures
        decode_spec(msg_json(m)) == Some(m),
{
    lemma_decode_encode_head(m);
    lemma_decode_encode_tail(m);
}

} // verus!
