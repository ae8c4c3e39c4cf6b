//! Parsing the attribute payload: the text between the attribute's
//! parentheses is a comma-separated list of string literals (a trailing
//! comma is allowed, whitespace may stand between tokens), and each
//! literal's value names one required environment variable, in
//! left-to-right order.  A malformed payload is deliberately resolved to
//! the empty list instead of an error: the attribute fails open.
//!
//! The accepted literal syntax is Rust's: cooked strings `"…"` with the
//! escapes `\" \\ \' \n \t \r \0`, `\xNN` (two hex digits, at most 0x7F),
//! `\u{…}` (one to six hex digits, underscores after the first, a Unicode
//! scalar value) and backslash-newline line continuations that skip the
//! following whitespace, with a CRLF pair folded to LF and a bare carriage
//! return rejected; and raw strings `r"…"` with up to 255 `#` on each
//! side and their content taken verbatim.

use vstd::prelude::*;
use vstd::string::StrSliceExecFns;
use crate::strutil::char_from_u32;
use crate::strutil::push_char;

verus! {

/// Lexer state over the payload text.
#[derive(Clone, Copy)]
pub enum LexState {
    /// Before a literal: at the very start, or just after a separating comma.
    ExpectItem,
    /// Inside a cooked literal, after its opening quote.
    InLit,
    /// Inside a cooked literal, just after a backslash.
    InEscape,
    /// After `\x`: expecting the first hex digit.
    HexHi,
    /// After `\x` and one hex digit: expecting the second.
    HexLo { hi: u32 },
    /// After `\u`: expecting the opening brace.
    UniBrace,
    /// Inside `\u{…}`: the value and the count of hex digits read so far.
    UniDigits { val: u32, digits: u8 },
    /// After a backslash-newline continuation: whitespace is being skipped.
    SkipWs,
    /// After a bare carriage return inside a cooked literal: only a line
    /// feed may follow, and the pair stands for one line feed.
    AfterCr,
    /// After `r`, counting the `#` of a raw literal's opening delimiter.
    RawPounds { pounds: u8 },
    /// Inside a raw literal's content.
    RawBody { pounds: u8 },
    /// Inside a raw literal, after a quote: counting closing `#`.
    RawEnd { pounds: u8, seen: u8 },
    /// After a literal's closing delimiter: expecting a comma or the end.
    ExpectSep,
}

/// Whitespace accepted between payload tokens, and skipped by a
/// backslash-newline continuation.
pub open spec fn is_ws(c: char) -> bool {
    c == ' ' || c == '\t' || c == '\n' || c == '\r'
}

/// The character a simple escape sequence `\c` stands for, if `c` is one
/// of the single-character escapes.
pub open spec fn unescape(c: char) -> Option<char> {
    if c == '"' {
        Some('"')
    } else if c == '\\' {
        Some('\\')
    } else if c == '\'' {
        Some('\'')
    } else if c == 'n' {
        Some('\n')
    } else if c == 't' {
        Some('\t')
    } else if c == 'r' {
        Some('\r')
    } else if c == '0' {
        Some('\u{0}')
    } else {
        None
    }
}

/// The value of a hex digit, if `c` is one.
pub open spec fn hex_digit_val(c: char) -> Option<u32> {
    if 48 <= c as u32 && c as u32 <= 57 {
        Some((c as u32 - 48) as u32)
    } else if 97 <= c as u32 && c as u32 <= 102 {
        Some((c as u32 - 87) as u32)
    } else if 65 <= c as u32 && c as u32 <= 70 {
        Some((c as u32 - 55) as u32)
    } else {
        None
    }
}

/// Whether `v` is a Unicode scalar value, i.e. the code point of some
/// character.
pub open spec fn is_scalar_value(v: u32) -> bool {
    v < 0xD800 || (0xDFFF < v && v <= 0x10FFFF)
}

/// 16 to the power `d`, for up to six `\u{…}` digits.
pub open spec fn pow16(d: u8) -> u32 {
    if d == 0 {
        1
    } else if d == 1 {
        0x10
    } else if d == 2 {
        0x100
    } else if d == 3 {
        0x1000
    } else if d == 4 {
        0x10000
    } else if d == 5 {
        0x100000
    } else {
        0x1000000
    }
}

/// A run of `n` pound signs.
pub open spec fn pounds_seq(n: nat) -> Seq<char> {
    Seq::new(n, |i: int| '#')
}

/// Bounds that every state reached from the start of a payload satisfies;
/// they keep the counters of the executable lexer from overflowing.
pub open spec fn st_wf(st: LexState) -> bool {
    match st {
        LexState::HexLo { hi } => hi <= 15,
        LexState::UniDigits { val, digits } => digits <= 6 && val < pow16(digits),
        LexState::RawEnd { pounds, seen } => seen < pounds,
        _ => true,
    }
}

/// The payload grammar, one character per step: `cur` is the value of the
/// literal currently being read, `acc` the values already read in order.
/// `None` means the payload is malformed from this point on.
pub open spec fn lex_from(
    s: Seq<char>,
    st: LexState,
    cur: Seq<char>,
    acc: Seq<Seq<char>>,
) -> Option<Seq<Seq<char>>>
    decreases s.len(),
{
    if s.len() == 0 {
        match st {
            LexState::ExpectItem => Some(acc),
            LexState::ExpectSep => Some(acc),
            _ => None,
        }
    } else {
        let c = s[0];
        let rest = s.drop_first();
        match st {
            LexState::ExpectItem => if is_ws(c) {
                lex_from(rest, LexState::ExpectItem, cur, acc)
            } else if c == '"' {
                lex_from(rest, LexState::InLit, Seq::empty(), acc)
            } else if c == 'r' {
                lex_from(rest, LexState::RawPounds { pounds: 0 }, Seq::empty(), acc)
            } else {
                None
            },
            LexState::InLit => if c == '"' {
                lex_from(rest, LexState::ExpectSep, Seq::empty(), acc.push(cur))
            } else if c == '\\' {
                lex_from(rest, LexState::InEscape, cur, acc)
            } else if c == '\r' {
                lex_from(rest, LexState::AfterCr, cur, acc)
            } else {
                lex_from(rest, LexState::InLit, cur.push(c), acc)
            },
            LexState::InEscape => if c == 'x' {
                lex_from(rest, LexState::HexHi, cur, acc)
            } else if c == 'u' {
                lex_from(rest, LexState::UniBrace, cur, acc)
            } else if c == '\r' || c == '\n' {
                lex_from(rest, LexState::SkipWs, cur, acc)
            } else {
                match unescape(c) {
                    Some(u) => lex_from(rest, LexState::InLit, cur.push(u), acc),
                    None => None,
                }
            },
            LexState::HexHi => match hex_digit_val(c) {
                Some(d) => lex_from(rest, LexState::HexLo { hi: d }, cur, acc),
                None => None,
            },
            LexState::HexLo { hi } => match hex_digit_val(c) {
                Some(d) => if hi * 16 + d > 0x7F {
                    None
                } else {
                    lex_from(rest, LexState::InLit, cur.push(((hi * 16 + d) as u32) as char), acc)
                },
                None => None,
            },
            LexState::UniBrace => if c == '{' {
                lex_from(rest, LexState::UniDigits { val: 0, digits: 0 }, cur, acc)
            } else {
                None
            },
            LexState::UniDigits { val, digits } => match hex_digit_val(c) {
                Some(d) => if digits == 6 {
                    None
                } else {
                    lex_from(
                        rest,
                        LexState::UniDigits {
                            val: (val * 16 + d) as u32,
                            digits: (digits + 1) as u8,
                        },
                        cur,
                        acc,
                    )
                },
                None => if c == '_' && digits > 0 {
                    lex_from(rest, LexState::UniDigits { val, digits }, cur, acc)
                } else if c == '}' && digits > 0 {
                    if is_scalar_value(val) {
                        lex_from(rest, LexState::InLit, cur.push(val as char), acc)
                    } else {
                        None
                    }
                } else {
                    None
                },
            },
            LexState::SkipWs => if is_ws(c) {
                lex_from(rest, LexState::SkipWs, cur, acc)
            } else if c == '"' {
                lex_from(rest, LexState::ExpectSep, Seq::empty(), acc.push(cur))
            } else if c == '\\' {
                lex_from(rest, LexState::InEscape, cur, acc)
            } else {
                lex_from(rest, LexState::InLit, cur.push(c), acc)
            },
            LexState::AfterCr => if c == '\n' {
                lex_from(rest, LexState::InLit, cur.push('\n'), acc)
            } else {
                None
            },
            LexState::RawPounds { pounds } => if c == '#' {
                if pounds == 255 {
                    None
                } else {
                    lex_from(rest, LexState::RawPounds { pounds: (pounds + 1) as u8 }, cur, acc)
                }
            } else if c == '"' {
                lex_from(rest, LexState::RawBody { pounds }, cur, acc)
            } else {
                None
            },
            LexState::RawBody { pounds } => if c == '"' {
                if pounds == 0 {
                    lex_from(rest, LexState::ExpectSep, Seq::empty(), acc.push(cur))
                } else {
                    lex_from(rest, LexState::RawEnd { pounds, seen: 0 }, cur, acc)
                }
            } else {
                lex_from(rest, LexState::RawBody { pounds }, cur.push(c), acc)
            },
            LexState::RawEnd { pounds, seen } => if c == '#' {
                if seen + 1 == pounds {
                    lex_from(rest, LexState::ExpectSep, Seq::empty(), acc.push(cur))
                } else {
                    lex_from(rest, LexState::RawEnd { pounds, seen: (seen + 1) as u8 }, cur, acc)
                }
            } else if c == '"' {
                lex_from(
                    rest,
                    LexState::RawEnd { pounds, seen: 0 },
                    cur + seq!['"'] + pounds_seq(seen as nat),
                    acc,
                )
            } else {
                lex_from(
                    rest,
                    LexState::RawBody { pounds },
                    cur + seq!['"'] + pounds_seq(seen as nat) + seq![c],
                    acc,
                )
            },
            LexState::ExpectSep => if is_ws(c) {
                lex_from(rest, LexState::ExpectSep, cur, acc)
            } else if c == ',' {
                lex_from(rest, LexState::ExpectItem, cur, acc)
            } else {
                None
            },
        }
    }
}

/// The literal values of a well-formed payload, in order; `None` when the
/// payload is malformed.
pub open spec fn payload_vars(s: Seq<char>) -> Option<Seq<Seq<char>>> {
    lex_from(s, LexState::ExpectItem, Seq::empty(), Seq::empty())
}

/// The required-variable list the processor works with: the payload's
/// literal values when it is well formed, and the empty list otherwise.
pub open spec fn parsed_vars(s: Seq<char>) -> Seq<Seq<char>> {
    match payload_vars(s) {
        Some(vs) => vs,
        None => Seq::empty(),
    }
}

/// The value of a hex digit, if `c` is one.
fn hex_val(c: char) -> (r: Option<u32>)
    ensures
        r == hex_digit_val(c),
        r matches Some(d) ==> d <= 15,
{
    let u: u32 = c as u32;
    if 48 <= u && u <= 57 {
        Some(u - 48)
    } else if 97 <= u && u <= 102 {
        Some(u - 87)
    } else if 65 <= u && u <= 70 {
        Some(u - 55)
    } else {
        None
    }
}

/// The fail-open result: no required variables.
fn empty_vars() -> (r: Vec<String>)
    ensures
        r.deep_view() == Seq::<Seq<char>>::empty(),
{
    let r: Vec<String> = Vec::new();
    proof {
        assert(r.deep_view() =~= Seq::<Seq<char>>::empty());
    }
    r
}

/// Parses the attribute payload into the required-variable list.  A
/// malformed payload yields the empty list rather than an error, so a bad
/// attribute gates on nothing instead of failing the build.
pub fn parse_env_vars(payload: &str) -> (r: Vec<String>)
    ensures
        r.deep_view() == parsed_vars(payload@),
{
    let n: usize = payload.unicode_len();
    let mut st = LexState::ExpectItem;
    let mut cur = String::new();
    let mut acc: Vec<String> = Vec::new();
    let mut i: usize = 0;
    proof {
        assert(payload@.skip(0) =~= payload@);
        assert(acc.deep_view() =~= Seq::<Seq<char>>::empty());
    }
    while i < n
        invariant
            n == payload@.len(),
            i <= n,
            st_wf(st),
            lex_from(payload@.skip(i as int), st, cur@, acc.deep_view())
                == payload_vars(payload@),
        decreases n - i,
    {
        let ghost pre = payload@.skip(i as int);
        proof {
            assert(pre[0] == payload@[i as int]);
            assert(pre.drop_first() =~= payload@.skip(i as int + 1));
        }
        let c = payload.get_char(i);
        match st {
            LexState::ExpectItem => {
                if c == ' ' || c == '\t' || c == '\n' || c == '\r' {
                    // stay
                } else if c == '"' {
                    st = LexState::InLit;
                    cur = String::new();
                } else if c == 'r' {
                    st = LexState::RawPounds { pounds: 0 };
                    cur = String::new();
                } else {
                    proof {
                        assert(payload_vars(payload@) is None);
                    }
                    return empty_vars();
                }
            }
            LexState::InLit => {
                if c == '"' {
                    let ghost old_acc = acc.deep_view();
                    let ghost doneview = cur@;
                    let done = cur;
                    cur = String::new();
                    acc.push(done);
                    proof {
                        assert(acc.deep_view() =~= old_acc.push(doneview));
                    }
                    st = LexState::ExpectSep;
                } else if c == '\\' {
                    st = LexState::InEscape;
                } else if c == '\r' {
                    st = LexState::AfterCr;
                } else {
                    push_char(&mut cur, c);
                }
            }
            LexState::InEscape => {
                if c == 'x' {
                    st = LexState::HexHi;
                } else if c == 'u' {
                    st = LexState::UniBrace;
                } else if c == '\r' || c == '\n' {
                    st = LexState::SkipWs;
                } else {
                    let u: char = if c == '"' {
                        '"'
                    } else if c == '\\' {
                        '\\'
                    } else if c == '\'' {
                        '\''
                    } else if c == 'n' {
                        '\n'
                    } else if c == 't' {
                        '\t'
                    } else if c == 'r' {
                        '\r'
                    } else if c == '0' {
                        '\u{0}'
                    } else {
                        proof {
                            assert(payload_vars(payload@) is None);
                        }
                        return empty_vars();
                    };
                    st = LexState::InLit;
                    push_char(&mut cur, u);
                }
            }
            LexState::HexHi => {
                match hex_val(c) {
                    Some(d) => {
                        st = LexState::HexLo { hi: d };
                    }
                    None => {
                        proof {
                            assert(payload_vars(payload@) is None);
                        }
                        return empty_vars();
                    }
                }
            }
            LexState::HexLo { hi } => {
                match hex_val(c) {
                    Some(d) => {
                        let v: u32 = hi * 16 + d;
                        if v > 0x7F {
                            proof {
                                assert(payload_vars(payload@) is None);
                            }
                            return empty_vars();
                        }
                        let u = char_from_u32(v).unwrap();
                        proof {
                            vstd::utf8::char_u32_cast(u, v);
                        }
                        st = LexState::InLit;
                        push_char(&mut cur, u);
                    }
                    None => {
                        proof {
                            assert(payload_vars(payload@) is None);
                        }
                        return empty_vars();
                    }
                }
            }
            LexState::UniBrace => {
                if c == '{' {
                    st = LexState::UniDigits { val: 0, digits: 0 };
                } else {
                    proof {
                        assert(payload_vars(payload@) is None);
                    }
                    return empty_vars();
                }
            }
            LexState::UniDigits { val, digits } => {
                match hex_val(c) {
                    Some(d) => {
                        if digits == 6 {
                            proof {
                                assert(payload_vars(payload@) is None);
                            }
                            return empty_vars();
                        }
                        st = LexState::UniDigits { val: val * 16 + d, digits: digits + 1 };
                    }
                    None => {
                        if c == '_' && digits > 0 {
                            // stay
                        } else if c == '}' && digits > 0 {
                            match char_from_u32(val) {
                                Some(u) => {
                                    proof {
                                        vstd::utf8::char_u32_cast(u, val);
                                    }
                                    st = LexState::InLit;
                                    push_char(&mut cur, u);
                                }
                                None => {
                                    proof {
                                        assert(payload_vars(payload@) is None);
                                    }
                                    return empty_vars();
                                }
                            }
                        } else {
                            proof {
                                assert(payload_vars(payload@) is None);
                            }
                            return empty_vars();
                        }
                    }
                }
            }
            LexState::SkipWs => {
                if c == ' ' || c == '\t' || c == '\n' || c == '\r' {
                    // stay
                } else if c == '"' {
                    let ghost old_acc = acc.deep_view();
                    let ghost doneview = cur@;
                    let done = cur;
                    cur = String::new();
                    acc.push(done);
                    proof {
                        assert(acc.deep_view() =~= old_acc.push(doneview));
                    }
                    st = LexState::ExpectSep;
                } else if c == '\\' {
                    st = LexState::InEscape;
                } else {
                    st = LexState::InLit;
                    push_char(&mut cur, c);
                }
            }
            LexState::AfterCr => {
                if c == '\n' {
                    st = LexState::InLit;
                    push_char(&mut cur, '\n');
                } else {
                    proof {
                        assert(payload_vars(payload@) is None);
                    }
                    return empty_vars();
                }
            }
            LexState::RawPounds { pounds } => {
                if c == '#' {
                    if pounds == 255 {
                        proof {
                            assert(payload_vars(payload@) is None);
                        }
                        return empty_vars();
                    }
                    st = LexState::RawPounds { pounds: pounds + 1 };
                } else if c == '"' {
                    st = LexState::RawBody { pounds };
                } else {
                    proof {
                        assert(payload_vars(payload@) is None);
                    }
                    return empty_vars();
                }
            }
            LexState::RawBody { pounds } => {
                if c == '"' {
                    if pounds == 0 {
                        let ghost old_acc = acc.deep_view();
                        let ghost doneview = cur@;
                        let done = cur;
                        cur = String::new();
                        acc.push(done);
                        proof {
                            assert(acc.deep_view() =~= old_acc.push(doneview));
                        }
                        st = LexState::ExpectSep;
                    } else {
                        st = LexState::RawEnd { pounds, seen: 0 };
                    }
                } else {
                    push_char(&mut cur, c);
                }
            }
            LexState::RawEnd { pounds, seen } => {
                if c == '#' {
                    if seen + 1 == pounds {
                        let ghost old_acc = acc.deep_view();
                        let ghost doneview = cur@;
                        let done = cur;
                        cur = String::new();
                        acc.push(done);
                        proof {
                            assert(acc.deep_view() =~= old_acc.push(doneview));
                        }
                        st = LexState::ExpectSep;
                    } else {
                        st = LexState::RawEnd { pounds, seen: seen + 1 };
                    }
                } else {
                    let ghost base_cur = cur@;
                    push_char(&mut cur, '"');
                    let ghost base = cur@;
                    let mut k: u8 = 0;
                    proof {
                        assert(pounds_seq(0) =~= Seq::<char>::empty());
                        assert(base + pounds_seq(0) =~= base);
                    }
                    while k < seen
                        invariant
                            k <= seen,
                            cur@ == base + pounds_seq(k as nat),
                        decreases seen - k,
                    {
                        proof {
                            assert(pounds_seq((k + 1) as nat)
                                =~= pounds_seq(k as nat).push('#'));
                            assert((base + pounds_seq(k as nat)).push('#')
                                =~= base + pounds_seq((k + 1) as nat));
                        }
                        push_char(&mut cur, '#');
                        k += 1;
                    }
                    proof {
                        assert(cur@ =~= base_cur + seq!['"'] + pounds_seq(seen as nat));
                    }
                    if c == '"' {
                        st = LexState::RawEnd { pounds, seen: 0 };
                    } else {
                        push_char(&mut cur, c);
                        proof {
                            assert(cur@ =~= base_cur + seq!['"'] + pounds_seq(seen as nat)
                                + seq![c]);
                        }
                        st = LexState::RawBody { pounds };
                    }
                }
            }
            LexState::ExpectSep => {
                if c == ' ' || c == '\t' || c == '\n' || c == '\r' {
                    // stay
                } else if c == ',' {
                    st = LexState::ExpectItem;
                } else {
                    proof {
                        assert(payload_vars(payload@) is None);
                    }
                    return empty_vars();
                }
            }
        }
        i += 1;
    }
    proof {
        assert(payload@.skip(n as int) =~= Seq::<char>::empty());
    }
    match st {
        LexState::ExpectItem => acc,
        LexState::ExpectSep => acc,
        _ => {
            proof {
                assert(payload_vars(payload@) is None);
            }
            empty_vars()
        }
    }
}

} // verus!
