//! The configuration text format and its parser.
//!
//! A configuration is one JSON object, in UTF-8:
//! `{ "headers": { "add": { name: value, ... }, "set": { name: value, ... } },
//!    "body": "replacement" }`.
//! Every field is optional; an absent mapping is empty and an absent or empty
//! body requests no rewrite. Mapping values must be strings; a field name
//! given twice at the same level is an error, except inside `add`/`set`,
//! where a repeated header name keeps its first position and takes the last
//! value. Nothing but trailing whitespace may follow the object.
//!
//! The grammar is stated by the `spec` functions below, each reading from a
//! byte position and giving the parsed value with the position after it; the
//! executable parser is proved to return exactly what the grammar denotes.

use vstd::prelude::*;

use crate::bytes::pairs_view;
use crate::config::ConfigModel;
use crate::config::SpecConfig;
use crate::config::keys_unique;
use crate::config::lemma_upsert_keys_unique;
use crate::config::spec_upsert;
use crate::config::upsert;

verus! {

pub const QUOTE: u8 = 34;
pub const BACKSLASH: u8 = 92;
pub const LBRACE: u8 = 123;
pub const RBRACE: u8 = 125;
pub const COLON: u8 = 58;
pub const COMMA: u8 = 44;

/// JSON insignificant whitespace.
pub open spec fn is_ws(b: u8) -> bool {
    b == 32 || b == 9 || b == 10 || b == 13
}

/// The first position at or after `i` holding no whitespace.
pub open spec fn skip_ws(s: Seq<u8>, i: int) -> int
    decreases s.len() - i,
{
    if 0 <= i < s.len() && is_ws(s[i]) {
        skip_ws(s, i + 1)
    } else {
        i
    }
}

/// The value of one hexadecimal digit.
pub open spec fn hex_digit_val(b: u8) -> Option<u32> {
    if 48 <= b <= 57 {
        Some((b - 48) as u32)
    } else if 97 <= b <= 102 {
        Some((b - 87) as u32)
    } else if 65 <= b <= 70 {
        Some((b - 55) as u32)
    } else {
        None
    }
}

/// The value of the four hexadecimal digits at `i`.
pub open spec fn hex4_val(s: Seq<u8>, i: int) -> Option<u32> {
    if 0 <= i && i + 4 <= s.len() && hex_digit_val(s[i]) is Some && hex_digit_val(s[i + 1]) is Some
        && hex_digit_val(s[i + 2]) is Some && hex_digit_val(s[i + 3]) is Some {
        Some(
            (hex_digit_val(s[i]).unwrap() * 4096 + hex_digit_val(s[i + 1]).unwrap() * 256
                + hex_digit_val(s[i + 2]).unwrap() * 16 + hex_digit_val(s[i + 3]).unwrap()) as u32,
        )
    } else {
        None
    }
}

/// The UTF-8 encoding of one code point below 0x110000.
pub open spec fn utf8_encode(cp: u32) -> Seq<u8> {
    if cp < 0x80 {
        seq![cp as u8]
    } else if cp < 0x800 {
        seq![(0xC0 + cp / 0x40) as u8, (0x80 + cp % 0x40) as u8]
    } else if cp < 0x10000 {
        seq![
            (0xE0 + cp / 0x1000) as u8,
            (0x80 + (cp / 0x40) % 0x40) as u8,
            (0x80 + cp % 0x40) as u8,
        ]
    } else {
        seq![
            (0xF0 + cp / 0x40000) as u8,
            (0x80 + (cp / 0x1000) % 0x40) as u8,
            (0x80 + (cp / 0x40) % 0x40) as u8,
            (0x80 + cp % 0x40) as u8,
        ]
    }
}

/// One escape sequence, `i` pointing just after the backslash: the bytes it
/// denotes and the position after it. A lone surrogate is an error; a
/// surrogate pair denotes one supplementary code point.
pub open spec fn parse_escape(s: Seq<u8>, i: int) -> Option<(Seq<u8>, int)> {
    if !(0 <= i < s.len()) {
        None
    } else {
        let c = s[i];
        if c == QUOTE {
            Some((seq![QUOTE], i + 1))
        } else if c == BACKSLASH {
            Some((seq![BACKSLASH], i + 1))
        } else if c == 47 {
            Some((seq![47u8], i + 1))
        } else if c == 98 {
            Some((seq![8u8], i + 1))
        } else if c == 102 {
            Some((seq![12u8], i + 1))
        } else if c == 110 {
            Some((seq![10u8], i + 1))
        } else if c == 114 {
            Some((seq![13u8], i + 1))
        } else if c == 116 {
            Some((seq![9u8], i + 1))
        } else if c == 117 {
            match hex4_val(s, i + 1) {
                Some(cu) => if 0xD800 <= cu < 0xDC00 {
                    if i + 7 <= s.len() && s[i + 5] == BACKSLASH && s[i + 6] == 117 {
                        match hex4_val(s, i + 7) {
                            Some(cu2) => if 0xDC00 <= cu2 < 0xE000 {
                                Some(
                                    (
                                        utf8_encode(
                                            (0x10000 + (cu - 0xD800) * 0x400 + (cu2
                                                - 0xDC00)) as u32,
                                        ),
                                        i + 11,
                                    ),
                                )
                            } else {
                                None
                            },
                            None => None,
                        }
                    } else {
                        None
                    }
                } else if 0xDC00 <= cu < 0xE000 {
                    None
                } else {
                    Some((utf8_encode(cu), i + 5))
                },
                None => None,
            }
        } else {
            None
        }
    }
}

/// The contents of a string from just after its opening quote: the denoted
/// bytes and the position after the closing quote. Unescaped control bytes
/// are errors; other bytes stand for themselves.
pub open spec fn parse_string_body(s: Seq<u8>, i: int) -> Option<(Seq<u8>, int)>
    decreases s.len() - i,
{
    if !(0 <= i < s.len()) {
        None
    } else {
        let c = s[i];
        if c == QUOTE {
            Some((Seq::empty(), i + 1))
        } else if c == BACKSLASH {
            match parse_escape(s, i + 1) {
                Some((b, j)) => if i < j <= s.len() {
                    match parse_string_body(s, j) {
                        Some((rest, k)) => Some((b + rest, k)),
                        None => None,
                    }
                } else {
                    None
                },
                None => None,
            }
        } else if c < 32 {
            None
        } else {
            match parse_string_body(s, i + 1) {
                Some((rest, k)) => Some((seq![c] + rest, k)),
                None => None,
            }
        }
    }
}

/// A string literal at `i`: its denoted bytes and the position after it.
pub open spec fn parse_string(s: Seq<u8>, i: int) -> Option<(Seq<u8>, int)> {
    if 0 <= i < s.len() && s[i] == QUOTE {
        parse_string_body(s, i + 1)
    } else {
        None
    }
}

/// The members of an `add`/`set` mapping from the start of a member (a header
/// name string) to the closing brace: the mapping accumulated over `acc` by
/// insert-or-replace, and the position after the brace.
pub open spec fn parse_map_members(
    s: Seq<u8>,
    i: int,
    acc: Seq<(Seq<u8>, Seq<u8>)>,
) -> Option<(Seq<(Seq<u8>, Seq<u8>)>, int)>
    decreases s.len() - i,
{
    match parse_string(s, i) {
        Some((k, j)) => {
            let j2 = skip_ws(s, j);
            if j2 < s.len() && s[j2] == COLON {
                let j3 = skip_ws(s, j2 + 1);
                match parse_string(s, j3) {
                    Some((v, j4)) => {
                        let acc2 = spec_upsert(acc, k, v);
                        let j5 = skip_ws(s, j4);
                        if j5 < s.len() && s[j5] == COMMA {
                            let j6 = skip_ws(s, j5 + 1);
                            if i < j6 <= s.len() {
                                parse_map_members(s, j6, acc2)
                            } else {
                                None
                            }
                        } else if j5 < s.len() && s[j5] == RBRACE {
                            Some((acc2, j5 + 1))
                        } else {
                            None
                        }
                    },
                    None => None,
                }
            } else {
                None
            }
        },
        None => None,
    }
}

/// An `add`/`set` mapping object at `i`.
pub open spec fn parse_map(s: Seq<u8>, i: int) -> Option<(Seq<(Seq<u8>, Seq<u8>)>, int)> {
    if 0 <= i < s.len() && s[i] == LBRACE {
        let j = skip_ws(s, i + 1);
        if j < s.len() && s[j] == RBRACE {
            Some((Seq::empty(), j + 1))
        } else {
            parse_map_members(s, j, Seq::empty())
        }
    } else {
        None
    }
}

/// The field name `add`.
pub open spec fn key_add() -> Seq<u8> {
    seq![97u8, 100u8, 100u8]
}

/// The field name `set`.
pub open spec fn key_set() -> Seq<u8> {
    seq![115u8, 101u8, 116u8]
}

/// The field name `headers`.
pub open spec fn key_headers() -> Seq<u8> {
    seq![104u8, 101u8, 97u8, 100u8, 101u8, 114u8, 115u8]
}

/// The field name `body`.
pub open spec fn key_body() -> Seq<u8> {
    seq![98u8, 111u8, 100u8, 121u8]
}

/// The members of the `headers` object from the start of a member to the
/// closing brace: the `add` and `set` mappings (an absent field is the empty
/// mapping) and the position after the brace. An unknown or repeated field
/// is an error; each value must be a mapping object.
pub open spec fn parse_headers_members(
    s: Seq<u8>,
    i: int,
    add: Option<Seq<(Seq<u8>, Seq<u8>)>>,
    set: Option<Seq<(Seq<u8>, Seq<u8>)>>,
) -> Option<((Seq<(Seq<u8>, Seq<u8>)>, Seq<(Seq<u8>, Seq<u8>)>), int)>
    decreases s.len() - i,
{
    match parse_string(s, i) {
        Some((k, j)) => {
            let j2 = skip_ws(s, j);
            if j2 < s.len() && s[j2] == COLON {
                let j3 = skip_ws(s, j2 + 1);
                match parse_map(s, j3) {
                    Some((m, j4)) => {
                        if (k == key_add() && add is Some) || (k == key_set() && set is Some) || (k
                            != key_add() && k != key_set()) {
                            None
                        } else {
                            let add2 = if k == key_add() {
                                Some(m)
                            } else {
                                add
                            };
                            let set2 = if k == key_set() {
                                Some(m)
                            } else {
                                set
                            };
                            let j5 = skip_ws(s, j4);
                            if j5 < s.len() && s[j5] == COMMA {
                                let j6 = skip_ws(s, j5 + 1);
                                if i < j6 <= s.len() {
                                    parse_headers_members(s, j6, add2, set2)
                                } else {
                                    None
                                }
                            } else if j5 < s.len() && s[j5] == RBRACE {
                                let ra = match add2 {
                                    Some(a) => a,
                                    None => Seq::empty(),
                                };
                                let rs = match set2 {
                                    Some(t) => t,
                                    None => Seq::empty(),
                                };
                                Some(((ra, rs), j5 + 1))
                            } else {
                                None
                            }
                        }
                    },
                    None => None,
                }
            } else {
                None
            }
        },
        None => None,
    }
}

/// The `headers` object at `i`.
pub open spec fn parse_headers_obj(s: Seq<u8>, i: int) -> Option<
    ((Seq<(Seq<u8>, Seq<u8>)>, Seq<(Seq<u8>, Seq<u8>)>), int),
> {
    if 0 <= i < s.len() && s[i] == LBRACE {
        let j = skip_ws(s, i + 1);
        if j < s.len() && s[j] == RBRACE {
            Some(((Seq::empty(), Seq::empty()), j + 1))
        } else {
            parse_headers_members(s, j, None, None)
        }
    } else {
        None
    }
}

/// The members of the configuration object from the start of a member to the
/// closing brace. `headers` must be an object, `body` a string; an unknown
/// or repeated field is an error.
pub open spec fn parse_top_members(
    s: Seq<u8>,
    i: int,
    headers: Option<(Seq<(Seq<u8>, Seq<u8>)>, Seq<(Seq<u8>, Seq<u8>)>)>,
    body: Option<Seq<u8>>,
) -> Option<(SpecConfig, int)>
    decreases s.len() - i, 1int,
{
    match parse_string(s, i) {
        Some((k, j)) => {
            let j2 = skip_ws(s, j);
            if j2 < s.len() && s[j2] == COLON {
                let j3 = skip_ws(s, j2 + 1);
                if k == key_headers() && headers is None {
                    match parse_headers_obj(s, j3) {
                        Some((hs, j4)) => parse_top_member_rest(s, i, j4, Some(hs), body),
                        None => None,
                    }
                } else if k == key_body() && body is None {
                    match parse_string(s, j3) {
                        Some((b, j4)) => parse_top_member_rest(s, i, j4, headers, Some(b)),
                        None => None,
                    }
                } else {
                    None
                }
            } else {
                None
            }
        },
        None => None,
    }
}

/// After one top-level member: a comma continues the object, a brace closes
/// it into the configuration (absent fields default to empty).
pub open spec fn parse_top_member_rest(
    s: Seq<u8>,
    i: int,
    j4: int,
    headers: Option<(Seq<(Seq<u8>, Seq<u8>)>, Seq<(Seq<u8>, Seq<u8>)>)>,
    body: Option<Seq<u8>>,
) -> Option<(SpecConfig, int)>
    decreases s.len() - i, 0int,
{
    let j5 = skip_ws(s, j4);
    if j5 < s.len() && s[j5] == COMMA {
        let j6 = skip_ws(s, j5 + 1);
        if i < j6 <= s.len() {
            parse_top_members(s, j6, headers, body)
        } else {
            None
        }
    } else if j5 < s.len() && s[j5] == RBRACE {
        let hs = match headers {
            Some(h) => h,
            None => (Seq::empty(), Seq::empty()),
        };
        let b = match body {
            Some(b) => b,
            None => Seq::empty(),
        };
        Some((SpecConfig { add: hs.0, set: hs.1, body: b }, j5 + 1))
    } else {
        None
    }
}

/// What a whole configuration text denotes: the object, with nothing but
/// whitespace around it, or nothing if the text is not of the schema.
pub open spec fn parse_config_text(s: Seq<u8>) -> Option<SpecConfig> {
    let i = skip_ws(s, 0);
    if i < s.len() && s[i] == LBRACE {
        let j = skip_ws(s, i + 1);
        if j < s.len() && s[j] == RBRACE {
            if skip_ws(s, j + 1) == s.len() {
                Some(SpecConfig::empty())
            } else {
                None
            }
        } else {
            match parse_top_members(s, j, None, None) {
                Some((cfg, k)) => if skip_ws(s, k) == s.len() {
                    Some(cfg)
                } else {
                    None
                },
                None => None,
            }
        }
    } else {
        None
    }
}

/// What a configuration load yields: the denoted configuration when the raw
/// bytes are valid UTF-8 of the schema, an error otherwise.
pub open spec fn spec_configure(s: Seq<u8>) -> Option<SpecConfig> {
    if crate::resolve::is_utf8(s) {
        parse_config_text(s)
    } else {
        None
    }
}

} // verus!

// ---------------------------------------------------------------------------
// The executable parser, proved to return exactly what the grammar denotes.
// ---------------------------------------------------------------------------

use crate::bytes::bytes_eq;

verus! {

/// The view of an optional mapping under construction.
pub open spec fn opt_pairs_view(o: Option<Vec<(Vec<u8>, Vec<u8>)>>) -> Option<
    Seq<(Seq<u8>, Seq<u8>)>,
> {
    match o {
        Some(m) => Some(pairs_view(m@)),
        None => None,
    }
}

/// The view of an optional pair of mappings under construction.
pub open spec fn opt_hs_view(o: Option<(Vec<(Vec<u8>, Vec<u8>)>, Vec<(Vec<u8>, Vec<u8>)>)>) -> Option<
    (Seq<(Seq<u8>, Seq<u8>)>, Seq<(Seq<u8>, Seq<u8>)>),
> {
    match o {
        Some(h) => Some((pairs_view(h.0@), pairs_view(h.1@))),
        None => None,
    }
}

/// The view of an optional byte string under construction.
pub open spec fn opt_bytes_view(o: Option<Vec<u8>>) -> Option<Seq<u8>> {
    match o {
        Some(b) => Some(b@),
        None => None,
    }
}

/// Advance past whitespace.
fn ws_to(s: &Vec<u8>, i: usize) -> (j: usize)
    requires
        i <= s@.len(),
    ensures
        j as int == skip_ws(s@, i as int),
        i <= j <= s@.len(),
{
    let n: usize = s.len();
    let mut j: usize = i;
    while j < n
        invariant
            n == s@.len(),
            i <= j <= n,
            skip_ws(s@, i as int) == skip_ws(s@, j as int),
        decreases n - j,
    {
        let b = s[j];
        if b == 32 || b == 9 || b == 10 || b == 13 {
            j = j + 1;
        } else {
            return j;
        }
    }
    j
}

/// One hexadecimal digit.
fn hexd(b: u8) -> (r: Option<u32>)
    ensures
        r == hex_digit_val(b),
{
    if 48 <= b && b <= 57 {
        Some((b - 48) as u32)
    } else if 97 <= b && b <= 102 {
        Some((b - 87) as u32)
    } else if 65 <= b && b <= 70 {
        Some((b - 55) as u32)
    } else {
        None
    }
}

/// Four hexadecimal digits at `i`.
fn hex4(s: &Vec<u8>, i: usize) -> (r: Option<u32>)
    ensures
        r == hex4_val(s@, i as int),
{
    let n: usize = s.len();
    if n < 4 || i > n - 4 {
        return None;
    }
    let d0 = match hexd(s[i]) {
        Some(d) => d,
        None => {
            return None;
        },
    };
    let d1 = match hexd(s[i + 1]) {
        Some(d) => d,
        None => {
            return None;
        },
    };
    let d2 = match hexd(s[i + 2]) {
        Some(d) => d,
        None => {
            return None;
        },
    };
    let d3 = match hexd(s[i + 3]) {
        Some(d) => d,
        None => {
            return None;
        },
    };
    proof {
        assert(d0 <= 15 && d1 <= 15 && d2 <= 15 && d3 <= 15);
    }
    Some(d0 * 4096 + d1 * 256 + d2 * 16 + d3)
}

/// The UTF-8 encoding of one code point.
fn enc(cp: u32) -> (r: Vec<u8>)
    requires
        cp < 0x110000,
    ensures
        r@ == utf8_encode(cp),
{
    let mut r: Vec<u8> = Vec::new();
    if cp < 0x80 {
        r.push(cp as u8);
    } else if cp < 0x800 {
        proof {
            assert(cp / 0x40 < 0x20) by (nonlinear_arith)
                requires cp < 0x800;
        }
        r.push((0xC0 + cp / 0x40) as u8);
        r.push((0x80 + cp % 0x40) as u8);
    } else if cp < 0x10000 {
        proof {
            assert(cp / 0x1000 < 0x10) by (nonlinear_arith)
                requires cp < 0x10000;
            assert((cp / 0x40) % 0x40 < 0x40);
            assert(cp % 0x40 < 0x40);
        }
        r.push((0xE0 + cp / 0x1000) as u8);
        r.push((0x80 + (cp / 0x40) % 0x40) as u8);
        r.push((0x80 + cp % 0x40) as u8);
    } else {
        proof {
            assert(cp / 0x40000 < 0x8) by (nonlinear_arith)
                requires cp < 0x110000;
            assert((cp / 0x1000) % 0x40 < 0x40);
            assert((cp / 0x40) % 0x40 < 0x40);
            assert(cp % 0x40 < 0x40);
        }
        r.push((0xF0 + cp / 0x40000) as u8);
        r.push((0x80 + (cp / 0x1000) % 0x40) as u8);
        r.push((0x80 + (cp / 0x40) % 0x40) as u8);
        r.push((0x80 + cp % 0x40) as u8);
    }
    proof {
        assert(r@ =~= utf8_encode(cp));
    }
    r
}

/// One escape sequence, `i` just after the backslash.
fn esc(s: &Vec<u8>, i: usize) -> (r: Option<(Vec<u8>, usize)>)
    requires
        i <= s@.len(),
    ensures
        match r {
            Some(bj) => parse_escape(s@, i as int) == Some((bj.0@, bj.1 as int)) && i < bj.1
                <= s@.len(),
            None => parse_escape(s@, i as int) is None,
        },
{
    let n: usize = s.len();
    if i >= n {
        return None;
    }
    let c = s[i];
    if c == QUOTE || c == BACKSLASH || c == 47 {
        let mut b: Vec<u8> = Vec::new();
        b.push(c);
        proof {
            assert(b@ =~= seq![c]);
        }
        return Some((b, i + 1));
    }
    if c == 98 || c == 102 || c == 110 || c == 114 || c == 116 {
        let d: u8 = if c == 98 {
            8
        } else if c == 102 {
            12
        } else if c == 110 {
            10
        } else if c == 114 {
            13
        } else {
            9
        };
        let mut b: Vec<u8> = Vec::new();
        b.push(d);
        proof {
            assert(b@ =~= seq![d]);
        }
        return Some((b, i + 1));
    }
    if c != 117 {
        return None;
    }
    let cu = match hex4(s, i + 1) {
        Some(v) => v,
        None => {
            return None;
        },
    };
    proof {
        assert(cu < 0x10000);
    }
    if 0xD800 <= cu && cu < 0xDC00 {
        proof {
            assert(i + 5 <= n);
        }
        if n >= 7 && i <= n - 7 && s[i + 5] == BACKSLASH && s[i + 6] == 117 {
            let cu2 = match hex4(s, i + 7) {
                Some(v) => v,
                None => {
                    return None;
                },
            };
            if 0xDC00 <= cu2 && cu2 < 0xE000 {
                let cp: u32 = 0x10000 + (cu - 0xD800) * 0x400 + (cu2 - 0xDC00);
                return Some((enc(cp), i + 11));
            }
            return None;
        }
        return None;
    }
    if 0xDC00 <= cu && cu < 0xE000 {
        return None;
    }
    Some((enc(cu), i + 5))
}

/// String contents from just after the opening quote.
fn pstr_body(s: &Vec<u8>, i: usize) -> (r: Option<(Vec<u8>, usize)>)
    requires
        i <= s@.len(),
    ensures
        match r {
            Some(vk) => parse_string_body(s@, i as int) == Some((vk.0@, vk.1 as int)) && i < vk.1
                <= s@.len(),
            None => parse_string_body(s@, i as int) is None,
        },
    decreases s@.len() - i,
{
    let n: usize = s.len();
    if i >= n {
        return None;
    }
    let c = s[i];
    if c == QUOTE {
        let out: Vec<u8> = Vec::new();
        proof {
            assert(out@ =~= Seq::<u8>::empty());
        }
        return Some((out, i + 1));
    }
    if c == BACKSLASH {
        let (mut out, j) = match esc(s, i + 1) {
            Some(bj) => bj,
            None => {
                return None;
            },
        };
        let (mut rest, k) = match pstr_body(s, j) {
            Some(vk) => vk,
            None => {
                return None;
            },
        };
        let ghost outv = out@;
        let ghost restv = rest@;
        out.append(&mut rest);
        proof {
            assert(out@ == outv + restv);
        }
        return Some((out, k));
    }
    if c < 32 {
        return None;
    }
    let (mut rest, k) = match pstr_body(s, i + 1) {
        Some(vk) => vk,
        None => {
            return None;
        },
    };
    let mut out: Vec<u8> = Vec::new();
    out.push(c);
    let ghost restv = rest@;
    out.append(&mut rest);
    proof {
        assert(out@ =~= seq![c] + restv);
    }
    Some((out, k))
}

/// A string literal at `i`.
fn pstr(s: &Vec<u8>, i: usize) -> (r: Option<(Vec<u8>, usize)>)
    requires
        i <= s@.len(),
    ensures
        match r {
            Some(vk) => parse_string(s@, i as int) == Some((vk.0@, vk.1 as int)) && i < vk.1
                <= s@.len(),
            None => parse_string(s@, i as int) is None,
        },
{
    if i < s.len() && s[i] == QUOTE {
        pstr_body(s, i + 1)
    } else {
        None
    }
}

} // verus!

verus! {

/// Whether a parsed field name is `add`.
fn is_key_add(k: &Vec<u8>) -> (r: bool)
    ensures
        r == (k@ == key_add()),
{
    let r = k.len() == 3 && k[0] == 97 && k[1] == 100 && k[2] == 100;
    proof {
        if r {
            assert(k@ =~= key_add());
        } else {
            assert(k@ != key_add());
        }
    }
    r
}

/// Whether a parsed field name is `set`.
fn is_key_set(k: &Vec<u8>) -> (r: bool)
    ensures
        r == (k@ == key_set()),
{
    let r = k.len() == 3 && k[0] == 115 && k[1] == 101 && k[2] == 116;
    proof {
        if r {
            assert(k@ =~= key_set());
        } else {
            assert(k@ != key_set());
        }
    }
    r
}

/// Whether a parsed field name is `headers`.
fn is_key_headers(k: &Vec<u8>) -> (r: bool)
    ensures
        r == (k@ == key_headers()),
{
    let r = k.len() == 7 && k[0] == 104 && k[1] == 101 && k[2] == 97 && k[3] == 100 && k[4] == 101
        && k[5] == 114 && k[6] == 115;
    proof {
        if r {
            assert(k@ =~= key_headers());
        } else {
            assert(k@ != key_headers());
        }
    }
    r
}

/// Whether a parsed field name is `body`.
fn is_key_body(k: &Vec<u8>) -> (r: bool)
    ensures
        r == (k@ == key_body()),
{
    let r = k.len() == 4 && k[0] == 98 && k[1] == 111 && k[2] == 100 && k[3] == 121;
    proof {
        if r {
            assert(k@ =~= key_body());
        } else {
            assert(k@ != key_body());
        }
    }
    r
}

/// The members of an `add`/`set` mapping, from the start of a member.
fn pmap_members(s: &Vec<u8>, i: usize, acc: Vec<(Vec<u8>, Vec<u8>)>) -> (r: Option<
    (Vec<(Vec<u8>, Vec<u8>)>, usize),
>)
    requires
        i <= s@.len(),
        keys_unique(pairs_view(acc@)),
    ensures
        match r {
            Some(mj) => parse_map_members(s@, i as int, pairs_view(acc@)) == Some(
                (pairs_view(mj.0@), mj.1 as int),
            ) && i < mj.1 <= s@.len() && keys_unique(pairs_view(mj.0@)),
            None => parse_map_members(s@, i as int, pairs_view(acc@)) is None,
        },
    decreases s@.len() - i,
{
    let ghost acc0 = pairs_view(acc@);
    let n: usize = s.len();
    let (k, j) = match pstr(s, i) {
        Some(vk) => vk,
        None => {
            return None;
        },
    };
    let j2 = ws_to(s, j);
    if !(j2 < n && s[j2] == COLON) {
        return None;
    }
    let j3 = ws_to(s, j2 + 1);
    let (v, j4) = match pstr(s, j3) {
        Some(vk) => vk,
        None => {
            return None;
        },
    };
    let ghost kk = k@;
    let ghost vv = v@;
    let mut acc2 = acc;
    upsert(&mut acc2, k, v);
    proof {
        lemma_upsert_keys_unique(acc0, kk, vv);
    }
    let j5 = ws_to(s, j4);
    if j5 < n && s[j5] == COMMA {
        let j6 = ws_to(s, j5 + 1);
        proof {
            assert(i < j6 <= s@.len());
        }
        pmap_members(s, j6, acc2)
    } else if j5 < n && s[j5] == RBRACE {
        Some((acc2, j5 + 1))
    } else {
        None
    }
}

/// An `add`/`set` mapping object at `i`.
fn pmap(s: &Vec<u8>, i: usize) -> (r: Option<(Vec<(Vec<u8>, Vec<u8>)>, usize)>)
    requires
        i <= s@.len(),
    ensures
        match r {
            Some(mj) => parse_map(s@, i as int) == Some((pairs_view(mj.0@), mj.1 as int)) && i
                < mj.1 <= s@.len() && keys_unique(pairs_view(mj.0@)),
            None => parse_map(s@, i as int) is None,
        },
{
    let n: usize = s.len();
    if !(i < n && s[i] == LBRACE) {
        return None;
    }
    let j = ws_to(s, i + 1);
    if j < n && s[j] == RBRACE {
        let out: Vec<(Vec<u8>, Vec<u8>)> = Vec::new();
        proof {
            assert(pairs_view(out@) =~= Seq::<(Seq<u8>, Seq<u8>)>::empty());
        }
        Some((out, j + 1))
    } else {
        let acc: Vec<(Vec<u8>, Vec<u8>)> = Vec::new();
        proof {
            assert(pairs_view(acc@) =~= Seq::<(Seq<u8>, Seq<u8>)>::empty());
        }
        pmap_members(s, j, acc)
    }
}

/// The members of the `headers` object, from the start of a member.
fn phdrs_members(
    s: &Vec<u8>,
    i: usize,
    add: Option<Vec<(Vec<u8>, Vec<u8>)>>,
    set: Option<Vec<(Vec<u8>, Vec<u8>)>>,
) -> (r: Option<((Vec<(Vec<u8>, Vec<u8>)>, Vec<(Vec<u8>, Vec<u8>)>), usize)>)
    requires
        i <= s@.len(),
        match add {
            Some(m) => keys_unique(pairs_view(m@)),
            None => true,
        },
        match set {
            Some(m) => keys_unique(pairs_view(m@)),
            None => true,
        },
    ensures
        match r {
            Some(hj) => parse_headers_members(s@, i as int, opt_pairs_view(add), opt_pairs_view(set))
                == Some(((pairs_view(hj.0.0@), pairs_view(hj.0.1@)), hj.1 as int)) && i < hj.1
                <= s@.len() && keys_unique(pairs_view(hj.0.0@)) && keys_unique(pairs_view(hj.0.1@)),
            None => parse_headers_members(
                s@,
                i as int,
                opt_pairs_view(add),
                opt_pairs_view(set),
            ) is None,
        },
    decreases s@.len() - i,
{
    let n: usize = s.len();
    let (k, j) = match pstr(s, i) {
        Some(vk) => vk,
        None => {
            return None;
        },
    };
    let j2 = ws_to(s, j);
    if !(j2 < n && s[j2] == COLON) {
        return None;
    }
    let j3 = ws_to(s, j2 + 1);
    let (m, j4) = match pmap(s, j3) {
        Some(mj) => mj,
        None => {
            return None;
        },
    };
    let k_is_add = is_key_add(&k);
    let k_is_set = is_key_set(&k);
    if (k_is_add && add.is_some()) || (k_is_set && set.is_some()) || (!k_is_add && !k_is_set) {
        return None;
    }
    let (add2, set2) = if k_is_add {
        (Some(m), set)
    } else {
        (add, Some(m))
    };
    let j5 = ws_to(s, j4);
    if j5 < n && s[j5] == COMMA {
        let j6 = ws_to(s, j5 + 1);
        proof {
            assert(i < j6 <= s@.len());
        }
        phdrs_members(s, j6, add2, set2)
    } else if j5 < n && s[j5] == RBRACE {
        let ra = match add2 {
            Some(a) => a,
            None => Vec::new(),
        };
        let rs = match set2 {
            Some(t) => t,
            None => Vec::new(),
        };
        proof {
            assert(pairs_view(Seq::<(Vec<u8>, Vec<u8>)>::empty()) =~= Seq::<
                (Seq<u8>, Seq<u8>),
            >::empty());
        }
        Some(((ra, rs), j5 + 1))
    } else {
        None
    }
}

/// The `headers` object at `i`.
fn phdrs(s: &Vec<u8>, i: usize) -> (r: Option<
    ((Vec<(Vec<u8>, Vec<u8>)>, Vec<(Vec<u8>, Vec<u8>)>), usize),
>)
    requires
        i <= s@.len(),
    ensures
        match r {
            Some(hj) => parse_headers_obj(s@, i as int) == Some(
                ((pairs_view(hj.0.0@), pairs_view(hj.0.1@)), hj.1 as int),
            ) && i < hj.1 <= s@.len() && keys_unique(pairs_view(hj.0.0@)) && keys_unique(
                pairs_view(hj.0.1@),
            ),
            None => parse_headers_obj(s@, i as int) is None,
        },
{
    let n: usize = s.len();
    if !(i < n && s[i] == LBRACE) {
        return None;
    }
    let j = ws_to(s, i + 1);
    if j < n && s[j] == RBRACE {
        let ra: Vec<(Vec<u8>, Vec<u8>)> = Vec::new();
        let rs: Vec<(Vec<u8>, Vec<u8>)> = Vec::new();
        proof {
            assert(pairs_view(ra@) =~= Seq::<(Seq<u8>, Seq<u8>)>::empty());
            assert(pairs_view(rs@) =~= Seq::<(Seq<u8>, Seq<u8>)>::empty());
        }
        Some(((ra, rs), j + 1))
    } else {
        phdrs_members(s, j, None, None)
    }
}

/// The members of the configuration object, from the start of a member.
fn ptop_members(
    s: &Vec<u8>,
    i: usize,
    headers: Option<(Vec<(Vec<u8>, Vec<u8>)>, Vec<(Vec<u8>, Vec<u8>)>)>,
    body: Option<Vec<u8>>,
) -> (r: Option<(ConfigModel, usize)>)
    requires
        i <= s@.len(),
        match headers {
            Some(h) => keys_unique(pairs_view(h.0@)) && keys_unique(pairs_view(h.1@)),
            None => true,
        },
    ensures
        match r {
            Some(cj) => parse_top_members(s@, i as int, opt_hs_view(headers), opt_bytes_view(body))
                == Some((cj.0@, cj.1 as int)) && i < cj.1 <= s@.len() && cj.0.wf(),
            None => parse_top_members(
                s@,
                i as int,
                opt_hs_view(headers),
                opt_bytes_view(body),
            ) is None,
        },
    decreases s@.len() - i,
{
    let n: usize = s.len();
    let (k, j) = match pstr(s, i) {
        Some(vk) => vk,
        None => {
            return None;
        },
    };
    let j2 = ws_to(s, j);
    if !(j2 < n && s[j2] == COLON) {
        return None;
    }
    let j3 = ws_to(s, j2 + 1);
    if is_key_headers(&k) && headers.is_none() {
        let (hs, j4) = match phdrs(s, j3) {
            Some(hj) => hj,
            None => {
                return None;
            },
        };
        ptop_member_rest(s, i, j4, Some(hs), body)
    } else if is_key_body(&k) && body.is_none() {
        let (b, j4) = match pstr(s, j3) {
            Some(vk) => vk,
            None => {
                return None;
            },
        };
        ptop_member_rest(s, i, j4, headers, Some(b))
    } else {
        None
    }
}

/// After one top-level member: continue at a comma, close at a brace.
fn ptop_member_rest(
    s: &Vec<u8>,
    i: usize,
    j4: usize,
    headers: Option<(Vec<(Vec<u8>, Vec<u8>)>, Vec<(Vec<u8>, Vec<u8>)>)>,
    body: Option<Vec<u8>>,
) -> (r: Option<(ConfigModel, usize)>)
    requires
        i < j4 <= s@.len(),
        match headers {
            Some(h) => keys_unique(pairs_view(h.0@)) && keys_unique(pairs_view(h.1@)),
            None => true,
        },
    ensures
        match r {
            Some(cj) => parse_top_member_rest(
                s@,
                i as int,
                j4 as int,
                opt_hs_view(headers),
                opt_bytes_view(body),
            ) == Some((cj.0@, cj.1 as int)) && i < cj.1 <= s@.len() && cj.0.wf(),
            None => parse_top_member_rest(
                s@,
                i as int,
                j4 as int,
                opt_hs_view(headers),
                opt_bytes_view(body),
            ) is None,
        },
    decreases s@.len() - i, 0int,
{
    let n: usize = s.len();
    let j5 = ws_to(s, j4);
    if j5 < n && s[j5] == COMMA {
        let j6 = ws_to(s, j5 + 1);
        proof {
            assert(i < j6 <= s@.len());
        }
        ptop_members(s, j6, headers, body)
    } else if j5 < n && s[j5] == RBRACE {
        let hs = match headers {
            Some(h) => h,
            None => (Vec::new(), Vec::new()),
        };
        let b = match body {
            Some(b) => b,
            None => Vec::new(),
        };
        let cfg = ConfigModel { add: hs.0, set: hs.1, body: b };
        proof {
            assert(pairs_view(Seq::<(Vec<u8>, Vec<u8>)>::empty()) =~= Seq::<
                (Seq<u8>, Seq<u8>),
            >::empty());
        }
        Some((cfg, j5 + 1))
    } else {
        None
    }
}

/// Parse configuration text: the denoted configuration, or nothing when the
/// bytes are not of the schema. Success and failure match the grammar
/// exactly, and a parsed configuration is well-formed.
pub fn parse_config(s: &Vec<u8>) -> (r: Option<ConfigModel>)
    ensures
        match r {
            Some(c) => parse_config_text(s@) == Some(c@) && c.wf(),
            None => parse_config_text(s@) is None,
        },
{
    let n: usize = s.len();
    let i = ws_to(s, 0);
    if !(i < n && s[i] == LBRACE) {
        return None;
    }
    let j = ws_to(s, i + 1);
    if j < n && s[j] == RBRACE {
        if ws_to(s, j + 1) == n {
            let c = ConfigModel::empty();
            return Some(c);
        }
        return None;
    }
    let (cfg, k) = match ptop_members(s, j, None, None) {
        Some(cj) => cj,
        None => {
            return None;
        },
    };
    if ws_to(s, k) == n {
        Some(cfg)
    } else {
        None
    }
}

} // verus!
