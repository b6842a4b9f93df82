//! Export symbol names: the character escape and how symbols are composed.
use vstd::prelude::*;

use crate::signature::{args_descriptor, MethodSignature};
use crate::text::push_char;

verus! {

/// Letters and digits of ASCII, which a symbol keeps as they are.
pub open spec fn is_plain(c: char) -> bool {
    ('0' <= c && c <= '9') || ('A' <= c && c <= 'Z') || ('a' <= c && c <= 'z')
}

/// The characters that a mangled name is made of.
pub open spec fn is_symbol_char(c: char) -> bool {
    is_plain(c) || c == '_'
}

/// The lowercase hexadecimal digit of `d`, for `0 <= d < 16`.
pub open spec fn hex_digit(d: int) -> char {
    if d < 10 {
        (('0' as int) + d) as char
    } else {
        (('a' as int) + d - 10) as char
    }
}

/// `_0` and four lowercase hexadecimal digits of `u`, for `0 <= u < 0x10000`.
pub open spec fn escape_unit(u: int) -> Seq<char> {
    seq![
        '_',
        '0',
        hex_digit(u / 0x1000),
        hex_digit((u / 0x100) % 16),
        hex_digit((u / 0x10) % 16),
        hex_digit(u % 16),
    ]
}

/// The UTF-16 code units of a character: one below 0x10000, otherwise a
/// high and a low surrogate.
pub open spec fn utf16_units(c: char) -> Seq<int> {
    let v = (c as u32) as int;
    if v < 0x10000 {
        seq![v]
    } else {
        seq![0xD800 + (v - 0x10000) / 0x400, 0xDC00 + (v - 0x10000) % 0x400]
    }
}

/// The escape of one character.
pub open spec fn mangle_char(c: char) -> Seq<char> {
    if is_plain(c) {
        seq![c]
    } else if c == '/' {
        seq!['_']
    } else if c == '_' {
        seq!['_', '1']
    } else if c == ';' {
        seq!['_', '2']
    } else if c == '[' {
        seq!['_', '3']
    } else {
        let units = utf16_units(c);
        if units.len() == 1 {
            escape_unit(units[0])
        } else {
            escape_unit(units[0]) + escape_unit(units[1])
        }
    }
}

/// The escape of a whole name, character by character.
pub open spec fn mangled(s: Seq<char>) -> Seq<char>
    decreases s.len(),
{
    if s.len() == 0 {
        Seq::empty()
    } else {
        mangled(s.drop_last()) + mangle_char(s.last())
    }
}

/// The hexadecimal digit of `d`.
fn hex_char(d: u32) -> (r: char)
    requires
        d < 16,
    ensures
        r == hex_digit(d as int),
{
    match d {
        0 => '0',
        1 => '1',
        2 => '2',
        3 => '3',
        4 => '4',
        5 => '5',
        6 => '6',
        7 => '7',
        8 => '8',
        9 => '9',
        10 => 'a',
        11 => 'b',
        12 => 'c',
        13 => 'd',
        14 => 'e',
        _ => 'f',
    }
}

/// Appends `_0` and the four hexadecimal digits of `u`.
fn push_escape_unit(r: &mut String, u: u32)
    requires
        u < 0x10000,
    ensures
        final(r)@ == old(r)@ + escape_unit(u as int),
{
    push_char(r, '_');
    push_char(r, '0');
    push_char(r, hex_char(u / 0x1000));
    push_char(r, hex_char((u / 0x100) % 16));
    push_char(r, hex_char((u / 0x10) % 16));
    push_char(r, hex_char(u % 16));
    proof {
        assert(final(r)@ =~= old(r)@ + escape_unit(u as int));
    }
}

/// Appends the escape of `c`.
fn push_mangled_char(r: &mut String, c: char)
    ensures
        final(r)@ == old(r)@ + mangle_char(c),
{
    if ('0' <= c && c <= '9') || ('A' <= c && c <= 'Z') || ('a' <= c && c <= 'z') {
        push_char(r, c);
    } else if c == '/' {
        push_char(r, '_');
    } else if c == '_' {
        push_char(r, '_');
        push_char(r, '1');
    } else if c == ';' {
        push_char(r, '_');
        push_char(r, '2');
    } else if c == '[' {
        push_char(r, '_');
        push_char(r, '3');
    } else {
        let v = c as u32;
        if v < 0x10000 {
            push_escape_unit(r, v);
        } else {
            let w = v - 0x10000;
            push_escape_unit(r, 0xD800 + w / 0x400);
            push_escape_unit(r, 0xDC00 + w % 0x400);
        }
    }
    proof {
        assert(final(r)@ =~= old(r)@ + mangle_char(c));
    }
}

/// The escape of `s`: ASCII letters and digits stay, `/` becomes `_`, `_`,
/// `;` and `[` become `_1`, `_2` and `_3`, and any other character becomes
/// `_0` and four hexadecimal digits for each of its UTF-16 code units.
pub fn mangle_name(s: &str) -> (r: String)
    ensures
        r@ == mangled(s@),
{
    let n = s.unicode_len();
    let mut r = String::new();
    let mut i: usize = 0;
    while i < n
        invariant
            n == s@.len(),
            i <= n,
            r@ == mangled(s@.subrange(0, i as int)),
        decreases n - i,
    {
        let c = s.get_char(i);
        push_mangled_char(&mut r, c);
        proof {
            let next = s@.subrange(0, i + 1);
            assert(next.drop_last() =~= s@.subrange(0, i as int));
            assert(next.last() == c);
        }
        i = i + 1;
    }
    proof {
        assert(s@.subrange(0, n as int) =~= s@);
    }
    r
}

/// The export symbol of method `method` of class `class` whose argument
/// types have descriptor text `args`.
pub open spec fn symbol_of(class: Seq<char>, method: Seq<char>, args: Seq<char>) -> Seq<char> {
    seq!['J', 'a', 'v', 'a', '_'] + mangled(class) + seq!['_'] + mangled(method) + seq!['_', '_']
        + mangled(args)
}

/// `Java_`, the mangled class, `_`, the mangled method name, `__` and the
/// mangled argument descriptor text.
pub fn symbol_name(class: &str, method: &str, args: &str) -> (r: String)
    ensures
        r@ == symbol_of(class@, method@, args@),
{
    let mut r = String::new();
    push_char(&mut r, 'J');
    push_char(&mut r, 'a');
    push_char(&mut r, 'v');
    push_char(&mut r, 'a');
    push_char(&mut r, '_');
    let c = mangle_name(class);
    r.append(c.as_str());
    push_char(&mut r, '_');
    let m = mangle_name(method);
    r.append(m.as_str());
    push_char(&mut r, '_');
    push_char(&mut r, '_');
    let a = mangle_name(args);
    r.append(a.as_str());
    proof {
        assert(r@ =~= symbol_of(class@, method@, args@));
    }
    r
}

/// The export symbol of a method with signature `sig`.
pub fn get_symbol_name(class: &str, method: &str, sig: &MethodSignature) -> (r: String)
    ensures
        r@ == symbol_of(class@, method@, args_descriptor(sig@.args)),
{
    let args = sig.args_string();
    symbol_name(class, method, args.as_str())
}

/// Every character that the escape of a hexadecimal digit gives is a
/// symbol character.
proof fn lemma_escape_unit_chars(u: int)
    requires
        0 <= u < 0x10000,
    ensures
        forall|k: int| 0 <= k < escape_unit(u).len() ==> is_symbol_char(#[trigger] escape_unit(u)[k]),
{
    let e = escape_unit(u);
    assert forall|k: int| 0 <= k < e.len() implies is_symbol_char(#[trigger] e[k]) by {
        if k >= 2 {
            let d = if k == 2 {
                u / 0x1000
            } else if k == 3 {
                (u / 0x100) % 16
            } else if k == 4 {
                (u / 0x10) % 16
            } else {
                u % 16
            };
            assert(0 <= d < 16);
            assert(e[k] == hex_digit(d));
        }
    }
}

/// A mangled name is made of ASCII letters, digits and `_` alone.
pub proof fn lemma_mangled_chars(s: Seq<char>)
    ensures
        forall|k: int| 0 <= k < mangled(s).len() ==> is_symbol_char(#[trigger] mangled(s)[k]),
    decreases s.len(),
{
    if s.len() > 0 {
        let c = s.last();
        lemma_mangled_chars(s.drop_last());
        let front = mangled(s.drop_last());
        let back = mangle_char(c);
        let units = utf16_units(c);
        if !is_plain(c) && c != '/' && c != '_' && c != ';' && c != '[' {
            let v = (c as u32) as int;
            vstd::utf8::char_is_scalar(c);
            assert(0 <= v < 0x110000);
            if v >= 0x10000 {
                assert(0 <= (v - 0x10000) / 0x400 < 0x400) by (nonlinear_arith)
                    requires
                        0x10000 <= v < 0x110000,
                ;
                assert(0 <= (v - 0x10000) % 0x400 < 0x400) by (nonlinear_arith)
                    requires
                        0x10000 <= v < 0x110000,
                ;
            }
            lemma_escape_unit_chars(units[0]);
            if units.len() == 2 {
                lemma_escape_unit_chars(units[1]);
            }
        }
        assert forall|k: int| 0 <= k < back.len() implies is_symbol_char(#[trigger] back[k]) by {
            if !is_plain(c) && c != '/' && c != '_' && c != ';' && c != '[' && units.len() == 2 {
                let e0 = escape_unit(units[0]);
                if k >= e0.len() {
                    assert(back[k] == escape_unit(units[1])[k - e0.len()]);
                } else {
                    assert(back[k] == e0[k]);
                }
            }
        }
        assert forall|k: int| 0 <= k < mangled(s).len() implies is_symbol_char(
            #[trigger] mangled(s)[k],
        ) by {
            if k < front.len() {
                assert(mangled(s)[k] == front[k]);
            } else {
                assert(mangled(s)[k] == back[k - front.len()]);
            }
        }
    }
}

} // verus!
