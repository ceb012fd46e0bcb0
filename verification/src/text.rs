//! Strings as characters.
use vstd::prelude::*;
use vstd::utf8::{
    decode_first_codepoint, decode_first_scalar, decode_utf8, encode_scalar, is_scalar,
    length_of_first_scalar, pop_first_scalar, valid_first_scalar, valid_utf8,
};
use crate::trap::Trap;
use crate::value::{rune_of, IntKind, Value};

verus! {

/// A number as a character, if it stands for one.
pub open spec fn scalar(n: int) -> Result<u32, Trap> {
    if 0 <= n <= u32::MAX && is_scalar(n as u32) {
        Ok(n as u32)
    } else {
        Err(Trap::Fault)
    }
}

/// Takes a number as a character.
pub fn char_from_u32(u: u32) -> (r: Result<u32, Trap>)
    ensures
        r == scalar(u as int),
{
    if u <= 0x10ffff && !(0xd800 <= u && u <= 0xdfff) {
        Ok(u)
    } else {
        Err(Trap::Fault)
    }
}

/// Takes a signed number as a character.
pub fn char_from_i32(i: i32) -> (r: Result<u32, Trap>)
    ensures
        r == scalar(i as int),
{
    if i < 0 {
        Err(Trap::Fault)
    } else {
        char_from_u32(i as u32)
    }
}

fn push_scalar(out: &mut Vec<u8>, c: u32)
    requires
        is_scalar(c),
    ensures
        final(out)@ == old(out)@ + encode_scalar(c),
{
    if c <= 0x7f {
        out.push((c & 0x7F) as u8);
    } else if c <= 0x7ff {
        out.push(0xC0 | ((c >> 6) & 0x1F) as u8);
        out.push(0x80 | (c & 0x3F) as u8);
    } else if c <= 0xffff {
        out.push(0xE0 | ((c >> 12) & 0x0F) as u8);
        out.push(0x80 | ((c >> 6) & 0x3F) as u8);
        out.push(0x80 | (c & 0x3F) as u8);
    } else {
        out.push(0xF0 | ((c >> 18) & 0x7) as u8);
        out.push(0x80 | ((c >> 12) & 0x3F) as u8);
        out.push(0x80 | ((c >> 6) & 0x3F) as u8);
        out.push(0x80 | (c & 0x3F) as u8);
    }
    assert(out@ =~= old(out)@ + encode_scalar(c));
}

/// The bytes of a character.
pub fn scalar_bytes(c: u32) -> (r: Vec<u8>)
    requires
        is_scalar(c),
    ensures
        r@ == encode_scalar(c),
{
    let mut r: Vec<u8> = Vec::new();
    push_scalar(&mut r, c);
    assert(r@ =~= encode_scalar(c));
    r
}

/// The bytes of the characters from `i` on, after those in `out`.
pub open spec fn runes_bytes(vals: Seq<Value>, i: nat, out: Seq<u8>) -> Result<Seq<u8>, Trap>
    decreases vals.len() - i,
{
    if i >= vals.len() {
        Ok(out)
    } else {
        match vals[i as int] {
            Value::Int(IntKind::Int32, n) => match scalar(n as int) {
                Ok(c) => runes_bytes(vals, i + 1, out + encode_scalar(c)),
                Err(e) => Err(e),
            },
            _ => Err(Trap::Fault),
        }
    }
}

/// The bytes of a list of characters.
pub fn get_runes_bytes(vals: &Vec<Value>) -> (r: Result<Vec<u8>, Trap>)
    ensures
        match runes_bytes(vals@, 0, seq![]) {
            Ok(b) => r is Ok && r->Ok_0@ == b,
            Err(e) => r == Err::<Vec<u8>, Trap>(e) && e == Trap::Fault,
        },
{
    let mut out: Vec<u8> = Vec::new();
    let mut i: usize = 0;
    while i < vals.len()
        invariant
            i <= vals@.len(),
            runes_bytes(vals@, 0, seq![]) == runes_bytes(vals@, i as nat, out@),
        decreases vals@.len() - i,
    {
        match vals[i] {
            Value::Int(IntKind::Int32, n) => {
                if n < 0 || n > 0x10ffff {
                    return Err(Trap::Fault);
                }
                let c: u32 = char_from_i32(n as i32)?;
                push_scalar(&mut out, c);
            },
            _ => return Err(Trap::Fault),
        }
        i = i + 1;
    }
    Ok(out)
}

/// The character that starts at byte `i`, and how many bytes it takes.
pub open spec fn char_at(b: Seq<u8>, i: int) -> Result<(u32, int), Trap> {
    let rest = b.subrange(i, b.len() as int);
    if valid_first_scalar(rest) {
        Ok((decode_first_scalar(rest), length_of_first_scalar(rest)))
    } else {
        Err(Trap::Fault)
    }
}

fn is_continuation(b: u8) -> (r: bool)
    ensures
        r == vstd::utf8::is_continuation_byte(b),
{
    0x80 <= b && b <= 0xbf
}

/// Reads the character that starts at byte `i`.
pub fn get_char_at(b: &Vec<u8>, i: usize) -> (r: Result<(u32, usize), Trap>)
    requires
        i < b@.len(),
    ensures
        match char_at(b@, i as int) {
            Ok((c, n)) => r == Ok::<(u32, usize), Trap>((c, n as usize)) && 1 <= n <= 4 && i + n
                <= b@.len() && is_scalar(c),
            Err(e) => r == Err::<(u32, usize), Trap>(e),
        },
{
    let n: usize = b.len();
    let left: usize = n - i;
    let ghost rest = b@.subrange(i as int, n as int);
    let b1: u8 = b[i];
    assert(rest[0] == b1);
    if b1 <= 0x7f {
        let c: u32 = (b1 & 0x7F) as u32;
        assert((b1 & 0x7F) <= 0x7f) by (bit_vector);
        return Ok((c, 1));
    }
    if left < 2 || b1 < 0xc0 || b1 > 0xf7 {
        return Err(Trap::Fault);
    }
    let b2: u8 = b[i + 1];
    assert(rest[1] == b2);
    if !is_continuation(b2) {
        return Err(Trap::Fault);
    }
    if b1 <= 0xdf {
        let c: u32 = (((b1 & 0x1F) as u32) << 6) | ((b2 & 0x3f) as u32);
        assert(c == decode_first_codepoint(rest));
        assert((((b1 & 0x1F) as u32) << 6) | ((b2 & 0x3f) as u32) <= 0x7ff) by (bit_vector);
        if c < 0x80 || (0xd800 <= c && c <= 0xdfff) {
            return Err(Trap::Fault);
        }
        return Ok((c, 2));
    }
    if left < 3 {
        return Err(Trap::Fault);
    }
    let b3: u8 = b[i + 2];
    assert(rest[2] == b3);
    if !is_continuation(b3) {
        return Err(Trap::Fault);
    }
    if b1 <= 0xef {
        let c: u32 = (((b1 & 0x0F) as u32) << 12) | (((b2 & 0x3f) as u32) << 6) | ((b3
            & 0x3f) as u32);
        assert(c == decode_first_codepoint(rest));
        assert((((b1 & 0x0F) as u32) << 12) | (((b2 & 0x3f) as u32) << 6) | ((b3 & 0x3f) as u32)
            <= 0xffff) by (bit_vector);
        if c < 0x800 || (0xd800 <= c && c <= 0xdfff) {
            return Err(Trap::Fault);
        }
        return Ok((c, 3));
    }
    if left < 4 {
        return Err(Trap::Fault);
    }
    let b4: u8 = b[i + 3];
    assert(rest[3] == b4);
    if !is_continuation(b4) {
        return Err(Trap::Fault);
    }
    let c: u32 = (((b1 & 0x07) as u32) << 18) | (((b2 & 0x3f) as u32) << 12) | (((b3
        & 0x3f) as u32) << 6) | ((b4 & 0x3f) as u32);
    assert(c == decode_first_codepoint(rest));
    if c < 0x10000 || c > 0x10ffff || (0xd800 <= c && c <= 0xdfff) {
        return Err(Trap::Fault);
    }
    Ok((c, 4))
}

/// Characters as values.
pub open spec fn rune_values(s: Seq<char>) -> Seq<Value> {
    Seq::new(s.len(), |i: int| rune_of(s[i] as int))
}

/// The characters of a string.
pub open spec fn str_runes(b: Seq<u8>) -> Result<Seq<Value>, Trap> {
    if valid_utf8(b) {
        Ok(rune_values(decode_utf8(b)))
    } else {
        Err(Trap::Fault)
    }
}

/// Takes a string apart into characters.
pub fn get_str_runes(b: &Vec<u8>) -> (r: Result<Vec<Value>, Trap>)
    ensures
        match str_runes(b@) {
            Ok(s) => r is Ok && r->Ok_0@ == s,
            Err(e) => r == Err::<Vec<Value>, Trap>(e) && e == Trap::Fault,
        },
{
    let mut out: Vec<Value> = Vec::new();
    let mut i: usize = 0;
    let n: usize = b.len();
    assert(b@.subrange(0, n as int) =~= b@);
    assert(rune_values(decode_utf8(b@)) =~= out@ + rune_values(decode_utf8(b@)));
    while i < n
        invariant
            n == b@.len(),
            i <= n,
            valid_utf8(b@) == valid_utf8(b@.subrange(i as int, n as int)),
            valid_utf8(b@) ==> rune_values(decode_utf8(b@)) == out@ + rune_values(
                decode_utf8(b@.subrange(i as int, n as int)),
            ),
        decreases n - i,
    {
        let (c, k) = get_char_at(b, i)?;
        out.push(Value::Int(IntKind::Int32, c as i128));
        proof {
            let rest = b@.subrange(i as int, n as int);
            let next = b@.subrange(i + k, n as int);
            assert(pop_first_scalar(rest) =~= next);
            if valid_utf8(b@) {
                let ch = c as char;
                assert(decode_utf8(rest) == seq![ch] + decode_utf8(next));
                assert(is_scalar(c));
                assert(ch as int == c as int);
                assert(rune_values(decode_utf8(rest)) =~= seq![rune_of(c as int)] + rune_values(
                    decode_utf8(next),
                ));
                assert(rune_values(decode_utf8(b@)) =~= out@ + rune_values(decode_utf8(next)));
            }
        }
        i = i + k;
    }
    assert(b@.subrange(n as int, n as int) =~= seq![]);
    assert(rune_values(decode_utf8(seq![])) =~= seq![]);
    Ok(out)
}

} // verus!
