//! Hex colour notation: `#RRGGBB` or `#RRGGBBAA`, case-insensitive, with optional surrounding
//! white space and an optional `#`.
//!
//! The digits are read in two-byte pairs of the text's UTF-8 encoding; each pair is a byte in
//! base 16 and may start with `+`.
use vstd::prelude::*;
use crate::parser::{trim_str, trim_ws};
use crate::text::{push_char, push_str};

verus! {

/// Bytes `c` takes in UTF-8.
pub open spec fn utf8_len(c: char) -> int {
    let u = c as u32;
    if u < 0x80 { 1 } else if u < 0x800 { 2 } else if u < 0x10000 { 3 } else { 4 }
}

/// Bytes `s` takes in UTF-8.
pub open spec fn byte_len(s: Seq<char>) -> int
    decreases s.len(),
{
    if s.len() == 0 { 0 } else { byte_len(s.drop_last()) + utf8_len(s.last()) }
}

/// `s` cut into two-byte pieces, when every cut falls between characters: a piece is one
/// two-byte character or two one-byte characters.
pub open spec fn pairs(s: Seq<char>) -> Option<Seq<Seq<char>>>
    decreases s.len(),
{
    if s.len() == 0 {
        Some(Seq::empty())
    } else if utf8_len(s[0]) == 2 {
        match pairs(s.drop_first()) {
            Some(p) => Some(seq![seq![s[0]]] + p),
            None => None,
        }
    } else if utf8_len(s[0]) == 1 && s.len() >= 2 && utf8_len(s[1]) == 1 {
        match pairs(s.subrange(2, s.len() as int)) {
            Some(p) => Some(seq![s.subrange(0, 2)] + p),
            None => None,
        }
    } else {
        None
    }
}

/// Value of a base-16 digit.
pub open spec fn hex_val(c: char) -> Option<int> {
    if '0' <= c <= '9' {
        Some(c as int - '0' as int)
    } else if 'a' <= c <= 'f' {
        Some(c as int - 'a' as int + 10)
    } else if 'A' <= c <= 'F' {
        Some(c as int - 'A' as int + 10)
    } else {
        None
    }
}

/// A two-byte piece read as a byte in base 16: two digits, or `+` and one digit.
pub open spec fn hex_byte(p: Seq<char>) -> Option<u8> {
    if p.len() == 2 && p[0] == '+' {
        match hex_val(p[1]) {
            Some(d) => Some(d as u8),
            None => None,
        }
    } else if p.len() == 2 && hex_val(p[0]) is Some && hex_val(p[1]) is Some {
        Some((16 * hex_val(p[0])->0 + hex_val(p[1])->0) as u8)
    } else {
        None
    }
}

/// The digits of a colour: trimmed, one leading `#` removed.
pub open spec fn hex_body(s: Seq<char>) -> Seq<char> {
    let t = trim_ws(s);
    if t.len() > 0 && t[0] == '#' { t.drop_first() } else { t }
}

/// Reading the digits does not cut a character: a body of six or eight bytes splits into pairs.
pub open spec fn hex_readable(s: Seq<char>) -> bool {
    let b = hex_body(s);
    (byte_len(b) == 6 || byte_len(b) == 8) ==> pairs(b) is Some
}

pub open spec fn bad_byte_msg(p: Seq<char>) -> Seq<char> {
    "invalid hex byte \""@ + p + "\""@
}

/// Channels `(r, g, b, a)` of a hex colour, or the error message.
pub open spec fn hex_color(s: Seq<char>) -> Result<(u8, u8, u8, u8), Seq<char>> {
    let b = hex_body(s);
    let n = byte_len(b);
    if n != 6 && n != 8 {
        Err("hex color must be #RRGGBB or #RRGGBBAA (case-insensitive)"@)
    } else {
        let p = pairs(b)->0;
        if hex_byte(p[0]) is None {
            Err(bad_byte_msg(p[0]))
        } else if hex_byte(p[1]) is None {
            Err(bad_byte_msg(p[1]))
        } else if hex_byte(p[2]) is None {
            Err(bad_byte_msg(p[2]))
        } else if n == 8 && hex_byte(p[3]) is None {
            Err(bad_byte_msg(p[3]))
        } else {
            Ok((hex_byte(p[0])->0, hex_byte(p[1])->0, hex_byte(p[2])->0,
                if n == 8 { hex_byte(p[3])->0 } else { 255u8 }))
        }
    }
}

proof fn lemma_byte_len_prefix(s: Seq<char>, i: int)
    requires
        0 <= i < s.len(),
    ensures
        byte_len(s.subrange(0, i + 1)) == byte_len(s.subrange(0, i)) + utf8_len(s[i]),
{
    assert(s.subrange(0, i + 1).drop_last() =~= s.subrange(0, i));
}

proof fn lemma_byte_len_pos(s: Seq<char>)
    ensures
        byte_len(s) >= s.len(),
    decreases s.len(),
{
    if s.len() > 0 {
        lemma_byte_len_pos(s.drop_last());
    }
}

proof fn lemma_byte_len_mono(s: Seq<char>, k: int)
    requires
        0 <= k <= s.len(),
    ensures
        byte_len(s.subrange(0, k)) <= byte_len(s),
    decreases s.len() - k,
{
    if k < s.len() {
        lemma_byte_len_prefix(s, k);
        lemma_byte_len_mono(s, k + 1);
    } else {
        assert(s.subrange(0, k) =~= s);
    }
}

/// Pieces of a suffix: the first piece and the pieces after it.
proof fn lemma_pairs_step(s: Seq<char>, i: int)
    requires
        0 <= i < s.len(),
        pairs(s.subrange(i, s.len() as int)) is Some,
    ensures
        utf8_len(s[i]) == 2 ==> pairs(s.subrange(i, s.len() as int))->0
            == seq![seq![s[i]]] + pairs(s.subrange(i + 1, s.len() as int))->0
            && pairs(s.subrange(i + 1, s.len() as int)) is Some,
        utf8_len(s[i]) != 2 ==> i + 1 < s.len() && utf8_len(s[i]) == 1 && utf8_len(s[i + 1]) == 1
            && pairs(s.subrange(i, s.len() as int))->0
                == seq![s.subrange(i, i + 2)] + pairs(s.subrange(i + 2, s.len() as int))->0
            && pairs(s.subrange(i + 2, s.len() as int)) is Some,
{
    let t = s.subrange(i, s.len() as int);
    assert(t[0] == s[i]);
    assert(t.drop_first() =~= s.subrange(i + 1, s.len() as int));
    if utf8_len(s[i]) != 2 {
        assert(t[1] == s[i + 1]);
        assert(t.subrange(2, t.len() as int) =~= s.subrange(i + 2, s.len() as int));
        assert(t.subrange(0, 2) =~= s.subrange(i, i + 2));
    }
}

/// Bytes of the pieces add up to the bytes of the text.
proof fn lemma_pairs_len(s: Seq<char>)
    requires
        pairs(s) is Some,
    ensures
        byte_len(s) == 2 * pairs(s)->0.len(),
    decreases s.len(),
{
    if s.len() > 0 {
        lemma_byte_len_front(s);
        if utf8_len(s[0]) == 2 {
            lemma_pairs_len(s.drop_first());
        } else {
            let r = s.subrange(2, s.len() as int);
            lemma_pairs_len(r);
            lemma_byte_len_front(s.drop_first());
            assert(s.drop_first().drop_first() =~= r);
        }
    }
}

/// Bytes of a text: its first character's, then the rest's.
proof fn lemma_byte_len_front(s: Seq<char>)
    requires
        s.len() > 0,
    ensures
        byte_len(s) == utf8_len(s[0]) + byte_len(s.drop_first()),
    decreases s.len(),
{
    if s.len() > 1 {
        lemma_byte_len_front(s.drop_last());
        assert(s.drop_last().drop_first() =~= s.drop_first().drop_last());
        assert(s.drop_first().last() == s.last());
    } else {
        assert(s.drop_last() =~= Seq::<char>::empty());
        assert(s.drop_first() =~= Seq::<char>::empty());
    }
}

/// Bytes `c` takes in UTF-8.
fn char_utf8_len(c: char) -> (r: usize)
    ensures
        r == utf8_len(c),
{
    let u = c as u32;
    if u < 0x80 { 1 } else if u < 0x800 { 2 } else if u < 0x10000 { 3 } else { 4 }
}

/// Value of a base-16 digit.
fn digit_value(c: char) -> (r: Option<u8>)
    ensures
        r matches Some(d) ==> hex_val(c) == Some(d as int),
        r is None ==> hex_val(c) is None,
{
    if '0' <= c && c <= '9' {
        Some((c as u32 - '0' as u32) as u8)
    } else if 'a' <= c && c <= 'f' {
        Some((c as u32 - 'a' as u32 + 10) as u8)
    } else if 'A' <= c && c <= 'F' {
        Some((c as u32 - 'A' as u32 + 10) as u8)
    } else {
        None
    }
}

/// The piece that starts at character `i` of `t`, read as a byte; the index after it.
fn read_pair(t: &str, i: usize, Ghost(b): Ghost<Seq<char>>, Ghost(off): Ghost<int>) -> (r: (Result<u8, String>, usize))
    requires
        b == t@.subrange(off, t@.len() as int),
        0 <= off <= i < t@.len(),
        pairs(t@.subrange(i as int, t@.len() as int)) is Some,
    ensures
        i < r.1 <= t@.len(),
        pairs(t@.subrange(r.1 as int, t@.len() as int)) is Some,
        pairs(t@.subrange(i as int, t@.len() as int))->0
            == seq![t@.subrange(i as int, r.1 as int)] + pairs(t@.subrange(r.1 as int, t@.len() as int))->0,
        match r.0 {
            Ok(v) => hex_byte(t@.subrange(i as int, r.1 as int)) == Some(v),
            Err(m) => hex_byte(t@.subrange(i as int, r.1 as int)) is None
                && m@ == bad_byte_msg(t@.subrange(i as int, r.1 as int)),
        },
{
    proof {
        lemma_pairs_step(t@, i as int);
    }
    let _n = t.unicode_len();
    let c0 = t.get_char(i);
    if char_utf8_len(c0) == 2 {
        assert(t@.subrange(i as int, i + 1) =~= seq![c0]);
        let mut m = String::from_str("invalid hex byte \"");
        push_char(&mut m, c0);
        push_str(&mut m, "\"");
        assert(m@ =~= bad_byte_msg(seq![c0]));
        (Err(m), i + 1)
    } else {
        let c1 = t.get_char(i + 1);
        let ghost p = t@.subrange(i as int, i + 2);
        assert(p =~= seq![c0, c1]);
        let v = if c0 == '+' {
            match digit_value(c1) {
                Some(d) => Some(d),
                None => None,
            }
        } else {
            match (digit_value(c0), digit_value(c1)) {
                (Some(h), Some(l)) => Some(16 * h + l),
                _ => None,
            }
        };
        match v {
            Some(x) => (Ok(x), i + 2),
            None => {
                let mut m = String::from_str("invalid hex byte \"");
                push_char(&mut m, c0);
                push_char(&mut m, c1);
                push_str(&mut m, "\"");
                assert(m@ =~= bad_byte_msg(p));
                (Err(m), i + 2)
            },
        }
    }
}

/// Parse a hex colour into 8-bit channels `(r, g, b, a)`; alpha is `255` when not given.
pub fn parse_hex_rgba8(s: &str) -> (r: Result<(u8, u8, u8, u8), String>)
    requires
        hex_readable(s@),
    ensures
        match r {
            Ok(c) => hex_color(s@) == Ok::<(u8, u8, u8, u8), Seq<char>>(c),
            Err(m) => hex_color(s@) == Err::<(u8, u8, u8, u8), Seq<char>>(m@),
        },
{
    let t = trim_str(s);
    let n = t.unicode_len();
    let start: usize = if n > 0 && t.get_char(0) == '#' { 1 } else { 0 };
    let ghost b = t@.subrange(start as int, n as int);
    assert(b =~= hex_body(s@));
    let mut bytes: usize = 0;
    let mut i: usize = start;
    assert(t@.subrange(start as int, start as int) =~= Seq::<char>::empty());
    while i < n && bytes <= 8
        invariant
            n == t@.len(),
            start <= i <= n,
            b == t@.subrange(start as int, n as int),
            bytes == byte_len(t@.subrange(start as int, i as int)),
            bytes <= 12,
        decreases n - i,
    {
        proof {
            assert(t@.subrange(start as int, i as int) =~= b.subrange(0, i - start));
            assert(t@.subrange(start as int, i + 1) =~= b.subrange(0, i - start + 1));
            lemma_byte_len_prefix(b, i - start);
        }
        bytes = bytes + char_utf8_len(t.get_char(i));
        i = i + 1;
    }
    proof {
        assert(t@.subrange(start as int, i as int) =~= b.subrange(0, i - start));
        lemma_byte_len_mono(b, i - start);
        assert(b.subrange(0, b.len() as int) =~= b);
    }
    if bytes != 6 && bytes != 8 {
        return Err(String::from_str("hex color must be #RRGGBB or #RRGGBBAA (case-insensitive)"));
    }
    let ghost p = pairs(b)->0;
    proof {
        lemma_pairs_len(b);
        lemma_byte_len_pos(b);
    }
    assert(t@.subrange(start as int, t@.len() as int) =~= b);
    assert(b.len() > 0);
    let (r0, i1) = read_pair(t, start, Ghost(b), Ghost(start as int));
    let ghost q1 = pairs(t@.subrange(i1 as int, n as int))->0;
    assert(p == seq![t@.subrange(start as int, i1 as int)] + q1);
    assert(p[0] == t@.subrange(start as int, i1 as int));
    let v0 = match r0 {
        Ok(v) => v,
        Err(m) => {
            return Err(m);
        },
    };
    assert(q1.len() == p.len() - 1);
    assert(i1 < n) by {
        if i1 == n { assert(t@.subrange(n as int, n as int) =~= Seq::<char>::empty()); }
    }
    let (r1, i2) = read_pair(t, i1, Ghost(b), Ghost(start as int));
    let ghost q2 = pairs(t@.subrange(i2 as int, n as int))->0;
    assert(p[1] == q1[0]);
    let v1 = match r1 {
        Ok(v) => v,
        Err(m) => {
            return Err(m);
        },
    };
    assert(i2 < n) by {
        if i2 == n { assert(t@.subrange(n as int, n as int) =~= Seq::<char>::empty()); }
    }
    let (r2, i3) = read_pair(t, i2, Ghost(b), Ghost(start as int));
    let ghost q3 = pairs(t@.subrange(i3 as int, n as int))->0;
    assert(p[2] == q2[0]);
    let v2 = match r2 {
        Ok(v) => v,
        Err(m) => {
            return Err(m);
        },
    };
    if bytes == 8 {
        assert(i3 < n) by {
            if i3 == n { assert(t@.subrange(n as int, n as int) =~= Seq::<char>::empty()); }
        }
        let (r3, _i4) = read_pair(t, i3, Ghost(b), Ghost(start as int));
        assert(p[3] == q3[0]);
        let v3 = match r3 {
            Ok(v) => v,
            Err(m) => {
                return Err(m);
            },
        };
        Ok((v0, v1, v2, v3))
    } else {
        Ok((v0, v1, v2, 255))
    }
}

} // verus!
