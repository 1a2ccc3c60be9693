//! Wide-string codec.
//!
//! The host exchanges text as null-terminated sequences of UTF-16 code
//! units. [`encode`] turns native text into such a wire buffer, appending
//! exactly one terminating zero unit. [`decode`] reads a wire buffer back:
//! a missing (null) buffer decodes to the empty string, otherwise the units
//! before the first zero are decoded lossily, each unpaired surrogate
//! becoming the replacement character rather than an error.

use vstd::prelude::*;

verus! {

broadcast use vstd::utf8::char_is_scalar;

/// True of a UTF-16 code unit that opens a surrogate pair.
pub open spec fn is_high_surrogate(u: u16) -> bool {
    0xD800 <= u <= 0xDBFF
}

/// True of a UTF-16 code unit that closes a surrogate pair.
pub open spec fn is_low_surrogate(u: u16) -> bool {
    0xDC00 <= u <= 0xDFFF
}

/// True of any UTF-16 surrogate code unit; no character has this value.
pub open spec fn is_surrogate(u: u16) -> bool {
    0xD800 <= u <= 0xDFFF
}

/// The scalar value carried by a surrogate pair.
pub open spec fn pair_scalar(hi: u16, lo: u16) -> u32
    recommends
        is_high_surrogate(hi),
        is_low_surrogate(lo),
{
    (0x10000 + (hi - 0xD800) * 0x400 + (lo - 0xDC00)) as u32
}

/// The UTF-16 code units of one character: the character's own scalar value
/// when it fits in one unit, a surrogate pair otherwise.
pub open spec fn char_units(c: char) -> Seq<u16> {
    let u = c as u32;
    if u < 0x10000 {
        seq![u as u16]
    } else {
        seq![(0xD800 + (u - 0x10000) / 0x400) as u16, (0xDC00 + (u - 0x10000) % 0x400) as u16]
    }
}

/// The UTF-16 code units of a text, without any terminator.
pub open spec fn encoded(s: Seq<char>) -> Seq<u16>
    decreases s.len(),
{
    if s.len() == 0 {
        Seq::empty()
    } else {
        char_units(s[0]) + encoded(s.skip(1))
    }
}

/// Lossy UTF-16 decoding: a well-formed surrogate pair yields its scalar's
/// character, an unpaired surrogate yields the replacement character, and
/// any other unit yields the character with its value.
pub open spec fn decoded_units(u: Seq<u16>) -> Seq<char>
    decreases u.len(),
{
    if u.len() == 0 {
        Seq::empty()
    } else if is_high_surrogate(u[0]) && u.len() >= 2 && is_low_surrogate(u[1]) {
        seq![pair_scalar(u[0], u[1]) as char] + decoded_units(u.skip(2))
    } else if is_surrogate(u[0]) {
        seq!['\u{FFFD}'] + decoded_units(u.skip(1))
    } else {
        seq![(u[0] as u32) as char] + decoded_units(u.skip(1))
    }
}

/// Position of the wire terminator: the index of the first zero unit, or
/// the buffer's length when no unit is zero.
pub open spec fn nul_index(u: Seq<u16>) -> int
    decreases u.len(),
{
    if u.len() == 0 {
        0
    } else if u[0] == 0 {
        0
    } else {
        1 + nul_index(u.skip(1))
    }
}

/// The text carried by a wire buffer: the units before the first zero,
/// decoded lossily.
pub open spec fn wire_text(u: Seq<u16>) -> Seq<char> {
    decoded_units(u.subrange(0, nul_index(u)))
}

/// The text carried by a possibly-missing wire buffer: a missing buffer
/// (a null pointer at the boundary) carries the empty text.
pub open spec fn decoded_wire(w: Option<Seq<u16>>) -> Seq<char> {
    match w {
        Some(u) => wire_text(u),
        None => Seq::empty(),
    }
}

/// Relies on char::from_u32: returns the character with the given scalar
/// value, and None exactly for surrogate values and values above 0x10FFFF.
#[verifier::external_body]
fn char_from_u32(u: u32) -> (r: Option<char>)
    ensures
        r is Some <==> vstd::utf8::is_scalar(u),
        r matches Some(c) ==> c as u32 == u,
{
    char::from_u32(u)
}

/// Relies on String::push: appends exactly the given character.
#[verifier::external_body]
fn push_char(s: &mut String, c: char)
    ensures
        final(s)@ == old(s)@.push(c),
{
    s.push(c);
}

proof fn lemma_encoded_push(s: Seq<char>, c: char)
    ensures
        encoded(s.push(c)) == encoded(s) + char_units(c),
    decreases s.len(),
{
    if s.len() == 0 {
        assert(s.push(c)[0] == c);
        assert(s.push(c).skip(1) =~= Seq::<char>::empty());
        assert(encoded(s.push(c)) == char_units(c) + encoded(Seq::<char>::empty()));
        assert(encoded(s.push(c)) =~= encoded(s) + char_units(c));
    } else {
        assert(s.push(c).skip(1) =~= s.skip(1).push(c));
        lemma_encoded_push(s.skip(1), c);
        assert(encoded(s.push(c)) =~= encoded(s) + char_units(c));
    }
}

/// Encode a text for the wire: its UTF-16 code units followed by exactly
/// one terminating zero unit. Characters equal to NUL are encoded as any
/// other; the wire's own reading then stops at the first of them.
pub fn encode(s: &str) -> (r: Vec<u16>)
    ensures
        r@ == encoded(s@).push(0u16),
{
    let n: usize = s.unicode_len();
    let mut out: Vec<u16> = Vec::new();
    let mut i: usize = 0;
    while i < n
        invariant
            i <= n,
            n == s@.len(),
            out@ == encoded(s@.subrange(0, i as int)),
        decreases n - i,
    {
        let c = s.get_char(i);
        let u: u32 = c as u32;
        proof {
            lemma_encoded_push(s@.subrange(0, i as int), c);
            assert(s@.subrange(0, i as int + 1) =~= s@.subrange(0, i as int).push(c));
        }
        if u < 0x10000 {
            out.push(u as u16);
            assert(out@ =~= encoded(s@.subrange(0, i as int)) + char_units(c));
        } else {
            out.push((0xD800 + (u - 0x10000) / 0x400) as u16);
            out.push((0xDC00 + (u - 0x10000) % 0x400) as u16);
            assert(out@ =~= encoded(s@.subrange(0, i as int)) + char_units(c));
        }
        i = i + 1;
    }
    proof {
        assert(s@.subrange(0, n as int) =~= s@);
    }
    out.push(0u16);
    out
}

/// Decode a wire buffer. A missing buffer stands for a null pointer at the
/// boundary and decodes to the empty string; otherwise the units before the
/// first zero (or all of them, when none is zero) are decoded lossily.
pub fn decode(wire: Option<&[u16]>) -> (r: String)
    ensures
        r@ == decoded_wire(
            match wire {
                Some(units) => Some(units@),
                None => None,
            },
        ),
{
    match wire {
        None => String::new(),
        Some(units) => {
            let ghost u = units@;
            let mut n: usize = 0;
            while n < units.len() && units[n] != 0
                invariant
                    u == units@,
                    n <= u.len(),
                    forall|j: int| 0 <= j < n ==> u[j] != 0,
                decreases u.len() - n,
            {
                n = n + 1;
            }
            proof {
                lemma_nul_index_at(u, n as int);
            }
            let mut out = String::new();
            let mut i: usize = 0;
            while i < n
                invariant
                    u == units@,
                    i <= n <= u.len(),
                    n == nul_index(u),
                    decoded_units(u.subrange(0, n as int)) == out@ + decoded_units(
                        u.subrange(i as int, n as int),
                    ),
                decreases n - i,
            {
                let ghost rem = u.subrange(i as int, n as int);
                let c0: u16 = units[i];
                if c0 >= 0xD800 && c0 <= 0xDBFF && i + 1 < n && units[i + 1] >= 0xDC00 && units[i
                    + 1] <= 0xDFFF {
                    let hi: u32 = c0 as u32;
                    let lo: u32 = units[i + 1] as u32;
                    let scalar: u32 = 0x10000 + (hi - 0xD800) * 0x400 + (lo - 0xDC00);
                    assert(scalar == pair_scalar(u[i as int], u[i as int + 1]));
                    if let Some(c) = char_from_u32(scalar) {
                        proof {
                            vstd::utf8::char_u32_cast(c, scalar);
                            assert(rem.skip(2) =~= u.subrange(i as int + 2, n as int));
                        }
                        push_char(&mut out, c);
                    } else {
                        assert(false);
                    }
                    i = i + 2;
                } else if c0 >= 0xD800 && c0 <= 0xDFFF {
                    proof {
                        assert(rem.skip(1) =~= u.subrange(i as int + 1, n as int));
                    }
                    push_char(&mut out, '\u{FFFD}');
                    i = i + 1;
                } else {
                    if let Some(c) = char_from_u32(c0 as u32) {
                        proof {
                            vstd::utf8::char_u32_cast(c, c0 as u32);
                            assert(rem.skip(1) =~= u.subrange(i as int + 1, n as int));
                        }
                        push_char(&mut out, c);
                    } else {
                        assert(false);
                    }
                    i = i + 1;
                }
            }
            proof {
                assert(u.subrange(i as int, n as int) =~= Seq::<u16>::empty());
                assert(out@ + Seq::<char>::empty() =~= out@);
            }
            out
        },
    }
}

proof fn lemma_nonnul_char(c: char)
    requires
        c != '\0',
    ensures
        c as u32 != 0,
{
    if c as u32 == 0 {
        vstd::utf8::char_u32_cast(c, 0u32);
        vstd::utf8::char_u32_cast('\0', 0u32);
    }
}

proof fn lemma_char_units_no_nul(c: char)
    requires
        c != '\0',
    ensures
        forall|k: int| 0 <= k < char_units(c).len() ==> char_units(c)[k] != 0,
{
    lemma_nonnul_char(c);
}

proof fn lemma_encoded_concat(a: Seq<char>, b: Seq<char>)
    ensures
        encoded(a + b) == encoded(a) + encoded(b),
    decreases a.len(),
{
    if a.len() == 0 {
        assert(a + b =~= b);
        assert(encoded(a) + encoded(b) =~= encoded(b));
    } else {
        assert((a + b)[0] == a[0]);
        assert((a + b).skip(1) =~= a.skip(1) + b);
        lemma_encoded_concat(a.skip(1), b);
        assert(encoded(a + b) =~= encoded(a) + encoded(b));
    }
}

proof fn lemma_encoded_no_nul(s: Seq<char>)
    requires
        forall|j: int| 0 <= j < s.len() ==> s[j] != '\0',
    ensures
        forall|k: int| 0 <= k < encoded(s).len() ==> encoded(s)[k] != 0,
    decreases s.len(),
{
    if s.len() == 0 {
    } else {
        lemma_char_units_no_nul(s[0]);
        lemma_encoded_no_nul(s.skip(1));
        assert forall|k: int| 0 <= k < encoded(s).len() implies encoded(s)[k] != 0 by {
            if k < char_units(s[0]).len() {
                assert(encoded(s)[k] == char_units(s[0])[k]);
            } else {
                assert(encoded(s)[k] == encoded(s.skip(1))[k - char_units(s[0]).len()]);
            }
        }
    }
}

proof fn lemma_decoded_encoded(s: Seq<char>)
    ensures
        decoded_units(encoded(s)) == s,
    decreases s.len(),
{
    if s.len() == 0 {
    } else {
        let c = s[0];
        let u = c as u32;
        let w = encoded(s);
        let rest = encoded(s.skip(1));
        lemma_decoded_encoded(s.skip(1));
        vstd::utf8::char_is_scalar(c);
        vstd::utf8::char_u32_cast(c, u);
        if u < 0x10000 {
            assert(w[0] == u as u16);
            assert(w[0] as u32 == u);
            assert(!is_surrogate(w[0]));
            assert(w.skip(1) =~= rest);
            assert(decoded_units(w) == seq![c] + s.skip(1));
            assert(seq![c] + s.skip(1) =~= s);
        } else {
            let d = u - 0x10000;
            vstd::arithmetic::div_mod::lemma_fundamental_div_mod(d as int, 0x400);
            assert(0 <= d / 0x400 <= 0x3FF);
            assert(0 <= d % 0x400 <= 0x3FF);
            let hi = (0xD800 + d / 0x400) as u16;
            let lo = (0xDC00 + d % 0x400) as u16;
            assert(w[0] == hi && w[1] == lo);
            assert(is_high_surrogate(hi) && is_low_surrogate(lo));
            assert(pair_scalar(hi, lo) == u);
            assert(w.skip(2) =~= rest);
            assert(decoded_units(w) == seq![c] + s.skip(1));
            assert(seq![c] + s.skip(1) =~= s);
        }
    }
}

/// Law: the round trip is lossless. Encoding a text that holds no NUL
/// character and decoding the wire buffer back returns the text unchanged.
pub proof fn lemma_encode_decode(s: Seq<char>)
    requires
        forall|j: int| 0 <= j < s.len() ==> s[j] != '\0',
    ensures
        wire_text(encoded(s).push(0)) == s,
{
    let w = encoded(s).push(0);
    lemma_encoded_no_nul(s);
    assert(forall|j: int| 0 <= j < encoded(s).len() ==> w[j] != 0);
    lemma_nul_index_at(w, encoded(s).len() as int);
    assert(w.subrange(0, encoded(s).len() as int) =~= encoded(s));
    lemma_decoded_encoded(s);
}

/// Law: the round trip truncates at an embedded NUL. Encoding a text whose
/// first NUL character stands at position `i` and decoding the wire buffer
/// back returns exactly the text before that position: the zero unit the
/// NUL encodes to is indistinguishable from the wire terminator.
pub proof fn lemma_encode_decode_truncated(s: Seq<char>, i: int)
    requires
        0 <= i < s.len(),
        s[i] == '\0',
        forall|j: int| 0 <= j < i ==> s[j] != '\0',
    ensures
        wire_text(encoded(s).push(0)) == s.subrange(0, i),
{
    let a = s.subrange(0, i);
    let b = s.subrange(i, s.len() as int);
    assert(s =~= a + b);
    lemma_encoded_concat(a, b);
    let w = encoded(s).push(0);
    let n = encoded(a).len() as int;
    lemma_encoded_no_nul(a);
    assert forall|j: int| 0 <= j < n implies w[j] != 0 by {
        assert(w[j] == encoded(a)[j]);
    }
    assert(b[0] == '\0');
    assert(('\0' as u32) < 0x10000);
    assert(char_units(b[0]) == seq![0u16]);
    assert(encoded(b)[0] == 0);
    assert(w[n] == 0);
    lemma_nul_index_at(w, n);
    assert(w.subrange(0, n) =~= encoded(a));
    lemma_decoded_encoded(a);
}

/// Law: a null wire pointer decodes to the empty string; nothing is ever
/// read through it.
pub proof fn lemma_decode_null()
    ensures
        decoded_wire(None::<Seq<u16>>) == Seq::<char>::empty(),
{
}

/// The first zero of a buffer whose first `n` units are nonzero, and which
/// either ends at `n` or holds a zero there, is at `n`.
proof fn lemma_nul_index_at(u: Seq<u16>, n: int)
    requires
        0 <= n <= u.len(),
        forall|j: int| 0 <= j < n ==> u[j] != 0,
        n < u.len() ==> u[n] == 0,
    ensures
        nul_index(u) == n,
    decreases n,
{
    if n == 0 {
    } else {
        lemma_nul_index_at(u.skip(1), n - 1);
    }
}

} // verus!
