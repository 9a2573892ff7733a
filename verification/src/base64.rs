//! URL-safe base64 without padding, both directions, with a proved
//! round trip: decoding an encoded byte sequence gives it back exactly.

use vstd::prelude::*;

verus! {

/// The alphabet character for a 6-bit value.
pub open spec fn b64_char_of(v: int) -> char {
    if 0 <= v < 26 {
        ((65 + v) as u8) as char
    } else if 26 <= v < 52 {
        ((97 + v - 26) as u8) as char
    } else if 52 <= v < 62 {
        ((48 + v - 52) as u8) as char
    } else if v == 62 {
        '-'
    } else {
        '_'
    }
}

/// The 6-bit value of an alphabet character, or -1 outside the alphabet.
pub open spec fn b64_val_of(c: char) -> int {
    if 65 <= c as int <= 90 {
        c as int - 65
    } else if 97 <= c as int <= 122 {
        c as int - 97 + 26
    } else if 48 <= c as int <= 57 {
        c as int - 48 + 52
    } else if c == '-' {
        62
    } else if c == '_' {
        63
    } else {
        -1
    }
}

/// URL-safe base64 of a byte sequence, without padding: each group of
/// three bytes becomes four characters; a trailing byte becomes two and a
/// trailing pair becomes three, with the unused low bits zero.
pub open spec fn b64_encode(b: Seq<u8>) -> Seq<char>
    decreases b.len(),
{
    if b.len() == 0 {
        Seq::empty()
    } else if b.len() == 1 {
        let b0 = b[0] as int;
        seq![b64_char_of(b0 / 4), b64_char_of((b0 % 4) * 16)]
    } else if b.len() == 2 {
        let b0 = b[0] as int;
        let b1 = b[1] as int;
        seq![
            b64_char_of(b0 / 4),
            b64_char_of((b0 % 4) * 16 + b1 / 16),
            b64_char_of((b1 % 16) * 4),
        ]
    } else {
        let b0 = b[0] as int;
        let b1 = b[1] as int;
        let b2 = b[2] as int;
        seq![
            b64_char_of(b0 / 4),
            b64_char_of((b0 % 4) * 16 + b1 / 16),
            b64_char_of((b1 % 16) * 4 + b2 / 64),
            b64_char_of(b2 % 64),
        ] + b64_encode(b.skip(3))
    }
}

/// Strict inverse of [`b64_encode`]: `Some` exactly on its range, rejecting
/// characters outside the alphabet, impossible lengths, and non-zero
/// trailing bits.
pub open spec fn b64_decode_spec(s: Seq<char>) -> Option<Seq<u8>>
    decreases s.len(),
{
    if s.len() == 0 {
        Some(Seq::empty())
    } else if s.len() == 1 {
        None
    } else if s.len() == 2 {
        let v0 = b64_val_of(s[0]);
        let v1 = b64_val_of(s[1]);
        if v0 >= 0 && v1 >= 0 && v1 % 16 == 0 {
            Some(seq![(v0 * 4 + v1 / 16) as u8])
        } else {
            None
        }
    } else if s.len() == 3 {
        let v0 = b64_val_of(s[0]);
        let v1 = b64_val_of(s[1]);
        let v2 = b64_val_of(s[2]);
        if v0 >= 0 && v1 >= 0 && v2 >= 0 && v2 % 4 == 0 {
            Some(seq![(v0 * 4 + v1 / 16) as u8, ((v1 % 16) * 16 + v2 / 4) as u8])
        } else {
            None
        }
    } else {
        let v0 = b64_val_of(s[0]);
        let v1 = b64_val_of(s[1]);
        let v2 = b64_val_of(s[2]);
        let v3 = b64_val_of(s[3]);
        if v0 >= 0 && v1 >= 0 && v2 >= 0 && v3 >= 0 {
            match b64_decode_spec(s.skip(4)) {
                Some(t) => Some(
                    seq![
                        (v0 * 4 + v1 / 16) as u8,
                        ((v1 % 16) * 16 + v2 / 4) as u8,
                        ((v2 % 4) * 64 + v3) as u8,
                    ] + t,
                ),
                None => None,
            }
        } else {
            None
        }
    }
}

/// An alphabet character reads back as the value it encodes.
pub proof fn lemma_b64_char_val(v: int)
    requires
        0 <= v < 64,
    ensures
        b64_val_of(b64_char_of(v)) == v,
{
}

/// Decoding inverts encoding on every byte sequence.
pub proof fn lemma_base64_round_trip(b: Seq<u8>)
    ensures
        b64_decode_spec(b64_encode(b)) == Some(b),
    decreases b.len(),
{
    if b.len() == 0 {
        assert(b64_encode(b) =~= Seq::<char>::empty());
        assert(b =~= Seq::<u8>::empty());
    } else if b.len() == 1 {
        let b0 = b[0] as int;
        lemma_b64_char_val(b0 / 4);
        lemma_b64_char_val((b0 % 4) * 16);
        assert(b =~= seq![((b0 / 4) * 4 + ((b0 % 4) * 16) / 16) as u8]);
    } else if b.len() == 2 {
        let b0 = b[0] as int;
        let b1 = b[1] as int;
        lemma_b64_char_val(b0 / 4);
        lemma_b64_char_val((b0 % 4) * 16 + b1 / 16);
        lemma_b64_char_val((b1 % 16) * 4);
        let v1 = (b0 % 4) * 16 + b1 / 16;
        assert(v1 / 16 == b0 % 4 && v1 % 16 == b1 / 16);
        assert(b =~= seq![((b0 / 4) * 4 + b0 % 4) as u8, ((b1 / 16) * 16 + ((b1 % 16) * 4) / 4) as u8]);
    } else {
        let b0 = b[0] as int;
        let b1 = b[1] as int;
        let b2 = b[2] as int;
        let v0 = b0 / 4;
        let v1 = (b0 % 4) * 16 + b1 / 16;
        let v2 = (b1 % 16) * 4 + b2 / 64;
        let v3 = b2 % 64;
        lemma_b64_char_val(v0);
        lemma_b64_char_val(v1);
        lemma_b64_char_val(v2);
        lemma_b64_char_val(v3);
        lemma_base64_round_trip(b.skip(3));
        let s = b64_encode(b);
        assert(s.skip(4) =~= b64_encode(b.skip(3)));
        assert(v1 / 16 == b0 % 4 && v1 % 16 == b1 / 16);
        assert(v2 / 4 == b1 % 16 && v2 % 4 == b2 / 64);
        assert(b =~= seq![(v0 * 4 + v1 / 16) as u8, ((v1 % 16) * 16 + v2 / 4) as u8, ((v2 % 4) * 64 + v3) as u8] + b.skip(3));
    }
}

/// Maps a 6-bit value to its alphabet character.
fn b64_char_enc(v: u8) -> (c: char)
    requires
        v < 64,
    ensures
        c == b64_char_of(v as int),
{
    if v < 26 {
        (65 + v) as char
    } else if v < 52 {
        (97 + (v - 26)) as char
    } else if v < 62 {
        (48 + (v - 52)) as char
    } else if v == 62 {
        '-'
    } else {
        '_'
    }
}

/// Maps a character to its 6-bit value, or `None` outside the alphabet.
fn b64_val_dec(c: char) -> (r: Option<u8>)
    ensures
        match r {
            Some(v) => v < 64 && b64_val_of(c) == v as int,
            None => b64_val_of(c) < 0,
        },
{
    let u = c as u32;
    if 65 <= u && u <= 90 {
        Some((u - 65) as u8)
    } else if 97 <= u && u <= 122 {
        Some((u - 97 + 26) as u8)
    } else if 48 <= u && u <= 57 {
        Some((u - 48 + 52) as u8)
    } else if c == '-' {
        Some(62)
    } else if c == '_' {
        Some(63)
    } else {
        None
    }
}

/// Encodes bytes as URL-safe base64 characters without padding.
pub fn b64_encode_chars(b: &[u8]) -> (r: Vec<char>)
    ensures
        r@ == b64_encode(b@),
{
    let mut r: Vec<char> = Vec::new();
    let mut i: usize = 0;
    proof {
        assert(b@.skip(0) =~= b@);
        assert(r@ + b64_encode(b@) =~= b64_encode(b@));
    }
    while b.len() - i >= 3
        invariant
            i <= b@.len(),
            b64_encode(b@) == r@ + b64_encode(b@.skip(i as int)),
        decreases b@.len() - i,
    {
        let b0 = b[i];
        let b1 = b[i + 1];
        let b2 = b[i + 2];
        proof {
            let rest = b@.skip(i as int);
            assert(rest.len() >= 3);
            assert(rest[0] == b@[i as int] && rest[1] == b@[i as int + 1] && rest[2] == b@[i as int + 2]);
            assert(rest.skip(3) =~= b@.skip(i as int + 3));
        }
        let ghost old_r = r@;
        r.push(b64_char_enc(b0 / 4));
        r.push(b64_char_enc((b0 % 4) * 16 + b1 / 16));
        r.push(b64_char_enc((b1 % 16) * 4 + b2 / 64));
        r.push(b64_char_enc(b2 % 64));
        proof {
            let rest = b@.skip(i as int);
            let c0 = rest[0] as int;
            let c1 = rest[1] as int;
            let c2 = rest[2] as int;
            let group = seq![
                b64_char_of(c0 / 4),
                b64_char_of((c0 % 4) * 16 + c1 / 16),
                b64_char_of((c1 % 16) * 4 + c2 / 64),
                b64_char_of(c2 % 64),
            ];
            assert(r@ =~= old_r + group);
            assert(old_r + (group + b64_encode(b@.skip(i as int + 3))) =~= r@ + b64_encode(
                b@.skip(i as int + 3),
            ));
        }
        i += 3;
    }
    if i == b.len() {
        proof {
            assert(b@.skip(i as int) =~= Seq::<u8>::empty());
            assert(r@ + b64_encode(b@.skip(i as int)) =~= r@);
        }
    } else if i + 1 == b.len() {
        let b0 = b[i];
        proof {
            let rest = b@.skip(i as int);
            assert(rest.len() == 1);
            assert(rest[0] == b@[i as int]);
        }
        let ghost old_r = r@;
        r.push(b64_char_enc(b0 / 4));
        r.push(b64_char_enc((b0 % 4) * 16));
        proof {
            let rest = b@.skip(i as int);
            let c0 = rest[0] as int;
            assert(r@ =~= old_r + seq![b64_char_of(c0 / 4), b64_char_of((c0 % 4) * 16)]);
        }
    } else {
        let b0 = b[i];
        let b1 = b[i + 1];
        proof {
            let rest = b@.skip(i as int);
            assert(rest.len() == 2);
            assert(rest[0] == b@[i as int] && rest[1] == b@[i as int + 1]);
        }
        let ghost old_r = r@;
        r.push(b64_char_enc(b0 / 4));
        r.push(b64_char_enc((b0 % 4) * 16 + b1 / 16));
        r.push(b64_char_enc((b1 % 16) * 4));
        proof {
            let rest = b@.skip(i as int);
            let c0 = rest[0] as int;
            let c1 = rest[1] as int;
            assert(r@ =~= old_r + seq![
                b64_char_of(c0 / 4),
                b64_char_of((c0 % 4) * 16 + c1 / 16),
                b64_char_of((c1 % 16) * 4),
            ]);
        }
    }
    r
}

/// Decodes URL-safe base64 characters; `Ok` exactly when the strict
/// decoding relation accepts them.
pub fn b64_decode_chars(s: &Vec<char>) -> (r: Result<Vec<u8>, ()>)
    ensures
        match r {
            Ok(v) => b64_decode_spec(s@) == Some(v@),
            Err(_) => b64_decode_spec(s@) is None,
        },
{
    let mut out: Vec<u8> = Vec::new();
    let mut i: usize = 0;
    proof {
        assert(s@.skip(0) =~= s@);
        if let Some(t) = b64_decode_spec(s@) {
            assert(out@ + t =~= t);
        }
    }
    while s.len() - i >= 4
        invariant
            i <= s@.len(),
            b64_decode_spec(s@) == match b64_decode_spec(s@.skip(i as int)) {
                Some(t) => Some(out@ + t),
                None => None::<Seq<u8>>,
            },
        decreases s@.len() - i,
    {
        proof {
            let rest = s@.skip(i as int);
            assert(rest.len() >= 4);
            assert(rest[0] == s@[i as int] && rest[1] == s@[i as int + 1]
                && rest[2] == s@[i as int + 2] && rest[3] == s@[i as int + 3]);
            assert(rest.skip(4) =~= s@.skip(i as int + 4));
        }
        let v0 = match b64_val_dec(s[i]) {
            Some(v) => v,
            None => {
                return Err(());
            },
        };
        let v1 = match b64_val_dec(s[i + 1]) {
            Some(v) => v,
            None => {
                return Err(());
            },
        };
        let v2 = match b64_val_dec(s[i + 2]) {
            Some(v) => v,
            None => {
                return Err(());
            },
        };
        let v3 = match b64_val_dec(s[i + 3]) {
            Some(v) => v,
            None => {
                return Err(());
            },
        };
        let ghost old_out = out@;
        out.push(v0 * 4 + v1 / 16);
        out.push((v1 % 16) * 16 + v2 / 4);
        out.push((v2 % 4) * 64 + v3);
        proof {
            let rest = s@.skip(i as int);
            let w0 = b64_val_of(rest[0]);
            let w1 = b64_val_of(rest[1]);
            let w2 = b64_val_of(rest[2]);
            let w3 = b64_val_of(rest[3]);
            let group = seq![
                (w0 * 4 + w1 / 16) as u8,
                ((w1 % 16) * 16 + w2 / 4) as u8,
                ((w2 % 4) * 64 + w3) as u8,
            ];
            assert(out@ =~= old_out + group);
            if let Some(t) = b64_decode_spec(s@.skip(i as int + 4)) {
                assert(old_out + (group + t) =~= out@ + t);
            }
        }
        i += 4;
    }
    let rem = s.len() - i;
    proof {
        let rest = s@.skip(i as int);
        assert(rest.len() == s@.len() - i);
    }
    if rem == 0 {
        proof {
            assert(s@.skip(i as int).len() == 0);
            assert(out@ + Seq::<u8>::empty() =~= out@);
        }
        Ok(out)
    } else if rem == 1 {
        Err(())
    } else if rem == 2 {
        proof {
            let rest = s@.skip(i as int);
            assert(rest[0] == s@[i as int] && rest[1] == s@[i as int + 1]);
        }
        let v0 = match b64_val_dec(s[i]) {
            Some(v) => v,
            None => {
                return Err(());
            },
        };
        let v1 = match b64_val_dec(s[i + 1]) {
            Some(v) => v,
            None => {
                return Err(());
            },
        };
        if v1 % 16 != 0 {
            return Err(());
        }
        let ghost old_out = out@;
        out.push(v0 * 4 + v1 / 16);
        proof {
            let rest = s@.skip(i as int);
            let w0 = b64_val_of(rest[0]);
            let w1 = b64_val_of(rest[1]);
            assert(out@ =~= old_out + seq![(w0 * 4 + w1 / 16) as u8]);
        }
        Ok(out)
    } else {
        proof {
            let rest = s@.skip(i as int);
            assert(rest.len() == 3);
            assert(rest[0] == s@[i as int] && rest[1] == s@[i as int + 1]
                && rest[2] == s@[i as int + 2]);
        }
        let v0 = match b64_val_dec(s[i]) {
            Some(v) => v,
            None => {
                return Err(());
            },
        };
        let v1 = match b64_val_dec(s[i + 1]) {
            Some(v) => v,
            None => {
                return Err(());
            },
        };
        let v2 = match b64_val_dec(s[i + 2]) {
            Some(v) => v,
            None => {
                return Err(());
            },
        };
        if v2 % 4 != 0 {
            return Err(());
        }
        let ghost old_out = out@;
        out.push(v0 * 4 + v1 / 16);
        out.push((v1 % 16) * 16 + v2 / 4);
        proof {
            let rest = s@.skip(i as int);
            let w0 = b64_val_of(rest[0]);
            let w1 = b64_val_of(rest[1]);
            let w2 = b64_val_of(rest[2]);
            assert(out@ =~= old_out + seq![(w0 * 4 + w1 / 16) as u8, ((w1 % 16) * 16 + w2 / 4) as u8]);
        }
        Ok(out)
    }
}

} // verus!
