//! Base64 codec over the standard alphabet with `=` padding.

use vstd::prelude::*;

use crate::uuid::u64_dec;
use vstd::string::StringSliceAdditionalSpecFns;
use vstd::utf8::{decode_utf8, valid_utf8};

verus! {

broadcast use vstd::string::is_ascii_spec_bytes;

/// The 64 characters of the standard Base64 alphabet.
pub open spec fn b64_charset() -> Seq<char> {
    "ABCDEFGHIJKLMNOPQRSTUVWXYZabcdefghijklmnopqrstuvwxyz0123456789+/"@
}

/// The alphabet holds 64 ASCII characters.
pub proof fn lemma_b64_charset()
    ensures
        b64_charset().len() == 64,
        vstd::utf8::is_ascii_chars(b64_charset()),
{
    reveal_strlit("ABCDEFGHIJKLMNOPQRSTUVWXYZabcdefghijklmnopqrstuvwxyz0123456789+/");
    assert forall|i: int| 0 <= i < b64_charset().len() implies '\0' <= #[trigger] b64_charset()[i]
        <= '\u{7f}' by {
    }
}

/// The Base64 encoding of a byte sequence, three input bytes to four
/// output characters, with `=` padding for a trailing group of one or
/// two bytes.
pub open spec fn b64_encode(bytes: Seq<u8>) -> Seq<char>
    decreases bytes.len(),
{
    if bytes.len() == 0 {
        Seq::empty()
    } else if bytes.len() == 1 {
        let b0 = bytes[0] as int;
        seq![b64_charset()[b0 / 4], b64_charset()[b0 % 4 * 16], '=', '=']
    } else if bytes.len() == 2 {
        let b0 = bytes[0] as int;
        let b1 = bytes[1] as int;
        seq![b64_charset()[b0 / 4], b64_charset()[b0 % 4 * 16 + b1 / 16], b64_charset()[b1 % 16 * 4], '=']
    } else {
        let b0 = bytes[0] as int;
        let b1 = bytes[1] as int;
        let b2 = bytes[2] as int;
        seq![
            b64_charset()[b0 / 4],
            b64_charset()[b0 % 4 * 16 + b1 / 16],
            b64_charset()[b1 % 16 * 4 + b2 / 64],
            b64_charset()[b2 % 64],
        ] + b64_encode(bytes.skip(3))
    }
}

/// Encoding distributes over a split at a multiple of three bytes.
proof fn lemma_b64_encode_concat(a: Seq<u8>, b: Seq<u8>)
    requires
        a.len() % 3 == 0,
    ensures
        b64_encode(a + b) == b64_encode(a) + b64_encode(b),
    decreases a.len(),
{
    if a.len() == 0 {
        assert(a + b =~= b);
        assert(b64_encode(a) =~= Seq::<char>::empty());
        assert(b64_encode(a) + b64_encode(b) =~= b64_encode(b));
    } else {
        let rest = a.skip(3);
        assert(rest.len() % 3 == 0);
        assert((a + b).len() >= 3);
        assert((a + b).skip(3) =~= rest + b);
        assert((a + b)[0] == a[0] && (a + b)[1] == a[1] && (a + b)[2] == a[2]);
        lemma_b64_encode_concat(rest, b);
        assert(b64_encode(a) + b64_encode(b) =~= b64_encode(a + b));
    }
}

/// One full group extends the encoding of a prefix by four characters.
proof fn lemma_b64_encode_step(bytes: Seq<u8>, i: int)
    requires
        0 <= i,
        i % 3 == 0,
        i + 3 <= bytes.len(),
    ensures
        b64_encode(bytes.take(i + 3)) == b64_encode(bytes.take(i)) + seq![
            b64_charset()[bytes[i] as int / 4],
            b64_charset()[bytes[i] as int % 4 * 16 + bytes[i + 1] as int / 16],
            b64_charset()[bytes[i + 1] as int % 16 * 4 + bytes[i + 2] as int / 64],
            b64_charset()[bytes[i + 2] as int % 64],
        ],
{
    let pre = bytes.take(i);
    let grp = bytes.subrange(i, i + 3);
    assert(bytes.take(i + 3) =~= pre + grp);
    lemma_b64_encode_concat(pre, grp);
    let grp_tail = grp.skip(3);
    assert(grp_tail =~= Seq::<u8>::empty());
    assert(b64_encode(grp_tail) =~= Seq::<char>::empty());
    assert(b64_encode(grp) =~= seq![
        b64_charset()[grp[0] as int / 4],
        b64_charset()[grp[0] as int % 4 * 16 + grp[1] as int / 16],
        b64_charset()[grp[1] as int % 16 * 4 + grp[2] as int / 64],
        b64_charset()[grp[2] as int % 64],
    ] + b64_encode(grp_tail));
    assert(grp[0] == bytes[i] && grp[1] == bytes[i + 1] && grp[2] == bytes[i + 2]);
}

/// The numeric value of a Base64 alphabet byte, or -1 for a byte outside
/// the alphabet.
pub open spec fn b64_value(b: u8) -> int {
    if 65 <= b <= 90 {
        b - 65
    } else if 97 <= b <= 122 {
        b - 97 + 26
    } else if 48 <= b <= 57 {
        b - 48 + 52
    } else if b == 43 {
        62
    } else if b == 47 {
        63
    } else {
        -1
    }
}

/// The index of the first `=` byte, or the length when there is none:
/// decoding stops at the first padding byte.
pub open spec fn pad_index(s: Seq<u8>) -> int
    decreases s.len(),
{
    if s.len() == 0 {
        0
    } else if s[0] == 61 {
        0
    } else {
        1 + pad_index(s.skip(1))
    }
}

pub proof fn lemma_pad_index_bounds(s: Seq<u8>)
    ensures
        0 <= pad_index(s) <= s.len(),
        forall|k: int| 0 <= k < pad_index(s) ==> s[k] != 61,
        pad_index(s) < s.len() ==> s[pad_index(s)] == 61,
    decreases s.len(),
{
    if s.len() == 0 {
    } else if s[0] == 61 {
    } else {
        lemma_pad_index_bounds(s.skip(1));
        assert forall|k: int| 0 <= k < pad_index(s) implies s[k] != 61 by {
            if k > 0 {
                assert(s.skip(1)[k - 1] != 61);
            }
        }
    }
}

/// A scan that finds no `=` before `i`, and `=` or the end at `i`, has
/// found the padding index.
pub proof fn lemma_pad_index_unique(s: Seq<u8>, i: int)
    requires
        0 <= i <= s.len(),
        forall|k: int| 0 <= k < i ==> s[k] != 61,
        i < s.len() ==> s[i] == 61,
    ensures
        pad_index(s) == i,
    decreases s.len(),
{
    if s.len() == 0 {
    } else if s[0] == 61 {
    } else {
        assert(s[0] != 61);
        assert forall|k: int| 0 <= k < i - 1 implies s.skip(1)[k] != 61 by {
            assert(s[k + 1] != 61);
        }
        lemma_pad_index_unique(s.skip(1), i - 1);
    }
}

/// The bytes a sequence of Base64 values decodes to: four values to
/// three bytes, a trailing pair to one byte, a trailing triple to two, a
/// single leftover value to none.
pub open spec fn b64_decode_values(vals: Seq<int>) -> Seq<u8>
    decreases vals.len(),
{
    if vals.len() < 2 {
        Seq::empty()
    } else if vals.len() == 2 {
        seq![(vals[0] * 4 + vals[1] / 16) as u8]
    } else if vals.len() == 3 {
        seq![(vals[0] * 4 + vals[1] / 16) as u8, (vals[1] % 16 * 16 + vals[2] / 4) as u8]
    } else {
        seq![
            (vals[0] * 4 + vals[1] / 16) as u8,
            (vals[1] % 16 * 16 + vals[2] / 4) as u8,
            (vals[2] % 4 * 64 + vals[3]) as u8,
        ] + b64_decode_values(vals.skip(4))
    }
}

/// Decoding distributes over a split at a multiple of four values.
proof fn lemma_b64_decode_concat(a: Seq<int>, b: Seq<int>)
    requires
        a.len() % 4 == 0,
    ensures
        b64_decode_values(a + b) == b64_decode_values(a) + b64_decode_values(b),
    decreases a.len(),
{
    if a.len() == 0 {
        assert(a + b =~= b);
        assert(b64_decode_values(a) =~= Seq::<u8>::empty());
        assert(b64_decode_values(a) + b64_decode_values(b) =~= b64_decode_values(b));
    } else {
        let rest = a.skip(4);
        assert(rest.len() % 4 == 0);
        assert((a + b).len() >= 4);
        assert((a + b).skip(4) =~= rest + b);
        assert((a + b)[0] == a[0] && (a + b)[1] == a[1] && (a + b)[2] == a[2] && (a + b)[3]
            == a[3]);
        lemma_b64_decode_concat(rest, b);
        assert(b64_decode_values(a) + b64_decode_values(b) =~= b64_decode_values(a + b));
    }
}

/// The portion of the input that decoding reads: everything before the
/// first `=` byte.
pub open spec fn b64_body(s: Seq<u8>) -> Seq<u8> {
    s.take(pad_index(s))
}

/// True when every byte before the first `=` belongs to the alphabet.
pub open spec fn b64_body_valid(s: Seq<u8>) -> bool {
    forall|k: int| 0 <= k < b64_body(s).len() ==> b64_value(#[trigger] b64_body(s)[k]) >= 0
}

/// The byte sequence the input decodes to, when its body is valid.
pub open spec fn b64_decoded(s: Seq<u8>) -> Seq<u8> {
    b64_decode_values(b64_body(s).map_values(|b: u8| b64_value(b)))
}

/// Relies on `String::from_utf8`: returns the string over `v` exactly
/// when `v` is valid UTF-8, and fails otherwise; the error is rendered
/// as text.
#[verifier::external_body]
fn bytes_to_string(v: Vec<u8>) -> (r: Result<String, String>)
    ensures
        r matches Ok(s) ==> valid_utf8(v@) && s@ == decode_utf8(v@),
        r is Err <==> !valid_utf8(v@),
{
    String::from_utf8(v).map_err(|e| e.to_string())
}

/// Base64-encodes the UTF-8 bytes of `input`.
pub fn encode(input: &str) -> (r: String)
    ensures
        r@ == b64_encode(input.spec_bytes()),
{
    let bytes = input.as_bytes();
    let charset = "ABCDEFGHIJKLMNOPQRSTUVWXYZabcdefghijklmnopqrstuvwxyz0123456789+/";
    proof {
        lemma_b64_charset();
        assert(charset@ == b64_charset());
    }
    let pad = "=";
    proof {
        reveal_strlit("=");
        assert(pad@ =~= seq!['=']);
    }
    let mut r = String::new();
    let mut i: usize = 0;
    let blen = bytes.len();
    assert(r@ =~= b64_encode(bytes@.take(0)));
    while blen - i >= 3
        invariant
            i <= blen,
            i % 3 == 0,
            blen == bytes@.len(),
            charset@ == b64_charset(),
            charset@.len() == 64,
            vstd::utf8::is_ascii_chars(charset@),
            pad@ =~= seq!['='],
            r@ == b64_encode(bytes@.take(i as int)),
        decreases bytes@.len() - i,
    {
        let b0 = bytes[i];
        let b1 = bytes[i + 1];
        let b2 = bytes[i + 2];
        let i0 = (b0 / 4) as usize;
        let i1 = (b0 % 4 * 16 + b1 / 16) as usize;
        let i2 = (b1 % 16 * 4 + b2 / 64) as usize;
        let i3 = (b2 % 64) as usize;
        r.append(charset.substring_ascii(i0, i0 + 1));
        r.append(charset.substring_ascii(i1, i1 + 1));
        r.append(charset.substring_ascii(i2, i2 + 1));
        r.append(charset.substring_ascii(i3, i3 + 1));
        i = i + 3;
        proof {
            lemma_b64_encode_step(bytes@, i - 3);
            assert(r@ =~= b64_encode(bytes@.take(i as int)));
        }
    }
    let ghost done = bytes@.take(i as int);
    let rest = blen - i;
    if rest == 1 {
        let b0 = bytes[i];
        let i0 = (b0 / 4) as usize;
        let i1 = (b0 % 4 * 16) as usize;
        r.append(charset.substring_ascii(i0, i0 + 1));
        r.append(charset.substring_ascii(i1, i1 + 1));
        r.append(pad);
        r.append(pad);
        proof {
            let grp = bytes@.subrange(i as int, bytes@.len() as int);
            assert(bytes@ =~= done + grp);
            lemma_b64_encode_concat(done, grp);
            assert(r@ =~= b64_encode(bytes@));
        }
    } else if rest == 2 {
        let b0 = bytes[i];
        let b1 = bytes[i + 1];
        let i0 = (b0 / 4) as usize;
        let i1 = (b0 % 4 * 16 + b1 / 16) as usize;
        let i2 = (b1 % 16 * 4) as usize;
        r.append(charset.substring_ascii(i0, i0 + 1));
        r.append(charset.substring_ascii(i1, i1 + 1));
        r.append(charset.substring_ascii(i2, i2 + 1));
        r.append(pad);
        proof {
            let grp = bytes@.subrange(i as int, bytes@.len() as int);
            assert(bytes@ =~= done + grp);
            lemma_b64_encode_concat(done, grp);
            assert(r@ =~= b64_encode(bytes@));
        }
    } else {
        proof {
            assert(bytes@.take(i as int) =~= bytes@);
        }
    }
    r
}

/// The value of one input byte, or an error message naming it.
fn b64_value_of(b: u8) -> (r: Result<u8, String>)
    ensures
        r matches Ok(v) ==> v == b64_value(b) && b64_value(b) >= 0 && v < 64,
        r is Err <==> b64_value(b) < 0,
{
    if 65 <= b && b <= 90 {
        Ok(b - 65)
    } else if 97 <= b && b <= 122 {
        Ok(b - 97 + 26)
    } else if 48 <= b && b <= 57 {
        Ok(b - 48 + 52)
    } else if b == 43 {
        Ok(62)
    } else if b == 47 {
        Ok(63)
    } else {
        let mut msg = String::new();
        let prefix = "Invalid character in Base64 string: ";
        msg.append(prefix);
        let num = u64_dec(b as u64);
        msg.append(num.as_str());
        Err(msg)
    }
}

/// Decodes a Base64 string: reads bytes up to the first `=`, maps each
/// through the alphabet, reassembles the bytes, and interprets them as
/// UTF-8. Fails exactly when a byte before the first `=` is outside the
/// alphabet or the decoded bytes are not valid UTF-8.
#[verifier::rlimit(50)]
pub fn decode(input: &str) -> (r: Result<String, String>)
    ensures
        r matches Ok(s) ==> b64_body_valid(input.spec_bytes()) && valid_utf8(
            b64_decoded(input.spec_bytes()),
        ) && s@ == decode_utf8(b64_decoded(input.spec_bytes())),
        r is Err <==> !b64_body_valid(input.spec_bytes()) || !valid_utf8(
            b64_decoded(input.spec_bytes()),
        ),
{
    let bytes = input.as_bytes();
    let ghost s = bytes@;
    let mut vals: Vec<u8> = Vec::new();
    let mut i: usize = 0;
    let blen = bytes.len();
    let ghost body = b64_body(s);
    proof {
        lemma_pad_index_bounds(s);
    }
    let mut saw_pad = false;
    while i < blen && !saw_pad
        invariant
            i <= s.len(),
            blen == s.len(),
            bytes@ == s,
            s == input.spec_bytes(),
            !saw_pad ==> forall|k: int| 0 <= k < i ==> s[k] != 61,
            saw_pad ==> i > 0 && s[i - 1] == 61 && (forall|k: int| 0 <= k < i - 1 ==> s[k] != 61),
            vals@.len() == (if saw_pad {
                i - 1
            } else {
                i as int
            }),
            forall|k: int| 0 <= k < vals@.len() ==> (#[trigger] vals@[k]) == b64_value(s[k]),
            forall|k: int| 0 <= k < vals@.len() ==> b64_value(#[trigger] s[k]) >= 0,
        decreases s.len() - i,
    {
        let b = bytes[i];
        if b == 61 {
            saw_pad = true;
            i = i + 1;
            proof {
                assert forall|k: int|
                    0 <= k < vals@.len() implies (#[trigger] vals@[k]) == b64_value(s[k])
                    && b64_value(s[k]) >= 0 by {
                }
            }
        } else {
            match b64_value_of(b) {
                Ok(v) => {
                    let ghost pre_vals = vals@;
                    vals.push(v);
                    i = i + 1;
                    proof {
                        assert forall|k: int|
                            0 <= k < vals@.len() implies (#[trigger] vals@[k]) == b64_value(s[k])
                            && b64_value(s[k]) >= 0 by {
                            if k < pre_vals.len() {
                                assert(vals@[k] == pre_vals[k]);
                                assert(pre_vals[k] == b64_value(s[k]) && b64_value(s[k]) >= 0);
                            } else {
                                assert(vals@[k] == v);
                                assert(k == i - 1);
                            }
                        }
                    }
                },
                Err(msg) => {
                    proof {
                        lemma_pad_index_unique_partial(s, i as int);
                    }
                    return Err(msg);
                },
            }
        }
    }
    proof {
        if saw_pad {
            lemma_pad_index_unique(s, i - 1);
        } else {
            lemma_pad_index_unique(s, i as int);
        }
        assert(body =~= s.take(vals@.len() as int));
        assert(vals@.map_values(|v: u8| v as int) =~= body.map_values(|b: u8| b64_value(b)));
        assert forall|k: int| 0 <= k < b64_body(s).len() implies b64_value(
            #[trigger] b64_body(s)[k],
        ) >= 0 by {
            assert(vals@[k] == b64_value(s[k]));
            assert(b64_body(s)[k] == s[k]);
        }
        assert(b64_body_valid(s));
    }
    let ghost goal = b64_decoded(s);
    let mut out: Vec<u8> = Vec::new();
    let mut j: usize = 0;
    proof {
        assert(out@ =~= b64_decode_values(vals@.map_values(|v: u8| v as int).take(0)));
    }
    let vlen = vals.len();
    while vlen - j >= 4
        invariant
            j <= vlen,
            j % 4 == 0,
            vlen == vals@.len(),
            forall|k: int| 0 <= k < vals@.len() ==> 0 <= #[trigger] vals@[k] < 64,
            out@ == b64_decode_values(vals@.map_values(|v: u8| v as int).take(j as int)),
            vals@.len() == b64_body(s).len(),
            vals@.map_values(|v: u8| v as int) =~= b64_body(s).map_values(
                |b: u8| b64_value(b),
            ),
        decreases vals@.len() - j,
    {
        let v0 = vals[j];
        let v1 = vals[j + 1];
        let v2 = vals[j + 2];
        let v3 = vals[j + 3];
        out.push(v0 * 4 + v1 / 16);
        out.push(v1 % 16 * 16 + v2 / 4);
        out.push(v2 % 4 * 64 + v3);
        j = j + 4;
        proof {
            let m = vals@.map_values(|v: u8| v as int);
            let pre = m.take(j - 4);
            let grp = m.subrange(j - 4, j as int);
            assert(m.take(j as int) =~= pre + grp);
            lemma_b64_decode_concat(pre, grp);
            let grp_tail = grp.skip(4);
            assert(grp_tail =~= Seq::<int>::empty());
            assert(b64_decode_values(grp_tail) =~= Seq::<u8>::empty());
            assert(b64_decode_values(grp) =~= seq![
                (grp[0] * 4 + grp[1] / 16) as u8,
                (grp[1] % 16 * 16 + grp[2] / 4) as u8,
                (grp[2] % 4 * 64 + grp[3]) as u8,
            ] + b64_decode_values(grp_tail));
            assert(out@ =~= b64_decode_values(m.take(j as int)));
        }
    }
    let ghost m = vals@.map_values(|v: u8| v as int);
    let ghost donev = m.take(j as int);
    let restv = vlen - j;
    if restv == 2 {
        let v0 = vals[j];
        let v1 = vals[j + 1];
        out.push(v0 * 4 + v1 / 16);
        proof {
            let grp = m.subrange(j as int, m.len() as int);
            assert(m =~= donev + grp);
            lemma_b64_decode_concat(donev, grp);
            assert(b64_decode_values(grp) =~= seq![(grp[0] * 4 + grp[1] / 16) as u8]);
            assert(out@ =~= b64_decode_values(m));
        }
    } else if restv == 3 {
        let v0 = vals[j];
        let v1 = vals[j + 1];
        let v2 = vals[j + 2];
        out.push(v0 * 4 + v1 / 16);
        out.push(v1 % 16 * 16 + v2 / 4);
        proof {
            let grp = m.subrange(j as int, m.len() as int);
            assert(m =~= donev + grp);
            lemma_b64_decode_concat(donev, grp);
            assert(b64_decode_values(grp) =~= seq![
                (grp[0] * 4 + grp[1] / 16) as u8,
                (grp[1] % 16 * 16 + grp[2] / 4) as u8,
            ]);
            assert(out@ =~= b64_decode_values(m));
        }
    } else {
        proof {
            if restv == 1 {
                let grp = m.subrange(j as int, m.len() as int);
                assert(m =~= donev + grp);
                lemma_b64_decode_concat(donev, grp);
                assert(b64_decode_values(grp) =~= Seq::<u8>::empty());
                assert(out@ =~= b64_decode_values(m));
            } else {
                assert(m.take(j as int) =~= m);
            }
        }
    }
    proof {
        assert(out@ == goal);
    }
    bytes_to_string(out)
}

/// A scan that stops on an invalid byte before any `=` shows the body
/// invalid.
proof fn lemma_pad_index_unique_partial(s: Seq<u8>, i: int)
    requires
        0 <= i < s.len(),
        forall|k: int| 0 <= k < i ==> s[k] != 61,
        s[i] != 61,
        b64_value(s[i]) < 0,
    ensures
        !b64_body_valid(s),
{
    lemma_pad_index_bounds(s);
    if pad_index(s) <= i {
        assert(s[pad_index(s)] == 61);
        assert(false);
    }
    assert(b64_body(s)[i] == s[i]);
}

} // verus!
