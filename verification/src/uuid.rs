//! UUID composer: hashes a highly variable input built from a random
//! alphanumeric string, a nanosecond clock reading, and a hardware
//! address (or a second clock reading when none is available), then
//! re-slices the 32-character digest into the canonical hyphenated
//! 36-character shape.

use vstd::prelude::*;

use crate::hex::{hex_digit_char, hex_digit_str, is_hex_digit_char, lemma_spec_hex_chars, spec_hex};
use crate::md5;
use crate::random;
use crate::timestamp;
use vstd::string::StringSliceAdditionalSpecFns;

verus! {

broadcast use vstd::string::is_ascii_spec_bytes;

/// The decimal digits of `n`, most significant first.
pub open spec fn dec_digits(n: nat) -> Seq<char>
    decreases n,
{
    if n < 10 {
        seq![hex_digit_char(n as int)]
    } else {
        dec_digits(n / 10).push(hex_digit_char((n % 10) as int))
    }
}

/// Powers of ten.
pub open spec fn pow10(k: nat) -> nat
    decreases k,
{
    if k == 0 {
        1nat
    } else {
        10 * pow10((k - 1) as nat)
    }
}

/// A value below the `k`-th power of ten has at most `k` decimal digits.
proof fn lemma_dec_digits_len(n: nat, k: nat)
    requires
        1 <= k,
        n < pow10(k),
    ensures
        1 <= dec_digits(n).len() <= k,
    decreases k,
{
    if n < 10 {
    } else {
        assert(pow10(k) == 10 * pow10((k - 1) as nat));
        if k == 1 {
            assert(pow10(0nat) == 1);
            assert(false);
        }
        lemma_dec_digits_len(n / 10, (k - 1) as nat);
    }
}

/// A 64-bit value has at most twenty decimal digits.
proof fn lemma_u64_dec_len(n: u64)
    ensures
        1 <= dec_digits(n as nat).len() <= 20,
{
    reveal_with_fuel(pow10, 21);
    assert(pow10(20) == 100000000000000000000);
    lemma_dec_digits_len(n as nat, 20);
}

/// Every decimal digit character is a lowercase hex digit character, so
/// in particular an ASCII character.
proof fn lemma_dec_digits_ascii(n: nat)
    ensures
        vstd::utf8::is_ascii_chars(dec_digits(n)),
    decreases n,
{
    if n < 10 {
        assert(dec_digits(n) =~= seq![hex_digit_char(n as int)]);
    } else {
        lemma_dec_digits_ascii(n / 10);
        let prev = dec_digits(n / 10);
        let whole = prev.push(hex_digit_char((n % 10) as int));
        assert forall|i: int| 0 <= i < whole.len() implies '\0' <= #[trigger] whole[i]
            <= '\u{7f}' by {
            if i < prev.len() {
                assert(whole[i] == prev[i]);
            }
        }
    }
}

/// Renders a 64-bit value in decimal.
pub fn u64_dec(n: u64) -> (r: String)
    ensures
        r@ == dec_digits(n as nat),
    decreases n,
{
    if n < 10 {
        let mut s = String::new();
        s.append(hex_digit_str((n % 16) as u8));
        proof {
            assert(s@ =~= dec_digits(n as nat));
        }
        s
    } else {
        let mut s = u64_dec(n / 10);
        s.append(hex_digit_str((n % 10) as u8));
        proof {
            assert(s@ =~= dec_digits(n as nat));
        }
        s
    }
}

/// The canonical 36-character shape: a 32-character digest re-sliced
/// into groups of 8, 4, 4, 4 and 12 hex characters joined by hyphens.
pub open spec fn spec_uuid_format(h: Seq<char>) -> Seq<char>
    recommends
        h.len() == 32,
{
    h.subrange(0, 8) + seq!['-'] + h.subrange(8, 12) + seq!['-'] + h.subrange(12, 16) + seq!['-']
        + h.subrange(16, 20) + seq!['-'] + h.subrange(20, 32)
}

/// A canonical UUID string: 36 characters, hyphens at positions 8, 13,
/// 18 and 23, every other character a lowercase hex digit.
pub open spec fn is_canonical_uuid(s: Seq<char>) -> bool {
    &&& s.len() == 36
    &&& s[8] == '-'
    &&& s[13] == '-'
    &&& s[18] == '-'
    &&& s[23] == '-'
    &&& forall|i: int|
        0 <= i < 36 && i != 8 && i != 13 && i != 18 && i != 23 ==> is_hex_digit_char(#[trigger] s[i])
}

/// Re-slicing a 32-character sequence of hex digits yields a canonical
/// UUID string.
pub proof fn lemma_uuid_format_canonical(h: Seq<char>)
    requires
        h.len() == 32,
        forall|i: int| 0 <= i < 32 ==> is_hex_digit_char(#[trigger] h[i]),
    ensures
        is_canonical_uuid(spec_uuid_format(h)),
{
    let s = spec_uuid_format(h);
    assert(s.len() == 36);
    assert(s[8] == '-');
    assert(s[13] == '-');
    assert(s[18] == '-');
    assert(s[23] == '-');
    assert forall|i: int|
        0 <= i < 36 && i != 8 && i != 13 && i != 18 && i != 23 implies is_hex_digit_char(
        #[trigger] s[i],
    ) by {
        if i < 8 {
            assert(s[i] == h[i]);
        } else if i < 13 {
            assert(s[i] == h[i - 1]);
        } else if i < 18 {
            assert(s[i] == h[i - 2]);
        } else if i < 23 {
            assert(s[i] == h[i - 3]);
        } else {
            assert(s[i] == h[i - 4]);
        }
    }
}

/// Re-slices a 32-character hexadecimal string into the hyphenated
/// canonical shape.
pub fn format_uuid(h: &str) -> (r: String)
    requires
        h@.len() == 32,
        h.is_ascii(),
    ensures
        r@ == spec_uuid_format(h@),
{
    let dash = "-";
    proof {
        reveal_strlit("-");
        assert(dash@ =~= seq!['-']);
    }
    let mut r = String::new();
    r.append(h.substring_ascii(0, 8));
    r.append(dash);
    r.append(h.substring_ascii(8, 12));
    r.append(dash);
    r.append(h.substring_ascii(12, 16));
    r.append(dash);
    r.append(h.substring_ascii(16, 20));
    r.append(dash);
    r.append(h.substring_ascii(20, 32));
    proof {
        assert(r@ =~= spec_uuid_format(h@));
    }
    r
}

/// The bytes of an ASCII character sequence, one byte per character.
pub open spec fn ascii_bytes(cs: Seq<char>) -> Seq<u8> {
    Seq::new(cs.len(), |i: int| cs[i] as u8)
}

/// The text the composer hashes: a 36-character alphanumeric draw from
/// seed `seed`, the decimal rendering of the clock reading `nanos`, and
/// the hardware-address tail, joined by hyphens.
pub open spec fn uuid_input(seed: u64, nanos: u64, tail: Seq<char>) -> Seq<char> {
    crate::random::random_chars(crate::random::alphanum_charset(), seed, 36) + seq!['-']
        + dec_digits(nanos as nat) + seq!['-'] + tail
}

/// Composes a UUID: hashes `{random alphanumeric}-{nanoseconds}-{mac or
/// fallback}` with MD5 and formats the digest canonically. The result is
/// the canonical formatting of the digest of an input of that shape,
/// whose tail is the given hardware address, or the decimal rendering of
/// a second clock reading when none is given. The address must be ASCII
/// text, as a resolver produces, small enough to leave the fixed parts
/// room under the digest engine's message cap.
pub fn new(mac: Option<&str>) -> (r: String)
    requires
        mac matches Some(m) ==> m.is_ascii() && m@.len() + 64 <= md5::max_message_len(),
    ensures
        is_canonical_uuid(r@),
        mac matches Some(m) ==> exists|seed: u64, nanos: u64|
            r@ == spec_uuid_format(
                spec_hex(md5::md5_digest(ascii_bytes(#[trigger] uuid_input(seed, nanos, m@)))),
            ),
        mac is None ==> exists|seed: u64, nanos: u64, fallback: u64|
            r@ == spec_uuid_format(
                spec_hex(
                    md5::md5_digest(
                        ascii_bytes(
                            #[trigger] uuid_input(seed, nanos, dec_digits(fallback as nat)),
                        ),
                    ),
                ),
            ),
{
    let dash = "-";
    proof {
        reveal_strlit("-");
        assert(dash@ =~= seq!['-']);
    }
    let mut input = random::alpha_num(36);
    let ghost rand_view = input@;
    let ghost seed = choose|sd: u64|
        rand_view == crate::random::random_chars(crate::random::alphanum_charset(), sd, 36nat);
    proof {
        lemma_alpha_num_ascii(input@);
    }
    let nanos = timestamp::nano_seconds();
    let ts = u64_dec(nanos);
    proof {
        lemma_u64_dec_len(nanos);
        lemma_dec_digits_ascii(nanos as nat);
    }
    input.append(dash);
    input.append(ts.as_str());
    input.append(dash);
    let ghost mut tail: Seq<char> = Seq::empty();
    let ghost mut fallback_reading: u64 = 0;
    match mac {
        Some(m) => {
            proof {
                tail = m@;
            }
            input.append(m);
        },
        None => {
            let fallback = timestamp::nano_seconds();
            let fb = u64_dec(fallback);
            proof {
                lemma_u64_dec_len(fallback);
                lemma_dec_digits_ascii(fallback as nat);
                tail = fb@;
                fallback_reading = fallback;
            }
            input.append(fb.as_str());
        },
    }
    proof {
        assert(input@ =~= uuid_input(seed, nanos, tail));
        assert(input@.len() <= 58 + tail.len());
        assert(vstd::utf8::is_ascii_chars(input@));
    }
    let input_str = input.as_str();
    let bytes = input_str.as_bytes();
    proof {
        assert(input_str@ == input@);
        assert(vstd::string::is_ascii(input_str));
        assert(input_str.spec_bytes() =~= Seq::new(
            input_str@.len(),
            |i: int| input_str@.index(i) as u8,
        ));
        assert(bytes@ =~= ascii_bytes(input@));
        assert(bytes@.len() <= md5::max_message_len());
    }
    let h = md5::str(bytes);
    let ghost d = md5::md5_digest(bytes@);
    proof {
        assert(d.len() == 16);
        assert(h@.len() == 32);
        lemma_spec_hex_chars(d);
        assert(vstd::utf8::is_ascii_chars(h@)) by {
            assert forall|i: int| 0 <= i < h@.len() implies '\0' <= #[trigger] h@[i]
                <= '\u{7f}' by {
                assert(is_hex_digit_char(h@[i]));
            }
        }
    }
    let r = format_uuid(h.as_str());
    proof {
        lemma_uuid_format_canonical(h@);
        assert(d == md5::md5_digest(ascii_bytes(uuid_input(seed, nanos, tail))));
        assert(r@ == spec_uuid_format(spec_hex(d)));
        match mac {
            Some(m) => {
                assert(r@ == spec_uuid_format(
                    spec_hex(md5::md5_digest(ascii_bytes(uuid_input(seed, nanos, m@)))),
                ));
            },
            None => {
                assert(r@ == spec_uuid_format(
                    spec_hex(
                        md5::md5_digest(
                            ascii_bytes(
                                uuid_input(seed, nanos, dec_digits(fallback_reading as nat)),
                            ),
                        ),
                    ),
                ));
            },
        }
    }
    r
}

/// Characters drawn from the alphanumeric alphabet are ASCII.
proof fn lemma_alpha_num_ascii(s: Seq<char>)
    requires
        forall|i: int|
            0 <= i < s.len() ==> crate::random::alphanum_charset().contains(#[trigger] s[i]),
    ensures
        vstd::utf8::is_ascii_chars(s),
{
    reveal_strlit("0123456789ABCDEFGHIJKLMNOPQRSTUVWXYZabcdefghijklmnopqrstuvwxyz");
    let alphabet = crate::random::alphanum_charset();
    assert(vstd::utf8::is_ascii_chars(alphabet)) by {
        assert forall|i: int| 0 <= i < alphabet.len() implies '\0' <= #[trigger] alphabet[i]
            <= '\u{7f}' by {
        }
    }
    assert forall|i: int| 0 <= i < s.len() implies '\0' <= #[trigger] s[i] <= '\u{7f}' by {
        let c = s[i];
        assert(alphabet.contains(c));
        let j = choose|j: int| 0 <= j < alphabet.len() && alphabet[j] == c;
        assert('\0' <= alphabet[j] <= '\u{7f}');
    }
}

} // verus!
