//! Parsing of hardware addresses out of network-configuration command
//! output. Resolving the output itself is the caller's concern; this
//! module holds the pure syntax: what counts as a hardware address, and
//! finding the first whitespace-separated token that is one.

use vstd::prelude::*;

verus! {

/// A hexadecimal digit, in either case.
pub open spec fn is_mac_hex(c: char) -> bool {
    let u = c as u32;
    (48 <= u <= 57) || (65 <= u <= 70) || (97 <= u <= 102)
}

/// A group separator of a hardware address.
pub open spec fn is_mac_sep(c: char) -> bool {
    c == ':' || c == '-'
}

/// A syntactically valid hardware address: six groups of two hex digits
/// joined by single `:` or `-` separators, 17 characters in all.
pub open spec fn is_valid_mac(s: Seq<char>) -> bool {
    &&& s.len() == 17
    &&& forall|i: int|
        0 <= i < 17 ==> if i % 3 == 2 {
            is_mac_sep(#[trigger] s[i])
        } else {
            is_mac_hex(s[i])
        }
}

/// Whitespace, the characters that separate tokens of command output:
/// the Unicode white-space code points.
pub open spec fn is_space(c: char) -> bool {
    let u = c as u32;
    (9 <= u <= 13) || u == 0x20 || u == 0x85 || u == 0xa0 || u == 0x1680 || (0x2000 <= u
        <= 0x200a) || u == 0x2028 || u == 0x2029 || u == 0x202f || u == 0x205f || u == 0x3000
}

/// A maximal whitespace-free run `s[i..j]`: bounded by whitespace or the
/// ends of the text, with no whitespace inside.
pub open spec fn token_at(s: Seq<char>, i: int, j: int) -> bool {
    &&& 0 <= i < j <= s.len()
    &&& (i == 0 || is_space(s[i - 1]))
    &&& (j == s.len() || is_space(s[j]))
    &&& forall|k: int| i <= k < j ==> !is_space(#[trigger] s[k])
}

/// Whether `mac` has the syntax of a hardware address: six colon- or
/// hyphen-separated groups of two hexadecimal digits.
pub fn is_valid_address(mac: &str) -> (b: bool)
    ensures
        b == is_valid_mac(mac@),
{
    let n = mac.unicode_len();
    if n != 17 {
        return false;
    }
    let mut i: usize = 0;
    while i < 17
        invariant
            i <= 17,
            mac@.len() == 17,
            forall|k: int|
                0 <= k < i ==> if k % 3 == 2 {
                    is_mac_sep(#[trigger] mac@[k])
                } else {
                    is_mac_hex(mac@[k])
                },
        decreases 17 - i,
    {
        let c = mac.get_char(i);
        if i % 3 == 2 {
            if !(c == ':' || c == '-') {
                return false;
            }
        } else {
            let u = c as u32;
            if !((48 <= u && u <= 57) || (65 <= u && u <= 70) || (97 <= u && u <= 102)) {
                return false;
            }
        }
        i = i + 1;
    }
    true
}

/// Scans text for the first whitespace-separated token with the syntax
/// of a hardware address. Returns the earliest such token when the text
/// holds one — every token starting before it is not a valid address —
/// and nothing when no token of the text is a valid address.
pub fn first_valid_address(text: &str) -> (r: Option<String>)
    ensures
        r matches Some(t) ==> exists|i: int, j: int|
            {
                &&& #[trigger] token_at(text@, i, j)
                &&& t@ == text@.subrange(i, j)
                &&& is_valid_mac(t@)
                &&& forall|i2: int, j2: int|
                    #[trigger] token_at(text@, i2, j2) && i2 < i ==> !is_valid_mac(
                        text@.subrange(i2, j2),
                    )
            },
        r is None ==> forall|i: int, j: int|
            #[trigger] token_at(text@, i, j) ==> !is_valid_mac(text@.subrange(i, j)),
{
    let n = text.unicode_len();
    let mut i: usize = 0;
    while i < n
        invariant
            i <= n,
            n == text@.len(),
            i == 0 || is_space(text@[i - 1]) || (i < n ==> is_space(text@[i as int])),
            forall|i2: int, j2: int|
                #[trigger] token_at(text@, i2, j2) && i2 < i ==> !is_valid_mac(
                    text@.subrange(i2, j2),
                ),
        decreases n - i,
    {
        let c = text.get_char(i);
        if is_space_char(c) {
            i = i + 1;
        } else {
            let start = i;
            let mut j = i + 1;
            while j < n && !is_space_at(text, j)
                invariant
                    start < j <= n,
                    n == text@.len(),
                    forall|k: int| start <= k < j ==> !is_space(#[trigger] text@[k]),
                decreases n - j,
            {
                j = j + 1;
            }
            proof {
                assert(token_at(text@, start as int, j as int));
            }
            let token = text.substring_char(start, j);
            if is_valid_address(token) {
                proof {
                    assert(token@ == text@.subrange(start as int, j as int));
                }
                return Some(token.to_owned());
            }
            proof {
                assert forall|i2: int, j2: int|
                    #[trigger] token_at(text@, i2, j2) && i2 < j implies !is_valid_mac(
                    text@.subrange(i2, j2),
                ) by {
                    if i2 >= start {
                        assert(i2 == start) by {
                            if i2 > start {
                                assert(!is_space(text@[i2 - 1]));
                            }
                        }
                        assert(j2 == j) by {
                            if j2 < j {
                                assert(is_space(text@[j2]));
                                assert(!is_space(text@[j2]));
                            }
                            if j2 > j {
                                assert(j < text@.len());
                                assert(is_space(text@[j as int]));
                                assert(!is_space(text@[j as int]));
                            }
                        }
                    }
                }
            }
            i = j;
        }
    }
    proof {
        assert forall|i2: int, j2: int| #[trigger] token_at(text@, i2, j2) implies !is_valid_mac(
            text@.subrange(i2, j2),
        ) by {
            assert(i2 < n);
        }
    }
    None
}

/// Whether the character at `k` is whitespace.
fn is_space_at(text: &str, k: usize) -> (b: bool)
    requires
        k < text@.len(),
    ensures
        b == is_space(text@[k as int]),
{
    is_space_char(text.get_char(k))
}

/// Whether a character is whitespace.
fn is_space_char(c: char) -> (b: bool)
    ensures
        b == is_space(c),
{
    let u = c as u32;
    (9 <= u && u <= 13) || u == 0x20 || u == 0x85 || u == 0xa0 || u == 0x1680 || (0x2000 <= u
        && u <= 0x200a) || u == 0x2028 || u == 0x2029 || u == 0x202f || u == 0x205f || u == 0x3000
}

} // verus!
