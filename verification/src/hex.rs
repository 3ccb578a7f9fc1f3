//! Lowercase hexadecimal rendering of byte sequences, shared by the MD5
//! engine and the object identifier.

use vstd::prelude::*;

verus! {

/// The lowercase hexadecimal digit for a value in `0..16`.
pub open spec fn hex_digit_char(n: int) -> char {
    if n == 0 {
        '0'
    } else if n == 1 {
        '1'
    } else if n == 2 {
        '2'
    } else if n == 3 {
        '3'
    } else if n == 4 {
        '4'
    } else if n == 5 {
        '5'
    } else if n == 6 {
        '6'
    } else if n == 7 {
        '7'
    } else if n == 8 {
        '8'
    } else if n == 9 {
        '9'
    } else if n == 10 {
        'a'
    } else if n == 11 {
        'b'
    } else if n == 12 {
        'c'
    } else if n == 13 {
        'd'
    } else if n == 14 {
        'e'
    } else {
        'f'
    }
}

/// True of the sixteen characters that `hex_digit_char` can produce.
pub open spec fn is_hex_digit_char(c: char) -> bool {
    ('0' <= c && c <= '9') || ('a' <= c && c <= 'f')
}

/// The lowercase hexadecimal rendering of a byte sequence: two digits per
/// byte, high nibble first.
pub open spec fn spec_hex(bytes: Seq<u8>) -> Seq<char> {
    Seq::new(
        2 * bytes.len(),
        |i: int|
            if i % 2 == 0 {
                hex_digit_char(bytes[i / 2] as int / 16)
            } else {
                hex_digit_char(bytes[i / 2] as int % 16)
            },
    )
}

pub proof fn lemma_hex_digit_char_is_hex(n: int)
    requires
        0 <= n < 16,
    ensures
        is_hex_digit_char(hex_digit_char(n)),
{
}

/// Every character of a hexadecimal rendering is a lowercase hex digit.
pub proof fn lemma_spec_hex_chars(bytes: Seq<u8>)
    ensures
        spec_hex(bytes).len() == 2 * bytes.len(),
        forall|i: int| 0 <= i < spec_hex(bytes).len() ==> is_hex_digit_char(#[trigger] spec_hex(bytes)[i]),
{
    assert forall|i: int| 0 <= i < spec_hex(bytes).len() implies is_hex_digit_char(
        #[trigger] spec_hex(bytes)[i],
    ) by {
        if i % 2 == 0 {
            lemma_hex_digit_char_is_hex(bytes[i / 2] as int / 16);
        } else {
            lemma_hex_digit_char_is_hex(bytes[i / 2] as int % 16);
        }
    }
}

/// A one-character string slice holding the lowercase hex digit for `n`.
pub fn hex_digit_str(n: u8) -> (s: &'static str)
    requires
        n < 16,
    ensures
        s@ =~= seq![hex_digit_char(n as int)],
{
    match n {
        0 => {
            let s = "0";
            proof {
                reveal_strlit("0");
            }
            s
        },
        1 => {
            let s = "1";
            proof {
                reveal_strlit("1");
            }
            s
        },
        2 => {
            let s = "2";
            proof {
                reveal_strlit("2");
            }
            s
        },
        3 => {
            let s = "3";
            proof {
                reveal_strlit("3");
            }
            s
        },
        4 => {
            let s = "4";
            proof {
                reveal_strlit("4");
            }
            s
        },
        5 => {
            let s = "5";
            proof {
                reveal_strlit("5");
            }
            s
        },
        6 => {
            let s = "6";
            proof {
                reveal_strlit("6");
            }
            s
        },
        7 => {
            let s = "7";
            proof {
                reveal_strlit("7");
            }
            s
        },
        8 => {
            let s = "8";
            proof {
                reveal_strlit("8");
            }
            s
        },
        9 => {
            let s = "9";
            proof {
                reveal_strlit("9");
            }
            s
        },
        10 => {
            let s = "a";
            proof {
                reveal_strlit("a");
            }
            s
        },
        11 => {
            let s = "b";
            proof {
                reveal_strlit("b");
            }
            s
        },
        12 => {
            let s = "c";
            proof {
                reveal_strlit("c");
            }
            s
        },
        13 => {
            let s = "d";
            proof {
                reveal_strlit("d");
            }
            s
        },
        14 => {
            let s = "e";
            proof {
                reveal_strlit("e");
            }
            s
        },
        _ => {
            let s = "f";
            proof {
                reveal_strlit("f");
            }
            s
        },
    }
}

/// Renders a byte sequence as a lowercase hexadecimal string, two digits
/// per byte.
pub fn hex_of_bytes(bytes: &Vec<u8>) -> (s: String)
    ensures
        s@ =~= spec_hex(bytes@),
{
    let mut s = String::new();
    let mut i: usize = 0;
    while i < bytes.len()
        invariant
            i <= bytes.len(),
            s@ =~= spec_hex(bytes@.take(i as int)),
        decreases bytes.len() - i,
    {
        let b = bytes[i];
        s.append(hex_digit_str(b / 16));
        s.append(hex_digit_str(b % 16));
        i = i + 1;
        assert(s@ =~= spec_hex(bytes@.take(i as int)));
    }
    assert(bytes@.take(bytes@.len() as int) =~= bytes@);
    s
}

} // verus!

