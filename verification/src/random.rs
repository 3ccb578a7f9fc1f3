//! Seeded deterministic pseudorandom generator over a xorshift state.
//!
//! Every draw is a pure function of the 64-bit state, given by
//! `xorshift_next`, so a generator built from an explicit seed is fully
//! reproducible; one built without a seed starts from a nanosecond clock
//! reading.

use vstd::prelude::*;

use crate::timestamp;

verus! {

/// One xorshift transition of the 64-bit state.
pub open spec fn xorshift_next(s: u64) -> u64 {
    let a = s ^ (s << 13u64);
    let b = a ^ (a >> 7u64);
    b ^ (b >> 17u64)
}

/// The state after `n` draws from seed `s`.
pub open spec fn xorshift_stream(s: u64, n: nat) -> u64
    decreases n,
{
    if n == 0 {
        s
    } else {
        xorshift_next(xorshift_stream(s, (n - 1) as nat))
    }
}

/// The `n` characters drawn from `alphabet` starting at seed `s`: draw
/// `k` picks the character at the draw value modulo the alphabet length.
pub open spec fn random_chars(alphabet: Seq<char>, s: u64, n: nat) -> Seq<char>
    recommends
        alphabet.len() > 0,
    decreases n,
{
    if n == 0 {
        Seq::empty()
    } else {
        random_chars(alphabet, s, (n - 1) as nat).push(
            alphabet[xorshift_stream(s, n) as int % alphabet.len() as int],
        )
    }
}

/// Every character that `random_chars` draws comes from the alphabet.
pub proof fn lemma_random_chars_from_alphabet(alphabet: Seq<char>, s: u64, n: nat)
    requires
        alphabet.len() > 0,
    ensures
        random_chars(alphabet, s, n).len() == n,
        forall|i: int|
            0 <= i < n ==> alphabet.contains(#[trigger] random_chars(alphabet, s, n)[i]),
    decreases n,
{
    if n > 0 {
        lemma_random_chars_from_alphabet(alphabet, s, (n - 1) as nat);
        let prev = random_chars(alphabet, s, (n - 1) as nat);
        let k = xorshift_stream(s, n) as int % alphabet.len() as int;
        assert(alphabet.contains(alphabet[k]));
    }
}

/// A draw from a one-character alphabet always picks that character:
/// `random_chars` over a single-character alphabet is that character
/// repeated.
pub proof fn lemma_single_char_alphabet(alphabet: Seq<char>, s: u64, n: nat)
    requires
        alphabet.len() == 1,
    ensures
        random_chars(alphabet, s, n).len() == n,
        forall|i: int| 0 <= i < n ==> #[trigger] random_chars(alphabet, s, n)[i] == alphabet[0],
{
    lemma_random_chars_from_alphabet(alphabet, s, n);
    assert forall|i: int| 0 <= i < n implies #[trigger] random_chars(alphabet, s, n)[i]
        == alphabet[0] by {
        let c = random_chars(alphabet, s, n)[i];
        assert(alphabet.contains(c));
        let j = choose|j: int| 0 <= j < alphabet.len() && alphabet[j] == c;
        assert(j == 0);
    }
}

/// The alphabet of digits and letters that the alphanumeric draws use.
pub open spec fn alphanum_charset() -> Seq<char> {
    "0123456789ABCDEFGHIJKLMNOPQRSTUVWXYZabcdefghijklmnopqrstuvwxyz"@
}

/// Xorshift generator: a single 64-bit state mutated in place by each
/// draw.
pub struct XorShiftRng {
    state: u64,
}

impl XorShiftRng {
    /// The current 64-bit state.
    pub closed spec fn spec_state(&self) -> u64 {
        self.state
    }

    /// A generator seeded explicitly, or from the nanosecond clock when
    /// no seed is supplied.
    pub fn new(seed: Option<u64>) -> (r: Self)
        ensures
            seed matches Some(s) ==> r.spec_state() == s,
    {
        match seed {
            Some(s) => XorShiftRng { state: s },
            None => XorShiftRng { state: timestamp::nano_seconds() },
        }
    }

    /// One xorshift draw: returns the new state, which is also the value
    /// drawn.
    pub fn next_u64(&mut self) -> (r: u64)
        ensures
            r == xorshift_next(old(self).spec_state()),
            final(self).spec_state() == r,
    {
        self.state = self.state ^ (self.state << 13u64);
        self.state = self.state ^ (self.state >> 7u64);
        self.state = self.state ^ (self.state >> 17u64);
        self.state
    }

    /// A draw reduced into `[min, max)` as `min` plus the draw modulo the
    /// span. The span must not be empty.
    pub fn gen_range(&mut self, min: u64, max: u64) -> (r: u64)
        requires
            min < max,
        ensures
            min <= r < max,
            r == min + xorshift_next(old(self).spec_state()) as int % (max - min) as int,
            final(self).spec_state() == xorshift_next(old(self).spec_state()),
    {
        let d = self.next_u64();
        min + d % (max - min)
    }

    /// Draws `length` characters from `alphabet`, each chosen by a draw
    /// modulo the alphabet length; the result is exactly `random_chars`
    /// of the starting state.
    pub fn gen_random(&mut self, alphabet: &str, length: usize) -> (r: String)
        requires
            alphabet@.len() > 0,
            alphabet.is_ascii(),
        ensures
            r@ == random_chars(alphabet@, old(self).spec_state(), length as nat),
            final(self).spec_state() == xorshift_stream(old(self).spec_state(), length as nat),
    {
        let ghost seed = self.spec_state();
        let n = alphabet.unicode_len();
        let mut r = String::new();
        assert(r@ =~= random_chars(alphabet@, seed, 0));
        let mut i: usize = 0;
        while i < length
            invariant
                i <= length,
                alphabet@.len() == n > 0,
                alphabet.is_ascii(),
                n <= usize::MAX,
                r@ == random_chars(alphabet@, seed, i as nat),
                self.spec_state() == xorshift_stream(seed, i as nat),
            decreases length - i,
        {
            let idx = self.gen_range(0, n as u64);
            let c = alphabet.substring_ascii(idx as usize, idx as usize + 1);
            r.append(c);
            i = i + 1;
            proof {
                assert(c@ =~= seq![alphabet@[idx as int]]);
                assert(r@ =~= random_chars(alphabet@, seed, (i - 1) as nat).push(
                    alphabet@[idx as int],
                ));
                assert(r@ =~= random_chars(alphabet@, seed, i as nat));
            }
        }
        r
    }
}

/// A random string of `len` characters drawn from the alphabet `s`; every
/// character of the result occurs in `s`.
pub fn str(s: &str, len: usize) -> (r: String)
    requires
        s@.len() > 0,
        s.is_ascii(),
    ensures
        r@.len() == len,
        forall|i: int| 0 <= i < len ==> s@.contains(#[trigger] r@[i]),
        exists|seed: u64| r@ == random_chars(s@, seed, len as nat),
{
    let mut rng = XorShiftRng::new(None);
    let ghost seed = rng.spec_state();
    let r = rng.gen_random(s, len);
    proof {
        lemma_random_chars_from_alphabet(s@, seed, len as nat);
    }
    r
}

/// A random string of decimal digits.
pub fn num(len: usize) -> (r: String)
    ensures
        r@.len() == len,
        forall|i: int| 0 <= i < len ==> "0123456789"@.contains(#[trigger] r@[i]),
        exists|seed: u64| r@ == random_chars("0123456789"@, seed, len as nat),
{
    let alphabet = "0123456789";
    proof {
        reveal_strlit("0123456789");
        assert(alphabet@.len() == 10);
        assert(vstd::utf8::is_ascii_chars(alphabet@)) by {
            assert forall|i: int| 0 <= i < alphabet@.len() implies '\0' <= #[trigger] alphabet@[i]
                <= '\u{7f}' by {
            }
        }
    }
    str(alphabet, len)
}

/// A random string of uppercase and lowercase letters.
pub fn alpha(len: usize) -> (r: String)
    ensures
        r@.len() == len,
        forall|i: int|
            0 <= i < len ==> "ABCDEFGHIJKLMNOPQRSTUVWXYZabcdefghijklmnopqrstuvwxyz"@.contains(
                #[trigger] r@[i],
            ),
        exists|seed: u64|
            r@ == random_chars(
                "ABCDEFGHIJKLMNOPQRSTUVWXYZabcdefghijklmnopqrstuvwxyz"@,
                seed,
                len as nat,
            ),
{
    let alphabet = "ABCDEFGHIJKLMNOPQRSTUVWXYZabcdefghijklmnopqrstuvwxyz";
    proof {
        reveal_strlit("ABCDEFGHIJKLMNOPQRSTUVWXYZabcdefghijklmnopqrstuvwxyz");
        assert(alphabet@.len() == 52);
        assert(vstd::utf8::is_ascii_chars(alphabet@)) by {
            assert forall|i: int| 0 <= i < alphabet@.len() implies '\0' <= #[trigger] alphabet@[i]
                <= '\u{7f}' by {
            }
        }
    }
    str(alphabet, len)
}

/// A random string of digits and letters.
pub fn alpha_num(len: usize) -> (r: String)
    ensures
        r@.len() == len,
        forall|i: int| 0 <= i < len ==> alphanum_charset().contains(#[trigger] r@[i]),
        exists|seed: u64| r@ == random_chars(alphanum_charset(), seed, len as nat),
{
    let alphabet = "0123456789ABCDEFGHIJKLMNOPQRSTUVWXYZabcdefghijklmnopqrstuvwxyz";
    proof {
        reveal_strlit("0123456789ABCDEFGHIJKLMNOPQRSTUVWXYZabcdefghijklmnopqrstuvwxyz");
        assert(alphabet@.len() == 62);
        assert(vstd::utf8::is_ascii_chars(alphabet@)) by {
            assert forall|i: int| 0 <= i < alphabet@.len() implies '\0' <= #[trigger] alphabet@[i]
                <= '\u{7f}' by {
            }
        }
    }
    let r = str(alphabet, len);
    proof {
        assert(alphabet@ == alphanum_charset());
        let sd = choose|sd: u64| r@ == random_chars(alphabet@, sd, len as nat);
        assert(r@ == random_chars(alphanum_charset(), sd, len as nat));
    }
    r
}

/// A random value in `[min, max)`; the span must not be empty.
pub fn range(min: u64, max: u64) -> (r: u64)
    requires
        min < max,
    ensures
        min <= r < max,
{
    let mut rng = XorShiftRng::new(None);
    rng.gen_range(min, max)
}

} // verus!
