use vstd::prelude::*;
use crate::{pow_nat, checked_pow_u64, lemma_pow_nat_step, lemma_pow_nat_pos};
use vstd::arithmetic::div_mod::{
    lemma_fundamental_div_mod, lemma_multiply_divide_lt, lemma_basic_div, lemma_small_mod,
};

verus! {

/// An ordered set of at least two distinct ASCII symbols; candidate strings
/// are base-`B` numerals over it, `B` being the number of symbols.
pub struct Alphabet {
    symbols: Vec<u8>,
}

/// What a usable alphabet is: at least two symbols, every symbol ASCII,
/// no symbol repeated.
pub open spec fn alphabet_wf(s: Seq<u8>) -> bool {
    &&& s.len() >= 2
    &&& forall|i: int| 0 <= i < s.len() ==> s[i] < 128
    &&& forall|i: int, j: int| 0 <= i < j < s.len() ==> s[i] != s[j]
}

/// The `length`-symbol string whose digits, most significant first, are the
/// base-`B` representation of `index` over alphabet `s`.
pub open spec fn decode_seq(s: Seq<u8>, index: nat, length: nat) -> Seq<u8>
    decreases length,
{
    if length == 0 {
        Seq::<u8>::empty()
    } else {
        let p = pow_nat(s.len() as nat, (length - 1) as nat);
        seq![s[(index / p) as int]] + decode_seq(s, index % p, (length - 1) as nat)
    }
}

/// The digit value of symbol `b` in alphabet `s`: its position.
pub open spec fn digit_of(s: Seq<u8>, b: u8) -> nat {
    choose|d: nat| d < s.len() && s[d as int] == b
}

/// Whether `b` is one of the symbols of `s`.
pub open spec fn in_alphabet(s: Seq<u8>, b: u8) -> bool {
    exists|d: int| 0 <= d < s.len() && s[d] == b
}

/// The index whose base-`B` representation, most significant digit first,
/// is the string `w` over alphabet `s`: the inverse of `decode_seq`.
pub open spec fn encode_seq(s: Seq<u8>, w: Seq<u8>) -> nat
    decreases w.len(),
{
    if w.len() == 0 {
        0
    } else {
        digit_of(s, w[0]) * pow_nat(s.len() as nat, (w.len() - 1) as nat)
            + encode_seq(s, w.drop_first())
    }
}

/// In a well-formed alphabet the digit of the `d`-th symbol is `d` itself:
/// symbols are distinct, so the position is unique.
pub proof fn lemma_digit_of_symbol(s: Seq<u8>, d: int)
    requires
        alphabet_wf(s),
        0 <= d < s.len(),
    ensures
        digit_of(s, s[d]) == d,
{
    let picked = digit_of(s, s[d]);
    assert(picked < s.len() && s[picked as int] == s[d]) by {
        assert((d as nat) < s.len() && s[d] == s[d]);
    }
    if picked as int != d {
        if (picked as int) < d {
            assert(s[picked as int] != s[d]);
        } else {
            assert(s[d] != s[picked as int]);
        }
    }
}

/// Encoding is the left inverse of decoding: reading the digits of `index`
/// back as a numeral recovers `index`.
pub proof fn lemma_encode_decode(s: Seq<u8>, index: nat, length: nat)
    requires
        alphabet_wf(s),
        index < pow_nat(s.len() as nat, length),
    ensures
        decode_seq(s, index, length).len() == length,
        forall|k: int|
            0 <= k < length ==> in_alphabet(s, #[trigger] decode_seq(s, index, length)[k]),
        encode_seq(s, decode_seq(s, index, length)) == index,
    decreases length,
{
    let b = s.len() as nat;
    if length == 0 {
        assert(pow_nat(b, 0) == 1);
    } else {
        let p = pow_nat(b, (length - 1) as nat);
        lemma_pow_nat_pos(b, (length - 1) as nat);
        lemma_pow_nat_step(b, (length - 1) as nat);
        let hi = index / p;
        let lo = index % p;
        lemma_multiply_divide_lt(index as int, p as int, b as int);
        assert(hi < b);
        lemma_fundamental_div_mod(index as int, p as int);
        assert(index == p * hi + lo);
        assert(lo < p) by {
            vstd::arithmetic::div_mod::lemma_mod_division_less_than_divisor(
                index as int,
                p as int,
            );
        }
        lemma_encode_decode(s, lo, (length - 1) as nat);
        let rest = decode_seq(s, lo, (length - 1) as nat);
        let whole = decode_seq(s, index, length);
        assert(whole == seq![s[hi as int]] + rest);
        assert(whole.len() == length);
        assert(whole.drop_first() =~= rest);
        assert(whole[0] == s[hi as int]);
        lemma_digit_of_symbol(s, hi as int);
        assert(in_alphabet(s, s[hi as int]));
        assert(forall|k: int| 0 <= k < length ==> in_alphabet(s, #[trigger] whole[k])) by {
            assert forall|k: int| 0 <= k < length implies in_alphabet(s, #[trigger] whole[k]) by {
                if k == 0 {
                    assert(whole[0] == s[hi as int]);
                } else {
                    assert(whole[k] == rest[k - 1]);
                }
            }
        }
        assert(encode_seq(s, whole) == digit_of(s, whole[0]) * p + encode_seq(s, rest));
        assert(digit_of(s, whole[0]) == hi);
        assert(hi * p == p * hi) by (nonlinear_arith);
    }
}

/// No two indices of the same keyspace decode to the same string.
pub proof fn lemma_decode_injective(s: Seq<u8>, i1: nat, i2: nat, length: nat)
    requires
        alphabet_wf(s),
        i1 < pow_nat(s.len() as nat, length),
        i2 < pow_nat(s.len() as nat, length),
        i1 != i2,
    ensures
        decode_seq(s, i1, length) != decode_seq(s, i2, length),
{
    lemma_encode_decode(s, i1, length);
    lemma_encode_decode(s, i2, length);
}

/// Round trip: decoding, encoding back, and decoding again reproduces the
/// first decoding, for every index of the keyspace.
pub proof fn lemma_decode_roundtrip(s: Seq<u8>, index: nat, length: nat)
    requires
        alphabet_wf(s),
        index < pow_nat(s.len() as nat, length),
    ensures
        decode_seq(s, encode_seq(s, decode_seq(s, index, length)), length) == decode_seq(
            s,
            index,
            length,
        ),
{
    lemma_encode_decode(s, index, length);
}

impl Alphabet {
    /// The symbols, in digit order.
    pub closed spec fn symbols(&self) -> Seq<u8> {
        self.symbols@
    }

    /// The base of the numeral system: how many symbols there are.
    pub open spec fn base(&self) -> nat {
        self.symbols().len() as nat
    }

    pub open spec fn wf(&self) -> bool {
        alphabet_wf(self.symbols())
    }

    /// Builds an alphabet, rejecting one that is too small, repeats a
    /// symbol, or holds a non-ASCII byte.
    pub fn new(symbols: Vec<u8>) -> (r: Option<Alphabet>)
        ensures
            match r {
                Some(a) => a.wf() && a.symbols() == symbols@,
                None => !alphabet_wf(symbols@),
            },
    {
        if symbols.len() < 2 {
            return None;
        }
        let n = symbols.len();
        let mut i: usize = 0;
        while i < n
            invariant
                n == symbols.len(),
                i <= n,
                forall|k: int| 0 <= k < i ==> symbols@[k] < 128,
            decreases n - i,
        {
            if symbols[i] >= 128 {
                return None;
            }
            i = i + 1;
        }
        let mut a: usize = 0;
        while a < n
            invariant
                n == symbols.len(),
                a <= n,
                forall|x: int, y: int| 0 <= x < y < a ==> symbols@[x] != symbols@[y],
                forall|x: int, y: int| 0 <= x < a && x < y < n ==> symbols@[x] != symbols@[y],
            decreases n - a,
        {
            let mut c: usize = a + 1;
            while c < n
                invariant
                    n == symbols.len(),
                    a < c,
                    c <= n,
                    a < n,
                    forall|y: int| a < y < c ==> symbols@[a as int] != symbols@[y],
                decreases n - c,
            {
                if symbols[a] == symbols[c] {
                    return None;
                }
                c = c + 1;
            }
            a = a + 1;
        }
        Some(Alphabet { symbols })
    }

    /// How many symbols the alphabet has.
    pub fn len(&self) -> (r: usize)
        ensures
            r as nat == self.base(),
    {
        self.symbols.len()
    }

    pub open spec fn spec_decode(&self, index: nat, length: nat) -> Seq<u8> {
        decode_seq(self.symbols(), index, length)
    }

    /// Decodes `index` into the `length`-character candidate string it
    /// names: digits taken most significant first.
    pub fn decode(&self, index: u64, length: usize) -> (r: Vec<u8>)
        requires
            self.wf(),
            (index as nat) < pow_nat(self.base(), length as nat),
        ensures
            r@ == self.spec_decode(index as nat, length as nat),
            r@.len() == length,
    {
        let ghost full = self.spec_decode(index as nat, length as nat);
        proof {
            lemma_encode_decode(self.symbols(), index as nat, length as nat);
        }
        let base: u64 = self.symbols.len() as u64;
        let mut out: Vec<u8> = Vec::new();
        let mut idx: u64 = index;
        let mut rem: usize = length;
        while rem > 0
            invariant
                self.wf(),
                base as nat == self.base(),
                base <= usize::MAX as u64,
                (idx as nat) < pow_nat(self.base(), rem as nat),
                out@ + decode_seq(self.symbols(), idx as nat, rem as nat) == full,
                out@.len() + rem == length,
            decreases rem,
        {
            let ghost b = self.base();
            let ghost pm = pow_nat(b, (rem - 1) as nat);
            proof {
                lemma_pow_nat_pos(b, (rem - 1) as nat);
                lemma_pow_nat_step(b, (rem - 1) as nat);
            }
            let d: u64;
            let ghost prev_idx = idx as nat;
            match checked_pow_u64(base, rem - 1) {
                Some(p) => {
                    d = idx / p;
                    idx = idx % p;
                    proof {
                        lemma_multiply_divide_lt(prev_idx as int, pm as int, b as int);
                        vstd::arithmetic::div_mod::lemma_mod_division_less_than_divisor(
                            prev_idx as int,
                            pm as int,
                        );
                    }
                }
                None => {
                    d = 0;
                    proof {
                        lemma_basic_div(prev_idx as int, pm as int);
                        lemma_small_mod(prev_idx, pm);
                    }
                }
            }
            assert(d < base);
            assert((idx as nat) < pm);
            proof {
                assert(decode_seq(self.symbols(), prev_idx, rem as nat) == seq![
                    self.symbols()[d as int],
                ] + decode_seq(self.symbols(), idx as nat, (rem - 1) as nat));
            }
            let ghost out_snap = out@;
            let ghost rest = decode_seq(self.symbols(), idx as nat, (rem - 1) as nat);
            proof {
                assert(d < base);
                assert((d as usize) as u64 == d);
            }
            let sym = self.symbols[d as usize];
            proof {
                assert(sym == self.symbols()[d as int]);
            }
            out.push(sym);
            proof {
                assert(out@ == out_snap.push(sym));
                assert(out_snap.push(sym) + rest =~= out_snap + (seq![sym] + rest));
                assert(out_snap + decode_seq(self.symbols(), prev_idx, rem as nat) == full);
                assert(out@ + rest == full);
            }
            rem = rem - 1;
        }
        proof {
            assert(out@ + decode_seq(self.symbols(), idx as nat, 0) =~= out@);
        }
        out
    }

    pub open spec fn spec_encode(&self, w: Seq<u8>) -> nat {
        encode_seq(self.symbols(), w)
    }

    /// Encodes a candidate string back into its index: the inverse of
    /// `decode` over the keyspace of its length.
    pub fn encode(&self, w: &Vec<u8>) -> (r: u64)
        requires
            self.wf(),
            forall|k: int| 0 <= k < w@.len() ==> in_alphabet(self.symbols(), #[trigger] w@[k]),
            pow_nat(self.base(), w@.len() as nat) <= u64::MAX,
        ensures
            r as nat == self.spec_encode(w@),
            (r as nat) < pow_nat(self.base(), w@.len() as nat),
    {
        proof {
            lemma_encode_bound(self.symbols(), w@);
        }
        let base: u64 = self.symbols.len() as u64;
        let n = w.len();
        let mut acc: u64 = 0;
        let mut i: usize = 0;
        while i < n
            invariant
                self.wf(),
                base as nat == self.base(),
                n == w@.len(),
                i <= n,
                forall|k: int| 0 <= k < n ==> in_alphabet(self.symbols(), #[trigger] w@[k]),
                pow_nat(self.base(), n as nat) <= u64::MAX,
                acc as nat == encode_seq(self.symbols(), w@.take(i as int)),
                (acc as nat) < pow_nat(self.base(), i as nat),
            decreases n - i,
        {
            let d = self.digit(w[i]);
            proof {
                lemma_encode_push(self.symbols(), w@.take(i as int), w@[i as int]);
                assert(w@.take(i as int).push(w@[i as int]) =~= w@.take(i + 1));
                lemma_pow_nat_step(self.base(), i as nat);
                crate::lemma_pow_nat_mono(self.base(), (i + 1) as nat, n as nat);
                assert((acc as nat * base as nat + d as nat) < pow_nat(self.base(), (i + 1) as nat))
                    by (nonlinear_arith)
                    requires
                        (acc as nat) < pow_nat(self.base(), i as nat),
                        (d as nat) < base as nat,
                        base as nat == self.base(),
                        pow_nat(self.base(), (i + 1) as nat) == pow_nat(self.base(), i as nat)
                            * self.base(),
                ;
            }
            acc = acc * base + d;
            i = i + 1;
        }
        proof {
            assert(w@.take(n as int) =~= w@);
        }
        acc
    }

    /// The digit value of a symbol: its position in the alphabet.
    pub fn digit(&self, b: u8) -> (r: u64)
        requires
            self.wf(),
            in_alphabet(self.symbols(), b),
        ensures
            (r as nat) < self.base(),
            r as nat == digit_of(self.symbols(), b),
            self.symbols()[r as int] == b,
    {
        let n = self.symbols.len();
        let mut i: usize = 0;
        while i < n
            invariant
                self.wf(),
                n == self.symbols().len(),
                i <= n,
                in_alphabet(self.symbols(), b),
                forall|k: int| 0 <= k < i ==> self.symbols()[k] != b,
            decreases n - i,
        {
            if self.symbols[i] == b {
                proof {
                    lemma_digit_of_symbol(self.symbols(), i as int);
                }
                return i as u64;
            }
            i = i + 1;
        }
        proof {
            let d = choose|d: int| 0 <= d < self.symbols().len() && self.symbols()[d] == b;
            assert(self.symbols()[d] != b);
        }
        unreached()
    }
}

/// The character string that a sequence of ASCII bytes reads back as.
pub open spec fn ascii_chars(b: Seq<u8>) -> Seq<char> {
    Seq::new(b.len(), |i: int| b[i] as char)
}

/// Every character of a decoded candidate is an alphabet symbol, so a
/// well-formed alphabet decodes to ASCII bytes only.
pub proof fn lemma_decode_ascii(s: Seq<u8>, index: nat, length: nat)
    requires
        alphabet_wf(s),
        index < pow_nat(s.len() as nat, length),
    ensures
        forall|k: int|
            0 <= k < decode_seq(s, index, length).len() ==> #[trigger] decode_seq(
                s,
                index,
                length,
            )[k] < 128,
{
    lemma_encode_decode(s, index, length);
    let w = decode_seq(s, index, length);
    assert forall|k: int| 0 <= k < w.len() implies #[trigger] w[k] < 128 by {
        assert(in_alphabet(s, w[k]));
        let d = choose|d: int| 0 <= d < s.len() && s[d] == w[k];
        assert(s[d] < 128);
    }
}

/// Relies on std's `String::from_utf8`: the result reads back the input
/// bytes, and ASCII bytes are single-byte characters, kept one for one.
#[verifier::external_body]
pub(crate) fn ascii_to_string(bytes: Vec<u8>) -> (r: String)
    requires
        forall|i: int| 0 <= i < bytes@.len() ==> bytes@[i] < 128,
    ensures
        r@ == ascii_chars(bytes@),
{
    match String::from_utf8(bytes) {
        Ok(s) => s,
        Err(_) => String::new(),
    }
}

/// Appending a digit multiplies the encoded value by the base and adds the
/// digit: the numeral reading of one more character.
proof fn lemma_encode_push(s: Seq<u8>, w: Seq<u8>, b: u8)
    ensures
        encode_seq(s, w.push(b)) == encode_seq(s, w) * s.len() + digit_of(s, b),
    decreases w.len(),
{
    let n = s.len() as nat;
    if w.len() == 0 {
        assert(w.push(b) =~= seq![b]);
        assert(encode_seq(s, seq![b]) == digit_of(s, b) * pow_nat(n, 0) + encode_seq(
            s,
            seq![b].drop_first(),
        ));
        assert(seq![b].drop_first() =~= Seq::<u8>::empty());
        assert(pow_nat(n, 0) == 1);
        assert(encode_seq(s, w) == 0);
        assert(digit_of(s, b) * 1 == digit_of(s, b)) by (nonlinear_arith);
        assert(encode_seq(s, w) * s.len() == 0) by (nonlinear_arith)
            requires
                encode_seq(s, w) == 0,
        ;
    } else {
        let wp = w.push(b);
        assert(wp.drop_first() =~= w.drop_first().push(b));
        lemma_encode_push(s, w.drop_first(), b);
        let l = (w.len() - 1) as nat;
        lemma_pow_nat_step(n, l);
        assert(encode_seq(s, wp) == digit_of(s, wp[0]) * pow_nat(n, (wp.len() - 1) as nat)
            + encode_seq(s, wp.drop_first()));
        assert(wp[0] == w[0]);
        assert((wp.len() - 1) as nat == l + 1);
        assert(encode_seq(s, wp.drop_first()) == encode_seq(s, w.drop_first()) * n + digit_of(
            s,
            b,
        ));
        assert(encode_seq(s, w) == digit_of(s, w[0]) * pow_nat(n, l) + encode_seq(
            s,
            w.drop_first(),
        ));
        assert(digit_of(s, w[0]) * pow_nat(n, l + 1) + (encode_seq(s, w.drop_first()) * n
            + digit_of(s, b)) == (digit_of(s, w[0]) * pow_nat(n, l) + encode_seq(
            s,
            w.drop_first(),
        )) * n + digit_of(s, b)) by (nonlinear_arith)
            requires
                pow_nat(n, l + 1) == pow_nat(n, l) * n,
        ;
    }
}

/// A string over the alphabet encodes to an index inside its keyspace.
proof fn lemma_encode_bound(s: Seq<u8>, w: Seq<u8>)
    requires
        alphabet_wf(s),
        forall|k: int| 0 <= k < w.len() ==> in_alphabet(s, #[trigger] w[k]),
    ensures
        encode_seq(s, w) < pow_nat(s.len() as nat, w.len() as nat),
    decreases w.len(),
{
    let n = s.len() as nat;
    if w.len() == 0 {
    } else {
        assert(forall|k: int|
            0 <= k < w.drop_first().len() ==> in_alphabet(s, #[trigger] w.drop_first()[k]));
        lemma_encode_bound(s, w.drop_first());
        let l = (w.len() - 1) as nat;
        let d0 = digit_of(s, w[0]);
        assert(d0 < n && s[d0 as int] == w[0]) by {
            let wit = choose|d: int| 0 <= d < s.len() && s[d] == w[0];
            assert((wit as nat) < s.len() && s[wit] == w[0]);
        }
        lemma_pow_nat_step(n, l);
        assert(d0 * pow_nat(n, l) + encode_seq(s, w.drop_first()) < pow_nat(n, l) * n)
            by (nonlinear_arith)
            requires
                d0 < n,
                encode_seq(s, w.drop_first()) < pow_nat(n, l),
        ;
    }
}

} // verus!
