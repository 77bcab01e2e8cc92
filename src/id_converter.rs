//! The identifier codec.
//!
//! Encoding fails when a digit of the value's decimal numeral (`0` for zero)
//! is missing from the digit alphabet. Otherwise it reads the numeral, with
//! zero taken as having no digits, as a bijective numeral over the digit
//! alphabet: the character at
//! position `p` of that alphabet counts `p + 1`, so every numeral stands for
//! a different number whatever order the alphabet has. That number is then
//! written positionally in the symbol alphabet, most significant symbol
//! first, the symbol at position `p` counting `p`; zero is the first symbol
//! alone. Decoding runs the same steps back, so it recovers every value that
//! encoding accepts. With the digits `0123456789` and the symbols
//! `a`..`z` then `0`..`9`, the value 1000 becomes `bwx`.
use crate::numeral::{
    bijective_lsf, digits_lsf, lemma_bijective_unique, lemma_digits_value,
    lemma_msf_is_reversed_lsf, lemma_no_digits_is_zero, mul_add_bijective, mul_add_positional,
    radix_ok, value_msf,
};
use crate::utils::chars_of;
use vstd::prelude::*;

verus! {

/// Why a codec could not be built or could not convert a value.
#[derive(Clone, Copy, Debug, PartialEq, Eq, Structural)]
pub enum CodecError {
    /// An alphabet has fewer than two characters, or repeats one.
    Configuration,
    /// A digit of the value's decimal numeral is missing from the digit alphabet.
    Encoding,
    /// The string is empty, holds a character outside the symbol alphabet, or
    /// does not decode to a decimal numeral of a `u128`.
    Decoding,
}

/// An alphabet the codec can use: at least two characters, none repeated.
pub open spec fn alphabet_ok(a: Seq<char>) -> bool {
    radix_ok(a.len()) && a.no_duplicates()
}

/// Every character of `s` occurs in `alpha`.
pub open spec fn all_in(s: Seq<char>, alpha: Seq<char>) -> bool {
    forall|i: int| 0 <= i < s.len() ==> alpha.contains(#[trigger] s[i])
}

/// The character of decimal digit `d`.
pub open spec fn decimal_char(d: usize) -> char {
    ((d + 48) as u32) as char
}

/// The value of a decimal digit character.
pub open spec fn decimal_digit(c: char) -> usize {
    ((c as u32) - 48) as usize
}

/// Every character of `s` is one of `0` to `9`.
pub open spec fn is_decimal(s: Seq<char>) -> bool {
    forall|i: int| 0 <= i < s.len() ==> 48 <= #[trigger] (s[i] as u32) <= 57
}

/// The number a decimal numeral stands for.
pub open spec fn decimal_value(s: Seq<char>) -> nat {
    value_msf(s.map_values(|c: char| decimal_digit(c)), 10)
}

/// The decimal numeral of `v`, most significant digit first; zero is
/// written with no digits.
pub open spec fn decimal_of(v: nat) -> Seq<char> {
    digits_lsf(v, 10).reverse().map_values(|d: usize| decimal_char(d))
}

/// The positions of the characters of `s` in `alpha`.
pub open spec fn positions(alpha: Seq<char>, s: Seq<char>) -> Seq<usize> {
    s.map_values(|c: char| alpha.index_of(c) as usize)
}

/// The positions of the characters of `s` in `alpha`, counted from one.
pub open spec fn positions_from_one(alpha: Seq<char>, s: Seq<char>) -> Seq<usize> {
    s.map_values(|c: char| (alpha.index_of(c) + 1) as usize)
}

/// The number that the decimal numeral of `v` stands for when read as a
/// bijective numeral over `digits`.
pub open spec fn base_value(digits: Seq<char>, v: nat) -> nat {
    value_msf(positions_from_one(digits, decimal_of(v)), digits.len())
}

/// The short form of `v`: its base value written positionally in
/// `symbols`, most significant first; zero is the first symbol alone.
pub open spec fn short_of(symbols: Seq<char>, digits: Seq<char>, v: nat) -> Seq<char> {
    let n = base_value(digits, v);
    if n == 0 {
        seq![symbols[0]]
    } else {
        digits_lsf(n, symbols.len()).reverse().map_values(|d: usize| symbols[d as int])
    }
}

/// The numeral over `digits` that a string of symbols decodes to: the
/// string is read positionally in `symbols`, and that number is written as
/// a bijective numeral over `digits`.
pub open spec fn decoded_digits(symbols: Seq<char>, digits: Seq<char>, t: Seq<char>) -> Seq<char> {
    let n = value_msf(positions(symbols, t), symbols.len());
    bijective_lsf(n, digits.len()).reverse().map_values(|d: usize| digits[d - 1])
}

/// The number a string of symbols stands for, if it is a non-empty string
/// over `symbols` that decodes to a decimal numeral.
pub open spec fn number_of(symbols: Seq<char>, digits: Seq<char>, t: Seq<char>) -> Option<nat> {
    if t.len() == 0 || !all_in(t, symbols) {
        None
    } else {
        let ds = decoded_digits(symbols, digits, t);
        if is_decimal(ds) {
            Some(decimal_value(ds))
        } else {
            None
        }
    }
}

/// `to_number` succeeds exactly on strings that stand for a `u128`.
pub open spec fn decodes_to_u128(symbols: Seq<char>, digits: Seq<char>, t: Seq<char>) -> bool {
    &&& number_of(symbols, digits, t) is Some
    &&& number_of(symbols, digits, t)->0 <= u128::MAX
}

/// A codec between numbers and short strings, over a symbol alphabet (the
/// short strings) and a digit alphabet (in which decimal numerals are read).
pub struct IDConverter {
    alphabets: Vec<char>,
    numbers: Vec<char>,
}

impl IDConverter {
    #[verifier::type_invariant]
    spec fn alphabets_ok(self) -> bool {
        alphabet_ok(self.alphabets@) && alphabet_ok(self.numbers@)
    }

    /// The symbol alphabet, in which short strings are written.
    pub closed spec fn symbols(&self) -> Seq<char> {
        self.alphabets@
    }

    /// The digit alphabet, in which decimal numerals are read.
    pub closed spec fn digits(&self) -> Seq<char> {
        self.numbers@
    }

    /// Builds a codec writing short strings over `alphabets` and reading
    /// decimal numerals over `numbers`.
    pub fn new(alphabets: &String, numbers: &String) -> (r: Result<IDConverter, CodecError>)
        ensures
            r is Ok <==> alphabet_ok(alphabets@) && alphabet_ok(numbers@),
            alphabets@.len() == 0 || numbers@.len() == 0 ==> r is Err,
            r is Ok ==> r->Ok_0.symbols() == alphabets@ && r->Ok_0.digits() == numbers@,
            r is Err ==> r->Err_0 == CodecError::Configuration,
    {
        let symbols = chars_of(alphabets.as_str());
        let digits = chars_of(numbers.as_str());
        if alphabet_valid(&symbols) && alphabet_valid(&digits) {
            Ok(IDConverter { alphabets: symbols, numbers: digits })
        } else {
            Err(CodecError::Configuration)
        }
    }

    /// The short string for `input`.
    pub fn to_short(&self, input: u128) -> (r: Result<String, CodecError>)
        ensures
            r is Ok <==> all_in(decimal_text(input as nat), self.digits()),
            r is Ok ==> r->Ok_0@ == short_of(self.symbols(), self.digits(), input as nat),
            r is Err ==> r->Err_0 == CodecError::Encoding,
    {
        proof {
            use_type_invariant(self);
        }
        let ghost digits = self.numbers@;
        let ghost symbols = self.alphabets@;
        let ghost ds = decimal_of(input as nat);
        let ghost pos = positions_from_one(digits, ds);
        let a = self.numbers.len();
        let b = self.alphabets.len();
        if input == 0 && position_in(&self.numbers, '0').is_none() {
            assert(decimal_text(0)[0] == '0');
            return Err(CodecError::Encoding);
        }
        let dec = decimal_digits(input);
        // The number the decimal numeral stands for, kept as its digits in
        // the symbol radix, least significant first.
        let mut limbs: Vec<usize> = Vec::new();
        let mut i: usize = dec.len();
        proof {
            assert(limbs@ =~= digits_lsf(value_msf(pos.take(0), a as nat), b as nat)) by {
                assert(pos.take(0).len() == 0);
            }
        }
        while i > 0
            invariant
                alphabet_ok(digits),
                alphabet_ok(symbols),
                digits == self.numbers@,
                symbols == self.alphabets@,
                a == digits.len(),
                b == symbols.len(),
                dec@ == digits_lsf(input as nat, 10),
                ds == decimal_of(input as nat),
                pos == positions_from_one(digits, ds),
                ds.len() == dec.len(),
                i <= dec.len(),
                forall|j: int| 0 <= j < dec.len() - i ==> digits.contains(#[trigger] ds[j]),
                limbs@ == digits_lsf(value_msf(pos.take(dec.len() - i), a as nat), b as nat),
            decreases i,
        {
            i = i - 1;
            let ghost k: int = dec.len() - 1 - i;
            proof {
                lemma_digits_below(input as nat, 10);
            }
            let ch = digit_char(dec[i]);
            assert(ds[k] == ch);
            match position_in(&self.numbers, ch) {
                None => {
                    proof {
                        if input == 0 {
                            assert(digits_lsf(0, 10).len() == 0);
                        }
                    }
                    return Err(CodecError::Encoding);
                },
                Some(p) => {
                    proof {
                        lemma_index_of_unique(digits, p as int);
                        assert(pos.take(k + 1).drop_last() =~= pos.take(k));
                        assert(pos.take(k + 1).last() == p + 1);
                    }
                    mul_add_positional(
                        &mut limbs,
                        a,
                        p + 1,
                        b,
                        Ghost(value_msf(pos.take(k), a as nat)),
                    );
                },
            }
        }
        let ghost n = value_msf(pos, a as nat);
        proof {
            assert(pos.take(dec.len() as int) =~= pos);
            assert(n == base_value(digits, input as nat));
            lemma_digits_below(n, b as nat);
        }
        let mut out = String::new();
        if limbs.len() == 0 {
            proof {
                lemma_no_digits_is_zero(n, b as nat);
            }
            out.push(self.alphabets[0]);
            assert(out@ =~= seq![symbols[0]]);
        } else {
            let ghost spelled = limbs@.reverse().map_values(|d: usize| symbols[d as int]);
            let mut j: usize = limbs.len();
            while j > 0
                invariant
                    symbols == self.alphabets@,
                    b == symbols.len(),
                    j <= limbs.len(),
                    forall|q: int| 0 <= q < limbs.len() ==> #[trigger] limbs@[q] < b,
                    spelled == limbs@.reverse().map_values(|d: usize| symbols[d as int]),
                    out@ == spelled.take(limbs.len() - j),
                decreases j,
            {
                j = j - 1;
                out.push(self.alphabets[limbs[j]]);
                assert(out@ =~= spelled.take(limbs.len() - j));
            }
            assert(spelled.take(limbs.len() as int) =~= spelled);
        }
        Ok(out)
    }

    /// The number that `input` stands for.
    pub fn to_number(&self, input: String) -> (r: Result<u128, CodecError>)
        ensures
            r is Ok <==> decodes_to_u128(self.symbols(), self.digits(), input@),
            (exists|i: int| 0 <= i < input@.len() && !self.symbols().contains(#[trigger] input@[i]))
                ==> r is Err,
            r is Ok ==> r->Ok_0 == number_of(self.symbols(), self.digits(), input@)->0,
            r is Err ==> r->Err_0 == CodecError::Decoding,
    {
        proof {
            use_type_invariant(self);
        }
        let ghost digits = self.numbers@;
        let ghost symbols = self.alphabets@;
        let cs = chars_of(input.as_str());
        if cs.len() == 0 {
            return Err(CodecError::Decoding);
        }
        let ghost pos = positions(symbols, cs@);
        let a = self.numbers.len();
        let b = self.alphabets.len();
        // The number the string stands for, kept as its bijective digits over
        // the digit alphabet, least significant first.
        let mut limbs: Vec<usize> = Vec::new();
        proof {
            assert(limbs@ =~= bijective_lsf(value_msf(pos.take(0), b as nat), a as nat)) by {
                assert(pos.take(0).len() == 0);
            }
        }
        for i in 0..cs.len()
            invariant
                alphabet_ok(digits),
                alphabet_ok(symbols),
                digits == self.numbers@,
                symbols == self.alphabets@,
                a == digits.len(),
                b == symbols.len(),
                cs@ == input@,
                pos == positions(symbols, cs@),
                forall|j: int| 0 <= j < i ==> symbols.contains(#[trigger] cs@[j]),
                limbs@ == bijective_lsf(value_msf(pos.take(i as int), b as nat), a as nat),
        {
            match position_in(&self.alphabets, cs[i]) {
                None => {
                    return Err(CodecError::Decoding);
                },
                Some(p) => {
                    proof {
                        lemma_index_of_unique(symbols, p as int);
                        assert(pos.take(i + 1).drop_last() =~= pos.take(i as int));
                        assert(pos.take(i + 1).last() == p);
                    }
                    mul_add_bijective(
                        &mut limbs,
                        b,
                        p,
                        a,
                        Ghost(value_msf(pos.take(i as int), b as nat)),
                    );
                },
            }
        }
        let ghost n = value_msf(pos, b as nat);
        let ghost dd = decoded_digits(symbols, digits, input@);
        proof {
            assert(pos.take(cs.len() as int) =~= pos);
            assert(all_in(input@, symbols));
            lemma_bijective_digits_bounded(n, a as nat);
        }
        let mut acc: u128 = 0;
        let mut j: usize = limbs.len();
        while j > 0
            invariant
                digits == self.numbers@,
                symbols == self.alphabets@,
                input@.len() > 0,
                all_in(input@, symbols),
                dd == decoded_digits(symbols, digits, input@),
                a == digits.len(),
                j <= limbs.len(),
                limbs@ == bijective_lsf(n, a as nat),
                forall|q: int| 0 <= q < limbs.len() ==> 1 <= #[trigger] limbs@[q] <= a,
                dd == limbs@.reverse().map_values(|d: usize| digits[d - 1]),
                is_decimal(dd.take(limbs.len() - j)),
                acc == decimal_value(dd.take(limbs.len() - j)),
            decreases j,
        {
            j = j - 1;
            let ghost k: int = limbs.len() - 1 - j;
            let ch = self.numbers[limbs[j] - 1];
            assert(dd[k] == ch);
            let code = ch as u32;
            if code < 48 || code > 57 {
                proof {
                    assert(!(48 <= (dd[k] as u32) <= 57));
                    assert(!is_decimal(dd));
                    assert(decoded_digits(symbols, digits, input@) == dd);
                    assert(number_of(symbols, digits, input@) is None);
                }
                return Err(CodecError::Decoding);
            }
            let d = (code - 48) as u128;
            proof {
                let prefix = dd.take(k + 1);
                assert(prefix.map_values(|c: char| decimal_digit(c)).drop_last() =~= dd.take(
                    k,
                ).map_values(|c: char| decimal_digit(c)));
            }
            match acc.checked_mul(10) {
                None => {
                    proof {
                        lemma_decimal_prefix_overflow(dd, k + 1, u128::MAX as nat);
                    }
                    return Err(CodecError::Decoding);
                },
                Some(m) => match m.checked_add(d) {
                    None => {
                        proof {
                            lemma_decimal_prefix_overflow(dd, k + 1, u128::MAX as nat);
                        }
                        return Err(CodecError::Decoding);
                    },
                    Some(s) => {
                        acc = s;
                        assert(is_decimal(dd.take(k + 1)));
                    },
                },
            }
        }
        proof {
            assert(dd.take(limbs.len() as int) =~= dd);
        }
        Ok(acc)
    }
}

/// Whether `a` is an alphabet the codec can use.
fn alphabet_valid(a: &Vec<char>) -> (r: bool)
    ensures
        r == alphabet_ok(a@),
{
    if a.len() < 2 {
        return false;
    }
    for i in 0..a.len()
        invariant
            forall|p: int, q: int|
                0 <= p < i && 0 <= q < a.len() && p != q ==> #[trigger] a@[p] != #[trigger] a@[q],
    {
        for j in 0..a.len()
            invariant
                i < a.len(),
                forall|p: int, q: int|
                    0 <= p < i && 0 <= q < a.len() && p != q ==> #[trigger] a@[p] != #[trigger] a@[q],
                forall|q: int| 0 <= q < j && q != i ==> a@[i as int] != #[trigger] a@[q],
        {
            if j != i && a[j] == a[i] {
                assert(a@[j as int] == a@[i as int]);
                return false;
            }
        }
    }
    true
}

/// Where `c` stands in `alpha`, if it does.
fn position_in(alpha: &Vec<char>, c: char) -> (r: Option<usize>)
    ensures
        r is None <==> !alpha@.contains(c),
        r is Some ==> r->0 < alpha.len() && alpha@[r->0 as int] == c,
{
    for i in 0..alpha.len()
        invariant
            forall|j: int| 0 <= j < i ==> alpha@[j] != c,
    {
        if alpha[i] == c {
            return Some(i);
        }
    }
    None
}

/// The character of decimal digit `d`.
fn digit_char(d: usize) -> (r: char)
    requires
        d < 10,
    ensures
        r == decimal_char(d),
{
    ((d as u8) + 48u8) as char
}

/// The decimal digits of `v`, least significant first.
fn decimal_digits(v: u128) -> (r: Vec<usize>)
    ensures
        r@ == digits_lsf(v as nat, 10),
{
    let mut r: Vec<usize> = Vec::new();
    let mut x: u128 = v;
    while x > 0
        invariant
            r@ + digits_lsf(x as nat, 10) == digits_lsf(v as nat, 10),
        decreases x,
    {
        let ghost before = r@;
        let ghost old_x = x;
        r.push((x % 10) as usize);
        x = x / 10;
        assert(r@ + digits_lsf(x as nat, 10) =~= before + digits_lsf(old_x as nat, 10));
    }
    assert(r@ + digits_lsf(0, 10) =~= r@);
    r
}

/// In an alphabet without repeats, a character's position is where it stands.
proof fn lemma_index_of_unique(alpha: Seq<char>, i: int)
    requires
        alpha.no_duplicates(),
        0 <= i < alpha.len(),
    ensures
        alpha.index_of(alpha[i]) == i,
{
    assert(alpha.contains(alpha[i]));
}

/// Every positional digit is below the radix.
proof fn lemma_digits_below(n: nat, b: nat)
    requires
        radix_ok(b),
    ensures
        forall|i: int| 0 <= i < digits_lsf(n, b).len() ==> #[trigger] digits_lsf(n, b)[i] < b,
    decreases n,
{
    if n > 0 {
        vstd::arithmetic::div_mod::lemma_div_is_strictly_smaller(n as int, b as int);
        lemma_digits_below(n / b, b);
        assert forall|i: int| 0 <= i < digits_lsf(n, b).len() implies #[trigger] digits_lsf(
            n,
            b,
        )[i] < b by {
            if i > 0 {
                assert(digits_lsf(n, b)[i] == digits_lsf(n / b, b)[i - 1]);
            }
        }
    }
}

/// Every bijective digit lies between one and the radix.
proof fn lemma_bijective_digits_bounded(n: nat, b: nat)
    requires
        radix_ok(b),
    ensures
        forall|i: int|
            0 <= i < bijective_lsf(n, b).len() ==> 1 <= #[trigger] bijective_lsf(n, b)[i] <= b,
    decreases n,
{
    if n > 0 {
        if n > 1 {
            vstd::arithmetic::div_mod::lemma_div_is_strictly_smaller((n - 1) as int, b as int);
        }
        lemma_bijective_digits_bounded((n - 1) as nat / b, b);
        assert forall|i: int| 0 <= i < bijective_lsf(n, b).len() implies 1 <= #[trigger] bijective_lsf(
            n,
            b,
        )[i] <= b by {
            if i > 0 {
                assert(bijective_lsf(n, b)[i] == bijective_lsf((n - 1) as nat / b, b)[i - 1]);
            }
        }
    }
}

/// A value read most significant first is at least the value of any prefix.
proof fn lemma_prefix_value_le(s: Seq<usize>, i: int, b: nat)
    requires
        0 <= i <= s.len(),
        b >= 1,
    ensures
        value_msf(s.take(i), b) <= value_msf(s, b),
    decreases s.len(),
{
    if i < s.len() {
        lemma_prefix_value_le(s.drop_last(), i, b);
        assert(s.drop_last().take(i) =~= s.take(i));
        let v = value_msf(s.drop_last(), b);
        assert(v <= v * b) by (nonlinear_arith)
            requires
                b >= 1,
        ;
    } else {
        assert(s.take(i) =~= s);
    }
}

/// If a decimal prefix of `dd` already stands for more than `bound`, then
/// `dd` is no decimal numeral of a number up to `bound`.
proof fn lemma_decimal_prefix_overflow(dd: Seq<char>, i: int, bound: nat)
    requires
        0 <= i <= dd.len(),
        decimal_value(dd.take(i)) > bound,
    ensures
        !is_decimal(dd) || decimal_value(dd) > bound,
{
    let vals = dd.map_values(|c: char| decimal_digit(c));
    assert(dd.take(i).map_values(|c: char| decimal_digit(c)) =~= vals.take(i));
    lemma_prefix_value_le(vals, i, 10);
}

/// Decoding the short form of a number gives the number back, for any two
/// usable alphabets and any number whose decimal digits the digit alphabet
/// holds.
pub proof fn lemma_round_trip(symbols: Seq<char>, digits: Seq<char>, v: nat)
    requires
        alphabet_ok(symbols),
        alphabet_ok(digits),
        all_in(decimal_text(v), digits),
    ensures
        number_of(symbols, digits, short_of(symbols, digits, v)) == Some(v),
{
    if v == 0 {
        assert(decimal_of(0).len() == 0);
    }
    assert(all_in(decimal_of(v), digits));
    let a = digits.len();
    let b = symbols.len();
    let ds = decimal_of(v);
    let p1 = positions_from_one(digits, ds);
    let n = value_msf(p1, a);
    let t = short_of(symbols, digits, v);
    // The short string is read back as `n`.
    if n == 0 {
        lemma_index_of_unique(symbols, 0);
        assert(positions(symbols, t) =~= seq![0usize]);
        assert(seq![0usize].drop_last() =~= Seq::<usize>::empty());
        assert(symbols.contains(symbols[0]));
        assert(value_msf(seq![0usize], b) == value_msf(Seq::<usize>::empty(), b) * b);
        assert(value_msf(positions(symbols, t), b) == 0) by (nonlinear_arith)
            requires
                value_msf(positions(symbols, t), b) == value_msf(Seq::<usize>::empty(), b) * b,
                value_msf(Seq::<usize>::empty(), b) == 0,
        ;
    } else {
        let l = digits_lsf(n, b);
        lemma_digits_below(n, b);
        assert forall|i: int| 0 <= i < t.len() implies #[trigger] positions(symbols, t)[i]
            == l.reverse()[i] && symbols.contains(t[i]) by {
            lemma_index_of_unique(symbols, l.reverse()[i] as int);
        }
        assert(positions(symbols, t) =~= l.reverse());
        lemma_msf_is_reversed_lsf(l.reverse(), b);
        assert(l.reverse().reverse() =~= l);
        lemma_digits_value(n, b);
        assert(value_msf(positions(symbols, t), b) == n);
        if t.len() == 0 {
            assert(l.len() >= 1);
        }
    }
    assert(value_msf(positions(symbols, t), b) == n);
    // `n` is written back over the digit alphabet as the decimal numeral of `v`.
    assert forall|i: int| 0 <= i < p1.len() implies 1 <= #[trigger] p1[i] <= a && digits[p1[i]
        - 1] == ds[i] by {
        assert(digits.contains(ds[i]));
    }
    lemma_msf_is_reversed_lsf(p1, a);
    lemma_bijective_unique(p1.reverse(), a);
    assert(p1.reverse().reverse() =~= p1);
    let dd = decoded_digits(symbols, digits, t);
    assert(dd =~= ds);
    // ... which is decimal and stands for `v`.
    let l10 = digits_lsf(v, 10);
    lemma_digits_below(v, 10);
    assert forall|i: int| 0 <= i < ds.len() implies 48 <= #[trigger] (ds[i] as u32) <= 57
        && decimal_digit(ds[i]) == l10.reverse()[i] by {
        let d = l10.reverse()[i];
        assert(d < 10);
    }
    assert(ds.map_values(|c: char| decimal_digit(c)) =~= l10.reverse());
    lemma_msf_is_reversed_lsf(l10.reverse(), 10);
    assert(l10.reverse().reverse() =~= l10);
    lemma_digits_value(v, 10);
}

/// Zero can be encoded exactly when the digit alphabet holds `0`, and its
/// short form is then the first symbol alone, whatever the alphabets.
pub proof fn lemma_zero_is_first_symbol(symbols: Seq<char>, digits: Seq<char>)
    requires
        alphabet_ok(symbols),
        alphabet_ok(digits),
    ensures
        all_in(decimal_text(0), digits) <==> digits.contains('0'),
        short_of(symbols, digits, 0) == seq![symbols[0]],
{
    assert(decimal_of(0).len() == 0);
    assert(positions_from_one(digits, decimal_of(0)).len() == 0);
    assert(decimal_text(0)[0] == '0');
}

/// Conversions depend on nothing but the two alphabets and the input: codecs
/// over the same alphabets agree on every value and every string.
pub proof fn lemma_same_alphabets_same_results(c1: IDConverter, c2: IDConverter, v: nat, t: Seq<char>)
    requires
        c1.symbols() == c2.symbols(),
        c1.digits() == c2.digits(),
    ensures
        short_of(c1.symbols(), c1.digits(), v) == short_of(c2.symbols(), c2.digits(), v),
        number_of(c1.symbols(), c1.digits(), t) == number_of(c2.symbols(), c2.digits(), t),
{
}

/// The decimal numeral of `v` as text: zero is written `0`.
pub open spec fn decimal_text(v: nat) -> Seq<char> {
    if v == 0 {
        seq!['0']
    } else {
        decimal_of(v)
    }
}

/// Appends the decimal numeral of `v` to `out`.
pub(crate) fn push_decimal(out: &mut String, v: u64)
    ensures
        final(out)@ == old(out)@ + decimal_text(v as nat),
{
    let dec = decimal_digits(v as u128);
    let ghost start = out@;
    if dec.len() == 0 {
        proof {
            lemma_no_digits_is_zero(v as nat, 10);
        }
        out.push('0');
        assert(out@ =~= start + decimal_text(v as nat));
        return ;
    }
    proof {
        lemma_digits_below(v as nat, 10);
        if v == 0 {
            assert(digits_lsf(0, 10).len() == 0);
        }
    }
    let ghost text = decimal_of(v as nat);
    let mut i: usize = dec.len();
    while i > 0
        invariant
            i <= dec.len(),
            dec@ == digits_lsf(v as nat, 10),
            forall|q: int| 0 <= q < dec.len() ==> #[trigger] dec@[q] < 10,
            text == dec@.reverse().map_values(|d: usize| decimal_char(d)),
            out@ == start + text.take(dec.len() - i),
        decreases i,
    {
        i = i - 1;
        out.push(digit_char(dec[i]));
        assert(out@ =~= start + text.take(dec.len() - i));
    }
    assert(text.take(dec.len() as int) =~= text);
}

/// The number an unsigned integer literal stands for: an optional `+`, then
/// one or more decimal digits.
pub open spec fn unsigned_numeral(s: Seq<char>) -> Option<nat> {
    let body = if s.len() > 0 && s[0] == '+' {
        s.drop_first()
    } else {
        s
    };
    if body.len() > 0 && is_decimal(body) {
        Some(decimal_value(body))
    } else {
        None
    }
}

/// Reads an unsigned integer literal that fits in a `u64`.
pub fn parse_u64(s: &str) -> (r: Option<u64>)
    ensures
        r is Some <==> unsigned_numeral(s@) is Some && unsigned_numeral(s@)->0 <= u64::MAX,
        r is Some ==> r->0 == unsigned_numeral(s@)->0,
{
    let cs = chars_of(s);
    let start: usize = if cs.len() > 0 && cs[0] == '+' {
        1
    } else {
        0
    };
    let ghost body = if s@.len() > 0 && s@[0] == '+' {
        s@.drop_first()
    } else {
        s@
    };
    assert(body =~= cs@.subrange(start as int, cs.len() as int));
    if start == cs.len() {
        return None;
    }
    let mut acc: u64 = 0;
    let mut i: usize = start;
    while i < cs.len()
        invariant
            start <= i <= cs.len(),
            start < cs.len(),
            body == cs@.subrange(start as int, cs.len() as int),
            unsigned_numeral(s@) == (if is_decimal(body) {
                Some(decimal_value(body))
            } else {
                None::<nat>
            }),
            is_decimal(body.take(i - start)),
            acc == decimal_value(body.take(i - start)),
        decreases cs.len() - i,
    {
        let ghost k: int = i - start;
        let ch = cs[i];
        assert(body[k] == ch);
        let code = ch as u32;
        if code < 48 || code > 57 {
            assert(!(48 <= (body[k] as u32) <= 57));
            return None;
        }
        let d = (code - 48) as u64;
        proof {
            assert(body.take(k + 1).map_values(|c: char| decimal_digit(c)).drop_last() =~= body.take(
                k,
            ).map_values(|c: char| decimal_digit(c)));
        }
        match acc.checked_mul(10) {
            None => {
                proof {
                    lemma_decimal_prefix_overflow(body, k + 1, u64::MAX as nat);
                }
                return None;
            },
            Some(m) => match m.checked_add(d) {
                None => {
                    proof {
                        lemma_decimal_prefix_overflow(body, k + 1, u64::MAX as nat);
                    }
                    return None;
                },
                Some(t) => {
                    acc = t;
                    assert(is_decimal(body.take(k + 1)));
                },
            },
        }
        i = i + 1;
    }
    assert(body.take(cs.len() - start) =~= body);
    Some(acc)
}

/// Every decimal digit is below ten.
pub proof fn lemma_digits_below_10(v: nat)
    ensures
        forall|i: int| 0 <= i < digits_lsf(v, 10).len() ==> #[trigger] digits_lsf(v, 10)[i] < 10,
{
    lemma_digits_below(v, 10);
}

/// A string holding a character outside the symbol alphabet stands for no
/// number.
pub proof fn lemma_foreign_symbol_rejected(symbols: Seq<char>, digits: Seq<char>, t: Seq<char>, i: int)
    requires
        0 <= i < t.len(),
        !symbols.contains(t[i]),
    ensures
        number_of(symbols, digits, t) is None,
        !decodes_to_u128(symbols, digits, t),
{
}

} // verus!
