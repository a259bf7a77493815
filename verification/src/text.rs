//! Character-level helpers shared by the other modules.
use vstd::prelude::*;

verus! {

/// Appends one character to a string (`String::push`): the string grows by
/// exactly that character.
#[verifier::external_body]
pub(crate) fn push_char(s: &mut String, c: char)
    ensures
        final(s)@ == old(s)@.push(c),
{
    s.push(c);
}

/// The characters of `s`, in order.
pub fn chars_of(s: &str) -> (res: Vec<char>)
    ensures
        res@ == s@,
{
    broadcast use vstd::string::group_string_axioms;
    let mut res: Vec<char> = Vec::new();
    for c in it: s.chars()
        invariant
            res@ == it.seq().take(it.index()),
    {
        res.push(c);
    }
    res
}


/// The decimal digit character for `d < 10`.
pub open spec fn digit(d: nat) -> char {
    (48 + d) as char
}

/// Decimal notation of a natural number, without leading zeros
/// (what `{}` writes for an unsigned integer).
pub open spec fn decimal(n: nat) -> Seq<char>
    decreases n,
{
    if n < 10 {
        seq![digit(n)]
    } else {
        decimal(n / 10).push(digit(n % 10))
    }
}

/// `c` is one of the digits `0` to `9`.
pub open spec fn is_digit(c: char) -> bool {
    48 <= c as int <= 57
}

/// The number a string of digits stands for.
pub open spec fn digits_value(s: Seq<char>) -> nat
    decreases s.len(),
{
    if s.len() == 0 {
        0
    } else {
        digits_value(s.drop_last()) * 10 + (s.last() as int - 48) as nat
    }
}

proof fn lemma_digit(d: nat)
    requires
        d < 10,
    ensures
        digit(d) as int == 48 + d,
        is_digit(digit(d)),
        is_ascii_char(digit(d)),
{
    assert(digit(d) as int == 48 + d);
}

/// Decimal notation is made of digits only, and it stands for the number.
pub proof fn lemma_decimal_digits(n: nat)
    ensures
        decimal(n).len() >= 1,
        forall|i: int| 0 <= i < decimal(n).len() ==> is_digit(#[trigger] decimal(n)[i]),
        forall|i: int| 0 <= i < decimal(n).len() ==> is_ascii_char(#[trigger] decimal(n)[i]),
        digits_value(decimal(n)) == n,
    decreases n,
{
    if n < 10 {
        lemma_digit(n);
        assert(decimal(n).drop_last() =~= Seq::<char>::empty());
        assert(digits_value(decimal(n)) == digits_value(Seq::<char>::empty()) * 10 + (digit(n) as int - 48) as nat);
    } else {
        lemma_decimal_digits(n / 10);
        lemma_digit(n % 10);
        let d = decimal(n);
        assert(d.drop_last() =~= decimal(n / 10));
        assert(d.last() == digit(n % 10));
        assert(digits_value(d) == digits_value(decimal(n / 10)) * 10 + (digit(n % 10) as int - 48) as nat);
        assert(digits_value(d) == (n / 10) * 10 + n % 10);
        assert forall|i: int| 0 <= i < d.len() implies is_digit(#[trigger] d[i]) && is_ascii_char(d[i]) by {
            if i < d.len() - 1 {
                assert(d[i] == decimal(n / 10)[i]);
            }
        }
    }
}

/// Zero-padded notation below one hundred is exactly two digits: the tens and
/// the units.
pub proof fn lemma_decimal2_two_digits(n: nat)
    requires
        n < 100,
    ensures
        decimal2(n) == seq![digit(n / 10), digit(n % 10)],
        is_digit(decimal2(n)[0]) && is_digit(decimal2(n)[1]),
        is_ascii_char(decimal2(n)[0]) && is_ascii_char(decimal2(n)[1]),
        digits_value(decimal2(n)) == n,
{
    lemma_digit(n / 10);
    lemma_digit(n % 10);
    let d = seq![digit(n / 10), digit(n % 10)];
    if n >= 10 {
        assert(decimal(n / 10) == seq![digit(n / 10)]);
        assert(decimal(n) =~= d);
    } else {
        assert(digit(n / 10) == '0');
    }
    assert(d.drop_last() =~= seq![digit(n / 10)]);
    assert(d.drop_last().drop_last() =~= Seq::<char>::empty());
    let e = d.drop_last();
    assert(e.last() == digit(n / 10));
    assert(digits_value(e) == digits_value(e.drop_last()) * 10 + (digit(n / 10) as int - 48) as nat);
    assert(digits_value(e) == (n / 10));
    assert(digits_value(d) == digits_value(d.drop_last()) * 10 + (digit(n % 10) as int - 48) as nat);
    assert(digits_value(d) == (n / 10) * 10 + n % 10);
}

/// Decimal notation padded with zeros to at least two digits (what `{:02}`
/// writes for an unsigned integer).
pub open spec fn decimal2(n: nat) -> Seq<char> {
    if n < 10 {
        seq!['0', digit(n)]
    } else {
        decimal(n)
    }
}

/// Decimal notation of an integer, with a leading `-` when it is negative.
pub open spec fn signed_decimal(i: int) -> Seq<char> {
    if i < 0 {
        seq!['-'] + decimal((-i) as nat)
    } else {
        decimal(i as nat)
    }
}

fn digit_char(d: u64) -> (c: char)
    requires
        d < 10,
    ensures
        c == digit(d as nat),
{
    let b: u8 = 48u8 + (d as u8);
    b as char
}

/// Appends the decimal notation of `n` to `s`.
pub fn push_decimal(s: &mut String, n: u64)
    ensures
        final(s)@ == old(s)@ + decimal(n as nat),
    decreases n,
{
    if n >= 10 {
        push_decimal(s, n / 10);
    }
    push_char(s, digit_char(n % 10));
}

/// Appends the decimal notation of `n`, zero-padded to two digits, to `s`.
pub fn push_decimal2(s: &mut String, n: u64)
    ensures
        final(s)@ == old(s)@ + decimal2(n as nat),
{
    if n < 10 {
        push_char(s, '0');
    }
    push_decimal(s, n);
}

/// Appends the decimal notation of the signed integer `i` to `s`.
pub fn push_signed_decimal(s: &mut String, i: i64)
    ensures
        final(s)@ == old(s)@ + signed_decimal(i as int),
{
    if i < 0 {
        push_char(s, '-');
        let m: u64 = if i == i64::MIN { 9223372036854775808u64 } else { (-i) as u64 };
        push_decimal(s, m);
    } else {
        push_decimal(s, i as u64);
    }
}

/// Appends all characters of `t` to `s`.
pub fn push_str(s: &mut String, t: &str)
    ensures
        final(s)@ == old(s)@ + t@,
{
    s.append(t);
}


/// `c` is an ASCII character.
pub open spec fn is_ascii_char(c: char) -> bool {
    (c as u32) < 128
}

/// The ASCII characters of `s`, in order (what `char::is_ascii` keeps).
pub open spec fn ascii_only(s: Seq<char>) -> Seq<char>
    decreases s.len(),
{
    if s.len() == 0 {
        s
    } else {
        let rest = ascii_only(s.drop_last());
        if is_ascii_char(s.last()) {
            rest.push(s.last())
        } else {
            rest
        }
    }
}

/// Whether `c` is an ASCII character.
pub fn char_is_ascii(c: char) -> (res: bool)
    ensures
        res == is_ascii_char(c),
{
    (c as u32) < 128
}

/// The string made of `chars[lo..hi]`, keeping only the ASCII characters when
/// `ascii` is set.
pub fn string_of_range(chars: &Vec<char>, lo: usize, hi: usize, ascii: bool) -> (res: String)
    requires
        lo <= hi <= chars@.len(),
    ensures
        res@ == (if ascii {
            ascii_only(chars@.subrange(lo as int, hi as int))
        } else {
            chars@.subrange(lo as int, hi as int)
        }),
{
    let mut res = String::new();
    let mut i: usize = lo;
    while i < hi
        invariant
            lo <= i <= hi <= chars@.len(),
            res@ == (if ascii {
                ascii_only(chars@.subrange(lo as int, i as int))
            } else {
                chars@.subrange(lo as int, i as int)
            }),
        decreases hi - i,
    {
        let c = chars[i];
        assert(chars@.subrange(lo as int, i + 1).drop_last() =~= chars@.subrange(lo as int, i as int));
        if !ascii || char_is_ascii(c) {
            push_char(&mut res, c);
        }
        i = i + 1;
        assert(res@ =~= (if ascii {
            ascii_only(chars@.subrange(lo as int, i as int))
        } else {
            chars@.subrange(lo as int, i as int)
        }));
    }
    res
}

/// Keeps only the ASCII characters of `s`.
pub fn strip_unicode(s: &str) -> (res: String)
    ensures
        res@ == ascii_only(s@),
{
    let chars = chars_of(s);
    let res = string_of_range(&chars, 0, chars.len(), true);
    assert(chars@.subrange(0, chars@.len() as int) =~= s@);
    res
}

/// Stripping twice is stripping once, and what is left is all ASCII.
pub proof fn lemma_ascii_only_idempotent(s: Seq<char>)
    ensures
        ascii_only(ascii_only(s)) == ascii_only(s),
        forall|i: int| 0 <= i < ascii_only(s).len() ==> is_ascii_char(#[trigger] ascii_only(s)[i]),
        ascii_only(s).len() <= s.len(),
    decreases s.len(),
{
    if s.len() > 0 {
        lemma_ascii_only_idempotent(s.drop_last());
        let rest = ascii_only(s.drop_last());
        if is_ascii_char(s.last()) {
            let r = rest.push(s.last());
            assert(r.drop_last() =~= rest);
        }
    }
}


/// `k` is the code of a character: at most 0x10FFFF and not a surrogate.
pub open spec fn is_char_code(k: int) -> bool {
    0 <= k <= 0x10FFFF && !(0xD800 <= k <= 0xDFFF)
}

/// Calls `char::from_u32`: the character with code `n`, which exists exactly
/// when `n` is at most 0x10FFFF and not a surrogate.
#[verifier::external_body]
pub(crate) fn char_from_u32(n: u32) -> (res: Option<char>)
    ensures
        res is Some <==> is_char_code(n as int),
        res matches Some(c) ==> c as int == n as int,
{
    char::from_u32(n)
}

/// Calls `String::pop`: removes and returns the last character, if any.
#[verifier::external_body]
pub(crate) fn pop_char(s: &mut String) -> (res: Option<char>)
    ensures
        old(s)@.len() == 0 ==> res is None && final(s)@ == old(s)@,
        old(s)@.len() > 0 ==> res == Some(old(s)@.last()) && final(s)@ == old(s)@.drop_last(),
{
    s.pop()
}


/// Whether `a` and `b` hold the same characters.
pub fn same_text(a: &str, b: &str) -> (res: bool)
    ensures
        res == (a@ == b@),
{
    let x = chars_of(a);
    let y = chars_of(b);
    if x.len() != y.len() {
        return false;
    }
    let mut i: usize = 0;
    while i < x.len()
        invariant
            x@ == a@,
            y@ == b@,
            x@.len() == y@.len(),
            i <= x@.len(),
            forall|j: int| 0 <= j < i ==> x@[j] == y@[j],
        decreases x@.len() - i,
    {
        if x[i] != y[i] {
            return false;
        }
        i = i + 1;
    }
    assert(x@ =~= y@);
    true
}

} // verus!
