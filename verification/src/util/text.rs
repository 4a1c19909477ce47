//! Character and string helpers shared by the compiler stages.
use vstd::prelude::*;
use vstd::std_specs::iter::IteratorSpec;

verus! {

/// The character for a decimal digit `d` (`'0'..='9'`).
pub open spec fn digit_char(d: nat) -> char {
    (48 + d) as char
}

/// Decimal text of a natural number, without leading zeros.
pub open spec fn decimal(n: nat) -> Seq<char>
    decreases n,
{
    if n < 10 {
        seq![digit_char(n)]
    } else {
        decimal(n / 10).push(digit_char(n % 10))
    }
}

/// Decimal text has at least two digits from ten on.
pub proof fn lemma_decimal_len(n: nat)
    ensures
        decimal(n).len() >= 1,
        n >= 10 ==> decimal(n).len() >= 2,
    decreases n,
{
    if n >= 10 {
        lemma_decimal_len(n / 10);
    }
}

/// Different numbers have different decimal texts.
pub proof fn lemma_decimal_injective(n: nat, m: nat)
    ensures
        decimal(n) == decimal(m) ==> n == m,
    decreases n,
{
    lemma_decimal_len(n);
    lemma_decimal_len(m);
    if decimal(n) == decimal(m) {
        if n < 10 && m < 10 {
            assert(decimal(n)[0] == digit_char(n));
            assert(decimal(m)[0] == digit_char(m));
        } else if n >= 10 && m >= 10 {
            let a = decimal(n);
            let b = decimal(m);
            assert(a.last() == digit_char(n % 10));
            assert(b.last() == digit_char(m % 10));
            assert(a.drop_last() =~= decimal(n / 10));
            assert(b.drop_last() =~= decimal(m / 10));
            lemma_decimal_injective(n / 10, m / 10);
        } else {
            lemma_decimal_len(n / 10);
            lemma_decimal_len(m / 10);
        }
    }
}

/// `String::push`: appends one character, as std documents it.
#[verifier::external_body]
pub(crate) fn push_char(s: &mut String, c: char)
    ensures
        final(s)@ == old(s)@.push(c),
{
    s.push(c);
}

/// Appends a string slice to a string.
pub fn push_str(s: &mut String, t: &str)
    ensures
        final(s)@ == old(s)@ + t@,
{
    s.append(t);
}

/// A new string holding the given text.
pub fn string_of(t: &str) -> (r: String)
    ensures
        r@ == t@,
{
    String::from_str(t)
}

/// Appends the decimal text of `n`.
pub fn push_decimal(s: &mut String, n: usize)
    ensures
        final(s)@ == old(s)@ + decimal(n as nat),
    decreases n,
{
    if n >= 10 {
        push_decimal(s, n / 10);
    }
    let d: u8 = (n % 10) as u8;
    let c: char = (48u8 + d) as char;
    push_char(s, c);
    proof {
        assert(decimal(n as nat) == if n < 10 { seq![digit_char(n as nat)] } else {
            decimal((n / 10) as nat).push(digit_char((n % 10) as nat))
        });
    }
}

/// The name of the text that `{:?}` gives for a string: its characters
/// between double quotes, each escaped as `char::escape_debug` escapes it.
pub uninterp spec fn str_debug(s: Seq<char>) -> Seq<char>;

/// `format!("{:?}", s)`: std's `Debug` text of a string. The contract only
/// names that text (`str_debug`), which depends on the characters alone;
/// std's escaping rules are not restated here.
#[verifier::external_body]
pub(crate) fn str_debug_text(s: &String) -> (r: String)
    ensures
        r@ == str_debug(s@),
{
    format!("{:?}", s)
}

/// The text std gives an integer: a `-` before the decimal digits of a
/// negative one.
pub open spec fn int_text(n: int) -> Seq<char> {
    if n < 0 {
        seq!['-'] + decimal((-n) as nat)
    } else {
        decimal(n as nat)
    }
}

/// Appends the text of an `i32`.
pub fn push_i32(s: &mut String, n: i32)
    ensures
        final(s)@ == old(s)@ + int_text(n as int),
{
    if n < 0 {
        let ghost s0 = s@;
        push_char(s, '-');
        let m: u32 = if n == i32::MIN { 2147483648u32 } else { (-n) as u32 };
        push_decimal(s, m as usize);
        assert(s@ =~= s0 + int_text(n as int));
    } else {
        push_decimal(s, n as usize);
    }
}

/// The `{:?}` text of a list of strings: their texts between `[` and `]`,
/// separated by `, `.
pub open spec fn strings_debug(v: Seq<String>) -> Seq<char> {
    "["@ + strings_debug_items(v) + "]"@
}

/// The strings' texts separated by `, `.
pub open spec fn strings_debug_items(v: Seq<String>) -> Seq<char>
    decreases v.len(),
{
    if v.len() == 0 {
        Seq::empty()
    } else if v.len() == 1 {
        str_debug(v[0]@)
    } else {
        strings_debug_items(v.drop_last()) + ", "@ + str_debug(v.last()@)
    }
}

/// Appends the `{:?}` text of a list of strings.
pub fn push_strings_debug(s: &mut String, v: &Vec<String>)
    ensures
        final(s)@ == old(s)@ + strings_debug(v@),
{
    let ghost s0 = s@;
    push_str(s, "[");
    let mut i: usize = 0;
    while i < v.len()
        invariant
            i <= v@.len(),
            s@ == s0 + "["@ + strings_debug_items(v@.take(i as int)),
        decreases v@.len() - i,
    {
        let ghost before = s@;
        if i > 0 {
            push_str(s, ", ");
        }
        let d = str_debug_text(&v[i]);
        push_str(s, d.as_str());
        proof {
            assert(v@.take(i + 1).drop_last() =~= v@.take(i as int));
            assert(v@.take(i + 1).last() == v@[i as int]);
            if i == 0 {
                assert(v@.take(1)[0] == v@[0]);
                assert(strings_debug_items(v@.take(0)) =~= Seq::<char>::empty());
                assert(s@ =~= s0 + "["@ + strings_debug_items(v@.take(1)));
            } else {
                assert(s@ =~= s0 + "["@ + strings_debug_items(v@.take(i + 1)));
            }
        }
        i += 1;
    }
    push_str(s, "]");
    proof {
        assert(v@.take(v@.len() as int) =~= v@);
    }
}

/// Decimal text of a `usize`.
pub fn usize_to_decimal(n: usize) -> (r: String)
    ensures
        r@ == decimal(n as nat),
{
    let mut s = String::new();
    push_decimal(&mut s, n);
    assert(s@ =~= decimal(n as nat));
    s
}

/// A string holding exactly the characters of `v`.
pub fn string_from_chars(v: &[char]) -> (r: String)
    ensures
        r@ == v@,
{
    let mut s = String::new();
    let mut i: usize = 0;
    while i < v.len()
        invariant
            i <= v@.len(),
            s@ == v@.subrange(0, i as int),
        decreases v@.len() - i,
    {
        push_char(&mut s, v[i]);
        i += 1;
        assert(s@ =~= v@.subrange(0, i as int));
    }
    assert(v@.subrange(0, v@.len() as int) =~= v@);
    s
}

/// The characters of a string slice, in order.
pub fn chars_of(t: &str) -> (r: Vec<char>)
    ensures
        r@ == t@,
{
    broadcast use vstd::string::group_string_axioms;
    let mut v: Vec<char> = Vec::new();
    for c in it: t.chars()
        invariant
            v@ == it.seq().take(it.index() as int),
    {
        v.push(c);
    }
    v
}

/// Whether two string slices hold the same characters.
pub fn str_equal(a: &str, b: &str) -> (r: bool)
    ensures
        r == (a@ == b@),
{
    let n = a.unicode_len();
    let m = b.unicode_len();
    if n != m {
        return false;
    }
    let mut i: usize = 0;
    while i < n
        invariant
            n == a@.len(),
            m == b@.len(),
            n == m,
            i <= n,
            a@.subrange(0, i as int) == b@.subrange(0, i as int),
        decreases n - i,
    {
        if a.get_char(i) != b.get_char(i) {
            assert(a@[i as int] != b@[i as int]);
            return false;
        }
        i += 1;
        assert(a@.subrange(0, i as int) =~= b@.subrange(0, i as int)) by {
            assert forall|k: int| 0 <= k < i implies a@[k] == b@[k] by {
                if k < i - 1 {
                    assert(a@.subrange(0, i - 1)[k] == b@.subrange(0, i - 1)[k]);
                }
            }
        }
    }
    assert(a@ =~= a@.subrange(0, n as int));
    assert(b@ =~= b@.subrange(0, n as int));
    true
}

/// Whether two strings hold the same characters.
pub fn string_equal(a: &String, b: &String) -> (r: bool)
    ensures
        r == (a@ == b@),
{
    a.eq(b)
}

/// A copy of a string.
pub fn copy_string(a: &String) -> (r: String)
    ensures
        r == *a,
        r@ == a@,
{
    a.clone()
}

} // verus!
