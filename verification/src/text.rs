//! Character-level text rules shared by the validators: lexicographic order,
//! blank detection (Unicode white space) and decimal rendering.

use vstd::prelude::*;
use vstd::string::*;

verus! {

/// Outcome of comparing two texts.
#[derive(Debug, Clone, Copy, PartialEq, Eq, Structural)]
pub enum TextOrder {
    /// The first text sorts before the second.
    Less,
    /// Both texts are equal.
    Equal,
    /// The first text sorts after the second.
    Greater,
}

/// Lexicographic order of texts by Unicode scalar value; a proper prefix
/// sorts first. This is the order of `str` and `String`.
pub open spec fn text_lt(a: Seq<char>, b: Seq<char>) -> bool
    decreases a.len(),
{
    if a.len() == 0 {
        b.len() > 0
    } else if b.len() == 0 {
        false
    } else if (a[0] as int) < (b[0] as int) {
        true
    } else if (a[0] as int) > (b[0] as int) {
        false
    } else {
        text_lt(a.drop_first(), b.drop_first())
    }
}

/// The order outcome of two texts.
pub open spec fn text_order(a: Seq<char>, b: Seq<char>) -> TextOrder {
    if text_lt(a, b) {
        TextOrder::Less
    } else if a == b {
        TextOrder::Equal
    } else {
        TextOrder::Greater
    }
}

/// Law: the text order is a strict total order.
pub proof fn lemma_text_order_total(a: Seq<char>, b: Seq<char>)
    ensures
        !text_lt(a, a),
        text_lt(a, b) ==> !text_lt(b, a),
        a != b ==> (text_lt(a, b) || text_lt(b, a)),
    decreases a.len(),
{
    if a.len() > 0 && b.len() > 0 {
        lemma_text_order_total(a.drop_first(), b.drop_first());
        lemma_text_order_total(a.drop_first(), a.drop_first());
        if a[0] == b[0] && a != b {
            if a.drop_first() == b.drop_first() {
                assert(a =~= seq![a[0]] + a.drop_first());
                assert(b =~= seq![b[0]] + b.drop_first());
            }
        }
        if a[0] != b[0] {
            assert((a[0] as int) != (b[0] as int));
        }
    } else if a.len() > 0 {
        lemma_text_order_total(a.drop_first(), a.drop_first());
    } else if b.len() == 0 {
        assert(a =~= b);
    }
}

/// Law: the text order is transitive.
pub proof fn lemma_text_order_transitive(a: Seq<char>, b: Seq<char>, c: Seq<char>)
    requires
        text_lt(a, b),
        text_lt(b, c),
    ensures
        text_lt(a, c),
    decreases a.len(),
{
    if a.len() > 0 && b.len() > 0 && c.len() > 0 {
        if a[0] == b[0] && b[0] == c[0] {
            lemma_text_order_transitive(a.drop_first(), b.drop_first(), c.drop_first());
        }
    }
}

proof fn lemma_text_lt_step(a: Seq<char>, b: Seq<char>, i: int)
    requires
        0 <= i < a.len(),
        i < b.len(),
        a[i] == b[i],
    ensures
        text_lt(a.skip(i), b.skip(i)) == text_lt(a.skip(i + 1), b.skip(i + 1)),
{
    assert(a.skip(i).drop_first() =~= a.skip(i + 1));
    assert(b.skip(i).drop_first() =~= b.skip(i + 1));
    assert(a.skip(i)[0] == a[i]);
    assert(b.skip(i)[0] == b[i]);
}

/// Compares two texts character by character.
pub fn compare_text(a: &str, b: &str) -> (o: TextOrder)
    ensures
        o == text_order(a@, b@),
{
    let la = a.unicode_len();
    let lb = b.unicode_len();
    let mut i: usize = 0;
    assert(a@.skip(0) =~= a@);
    assert(b@.skip(0) =~= b@);
    while i < la && i < lb
        invariant
            la == a@.len(),
            lb == b@.len(),
            i <= la,
            i <= lb,
            forall|j: int| 0 <= j < i ==> a@[j] == b@[j],
            text_lt(a@, b@) == text_lt(a@.skip(i as int), b@.skip(i as int)),
        decreases la - i,
    {
        let ca = a.get_char(i);
        let cb = b.get_char(i);
        assert((ca as u32) as int == ca as int && (cb as u32) as int == cb as int);
        if (ca as u32) < (cb as u32) {
            assert(a@.skip(i as int)[0] == ca && b@.skip(i as int)[0] == cb);
            return TextOrder::Less;
        }
        if (ca as u32) > (cb as u32) {
            assert(a@.skip(i as int)[0] == ca && b@.skip(i as int)[0] == cb);
            assert(a@[i as int] != b@[i as int]);
            return TextOrder::Greater;
        }
        assert(ca == cb);
        proof {
            lemma_text_lt_step(a@, b@, i as int);
        }
        i += 1;
    }
    if i == la && i == lb {
        assert(a@ =~= b@);
        proof { lemma_text_order_total(a@, b@); }
        TextOrder::Equal
    } else if i == la {
        assert(a@.skip(i as int).len() == 0);
        TextOrder::Less
    } else {
        assert(b@.skip(i as int).len() == 0);
        assert(a@.len() != b@.len());
        TextOrder::Greater
    }
}

/// Whether two texts are equal.
pub fn text_equal(a: &str, b: &str) -> (r: bool)
    ensures
        r == (a@ == b@),
{
    proof { lemma_text_order_total(a@, b@); }
    match compare_text(a, b) {
        TextOrder::Equal => true,
        _ => false,
    }
}

/// Unicode `White_Space` characters: the characters that `str::trim` removes.
pub open spec fn is_white_space(c: char) -> bool {
    let v = c as u32;
    (0x09 <= v <= 0x0D) || v == 0x20 || v == 0x85 || v == 0xA0 || v == 0x1680
        || (0x2000 <= v <= 0x200A) || v == 0x2028 || v == 0x2029 || v == 0x202F
        || v == 0x205F || v == 0x3000
}

/// Whether a character is Unicode white space.
pub fn white_space(c: char) -> (b: bool)
    ensures
        b == is_white_space(c),
{
    let v = c as u32;
    (0x09 <= v && v <= 0x0D) || v == 0x20 || v == 0x85 || v == 0xA0 || v == 0x1680
        || (0x2000 <= v && v <= 0x200A) || v == 0x2028 || v == 0x2029 || v == 0x202F
        || v == 0x205F || v == 0x3000
}

/// A text is blank when it is empty after trimming white space, that is when
/// every character is white space.
pub open spec fn is_blank_text(s: Seq<char>) -> bool {
    forall|i: int| 0 <= i < s.len() ==> is_white_space(#[trigger] s[i])
}

/// Whether `s.trim()` is empty.
pub fn is_blank(s: &str) -> (b: bool)
    ensures
        b == is_blank_text(s@),
{
    let n = s.unicode_len();
    let mut i: usize = 0;
    while i < n
        invariant
            n == s@.len(),
            i <= n,
            forall|j: int| 0 <= j < i ==> is_white_space(#[trigger] s@[j]),
        decreases n - i,
    {
        if !white_space(s.get_char(i)) {
            return false;
        }
        i += 1;
    }
    true
}

/// Owned copy of a text.
pub fn owned(s: &str) -> (r: String)
    ensures
        r@ == s@,
{
    String::from_str(s)
}

/// Concatenation of two texts.
pub fn joined(a: &str, b: &str) -> (r: String)
    ensures
        r@ == a@ + b@,
{
    let mut r = String::from_str(a);
    r.append(b);
    r
}

/// Decimal digits of `n`, most significant first, without leading zeros.
pub open spec fn decimal(n: nat) -> Seq<char>
    decreases n,
{
    if n < 10 {
        seq![digit_char((n % 10) as u8)]
    } else {
        decimal(n / 10).push(digit_char((n % 10) as u8))
    }
}

/// The ASCII digit for a value below ten.
pub open spec fn digit_char(d: u8) -> char {
    ((d + 48) as u8) as char
}

/// Digits of `m`, or nothing for zero.
pub open spec fn digits_prefix(m: nat) -> Seq<char> {
    if m == 0 { Seq::empty() } else { decimal(m) }
}

/// Decimal rendering of an unsigned integer, as `u64::to_string` writes it.
pub fn decimal_text(n: u64) -> (r: String)
    ensures
        r@ == decimal(n as nat),
{
    if n == 0 {
        let mut z = String::new();
        push_char(&mut z, '0');
        assert(z@ =~= decimal(0));
        return z;
    }
    let mut digits: Vec<char> = Vec::new();
    let mut m = n;
    let ghost mut acc: Seq<char> = Seq::empty();
    assert(decimal(n as nat) =~= digits_prefix(n as nat) + acc);
    while m > 0
        invariant
            m <= n,
            decimal(n as nat) == digits_prefix(m as nat) + acc,
            digits@ == acc.reverse(),
        decreases m,
    {
        let d = (m % 10) as u8;
        let c = ((d + 48) as u8) as char;
        assert(c == digit_char(d));
        proof {
            if m >= 10 {
                assert(decimal(m as nat) == decimal((m / 10) as nat).push(c));
                assert(digits_prefix((m / 10) as nat) == decimal((m / 10) as nat));
                assert(decimal((m / 10) as nat).push(c) + acc =~= decimal((m / 10) as nat) + (seq![c] + acc));
            } else {
                assert(decimal(m as nat) == seq![c]);
                assert(digits_prefix((m / 10) as nat) == Seq::<char>::empty());
                assert(seq![c] + acc =~= Seq::<char>::empty() + (seq![c] + acc));
            }
        }
        digits.push(c);
        proof {
            assert((seq![c] + acc).reverse() =~= acc.reverse().push(c));
            acc = seq![c] + acc;
        }
        m = m / 10;
    }
    assert(acc =~= decimal(n as nat));
    let mut out = String::new();
    let mut k = digits.len();
    while k > 0
        invariant
            k <= digits@.len(),
            digits@ == acc.reverse(),
            out@ == acc.subrange(0, (digits@.len() - k) as int),
        decreases k,
    {
        k -= 1;
        let c = digits[k];
        assert(acc.subrange(0, (digits@.len() - k) as int) =~= acc.subrange(0, (digits@.len() - k - 1) as int).push(c));
        push_char(&mut out, c);
    }
    assert(acc.subrange(0, digits@.len() as int) =~= acc);
    out
}

/// Whether `c` occurs in `s`.
pub open spec fn has_char(s: Seq<char>, c: char) -> bool {
    exists|k: int| 0 <= k < s.len() && s[k] == c
}

/// Checks whether `c` occurs in `s`.
pub fn contains_char(s: &str, c: char) -> (b: bool)
    ensures
        b == has_char(s@, c),
{
    let n = s.unicode_len();
    let mut k: usize = 0;
    while k < n
        invariant
            n == s@.len(),
            k <= n,
            forall|j: int| 0 <= j < k ==> s@[j] != c,
        decreases n - k,
    {
        if s.get_char(k) == c {
            return true;
        }
        k += 1;
    }
    false
}

/// Calls `String::push`, which std documents as appending the character
/// to the end of the text; the contract states exactly that.
#[verifier::external_body]
fn push_char(s: &mut String, c: char)
    ensures
        final(s)@ == old(s)@.push(c),
{
    s.push(c);
}

} // verus!
