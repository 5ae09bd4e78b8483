//! Texts as character sequences: comparison, order, and decimal numerals.

use vstd::prelude::*;

verus! {

/// The characters of a text.
pub fn chars_of(s: &str) -> (v: Vec<char>)
    ensures
        v@ == s@,
{
    let mut v: Vec<char> = Vec::new();
    for c in it: s.chars()
        invariant
            v@ == it.seq().take(it.index() as int),
            it.seq() == s@,
    {
        v.push(c);
    }
    v
}

/// `String::push` of std: appends one character to the text.
#[verifier::external_body]
fn push_char(s: &mut String, c: char)
    ensures
        final(s)@ == old(s)@.push(c),
{
    s.push(c);
}

/// The text made of the given characters.
pub fn text_of(chars: &Vec<char>) -> (s: String)
    ensures
        s@ == chars@,
{
    let mut s = String::new();
    let mut i: usize = 0;
    while i < chars.len()
        invariant
            i <= chars.len(),
            s@ == chars@.take(i as int),
        decreases chars.len() - i,
    {
        push_char(&mut s, chars[i]);
        proof {
            assert(chars@.take(i + 1) =~= chars@.take(i as int).push(chars[i as int]));
        }
        i += 1;
    }
    proof {
        assert(chars@.take(chars.len() as int) =~= chars@);
    }
    s
}

/// Whether two texts hold the same characters.
pub fn same_text(a: &str, b: &str) -> (r: bool)
    ensures
        r == (a@ == b@),
{
    let x = chars_of(a);
    let y = chars_of(b);
    if x.len() != y.len() {
        return false;
    }
    let mut i: usize = 0;
    while i < x.len()
        invariant
            i <= x.len(),
            x.len() == y.len(),
            x@ == a@,
            y@ == b@,
            forall|k: int| 0 <= k < i ==> x[k] == y[k],
        decreases x.len() - i,
    {
        if x[i] != y[i] {
            return false;
        }
        i += 1;
    }
    proof {
        assert(x@ =~= y@);
    }
    true
}

/// `a` stands before `b` in the order of a dictionary over code points: at
/// the first place where they differ `a` has the smaller character, or `a`
/// ends there and `b` goes on.
pub open spec fn precedes(a: Seq<char>, b: Seq<char>) -> bool {
    exists|k: int| differs_first_at(a, b, k)
}

/// `a` and `b` agree on their first `k` characters, and there `a` ends first
/// or has the smaller character.
pub open spec fn differs_first_at(a: Seq<char>, b: Seq<char>, k: int) -> bool {
    &&& 0 <= k <= a.len()
    &&& k < b.len()
    &&& a.take(k) == b.take(k)
    &&& k < a.len() ==> (a[k] as int) < (b[k] as int)
}

/// No text stands before itself.
pub proof fn lemma_precedes_irreflexive(a: Seq<char>)
    ensures
        !precedes(a, a),
{
}

/// The order of texts is transitive.
pub proof fn lemma_precedes_transitive(a: Seq<char>, b: Seq<char>, c: Seq<char>)
    requires
        precedes(a, b),
        precedes(b, c),
    ensures
        precedes(a, c),
{
    let i = choose|k: int| differs_first_at(a, b, k);
    let j = choose|k: int| differs_first_at(b, c, k);
    let m = if i <= j { i } else { j };
    assert(a.take(m) =~= c.take(m)) by {
        assert forall|x: int| 0 <= x < m implies a[x] == c[x] by {
            assert(a.take(i)[x] == b.take(i)[x]);
            assert(b.take(j)[x] == c.take(j)[x]);
        }
    }
    if m < a.len() {
        if i < j {
            assert(b.take(j)[i] == c.take(j)[i]);
        } else if j < i {
            assert(a.take(i)[j] == b.take(i)[j]);
        }
    }
    assert(differs_first_at(a, c, m));
}

/// Of two different texts one stands before the other.
pub proof fn lemma_precedes_total(a: Seq<char>, b: Seq<char>)
    ensures
        a == b || precedes(a, b) || precedes(b, a),
        !(precedes(a, b) && precedes(b, a)),
        !(precedes(a, b) && a == b),
{
    assert(a.take(0) =~= b.take(0));
    lemma_common_prefix(a, b, 0);
    if precedes(a, b) && precedes(b, a) {
        lemma_precedes_transitive(a, b, a);
    }
}

proof fn lemma_common_prefix(a: Seq<char>, b: Seq<char>, k: int)
    requires
        0 <= k <= a.len(),
        k <= b.len(),
        a.take(k) == b.take(k),
    ensures
        a == b || precedes(a, b) || precedes(b, a),
    decreases a.len() - k,
{
    if k == a.len() {
        if k == b.len() {
            assert(a =~= a.take(k));
            assert(b =~= b.take(k));
        } else {
            assert(differs_first_at(a, b, k));
        }
    } else if k == b.len() {
        assert(differs_first_at(b, a, k));
    } else if a[k] == b[k] {
        assert(a.take(k + 1) =~= a.take(k).push(a[k]));
        assert(b.take(k + 1) =~= b.take(k).push(b[k]));
        lemma_common_prefix(a, b, k + 1);
    } else if (a[k] as int) < (b[k] as int) {
        assert(differs_first_at(a, b, k));
    } else {
        assert(differs_first_at(b, a, k));
    }
}

/// Whether `a` stands before `b` in the order of texts.
pub fn text_precedes(a: &str, b: &str) -> (r: bool)
    ensures
        r == precedes(a@, b@),
{
    let x = chars_of(a);
    let y = chars_of(b);
    let mut i: usize = 0;
    while i < x.len() && i < y.len()
        invariant
            i <= x.len(),
            i <= y.len(),
            x@ == a@,
            y@ == b@,
            x@.take(i as int) == y@.take(i as int),
        decreases x.len() - i,
    {
        if x[i] != y[i] {
            let before = x[i] < y[i];
            proof {
                if before {
                    assert(differs_first_at(a@, b@, i as int));
                } else {
                    assert(differs_first_at(b@, a@, i as int));
                    lemma_precedes_total(a@, b@);
                }
            }
            return before;
        }
        proof {
            assert(x@.take(i + 1) =~= x@.take(i as int).push(x[i as int]));
            assert(y@.take(i + 1) =~= y@.take(i as int).push(y[i as int]));
        }
        i += 1;
    }
    proof {
        if i < y.len() {
            assert(differs_first_at(a@, b@, i as int));
        } else if i < x.len() {
            assert(differs_first_at(b@, a@, i as int));
            lemma_precedes_total(a@, b@);
        } else {
            assert(a@ =~= a@.take(i as int));
            assert(b@ =~= b@.take(i as int));
            lemma_precedes_irreflexive(a@);
        }
    }
    i < y.len()
}

/// The character of a decimal digit.
pub open spec fn digit(d: int) -> char {
    if d == 0 {
        '0'
    } else if d == 1 {
        '1'
    } else if d == 2 {
        '2'
    } else if d == 3 {
        '3'
    } else if d == 4 {
        '4'
    } else if d == 5 {
        '5'
    } else if d == 6 {
        '6'
    } else if d == 7 {
        '7'
    } else if d == 8 {
        '8'
    } else {
        '9'
    }
}

/// The decimal numeral of a natural number, without leading zeros.
pub open spec fn numeral(n: nat) -> Seq<char>
    decreases n,
{
    if n < 10 {
        seq![digit(n as int)]
    } else {
        numeral(n / 10).push(digit((n % 10) as int))
    }
}

/// The decimal numeral of an integer, with a minus sign where it is negative.
pub open spec fn decimal(n: int) -> Seq<char> {
    if n < 0 {
        seq!['-'] + numeral((-n) as nat)
    } else {
        numeral(n as nat)
    }
}

/// The last `width` digits of `n`, with leading zeros.
pub open spec fn padded(n: nat, width: nat) -> Seq<char>
    decreases width,
{
    if width == 0 {
        Seq::<char>::empty()
    } else {
        padded(n / 10, (width - 1) as nat).push(digit((n % 10) as int))
    }
}

fn digit_char(d: u64) -> (c: char)
    requires
        d < 10,
    ensures
        c == digit(d as int),
{
    if d == 0 {
        '0'
    } else if d == 1 {
        '1'
    } else if d == 2 {
        '2'
    } else if d == 3 {
        '3'
    } else if d == 4 {
        '4'
    } else if d == 5 {
        '5'
    } else if d == 6 {
        '6'
    } else if d == 7 {
        '7'
    } else if d == 8 {
        '8'
    } else {
        '9'
    }
}

/// Appends the decimal numeral of `n` to `out`.
pub fn push_numeral(out: &mut String, n: u64)
    ensures
        final(out)@ == old(out)@ + numeral(n as nat),
    decreases n,
{
    if n >= 10 {
        push_numeral(out, n / 10);
    }
    push_char(out, digit_char(n % 10));
    proof {
        if n >= 10 {
            assert(old(out)@ + numeral(n as nat) =~= (old(out)@ + numeral((n / 10) as nat)).push(
                digit((n % 10) as int),
            ));
        } else {
            assert(old(out)@ + numeral(n as nat) =~= old(out)@.push(digit(n as int)));
        }
    }
}

/// Appends the last `width` digits of `n` to `out`, with leading zeros.
pub fn push_padded(out: &mut String, n: u64, width: u8)
    ensures
        final(out)@ == old(out)@ + padded(n as nat, width as nat),
    decreases width,
{
    if width > 0 {
        push_padded(out, n / 10, width - 1);
        push_char(out, digit_char(n % 10));
        proof {
            assert(old(out)@ + padded(n as nat, width as nat) =~= (old(out)@ + padded(
                (n / 10) as nat,
                (width - 1) as nat,
            )).push(digit((n % 10) as int)));
        }
    } else {
        proof {
            assert(old(out)@ + padded(n as nat, 0) =~= old(out)@);
        }
    }
}

/// The size of an integer, as an unsigned number.
pub fn magnitude(n: i64) -> (m: u64)
    ensures
        m == if n < 0 {
            -n
        } else {
            n as int
        },
{
    if n < 0 {
        ((-(n + 1)) as u64) + 1
    } else {
        n as u64
    }
}

/// Appends the decimal numeral of `n` to `out`.
pub fn push_decimal(out: &mut String, n: i64)
    ensures
        final(out)@ == old(out)@ + decimal(n as int),
{
    if n < 0 {
        push_char(out, '-');
        push_numeral(out, magnitude(n));
        proof {
            assert(old(out)@ + decimal(n as int) =~= old(out)@.push('-') + numeral((-n) as nat));
        }
    } else {
        push_numeral(out, magnitude(n));
    }
}

/// The decimal numeral of `n`.
pub fn decimal_text(n: i64) -> (s: String)
    ensures
        s@ == decimal(n as int),
{
    let mut s = String::new();
    push_decimal(&mut s, n);
    proof {
        assert(Seq::<char>::empty() + decimal(n as int) =~= decimal(n as int));
    }
    s
}

/// The digits of `f` in `width` places behind a decimal point, without the
/// zeros at their end.
pub open spec fn trimmed(f: nat, width: nat) -> Seq<char>
    decreases width,
{
    if width == 0 {
        Seq::<char>::empty()
    } else if f % 10 == 0 {
        trimmed(f / 10, (width - 1) as nat)
    } else {
        padded(f, width)
    }
}

/// The canonical numeral of a number given in millionths.  A whole number is
/// written as the integer is; any other number is written with a decimal
/// point and as many places behind it as it needs.
pub open spec fn millionths(m: int) -> Seq<char> {
    if m % 1_000_000 == 0 {
        decimal(m / 1_000_000)
    } else if m < 0 {
        seq!['-'] + numeral(((-m) / 1_000_000) as nat) + seq!['.'] + trimmed(
            ((-m) % 1_000_000) as nat,
            6,
        )
    } else {
        numeral((m / 1_000_000) as nat) + seq!['.'] + trimmed((m % 1_000_000) as nat, 6)
    }
}

/// Appends the digits of `f` in `width` places behind a decimal point,
/// without the zeros at their end.
pub fn push_trimmed(out: &mut String, f: u64, width: u8)
    ensures
        final(out)@ == old(out)@ + trimmed(f as nat, width as nat),
    decreases width,
{
    if width == 0 {
        proof {
            assert(old(out)@ + trimmed(f as nat, 0) =~= old(out)@);
        }
    } else if f % 10 == 0 {
        push_trimmed(out, f / 10, width - 1);
    } else {
        push_padded(out, f, width);
    }
}

/// The canonical numeral of a number given in millionths.
pub fn millionths_text(m: i64) -> (s: String)
    ensures
        s@ == millionths(m as int),
{
    let size = magnitude(m);
    let whole = size / 1_000_000;
    let rest = size % 1_000_000;
    let mut s = String::new();
    if m < 0 {
        push_char(&mut s, '-');
    }
    push_numeral(&mut s, whole);
    if rest != 0 {
        push_char(&mut s, '.');
        push_trimmed(&mut s, rest, 6);
    }
    proof {
        if rest == 0 {
            assert(m as int % 1_000_000 == 0);
            if m < 0 {
                assert(m as int / 1_000_000 == -(whole as int));
                if whole == 0 {
                    assert(false);
                }
                assert(s@ =~= seq!['-'] + numeral(whole as nat));
            } else {
                assert(m as int / 1_000_000 == whole as int);
                assert(s@ =~= numeral(whole as nat));
            }
        } else {
            assert(m as int % 1_000_000 != 0);
            assert(s@ =~= millionths(m as int));
        }
    }
    s
}

/// The value of a decimal digit, if the character is one.
pub open spec fn digit_value(c: char) -> Option<int> {
    if c == '0' {
        Some(0)
    } else if c == '1' {
        Some(1)
    } else if c == '2' {
        Some(2)
    } else if c == '3' {
        Some(3)
    } else if c == '4' {
        Some(4)
    } else if c == '5' {
        Some(5)
    } else if c == '6' {
        Some(6)
    } else if c == '7' {
        Some(7)
    } else if c == '8' {
        Some(8)
    } else if c == '9' {
        Some(9)
    } else {
        None
    }
}

/// The number that a run of decimal digits writes; nothing for an empty run
/// or one that holds another character.
pub open spec fn numeral_value(s: Seq<char>) -> Option<int>
    decreases s.len(),
{
    if s.len() == 0 {
        None
    } else if s.len() == 1 {
        digit_value(s[0])
    } else {
        match (numeral_value(s.drop_last()), digit_value(s.last())) {
            (Some(high), Some(low)) => Some(high * 10 + low),
            _ => None,
        }
    }
}

/// The integer that a text writes in decimal, with an optional sign in front.
pub open spec fn integer_value(s: Seq<char>) -> Option<int> {
    if s.len() > 0 && s[0] == '-' {
        match numeral_value(s.skip(1)) {
            Some(v) => Some(-v),
            None => None,
        }
    } else if s.len() > 0 && s[0] == '+' {
        numeral_value(s.skip(1))
    } else {
        numeral_value(s)
    }
}

fn digit_of(c: char) -> (d: Option<u64>)
    ensures
        match d {
            Some(v) => digit_value(c) == Some(v as int) && v < 10,
            None => digit_value(c) is None,
        },
{
    if c == '0' {
        Some(0)
    } else if c == '1' {
        Some(1)
    } else if c == '2' {
        Some(2)
    } else if c == '3' {
        Some(3)
    } else if c == '4' {
        Some(4)
    } else if c == '5' {
        Some(5)
    } else if c == '6' {
        Some(6)
    } else if c == '7' {
        Some(7)
    } else if c == '8' {
        Some(8)
    } else if c == '9' {
        Some(9)
    } else {
        None
    }
}

proof fn lemma_numeral_prefix(s: Seq<char>, k: int)
    requires
        1 <= k <= s.len(),
        numeral_value(s.take(k)) is None,
    ensures
        numeral_value(s) is None,
    decreases s.len() - k,
{
    if k < s.len() {
        assert(s.take(k + 1).drop_last() =~= s.take(k));
        lemma_numeral_prefix(s, k + 1);
    } else {
        assert(s.take(k) =~= s);
    }
}

/// The 64-bit integer that a text writes in decimal; nothing where the text
/// is no numeral or the number does not fit.
pub open spec fn spec_parse_integer(s: Seq<char>) -> Option<i64> {
    match integer_value(s) {
        Some(v) => if i64::MIN <= v <= i64::MAX {
            Some(v as i64)
        } else {
            None
        },
        None => None,
    }
}

/// Reads an integer written in decimal with an optional sign in front;
/// nothing where the text is no such numeral or the number does not fit.
pub fn parse_integer(s: &str) -> (r: Option<i64>)
    ensures
        r == spec_parse_integer(s@),
{
    let chars = chars_of(s);
    let n = chars.len();
    let negative = n > 0 && chars[0] == '-';
    let signed = n > 0 && (chars[0] == '-' || chars[0] == '+');
    let first: usize = if signed { 1 } else { 0 };
    let ghost body = s@.skip(first as int);
    if first == n {
        return None;
    }
    let mut acc: u64 = 0;
    let mut over = false;
    let mut i: usize = first;
    while i < n
        invariant
            first <= i <= n,
            first < n,
            n == chars.len(),
            chars@ == s@,
            signed == (s@[0] == '-' || s@[0] == '+'),
            first == if signed { 1int } else { 0int },
            body == s@.skip(first as int),
            i > first ==> numeral_value(body.take(i - first)) is Some,
            i > first && !over ==> numeral_value(body.take(i - first)) == Some(acc as int),
            i > first && over ==> numeral_value(body.take(i - first))->0 > u64::MAX,
            i == first ==> acc == 0 && !over,
        decreases n - i,
    {
        let ghost seen = body.take(i - first);
        let ghost next = body.take(i + 1 - first);
        proof {
            assert(next.drop_last() =~= seen);
            assert(next.last() == chars[i as int]);
        }
        match digit_of(chars[i]) {
            None => {
                proof {
                    lemma_numeral_prefix(body, i + 1 - first);
                    assert(s@.skip(0) =~= s@);
                }
                return None;
            },
            Some(d) => {
                if over || acc > (u64::MAX - d) / 10 {
                    over = true;
                } else {
                    acc = acc * 10 + d;
                }
            },
        }
        i += 1;
    }
    proof {
        assert(body.take(n - first) =~= body);
        assert(s@.skip(0) =~= s@);
    }
    if over {
        None
    } else if negative {
        if acc <= 9_223_372_036_854_775_807 {
            Some(-(acc as i64))
        } else if acc == 9_223_372_036_854_775_808 {
            Some(i64::MIN)
        } else {
            None
        }
    } else if acc <= 9_223_372_036_854_775_807 {
        Some(acc as i64)
    } else {
        None
    }
}

} // verus!
