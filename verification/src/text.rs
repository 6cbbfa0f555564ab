//! Text as sequences of characters: comparison, prefixes, decimal numerals and
//! joining.

use vstd::prelude::*;

verus! {

/// `String::push` appends one character at the end of the string.
pub assume_specification[ String::push ](s: &mut String, c: char)
    ensures
        final(s)@ == old(s)@.push(c),
;

/// The characters of `s`, in order.
pub fn chars_of(s: &str) -> (chars: Vec<char>)
    ensures
        chars@ == s@,
{
    let mut chars: Vec<char> = Vec::new();
    for c in it: s.chars()
        invariant
            it.seq() == s@,
            chars@ == s@.take(it.index()),
    {
        chars.push(c);
    }
    chars
}

/// The string made of `chars`.
pub fn string_of(chars: &[char]) -> (s: String)
    ensures
        s@ == chars@,
{
    let mut s = String::new();
    for i in 0..chars.len()
        invariant
            s@ == chars@.take(i as int),
    {
        s.push(chars[i]);
    }
    s
}

/// Whether two strings hold the same characters.
pub fn same(a: &str, b: &str) -> (r: bool)
    ensures
        r == (a@ == b@),
{
    let x = a.as_bytes();
    let y = b.as_bytes();
    if x.len() != y.len() {
        return false;
    }
    for i in 0..x.len()
        invariant
            x@ == vstd::utf8::encode_utf8(a@),
            y@ == vstd::utf8::encode_utf8(b@),
            x.len() == y.len(),
            forall|j: int| 0 <= j < i ==> x@[j] == y@[j],
    {
        if x[i] != y[i] {
            return false;
        }
    }
    proof {
        assert(x@ =~= y@);
        vstd::utf8::encode_utf8_decode_utf8(a@);
        vstd::utf8::encode_utf8_decode_utf8(b@);
    }
    true
}

/// Lexicographic order by code point. This is the order of `str`.
pub open spec fn seq_lt(a: Seq<char>, b: Seq<char>) -> bool {
    exists|k: int| lt_at(a, b, k)
}

pub open spec fn lt_at(a: Seq<char>, b: Seq<char>, k: int) -> bool {
    &&& 0 <= k <= a.len()
    &&& k < b.len()
    &&& a.take(k) == b.take(k)
    &&& k < a.len() ==> a[k] < b[k]
}

pub fn lt(a: &str, b: &str) -> (r: bool)
    ensures
        r == seq_lt(a@, b@),
{
    let x = chars_of(a);
    let y = chars_of(b);
    let mut k: usize = 0;
    while k < x.len() && k < y.len() && x[k] == y[k]
        invariant
            k <= x.len(),
            k <= y.len(),
            forall|j: int| 0 <= j < k ==> x@[j] == y@[j],
        decreases x.len() - k,
    {
        k += 1;
    }
    let r = k < y.len() && (k == x.len() || x[k] < y[k]);
    proof {
        assert(x@.take(k as int) =~= y@.take(k as int));
        if r {
            assert(lt_at(a@, b@, k as int));
        } else if seq_lt(a@, b@) {
            let m = choose|m: int| lt_at(a@, b@, m);
            if m < k {
                assert(x@[m] == y@[m]);
            } else if m > k {
                assert(x@.take(m)[k as int] == y@.take(m)[k as int]);
            }
        }
    }
    r
}

pub proof fn lemma_lt_irreflexive(a: Seq<char>)
    ensures
        !seq_lt(a, a),
{
}

pub proof fn lemma_lt_transitive(a: Seq<char>, b: Seq<char>, c: Seq<char>)
    requires
        seq_lt(a, b),
        seq_lt(b, c),
    ensures
        seq_lt(a, c),
{
    let i = choose|k: int| lt_at(a, b, k);
    let j = choose|k: int| lt_at(b, c, k);
    let k = if i <= j { i } else { j };
    assert(a.take(i).take(k) =~= a.take(k));
    assert(b.take(i).take(k) =~= b.take(k));
    assert(b.take(j).take(k) =~= b.take(k));
    assert(c.take(j).take(k) =~= c.take(k));
    if k < i {
        assert(a.take(i)[k] == b.take(i)[k]);
    }
    if k < j {
        assert(b.take(j)[k] == c.take(j)[k]);
    }
    assert(lt_at(a, c, k));
}

pub proof fn lemma_lt_total(a: Seq<char>, b: Seq<char>)
    ensures
        seq_lt(a, b) || seq_lt(b, a) || a == b,
    decreases a.len(),
{
    if a.len() == 0 {
        if b.len() > 0 {
            assert(a.take(0) =~= b.take(0));
            assert(lt_at(a, b, 0));
        } else {
            assert(a =~= b);
        }
    } else if b.len() == 0 {
        assert(a.take(0) =~= b.take(0));
        assert(lt_at(b, a, 0));
    } else if a[0] != b[0] {
        assert(a.take(0) =~= b.take(0));
        if a[0] < b[0] {
            assert(lt_at(a, b, 0));
        } else {
            assert(lt_at(b, a, 0));
        }
    } else {
        let x = a.skip(1);
        let y = b.skip(1);
        lemma_lt_total(x, y);
        assert(a =~= seq![a[0]] + x);
        assert(b =~= seq![a[0]] + y);
        if seq_lt(x, y) {
            let k = choose|k: int| lt_at(x, y, k);
            assert(a.take(k + 1) =~= seq![a[0]] + x.take(k));
            assert(b.take(k + 1) =~= seq![a[0]] + y.take(k));
            assert(lt_at(a, b, k + 1));
        } else if seq_lt(y, x) {
            let k = choose|k: int| lt_at(y, x, k);
            assert(a.take(k + 1) =~= seq![a[0]] + x.take(k));
            assert(b.take(k + 1) =~= seq![a[0]] + y.take(k));
            assert(lt_at(b, a, k + 1));
        }
    }
}

/// Whether `s` begins with `prefix`.
pub fn starts_with(s: &str, prefix: &str) -> (r: bool)
    ensures
        r == prefix@.is_prefix_of(s@),
{
    let x = chars_of(s);
    let p = chars_of(prefix);
    if p.len() > x.len() {
        return false;
    }
    for i in 0..p.len()
        invariant
            p.len() <= x.len(),
            p@ == prefix@,
            x@ == s@,
            forall|j: int| 0 <= j < i ==> x@[j] == p@[j],
    {
        if x[i] != p[i] {
            assert(!(p@ =~= x@.subrange(0, p@.len() as int))) by {
                assert(x@.subrange(0, p@.len() as int)[i as int] == x@[i as int]);
            }
            return false;
        }
    }
    assert(p@ =~= x@.subrange(0, p@.len() as int));
    true
}

/// Whether `a` holds exactly the characters of `b`.
pub fn option_is(a: &Option<String>, b: &str) -> (r: bool)
    ensures
        r == (a.deep_view() == Some(b@)),
{
    match a {
        Some(x) => same(x.as_str(), b),
        None => false,
    }
}

/// Whether a list holds the string `s`.
pub fn list_contains(list: &Vec<String>, s: &str) -> (r: bool)
    ensures
        r == list.deep_view().contains(s@),
{
    for i in 0..list.len()
        invariant
            forall|j: int| 0 <= j < i ==> list@[j]@ != s@,
    {
        if same(list[i].as_str(), s) {
            assert(list.deep_view()[i as int] == s@);
            return true;
        }
    }
    assert(!list.deep_view().contains(s@)) by {
        if list.deep_view().contains(s@) {
            let k = list.deep_view().index_of(s@);
            assert(list.deep_view()[k] == list@[k]@);
        }
    }
    false
}

/// Whether `s` ends with `suffix`.
pub fn ends_with(s: &str, suffix: &str) -> (r: bool)
    ensures
        r == suffix@.is_suffix_of(s@),
{
    let x = chars_of(s);
    let p = chars_of(suffix);
    if p.len() > x.len() {
        return false;
    }
    let off: usize = x.len() - p.len();
    for i in 0..p.len()
        invariant
            off + p.len() == x.len(),
            p@ == suffix@,
            x@ == s@,
            forall|j: int| 0 <= j < i ==> x@[off + j] == p@[j],
    {
        if x[off + i] != p[i] {
            assert(x@.subrange(off as int, x@.len() as int)[i as int] == x@[off + i]);
            return false;
        }
    }
    assert(p@ =~= x@.subrange(off as int, x@.len() as int));
    true
}

/// A digit of a lowercase hexadecimal numeral.
pub open spec fn is_hex_digit(c: char) -> bool {
    ('0' <= c && c <= '9') || ('a' <= c && c <= 'f')
}

/// Exactly 64 lowercase hexadecimal digits: the text of a 256-bit digest.
pub open spec fn is_hex_digest(s: Seq<char>) -> bool {
    s.len() == 64 && forall|i: int| 0 <= i < s.len() ==> is_hex_digit(#[trigger] s[i])
}

/// Whether `s` is the lowercase hexadecimal text of a 256-bit digest.
pub fn hex_digest(s: &str) -> (r: bool)
    ensures
        r == is_hex_digest(s@),
{
    let chars = chars_of(s);
    if chars.len() != 64 {
        return false;
    }
    for i in 0..chars.len()
        invariant
            chars@ == s@,
            forall|j: int| 0 <= j < i ==> is_hex_digit(#[trigger] s@[j]),
    {
        let c = chars[i];
        if !(('0' <= c && c <= '9') || ('a' <= c && c <= 'f')) {
            return false;
        }
    }
    true
}

/// The decimal digit of value `d`.
pub open spec fn digit(d: nat) -> char {
    (48 + d) as char
}

/// The decimal numeral of `n`, without leading zeros.
pub open spec fn dec(n: nat) -> Seq<char>
    decreases n,
{
    if n < 10 {
        seq![digit(n)]
    } else {
        dec(n / 10).push(digit(n % 10))
    }
}

/// The decimal numeral of `n`.
pub fn decimal(n: u64) -> (s: String)
    ensures
        s@ == dec(n as nat),
    decreases n,
{
    let low: u8 = (n % 10) as u8;
    let c = (48u8 + low) as char;
    if n < 10 {
        let mut s = String::new();
        s.push(c);
        assert(s@ =~= seq![digit(n as nat)]);
        s
    } else {
        let mut s = decimal(n / 10);
        s.push(c);
        s
    }
}

/// The value of a decimal numeral, digit by digit.
pub open spec fn numeral_value(s: Seq<char>) -> int
    decreases s.len(),
{
    if s.len() == 0 {
        0
    } else {
        10 * numeral_value(s.drop_last()) + (s.last() as int - '0' as int)
    }
}

/// A numeral is read back as the number that it was written for. It holds digits only, and no
/// leading zero.
pub proof fn law_numeral_reads_back(n: nat)
    ensures
        numeral_value(dec(n)) == n,
        dec(n).len() > 0,
        forall|i: int| 0 <= i < dec(n).len() ==> '0' <= #[trigger] dec(n)[i] <= '9',
        n > 0 ==> dec(n)[0] != '0',
    decreases n,
{
    let s = dec(n);
    if n < 10 {
        assert(s.drop_last() =~= Seq::empty());
        assert(numeral_value(s.drop_last()) == 0);
        assert(s.last() == digit(n));
    } else {
        law_numeral_reads_back(n / 10);
        assert(s.drop_last() =~= dec(n / 10));
        assert(s.last() == digit(n % 10));
        assert(s[0] == dec(n / 10)[0]);
        assert forall|i: int| 0 <= i < s.len() implies '0' <= #[trigger] s[i] <= '9' by {
            if i < s.len() - 1 {
                assert(s[i] == dec(n / 10)[i]);
            }
        }
    }
}

/// The order of texts is that of a dictionary: the first difference decides, and a text comes
/// before each of its extensions.
pub proof fn law_first_difference_decides(a: Seq<char>, b: Seq<char>, k: int)
    requires
        0 <= k <= a.len(),
        k <= b.len(),
        forall|i: int| 0 <= i < k ==> a[i] == b[i],
        k < a.len() && k < b.len() ==> a[k] != b[k],
    ensures
        k < a.len() && k < b.len() ==> (seq_lt(a, b) <==> a[k] < b[k]),
        k == a.len() && k < b.len() ==> seq_lt(a, b),
        k == b.len() ==> !seq_lt(a, b),
{
    assert(a.take(k) =~= b.take(k));
    if k < b.len() && (k == a.len() || a[k] < b[k]) {
        assert(lt_at(a, b, k));
    } else if seq_lt(a, b) {
        let m = choose|m: int| lt_at(a, b, m);
        if m < k {
            assert(a[m] == b[m]);
        } else if m > k {
            assert(a.take(m)[k] == b.take(m)[k]);
        }
    }
}

} // verus!
