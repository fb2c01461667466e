//! Byte strings, little-endian integers and decimal text.

use vstd::prelude::*;
use vstd::arithmetic::power::*;

verus! {

// ---------------------------------------------------------------------------
// Byte strings
// ---------------------------------------------------------------------------

/// Compares two byte strings.
pub fn bytes_eq(a: &[u8], b: &[u8]) -> (r: bool)
    ensures
        r == (a@ == b@),
{
    if a.len() != b.len() {
        return false;
    }
    let mut i: usize = 0;
    while i < a.len()
        invariant
            a.len() == b.len(),
            i <= a.len(),
            forall|j: int| 0 <= j < i ==> a@[j] == b@[j],
        decreases a.len() - i,
    {
        if a[i] != b[i] {
            return false;
        }
        i = i + 1;
    }
    assert(a@ =~= b@);
    true
}

/// Whether `a` and `b` first differ at `k`, where `a` is the smaller.
pub open spec fn smaller_at(a: Seq<u8>, b: Seq<u8>, k: int) -> bool {
    &&& 0 <= k < a.len()
    &&& k < b.len()
    &&& a[k] < b[k]
    &&& forall|j: int| 0 <= j < k ==> a[j] == b[j]
}

/// Lexicographic order of byte strings of one length.
pub open spec fn lex_lt(a: Seq<u8>, b: Seq<u8>) -> bool {
    exists|k: int| smaller_at(a, b, k)
}

pub proof fn lemma_lex_irreflexive(a: Seq<u8>)
    ensures
        !lex_lt(a, a),
{
}

pub proof fn lemma_lex_transitive(a: Seq<u8>, b: Seq<u8>, c: Seq<u8>)
    requires
        lex_lt(a, b),
        lex_lt(b, c),
    ensures
        lex_lt(a, c),
{
    let i = choose|k: int| smaller_at(a, b, k);
    let j = choose|k: int| smaller_at(b, c, k);
    if i < j {
        assert(smaller_at(a, c, i));
    } else {
        assert(smaller_at(a, c, j));
    }
}

/// Compares two byte strings of one length in lexicographic order.
pub fn bytes_lt(a: &[u8], b: &[u8]) -> (r: bool)
    requires
        a.len() == b.len(),
    ensures
        r == lex_lt(a@, b@),
        !r && a@ != b@ ==> lex_lt(b@, a@),
{
    let mut i: usize = 0;
    while i < a.len()
        invariant
            a.len() == b.len(),
            i <= a.len(),
            forall|j: int| 0 <= j < i ==> a@[j] == b@[j],
        decreases a.len() - i,
    {
        if a[i] < b[i] {
            assert(smaller_at(a@, b@, i as int));
            return true;
        }
        if b[i] < a[i] {
            assert(smaller_at(b@, a@, i as int));
            assert(!lex_lt(a@, b@)) by {
                if lex_lt(a@, b@) {
                    let k = choose|k: int| smaller_at(a@, b@, k);
                    assert(k == i || k < i || k > i);
                }
            }
            return false;
        }
        i = i + 1;
    }
    assert(a@ =~= b@);
    false
}

/// The bytes of a text in UTF-8.
pub open spec fn text_bytes(text: Seq<char>) -> Seq<u8> {
    vstd::utf8::encode_utf8(text)
}

/// Appends a text in UTF-8 to `out`.
pub fn push_text(out: &mut Vec<u8>, text: &str)
    ensures
        final(out)@ == old(out)@ + text_bytes(text@),
{
    push_bytes(out, text.as_bytes());
}

/// A text in UTF-8.
pub fn text_vec(text: &str) -> (out: Vec<u8>)
    ensures
        out@ == text_bytes(text@),
{
    copy_bytes(text.as_bytes())
}

/// Whether two texts are the same.
pub fn text_eq(a: &str, b: &str) -> (r: bool)
    ensures
        r == (a@ == b@),
{
    proof {
        vstd::utf8::encode_utf8_decode_utf8(a@);
        vstd::utf8::encode_utf8_decode_utf8(b@);
    }
    bytes_eq(a.as_bytes(), b.as_bytes())
}

/// Appends `data` to `out`.
pub fn push_bytes(out: &mut Vec<u8>, data: &[u8])
    ensures
        final(out)@ == old(out)@ + data@,
{
    let ghost before = out@;
    out.extend_from_slice(data);
    assert(out@ =~= before + data@);
}

/// A copy of `data`.
pub fn copy_bytes(data: &[u8]) -> (out: Vec<u8>)
    ensures
        out@ == data@,
{
    let mut out: Vec<u8> = Vec::new();
    push_bytes(&mut out, data);
    assert(out@ =~= data@);
    out
}

/// The first 32 bytes of `data` as an array.
pub fn first_32(data: &[u8]) -> (out: [u8; 32])
    requires
        data.len() >= 32,
    ensures
        out@ == data@.subrange(0, 32),
{
    let mut out: [u8; 32] = [0u8; 32];
    let mut i: usize = 0;
    while i < 32
        invariant
            i <= 32,
            data.len() >= 32,
            forall|j: int| 0 <= j < i ==> out@[j] == data@[j],
        decreases 32 - i,
    {
        out[i] = data[i];
        i = i + 1;
    }
    assert(out@ =~= data@.subrange(0, 32));
    out
}

/// The first `n` digests of a list, one after the other.
pub open spec fn joined(items: Seq<[u8; 32]>, n: nat) -> Seq<u8>
    decreases n,
{
    if n == 0 {
        Seq::empty()
    } else {
        joined(items, (n - 1) as nat) + items[n - 1]@
    }
}

/// The length of a joined list, and where each digest stands in it.
pub proof fn lemma_joined(items: Seq<[u8; 32]>, n: nat)
    requires
        n <= items.len(),
    ensures
        joined(items, n).len() == 32 * n,
        forall|i: int|
            0 <= i < n ==> joined(items, n).subrange(32 * i, 32 * i + 32)
                == #[trigger] items[i]@,
    decreases n,
{
    if n > 0 {
        lemma_joined(items, (n - 1) as nat);
        let before = joined(items, (n - 1) as nat);
        let all = joined(items, n);
        assert forall|i: int| 0 <= i < n implies all.subrange(32 * i, 32 * i + 32)
            == #[trigger] items[i]@ by {
            if i < n - 1 {
                assert(all.subrange(32 * i, 32 * i + 32) =~= before.subrange(32 * i, 32 * i + 32));
            } else {
                assert(all.subrange(32 * i, 32 * i + 32) =~= items[i]@);
            }
        }
    }
}

/// Equal digests join to equal byte strings.
pub proof fn lemma_joined_pieces(items: Seq<[u8; 32]>, n: nat, data: Seq<u8>)
    requires
        n <= items.len(),
        data.len() == 32 * n,
        forall|i: int| 0 <= i < n ==> #[trigger] items[i]@ == data.subrange(32 * i, 32 * i + 32),
    ensures
        joined(items, n) == data,
    decreases n,
{
    if n == 0 {
        assert(joined(items, n) =~= data);
    } else {
        let head = data.subrange(0, 32 * (n - 1));
        assert forall|i: int| 0 <= i < n - 1 implies #[trigger] items[i]@ == head.subrange(
            32 * i,
            32 * i + 32,
        ) by {
            assert(head.subrange(32 * i, 32 * i + 32) =~= data.subrange(32 * i, 32 * i + 32));
        }
        lemma_joined_pieces(items, (n - 1) as nat, head);
        assert(items[n - 1]@ == data.subrange(32 * (n - 1), 32 * (n - 1) + 32));
        assert(joined(items, n) =~= data);
    }
}

/// Appends every digest of a list to `out`.
pub fn push_joined(out: &mut Vec<u8>, items: &[[u8; 32]])
    ensures
        final(out)@ == old(out)@ + joined(items@, items@.len()),
{
    let ghost before = out@;
    let mut i: usize = 0;
    assert(out@ =~= before + joined(items@, 0));
    while i < items.len()
        invariant
            i <= items.len(),
            out@ == before + joined(items@, i as nat),
        decreases items.len() - i,
    {
        push_bytes(out, &items[i]);
        i = i + 1;
        assert(out@ =~= before + joined(items@, i as nat));
    }
}

// ---------------------------------------------------------------------------
// Little-endian integers
// ---------------------------------------------------------------------------

/// The `n` low bytes of `x`, least significant first.
pub open spec fn le_bytes(x: nat, n: nat) -> Seq<u8>
    decreases n,
{
    if n == 0 {
        Seq::empty()
    } else {
        seq![(x % 256) as u8] + le_bytes(x / 256, (n - 1) as nat)
    }
}

/// The number whose little-endian bytes are `s`.
pub open spec fn le_value(s: Seq<u8>) -> nat
    decreases s.len(),
{
    if s.len() == 0 {
        0
    } else {
        s[0] as nat + 256 * le_value(s.subrange(1, s.len() as int))
    }
}

/// The number whose big-endian bytes are `s`.
pub open spec fn be_value(s: Seq<u8>) -> nat {
    le_value(s.reverse())
}

pub proof fn lemma_le_bytes_len(x: nat, n: nat)
    ensures
        le_bytes(x, n).len() == n,
    decreases n,
{
    if n > 0 {
        lemma_le_bytes_len(x / 256, (n - 1) as nat);
    }
}

pub proof fn lemma_pow_256_step(n: nat)
    requires
        n > 0,
    ensures
        pow(256, n) == 256 * pow(256, (n - 1) as nat),
        pow(256, (n - 1) as nat) > 0,
{
    reveal(pow);
    lemma_pow_positive(256, (n - 1) as nat);
}

/// Reading back the little-endian bytes of a number that fits gives the number.
pub proof fn lemma_le_roundtrip(x: nat, n: nat)
    requires
        x < pow(256, n),
    ensures
        le_value(le_bytes(x, n)) == x,
    decreases n,
{
    if n == 0 {
        lemma_pow0(256);
    } else {
        lemma_pow_256_step(n);
        let p: int = pow(256, (n - 1) as nat);
        assert(x / 256 < p) by (nonlinear_arith)
            requires
                x < 256 * p,
                p > 0,
        ;
        lemma_le_roundtrip(x / 256, (n - 1) as nat);
        let s = le_bytes(x, n);
        lemma_le_bytes_len(x / 256, (n - 1) as nat);
        assert(s.subrange(1, s.len() as int) =~= le_bytes(x / 256, (n - 1) as nat));
        assert(s[0] == (x % 256) as u8);
    }
}

/// A byte string is the little-endian form of the number it reads as, and bounds it.
pub proof fn lemma_le_value(s: Seq<u8>)
    ensures
        le_value(s) < pow(256, s.len()),
        le_bytes(le_value(s), s.len()) == s,
    decreases s.len(),
{
    if s.len() == 0 {
        lemma_pow0(256);
        assert(le_bytes(0, 0) =~= s);
    } else {
        let t = s.subrange(1, s.len() as int);
        lemma_le_value(t);
        lemma_pow_256_step(s.len());
        let p: int = pow(256, t.len());
        let v = le_value(t);
        assert(s[0] as nat + 256 * v < 256 * p);
        assert(le_value(s) % 256 == s[0] as nat);
        assert(le_value(s) / 256 == v);
        assert(le_bytes(le_value(s), s.len()) =~= s);
    }
}

pub proof fn lemma_pow_256_values()
    ensures
        pow(256, 4) == 0x1_0000_0000,
        pow(256, 8) == 0x1_0000_0000_0000_0000,
        pow(256, 16) == 0x1_0000_0000_0000_0000_0000_0000_0000_0000,
{
    reveal_with_fuel(pow, 17);
}

/// `le_value` of at most eight bytes fits in 64 bits.
pub proof fn lemma_le_value_u64(s: Seq<u8>)
    requires
        s.len() <= 8,
    ensures
        le_value(s) <= u64::MAX,
{
    lemma_le_value(s);
    lemma_pow_256_values();
    lemma_pow_increases(256, s.len(), 8);
}

pub proof fn lemma_le_u64_roundtrip(x: u64)
    ensures
        le_value(le_bytes(x as nat, 8)) == x,
        le_bytes(x as nat, 8).len() == 8,
{
    lemma_pow_256_values();
    lemma_le_roundtrip(x as nat, 8);
    lemma_le_bytes_len(x as nat, 8);
}

pub proof fn lemma_le_u32_roundtrip(x: u32)
    ensures
        le_value(le_bytes(x as nat, 4)) == x,
        le_bytes(x as nat, 4).len() == 4,
{
    lemma_pow_256_values();
    lemma_le_roundtrip(x as nat, 4);
    lemma_le_bytes_len(x as nat, 4);
}

/// Appends the `n` low bytes of `x`, least significant first.
pub fn push_le(out: &mut Vec<u8>, x: u128, n: usize)
    ensures
        final(out)@ == old(out)@ + le_bytes(x as nat, n as nat),
{
    let ghost before = out@;
    let mut rest: u128 = x;
    let mut i: usize = 0;
    assert(out@ + le_bytes(rest as nat, n as nat) =~= before + le_bytes(x as nat, n as nat));
    while i < n
        invariant
            i <= n,
            out@ + le_bytes(rest as nat, (n - i) as nat) == before + le_bytes(x as nat, n as nat),
        decreases n - i,
    {
        let ghost old_out = out@;
        let ghost old_rest = rest;
        out.push((rest % 256) as u8);
        rest = rest / 256;
        i = i + 1;
        proof {
            assert(out@ + le_bytes(rest as nat, (n - i) as nat) =~= old_out + le_bytes(
                old_rest as nat,
                (n - i + 1) as nat,
            ));
        }
    }
    assert(out@ + le_bytes(rest as nat, 0) =~= out@);
}

/// Appends a 32-bit integer in little-endian form.
pub fn push_u32(out: &mut Vec<u8>, x: u32)
    ensures
        final(out)@ == old(out)@ + le_bytes(x as nat, 4),
{
    push_le(out, x as u128, 4);
}

/// Appends a 64-bit integer in little-endian form.
pub fn push_u64(out: &mut Vec<u8>, x: u64)
    ensures
        final(out)@ == old(out)@ + le_bytes(x as nat, 8),
{
    push_le(out, x as u128, 8);
}

/// The number of which `data` is the little-endian form.
pub fn read_u64(data: &[u8]) -> (x: u64)
    requires
        data.len() <= 8,
    ensures
        x == le_value(data@),
{
    let mut acc: u64 = 0;
    let mut i: usize = data.len();
    assert(data@.subrange(data.len() as int, data.len() as int) =~= Seq::<u8>::empty());
    while i > 0
        invariant
            i <= data.len(),
            data.len() <= 8,
            acc == le_value(data@.subrange(i as int, data.len() as int)),
        decreases i,
    {
        let ghost tail = data@.subrange(i as int, data.len() as int);
        i = i - 1;
        proof {
            let whole = data@.subrange(i as int, data.len() as int);
            assert(whole.subrange(1, whole.len() as int) =~= tail);
            assert(whole[0] == data@[i as int]);
            lemma_le_value_u64(whole);
        }
        acc = data[i] as u64 + 256 * acc;
    }
    assert(data@.subrange(0, data.len() as int) =~= data@);
    acc
}

/// The 32-bit number of which the four bytes of `data` are the little-endian form.
pub fn read_u32(data: &[u8]) -> (x: u32)
    requires
        data.len() == 4,
    ensures
        x == le_value(data@),
{
    let x: u64 = read_u64(data);
    proof {
        lemma_le_value(data@);
        lemma_pow_256_values();
    }
    x as u32
}

/// Two sequences in two parts are equal only part by part, where the first parts are equally long.
pub proof fn lemma_split<A>(a: Seq<A>, b: Seq<A>, c: Seq<A>, d: Seq<A>)
    requires
        a + b == c + d,
        a.len() == c.len(),
    ensures
        a == c,
        b == d,
{
    assert(a =~= (a + b).subrange(0, a.len() as int));
    assert(c =~= (c + d).subrange(0, c.len() as int));
    assert(b =~= (a + b).subrange(a.len() as int, (a + b).len() as int));
    assert(d =~= (c + d).subrange(c.len() as int, (c + d).len() as int));
}

/// The little-endian bytes of a 64-bit number belong to that number alone.
pub proof fn law_le_u64_injective(x: u64, y: u64)
    ensures
        le_bytes(x as nat, 8).len() == 8,
        le_bytes(y as nat, 8).len() == 8,
        le_bytes(x as nat, 8) == le_bytes(y as nat, 8) <==> x == y,
{
    lemma_le_u64_roundtrip(x);
    lemma_le_u64_roundtrip(y);
}

/// The little-endian bytes of a 32-bit number belong to that number alone.
pub proof fn law_le_u32_injective(x: u32, y: u32)
    ensures
        le_bytes(x as nat, 4).len() == 4,
        le_bytes(y as nat, 4).len() == 4,
        le_bytes(x as nat, 4) == le_bytes(y as nat, 4) <==> x == y,
{
    lemma_le_u32_roundtrip(x);
    lemma_le_u32_roundtrip(y);
}

/// Joined 32-byte strings hold each of them in its place, so that equally many strings join alike
/// only where they are the same.
pub proof fn law_joined_injective(a: Seq<[u8; 32]>, b: Seq<[u8; 32]>)
    requires
        joined(a, a.len()) == joined(b, b.len()),
    ensures
        a.len() == b.len(),
        forall|i: int| 0 <= i < a.len() ==> (#[trigger] a[i])@ == b[i]@,
{
    lemma_joined(a, a.len());
    lemma_joined(b, b.len());
    assert forall|i: int| 0 <= i < a.len() implies (#[trigger] a[i])@ == b[i]@ by {
        assert(joined(a, a.len()).subrange(32 * i, 32 * i + 32) == a[i]@);
        assert(joined(b, b.len()).subrange(32 * i, 32 * i + 32) == b[i]@);
    }
}

/// The two's complement form of a signed 64-bit number.
pub open spec fn twos_complement(x: int) -> nat {
    if x >= 0 {
        x as nat
    } else {
        (x + 0x1_0000_0000_0000_0000) as nat
    }
}

/// Appends a signed 64-bit integer in little-endian two's complement form.
pub fn push_i64(out: &mut Vec<u8>, x: i64)
    ensures
        final(out)@ == old(out)@ + le_bytes(twos_complement(x as int), 8),
{
    let bits: u64 = if x >= 0 {
        x as u64
    } else {
        u64::MAX - ((-(x + 1)) as u64)
    };
    push_u64(out, bits);
}

// ---------------------------------------------------------------------------
// Decimal text
// ---------------------------------------------------------------------------

/// The character of a decimal digit.
pub open spec fn digit_char(d: nat) -> char {
    if d == 0 {
        '0'
    } else if d == 1 {
        '1'
    } else if d == 2 {
        '2'
    } else if d == 3 {
        '3'
    } else if d == 4 {
        '4'
    } else if d == 5 {
        '5'
    } else if d == 6 {
        '6'
    } else if d == 7 {
        '7'
    } else if d == 8 {
        '8'
    } else {
        '9'
    }
}

/// A number in decimal, without leading zeros.
pub open spec fn decimal(x: nat) -> Seq<char>
    decreases x,
{
    if x < 10 {
        seq![digit_char(x)]
    } else {
        decimal(x / 10).push(digit_char(x % 10))
    }
}

fn digit_text(d: u64) -> (s: String)
    requires
        d < 10,
    ensures
        s@ == seq![digit_char(d as nat)],
{
    proof {
        reveal_strlit("0");
        reveal_strlit("1");
        reveal_strlit("2");
        reveal_strlit("3");
        reveal_strlit("4");
        reveal_strlit("5");
        reveal_strlit("6");
        reveal_strlit("7");
        reveal_strlit("8");
        reveal_strlit("9");
    }
    let s: &str = if d == 0 {
        "0"
    } else if d == 1 {
        "1"
    } else if d == 2 {
        "2"
    } else if d == 3 {
        "3"
    } else if d == 4 {
        "4"
    } else if d == 5 {
        "5"
    } else if d == 6 {
        "6"
    } else if d == 7 {
        "7"
    } else if d == 8 {
        "8"
    } else {
        "9"
    };
    assert(s@ =~= seq![digit_char(d as nat)]);
    s.to_owned()
}

/// Writes a number in decimal.
pub fn decimal_text(x: u64) -> (s: String)
    ensures
        s@ == decimal(x as nat),
    decreases x,
{
    if x < 10 {
        digit_text(x)
    } else {
        let head: String = decimal_text(x / 10);
        let tail: String = digit_text(x % 10);
        let s: String = head.concat(tail.as_str());
        assert(s@ =~= decimal((x / 10) as nat).push(digit_char((x % 10) as nat)));
        s
    }
}

/// A signed number in decimal.
pub open spec fn signed_decimal(x: int) -> Seq<char> {
    if x >= 0 {
        decimal(x as nat)
    } else {
        seq!['-'] + decimal((-x) as nat)
    }
}

/// Writes a signed number in decimal.
pub fn signed_decimal_text(x: i64) -> (s: String)
    ensures
        s@ == signed_decimal(x as int),
{
    if x >= 0 {
        decimal_text(x as u64)
    } else {
        proof {
            reveal_strlit("-");
        }
        let magnitude: u64 = (-(x + 1)) as u64 + 1;
        let digits: String = decimal_text(magnitude);
        let s: String = "-".to_owned().concat(digits.as_str());
        assert("-"@ =~= seq!['-']);
        s
    }
}

/// The little-endian bytes of the number that bytes spell are those bytes, followed by zeros.
pub proof fn law_bytes_spell_their_number(s: Seq<u8>, n: nat)
    requires
        s.len() <= n,
    ensures
        le_bytes(le_value(s), n).len() == n,
        forall|k: int|
            0 <= k < n ==> #[trigger] le_bytes(le_value(s), n)[k] == if k < s.len() {
                s[k]
            } else {
                0u8
            },
    decreases n,
{
    let v = le_value(s);
    lemma_le_bytes_len(v, n);
    if n > 0 {
        let rest = if s.len() > 0 {
            s.subrange(1, s.len() as int)
        } else {
            s
        };
        law_bytes_spell_their_number(rest, (n - 1) as nat);
        if s.len() > 0 {
            assert(v % 256 == s[0] && v / 256 == le_value(rest));
        } else {
            assert(v == 0);
        }
        let tail = le_bytes(v / 256, (n - 1) as nat);
        assert forall|k: int| 0 <= k < n implies #[trigger] le_bytes(v, n)[k] == if k < s.len() {
            s[k]
        } else {
            0u8
        } by {
            if k > 0 {
                assert(le_bytes(v, n)[k] == tail[k - 1]);
            }
        }
    }
}

/// Texts have the same bytes only where they are the same.
pub proof fn law_text_bytes_injective(a: Seq<char>, b: Seq<char>)
    ensures
        text_bytes(a) == text_bytes(b) <==> a == b,
{
    vstd::utf8::encode_utf8_decode_utf8(a);
    vstd::utf8::encode_utf8_decode_utf8(b);
}

/// Numbers have the same decimal digits only where they are the same.
pub proof fn law_decimal_injective(x: nat, y: nat)
    ensures
        decimal(x) == decimal(y) <==> x == y,
    decreases x,
{
    lemma_decimal_len(x);
    lemma_decimal_len(y);
    if decimal(x) == decimal(y) {
        assert(decimal(x).last() == digit_char(x % 10));
        assert(decimal(y).last() == digit_char(y % 10));
        lemma_digits_differ(x % 10, y % 10);
        if x >= 10 {
            assert(decimal(x).drop_last() =~= decimal(x / 10));
            assert(decimal(y).drop_last() =~= decimal(y / 10));
            law_decimal_injective(x / 10, y / 10);
        }
    }
}

proof fn lemma_decimal_len(x: nat)
    ensures
        x < 10 ==> decimal(x).len() == 1,
        x >= 10 ==> decimal(x).len() > 1,
    decreases x,
{
    if x >= 10 {
        lemma_decimal_len(x / 10);
    }
}

proof fn lemma_digits_differ(a: nat, b: nat)
    requires
        a < 10,
        b < 10,
    ensures
        digit_char(a) == digit_char(b) <==> a == b,
{
}

/// The digits of a number, the last of them worth one and each other ten times the next, add up to
/// the number.
pub proof fn law_decimal_reads_back(x: nat)
    ensures
        decimal_value(decimal(x)) == x,
        forall|i: int| 0 <= i < decimal(x).len() ==> '0' <= #[trigger] decimal(x)[i] <= '9',
    decreases x,
{
    lemma_decimal_len(x);
    if x >= 10 {
        law_decimal_reads_back(x / 10);
        assert(decimal(x).drop_last() =~= decimal(x / 10));
        assert(x == 10 * (x / 10) + x % 10);
    }
    let last = digit_char(x % 10);
    assert(last as u32 - '0' as u32 == x % 10);
    if x < 10 {
        assert(decimal(x).drop_last() =~= Seq::<char>::empty());
        assert(decimal_value(decimal(x).drop_last()) == 0);
    }
}

/// The number that decimal digits spell.
pub open spec fn decimal_value(text: Seq<char>) -> int
    decreases text.len(),
{
    if text.len() == 0 {
        0
    } else {
        10 * decimal_value(text.drop_last()) + (text.last() as u32 - '0' as u32)
    }
}

/// Integers have the same decimal form only where they are the same.
pub proof fn law_signed_decimal_injective(x: int, y: int)
    ensures
        signed_decimal(x) == signed_decimal(y) <==> x == y,
{
    let ax = if x >= 0 {
        x as nat
    } else {
        (-x) as nat
    };
    let ay = if y >= 0 {
        y as nat
    } else {
        (-y) as nat
    };
    law_decimal_injective(ax, ay);
    law_decimal_reads_back(ax);
    law_decimal_reads_back(ay);
    lemma_decimal_len(ax);
    lemma_decimal_len(ay);
    if signed_decimal(x) == signed_decimal(y) {
        assert(signed_decimal(x)[0] == signed_decimal(y)[0]);
        assert('0' <= decimal(ax)[0] && '0' <= decimal(ay)[0]);
        if x < 0 && y < 0 {
            lemma_split(seq!['-'], decimal(ax), seq!['-'], decimal(ay));
        }
    }
}

/// Integers of 64 bits have the same two's complement only where they are the same.
pub proof fn law_twos_complement_injective(x: i64, y: i64)
    ensures
        twos_complement(x as int) <= u64::MAX,
        twos_complement(x as int) == twos_complement(y as int) <==> x == y,
{
}

/// A number ends where its digits do: where two numbers are each followed by something that starts
/// with no digit, the texts are the same only where the numbers are and what follows them.
pub proof fn law_numbers_end_with_their_digits(a: nat, x: Seq<char>, b: nat, y: Seq<char>)
    requires
        x.len() > 0,
        y.len() > 0,
        !('0' <= x[0] <= '9'),
        !('0' <= y[0] <= '9'),
        decimal(a) + x == decimal(b) + y,
    ensures
        a == b,
        x == y,
{
    let da = decimal(a);
    let db = decimal(b);
    law_decimal_reads_back(a);
    law_decimal_reads_back(b);
    let left = da + x;
    let right = db + y;
    if da.len() < db.len() {
        assert(left[da.len() as int] == x[0]);
        assert(right[da.len() as int] == db[da.len() as int]);
    } else if db.len() < da.len() {
        assert(right[db.len() as int] == y[0]);
        assert(left[db.len() as int] == da[db.len() as int]);
    } else {
        lemma_split(da, x, db, y);
        law_decimal_injective(a, b);
    }
}

} // verus!
