use vstd::prelude::*;
use vstd::utf8::{encode_utf8, encode_utf8_decode_utf8};

verus! {

/// The lower-case hexadecimal digit (as an ASCII byte) for a value below 16.
pub open spec fn hex_digit(n: u8) -> u8
    recommends
        n < 16,
{
    if n < 10 {
        (48 + n) as u8
    } else {
        (87 + n) as u8
    }
}

/// The lower-case hexadecimal encoding of a byte sequence: two digits per byte,
/// high nibble first.
pub open spec fn hex_bytes(bytes: Seq<u8>) -> Seq<u8>
    decreases bytes.len(),
{
    if bytes.len() == 0 {
        Seq::empty()
    } else {
        seq![hex_digit(bytes.first() / 16), hex_digit(bytes.first() % 16)]
            + hex_bytes(bytes.drop_first())
    }
}

/// The constant prefix of every cache key: the ASCII bytes of `img`. It
/// keeps a key non-empty even for the empty identifier, so a key is always a
/// real file name inside the cache directory.
pub open spec fn key_prefix() -> Seq<u8> {
    seq![105u8, 109u8, 103u8]
}

/// The cache key derived from an identifier: a constant prefix, then the
/// hexadecimal encoding of the identifier's UTF-8 bytes.
pub open spec fn key_of(identifier: Seq<char>) -> Seq<u8> {
    key_prefix() + hex_bytes(encode_utf8(identifier))
}

/// A filesystem-safe cache key. Its bytes are always lower-case ASCII
/// letters and digits, and there is always at least one, so the key can name
/// a file directly.
pub struct CacheKey {
    bytes: Vec<u8>,
}

impl View for CacheKey {
    type V = Seq<u8>;

    closed spec fn view(&self) -> Seq<u8> {
        self.bytes@
    }
}

impl CacheKey {
    /// The key's bytes, each a lower-case ASCII letter or digit.
    pub fn as_bytes(&self) -> (r: &Vec<u8>)
        ensures
            r@ == self@,
    {
        &self.bytes
    }
}

/// Derives the cache key for an identifier: a constant prefix, then the
/// lower-case hexadecimal encoding of the identifier's UTF-8 bytes.
/// Deterministic, never empty, and distinct identifiers always yield
/// distinct keys (`lemma_derive_key_injective`). The key grows with the
/// identifier (two digits per byte), so identifiers longer than a file
/// system's name limit allows cannot be cached; such writes fail and are
/// swallowed on the best-effort path.
pub fn derive_key(identifier: &str) -> (r: CacheKey)
    ensures
        r@ == key_of(identifier@),
{
    let raw = identifier.as_bytes();
    let n = raw.len();
    let mut out: Vec<u8> = Vec::new();
    out.push(105);
    out.push(109);
    out.push(103);
    proof {
        assert(out@ =~= key_prefix());
    }
    let mut i: usize = 0;
    while i < n
        invariant
            n == raw@.len(),
            i <= n,
            out@ =~= key_prefix() + hex_bytes(raw@.subrange(0, i as int)),
        decreases n - i,
    {
        let b = raw[i];
        let hi = b / 16;
        let lo = b % 16;
        let hi_digit: u8 = if hi < 10 { 48 + hi } else { 87 + hi };
        let lo_digit: u8 = if lo < 10 { 48 + lo } else { 87 + lo };
        out.push(hi_digit);
        out.push(lo_digit);
        proof {
            lemma_hex_bytes_push(raw@.subrange(0, i as int), b);
            assert(raw@.subrange(0, i + 1) =~= raw@.subrange(0, i as int).push(b));
        }
        i = i + 1;
    }
    proof {
        assert(raw@.subrange(0, n as int) =~= raw@);
    }
    CacheKey { bytes: out }
}

/// Appending one byte to a sequence appends its two digits to the encoding.
proof fn lemma_hex_bytes_push(s: Seq<u8>, b: u8)
    ensures
        hex_bytes(s.push(b)) =~= hex_bytes(s) + seq![hex_digit(b / 16), hex_digit(b % 16)],
    decreases s.len(),
{
    let whole = s.push(b);
    let digits = seq![hex_digit(b / 16), hex_digit(b % 16)];
    if s.len() == 0 {
        assert(whole.first() == b);
        assert(whole.drop_first() =~= Seq::<u8>::empty());
        assert(hex_bytes(Seq::<u8>::empty()) =~= Seq::<u8>::empty());
        assert(hex_bytes(whole) =~= seq![hex_digit(b / 16), hex_digit(b % 16)]
            + hex_bytes(whole.drop_first()));
        assert(hex_bytes(s) =~= Seq::<u8>::empty());
        assert(hex_bytes(whole) =~= hex_bytes(s) + digits);
    } else {
        assert(whole.first() == s.first());
        assert(whole.drop_first() =~= s.drop_first().push(b));
        lemma_hex_bytes_push(s.drop_first(), b);
        assert(hex_bytes(whole.drop_first()) =~= hex_bytes(s.drop_first()) + digits);
        assert(hex_bytes(whole) =~= seq![hex_digit(whole.first() / 16), hex_digit(
            whole.first() % 16,
        )] + hex_bytes(whole.drop_first()));
        assert(hex_bytes(s) =~= seq![hex_digit(s.first() / 16), hex_digit(s.first() % 16)]
            + hex_bytes(s.drop_first()));
        assert(hex_bytes(whole) =~= hex_bytes(s) + digits);
    }
}

/// The encoding of a byte sequence is twice as long as the sequence.
pub proof fn lemma_hex_bytes_len(bytes: Seq<u8>)
    ensures
        hex_bytes(bytes).len() == 2 * bytes.len(),
    decreases bytes.len(),
{
    if bytes.len() > 0 {
        lemma_hex_bytes_len(bytes.drop_first());
    }
}

/// Two values below 16 with the same hexadecimal digit are equal.
proof fn lemma_hex_digit_injective(a: u8, b: u8)
    requires
        a < 16,
        b < 16,
        hex_digit(a) == hex_digit(b),
    ensures
        a == b,
{
}

/// The hexadecimal encoding is injective: equal encodings come only from
/// equal byte sequences.
pub proof fn lemma_hex_bytes_injective(a: Seq<u8>, b: Seq<u8>)
    requires
        hex_bytes(a) == hex_bytes(b),
    ensures
        a == b,
    decreases a.len(),
{
    lemma_hex_bytes_len(a);
    lemma_hex_bytes_len(b);
    if a.len() == 0 {
        assert(a =~= b);
    } else {
        let ea = hex_bytes(a);
        let eb = hex_bytes(b);
        assert(ea[0] == hex_digit(a.first() / 16) && ea[1] == hex_digit(a.first() % 16));
        assert(eb[0] == hex_digit(b.first() / 16) && eb[1] == hex_digit(b.first() % 16));
        lemma_hex_digit_injective(a.first() / 16, b.first() / 16);
        lemma_hex_digit_injective(a.first() % 16, b.first() % 16);
        assert(a.first() == b.first());
        assert(hex_bytes(a.drop_first()) =~= ea.subrange(2, ea.len() as int));
        assert(hex_bytes(b.drop_first()) =~= eb.subrange(2, eb.len() as int));
        lemma_hex_bytes_injective(a.drop_first(), b.drop_first());
        assert(a =~= seq![a.first()] + a.drop_first());
        assert(b =~= seq![b.first()] + b.drop_first());
    }
}

/// Distinct identifiers derive distinct cache keys: the derivation never
/// collides, so two different identifiers never share an on-disk entry.
pub proof fn lemma_derive_key_injective(i1: Seq<char>, i2: Seq<char>)
    requires
        i1 != i2,
    ensures
        key_of(i1) != key_of(i2),
{
    if key_of(i1) == key_of(i2) {
        let k1 = key_of(i1);
        let k2 = key_of(i2);
        assert(hex_bytes(encode_utf8(i1)) =~= k1.subrange(3, k1.len() as int));
        assert(hex_bytes(encode_utf8(i2)) =~= k2.subrange(3, k2.len() as int));
        lemma_hex_bytes_injective(encode_utf8(i1), encode_utf8(i2));
        encode_utf8_decode_utf8(i1);
        encode_utf8_decode_utf8(i2);
        assert(false);
    }
}

/// Key derivation is a pure function of the identifier: the same identifier
/// always derives the same key.
pub proof fn lemma_derive_key_deterministic(i1: Seq<char>, i2: Seq<char>)
    requires
        i1 == i2,
    ensures
        key_of(i1) == key_of(i2),
{
}

/// A byte is a lower-case ASCII letter or a digit: safe in a file name on
/// any common file system, with no separators and no special characters.
pub open spec fn is_key_byte(b: u8) -> bool {
    (48 <= b <= 57) || (97 <= b <= 122)
}

/// Every byte of a hexadecimal encoding is a digit or a lower-case letter.
proof fn lemma_hex_bytes_digits(bytes: Seq<u8>, i: int)
    requires
        0 <= i < hex_bytes(bytes).len(),
    ensures
        is_key_byte(hex_bytes(bytes)[i]),
    decreases bytes.len(),
{
    lemma_hex_bytes_len(bytes);
    if i < 2 {
        assert(bytes.first() / 16 < 16 && bytes.first() % 16 < 16);
    } else {
        lemma_hex_bytes_len(bytes.drop_first());
        lemma_hex_bytes_digits(bytes.drop_first(), i - 2);
    }
}

/// Every derived key is made of lower-case ASCII letters and digits alone,
/// so it is safe to use directly as a file name.
pub proof fn lemma_derive_key_filesystem_safe(identifier: Seq<char>, i: int)
    requires
        0 <= i < key_of(identifier).len(),
    ensures
        is_key_byte(key_of(identifier)[i]),
{
    if i >= 3 {
        lemma_hex_bytes_digits(encode_utf8(identifier), i - 3);
        assert(key_of(identifier)[i] == hex_bytes(encode_utf8(identifier))[i - 3]);
    }
}

/// A derived key is never empty: every identifier, the empty one included,
/// maps to a usable file name, never to the cache directory itself.
pub proof fn lemma_derive_key_nonempty(identifier: Seq<char>)
    ensures
        key_of(identifier).len() >= 3,
{
}

} // verus!
