//! Cache keys and the names of the files that hold cache entries.
use crate::error::{ErrorKind, ProxyError};
use crate::json::lower_hex_char;
use crate::text::{
    chars_of, digit, found_at, is_digit, lemma_ascii_boundaries, lemma_encode_injective, opt_str,
    push_bytes, same, starts_with, strip_suffix,
};
use sha2::Digest;
use vstd::prelude::*;
use vstd::string::*;
use vstd::utf8::*;

verus! {

/// The number of characters of a key.
pub const KEY_LEN: usize = 64;

/// The file that marks a cache directory.
pub const CACHE_MARKER: &'static str = ".vampire-cache-v1";

// ---------------------------------------------------------------------------
// Keys
// ---------------------------------------------------------------------------

/// The SHA-256 digest of a message.
pub uninterp spec fn sha256(message: Seq<u8>) -> Seq<u8>;

/// `sha2::Sha256::digest`: the digest of the message, thirty-two bytes, under the name
/// `sha256`. The call depends on the message alone and does not panic.
#[verifier::external_body]
fn sha256_digest(message: &[u8]) -> (r: Vec<u8>)
    ensures
        r@ == sha256(message@),
        r@.len() == 32,
{
    sha2::Sha256::digest(message).to_vec()
}

/// Two lower-case hexadecimal digits for every byte.
pub open spec fn hex_text(bytes: Seq<u8>) -> Seq<char> {
    Seq::new(
        2 * bytes.len(),
        |i: int|
            lower_hex_char(
                if i % 2 == 0 {
                    bytes[i / 2] as int / 16
                } else {
                    bytes[i / 2] as int % 16
                },
            ),
    )
}

/// `hex::encode`: two lower-case hexadecimal digits for every byte, the high one first.
#[verifier::external_body]
fn hex_encode(bytes: &[u8]) -> (r: String)
    ensures
        r@ == hex_text(bytes@),
{
    hex::encode(bytes)
}

/// What a key is the digest of: the class, the upstream URL and, for metadata, the
/// representation, each followed by a zero byte.
pub open spec fn identity(
    class: Seq<char>,
    upstream: Seq<char>,
    representation: Option<Seq<char>>,
) -> Seq<u8> {
    let plain = encode_utf8(class).push(0) + encode_utf8(upstream).push(0);
    match representation {
        Some(r) => plain + encode_utf8(r).push(0),
        None => plain,
    }
}

/// The key of an identity.
pub open spec fn key_text(
    class: Seq<char>,
    upstream: Seq<char>,
    representation: Option<Seq<char>>,
) -> Seq<char> {
    hex_text(sha256(identity(class, upstream, representation)))
}

/// The key of an identity.
pub fn hash_key(class: &str, upstream: &str, representation: Option<&str>) -> (r: String)
    ensures
        r@ == key_text(class@, upstream@, opt_str(representation)),
        is_key(r@),
{
    let mut message: Vec<u8> = Vec::new();
    push_bytes(&mut message, class);
    message.push(0);
    push_bytes(&mut message, upstream);
    message.push(0);
    if let Some(representation) = representation {
        push_bytes(&mut message, representation);
        message.push(0);
    }
    proof {
        assert(message@ =~= identity(class@, upstream@, opt_str(representation)));
    }
    let digest = sha256_digest(message.as_slice());
    key_of_digest(&digest)
}

/// The key that a digest gives.
pub fn key_of_digest(digest: &Vec<u8>) -> (r: String)
    ensures
        r@ == hex_text(digest@),
        digest@.len() == 32 ==> is_key(r@),
{
    hex_encode(digest.as_slice())
}

// ---------------------------------------------------------------------------
// Names
// ---------------------------------------------------------------------------

/// A decimal digit or one of the letters `a` to `f`.
pub open spec fn is_hex_char(c: char) -> bool {
    '0' <= c <= '9' || 'a' <= c <= 'f'
}

/// `len` hexadecimal characters.
pub open spec fn is_hex(s: Seq<char>, len: nat) -> bool {
    s.len() == len && forall|i: int| 0 <= i < s.len() ==> is_hex_char(#[trigger] s[i])
}

/// A key.
pub open spec fn is_key(s: Seq<char>) -> bool {
    is_hex(s, KEY_LEN as nat)
}

/// A key of the shard.
pub open spec fn is_key_of(s: Seq<char>, shard: Seq<char>) -> bool {
    is_key(s) && shard.is_prefix_of(s)
}

/// One or more decimal digits.
pub open spec fn is_number(s: Seq<char>) -> bool {
    s.len() > 0 && forall|i: int| 0 <= i < s.len() ==> is_digit(#[trigger] s[i])
}

/// The name of a file that earlier versions wrote for the key.
pub open spec fn is_legacy_name(name: Seq<char>, key: Seq<char>) -> bool {
    name == key + ".json"@ || name == key + ".body"@
}

/// The name of a file that is still being written for the key, with the number `n` where it
/// has one.
pub open spec fn is_temp_name(name: Seq<char>, key: Seq<char>) -> bool {
    ||| name == key + ".part"@
    ||| exists|n: Seq<char>| is_number(n) && name == #[trigger] numbered_temp_name(key, n)
}

/// The name of a numbered temporary file.
pub open spec fn numbered_temp_name(key: Seq<char>, n: Seq<char>) -> Seq<char> {
    key + ".part"@ + "."@ + n + ".part"@
}

/// Tells whether `value` is `len` hexadecimal characters.
pub fn valid_hex(value: &str, len: usize) -> (r: bool)
    ensures
        r == is_hex(value@, len as nat),
{
    let chars = chars_of(value);
    if chars.len() != len {
        return false;
    }
    let mut i: usize = 0;
    while i < chars.len()
        invariant
            chars@ == value@,
            chars.len() == len,
            i <= chars.len(),
            forall|j: int| 0 <= j < i ==> is_hex_char(#[trigger] value@[j]),
        decreases chars.len() - i,
    {
        let c = chars[i];
        if !(('0' <= c && c <= '9') || ('a' <= c && c <= 'f')) {
            proof {
                assert(!is_hex_char(value@[i as int]));
            }
            return false;
        }
        i = i + 1;
    }
    true
}

/// Tells whether `key` is a key of the shard.
pub fn valid_key(key: &str, shard: &str) -> (r: bool)
    ensures
        r == is_key_of(key@, shard@),
{
    valid_hex(key, KEY_LEN) && starts_with(key, shard)
}

/// The key of a file that earlier versions wrote in the shard.
pub fn legacy_key<'a>(name: &'a str, shard: &str) -> (r: Option<&'a str>)
    ensures
        r matches Some(key) ==> is_key_of(key@, shard@) && is_legacy_name(name@, key@),
        r is None ==> forall|key: Seq<char>|
            !(is_key_of(key, shard@) && #[trigger] is_legacy_name(name@, key)),
{
    let stripped = match strip_suffix(name, ".json") {
        Some(key) => Some(key),
        None => strip_suffix(name, ".body"),
    };
    proof {
        reveal_strlit(".json");
        reveal_strlit(".body");
        assert forall|key: Seq<char>| #[trigger] is_legacy_name(name@, key) implies stripped is Some
            && stripped->0@ == key by {
            lemma_suffix(key, ".json"@);
            lemma_suffix(key, ".body"@);
            let last = name@.last();
            if name@ == key + ".json"@ {
                assert(last == 'n');
            } else {
                assert(last == 'y');
                if ".json"@.is_suffix_of(name@) {
                    assert(name@.subrange(name@.len() - 5, name@.len() as int)[4] == ".json"@[4]);
                }
            }
            assert(stripped is Some);
            assert(stripped->0@ =~= key);
        }
    }
    match stripped {
        Some(key) => {
            if valid_key(key, shard) {
                Some(key)
            } else {
                None
            }
        },
        None => None,
    }
}

proof fn lemma_suffix(head: Seq<char>, tail: Seq<char>)
    ensures
        tail.is_suffix_of(head + tail),
        (head + tail).take(head.len() as int) == head,
{
    let s = head + tail;
    assert(tail =~= s.subrange(s.len() - tail.len(), s.len() as int));
    assert(s.take(head.len() as int) =~= head);
}

/// The key of a file that is still being written in the shard.
pub fn temp_key<'a>(name: &'a str, shard: &str) -> (r: Option<&'a str>)
    ensures
        r matches Some(key) ==> is_key_of(key@, shard@) && is_temp_name(name@, key@),
        r is None ==> forall|key: Seq<char>|
            !(is_key_of(key, shard@) && #[trigger] is_temp_name(name@, key)),
{
    let chars = chars_of(name);
    if chars.len() < KEY_LEN {
        proof {
            assert forall|key: Seq<char>| is_key_of(key, shard@) implies !#[trigger] is_temp_name(
                name@,
                key,
            ) by {}
        }
        return None;
    }
    let key = name.substring_char(0, KEY_LEN);
    let rest = name.substring_char(KEY_LEN, chars.len());
    proof {
        reveal_strlit(".part");
        reveal_strlit(".");
        assert(name@ =~= key@ + rest@);
        assert forall|k: Seq<char>| is_key(k) && #[trigger] is_temp_name(name@, k) implies k
            == key@ by {
            assert(k =~= name@.take(64));
        }
    }
    if !valid_key(key, shard) {
        return None;
    }
    if same(rest, ".part") {
        return Some(key);
    }
    let tail = chars_of(rest);
    let part = chars_of(".part");
    if tail.len() < 12 || !found_at(&tail, 0, &part) || tail[5] != '.' || !found_at(
        &tail,
        tail.len() - 5,
        &part,
    ) {
        proof {
            if name@ == key@ + ".part"@ {
                assert(rest@ =~= name@.skip(key@.len() as int));
                assert(rest@ =~= ".part"@);
            }
            if is_temp_name(name@, key@) {
                let n = choose|n: Seq<char>|
                    is_number(n) && name@ == #[trigger] numbered_temp_name(key@, n);
                assert(rest@ =~= name@.skip(key@.len() as int));
                assert(rest@ =~= ".part"@ + "."@ + n + ".part"@);
                assert(rest@.subrange(0, 5) =~= ".part"@);
                assert(rest@.subrange(rest@.len() - 5, rest@.len() as int) =~= ".part"@);
            }
        }
        return None;
    }
    let ghost n = rest@.subrange(6, rest@.len() - 5);
    proof {
        assert(rest@ =~= ".part"@ + "."@ + n + ".part"@) by {
            assert(rest@.subrange(0, 5) =~= ".part"@);
            assert(rest@.subrange(rest@.len() - 5, rest@.len() as int) =~= ".part"@);
        }
        assert(name@ =~= numbered_temp_name(key@, n));
    }
    let mut i: usize = 6;
    while i < tail.len() - 5
        invariant
            tail@ == rest@,
            12 <= tail.len(),
            6 <= i <= tail.len() - 5,
            n == rest@.subrange(6, rest@.len() - 5),
            name@ == key@ + rest@,
            name@ == numbered_temp_name(key@, n),
            ".part"@.len() == 5,
            "."@.len() == 1,
            rest@ != ".part"@,
            is_key(key@),
            forall|k: Seq<char>| is_key(k) && #[trigger] is_temp_name(name@, k) ==> k == key@,
            forall|j: int| 0 <= j < i - 6 ==> is_digit(#[trigger] n[j]),
        decreases tail.len() - i,
    {
        if !digit(tail[i]) {
            proof {
                assert(!is_digit(n[i - 6]));
                if is_temp_name(name@, key@) {
                    if name@ == key@ + ".part"@ {
                        assert(rest@ =~= name@.skip(key@.len() as int));
                        assert(rest@ =~= ".part"@);
                    }
                    let m = choose|m: Seq<char>|
                        is_number(m) && name@ == #[trigger] numbered_temp_name(key@, m);
                    assert(m =~= n) by {
                        assert(numbered_temp_name(key@, m).len() == 75 + m.len());
                        assert(numbered_temp_name(key@, n).len() == 75 + n.len());
                        assert forall|j: int| 0 <= j < m.len() implies m[j] == n[j] by {
                            assert(numbered_temp_name(key@, m)[64 + 6 + j] == m[j]);
                            assert(numbered_temp_name(key@, n)[64 + 6 + j] == n[j]);
                        }
                    }
                }
            }
            return None;
        }
        i = i + 1;
    }
    proof {
        assert(is_number(n));
    }
    Some(key)
}

// ---------------------------------------------------------------------------
// Ownership of a cache directory
// ---------------------------------------------------------------------------

/// The error of a directory that holds something else.
pub fn unowned_cache_directory() -> (r: ProxyError)
    ensures
        r.is(ErrorKind::InvalidInput, "cache directory is nonempty and not owned by vampire"@),
{
    ProxyError::new(
        ErrorKind::InvalidInput,
        "cache directory is nonempty and not owned by vampire",
    )
}

/// What the marker of a claimed directory holds.
pub open spec fn marker_bytes() -> Seq<u8> {
    seq![118u8, 49u8, 10u8]
}

/// The contents of the marker.
pub fn marker_contents() -> (r: Vec<u8>)
    ensures
        r@ == marker_bytes(),
{
    let mut out: Vec<u8> = Vec::new();
    out.push(118);
    out.push(49);
    out.push(10);
    proof {
        assert(out@ =~= marker_bytes());
    }
    out
}

/// Decides by the marker: the directory is claimed already (`true`), has yet to be looked
/// through (`false`), or belongs to something else.
pub fn check_marker(contents: Option<&[u8]>) -> (r: Result<bool, ProxyError>)
    ensures
        match contents {
            None => r == Ok::<bool, ProxyError>(false),
            Some(c) => if c@ == marker_bytes() {
                r == Ok::<bool, ProxyError>(true)
            } else {
                r matches Err(e) && e.is(
                    ErrorKind::InvalidInput,
                    "cache directory is nonempty and not owned by vampire"@,
                )
            },
        },
{
    match contents {
        None => Ok(false),
        Some(c) => {
            if c.len() == 3 && c[0] == 118 && c[1] == 49 && c[2] == 10 {
                proof {
                    assert(c@ =~= marker_bytes());
                }
                Ok(true)
            } else {
                Err(unowned_cache_directory())
            }
        },
    }
}

/// A directory of the cache holds nothing but shards.
pub fn is_shard(name: Option<&str>, is_dir: bool) -> (r: bool)
    ensures
        r == (is_dir && (name matches Some(n) && is_hex(n@, 2))),
{
    match name {
        Some(n) => is_dir && valid_hex(n, 2),
        None => false,
    }
}

/// A file that this cache writes, or once wrote, in the shard.
pub open spec fn is_cache_name(name: Seq<char>, shard: Seq<char>) -> bool {
    ||| is_key_of(name, shard)
    ||| exists|key: Seq<char>| is_key_of(key, shard) && #[trigger] is_legacy_name(name, key)
    ||| exists|key: Seq<char>| is_key_of(key, shard) && #[trigger] is_temp_name(name, key)
}

/// A file that no process uses any more once the directory is locked.
pub open spec fn is_stale_name(name: Seq<char>, shard: Seq<char>) -> bool {
    ||| exists|key: Seq<char>| is_key_of(key, shard) && #[trigger] is_legacy_name(name, key)
    ||| exists|key: Seq<char>| is_key_of(key, shard) && #[trigger] is_temp_name(name, key)
}

/// Tells whether an unmarked directory may hold such an entry in a shard and still be
/// claimed.
pub fn claims_entry(name: Option<&str>, is_file: bool, shard: &str) -> (r: bool)
    ensures
        r == (is_file && (name matches Some(n) && is_cache_name(n@, shard@))),
{
    match name {
        Some(n) => is_file && (valid_key(n, shard) || legacy_key(n, shard).is_some() || temp_key(
            n,
            shard,
        ).is_some()),
        None => false,
    }
}

/// Tells whether an entry of a shard is removed when the cache is opened.
pub fn is_stale_entry(name: Option<&str>, is_file: bool, shard: &str) -> (r: bool)
    ensures
        r == (is_file && (name matches Some(n) && is_stale_name(n@, shard@))),
{
    match name {
        Some(n) => is_file && (legacy_key(n, shard).is_some() || temp_key(n, shard).is_some()),
        None => false,
    }
}

/// Tells whether an entry of a shard is a complete cache entry.
pub fn is_completed_entry(name: Option<&str>, is_file: bool, shard: &str) -> (r: bool)
    ensures
        r == (is_file && (name matches Some(n) && is_key_of(n@, shard@))),
{
    match name {
        Some(n) => is_file && valid_key(n, shard),
        None => false,
    }
}

// ---------------------------------------------------------------------------
// Laws
// ---------------------------------------------------------------------------

/// A zero byte in the encoding of a text comes from the character zero.
proof fn lemma_no_zero_byte(s: Seq<char>)
    requires
        !s.contains('\0'),
    ensures
        forall|i: int| 0 <= i < encode_utf8(s).len() ==> #[trigger] encode_utf8(s)[i] != 0,
{
    let b = encode_utf8(s);
    encode_utf8_valid_utf8(s);
    encode_utf8_decode_utf8(s);
    assert forall|i: int| 0 <= i < b.len() implies #[trigger] b[i] != 0 by {
        if b[i] == 0 {
            lemma_ascii_boundaries(b, i);
            decode_utf8_split(b, i);
            valid_utf8_split(b, i);
            let head = decode_utf8(b.subrange(0, i));
            let tail = b.subrange(i, b.len() as int);
            assert(tail[0] == 0);
            decode_utf8_first_scalar(tail);
            assert(0u8 & 0x7f == 0) by (bit_vector);
            assert(decode_utf8(tail)[0] == '\0');
            assert(s[head.len() as int] == '\0');
        }
    }
}

/// What stands before the first zero byte is determined.
proof fn lemma_field(a: Seq<u8>, x: Seq<u8>, b: Seq<u8>, y: Seq<u8>)
    requires
        a.push(0) + x == b.push(0) + y,
        forall|i: int| 0 <= i < a.len() ==> #[trigger] a[i] != 0,
        forall|i: int| 0 <= i < b.len() ==> #[trigger] b[i] != 0,
    ensures
        a == b,
        x == y,
{
    let s = a.push(0) + x;
    let t = b.push(0) + y;
    if a.len() < b.len() {
        assert(s[a.len() as int] == 0);
        assert(t[a.len() as int] == b[a.len() as int]);
    } else if b.len() < a.len() {
        assert(t[b.len() as int] == 0);
        assert(s[b.len() as int] == a[b.len() as int]);
    }
    assert forall|i: int| 0 <= i < a.len() implies a[i] == b[i] by {
        assert(s[i] == a[i]);
        assert(t[i] == b[i]);
    }
    assert(a =~= b);
    assert(x =~= s.skip(a.len() as int + 1));
    assert(y =~= t.skip(b.len() as int + 1));
}

/// Two resources share a key only if they share their class, URL and representation, or if
/// SHA-256 has a collision: what is hashed tells them apart.
pub proof fn identities_are_distinct(
    class: Seq<char>,
    upstream: Seq<char>,
    representation: Option<Seq<char>>,
    other_class: Seq<char>,
    other_upstream: Seq<char>,
    other_representation: Option<Seq<char>>,
)
    requires
        !class.contains('\0') && !upstream.contains('\0'),
        !other_class.contains('\0') && !other_upstream.contains('\0'),
        representation matches Some(r) ==> !r.contains('\0'),
        other_representation matches Some(r) ==> !r.contains('\0'),
        identity(class, upstream, representation) == identity(
            other_class,
            other_upstream,
            other_representation,
        ),
    ensures
        class == other_class,
        upstream == other_upstream,
        representation == other_representation,
{
    lemma_no_zero_byte(class);
    lemma_no_zero_byte(upstream);
    lemma_no_zero_byte(other_class);
    lemma_no_zero_byte(other_upstream);
    let tail = match representation {
        Some(r) => encode_utf8(r).push(0),
        None => Seq::<u8>::empty(),
    };
    let other_tail = match other_representation {
        Some(r) => encode_utf8(r).push(0),
        None => Seq::<u8>::empty(),
    };
    let rest = encode_utf8(upstream).push(0) + tail;
    let other_rest = encode_utf8(other_upstream).push(0) + other_tail;
    assert(identity(class, upstream, representation) =~= encode_utf8(class).push(0) + rest);
    assert(identity(other_class, other_upstream, other_representation) =~= encode_utf8(
        other_class,
    ).push(0) + other_rest);
    lemma_field(encode_utf8(class), rest, encode_utf8(other_class), other_rest);
    lemma_field(encode_utf8(upstream), tail, encode_utf8(other_upstream), other_tail);
    lemma_encode_injective(class, other_class);
    lemma_encode_injective(upstream, other_upstream);
    match (representation, other_representation) {
        (Some(r), Some(o)) => {
            assert(encode_utf8(r) =~= tail.drop_last());
            assert(encode_utf8(o) =~= other_tail.drop_last());
            lemma_encode_injective(r, o);
        },
        _ => {},
    }
}

/// Opening a cache removes no complete entry: a complete entry has no stale name.
pub proof fn completed_entries_are_never_stale(name: Seq<char>, shard: Seq<char>)
    requires
        is_key_of(name, shard),
    ensures
        !is_stale_name(name, shard),
{
    reveal_strlit(".json");
    reveal_strlit(".body");
    reveal_strlit(".part");
    assert forall|key: Seq<char>| is_key_of(key, shard) implies !#[trigger] is_legacy_name(
        name,
        key,
    ) by {}
    assert forall|key: Seq<char>| is_key_of(key, shard) implies !#[trigger] is_temp_name(
        name,
        key,
    ) by {}
}

/// Opening a cache removes and evicts only files that it could have claimed.
pub proof fn only_own_files_are_removed(name: Seq<char>, shard: Seq<char>)
    ensures
        is_stale_name(name, shard) ==> is_cache_name(name, shard),
        is_key_of(name, shard) ==> is_cache_name(name, shard),
{
}

/// Digests are written in lower-case hexadecimal, two digits for every byte, the higher one first.
pub proof fn digests_are_written_in_hexadecimal(bytes: Seq<u8>, i: int)
    requires
        0 <= i < bytes.len(),
    ensures
        hex_text(bytes).len() == 2 * bytes.len(),
        ({
            let text = hex_text(bytes);
            let high = bytes[i] as int / 16;
            let low = bytes[i] as int % 16;
            &&& text[2 * i] as int == (if high < 10 {
                48 + high
            } else {
                87 + high
            })
            &&& text[2 * i + 1] as int == (if low < 10 {
                48 + low
            } else {
                87 + low
            })
        }),
{
}

/// A key is the digest of what it stands for: its class, its URL and, where it has one, its
/// representation, each closed by a zero byte.
pub proof fn keys_are_digests_of_class_url_and_representation(
    class: Seq<char>,
    upstream: Seq<char>,
    representation: Seq<char>,
)
    ensures
        key_text(class, upstream, None) == hex_text(
            sha256(encode_utf8(class) + seq![0u8] + encode_utf8(upstream) + seq![0u8]),
        ),
        key_text(class, upstream, Some(representation)) == hex_text(
            sha256(
                encode_utf8(class) + seq![0u8] + encode_utf8(upstream) + seq![0u8] + encode_utf8(
                    representation,
                ) + seq![0u8],
            ),
        ),
{
    assert(identity(class, upstream, None) =~= encode_utf8(class) + seq![0u8] + encode_utf8(
        upstream,
    ) + seq![0u8]);
    assert(identity(class, upstream, Some(representation)) =~= encode_utf8(class) + seq![0u8]
        + encode_utf8(upstream) + seq![0u8] + encode_utf8(representation) + seq![0u8]);
}

/// A key is 64 digits and lower-case letters from `a` to `f`, and lies in the shard that is named
/// by its first two.
pub proof fn keys_are_hexadecimal(name: Seq<char>, shard: Seq<char>)
    ensures
        is_key(name) <==> name.len() == 64 && forall|i: int|
            0 <= i < name.len() ==> 48 <= #[trigger] name[i] as int <= 57 || 97 <= name[i] as int
                <= 102,
        is_hex(shard, 2) ==> (is_key_of(name, shard) <==> is_key(name) && name.take(2) == shard),
        is_hex(shard, 2) <==> shard.len() == 2 && forall|i: int|
            0 <= i < shard.len() ==> 48 <= #[trigger] shard[i] as int <= 57 || 97 <= shard[i] as int
                <= 102,
{
    if is_key(name) {
        assert forall|i: int| 0 <= i < name.len() implies 48 <= #[trigger] name[i] as int <= 57
            || 97 <= name[i] as int <= 102 by {
            assert(is_hex_char(name[i]));
        }
    }
    if is_hex(shard, 2) {
        assert forall|i: int| 0 <= i < shard.len() implies 48 <= #[trigger] shard[i] as int <= 57
            || 97 <= shard[i] as int <= 102 by {
            assert(is_hex_char(shard[i]));
        }
        if is_key_of(name, shard) {
            assert(name.take(2) =~= shard) by {
                assert(shard =~= name.subrange(0, 2));
            }
        }
        if is_key(name) && name.take(2) == shard {
            assert(shard =~= name.subrange(0, 2));
        }
    }
}

/// The files that opening a cache removes from a shard: what earlier versions wrote for one of its
/// keys, and what was still being written for one, with or without a number.
pub proof fn leftovers_of_every_key_are_stale(key: Seq<char>, number: Seq<char>, shard: Seq<char>)
    requires
        is_key_of(key, shard),
        number.len() > 0,
        forall|i: int| 0 <= i < number.len() ==> 48 <= #[trigger] number[i] as int <= 57,
    ensures
        is_stale_name(key + ".json"@, shard),
        is_stale_name(key + ".body"@, shard),
        is_stale_name(key + ".part"@, shard),
        is_stale_name(key + ".part."@ + number + ".part"@, shard),
{
    assert(is_legacy_name(key + ".json"@, key));
    assert(is_legacy_name(key + ".body"@, key));
    assert(is_temp_name(key + ".part"@, key));
    reveal_strlit(".part.");
    reveal_strlit(".part");
    reveal_strlit(".");
    assert(".part."@ =~= ".part"@ + "."@);
    assert forall|i: int| 0 <= i < number.len() implies is_digit(#[trigger] number[i]) by {}
    assert(key + ".part."@ + number + ".part"@ =~= numbered_temp_name(key, number));
    assert(is_temp_name(key + ".part."@ + number + ".part"@, key));
}

/// Nothing else is stale: a stale name is the name of a key of the shard with one of those endings.
pub proof fn only_leftovers_are_stale(name: Seq<char>, shard: Seq<char>)
    requires
        is_stale_name(name, shard),
    ensures
        exists|key: Seq<char>, number: Seq<char>|
            is_key_of(key, shard) && (name == key + ".json"@ || name == key + ".body"@ || name
                == key + ".part"@ || (number.len() > 0 && (forall|i: int|
                0 <= i < number.len() ==> 48 <= #[trigger] number[i] as int <= 57) && name
                == #[trigger] (key + ".part."@ + number + ".part"@))),
{
    reveal_strlit(".part.");
    reveal_strlit(".part");
    reveal_strlit(".");
    assert(".part."@ =~= ".part"@ + "."@);
    if exists|key: Seq<char>| is_key_of(key, shard) && #[trigger] is_legacy_name(name, key) {
        let key = choose|key: Seq<char>|
            is_key_of(key, shard) && #[trigger] is_legacy_name(name, key);
        let none = Seq::<char>::empty();
        let other = key + ".part."@ + none + ".part"@;
        assert(name == key + ".json"@ || name == key + ".body"@);
        assert(other == key + ".part."@ + none + ".part"@);
    } else {
        let key = choose|key: Seq<char>| is_key_of(key, shard) && #[trigger] is_temp_name(name, key);
        if name == key + ".part"@ {
            let none = Seq::<char>::empty();
            let other = key + ".part."@ + none + ".part"@;
            assert(other == key + ".part."@ + none + ".part"@);
        } else {
            let n = choose|n: Seq<char>|
                is_number(n) && name == #[trigger] numbered_temp_name(key, n);
            assert forall|i: int| 0 <= i < n.len() implies 48 <= #[trigger] n[i] as int <= 57 by {
                assert(is_digit(n[i]));
            }
            assert(numbered_temp_name(key, n) =~= key + ".part."@ + n + ".part"@);
        }
    }
}

/// What a cache writes, or once wrote, in a shard: complete entries and what is stale.
pub proof fn cache_files_are_entries_and_leftovers(name: Seq<char>, shard: Seq<char>)
    ensures
        is_cache_name(name, shard) <==> is_key_of(name, shard) || is_stale_name(name, shard),
{
}

/// The marker of a claimed directory holds `v1` and a line break.
pub proof fn the_marker_names_its_version()
    ensures
        marker_bytes() == seq![118u8, 49u8, 10u8],
        KEY_LEN == 64,
{
}

/// The marker lies under its own name in the directory.
pub proof fn the_marker_has_its_name()
    ensures
        CACHE_MARKER@ == ".vampire-cache-v1"@,
{
}

} // verus!
