//! URL builder: the public, virtual-hosted-style URL of an object.

use crate::text::{chars_of, trim_trailing, trimmed_len};
use vstd::prelude::*;
use vstd::string::*;

verus! {

/// The bytes that percent-encoding leaves as they are: ASCII letters and
/// digits, and `-`, `.`, `_`, `~`.
pub open spec fn is_unreserved(b: u8) -> bool {
    ||| 0x30 <= b <= 0x39
    ||| 0x41 <= b <= 0x5A
    ||| 0x61 <= b <= 0x7A
    ||| b == 0x2D
    ||| b == 0x2E
    ||| b == 0x5F
    ||| b == 0x7E
}

/// The upper-case hexadecimal digit of a value below 16.
pub open spec fn hex_digit(d: int) -> char {
    if d < 10 {
        (0x30 + d) as char
    } else {
        (0x37 + d) as char
    }
}

/// One byte, percent-encoded: itself if unreserved, else `%` and its two
/// hexadecimal digits.
pub open spec fn encode_byte(b: u8) -> Seq<char> {
    if is_unreserved(b) {
        seq![b as char]
    } else {
        seq!['%', hex_digit(b as int / 16), hex_digit(b as int % 16)]
    }
}

/// A byte string, percent-encoded byte by byte.
pub open spec fn percent_encode(bytes: Seq<u8>) -> Seq<char>
    decreases bytes.len(),
{
    if bytes.len() == 0 {
        Seq::empty()
    } else {
        encode_byte(bytes[0]) + percent_encode(bytes.drop_first())
    }
}

/// A byte string, percent-encoded byte by byte but for the path separator
/// `/`, which stays.
pub open spec fn encode_path(bytes: Seq<u8>) -> Seq<char>
    decreases bytes.len(),
{
    if bytes.len() == 0 {
        Seq::empty()
    } else if bytes[0] == 0x2F {
        seq!['/'] + encode_path(bytes.drop_first())
    } else {
        encode_byte(bytes[0]) + encode_path(bytes.drop_first())
    }
}

/// `s` with every `%2F` turned back into `/`, reading from the left.
pub open spec fn restore_slashes(s: Seq<char>) -> Seq<char>
    decreases s.len(),
{
    if s.len() == 0 {
        s
    } else if s.len() >= 3 && s[0] == '%' && s[1] == '2' && s[2] == 'F' {
        seq!['/'] + restore_slashes(s.subrange(3, s.len() as int))
    } else {
        seq![s[0]] + restore_slashes(s.drop_first())
    }
}

/// The index at or after `from` where `://` first stands in `s`; -1 where
/// it does not.
pub open spec fn scheme_mark(s: Seq<char>, from: int) -> int
    decreases s.len() - from,
{
    if from < 0 || from + 3 > s.len() {
        -1
    } else if s[from] == ':' && s[from + 1] == '/' && s[from + 2] == '/' {
        from
    } else {
        scheme_mark(s, from + 1)
    }
}

/// The public URL of the object whose encoded key is `encoded_key`: the
/// endpoint without its trailing slashes, the bucket put before its host
/// as a subdomain, then `/` and the key. An endpoint without `://` is
/// taken as a host.
pub open spec fn public_url_of(
    endpoint: Seq<char>,
    bucket: Seq<char>,
    encoded_key: Seq<char>,
) -> Seq<char> {
    let base = trim_trailing(endpoint, '/');
    let mark = scheme_mark(base, 0);
    if mark >= 0 {
        base.subrange(0, mark + 3) + bucket + seq!['.'] + base.subrange(
            mark + 3,
            base.len() as int,
        ) + seq!['/'] + encoded_key
    } else {
        bucket + seq!['.'] + base + seq!['/'] + encoded_key
    }
}

/// The public URL of the object `key`: the key is written in UTF-8 and
/// percent-encoded, its path separators kept.
pub open spec fn object_url_of(endpoint: Seq<char>, bucket: Seq<char>, key: Seq<char>) -> Seq<
    char,
> {
    public_url_of(endpoint, bucket, encode_path(vstd::utf8::encode_utf8(key)))
}

/// Every character of a percent-encoded text is ASCII.
pub proof fn lemma_percent_encode_ascii(bytes: Seq<u8>)
    ensures
        vstd::utf8::is_ascii_chars(percent_encode(bytes)),
    decreases bytes.len(),
{
    if bytes.len() > 0 {
        lemma_percent_encode_ascii(bytes.drop_first());
        let head = encode_byte(bytes[0]);
        let tail = percent_encode(bytes.drop_first());
        assert forall|i: int| 0 <= i < (head + tail).len() implies '\0' <= #[trigger] (head
            + tail)[i] <= '\u{7f}' by {
            if i >= head.len() {
                assert((head + tail)[i] == tail[i - head.len()]);
            }
        }
    }
}

/// Turning `%2F` back into `/` in a percent-encoded text gives the text
/// encoded with the path separators kept.
pub proof fn lemma_restore_slashes(bytes: Seq<u8>)
    ensures
        restore_slashes(percent_encode(bytes)) == encode_path(bytes),
    decreases bytes.len(),
{
    if bytes.len() > 0 {
        let b = bytes[0];
        let tail = percent_encode(bytes.drop_first());
        let all = percent_encode(bytes);
        lemma_restore_slashes(bytes.drop_first());
        if is_unreserved(b) {
            assert(all[0] == b as char);
            assert(all.drop_first() =~= tail);
        } else {
            let hi = hex_digit(b as int / 16);
            let lo = hex_digit(b as int % 16);
            assert(all[0] == '%' && all[1] == hi && all[2] == lo);
            if b == 0x2F {
                assert(hi == '2' && lo == 'F');
                assert(all.subrange(3, all.len() as int) =~= tail);
            } else {
                assert(!(hi == '2' && lo == 'F'));
                let after_mark = all.drop_first();
                let after_hi = after_mark.drop_first();
                assert(after_mark[0] == hi && after_hi[0] == lo);
                assert(hi != '%' && lo != '%');
                assert(after_hi.drop_first() =~= tail);
                assert(restore_slashes(after_hi) == seq![lo] + restore_slashes(tail));
                assert(restore_slashes(after_mark) == seq![hi] + restore_slashes(after_hi));
                assert(restore_slashes(all) == seq!['%'] + restore_slashes(after_mark));
                assert(seq!['%'] + (seq![hi] + (seq![lo] + restore_slashes(tail))) =~= seq![
                    '%',
                    hi,
                    lo,
                ] + restore_slashes(tail));
            }
        }
    }
}

/// Percent-encodes `text` with `urlencoding::encode`: every byte of its
/// UTF-8 form that is not an ASCII letter, a digit or one of `-`, `.`,
/// `_`, `~` becomes `%` and the byte's two upper-case hexadecimal digits.
#[verifier::external_body]
fn percent_encode_text(text: &str) -> (encoded: String)
    ensures
        encoded@ == percent_encode(text.spec_bytes()),
{
    urlencoding::encode(text).into_owned()
}

/// Turns every `%2F` of an ASCII text back into `/`.
fn restore_slashes_in(encoded: &str) -> (restored: String)
    requires
        encoded.is_ascii(),
    ensures
        restored@ == restore_slashes(encoded@),
{
    broadcast use vstd::string::group_string_axioms;

    let bytes = encoded.as_bytes();
    let n: usize = bytes.len();
    let ghost s = encoded@;
    assert(n == s.len());
    let mut restored = String::new();
    let mut i: usize = 0;
    proof {
        assert(s.subrange(0, s.len() as int) =~= s);
        reveal_strlit("/");
    }
    while i < n
        invariant
            i <= n,
            n == s.len(),
            s == encoded@,
            encoded.is_ascii(),
            bytes@ == encoded.spec_bytes(),
            "/"@ == seq!['/'],
            restored@ + restore_slashes(s.subrange(i as int, n as int)) == restore_slashes(s),
        decreases n - i,
    {
        let ghost here = s.subrange(i as int, n as int);
        if n - i >= 3 && bytes[i] == 0x25 && bytes[i + 1] == 0x32 && bytes[i + 2] == 0x46 {
            proof {
                assert(here[0] == '%' && here[1] == '2' && here[2] == 'F');
                assert(here.subrange(3, here.len() as int) =~= s.subrange(i + 3, n as int));
                assert(restored@ + (seq!['/'] + restore_slashes(s.subrange(i + 3, n as int)))
                    =~= (restored@ + seq!['/']) + restore_slashes(s.subrange(i + 3, n as int)));
            }
            restored.append("/");
            i += 3;
        } else {
            proof {
                assert(here[0] == s[i as int]);
                if n - i >= 3 {
                    assert(here[1] == s[i + 1] && here[2] == s[i + 2]);
                }
                assert(here.drop_first() =~= s.subrange(i + 1, n as int));
                assert(s.subrange(i as int, i + 1) =~= seq![s[i as int]]);
                assert(restored@ + (seq![s[i as int]] + restore_slashes(
                    s.subrange(i + 1, n as int),
                )) =~= (restored@ + seq![s[i as int]]) + restore_slashes(
                    s.subrange(i + 1, n as int),
                ));
            }
            restored.append(encoded.substring_ascii(i, i + 1));
            i += 1;
        }
    }
    proof {
        assert(s.subrange(n as int, n as int) =~= Seq::<char>::empty());
        assert(restored@ + Seq::<char>::empty() =~= restored@);
    }
    restored
}

/// Encodes an object key for a URL: percent-encoded, the path separators
/// kept.
pub fn encode_key(key: &str) -> (encoded: String)
    ensures
        encoded@ == encode_path(vstd::utf8::encode_utf8(key@)),
{
    let raw = percent_encode_text(key);
    proof {
        lemma_percent_encode_ascii(key.spec_bytes());
        lemma_restore_slashes(key.spec_bytes());
    }
    restore_slashes_in(raw.as_str())
}

/// Finds where `://` first stands in the first `end` characters.
fn find_scheme_mark(chars: &Vec<char>, end: usize) -> (mark: Option<usize>)
    requires
        end <= chars@.len(),
    ensures
        mark is Some <==> scheme_mark(chars@.subrange(0, end as int), 0) >= 0,
        mark matches Some(m) ==> m == scheme_mark(chars@.subrange(0, end as int), 0) && m + 3
            <= end,
{
    let ghost base = chars@.subrange(0, end as int);
    let mut i: usize = 0;
    while end - i >= 3
        invariant
            i <= end <= chars@.len(),
            base == chars@.subrange(0, end as int),
            scheme_mark(base, 0) == scheme_mark(base, i as int),
        decreases end - i,
    {
        proof {
            assert(base[i as int] == chars@[i as int]);
            assert(base[i + 1] == chars@[i + 1]);
            assert(base[i + 2] == chars@[i + 2]);
        }
        if chars[i] == ':' && chars[i + 1] == '/' && chars[i + 2] == '/' {
            return Some(i);
        }
        i += 1;
    }
    None
}

/// Builds the public URL of an object from the endpoint, the bucket and
/// the key as it is written in a URL.
pub fn compose_url(endpoint: &str, bucket: &str, encoded_key: &str) -> (url: String)
    ensures
        url@ == public_url_of(endpoint@, bucket@, encoded_key@),
{
    let chars = chars_of(endpoint);
    let end = trimmed_len(&chars, '/');
    let mark = find_scheme_mark(&chars, end);
    let ghost base = endpoint@.subrange(0, end as int);
    proof {
        reveal_strlit(".");
        reveal_strlit("/");
        assert("."@ =~= seq!['.']);
        assert("/"@ =~= seq!['/']);
    }
    let mut url = String::new();
    match mark {
        Some(m) => {
            url.append(endpoint.substring_char(0, m + 3));
            url.append(bucket);
            url.append(".");
            url.append(endpoint.substring_char(m + 3, end));
            proof {
                assert(endpoint@.subrange(0, m + 3) =~= base.subrange(0, m + 3));
                assert(endpoint@.subrange(m + 3, end as int) =~= base.subrange(
                    m + 3,
                    base.len() as int,
                ));
            }
        },
        None => {
            url.append(bucket);
            url.append(".");
            url.append(endpoint.substring_char(0, end));
        },
    }
    url.append("/");
    url.append(encoded_key);
    proof {
        assert(url@ =~= public_url_of(endpoint@, bucket@, encoded_key@));
    }
    url
}

/// The public URL of the object `key` in `bucket` at `endpoint`.
pub fn generate_url(endpoint: &str, bucket: &str, key: &str) -> (url: String)
    ensures
        url@ == object_url_of(endpoint@, bucket@, key@),
{
    let encoded = encode_key(key);
    compose_url(endpoint, bucket, encoded.as_str())
}

} // verus!
