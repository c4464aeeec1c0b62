//! Names of cached images: a hash of what identifies the image, and an
//! extension read off its address.
use crate::text::{
    chars_of, contains_chars, contains_seq, ends_with, ends_with_chars, eq_chars,
};
use vstd::prelude::*;
use vstd::utf8::encode_utf8;

verus! {

/// The 64-bit XXH3 hash of `input`, with the default secret and no seed.
pub uninterp spec fn xxh3_64_of(input: Seq<u8>) -> u64;

/// `xxhash_rust::xxh3::xxh3_64` computes the 64-bit XXH3 hash of its input:
/// the same bytes give the same hash, whatever the machine.
pub assume_specification[ xxhash_rust::xxh3::xxh3_64 ](input: &[u8]) -> (hash: u64)
    ensures
        hash == xxh3_64_of(input@),
;

/// The hexadecimal digits, in order.
pub open spec fn hex_alphabet() -> Seq<char> {
    seq!['0', '1', '2', '3', '4', '5', '6', '7', '8', '9', 'a', 'b', 'c', 'd', 'e', 'f']
}

/// `n` in hexadecimal: lower case, no leading zeros, `0` for zero.
pub open spec fn hex_digits(n: nat) -> Seq<char>
    decreases n,
{
    if n < 16 {
        seq![hex_alphabet()[n as int]]
    } else {
        hex_digits(n / 16).push(hex_alphabet()[(n % 16) as int])
    }
}

/// What is hashed for an image: its cache key where it has one of its own,
/// else its address.
pub open spec fn hashed_text(cache_key: Seq<char>, image_url: Seq<char>) -> Seq<char> {
    if cache_key.len() > 0 && cache_key != image_url {
        cache_key
    } else {
        image_url
    }
}

/// The extension that the end of an address tells; `png` where it tells none.
pub open spec fn extension_by_suffix(url: Seq<char>) -> Seq<char> {
    if ends_with(url, ".svg"@) {
        "svg"@
    } else if ends_with(url, ".webp"@) {
        "webp"@
    } else if ends_with(url, ".jpg"@) || ends_with(url, ".jpeg"@) {
        "jpg"@
    } else {
        "png"@
    }
}

/// The extension that an address tells at its end or in front of a query;
/// `png` where it tells none.
pub open spec fn extension_of_url(url: Seq<char>) -> Seq<char> {
    if ends_with(url, ".svg"@) || contains_seq(url, ".svg?"@) {
        "svg"@
    } else if ends_with(url, ".webp"@) || contains_seq(url, ".webp?"@) {
        "webp"@
    } else if ends_with(url, ".jpg"@) || ends_with(url, ".jpeg"@) || contains_seq(url, ".jpg?"@)
        || contains_seq(url, ".jpeg?"@) {
        "jpg"@
    } else {
        "png"@
    }
}

/// The file name for a hash and an extension: the hash in hexadecimal, a dot,
/// the extension.
pub open spec fn file_name(hash: u64, extension: Seq<char>) -> Seq<char> {
    hex_digits(hash as nat) + "."@ + extension
}

fn hex_char(d: u64) -> (c: char)
    requires
        d < 16,
    ensures
        c == hex_alphabet()[d as int],
{
    if d == 0 {
        '0'
    } else if d == 1 {
        '1'
    } else if d == 2 {
        '2'
    } else if d == 3 {
        '3'
    } else if d == 4 {
        '4'
    } else if d == 5 {
        '5'
    } else if d == 6 {
        '6'
    } else if d == 7 {
        '7'
    } else if d == 8 {
        '8'
    } else if d == 9 {
        '9'
    } else if d == 10 {
        'a'
    } else if d == 11 {
        'b'
    } else if d == 12 {
        'c'
    } else if d == 13 {
        'd'
    } else if d == 14 {
        'e'
    } else {
        'f'
    }
}

fn push_hex(n: u64, out: &mut String)
    ensures
        final(out)@ == old(out)@ + hex_digits(n as nat),
    decreases n,
{
    if n >= 16 {
        push_hex(n / 16, out);
    }
    out.push(hex_char(n % 16));
    assert(final(out)@ =~= old(out)@ + hex_digits(n as nat));
}

/// The file name for `hash` and `extension`.
pub fn image_file_name(hash: u64, extension: &str) -> (name: String)
    ensures
        name@ == file_name(hash, extension@),
{
    let mut name = String::new();
    push_hex(hash, &mut name);
    name.append(".");
    name.append(extension);
    assert(name@ =~= file_name(hash, extension@));
    name
}

fn hash_of_image(cache_key: &str, image_url: &str) -> (hash: u64)
    ensures
        hash == xxh3_64_of(encode_utf8(hashed_text(cache_key@, image_url@))),
{
    let own_key = !cache_key.is_empty() && !eq_chars(&chars_of(cache_key), &chars_of(image_url));
    if own_key {
        xxhash_rust::xxh3::xxh3_64(cache_key.as_bytes())
    } else {
        xxhash_rust::xxh3::xxh3_64(image_url.as_bytes())
    }
}

/// The name under which the image at `image_url` is looked up: the hash of
/// its key and the extension that the end of the address tells.
pub fn get_cached_image_filename(cache_key: &str, image_url: &str) -> (name: String)
    ensures
        name@ == file_name(
            xxh3_64_of(encode_utf8(hashed_text(cache_key@, image_url@))),
            extension_by_suffix(image_url@),
        ),
{
    let url = chars_of(image_url);
    let extension = if ends_with_chars(&url, &chars_of(".svg")) {
        "svg"
    } else if ends_with_chars(&url, &chars_of(".webp")) {
        "webp"
    } else if ends_with_chars(&url, &chars_of(".jpg")) || ends_with_chars(
        &url,
        &chars_of(".jpeg"),
    ) {
        "jpg"
    } else {
        "png"
    };
    image_file_name(hash_of_image(cache_key, image_url), extension)
}

/// The name under which the image at `image_url` is stored: the hash of its
/// key and the extension that the address tells, a query behind it or not.
pub fn cached_image_name(cache_key: &str, image_url: &str) -> (name: String)
    ensures
        name@ == file_name(
            xxh3_64_of(encode_utf8(hashed_text(cache_key@, image_url@))),
            extension_of_url(image_url@),
        ),
{
    let url = chars_of(image_url);
    let extension = if ends_with_chars(&url, &chars_of(".svg")) || contains_chars(
        &url,
        &chars_of(".svg?"),
    ) {
        "svg"
    } else if ends_with_chars(&url, &chars_of(".webp")) || contains_chars(
        &url,
        &chars_of(".webp?"),
    ) {
        "webp"
    } else if ends_with_chars(&url, &chars_of(".jpg")) || ends_with_chars(
        &url,
        &chars_of(".jpeg"),
    ) || contains_chars(&url, &chars_of(".jpg?")) || contains_chars(&url, &chars_of(".jpeg?")) {
        "jpg"
    } else {
        "png"
    };
    image_file_name(hash_of_image(cache_key, image_url), extension)
}

} // verus!
