use klia_store::cache::{cached_image_name, get_cached_image_filename, image_file_name};
use xxhash_rust::xxh3::xxh3_64;

#[test]
fn file_name_is_hash_in_lower_case_hexadecimal_and_extension() {
    assert_eq!(image_file_name(0, "png"), "0.png");
    assert_eq!(image_file_name(15, "svg"), "f.svg");
    assert_eq!(image_file_name(16, "jpg"), "10.jpg");
    assert_eq!(image_file_name(0xdead_beef, "webp"), "deadbeef.webp");
    assert_eq!(image_file_name(u64::MAX, "png"), "ffffffffffffffff.png");
    assert_eq!(image_file_name(0x0123_4567_89ab_cdef, "png"), "123456789abcdef.png");
}

#[test]
fn empty_address_hashes_to_the_known_value() {
    assert_eq!(get_cached_image_filename("", ""), "2d06800538d394c2.png");
}

#[test]
fn address_is_hashed_where_there_is_no_key_of_its_own() {
    let url = "https://dl.flathub.org/media/org/app/icon.png";
    let want = format!("{:x}.png", xxh3_64(url.as_bytes()));
    assert_eq!(get_cached_image_filename("", url), want);
    assert_eq!(get_cached_image_filename(url, url), want);
    assert_ne!(get_cached_image_filename("", url), format!("{}.png", url));
}

#[test]
fn key_is_hashed_where_it_differs_from_the_address() {
    let url = "https://example.org/a/b.webp";
    let want = format!("{:x}.webp", xxh3_64("org.app.Icon".as_bytes()));
    assert_eq!(get_cached_image_filename("org.app.Icon", url), want);
    assert_ne!(
        get_cached_image_filename("org.app.Icon", url),
        get_cached_image_filename("", url)
    );
}

#[test]
fn extension_follows_the_end_of_the_address() {
    let h = |u: &str| format!("{:x}", xxh3_64(u.as_bytes()));
    for (url, ext) in [
        ("a.svg", "svg"),
        ("a.webp", "webp"),
        ("a.jpg", "jpg"),
        ("a.jpeg", "jpg"),
        ("a.png", "png"),
        ("a.gif", "png"),
        ("a.svg?x=1", "png"),
        ("svg", "png"),
    ] {
        assert_eq!(get_cached_image_filename("", url), format!("{}.{}", h(url), ext));
    }
}

#[test]
fn stored_name_also_reads_the_extension_in_front_of_a_query() {
    let h = |u: &str| format!("{:x}", xxh3_64(u.as_bytes()));
    for (url, ext) in [
        ("a.svg", "svg"),
        ("a.svg?x=1", "svg"),
        ("a.webp?x", "webp"),
        ("a.jpg?x", "jpg"),
        ("a.jpeg?x", "jpg"),
        ("a.jpeg", "jpg"),
        ("a.png?x", "png"),
        ("a.svg?b.webp", "svg"),
    ] {
        assert_eq!(cached_image_name("", url), format!("{}.{}", h(url), ext));
    }
}
