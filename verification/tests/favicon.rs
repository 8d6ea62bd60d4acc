use oma_browse::favicon::{base64, data_url, database_dir, fit, Fit};

#[test]
fn base64_matches_the_rfc_vectors() {
    // RFC 4648 section 10, which is also every padding case there is.
    assert_eq!(base64(b""), "");
    assert_eq!(base64(b"f"), "Zg==");
    assert_eq!(base64(b"fo"), "Zm8=");
    assert_eq!(base64(b"foo"), "Zm9v");
    assert_eq!(base64(b"foob"), "Zm9vYg==");
    assert_eq!(base64(b"fooba"), "Zm9vYmE=");
    assert_eq!(base64(b"foobar"), "Zm9vYmFy");
}

#[test]
fn base64_covers_the_whole_alphabet() {
    // Every byte value round-trips through the encoder's arithmetic, which is where an
    // off-by-one in the shift table would show up.
    let all: Vec<u8> = (0..=255u8).collect();
    let encoded = base64(&all);
    assert_eq!(encoded.len(), 344, "256 bytes is 344 base64 characters with padding");
    assert!(encoded.ends_with('='), "256 is not a multiple of three");
    assert!(encoded.chars().all(|c| c.is_ascii_alphanumeric() || "+/=".contains(c)));
}

#[test]
fn an_icon_fits_in_the_square_it_is_asked_for() {
    assert_eq!(fit(0, 16, 32), Fit::Nothing);
    assert_eq!(fit(16, 16, 32), Fit::AsIs);
    assert_eq!(fit(64, 64, 32), Fit::Scale(32));
    assert_eq!(fit(64, 64, 0), Fit::Scale(1));
    assert_eq!(data_url(b"foo"), "data:image/png;base64,Zm9v");
}

#[test]
fn a_private_windows_icons_are_kept_nowhere_that_lasts() {
    let private = database_dir(true, Some("/run/user/1000"), Some("/c"), Some("/home/me"));
    assert!(private.map_or(true, |d| d.starts_with("/run/user/1000")));
    let kept = database_dir(false, Some("/run/user/1000"), Some("/c"), Some("/home/me")).unwrap();
    assert!(kept.starts_with("/c/"), "{kept}");
}
