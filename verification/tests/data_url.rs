use base64::prelude::{Engine, BASE64_STANDARD};
use poe2openai::data_url::{
    can_hash, data_url_to_temp_file, handle_data_url_to_temp_file, hash_base64_content,
    make_temp_file, mime_type_for_upload, mime_type_to_extension, sample, split_data_url, to_hex,
};

#[test]
fn mime_types_have_extensions() {
    for (mime, ext) in [
        ("image/jpeg", "jpeg"),
        ("image/jpg", "jpeg"),
        ("image/svg+xml", "svg"),
        ("text/plain", "txt"),
        ("application/xml", "xml"),
        ("text/xml", "xml"),
        ("application/x-gzip", "gz"),
        ("audio/mpeg", "mp3"),
        ("video/mpeg", "mpeg"),
        ("video/quicktime", "mov"),
    ] {
        assert_eq!(mime_type_to_extension(mime), Some(ext));
    }
    assert_eq!(mime_type_to_extension("image/PNG"), None);
}

#[test]
fn data_urls_are_taken_apart() {
    assert_eq!(
        split_data_url("data:image/png;base64,AAAA"),
        Ok(("image/png".to_string(), "AAAA".to_string()))
    );
    assert_eq!(split_data_url("image/png"), Err("Invalid data URL format".to_string()));
    for bad in ["data:image/png,x", "data:a;base64,b;base64,c"] {
        assert_eq!(
            split_data_url(bad),
            Err("Invalid data URL format: missing base64 separator".to_string())
        );
    }
}

#[test]
fn data_urls_become_files() {
    let file = data_url_to_temp_file("data:text/plain;base64,aGVsbG8=", "RANDOM").unwrap();
    assert_eq!(file.name, "poe2openai_RANDOM.txt");
    assert_eq!(file.contents, b"hello");
    let other = data_url_to_temp_file("data:x/y;base64,", "R").unwrap();
    assert_eq!((other.name.as_str(), other.contents.len()), ("poe2openai_R.bin", 0));
}

#[test]
fn bad_base64_is_reported() {
    let message = data_url_to_temp_file("data:text/plain;base64,a", "R").unwrap_err();
    assert!(message.starts_with("Base64 decoding failed: "));
    assert!(message.len() > "Base64 decoding failed: ".len());
    assert_eq!(
        make_temp_file("text/plain", Err("why".to_string()), "R"),
        Err("Base64 decoding failed: why".to_string())
    );
}

#[test]
fn file_names_are_random() {
    let url = "data:image/png;base64,AAAA";
    let a = handle_data_url_to_temp_file(url).unwrap();
    let b = handle_data_url_to_temp_file(url).unwrap();
    assert_ne!(a.name, b.name);
    assert_eq!(a.name.len(), "poe2openai_".len() + 16 + ".png".len());
    assert_eq!(a.contents, vec![0, 0, 0]);
}

#[test]
fn uploads_state_the_mime_type() {
    assert_eq!(mime_type_for_upload("data:image/png;base64,AA"), Some("image/png".to_string()));
    assert_eq!(mime_type_for_upload("data:data:x;base64,AA"), Some("x".to_string()));
    assert_eq!(mime_type_for_upload("data:,text"), Some(",text".to_string()));
    assert_eq!(mime_type_for_upload("https://x"), None);
}

#[test]
fn the_hash_is_that_of_the_data() {
    let abc = "ba7816bf8f01cfea414140de5dae2223b00361a396177a9cb410ff61f20015ad";
    assert_eq!(hash_base64_content("abc"), abc);
    assert_eq!(hash_base64_content("data:image/png;base64,abc"), abc);
    assert_eq!(hash_base64_content("data:image/gif;base64,abc"), abc);
    assert_eq!(hash_base64_content("data:a;base64,abc;base64,def"), abc);
    assert_eq!(
        hash_base64_content(""),
        "e3b0c44298fc1c149afbf4c8996fb92427ae41e4649b934ca495991b7852b855"
    );
}

#[test]
fn long_data_are_sampled() {
    let bytes: Vec<u8> = (0..3000u32).map(|i| (i % 251) as u8).collect();
    let short = sample(&bytes[..2048]);
    assert_eq!(short, bytes[..2048].to_vec());
    let long = sample(&bytes);
    assert_eq!(long.len(), 2048);
    assert_eq!(long[..1024], bytes[..1024]);
    assert_eq!(long[1024..], bytes[1976..]);
}

#[test]
fn the_middle_of_long_data_is_not_hashed() {
    let base = "A".repeat(1024) + "B" + &"C".repeat(1024);
    let other = "A".repeat(1024) + "X" + &"C".repeat(1024);
    assert_eq!(hash_base64_content(&base), hash_base64_content(&other));
    let ends = "A".repeat(1024) + "B" + &"C".repeat(1023) + "D";
    assert_ne!(hash_base64_content(&base), hash_base64_content(&ends));
}

#[test]
fn data_that_would_be_cut_inside_a_character_are_recognised() {
    assert!(can_hash("data:image/png;base64,AAAA"));
    assert!(can_hash(&"é".repeat(512)));
    assert!(can_hash(&"é".repeat(600)));
    assert!(!can_hash(&("a".to_string() + &"é".repeat(600))));
    assert!(!can_hash(&("é".repeat(1100) + "a")));
}

#[test]
fn bytes_become_hexadecimal_digits() {
    assert_eq!(to_hex(&vec![0, 9, 10, 255, 0x5a]), "00090aff5a");
}

#[test]
fn files_hold_what_was_encoded() {
    let bytes: Vec<u8> = (0..=255u8).chain([0, 255, 16, 32]).collect();
    for n in 0..bytes.len() {
        let url = format!("data:application/zip;base64,{}", BASE64_STANDARD.encode(&bytes[..n]));
        let file = data_url_to_temp_file(&url, "R").unwrap();
        assert_eq!((file.name.as_str(), file.contents.as_slice()), ("poe2openai_R.zip", &bytes[..n]));
    }
}

#[test]
fn only_canonical_base64_is_taken() {
    for bad in ["aGVsbG9=", "aGVsbG8", "=", "====", "aGVs=", "a GVs", "aGV-", "aGVsé", "AA==AAAA"] {
        let url = format!("data:text/plain;base64,{}", bad);
        assert!(data_url_to_temp_file(&url, "R").is_err(), "{}", bad);
    }
}
