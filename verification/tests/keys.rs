use octosync::public_keys::{PublicKey, PublicKeys};

const KEY1: &str = "ssh-ed25519 AAAAC3NzaC1lZDI1NTE5AAAAIBV7RbtHsMgxdZoHYjAxh4myaRJ0ujTrHkww1YmbpY67 key1@host";
const KEY2: &str = "ssh-ed25519 AAAAC3NzaC1lZDI1NTE5AAAAIF39Jis8OSS4JRN+T/Putk9u5ym85EMfRPKM8mFTlcsH key2@host";

#[test]
fn roundtrip_preserves_lines_and_order() {
    let input = format!("{KEY1}\n{KEY2}");
    let keys = PublicKeys::from_str(&input);
    assert_eq!(keys.len(), 2);
    assert_eq!(keys.to_text(), input);
    let again = PublicKeys::from_str(&keys.to_text());
    assert_eq!(again.to_text(), input);
}

#[test]
fn parse_skips_invalid_lines() {
    let input = format!("{KEY1}\nnot a key\nssh-ed25519 %%%invalid-base64%%% x@y\n{KEY2}");
    let keys = PublicKeys::from_str(&input);
    assert_eq!(keys.len(), 2);
    assert_eq!(keys.to_text(), format!("{KEY1}\n{KEY2}"));
}

#[test]
fn parse_skips_empty_lines() {
    let keys = PublicKeys::from_str(&format!("{KEY1}\n\n{KEY2}\n"));
    assert_eq!(keys.len(), 2);
}

#[test]
fn duplicate_key_data_is_deduplicated_ignoring_comment() {
    let same_key_other_comment = KEY1.replace("key1@host", "other-comment");
    let keys = PublicKeys::from_str(&format!("{KEY1}\n{same_key_other_comment}\n{KEY2}"));
    assert_eq!(keys.len(), 2);
    // The first occurrence wins and keeps its comment
    assert_eq!(keys.to_text(), format!("{KEY1}\n{KEY2}"));
}

#[test]
fn empty_input_is_empty() {
    let keys = PublicKeys::from_str("");
    assert!(keys.is_empty());
    assert_eq!(keys.to_text(), "");
}

#[test]
fn key_data_does_not_depend_on_the_comment() {
    let a = PublicKey::parse(KEY1).unwrap();
    let b = PublicKey::parse(&KEY1.replace("key1@host", "other-comment")).unwrap();
    let c = PublicKey::parse(KEY2).unwrap();
    assert_eq!(a.data(), b.data());
    assert_ne!(a.data(), c.data());
    assert_ne!(a.text(), b.text());
    assert!(a.data().starts_with(b"\x00\x00\x00\x0bssh-ed25519"));
}

#[test]
fn text_is_the_canonical_form() {
    let key = PublicKey::parse(&format!("{KEY1}   ")).unwrap();
    assert_eq!(key.text(), KEY1);
    let again = PublicKey::parse(key.text()).unwrap();
    assert_eq!(again.text(), key.text());
    assert_eq!(again.data(), key.data());
    assert!(PublicKey::parse("# comment").is_none());
    assert!(PublicKey::parse("").is_none());
}

#[test]
fn insert_ignores_known_key_data() {
    let mut keys = PublicKeys::default();
    keys.insert(PublicKey::parse(KEY1).unwrap());
    keys.insert(PublicKey::parse(&KEY1.replace("key1@host", "x")).unwrap());
    assert_eq!(keys.len(), 1);
    assert_eq!(keys.key(0).text(), KEY1);
    assert_eq!(keys.texts(), vec![KEY1.to_string()]);
}

#[test]
fn a_full_page_asks_for_another() {
    let mut keys = PublicKeys::default();
    let mut page = vec![KEY1.to_string(), "junk".to_string(), KEY2.to_string()];
    assert!(!keys.add_page(&page));
    assert_eq!(keys.len(), 2);
    page.resize(100, KEY1.to_string());
    assert!(keys.add_page(&page));
    assert_eq!(keys.len(), 2);
    page.truncate(99);
    assert!(!keys.add_page(&page));
}
